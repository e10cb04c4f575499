//! User accounts and the profile's name and location: reading
//! `/etc/passwd`-style account lists, choosing between the account service
//! and that fallback, and composing display names.

use vstd::prelude::*;

use crate::text::{
    char_vec_views, chars_are, chars_of, ends_with, is_space, slice_chars, split_chars, split_on,
    string_from, trim, trim_chars, upper_char, upper_char_exec,
};

verus! {

/// A login account on this machine.
#[derive(Debug, Clone)]
pub struct Account {
    pub username: String,
    pub real_name: String,
    pub administrator: bool,
    pub icon_path: Option<std::path::PathBuf>,
}

/// The lines of `text` as `str::lines` gives them: split at `\n`, without a
/// final empty line; a line that a `\n` ends is stripped of one trailing
/// `\r`, while a last line with no `\n` after it is kept whole.
pub open spec fn text_lines(text: Seq<char>) -> Seq<Seq<char>> {
    let pieces = split_on(text, '\n');
    let ended = pieces.drop_last().map_values(|line: Seq<char>| strip_carriage_return(line));
    if pieces.last().len() == 0 {
        ended
    } else {
        ended.push(pieces.last())
    }
}

/// `line` without one trailing `\r`.
pub open spec fn strip_carriage_return(line: Seq<char>) -> Seq<char> {
    if line.len() > 0 && line.last() == '\r' {
        line.drop_last()
    } else {
        line
    }
}

/// Whether `c` is an ASCII digit.
pub open spec fn is_digit(c: char) -> bool {
    '0' <= c <= '9'
}

/// The value of a string of decimal digits.
pub open spec fn decimal_value(digits: Seq<char>) -> int
    decreases digits.len(),
{
    if digits.len() == 0 {
        0
    } else {
        decimal_value(digits.drop_last()) * 10 + ((digits.last() as u32) - ('0' as u32))
    }
}

/// `text` without one leading `+`.
pub open spec fn unsigned_digits(text: Seq<char>) -> Seq<char> {
    if text.len() > 0 && text[0] == '+' {
        text.drop_first()
    } else {
        text
    }
}

/// Every character of `s` is an ASCII digit.
pub open spec fn all_digits(s: Seq<char>) -> bool {
    forall|k: int| 0 <= k < s.len() ==> is_digit(#[trigger] s[k])
}

/// `u32::from_str`: an optional `+`, then one or more ASCII digits whose
/// value fits in 32 bits.
pub open spec fn parse_u32(text: Seq<char>) -> Option<u32> {
    let digits = unsigned_digits(text);
    if digits.len() == 0 || !all_digits(digits) {
        None
    } else if decimal_value(digits) > u32::MAX {
        None
    } else {
        Some(decimal_value(digits) as u32)
    }
}

/// A prefix of a string of digits is worth no more than the whole string.
pub(crate) proof fn lemma_decimal_value_grows(digits: Seq<char>, n: int)
    requires
        0 <= n <= digits.len(),
        forall|k: int| 0 <= k < digits.len() ==> is_digit(#[trigger] digits[k]),
    ensures
        decimal_value(digits) >= decimal_value(digits.take(n)) >= 0,
    decreases digits.len(),
{
    if digits.len() > 0 {
        if n == digits.len() {
            assert(digits.take(n) == digits);
            lemma_decimal_value_grows(digits.drop_last(), digits.len() - 1);
            assert(digits.drop_last().take(digits.len() - 1) == digits.drop_last());
        } else {
            lemma_decimal_value_grows(digits.drop_last(), n);
            assert(digits.drop_last().take(n) == digits.take(n));
            lemma_decimal_value_grows(digits.drop_last(), digits.len() - 1);
            assert(digits.drop_last().take(digits.len() - 1) == digits.drop_last());
        }
    }
}

/// Parses a decimal `u32` the way `str::parse::<u32>` does.
pub fn parse_decimal_u32(text: &[char]) -> (value: Option<u32>)
    ensures
        value == parse_u32(text@),
{
    let start: usize = if text.len() > 0 && text[0] == '+' { 1 } else { 0 };
    let ghost digits = unsigned_digits(text@);
    assert(digits == text@.subrange(start as int, text@.len() as int));
    if start == text.len() {
        return None;
    }
    let mut value: u64 = 0;
    let mut i: usize = start;
    while i < text.len()
        invariant
            start <= i <= text@.len(),
            digits == unsigned_digits(text@),
            digits == text@.subrange(start as int, text@.len() as int),
            forall|k: int| start <= k < i ==> is_digit(#[trigger] text@[k]),
            value as int == decimal_value(digits.take(i - start)),
            value <= u32::MAX,
        decreases text@.len() - i,
    {
        let c = text[i];
        assert(digits[i - start] == text@[i as int]);
        if !('0' <= c && c <= '9') {
            assert(!is_digit(digits[i - start]));
            assert(!all_digits(digits));
            return None;
        }
        let d: u64 = (c as u32 - '0' as u32) as u64;
        assert(digits.take(i - start + 1).drop_last() == digits.take(i - start));
        assert(digits.take(i - start + 1).last() == c);
        value = value * 10 + d;
        assert(value as int == decimal_value(digits.take(i - start + 1)));
        if value > 0xffff_ffff {
            proof {
                if all_digits(digits) {
                    lemma_decimal_value_grows(digits, i - start + 1);
                }
            }
            return None;
        }
        i = i + 1;
    }
    assert(digits.take(i - start) == digits);
    Some(value as u32)
}

/// The user name and real name an `/etc/passwd` line contributes: only
/// accounts with a numeric uid of at least 1000 whose login shell is not a
/// `nologin` or `false` shell; the real name is the GECOS field up to its
/// first comma.
pub open spec fn passwd_entry(line: Seq<char>) -> Option<(Seq<char>, Seq<char>)> {
    let fields = split_on(line, ':');
    if fields.len() < 3 {
        None
    } else {
        match parse_u32(fields[2]) {
            None => None,
            Some(uid) => if fields.len() < 7 {
                None
            } else if uid >= 1000 && !ends_with(fields[6], "nologin"@) && !ends_with(fields[6], "false"@) {
                Some((fields[0], split_on(fields[4], ',')[0]))
            } else {
                None
            },
        }
    }
}

/// The accounts of every line of a passwd file, in file order.
pub open spec fn passwd_entries(lines: Seq<Seq<char>>) -> Seq<(Seq<char>, Seq<char>)>
    decreases lines.len(),
{
    if lines.len() == 0 {
        Seq::empty()
    } else {
        let rest = passwd_entries(lines.drop_last());
        match passwd_entry(lines.last()) {
            Some(entry) => rest.push(entry),
            None => rest,
        }
    }
}


/// Which passwd lines are login accounts: a line whose shell field ends
/// with `nologin` or `false` never is, nor is one whose uid is not a number
/// of at least 1000; any other line with seven fields is, under its user
/// name and the GECOS field up to its first comma.
pub proof fn only_login_shells_are_listed(line: Seq<char>)
    ensures
        split_on(line, ':').len() >= 7 && (ends_with(split_on(line, ':')[6], "nologin"@) || ends_with(split_on(line, ':')[6], "false"@))
            ==> passwd_entry(line) is None,
        !(parse_u32(split_on(line, ':')[2]) matches Some(uid) && uid >= 1000) ==> passwd_entry(line) is None,
        split_on(line, ':').len() >= 7 && (parse_u32(split_on(line, ':')[2]) matches Some(uid) && uid >= 1000)
            && !ends_with(split_on(line, ':')[6], "nologin"@) && !ends_with(split_on(line, ':')[6], "false"@)
            ==> passwd_entry(line) == Some((split_on(line, ':')[0], split_on(split_on(line, ':')[4], ',')[0])),
{
}

proof fn lemma_passwd_entries_append(first: Seq<Seq<char>>, second: Seq<Seq<char>>)
    ensures
        passwd_entries(first + second) == passwd_entries(first) + passwd_entries(second),
    decreases second.len(),
{
    if second.len() == 0 {
        assert(first + second =~= first);
        assert(passwd_entries(first) + passwd_entries(second) =~= passwd_entries(first));
    } else {
        lemma_passwd_entries_append(first, second.drop_last());
        assert((first + second).drop_last() =~= first + second.drop_last());
        assert((first + second).last() == second.last());
        let front = passwd_entries(first);
        let back = passwd_entries(second.drop_last());
        match passwd_entry(second.last()) {
            Some(entry) => {
                assert((front + back).push(entry) =~= front + back.push(entry));
            },
            None => {},
        }
    }
}

/// A line whose shell ends with `nologin` or `false` adds no account,
/// wherever it stands in the file.
pub proof fn nologin_lines_add_no_account(before: Seq<Seq<char>>, line: Seq<char>, after: Seq<Seq<char>>)
    requires
        split_on(line, ':').len() >= 7,
        ends_with(split_on(line, ':')[6], "nologin"@) || ends_with(split_on(line, ':')[6], "false"@),
    ensures
        passwd_entries(before + seq![line] + after) == passwd_entries(before + after),
{
    only_login_shells_are_listed(line);
    lemma_passwd_entries_append(before + seq![line], after);
    lemma_passwd_entries_append(before, after);
    assert((before + seq![line]).drop_last() =~= before);
    assert((before + seq![line]).last() == line);
}

/// The user and real names of a list of accounts.
pub open spec fn account_names(accounts: Seq<Account>) -> Seq<(Seq<char>, Seq<char>)> {
    accounts.map_values(|a: Account| (a.username@, a.real_name@))
}

pub(crate) fn text_lines_of(text: &str) -> (lines: Vec<Vec<char>>)
    ensures
        char_vec_views(lines@) == text_lines(text@),
{
    let chars = chars_of(text);
    let pieces = split_chars(&chars, '\n');
    let ghost all = char_vec_views(pieces@);
    proof {
        crate::text::lemma_split_on_nonempty(text@, '\n');
    }
    let count = pieces.len() - 1;
    let ghost ended = all.drop_last().map_values(|line: Seq<char>| strip_carriage_return(line));
    let mut lines: Vec<Vec<char>> = Vec::new();
    let mut k: usize = 0;
    while k < count
        invariant
            0 <= k <= count,
            count + 1 == pieces@.len(),
            all == char_vec_views(pieces@),
            ended == all.drop_last().map_values(|line: Seq<char>| strip_carriage_return(line)),
            char_vec_views(lines@) == ended.take(k as int),
        decreases count - k,
    {
        let piece = &pieces[k];
        assert(all[k as int] == piece@);
        let line = if piece.len() > 0 && piece[piece.len() - 1] == '\r' {
            let trimmed = slice_chars(piece, 0, piece.len() - 1);
            assert(trimmed@ =~= piece@.drop_last());
            trimmed
        } else {
            let whole = slice_chars(piece, 0, piece.len());
            assert(whole@ =~= piece@);
            whole
        };
        assert(line@ == strip_carriage_return(piece@));
        let ghost before = lines@;
        lines.push(line);
        assert(char_vec_views(lines@) =~= char_vec_views(before).push(line@));
        assert(ended.take(k + 1) =~= ended.take(k as int).push(ended[k as int]));
        k = k + 1;
    }
    assert(ended.take(count as int) =~= ended);
    let last = &pieces[count];
    assert(all.last() == last@);
    if last.len() > 0 {
        let whole = slice_chars(last, 0, last.len());
        assert(whole@ =~= last@);
        let ghost before = lines@;
        lines.push(whole);
        assert(char_vec_views(lines@) =~= char_vec_views(before).push(whole@));
    }
    lines
}

fn passwd_line(line: &[char]) -> (entry: Option<(String, String)>)
    ensures
        match entry {
            Some((user, full)) => passwd_entry(line@) == Some((user@, full@)),
            None => passwd_entry(line@) is None,
        },
{
    let fields = split_chars(line, ':');
    if fields.len() < 3 {
        return None;
    }
    let uid = match parse_decimal_u32(&fields[2]) {
        Some(uid) => uid,
        None => return None,
    };
    if fields.len() < 7 {
        return None;
    }
    let shell = &fields[6];
    let nologin = chars_of("nologin");
    let never = chars_of("false");
    if uid >= 1000 && !crate::text::ends_with_chars(shell, &nologin) && !crate::text::ends_with_chars(shell, &never) {
        let gecos = split_chars(&fields[4], ',');
        let user = string_from(&fields[0]);
        let full = string_from(&gecos[0]);
        Some((user, full))
    } else {
        None
    }
}

/// The login accounts an `/etc/passwd` file lists (see [`passwd_entry`]),
/// none of them an administrator or with an avatar.
pub fn passwd_accounts(contents: &str) -> (accounts: Vec<Account>)
    ensures
        account_names(accounts@) == passwd_entries(text_lines(contents@)),
        forall|k: int| 0 <= k < accounts@.len() ==> !(#[trigger] accounts@[k]).administrator && accounts@[k].icon_path is None,
{
    let lines = text_lines_of(contents);
    let ghost views = char_vec_views(lines@);
    let mut accounts: Vec<Account> = Vec::new();
    let mut k: usize = 0;
    assert(views.take(0) =~= Seq::<Seq<char>>::empty());
    assert(account_names(accounts@) =~= Seq::<(Seq<char>, Seq<char>)>::empty());
    while k < lines.len()
        invariant
            0 <= k <= lines@.len(),
            views == char_vec_views(lines@),
            account_names(accounts@) == passwd_entries(views.take(k as int)),
            forall|m: int| 0 <= m < accounts@.len() ==> !(#[trigger] accounts@[m]).administrator && accounts@[m].icon_path is None,
        decreases lines@.len() - k,
    {
        assert(views.take(k + 1).drop_last() == views.take(k as int));
        assert(views.take(k + 1).last() == lines@[k as int]@);
        match passwd_line(&lines[k]) {
            Some((username, real_name)) => {
                accounts.push(Account { username, real_name, administrator: false, icon_path: None });
                assert(account_names(accounts@) =~= passwd_entries(views.take(k + 1)));
            },
            None => {},
        }
        k = k + 1;
    }
    assert(views.take(views.len() as int) == views);
    accounts
}

/// `accounts` without those whose user name is empty.
pub open spec fn named_accounts(accounts: Seq<Account>) -> Seq<Account>
    decreases accounts.len(),
{
    if accounts.len() == 0 {
        Seq::empty()
    } else {
        let rest = named_accounts(accounts.drop_last());
        if accounts.last().username@.len() == 0 {
            rest
        } else {
            rest.push(accounts.last())
        }
    }
}

/// The accounts Settings lists: those the account service reported, minus
/// any without a user name, when the service answered; otherwise the login
/// accounts of the passwd file, when it could be read.
pub fn list_accounts(service: Option<Vec<Account>>, passwd: Option<String>) -> (accounts: Vec<Account>)
    ensures
        match service {
            Some(reported) => accounts@ == named_accounts(reported@),
            None => match passwd {
                Some(contents) => account_names(accounts@) == passwd_entries(text_lines(contents@))
                    && forall|k: int| 0 <= k < accounts@.len() ==> !(#[trigger] accounts@[k]).administrator
                        && accounts@[k].icon_path is None,
                None => accounts@.len() == 0,
            },
        },
{
    match service {
        Some(mut reported) => {
            let ghost initial = reported@;
            let mut kept: Vec<Account> = Vec::new();
            let ghost mut k: int = 0;
            assert(initial.take(0) =~= Seq::<Account>::empty());
            while reported.len() > 0
                invariant
                    0 <= k <= initial.len(),
                    k + reported@.len() == initial.len(),
                    reported@ == initial.skip(k),
                    kept@ == named_accounts(initial.take(k)),
                decreases reported@.len(),
            {
                let account = reported.remove(0);
                assert(account == initial[k]);
                assert(initial.take(k + 1).drop_last() == initial.take(k));
                assert(initial.take(k + 1).last() == initial[k]);
                if !account.username.as_str().is_empty() {
                    kept.push(account);
                }
                assert(reported@ =~= initial.skip(k + 1));
                proof {
                    k = k + 1;
                }
            }
            assert(initial.take(initial.len() as int) == initial);
            kept
        },
        None => match passwd {
            Some(contents) => passwd_accounts(contents.as_str()),
            None => Vec::new(),
        },
    }
}

/// The account an account-service user record describes, unless it is a
/// system account: an administrator when its account type is 1.
pub fn account_from_record(
    system_account: Option<i64>,
    username: String,
    real_name: String,
    account_type: Option<i64>,
    icon_path: Option<std::path::PathBuf>,
) -> (account: Option<Account>)
    ensures
        (system_account is Some && system_account->0 != 0) ==> account is None,
        !(system_account is Some && system_account->0 != 0) ==> account is Some && account->0.username
            == username && account->0.real_name == real_name && account->0.administrator == (account_type
            == Some(1i64)) && account->0.icon_path == icon_path,
{
    let system = match system_account {
        Some(flag) => flag != 0,
        None => false,
    };
    if system {
        return None;
    }
    let administrator = match account_type {
        Some(kind) => kind == 1,
        None => false,
    };
    Some(Account { username, real_name, administrator, icon_path })
}


/// `parts` without the empty ones.
pub open spec fn nonempty_parts(parts: Seq<Seq<char>>) -> Seq<Seq<char>>
    decreases parts.len(),
{
    if parts.len() == 0 {
        Seq::empty()
    } else {
        let rest = nonempty_parts(parts.drop_last());
        if parts.last().len() == 0 {
            rest
        } else {
            rest.push(parts.last())
        }
    }
}

/// `parts` joined with `separator` between consecutive parts (`[T]::join`).
pub open spec fn joined(parts: Seq<Seq<char>>, separator: Seq<char>) -> Seq<char>
    decreases parts.len(),
{
    if parts.len() == 0 {
        Seq::empty()
    } else if parts.len() == 1 {
        parts[0]
    } else {
        joined(parts.drop_last(), separator) + separator + parts.last()
    }
}

/// The trimmed, non-empty parts joined with `separator`.
pub open spec fn join_trimmed(parts: Seq<Seq<char>>, separator: Seq<char>) -> Seq<char> {
    joined(nonempty_parts(parts.map_values(|part: Seq<char>| trim(part))), separator)
}

fn join_trimmed_parts(parts: Vec<&str>, separator: &str) -> (text: String)
    ensures
        text@ == join_trimmed(parts@.map_values(|part: &str| part@), separator@),
{
    let ghost views = parts@.map_values(|part: &str| part@);
    let ghost trimmed = views.map_values(|part: Seq<char>| trim(part));
    let sep = chars_of(separator);
    let mut out: Vec<char> = Vec::new();
    let ghost mut kept: Seq<Seq<char>> = Seq::empty();
    let mut have_any = false;
    let mut k: usize = 0;
    assert(trimmed.take(0) =~= Seq::<Seq<char>>::empty());
    while k < parts.len()
        invariant
            0 <= k <= parts@.len(),
            views == parts@.map_values(|part: &str| part@),
            trimmed == views.map_values(|part: Seq<char>| trim(part)),
            sep@ == separator@,
            kept == nonempty_parts(trimmed.take(k as int)),
            have_any == (kept.len() > 0),
            out@ == joined(kept, separator@),
        decreases parts@.len() - k,
    {
        let chars = chars_of(parts[k]);
        let part = trim_chars(&chars);
        assert(part@ == trimmed[k as int]);
        assert(trimmed.take(k + 1).drop_last() == trimmed.take(k as int));
        assert(trimmed.take(k + 1).last() == part@);
        if part.len() > 0 {
            if have_any {
                let mut i: usize = 0;
                let ghost start = out@;
                while i < sep.len()
                    invariant
                        0 <= i <= sep@.len(),
                        out@ == start + sep@.take(i as int),
                    decreases sep@.len() - i,
                {
                    out.push(sep[i]);
                    assert(sep@.take(i + 1) == sep@.take(i as int).push(sep@[i as int]));
                    i = i + 1;
                }
                assert(sep@.take(sep@.len() as int) == sep@);
            }
            let mut i: usize = 0;
            let ghost start = out@;
            while i < part.len()
                invariant
                    0 <= i <= part@.len(),
                    out@ == start + part@.take(i as int),
                decreases part@.len() - i,
            {
                out.push(part[i]);
                assert(part@.take(i + 1) == part@.take(i as int).push(part@[i as int]));
                i = i + 1;
            }
            assert(part@.take(part@.len() as int) == part@);
            have_any = true;
            proof {
                let old_kept = kept;
                kept = kept.push(part@);
                assert(kept.drop_last() == old_kept);
                if old_kept.len() == 0 {
                    assert(out@ =~= part@);
                } else {
                    assert(out@ =~= joined(old_kept, separator@) + separator@ + part@);
                }
            }
        }
        k = k + 1;
    }
    assert(trimmed.take(trimmed.len() as int) == trimmed);
    string_from(&out)
}

/// A profile's display name: its trimmed first and last names, the empty
/// ones left out, separated by a space.
pub fn display_name(first_name: &str, last_name: &str) -> (name: String)
    ensures
        name@ == join_trimmed(seq![first_name@, last_name@], " "@),
{
    let parts = vec![first_name, last_name];
    assert(parts@.map_values(|part: &str| part@) =~= seq![first_name@, last_name@]);
    join_trimmed_parts(parts, " ")
}

/// A profile's location: its trimmed city, region and country, the empty
/// ones left out, separated by a comma and a space.
pub fn location(city: &str, region: &str, country: &str) -> (place: String)
    ensures
        place@ == join_trimmed(seq![city@, region@, country@], ", "@),
{
    let parts = vec![city, region, country];
    assert(parts@.map_values(|part: &str| part@) =~= seq![city@, region@, country@]);
    join_trimmed_parts(parts, ", ")
}

/// Splits an account's real name at its first space into a first name and
/// the rest (`str::splitn(2, ' ')`); with no space the whole name is the
/// first name and the rest is empty.
pub fn split_real_name(real_name: &str) -> (names: (String, String))
    ensures
        match crate::text::first_index_of(real_name@, ' ') {
            Some(at) => names.0@ == real_name@.subrange(0, at) && names.1@ == real_name@.subrange(at + 1, real_name@.len() as int),
            None => names.0@ == real_name@ && names.1@.len() == 0,
        },
{
    let chars = chars_of(real_name);
    match crate::text::find_char(&chars, ' ') {
        Some(at) => {
            let n = chars.len();
            let first = slice_chars(&chars, 0, at);
            let rest = slice_chars(&chars, at + 1, n);
            (string_from(&first), string_from(&rest))
        },
        None => {
            let empty: Vec<char> = Vec::new();
            (string_from(&chars), string_from(&empty))
        },
    }
}

/// The name an account is shown under: its real name, or its user name
/// when the real name is empty.
pub open spec fn shown_name(account: Account) -> Seq<char> {
    if account.real_name@.len() == 0 {
        account.username@
    } else {
        account.real_name@
    }
}

/// The name an account is shown under (see [`shown_name`]).
pub fn account_label(account: &Account) -> (label: &String)
    ensures
        label@ == shown_name(*account),
{
    if account.real_name.as_str().is_empty() {
        &account.username
    } else {
        &account.real_name
    }
}

/// The letter an account without an avatar is drawn with: the first
/// character of its shown name, upper-cased in ASCII, or `?` for an empty name.
pub fn account_initial(account: &Account) -> (letter: char)
    ensures
        letter == if shown_name(*account).len() == 0 { '?' } else { upper_char(shown_name(*account)[0]) },
{
    let label = account_label(account);
    let chars = chars_of(label.as_str());
    if chars.len() == 0 {
        '?'
    } else {
        upper_char_exec(chars[0])
    }
}

} // verus!
