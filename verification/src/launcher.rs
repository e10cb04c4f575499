//! Desktop-directory entries: the `Exec=` command-line tokenizer and the
//! `.desktop` launcher file reader.

use vstd::prelude::*;

use crate::paths::{is_launcher_file, path_extension};
use crate::text::{
    char_vec_views, chars_are, chars_of, find_char, first_index_of, is_space, is_space_char,
    slice_chars, split_chars, split_on, string_from, string_views, trim, trim_chars,
};

verus! {

/// Tokenizer state while scanning an `Exec=` value.
pub struct ExecScan {
    pub args: Seq<Seq<char>>,
    pub current: Seq<char>,
    pub quote: Option<char>,
    pub escaped: bool,
}

/// One character of the `Exec=` tokenizer: a backslash escapes the next
/// character, single or double quotes group words until the same quote
/// closes them (the other quote is literal inside), and unquoted whitespace
/// ends the current word.
pub open spec fn exec_step(state: ExecScan, c: char) -> ExecScan {
    if state.escaped {
        ExecScan { current: state.current.push(c), escaped: false, ..state }
    } else if c == '\\' {
        ExecScan { escaped: true, ..state }
    } else if c == '\'' || c == '"' {
        if state.quote == Some(c) {
            ExecScan { quote: None, ..state }
        } else if state.quote is None {
            ExecScan { quote: Some(c), ..state }
        } else {
            ExecScan { current: state.current.push(c), ..state }
        }
    } else if is_space(c) && state.quote is None {
        if state.current.len() > 0 {
            ExecScan { args: state.args.push(state.current), current: Seq::empty(), ..state }
        } else {
            state
        }
    } else {
        ExecScan { current: state.current.push(c), ..state }
    }
}

/// The tokenizer state after reading all of `chars`.
pub open spec fn exec_scan(chars: Seq<char>) -> ExecScan
    decreases chars.len(),
{
    if chars.len() == 0 {
        ExecScan { args: Seq::empty(), current: Seq::empty(), quote: None, escaped: false }
    } else {
        exec_step(exec_scan(chars.drop_last()), chars.last())
    }
}

/// The words of an `Exec=` value, before field codes are dropped.
pub open spec fn exec_words(chars: Seq<char>) -> Seq<Seq<char>> {
    let state = exec_scan(chars);
    if state.current.len() > 0 {
        state.args.push(state.current)
    } else {
        state.args
    }
}

/// `words` without the field codes (`%f`, `%U`, ...): words that start with `%`.
pub open spec fn without_field_codes(words: Seq<Seq<char>>) -> Seq<Seq<char>>
    decreases words.len(),
{
    if words.len() == 0 {
        Seq::empty()
    } else {
        let rest = without_field_codes(words.drop_last());
        let last = words.last();
        if last.len() > 0 && last[0] == '%' {
            rest
        } else {
            rest.push(last)
        }
    }
}

/// The argument vector an `Exec=` value launches.
pub open spec fn exec_arguments(value: Seq<char>) -> Seq<Seq<char>> {
    without_field_codes(exec_words(value))
}

/// What `str::split_whitespace` has read of `chars`: the words it has
/// finished, and the word in progress.
pub open spec fn whitespace_split(chars: Seq<char>) -> (Seq<Seq<char>>, Seq<char>)
    decreases chars.len(),
{
    if chars.len() == 0 {
        (Seq::empty(), Seq::empty())
    } else {
        let before = whitespace_split(chars.drop_last());
        let c = chars.last();
        if is_space(c) {
            if before.1.len() > 0 {
                (before.0.push(before.1), Seq::empty())
            } else {
                before
            }
        } else {
            (before.0, before.1.push(c))
        }
    }
}

/// `str::split_whitespace`: the maximal runs of non-whitespace characters.
pub open spec fn whitespace_words(chars: Seq<char>) -> Seq<Seq<char>> {
    let state = whitespace_split(chars);
    if state.1.len() > 0 {
        state.0.push(state.1)
    } else {
        state.0
    }
}

/// `chars` holds no quote and no backslash.
pub open spec fn plain_command(chars: Seq<char>) -> bool {
    forall|i: int| 0 <= i < chars.len() ==> chars[i] != '\'' && chars[i] != '"' && chars[i] != '\\'
}

proof fn lemma_scan_words_nonempty(chars: Seq<char>)
    ensures
        forall|k: int| 0 <= k < exec_scan(chars).args.len() ==> (#[trigger] exec_scan(chars).args[k]).len() > 0,
    decreases chars.len(),
{
    if chars.len() > 0 {
        lemma_scan_words_nonempty(chars.drop_last());
    }
}

proof fn lemma_plain_scan(chars: Seq<char>)
    requires
        plain_command(chars),
    ensures
        exec_scan(chars).quote is None,
        !exec_scan(chars).escaped,
        exec_scan(chars).args == whitespace_split(chars).0,
        exec_scan(chars).current == whitespace_split(chars).1,
    decreases chars.len(),
{
    if chars.len() > 0 {
        assert(plain_command(chars.drop_last())) by {
            assert forall|i: int| 0 <= i < chars.drop_last().len() implies chars.drop_last()[i] != '\''
                && chars.drop_last()[i] != '"' && chars.drop_last()[i] != '\\' by {
                assert(chars.drop_last()[i] == chars[i]);
            }
        }
        lemma_plain_scan(chars.drop_last());
        assert(chars.last() == chars[chars.len() - 1]);
    }
}

proof fn lemma_field_codes_dropped(words: Seq<Seq<char>>)
    ensures
        forall|k: int| 0 <= k < without_field_codes(words).len() ==> {
            let w = #[trigger] without_field_codes(words)[k];
            &&& !(w.len() > 0 && w[0] == '%')
            &&& exists|m: int| 0 <= m < words.len() && words[m] == w
        },
    decreases words.len(),
{
    if words.len() > 0 {
        lemma_field_codes_dropped(words.drop_last());
        let rest = without_field_codes(words.drop_last());
        assert forall|k: int| 0 <= k < without_field_codes(words).len() implies {
            let w = #[trigger] without_field_codes(words)[k];
            &&& !(w.len() > 0 && w[0] == '%')
            &&& exists|m: int| 0 <= m < words.len() && words[m] == w
        } by {
            let w = without_field_codes(words)[k];
            if k < rest.len() {
                assert(w == rest[k]);
                let m = choose|m: int| 0 <= m < words.drop_last().len() && words.drop_last()[m] == rest[k];
                assert(words[m] == w);
            } else {
                assert(w == words.last());
                assert(words[words.len() - 1] == w);
            }
        }
    }
}

/// Every argument of an `Exec=` value is a non-empty word that is not a
/// field code; and a value with no quotes or backslashes splits exactly as
/// `split_whitespace` splits it, with the words starting with `%` dropped.
pub proof fn exec_arguments_are_plain_words(value: Seq<char>)
    ensures
        forall|k: int| 0 <= k < exec_arguments(value).len() ==> (#[trigger] exec_arguments(value)[k]).len() > 0
            && exec_arguments(value)[k][0] != '%',
        plain_command(value) ==> exec_arguments(value) == without_field_codes(whitespace_words(value)),
{
    let words = exec_words(value);
    lemma_scan_words_nonempty(value);
    assert forall|m: int| 0 <= m < words.len() implies (#[trigger] words[m]).len() > 0 by {
        if m < exec_scan(value).args.len() {
            assert(words[m] == exec_scan(value).args[m]);
        }
    }
    lemma_field_codes_dropped(words);
    assert forall|k: int| 0 <= k < exec_arguments(value).len() implies (#[trigger] exec_arguments(value)[k]).len() > 0
        && exec_arguments(value)[k][0] != '%' by {
        let w = exec_arguments(value)[k];
        let m = choose|m: int| 0 <= m < words.len() && words[m] == w;
        assert(words[m].len() > 0);
    }
    if plain_command(value) {
        lemma_plain_scan(value);
    }
}

/// The tokenizer state after reading `chars` from `state`.
pub open spec fn exec_scan_from(state: ExecScan, chars: Seq<char>) -> ExecScan
    decreases chars.len(),
{
    if chars.len() == 0 {
        state
    } else {
        exec_step(exec_scan_from(state, chars.drop_last()), chars.last())
    }
}

proof fn lemma_scan_append(first: Seq<char>, second: Seq<char>)
    ensures
        exec_scan(first + second) == exec_scan_from(exec_scan(first), second),
    decreases second.len(),
{
    if second.len() == 0 {
        assert(first + second =~= first);
    } else {
        lemma_scan_append(first, second.drop_last());
        assert((first + second).drop_last() =~= first + second.drop_last());
        assert((first + second).last() == second.last());
    }
}

proof fn lemma_scan_from_append(state: ExecScan, first: Seq<char>, second: Seq<char>)
    ensures
        exec_scan_from(state, first + second) == exec_scan_from(exec_scan_from(state, first), second),
    decreases second.len(),
{
    if second.len() == 0 {
        assert(first + second =~= first);
    } else {
        lemma_scan_from_append(state, first, second.drop_last());
        assert((first + second).drop_last() =~= first + second.drop_last());
        assert((first + second).last() == second.last());
    }
}

/// `chars` holds no whitespace.
pub open spec fn no_whitespace(chars: Seq<char>) -> bool {
    forall|i: int| 0 <= i < chars.len() ==> !is_space(chars[i])
}

proof fn lemma_scan_plain_part(state: ExecScan, part: Seq<char>)
    requires
        !state.escaped,
        plain_command(part),
        state.quote is Some || no_whitespace(part),
    ensures
        exec_scan_from(state, part) == (ExecScan { current: state.current + part, ..state }),
    decreases part.len(),
{
    if part.len() == 0 {
        assert(state.current + part =~= state.current);
    } else {
        let shorter = part.drop_last();
        assert(plain_command(shorter)) by {
            assert forall|i: int| 0 <= i < shorter.len() implies shorter[i] != '\'' && shorter[i] != '"'
                && shorter[i] != '\\' by {
                assert(shorter[i] == part[i]);
            }
        }
        if state.quote is None {
            assert(no_whitespace(shorter)) by {
                assert forall|i: int| 0 <= i < shorter.len() implies !is_space(shorter[i]) by {
                    assert(shorter[i] == part[i]);
                }
            }
        }
        lemma_scan_plain_part(state, shorter);
        assert(part.last() == part[part.len() - 1]);
        assert((state.current + shorter).push(part.last()) =~= state.current + part);
    }
}

/// Quotes only group characters and never end a word: after a start with no
/// quotes or backslashes, quoting a part that holds no whitespace, quote or
/// backslash leaves the arguments as they are without the quotes.
pub proof fn quotes_only_group(start: Seq<char>, part: Seq<char>, rest: Seq<char>, quote: char)
    requires
        quote == '"' || quote == '\'',
        plain_command(start),
        plain_command(part),
        no_whitespace(part),
    ensures
        exec_arguments(start + seq![quote] + part + seq![quote] + rest) == exec_arguments(start + part + rest),
{
    let quoted = seq![quote] + part + seq![quote];
    assert(start + seq![quote] + part + seq![quote] + rest =~= start + (quoted + rest));
    assert(start + part + rest =~= start + (part + rest));
    lemma_scan_append(start, quoted + rest);
    lemma_scan_append(start, part + rest);
    lemma_plain_scan(start);
    let state = exec_scan(start);
    lemma_scan_from_append(state, quoted, rest);
    lemma_scan_from_append(state, part, rest);
    lemma_scan_from_append(state, seq![quote] + part, seq![quote]);
    lemma_scan_from_append(state, seq![quote], part);
    assert(seq![quote].drop_last() =~= Seq::<char>::empty());
    assert(exec_scan_from(state, seq![quote].drop_last()) == state);
    assert(seq![quote].last() == quote);
    let opened = ExecScan { quote: Some(quote), ..state };
    assert(exec_scan_from(state, seq![quote]) == opened);
    lemma_scan_plain_part(opened, part);
    lemma_scan_plain_part(state, part);
    assert(seq![quote].last() == quote);
    assert(exec_scan_from(exec_scan_from(state, seq![quote] + part), seq![quote])
        == exec_step(exec_scan_from(exec_scan_from(state, seq![quote] + part), Seq::<char>::empty()), quote));
}

proof fn lemma_single_word(chars: Seq<char>, word: Seq<char>)
    requires
        exec_scan(chars).args.len() == 0,
        exec_scan(chars).current == word,
        word.len() > 0,
        word[0] != '%',
    ensures
        exec_arguments(chars) == seq![word],
{
    let words = seq![word];
    assert(exec_words(chars) =~= words);
    assert(words.drop_last() =~= Seq::<Seq<char>>::empty());
    assert(without_field_codes(words.drop_last()) == Seq::<Seq<char>>::empty());
    assert(words.last() == word);
    assert(without_field_codes(words) =~= words);
}

/// A quoted part glued to a word belongs to that word, spaces and all: for
/// a non-empty word `w` that is not a field code and holds no whitespace,
/// and a part `q`, neither holding quotes or backslashes, `w"q"` and `w'q'`
/// give the single argument `wq`.
pub proof fn quoted_part_joins_its_word(word: Seq<char>, part: Seq<char>, quote: char)
    requires
        quote == '"' || quote == '\'',
        word.len() > 0,
        word[0] != '%',
        plain_command(word),
        plain_command(part),
        no_whitespace(word),
    ensures
        exec_arguments(word + seq![quote] + part + seq![quote]) == seq![word + part],
{
    let initial = ExecScan { args: Seq::empty(), current: Seq::empty(), quote: None, escaped: false };
    let whole = word + seq![quote] + part + seq![quote];
    assert(whole =~= Seq::<char>::empty() + (word + (seq![quote] + part + seq![quote])));
    assert(exec_scan(Seq::<char>::empty()) == initial);
    lemma_scan_append(Seq::<char>::empty(), word + (seq![quote] + part + seq![quote]));
    lemma_scan_from_append(initial, word, seq![quote] + part + seq![quote]);
    lemma_scan_plain_part(initial, word);
    assert(initial.current + word =~= word);
    let after_word = ExecScan { current: word, ..initial };
    lemma_scan_from_append(after_word, seq![quote] + part, seq![quote]);
    lemma_scan_from_append(after_word, seq![quote], part);
    assert(seq![quote].drop_last() =~= Seq::<char>::empty());
    assert(exec_scan_from(after_word, seq![quote].drop_last()) == after_word);
    assert(seq![quote].last() == quote);
    let opened = ExecScan { quote: Some(quote), ..after_word };
    assert(exec_scan_from(after_word, seq![quote]) == opened);
    lemma_scan_plain_part(opened, part);
    assert(exec_scan_from(exec_scan_from(after_word, seq![quote] + part), seq![quote])
        == exec_step(exec_scan_from(exec_scan_from(after_word, seq![quote] + part), Seq::<char>::empty()), quote));
    assert((word + part)[0] == word[0]);
    lemma_single_word(whole, word + part);
}

/// A backslash makes the next character, whatever it is, part of the word:
/// for a non-empty word `w` that is not a field code and holds no
/// whitespace, quotes or backslashes, `w\c` gives the single argument `wc`.
pub proof fn backslash_keeps_the_next_character(word: Seq<char>, c: char)
    requires
        word.len() > 0,
        word[0] != '%',
        plain_command(word),
        no_whitespace(word),
    ensures
        exec_arguments(word + seq!['\\', c]) == seq![word.push(c)],
{
    let initial = ExecScan { args: Seq::empty(), current: Seq::empty(), quote: None, escaped: false };
    let whole = word + seq!['\\', c];
    assert(whole =~= Seq::<char>::empty() + (word + seq!['\\', c]));
    assert(exec_scan(Seq::<char>::empty()) == initial);
    lemma_scan_append(Seq::<char>::empty(), word + seq!['\\', c]);
    lemma_scan_from_append(initial, word, seq!['\\', c]);
    lemma_scan_plain_part(initial, word);
    assert(initial.current + word =~= word);
    let after_word = ExecScan { current: word, ..initial };
    assert(seq!['\\', c].drop_last() =~= seq!['\\']);
    assert(seq!['\\'].drop_last() =~= Seq::<char>::empty());
    assert(exec_scan_from(after_word, seq!['\\'].drop_last()) == after_word);
    assert(exec_scan_from(after_word, seq!['\\']) == ExecScan { escaped: true, ..after_word });
    assert(exec_scan_from(after_word, seq!['\\', c]) == ExecScan { current: word.push(c), ..initial });
    assert(word.push(c)[0] == word[0]);
    lemma_single_word(whole, word.push(c));
}

/// Splits a `.desktop` `Exec=` value into the program and its arguments,
/// honouring quotes and backslash escapes and dropping `%` field codes.
pub fn parse_exec(value: &str) -> (args: Vec<String>)
    ensures
        string_views(args@) == exec_arguments(value@),
{
    let chars = chars_of(value);
    let mut words: Vec<String> = Vec::new();
    let mut current: Vec<char> = Vec::new();
    let mut quote: Option<char> = None;
    let mut escaped = false;
    let mut i: usize = 0;
    assert(chars@.take(0) =~= Seq::<char>::empty());
    assert(string_views(words@) =~= Seq::<Seq<char>>::empty());
    assert(current@ =~= Seq::<char>::empty());
    while i < chars.len()
        invariant
            0 <= i <= chars@.len(),
            chars@ == value@,
            exec_scan(chars@.take(i as int)) == (ExecScan {
                args: string_views(words@),
                current: current@,
                quote: quote,
                escaped: escaped,
            }),
        decreases chars@.len() - i,
    {
        let c = chars[i];
        assert(chars@.take(i + 1).drop_last() == chars@.take(i as int));
        if escaped {
            current.push(c);
            escaped = false;
        } else if c == '\\' {
            escaped = true;
        } else if c == '\'' || c == '"' {
            if quote == Some(c) {
                quote = None;
            } else if quote.is_none() {
                quote = Some(c);
            } else {
                current.push(c);
            }
        } else if is_space_char(c) && quote.is_none() {
            if current.len() > 0 {
                let word = string_from(&current);
                words.push(word);
                current = Vec::new();
            }
        } else {
            current.push(c);
        }
        assert(string_views(words@) == exec_scan(chars@.take(i + 1)).args);
        i = i + 1;
    }
    assert(chars@.take(chars@.len() as int) == chars@);
    if current.len() > 0 {
        let word = string_from(&current);
        words.push(word);
    }
    assert(string_views(words@) == exec_words(value@));
    let mut args: Vec<String> = Vec::new();
    let mut k: usize = 0;
    assert(string_views(args@) =~= Seq::<Seq<char>>::empty());
    assert(string_views(words@).take(0) =~= Seq::<Seq<char>>::empty());
    while k < words.len()
        invariant
            0 <= k <= words@.len(),
            string_views(words@) == exec_words(value@),
            string_views(args@) == without_field_codes(string_views(words@).take(k as int)),
        decreases words@.len() - k,
    {
        let word = &words[k];
        let word_chars = chars_of(word.as_str());
        assert(string_views(words@).take(k + 1).drop_last() == string_views(words@).take(k as int));
        if !(word_chars.len() > 0 && word_chars[0] == '%') {
            args.push(word.clone());
        }
        assert(string_views(args@) == without_field_codes(string_views(words@).take(k + 1)));
        k = k + 1;
    }
    assert(string_views(words@).take(words@.len() as int) == string_views(words@));
    args
}


/// Reading state of a `.desktop` file: whether the current group is
/// `[Desktop Entry]`, and every `key=value` pair read inside it so far.
pub struct DesktopScan {
    pub in_entry: bool,
    pub fields: Seq<(Seq<char>, Seq<char>)>,
}

/// One line of a `.desktop` file, after trimming: a `[...]` header opens a
/// group (the launcher reads only `[Desktop Entry]`); inside it, a line with
/// an `=` is a key/value pair split at its first `=`.
pub open spec fn desktop_step(state: DesktopScan, raw: Seq<char>) -> DesktopScan {
    let line = trim(raw);
    if line.len() > 0 && line[0] == '[' {
        DesktopScan { in_entry: line == "[Desktop Entry]"@, ..state }
    } else if state.in_entry && first_index_of(line, '=') is Some {
        let at = first_index_of(line, '=')->0;
        DesktopScan {
            fields: state.fields.push((line.subrange(0, at), line.subrange(at + 1, line.len() as int))),
            ..state
        }
    } else {
        state
    }
}

/// The state after reading `lines` in order.
pub open spec fn desktop_scan(lines: Seq<Seq<char>>) -> DesktopScan
    decreases lines.len(),
{
    if lines.len() == 0 {
        DesktopScan { in_entry: false, fields: Seq::empty() }
    } else {
        desktop_step(desktop_scan(lines.drop_last()), lines.last())
    }
}

/// The value of `key`: the last pair that sets it wins.
pub open spec fn field_value(fields: Seq<(Seq<char>, Seq<char>)>, key: Seq<char>) -> Option<Seq<char>>
    decreases fields.len(),
{
    if fields.len() == 0 {
        None
    } else if fields.last().0 == key {
        Some(fields.last().1)
    } else {
        field_value(fields.drop_last(), key)
    }
}

/// What a launcher entry shows and runs.
pub struct LauncherFields {
    pub label: Seq<char>,
    pub icon: Option<Seq<char>>,
    pub program: Seq<char>,
    pub args: Seq<Seq<char>>,
    pub terminal: bool,
}

/// The launcher a `.desktop` file describes: an `Application` that is
/// neither `Hidden` nor `NoDisplay`, with a non-empty `Exec` command and a
/// name (`Name[en_US]`, then `Name[en]`, then `Name`).
pub open spec fn launcher_of(contents: Seq<char>) -> Option<LauncherFields> {
    let fields = desktop_scan(split_on(contents, '\n')).fields;
    if field_value(fields, "Type"@) != Some("Application"@)
        || field_value(fields, "Hidden"@) == Some("true"@)
        || field_value(fields, "NoDisplay"@) == Some("true"@) {
        None
    } else {
        match field_value(fields, "Exec"@) {
            None => None,
            Some(exec) => {
                let args = exec_arguments(exec);
                if args.len() == 0 {
                    None
                } else {
                    let label = match field_value(fields, "Name[en_US]"@) {
                        Some(name) => Some(name),
                        None => match field_value(fields, "Name[en]"@) {
                            Some(name) => Some(name),
                            None => field_value(fields, "Name"@),
                        },
                    };
                    match label {
                        None => None,
                        Some(label) => Some(LauncherFields {
                            label: label,
                            icon: field_value(fields, "Icon"@),
                            program: args[0],
                            args: args.drop_first(),
                            terminal: field_value(fields, "Terminal"@) == Some("true"@),
                        }),
                    }
                }
            },
        }
    }
}

/// Whether a line of a `.desktop` file opens a group: after trimming, it
/// starts with `[`.
pub open spec fn group_header(line: Seq<char>) -> bool {
    trim(line).len() > 0 && trim(line)[0] == '['
}

proof fn lemma_other_group_reads_nothing(lines: Seq<Seq<char>>, header: Seq<char>, rest: Seq<Seq<char>>)
    requires
        group_header(header),
        trim(header) != "[Desktop Entry]"@,
        forall|k: int| 0 <= k < rest.len() ==> !group_header(#[trigger] rest[k]),
    ensures
        !desktop_scan(lines + seq![header] + rest).in_entry,
        desktop_scan(lines + seq![header] + rest).fields == desktop_scan(lines).fields,
    decreases rest.len(),
{
    let all = lines + seq![header] + rest;
    if rest.len() == 0 {
        assert(all.drop_last() =~= lines);
        assert(all.last() == header);
    } else {
        lemma_other_group_reads_nothing(lines, header, rest.drop_last());
        assert(all.drop_last() =~= lines + seq![header] + rest.drop_last());
        assert(all.last() == rest[rest.len() - 1]);
    }
}

/// Only the `[Desktop Entry]` group is read: after a line that opens any
/// other group, lines that open no further group add or change nothing, so
/// the launcher is the one the text before that header describes.
pub proof fn other_groups_are_ignored(before: Seq<char>, header: Seq<char>, after: Seq<char>)
    requires
        !header.contains('\n'),
        group_header(header),
        trim(header) != "[Desktop Entry]"@,
        forall|k: int| 0 <= k < split_on(after, '\n').len() ==> !group_header(#[trigger] split_on(after, '\n')[k]),
    ensures
        launcher_of(before + seq!['\n'] + header + seq!['\n'] + after) == launcher_of(before),
{
    crate::text::lemma_split_on_joined(before, header, '\n');
    crate::text::lemma_split_on_joined(before + seq!['\n'] + header, after, '\n');
    crate::text::lemma_split_on_single(header, '\n');
    let rest = split_on(after, '\n');
    assert(split_on(before + seq!['\n'] + header + seq!['\n'] + after, '\n') =~= split_on(before, '\n') + seq![header] + rest);
    lemma_other_group_reads_nothing(split_on(before, '\n'), header, rest);
}

/// An application launcher read from a `.desktop` file. `icon` is the raw
/// `Icon=` value, still to be resolved against the icon theme.
#[derive(Debug, Clone)]
pub struct LauncherEntry {
    pub label: String,
    pub icon: Option<String>,
    pub program: String,
    pub args: Vec<String>,
    pub terminal: bool,
}

impl View for LauncherEntry {
    type V = LauncherFields;

    open spec fn view(&self) -> LauncherFields {
        LauncherFields {
            label: self.label@,
            icon: match self.icon {
                Some(icon) => Some(icon@),
                None => None,
            },
            program: self.program@,
            args: string_views(self.args@),
            terminal: self.terminal,
        }
    }
}

/// A key/value pair read from a `.desktop` file.
pub struct DesktopField {
    pub key: Vec<char>,
    pub value: Vec<char>,
}

/// The views of a list of key/value pairs.
pub open spec fn field_views(fields: Seq<DesktopField>) -> Seq<(Seq<char>, Seq<char>)> {
    fields.map_values(|f: DesktopField| (f.key@, f.value@))
}

fn lookup_field(fields: &Vec<DesktopField>, key: &str) -> (value: Option<String>)
    ensures
        match value {
            Some(v) => field_value(field_views(fields@), key@) == Some(v@),
            None => field_value(field_views(fields@), key@) is None,
        },
{
    let mut i: usize = fields.len();
    assert(field_views(fields@).take(i as int) == field_views(fields@));
    while i > 0
        invariant
            0 <= i <= fields@.len(),
            field_value(field_views(fields@), key@) == field_value(field_views(fields@).take(i as int), key@),
        decreases i,
    {
        let field = &fields[i - 1];
        assert(field_views(fields@).take(i as int).drop_last() == field_views(fields@).take(i - 1));
        if chars_are(&field.key, key) {
            return Some(string_from(&field.value));
        }
        i = i - 1;
    }
    None
}

fn field_is(fields: &Vec<DesktopField>, key: &str, expected: &str) -> (same: bool)
    ensures
        same == (field_value(field_views(fields@), key@) == Some(expected@)),
{
    match lookup_field(fields, key) {
        Some(value) => {
            let chars = chars_of(value.as_str());
            chars_are(&chars, expected)
        },
        None => false,
    }
}

/// Reads the launcher a `.desktop` file's contents describe, or `None` when
/// the file is not a visible application with a command and a name.
pub fn parse_launcher(contents: &str) -> (entry: Option<LauncherEntry>)
    ensures
        match entry {
            Some(e) => launcher_of(contents@) == Some(e@),
            None => launcher_of(contents@) is None,
        },
{
    let chars = chars_of(contents);
    let lines = split_chars(&chars, '\n');
    let mut in_entry = false;
    let mut fields: Vec<DesktopField> = Vec::new();
    let mut i: usize = 0;
    assert(char_vec_views(lines@).take(0) =~= Seq::<Seq<char>>::empty());
    assert(field_views(fields@) =~= Seq::<(Seq<char>, Seq<char>)>::empty());
    while i < lines.len()
        invariant
            0 <= i <= lines@.len(),
            char_vec_views(lines@) == split_on(contents@, '\n'),
            desktop_scan(char_vec_views(lines@).take(i as int)) == (DesktopScan {
                in_entry: in_entry,
                fields: field_views(fields@),
            }),
        decreases lines@.len() - i,
    {
        let line = trim_chars(&lines[i]);
        assert(char_vec_views(lines@).take(i + 1).drop_last() == char_vec_views(lines@).take(i as int));
        assert(char_vec_views(lines@).take(i + 1).last() == lines@[i as int]@);
        let ghost before = DesktopScan { in_entry: in_entry, fields: field_views(fields@) };
        assert(desktop_scan(char_vec_views(lines@).take(i + 1)) == desktop_step(before, lines@[i as int]@));
        if line.len() > 0 && line[0] == '[' {
            in_entry = chars_are(&line, "[Desktop Entry]");
        } else if in_entry {
            match find_char(&line, '=') {
                Some(at) => {
                    let key = slice_chars(&line, 0, at);
                    let value = slice_chars(&line, at + 1, line.len());
                    fields.push(DesktopField { key, value });
                    assert(field_views(fields@) =~= before.fields.push(
                        (line@.subrange(0, at as int), line@.subrange(at + 1, line@.len() as int)),
                    ));
                    assert(desktop_step(before, lines@[i as int]@) == (DesktopScan {
                        in_entry: in_entry,
                        fields: field_views(fields@),
                    }));
                },
                None => {},
            }
        }
        i = i + 1;
    }
    assert(char_vec_views(lines@).take(lines@.len() as int) == char_vec_views(lines@));
    if !field_is(&fields, "Type", "Application") || field_is(&fields, "Hidden", "true")
        || field_is(&fields, "NoDisplay", "true") {
        return None;
    }
    let exec = match lookup_field(&fields, "Exec") {
        Some(exec) => exec,
        None => return None,
    };
    let mut args = parse_exec(exec.as_str());
    if args.len() == 0 {
        return None;
    }
    let label = match lookup_field(&fields, "Name[en_US]") {
        Some(name) => name,
        None => match lookup_field(&fields, "Name[en]") {
            Some(name) => name,
            None => match lookup_field(&fields, "Name") {
                Some(name) => name,
                None => return None,
            },
        },
    };
    let program = args.remove(0);
    assert(string_views(args@) =~= exec_arguments(exec@).drop_first());
    let entry = LauncherEntry {
        label,
        icon: lookup_field(&fields, "Icon"),
        program,
        args,
        terminal: field_is(&fields, "Terminal", "true"),
    };
    Some(entry)
}

/// What an item of the desktop folder is shown as.
#[derive(Debug, Clone, Copy, PartialEq, Eq, Structural)]
pub enum DesktopItemKind {
    /// A directory, opened in the file manager.
    Folder,
    /// A `.desktop` launcher, read with [`parse_launcher`].
    Launcher,
    /// Any other file, opened with its default application.
    File,
}

/// How the desktop shows the item named `name`: hidden names (a leading
/// `.`) are not shown; directories are folders; `.desktop` files are
/// launchers; anything else is a plain file.
pub fn desktop_item_kind(name: &str, is_dir: bool) -> (kind: Option<DesktopItemKind>)
    ensures
        kind == if name@.len() > 0 && name@[0] == '.' {
            None
        } else if is_dir {
            Some(DesktopItemKind::Folder)
        } else if path_extension(name@) == Some("desktop"@) {
            Some(DesktopItemKind::Launcher)
        } else {
            Some(DesktopItemKind::File)
        },
{
    let chars = chars_of(name);
    if chars.len() > 0 && chars[0] == '.' {
        None
    } else if is_dir {
        Some(DesktopItemKind::Folder)
    } else if is_launcher_file(name) {
        Some(DesktopItemKind::Launcher)
    } else {
        Some(DesktopItemKind::File)
    }
}

} // verus!
