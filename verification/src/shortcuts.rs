//! Keyboard shortcut capture in the settings application: turning a key
//! press into the `Ctrl+Alt+Shift+Super+Key` text the compositor reads.

use vstd::prelude::*;

use crate::accounts::joined;
use crate::text::{string_from, upper_char, upper_char_exec};

verus! {

/// The key of a captured key press.
#[derive(Debug, Clone, Copy, PartialEq, Eq)]
pub enum ShortcutKey {
    Char(char),
    Enter,
    Escape,
    Other,
}

/// The modifier keys held during a key press.
#[derive(Debug, Clone, Copy, PartialEq, Eq)]
pub struct ShortcutModifiers {
    pub ctrl: bool,
    pub alt: bool,
    pub shift: bool,
    pub logo: bool,
}

/// The names of the held modifiers, in the order the compositor writes them.
pub open spec fn modifier_names(modifiers: ShortcutModifiers) -> Seq<Seq<char>> {
    let a: Seq<Seq<char>> = if modifiers.ctrl { seq!["Ctrl"@] } else { Seq::empty() };
    let b: Seq<Seq<char>> = if modifiers.alt { seq!["Alt"@] } else { Seq::empty() };
    let c: Seq<Seq<char>> = if modifiers.shift { seq!["Shift"@] } else { Seq::empty() };
    let d: Seq<Seq<char>> = if modifiers.logo { seq!["Super"@] } else { Seq::empty() };
    a + b + c + d
}

/// The text a key press records: the held modifiers and the key (a
/// character upper-cased in ASCII, `Return` or `Escape`) joined with `+`;
/// nothing for other keys or when no modifier is held.
pub open spec fn shortcut_spec(key: ShortcutKey, modifiers: ShortcutModifiers) -> Option<Seq<char>> {
    let key_name: Option<Seq<char>> = match key {
        ShortcutKey::Char(c) => Some(seq![upper_char(c)]),
        ShortcutKey::Enter => Some("Return"@),
        ShortcutKey::Escape => Some("Escape"@),
        ShortcutKey::Other => None,
    };
    match key_name {
        None => None,
        Some(name) => if modifier_names(modifiers).len() == 0 {
            None
        } else {
            Some(joined(modifier_names(modifiers).push(name), "+"@))
        },
    }
}

/// The name a key is recorded under, if it can be recorded.
pub open spec fn key_name(key: ShortcutKey) -> Option<Seq<char>> {
    match key {
        ShortcutKey::Char(c) => Some(seq![upper_char(c)]),
        ShortcutKey::Enter => Some("Return"@),
        ShortcutKey::Escape => Some("Escape"@),
        ShortcutKey::Other => None,
    }
}

/// A key press is recorded exactly when the key is a character, Enter or
/// Escape and at least one modifier (any of Ctrl, Alt, Shift, Super) is
/// held.
pub proof fn any_modifier_records_a_shortcut(key: ShortcutKey, modifiers: ShortcutModifiers)
    ensures
        shortcut_spec(key, modifiers) is Some <==> (key !is Other && (modifiers.ctrl || modifiers.alt || modifiers.shift
            || modifiers.logo)),
{
}

/// With one modifier held, the text is that modifier's name, `+`, and the
/// key's name: `Ctrl+K`, `Alt+K`, `Shift+K` or `Super+K`.
pub proof fn one_modifier_records_name_and_key(key: ShortcutKey)
    requires
        key !is Other,
    ensures
        shortcut_spec(key, ShortcutModifiers { ctrl: true, alt: false, shift: false, logo: false })
            == Some("Ctrl"@ + "+"@ + key_name(key)->0),
        shortcut_spec(key, ShortcutModifiers { ctrl: false, alt: true, shift: false, logo: false })
            == Some("Alt"@ + "+"@ + key_name(key)->0),
        shortcut_spec(key, ShortcutModifiers { ctrl: false, alt: false, shift: true, logo: false })
            == Some("Shift"@ + "+"@ + key_name(key)->0),
        shortcut_spec(key, ShortcutModifiers { ctrl: false, alt: false, shift: false, logo: true })
            == Some("Super"@ + "+"@ + key_name(key)->0),
{
    let name = key_name(key)->0;
    assert forall|m: Seq<char>| #![auto] joined(seq![m].push(name), "+"@) == m + "+"@ + name by {
        assert(seq![m].push(name).drop_last() =~= seq![m]);
        assert(joined(seq![m], "+"@) == m);
    }
    let none: Seq<Seq<char>> = Seq::empty();
    assert(none + none + none + seq!["Super"@] =~= seq!["Super"@]);
    assert(seq!["Ctrl"@] + none + none + none =~= seq!["Ctrl"@]);
    assert(none + seq!["Alt"@] + none + none =~= seq!["Alt"@]);
    assert(none + none + seq!["Shift"@] + none =~= seq!["Shift"@]);
}

/// With every modifier held, they are written in the order Ctrl, Alt,
/// Shift, Super, before the key.
pub proof fn all_modifiers_in_order(key: ShortcutKey)
    requires
        key !is Other,
    ensures
        shortcut_spec(key, ShortcutModifiers { ctrl: true, alt: true, shift: true, logo: true })
            == Some("Ctrl"@ + "+"@ + "Alt"@ + "+"@ + "Shift"@ + "+"@ + "Super"@ + "+"@ + key_name(key)->0),
{
    let names = seq!["Ctrl"@, "Alt"@, "Shift"@, "Super"@];
    let all = names.push(key_name(key)->0);
    assert(seq!["Ctrl"@] + seq!["Alt"@] + seq!["Shift"@] + seq!["Super"@] =~= names);
    assert(all.drop_last() =~= names);
    assert(names.drop_last() =~= seq!["Ctrl"@, "Alt"@, "Shift"@]);
    assert(seq!["Ctrl"@, "Alt"@, "Shift"@].drop_last() =~= seq!["Ctrl"@, "Alt"@]);
    assert(seq!["Ctrl"@, "Alt"@].drop_last() =~= seq!["Ctrl"@]);
    assert(joined(seq!["Ctrl"@], "+"@) == "Ctrl"@);
    let sep = "+"@;
    let two = "Ctrl"@ + sep + "Alt"@;
    let three = two + sep + "Shift"@;
    let four = three + sep + "Super"@;
    assert(joined(seq!["Ctrl"@, "Alt"@], sep) == two);
    assert(joined(seq!["Ctrl"@, "Alt"@, "Shift"@], sep) == three);
    assert(joined(names, sep) == four);
    assert(joined(all, sep) == four + sep + key_name(key)->0);
    assert(four + sep + key_name(key)->0 =~= "Ctrl"@ + "+"@ + "Alt"@ + "+"@ + "Shift"@ + "+"@ + "Super"@ + "+"@ + key_name(key)->0);
}

fn append_chars(out: &mut Vec<char>, chars: &[char])
    ensures
        final(out)@ == old(out)@ + chars@,
{
    let mut i: usize = 0;
    while i < chars.len()
        invariant
            0 <= i <= chars@.len(),
            out@ == old(out)@ + chars@.take(i as int),
        decreases chars@.len() - i,
    {
        out.push(chars[i]);
        assert(chars@.take(i + 1) == chars@.take(i as int).push(chars@[i as int]));
        i = i + 1;
    }
    assert(chars@.take(chars@.len() as int) == chars@);
}

/// `parts` joined with `separator` between consecutive parts.
pub fn join_chars(parts: &Vec<Vec<char>>, separator: &[char]) -> (text: Vec<char>)
    ensures
        text@ == joined(crate::text::char_vec_views(parts@), separator@),
{
    let ghost views = crate::text::char_vec_views(parts@);
    let mut out: Vec<char> = Vec::new();
    let mut k: usize = 0;
    while k < parts.len()
        invariant
            0 <= k <= parts@.len(),
            views == crate::text::char_vec_views(parts@),
            out@ == joined(views.take(k as int), separator@),
        decreases parts@.len() - k,
    {
        if k > 0 {
            append_chars(&mut out, separator);
        }
        append_chars(&mut out, &parts[k]);
        assert(views.take(k + 1).drop_last() =~= views.take(k as int));
        assert(views.take(k + 1).last() == parts@[k as int]@);
        if k == 0 {
            assert(out@ =~= views.take(1)[0]);
        }
        k = k + 1;
    }
    assert(views.take(views.len() as int) == views);
    out
}

fn modifier_list(modifiers: ShortcutModifiers) -> (names: Vec<Vec<char>>)
    ensures
        crate::text::char_vec_views(names@) == modifier_names(modifiers),
{
    let mut names: Vec<Vec<char>> = Vec::new();
    if modifiers.ctrl {
        names.push(crate::text::chars_of("Ctrl"));
    }
    if modifiers.alt {
        names.push(crate::text::chars_of("Alt"));
    }
    if modifiers.shift {
        names.push(crate::text::chars_of("Shift"));
    }
    if modifiers.logo {
        names.push(crate::text::chars_of("Super"));
    }
    assert(crate::text::char_vec_views(names@) =~= modifier_names(modifiers));
    names
}

/// The text a key press records (see [`shortcut_spec`]).
pub fn shortcut_text(key: ShortcutKey, modifiers: ShortcutModifiers) -> (text: Option<String>)
    ensures
        match text {
            Some(t) => shortcut_spec(key, modifiers) == Some(t@),
            None => shortcut_spec(key, modifiers) is None,
        },
{
    let key_chars: Vec<char> = match key {
        ShortcutKey::Char(c) => {
            let mut chars: Vec<char> = Vec::new();
            chars.push(upper_char_exec(c));
            assert(chars@ =~= seq![upper_char(c)]);
            chars
        },
        ShortcutKey::Enter => crate::text::chars_of("Return"),
        ShortcutKey::Escape => crate::text::chars_of("Escape"),
        ShortcutKey::Other => {
            return None;
        },
    };
    let mut parts = modifier_list(modifiers);
    if parts.len() == 0 {
        return None;
    }
    let ghost mods = crate::text::char_vec_views(parts@);
    parts.push(key_chars);
    assert(crate::text::char_vec_views(parts@) =~= mods.push(key_chars@));
    let plus = crate::text::chars_of("+");
    let out = join_chars(&parts, &plus);
    Some(string_from(&out))
}

} // verus!
