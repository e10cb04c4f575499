//! Navigation state of the settings application and the shell's panels:
//! which page a sidebar category opens, and each page's title.

use vstd::prelude::*;

use crate::text::{chars_of, contains_chars, contains_text, lower, lower_chars, slice_chars, string_from};

verus! {

/// A page (or sidebar category) of the settings application.
#[derive(Debug, Clone, PartialEq, Eq)]
pub enum Section {
    Appearance,
    Theme,
    IconPack,
    Sound,
    Desktop,
    Wallpaper,
    DesktopIcons,
    Panels,
    Status,
    Dock(usize),
    AddDock,
    Tray,
    Widgets,
    Windows,
    InputDevices,
    System,
    Layout,
    Titlebar,
    Compositor,
    WorkingArea,
    Effects,
    Keyboard,
    Mouse,
    CursorTheme,
    Touchpad,
    Focus,
    Shortcuts,
    Users,
    Profile,
    User(String),
    CreateUser,
}

/// The tab shown on a dock's settings page.
#[derive(Debug, Clone, Copy, PartialEq, Eq, Structural)]
pub enum DockTab {
    Display,
    Appearance,
    Content,
}

/// What the control center popup currently shows.
#[derive(Debug, Clone, Copy, PartialEq, Eq, Structural)]
pub enum PanelView {
    Main,
    Network,
    Bluetooth,
    Energy,
    Brightness,
    Volume,
}

/// The page a sidebar category opens on; a page opens itself.
pub open spec fn spec_category_default(section: Section) -> Section {
    match section {
        Section::Appearance => Section::Theme,
        Section::Desktop => Section::Wallpaper,
        Section::Panels => Section::Dock(0),
        Section::Status => Section::Tray,
        Section::Windows => Section::Layout,
        Section::InputDevices => Section::Keyboard,
        Section::System => Section::Effects,
        Section::Users => Section::Profile,
        leaf => leaf,
    }
}

/// The page a sidebar category opens on (see [`spec_category_default`]).
pub fn category_default(section: Section) -> (page: Section)
    ensures
        page == spec_category_default(section),
{
    match section {
        Section::Appearance => Section::Theme,
        Section::Desktop => Section::Wallpaper,
        Section::Panels => Section::Dock(0),
        Section::Status => Section::Tray,
        Section::Windows => Section::Layout,
        Section::InputDevices => Section::Keyboard,
        Section::System => Section::Effects,
        Section::Users => Section::Profile,
        leaf => leaf,
    }
}

/// The decimal digit for `d`.
pub open spec fn digit_char(d: nat) -> char {
    ((d + 48) as u32) as char
}

/// The decimal representation of `n`, without leading zeros.
pub open spec fn decimal(n: nat) -> Seq<char>
    decreases n,
{
    if n < 10 {
        seq![digit_char(n)]
    } else {
        decimal(n / 10).push(digit_char(n % 10))
    }
}

/// The decimal representation of `n`.
pub fn decimal_text(n: usize) -> (text: String)
    ensures
        text@ == decimal(n as nat),
{
    let mut digits: Vec<char> = Vec::new();
    let mut rest: usize = n;
    let ghost mut done: Seq<char> = Seq::empty();
    loop
        invariant_except_break
            decimal(n as nat) == decimal(rest as nat) + done,
        invariant
            digits@ == done.reverse(),
        ensures
            decimal(n as nat) == done,
        decreases rest,
    {
        let d = (rest % 10) as u8;
        let c = (d + 48) as char;
        assert(c == digit_char((rest % 10) as nat));
        let ghost old_done = done;
        digits.push(c);
        proof {
            done = seq![c] + old_done;
            assert(digits@ =~= done.reverse());
        }
        if rest < 10 {
            assert(decimal(rest as nat) == seq![c]);
            assert(decimal(n as nat) =~= done);
            break;
        }
        assert(decimal(rest as nat) == decimal((rest / 10) as nat).push(c));
        assert(decimal((rest / 10) as nat).push(c) + old_done =~= decimal((rest / 10) as nat) + done);
        rest = rest / 10;
    }
    assert(decimal(n as nat) =~= done);
    let mut ordered: Vec<char> = Vec::new();
    let mut k: usize = digits.len();
    while k > 0
        invariant
            0 <= k <= digits@.len(),
            ordered@ == digits@.reverse().take(digits@.len() - k),
        decreases k,
    {
        ordered.push(digits[k - 1]);
        assert(digits@.reverse().take(digits@.len() - k + 1) =~= digits@.reverse().take(digits@.len() - k).push(digits@[k - 1]));
        k = k - 1;
    }
    assert(digits@.reverse().take(digits@.len() as int) == digits@.reverse());
    assert(done.reverse().reverse() =~= done);
    string_from(&ordered)
}

/// A dock's label in the settings sidebar: its name, or `Panel <n>` for the
/// `n`th dock when it has none.
pub open spec fn spec_dock_label(index: nat, name: Option<Seq<char>>) -> Seq<char> {
    match name {
        Some(name) => name,
        None => "Panel "@ + decimal(index + 1),
    }
}

/// A dock's label in the settings sidebar (see [`spec_dock_label`]).
pub fn dock_label(index: usize, name: &Option<String>) -> (label: String)
    requires
        index < usize::MAX,
    ensures
        label@ == spec_dock_label(index as nat, match name {
            Some(n) => Some(n@),
            None => None,
        }),
{
    match name {
        Some(name) => name.clone(),
        None => {
            let mut label = String::from_str("Panel ");
            let number = decimal_text(index + 1);
            label.append(number.as_str());
            label
        },
    }
}

/// The views of the docks' optional names.
pub open spec fn name_views(names: Seq<Option<String>>) -> Seq<Option<Seq<char>>> {
    names.map_values(|name: Option<String>| match name {
        Some(n) => Some(n@),
        None => None,
    })
}

/// The title shown above a settings page; categories show `Settings`, a
/// dock's page its sidebar label (or `Panel` for a dock that no longer
/// exists), a user's page the user name.
pub open spec fn spec_page_title(section: Section, dock_names: Seq<Option<Seq<char>>>) -> Seq<char> {
    match section {
        Section::Theme => "Appearance"@,
        Section::IconPack => "Icons"@,
        Section::Sound => "Sound"@,
        Section::Wallpaper => "Wallpaper"@,
        Section::DesktopIcons => "Desktop icons"@,
        Section::AddDock => "New panel"@,
        Section::Tray => "Status icons"@,
        Section::Widgets => "Widgets"@,
        Section::Layout => "Window layout"@,
        Section::Titlebar => "Titlebar"@,
        Section::Compositor => "Advanced"@,
        Section::WorkingArea => "Workspaces"@,
        Section::Effects => "Motion"@,
        Section::Keyboard => "Keyboard"@,
        Section::Mouse => "Mouse"@,
        Section::CursorTheme => "Cursor"@,
        Section::Touchpad => "Touchpad"@,
        Section::Focus => "Window focus"@,
        Section::Shortcuts => "Shortcuts"@,
        Section::Profile => "My profile"@,
        Section::CreateUser => "Create user"@,
        Section::Dock(index) => if index < dock_names.len() {
            spec_dock_label(index as nat, dock_names[index as int])
        } else {
            "Panel"@
        },
        Section::User(username) => username@,
        Section::Appearance | Section::Desktop | Section::Panels | Section::Status | Section::Windows | Section::InputDevices | Section::System | Section::Users => "Settings"@,
    }
}

/// The title shown above a settings page (see [`spec_page_title`]).
pub fn page_title(section: &Section, dock_names: &Vec<Option<String>>) -> (title: String)
    ensures
        title@ == spec_page_title(*section, name_views(dock_names@)),
{
    match section {
        Section::Theme => "Appearance".to_owned(),
        Section::IconPack => "Icons".to_owned(),
        Section::Sound => "Sound".to_owned(),
        Section::Wallpaper => "Wallpaper".to_owned(),
        Section::DesktopIcons => "Desktop icons".to_owned(),
        Section::AddDock => "New panel".to_owned(),
        Section::Tray => "Status icons".to_owned(),
        Section::Widgets => "Widgets".to_owned(),
        Section::Layout => "Window layout".to_owned(),
        Section::Titlebar => "Titlebar".to_owned(),
        Section::Compositor => "Advanced".to_owned(),
        Section::WorkingArea => "Workspaces".to_owned(),
        Section::Effects => "Motion".to_owned(),
        Section::Keyboard => "Keyboard".to_owned(),
        Section::Mouse => "Mouse".to_owned(),
        Section::CursorTheme => "Cursor".to_owned(),
        Section::Touchpad => "Touchpad".to_owned(),
        Section::Focus => "Window focus".to_owned(),
        Section::Shortcuts => "Shortcuts".to_owned(),
        Section::Profile => "My profile".to_owned(),
        Section::CreateUser => "Create user".to_owned(),
        Section::Dock(index) => {
            let index = *index;
            if index < dock_names.len() {
                dock_label(index, &dock_names[index])
            } else {
                "Panel".to_owned()
            }
        },
        Section::User(username) => username.clone(),
        Section::Appearance | Section::Desktop | Section::Panels | Section::Status | Section::Windows | Section::InputDevices | Section::System | Section::Users => "Settings".to_owned(),
    }
}

/// The islands the settings' add-island picker offers, with their labels.
pub open spec fn known_widgets() -> Seq<(Seq<char>, Seq<char>)> {
    seq![
        ("logo"@, "Logo"@),
        ("weather"@, "Weather"@),
        ("current_playing"@, "Now playing"@),
        ("app_launcher"@, "App launcher"@),
        ("control_center"@, "Control center"@),
        ("clock"@, "Clock"@),
    ]
}

/// The label of the first known island whose id is `id`.
pub open spec fn label_in(known: Seq<(Seq<char>, Seq<char>)>, id: Seq<char>) -> Option<Seq<char>>
    decreases known.len(),
{
    if known.len() == 0 {
        None
    } else if known[0].0 == id {
        Some(known[0].1)
    } else {
        label_in(known.drop_first(), id)
    }
}

/// The label of an island: its known label, or its id for an unknown one.
pub fn widget_label<'a>(id: &'a str) -> (label: &'a str)
    ensures
        label@ == match label_in(known_widgets(), id@) {
            Some(known) => known,
            None => id@,
        },
{
    let ids: Vec<&'static str> = vec!["logo", "weather", "current_playing", "app_launcher", "control_center", "clock"];
    let labels: Vec<&'static str> = vec!["Logo", "Weather", "Now playing", "App launcher", "Control center", "Clock"];
    let ghost known = known_widgets();
    assert(known.len() == 6);
    let mut k: usize = 0;
    assert(known.skip(0) =~= known);
    while k < 6
        invariant
            0 <= k <= 6,
            known == known_widgets(),
            ids@.len() == 6,
            labels@.len() == 6,
            forall|m: int| 0 <= m < 6 ==> (#[trigger] known[m]).0 == ids@[m]@ && known[m].1 == labels@[m]@,
            label_in(known, id@) == label_in(known.skip(k as int), id@),
        decreases 6 - k,
    {
        assert(known.skip(k as int)[0] == known[k as int]);
        assert(known.skip(k as int).drop_first() =~= known.skip(k + 1));
        if crate::geo::text_eq(ids[k], id) {
            return labels[k];
        }
        k = k + 1;
    }
    assert(known.skip(6).len() == 0);
    id
}

/// What `char::to_uppercase` gives for `c`.
pub uninterp spec fn char_uppercase(c: char) -> Seq<char>;

/// Calls `char::to_uppercase`, the full Unicode upper-case mapping of one
/// character (which can be several characters long).
#[verifier::external_body]
fn uppercase_of(c: char) -> (upper: String)
    ensures
        upper@ == char_uppercase(c),
{
    c.to_uppercase().collect()
}

/// `id` with its first character upper-cased (a theme id shown as a name).
pub fn title_case(id: &str) -> (title: String)
    ensures
        title@ == if id@.len() == 0 { Seq::<char>::empty() } else { char_uppercase(id@[0]) + id@.drop_first() },
{
    let chars = chars_of(id);
    if chars.len() == 0 {
        let empty: Vec<char> = Vec::new();
        return string_from(&empty);
    }
    let mut title = uppercase_of(chars[0]);
    let rest = slice_chars(&chars, 1, chars.len());
    let rest_text = string_from(&rest);
    title.append(rest_text.as_str());
    assert(chars@.subrange(1, chars@.len() as int) =~= id@.drop_first());
    title
}

/// A desktop-session variable names KDE: it mentions `kde`, `plasma` or
/// `kwin`, ignoring ASCII case.
pub open spec fn names_kde(value: Seq<char>) -> bool {
    contains_text(lower(value), "kde"@) || contains_text(lower(value), "plasma"@) || contains_text(lower(value), "kwin"@)
}

/// Whether some of the session variables that are set (the current
/// desktop, the session desktop, `KDE_FULL_SESSION`) name KDE.
pub fn is_kde_session(values: &Vec<String>) -> (kde: bool)
    ensures
        kde == exists|k: int| 0 <= k < values@.len() && names_kde(#[trigger] values@[k]@),
{
    let kde_text = chars_of("kde");
    let plasma = chars_of("plasma");
    let kwin = chars_of("kwin");
    let mut k: usize = 0;
    while k < values.len()
        invariant
            0 <= k <= values@.len(),
            kde_text@ == "kde"@,
            plasma@ == "plasma"@,
            kwin@ == "kwin"@,
            forall|m: int| 0 <= m < k ==> !names_kde(#[trigger] values@[m]@),
        decreases values@.len() - k,
    {
        let chars = chars_of(values[k].as_str());
        let lowered = lower_chars(&chars);
        if contains_chars(&lowered, &kde_text) || contains_chars(&lowered, &plasma) || contains_chars(&lowered, &kwin) {
            assert(names_kde(values@[k as int]@));
            return true;
        }
        k = k + 1;
    }
    false
}

} // verus!
