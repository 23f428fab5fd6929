//! The fallback context menu shown through an external launcher (rofi, wofi,
//! fuzzel) where the tray host cannot show its own: the lines offered, the
//! action behind each, and reading the launcher's answer.

use vstd::prelude::*;
use crate::color::strip_leading;
use crate::config::{TemplateKey, key_text, label_text, menu_order, path_join, join_path, template_keys};
use crate::daemon::UserEvent;
use crate::text::{chars_eq, chars_of, parse_unsigned, parse_unsigned_spec,
    push_str_chars, string_from_chars, trim_chars, trim_spec};

verus! {

broadcast use vstd::string::group_string_axioms;

/// What a menu line does when chosen.
pub enum MenuAction {
    History(String),
    Template(TemplateKey),
    ToggleHud,
    EditConfig,
    About,
    Homepage,
    Quit,
}

/// The swatch image of a history colour: `<dir>/<hex without #>.png`.
pub open spec fn icon_path_spec(dir: Seq<char>, hex: Seq<char>) -> Seq<char> {
    path_join(dir, strip_leading(hex, '#') + ".png"@)
}

/// The menu line of a history colour: the colour, then the launcher's icon
/// marker and the swatch path.
pub open spec fn history_line(dir: Seq<char>, hex: Seq<char>) -> Seq<char> {
    hex + "\0icon\x1f"@ + icon_path_spec(dir, hex)
}

/// The menu line of a format, marked when it is the selected one.
pub open spec fn template_line(k: TemplateKey, selected: Seq<char>) -> Seq<char> {
    (if selected == key_text(k) {
        "●"@
    } else {
        "○"@
    }) + " "@ + label_text(k)
}

/// The menu line of the HUD switch, marked when the HUD shows.
pub open spec fn hud_line(show: bool) -> Seq<char> {
    (if show {
        "✓"@
    } else {
        "○"@
    }) + " Show HUD"@
}

/// A history colour's line and action.
pub open spec fn history_entry(dir: Seq<char>, hex: String, line: String, action: MenuAction) -> bool {
    &&& line@ == history_line(dir, hex@)
    &&& action matches MenuAction::History(s) && s@ == hex@
}

/// A format's line and action.
pub open spec fn template_entry(selected: Seq<char>, k: TemplateKey, line: String, action: MenuAction) -> bool {
    &&& line@ == template_line(k, selected)
    &&& action == MenuAction::Template(k)
}

/// Path of the swatch image of a history colour.
pub fn history_icon_path(dir: &str, hex: &str) -> (r: String)
    ensures
        r@ == icon_path_spec(dir@, hex@),
{
    let hv = chars_of(hex);
    let mut i: usize = 0;
    assert(hv@.skip(0) =~= hv@);
    while i < hv.len() && hv[i] == '#'
        invariant
            i <= hv@.len(),
            hv@ == hex@,
            strip_leading(hex@, '#') == strip_leading(hv@.skip(i as int), '#'),
        decreases hv.len() - i,
    {
        assert(hv@.skip(i as int).drop_first() =~= hv@.skip(i + 1));
        i = i + 1;
    }
    let mut name: Vec<char> = Vec::new();
    let mut j: usize = i;
    while j < hv.len()
        invariant
            i <= j <= hv@.len(),
            name@ == hv@.subrange(i as int, j as int),
        decreases hv.len() - j,
    {
        name.push(hv[j]);
        j = j + 1;
        assert(name@ =~= hv@.subrange(i as int, j as int));
    }
    assert(name@ =~= hv@.skip(i as int));
    assert(strip_leading(hex@, '#') == name@) by {
        if i < hv.len() {
            assert(name@[0] == hv@[i as int]);
        }
    }
    push_str_chars(&mut name, ".png");
    let file = string_from_chars(&name);
    let dv = chars_of(dir);
    let p = join_path(&dv, file.as_str());
    string_from_chars(&p)
}

/// Number of lines after the history ones: the formats, then the HUD switch,
/// Edit Config, Homepage, About and Quit.
pub open spec fn fixed_line_count() -> int {
    15
}

/// The menu's lines and their actions, in order: the history colours, the
/// formats, the HUD switch, Edit Config, Homepage, About, Quit.
pub fn build_menu(history: &Vec<String>, selected_template: &str, show_hud: bool, icon_dir: &str) -> (r: (Vec<String>, Vec<MenuAction>))
    ensures
        r.0@.len() == history@.len() + fixed_line_count(),
        r.1@.len() == history@.len() + fixed_line_count(),
        forall|i: int|
            0 <= i < history@.len() ==> history_entry(icon_dir@, history@[i], #[trigger] r.0@[i], r.1@[i]),
        forall|j: int|
            0 <= j < 10 ==> template_entry(
                selected_template@,
                menu_order()[j],
                #[trigger] r.0@[history@.len() + j],
                r.1@[history@.len() + j],
            ),
        r.0@[history@.len() as int + 10]@ == hud_line(show_hud),
        r.1@[history@.len() as int + 10] is ToggleHud,
        r.0@[history@.len() as int + 11]@ == "⚙ Edit Config"@,
        r.1@[history@.len() as int + 11] is EditConfig,
        r.0@[history@.len() as int + 12]@ == "🌐 Homepage"@,
        r.1@[history@.len() as int + 12] is Homepage,
        r.0@[history@.len() as int + 13]@ == "ℹ About"@,
        r.1@[history@.len() as int + 13] is About,
        r.0@[history@.len() as int + 14]@ == "✕ Quit"@,
        r.1@[history@.len() as int + 14] is Quit,
{
    let mut lines: Vec<String> = Vec::new();
    let mut actions: Vec<MenuAction> = Vec::new();
    let h = history.len();
    let mut i: usize = 0;
    while i < h
        invariant
            h == history@.len(),
            i <= h,
            lines@.len() == i,
            actions@.len() == i,
            forall|k: int|
                0 <= k < i ==> history_entry(icon_dir@, history@[k], #[trigger] lines@[k], actions@[k]),
        decreases h - i,
    {
        let hex = &history[i];
        let mut line = chars_of(hex.as_str());
        push_str_chars(&mut line, "\0icon\x1f");
        let path = history_icon_path(icon_dir, hex.as_str());
        push_str_chars(&mut line, path.as_str());
        lines.push(string_from_chars(&line));
        let copy = hex.clone();
        actions.push(MenuAction::History(copy));
        i = i + 1;
    }
    let keys = template_keys();
    let sel = chars_of(selected_template);
    let mut j: usize = 0;
    while j < 10
        invariant
            h == history@.len(),
            keys@ == menu_order(),
            sel@ == selected_template@,
            j <= 10,
            lines@.len() == h + j,
            actions@.len() == h + j,
            forall|k: int|
                0 <= k < h ==> history_entry(icon_dir@, history@[k], #[trigger] lines@[k], actions@[k]),
            forall|k: int|
                0 <= k < j ==> template_entry(selected_template@, menu_order()[k], #[trigger] lines@[h + k], actions@[h + k]),
        decreases 10 - j,
    {
        let k = keys[j];
        let kv = chars_of(k.key());
        let mut line: Vec<char> = if chars_eq(&sel, &kv) {
            chars_of("●")
        } else {
            chars_of("○")
        };
        push_str_chars(&mut line, " ");
        push_str_chars(&mut line, k.label());
        lines.push(string_from_chars(&line));
        actions.push(MenuAction::Template(k));
        j = j + 1;
    }
    let mut hud: Vec<char> = if show_hud {
        chars_of("✓")
    } else {
        chars_of("○")
    };
    push_str_chars(&mut hud, " Show HUD");
    lines.push(string_from_chars(&hud));
    actions.push(MenuAction::ToggleHud);
    lines.push(string_from_chars(&chars_of("⚙ Edit Config")));
    actions.push(MenuAction::EditConfig);
    lines.push(string_from_chars(&chars_of("🌐 Homepage")));
    actions.push(MenuAction::Homepage);
    lines.push(string_from_chars(&chars_of("ℹ About")));
    actions.push(MenuAction::About);
    lines.push(string_from_chars(&chars_of("✕ Quit")));
    actions.push(MenuAction::Quit);
    (lines, actions)
}

/// The line index that the launcher's output names: the output trimmed of
/// whitespace and read as a decimal `usize`, when that index has a line.
pub open spec fn menu_choice_spec(output: Seq<char>, count: nat) -> Option<int> {
    let t = trim_spec(output);
    if t.len() == 0 {
        None
    } else {
        match parse_unsigned_spec(t, 10, usize::MAX as int) {
            Ok(i) => if i < count {
                Some(i)
            } else {
                None
            },
            Err(_) => None,
        }
    }
}

/// Reads the launcher's answer as the index of a chosen line among `count`.
pub fn menu_choice(output: &str, count: usize) -> (r: Option<usize>)
    ensures
        match r {
            Some(i) => menu_choice_spec(output@, count as nat) == Some(i as int),
            None => menu_choice_spec(output@, count as nat) is None,
        },
{
    let t = trim_chars(&chars_of(output));
    if t.len() == 0 {
        return None;
    }
    match parse_unsigned(&t, 10, usize::MAX as u64) {
        Ok(i) => if i < count as u64 {
            Some(i as usize)
        } else {
            None
        },
        Err(_) => None,
    }
}

impl MenuAction {
    /// The event that choosing this line sends to the main loop.
    pub fn into_event(self) -> (e: UserEvent)
        ensures
            match self {
                MenuAction::History(h) => e == UserEvent::CopyFromHistory(h),
                MenuAction::Template(k) => e matches UserEvent::SelectTemplate(s) && s@ == key_text(k),
                MenuAction::ToggleHud => e is ToggleHUD,
                MenuAction::EditConfig => e is EditConfig,
                MenuAction::About => e is ShowAbout,
                MenuAction::Homepage => e is OpenHomepage,
                MenuAction::Quit => e is Quit,
            },
    {
        match self {
            MenuAction::History(h) => UserEvent::CopyFromHistory(h),
            MenuAction::Template(k) => UserEvent::SelectTemplate(string_from_chars(&chars_of(k.key()))),
            MenuAction::ToggleHud => UserEvent::ToggleHUD,
            MenuAction::EditConfig => UserEvent::EditConfig,
            MenuAction::About => UserEvent::ShowAbout,
            MenuAction::Homepage => UserEvent::OpenHomepage,
            MenuAction::Quit => UserEvent::Quit,
        }
    }
}

// ---------------------------------------------------------------------------
// Desktops that show the tray's own menu
// ---------------------------------------------------------------------------

/// Desktop environments known to render the tray's menu natively.
pub open spec fn is_native_desktop(d: Seq<char>) -> bool {
    ||| d == "KDE"@
    ||| d == "GNOME"@
    ||| d == "X-Cinnamon"@
    ||| d == "LXQt"@
    ||| d == "Deepin"@
    ||| d == "MATE"@
    ||| d == "Pantheon"@
}

/// The `:`-separated parts of `s` (`str::split(':')`), empty parts included.
pub open spec fn colon_parts(s: Seq<char>) -> Seq<Seq<char>>
    decreases s.len(),
{
    if s.len() == 0 {
        seq![Seq::<char>::empty()]
    } else {
        let g = colon_parts(s.drop_last());
        if s.last() == ':' {
            g.push(Seq::<char>::empty())
        } else {
            g.update(g.len() - 1, g.last().push(s.last()))
        }
    }
}

/// Whether `d` names a desktop that renders the tray's menu natively.
fn native_desktop_name(d: &Vec<char>) -> (r: bool)
    ensures
        r == is_native_desktop(d@),
{
    chars_eq(d, &chars_of("KDE")) || chars_eq(d, &chars_of("GNOME")) || chars_eq(
        d,
        &chars_of("X-Cinnamon"),
    ) || chars_eq(d, &chars_of("LXQt")) || chars_eq(d, &chars_of("Deepin")) || chars_eq(
        d,
        &chars_of("MATE"),
    ) || chars_eq(d, &chars_of("Pantheon"))
}

/// Whether the desktop list `desktop` (the `:`-separated value of
/// `XDG_CURRENT_DESKTOP`) names a desktop that renders the tray's menu.
pub fn is_native_popup_desktop(desktop: &str) -> (r: bool)
    ensures
        r == exists|i: int|
            0 <= i < colon_parts(desktop@).len() && is_native_desktop(#[trigger] colon_parts(desktop@)[i]),
{
    let s = chars_of(desktop);
    let mut cur: Vec<char> = Vec::new();
    let mut found = false;
    let ghost mut done: Seq<Seq<char>> = Seq::empty();
    let mut i: usize = 0;
    assert(s@.take(0) =~= Seq::<char>::empty());
    assert(colon_parts(Seq::<char>::empty()) =~= done.push(cur@));
    while i < s.len()
        invariant
            i <= s@.len(),
            s@ == desktop@,
            colon_parts(s@.take(i as int)) == done.push(cur@),
            found == exists|j: int| 0 <= j < done.len() && is_native_desktop(#[trigger] done[j]),
        decreases s.len() - i,
    {
        let ghost prev = s@.take(i as int);
        assert(s@.take(i + 1).drop_last() =~= prev);
        assert(s@.take(i + 1).last() == s@[i as int]);
        if s[i] == ':' {
            let nat_cur = native_desktop_name(&cur);
            proof {
                let nd = done.push(cur@);
                if found {
                    let j = choose|j: int| 0 <= j < done.len() && is_native_desktop(#[trigger] done[j]);
                    assert(nd[j] == done[j]);
                }
                if nat_cur {
                    assert(nd[done.len() as int] == cur@);
                }
                assert forall|j: int| 0 <= j < nd.len() && is_native_desktop(#[trigger] nd[j]) implies (found
                    || nat_cur) by {
                    if j < done.len() {
                        assert(nd[j] == done[j]);
                    }
                }
                done = nd;
            }
            found = found || nat_cur;
            cur = Vec::new();
            assert(colon_parts(s@.take(i + 1)) =~= done.push(cur@));
        } else {
            let ghost old_cur = cur@;
            cur.push(s[i]);
            assert(colon_parts(s@.take(i + 1)) =~= done.push(cur@)) by {
                assert(done.push(old_cur).update(done.len() as int, old_cur.push(s@[i as int])) =~= done.push(cur@));
            }
        }
        i = i + 1;
    }
    assert(s@.take(s.len() as int) =~= s@);
    let last = native_desktop_name(&cur);
    proof {
        let nd = done.push(cur@);
        if found {
            let j = choose|j: int| 0 <= j < done.len() && is_native_desktop(#[trigger] done[j]);
            assert(nd[j] == done[j]);
        }
        if last {
            assert(nd[done.len() as int] == cur@);
        }
        assert forall|j: int| 0 <= j < nd.len() && is_native_desktop(#[trigger] nd[j]) implies (found
            || last) by {
            if j < done.len() {
                assert(nd[j] == done[j]);
            }
        }
    }
    found || last
}

} // verus!
