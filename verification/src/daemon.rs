//! The daemon's decisions: what each event and each timer tick leads to,
//! and the fallback launcher menu. The main loop performs the actions.

use vstd::prelude::*;
use crate::capture::Transform;
use crate::color::{channel, hex_color_value, parse_hex_color};

verus! {

broadcast use vstd::string::group_string_axioms;

/// Events from the outside world (tray, hotkeys, signals) to the main loop.
pub enum UserEvent {
    LaunchOverlay(Option<(i32, i32)>),
    EditConfig,
    ToggleHUD,
    CopyFromHistory(String),
    SelectTemplate(String),
    ShowAbout,
    OpenHomepage,
    Quit,
}

/// What the main loop does for an event.
pub enum DaemonAction {
    /// Pick a colour: raise the overlay (or click, if it is up).
    LaunchOverlay,
    /// Open the configuration file in the user's editor.
    EditConfig,
    /// Copy this colour to the clipboard.
    CopyColor(u8, u8, u8),
    /// Make this the selected template, save, and tell the menu.
    SelectTemplate(String),
    /// Set whether the HUD shows, save, and tell the menu.
    SetHud(bool),
    /// Open the project's homepage.
    OpenHomepage,
    /// Nothing to do.
    Ignore,
}

/// The main loop's own flags.
pub struct LoopFlags {
    pub exit_requested: bool,
    /// An About window is waiting for the menus to close.
    pub about_pending: bool,
}

/// The colour that a history entry copies: its `#RRGGBB` value's red,
/// green and blue, when the entry reads as a base-16 `u32`.
pub open spec fn history_color(hex: Seq<char>) -> Option<(int, int, int)> {
    match hex_color_value(hex) {
        Ok(v) => Some((channel(v as u32, 0), channel(v as u32, 1), channel(v as u32, 2))),
        Err(_) => None,
    }
}

/// Decides what an event leads to. `overlay_active` and `about_active` tell
/// whether the overlay and the About window are up; `hud_show` is the HUD
/// setting before the event.
pub fn handle_user_event(
    flags: &mut LoopFlags,
    overlay_active: bool,
    about_active: bool,
    hud_show: bool,
    event: UserEvent,
) -> (a: DaemonAction)
    ensures
        match event {
            UserEvent::LaunchOverlay(_) => a is LaunchOverlay && *final(flags) == *old(flags),
            UserEvent::EditConfig => a is EditConfig && *final(flags) == *old(flags),
            UserEvent::CopyFromHistory(hex) => *final(flags) == *old(flags) && match history_color(hex@) {
                Some((r, g, b)) => a == DaemonAction::CopyColor(r as u8, g as u8, b as u8),
                None => a is Ignore,
            },
            UserEvent::SelectTemplate(key) => a == DaemonAction::SelectTemplate(key)
                && *final(flags) == *old(flags),
            UserEvent::ShowAbout => {
                &&& a is Ignore
                &&& final(flags).exit_requested == old(flags).exit_requested
                &&& final(flags).about_pending == (old(flags).about_pending || (!overlay_active
                    && !about_active))
            },
            UserEvent::OpenHomepage => a is OpenHomepage && *final(flags) == *old(flags),
            UserEvent::Quit => {
                &&& a is Ignore
                &&& final(flags).exit_requested
                &&& final(flags).about_pending == old(flags).about_pending
            },
            UserEvent::ToggleHUD => a == DaemonAction::SetHud(!hud_show) && *final(flags) == *old(flags),
        },
{
    match event {
        UserEvent::LaunchOverlay(_) => DaemonAction::LaunchOverlay,
        UserEvent::EditConfig => DaemonAction::EditConfig,
        UserEvent::CopyFromHistory(hex) => match parse_hex_color(hex.as_str()) {
            Ok(v) => {
                let (r, g, b) = crate::color::xrgb_channels(v);
                DaemonAction::CopyColor(r, g, b)
            },
            Err(_) => DaemonAction::Ignore,
        },
        UserEvent::SelectTemplate(key) => DaemonAction::SelectTemplate(key),
        UserEvent::ShowAbout => {
            if !overlay_active && !about_active && !flags.about_pending {
                flags.about_pending = true;
            }
            DaemonAction::Ignore
        },
        UserEvent::OpenHomepage => DaemonAction::OpenHomepage,
        UserEvent::Quit => {
            flags.exit_requested = true;
            DaemonAction::Ignore
        },
        UserEvent::ToggleHUD => DaemonAction::SetHud(!hud_show),
    }
}

/// What a request to pick a colour does.
#[derive(Clone, Copy, Debug, PartialEq, Eq, Structural)]
pub enum LaunchStep {
    /// The overlay is already up: treat the request as a left click.
    SimulateClick,
    /// Capture the screens and raise the overlay.
    Capture,
}

/// Picks what a launch request does.
pub fn launch_step(overlay_active: bool) -> (s: LaunchStep)
    ensures
        s == (if overlay_active { LaunchStep::SimulateClick } else { LaunchStep::Capture }),
{
    if overlay_active {
        LaunchStep::SimulateClick
    } else {
        LaunchStep::Capture
    }
}

/// Milliseconds an About request waits for the menus to close.
pub const ABOUT_DELAY_MS: u64 = 150;

/// What the timer does with a pending About request.
#[derive(Clone, Copy, Debug, PartialEq, Eq, Structural)]
pub enum AboutStep {
    /// Nothing pending, or not yet time.
    Wait,
    /// Time is up, but the overlay or an About window is up: drop it.
    Drop,
    /// Time is up: show the About window.
    Launch,
}

/// Decides, on a timer tick, what becomes of a pending About request made
/// `elapsed_ms` ago.
pub fn about_step(flags: &mut LoopFlags, elapsed_ms: u64, overlay_active: bool, about_active: bool) -> (s: AboutStep)
    ensures
        final(flags).exit_requested == old(flags).exit_requested,
        s == (if !old(flags).about_pending || elapsed_ms < ABOUT_DELAY_MS {
            AboutStep::Wait
        } else if !overlay_active && !about_active {
            AboutStep::Launch
        } else {
            AboutStep::Drop
        }),
        final(flags).about_pending == (old(flags).about_pending && elapsed_ms < ABOUT_DELAY_MS),
{
    if !flags.about_pending || elapsed_ms < ABOUT_DELAY_MS {
        return AboutStep::Wait;
    }
    flags.about_pending = false;
    if !overlay_active && !about_active {
        AboutStep::Launch
    } else {
        AboutStep::Drop
    }
}

/// Seconds before the automatic cancel at which an idle overlay is redrawn
/// once to show its warning.
pub const CANCEL_WARNING_SECS: u64 = 10;

/// Whether an overlay idle for `idle_secs` gets its one redraw kick: the
/// automatic cancel is on, the warning time is reached, and no redraw is
/// pending.
pub fn watchdog_kick(auto_cancel_secs: u64, idle_secs: u64, redraw_pending: bool) -> (k: bool)
    ensures
        k == (auto_cancel_secs > 0 && idle_secs >= (if auto_cancel_secs >= CANCEL_WARNING_SECS {
            auto_cancel_secs - CANCEL_WARNING_SECS
        } else {
            0
        }) && !redraw_pending),
{
    if auto_cancel_secs == 0 {
        return false;
    }
    let warning_at = auto_cancel_secs.saturating_sub(CANCEL_WARNING_SECS);
    idle_secs >= warning_at && !redraw_pending
}

/// Attempts at seeing a previous instance leave the bus, one every 100 ms.
pub const QUIT_WAIT_ATTEMPTS: u32 = 20;

/// What to do after asking a previous instance to quit and checking the bus.
#[derive(Clone, Copy, Debug, PartialEq, Eq, Structural)]
pub enum QuitWaitStep {
    /// The previous instance is gone.
    Gone,
    /// Check again after a pause.
    WaitMore,
    /// Stop waiting and go on anyway.
    GiveUp,
}

/// Decides after check number `attempt` (from 1) whether the old instance
/// is gone; `still_alive` is `None` when the bus could not be asked.
pub fn quit_wait_step(attempt: u32, still_alive: Option<bool>) -> (s: QuitWaitStep)
    ensures
        s == (if still_alive == Some(false) {
            QuitWaitStep::Gone
        } else if attempt >= QUIT_WAIT_ATTEMPTS {
            QuitWaitStep::GiveUp
        } else {
            QuitWaitStep::WaitMore
        }),
{
    match still_alive {
        Some(false) => QuitWaitStep::Gone,
        _ => if attempt >= QUIT_WAIT_ATTEMPTS {
            QuitWaitStep::GiveUp
        } else {
            QuitWaitStep::WaitMore
        },
    }
}

/// What the compositor reports of an output.
pub struct OutputInfo {
    pub name: Option<String>,
    pub logical_position: Option<(i32, i32)>,
    pub location: (i32, i32),
    pub logical_size: Option<(i32, i32)>,
    pub transform: Transform,
}

/// An output's placement, as the capture needs it.
pub struct OutputPlacement {
    pub name: String,
    pub logical_pos: (i32, i32),
    pub logical_w: i32,
    pub transform: Transform,
}

/// The placement of an output from what is known of it: the name (empty if
/// unknown), the logical position (else the location, else the origin), the
/// logical width (0 if unknown) and the transform (`Normal` if unknown).
pub fn output_placement(info: Option<OutputInfo>) -> (p: OutputPlacement)
    ensures
        match info {
            None => p.name@ == Seq::<char>::empty() && p.logical_pos == (0i32, 0i32)
                && p.logical_w == 0 && p.transform == Transform::Normal,
            Some(i) => {
                &&& p.name@ == (match i.name {
                    Some(n) => n@,
                    None => Seq::<char>::empty(),
                })
                &&& p.logical_pos == (match i.logical_position {
                    Some(q) => q,
                    None => i.location,
                })
                &&& p.logical_w == (match i.logical_size {
                    Some(s) => s.0,
                    None => 0,
                })
                &&& p.transform == i.transform
            },
        },
{
    match info {
        None => OutputPlacement {
            name: String::new(),
            logical_pos: (0, 0),
            logical_w: 0,
            transform: Transform::Normal,
        },
        Some(i) => {
            let name = match i.name {
                Some(n) => n,
                None => String::new(),
            };
            let logical_pos = match i.logical_position {
                Some(q) => q,
                None => i.location,
            };
            let logical_w = match i.logical_size {
                Some(s) => s.0,
                None => 0,
            };
            OutputPlacement { name, logical_pos, logical_w, transform: i.transform }
        },
    }
}

} // verus!
