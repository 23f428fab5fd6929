use ie_r::capture::Transform;
use ie_r::daemon::{
    about_step, handle_user_event, launch_step, output_placement, quit_wait_step, watchdog_kick,
    AboutStep, DaemonAction, LaunchStep, LoopFlags, OutputInfo, QuitWaitStep, UserEvent,
};

fn flags() -> LoopFlags {
    LoopFlags { exit_requested: false, about_pending: false }
}

#[test]
fn copy_from_history_parses_colour() {
    let mut f = flags();
    match handle_user_event(&mut f, false, false, true, UserEvent::CopyFromHistory("#102030".to_string())) {
        DaemonAction::CopyColor(r, g, b) => assert_eq!((r, g, b), (0x10, 0x20, 0x30)),
        _ => panic!("expected a colour"),
    }
    assert!(matches!(
        handle_user_event(&mut f, false, false, true, UserEvent::CopyFromHistory("#zz".to_string())),
        DaemonAction::Ignore
    ));
}

#[test]
fn toggle_hud_flips_setting() {
    let mut f = flags();
    assert!(matches!(handle_user_event(&mut f, false, false, true, UserEvent::ToggleHUD), DaemonAction::SetHud(false)));
    assert!(matches!(handle_user_event(&mut f, false, false, false, UserEvent::ToggleHUD), DaemonAction::SetHud(true)));
}

#[test]
fn select_template_and_simple_events() {
    let mut f = flags();
    match handle_user_event(&mut f, false, false, true, UserEvent::SelectTemplate("hsl".to_string())) {
        DaemonAction::SelectTemplate(k) => assert_eq!(k, "hsl"),
        _ => panic!("expected template selection"),
    }
    assert!(matches!(handle_user_event(&mut f, false, false, true, UserEvent::LaunchOverlay(None)), DaemonAction::LaunchOverlay));
    assert!(matches!(handle_user_event(&mut f, false, false, true, UserEvent::EditConfig), DaemonAction::EditConfig));
    assert!(matches!(handle_user_event(&mut f, false, false, true, UserEvent::OpenHomepage), DaemonAction::OpenHomepage));
    assert!(!f.exit_requested && !f.about_pending);
}

#[test]
fn quit_sets_exit_flag() {
    let mut f = flags();
    assert!(matches!(handle_user_event(&mut f, false, false, true, UserEvent::Quit), DaemonAction::Ignore));
    assert!(f.exit_requested);
}

#[test]
fn show_about_only_when_nothing_is_up() {
    let mut f = flags();
    handle_user_event(&mut f, true, false, true, UserEvent::ShowAbout);
    assert!(!f.about_pending);
    handle_user_event(&mut f, false, true, true, UserEvent::ShowAbout);
    assert!(!f.about_pending);
    handle_user_event(&mut f, false, false, true, UserEvent::ShowAbout);
    assert!(f.about_pending);
}

#[test]
fn about_waits_then_launches() {
    let mut f = LoopFlags { exit_requested: false, about_pending: true };
    assert_eq!(about_step(&mut f, 149, false, false), AboutStep::Wait);
    assert!(f.about_pending);
    assert_eq!(about_step(&mut f, 150, false, false), AboutStep::Launch);
    assert!(!f.about_pending);
    assert_eq!(about_step(&mut f, 500, false, false), AboutStep::Wait);
}

#[test]
fn about_dropped_when_overlay_came_up() {
    let mut f = LoopFlags { exit_requested: false, about_pending: true };
    assert_eq!(about_step(&mut f, 200, true, false), AboutStep::Drop);
    assert!(!f.about_pending);
}

#[test]
fn watchdog_rules() {
    assert!(!watchdog_kick(0, 1000, false));
    assert!(watchdog_kick(60, 50, false));
    assert!(!watchdog_kick(60, 49, false));
    assert!(!watchdog_kick(60, 55, true));
    assert!(watchdog_kick(5, 0, false));
}

#[test]
fn launch_step_clicks_when_overlay_up() {
    assert_eq!(launch_step(true), LaunchStep::SimulateClick);
    assert_eq!(launch_step(false), LaunchStep::Capture);
}

#[test]
fn quit_wait_rules() {
    assert_eq!(quit_wait_step(1, Some(false)), QuitWaitStep::Gone);
    assert_eq!(quit_wait_step(1, Some(true)), QuitWaitStep::WaitMore);
    assert_eq!(quit_wait_step(5, None), QuitWaitStep::WaitMore);
    assert_eq!(quit_wait_step(20, Some(true)), QuitWaitStep::GiveUp);
    assert_eq!(quit_wait_step(20, Some(false)), QuitWaitStep::Gone);
}

#[test]
fn output_placement_fallbacks() {
    let p = output_placement(None);
    assert_eq!((p.name.as_str(), p.logical_pos, p.logical_w, p.transform), ("", (0, 0), 0, Transform::Normal));
    let p = output_placement(Some(OutputInfo {
        name: Some("DP-1".to_string()),
        logical_position: None,
        location: (5, 6),
        logical_size: Some((1280, 720)),
        transform: Transform::Rotate90,
    }));
    assert_eq!((p.name.as_str(), p.logical_pos, p.logical_w, p.transform), ("DP-1", (5, 6), 1280, Transform::Rotate90));
    let p = output_placement(Some(OutputInfo {
        name: None,
        logical_position: Some((7, 8)),
        location: (5, 6),
        logical_size: None,
        transform: Transform::Normal,
    }));
    assert_eq!((p.name.as_str(), p.logical_pos, p.logical_w), ("", (7, 8), 0));
}
