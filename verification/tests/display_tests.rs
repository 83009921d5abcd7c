use nighterrors::cli::Percent;
use nighterrors::daemon::{BackendKind, FilterState};
use nighterrors::display::{
    apply_result, output_failure, ramp_size, ApplyTarget, DisplayAction, DisplayEvent, DisplayState,
    WlrControlState,
};

fn global(name: u32, interface: &str, version: u32) -> DisplayEvent {
    DisplayEvent::Global { name, interface: interface.to_string(), version }
}

fn filter_excluding(ids: &[&str]) -> FilterState {
    FilterState {
        temperature_k: 6000,
        gamma_pct: Percent { micros: 100_000_000 },
        identity: false,
        excluded_ids: ids.iter().map(|s| s.to_string()).collect(),
    }
}

#[test]
fn new_control_has_no_ramp_yet() {
    let c = WlrControlState::new(7u32);
    assert_eq!(c.control, 7);
    assert_eq!(c.gamma_size, None);
    assert!(!c.failed);
    assert_eq!(ramp_size(&c).unwrap_err(), "gamma size has not been announced yet");
}

#[test]
fn ramp_size_checks() {
    let mut c = WlrControlState::new(());
    c.gamma_size = Some(1);
    assert_eq!(ramp_size(&c).unwrap_err(), "invalid gamma ramp size 1, expected at least 2");
    c.gamma_size = Some(256);
    assert_eq!(ramp_size(&c), Ok(256));
    c.failed = true;
    assert_eq!(ramp_size(&c).unwrap_err(), "wlr gamma control object is marked as failed");
}

#[test]
fn globals_bind_at_capped_versions() {
    let mut d = DisplayState::new();
    assert_eq!(d.on_event(global(9, "wl_output", 7)), vec![DisplayAction::BindOutput { name: 9, version: 4 }]);
    assert_eq!(
        d.on_event(global(3, "hyprland_ctm_control_manager_v1", 1)),
        vec![DisplayAction::BindCtmManager { name: 3, version: 1 }]
    );
    assert_eq!(
        d.on_event(global(4, "zwlr_gamma_control_manager_v1", 3)),
        vec![DisplayAction::BindGammaManager { name: 4, version: 1 }]
    );
    assert!(d.on_event(global(5, "wl_seat", 7)).is_empty());
    assert!(d.hyprland_manager && d.wlr_manager);
    assert!(d.pending_reapply);
    assert_eq!(d.outputs.len(), 1);
}

#[test]
fn hyprland_is_chosen_unless_blocked() {
    let mut d = DisplayState::new();
    d.on_event(global(3, "hyprland_ctm_control_manager_v1", 2));
    d.on_event(global(4, "zwlr_gamma_control_manager_v1", 1));
    assert_eq!(d.start_backend(), Ok(BackendKind::HyprlandCtm));
    let mut blocked = DisplayState::new();
    blocked.on_event(global(3, "hyprland_ctm_control_manager_v1", 2));
    blocked.on_event(DisplayEvent::CtmBlocked);
    assert_eq!(blocked.start_backend().unwrap_err(), "hyprland CTM manager is blocked by another client");
    assert_eq!(blocked.selected_backend, None);
}

#[test]
fn gamma_backend_creates_a_control_per_output() {
    let mut d = DisplayState::new();
    d.on_event(global(20, "wl_output", 4));
    d.on_event(global(10, "wl_output", 4));
    d.on_event(global(4, "zwlr_gamma_control_manager_v1", 1));
    assert_eq!(d.start_backend(), Ok(BackendKind::WlrGamma));
    assert_eq!(d.ensure_wlr_controls(), vec![DisplayAction::CreateControl(10), DisplayAction::CreateControl(20)]);
    assert!(d.ensure_wlr_controls().is_empty());
    let actions = d.on_event(global(30, "wl_output", 4));
    assert_eq!(actions, vec![DisplayAction::BindOutput { name: 30, version: 4 }, DisplayAction::CreateControl(30)]);
    let ids: Vec<u32> = d.outputs.iter().map(|o| o.global_id).collect();
    assert_eq!(ids, vec![10, 20, 30]);
}

#[test]
fn removing_an_output_destroys_its_control() {
    let mut d = DisplayState::new();
    d.on_event(global(10, "wl_output", 4));
    d.on_event(global(4, "zwlr_gamma_control_manager_v1", 1));
    d.start_backend().unwrap();
    d.ensure_wlr_controls();
    d.pending_reapply = false;
    assert_eq!(d.on_event(DisplayEvent::GlobalRemove { name: 10 }), vec![DisplayAction::DestroyControl(10)]);
    assert!(d.outputs.is_empty() && d.controls.is_empty());
    assert!(d.pending_reapply);
    assert!(d.on_event(DisplayEvent::GlobalRemove { name: 10 }).is_empty());
}

#[test]
fn failed_control_is_recreated() {
    let mut d = DisplayState::new();
    d.on_event(global(10, "wl_output", 4));
    d.on_event(global(4, "zwlr_gamma_control_manager_v1", 1));
    d.start_backend().unwrap();
    d.ensure_wlr_controls();
    d.on_event(DisplayEvent::GammaSize { global_id: 10, size: 256 });
    assert_eq!(d.controls[0].gamma_size, Some(256));
    assert_eq!(
        d.on_event(DisplayEvent::GammaFailed { global_id: 10 }),
        vec![DisplayAction::DestroyControl(10), DisplayAction::CreateControl(10)]
    );
    assert_eq!(d.controls[0].gamma_size, None);
}

#[test]
fn names_and_descriptions_update_outputs() {
    let mut d = DisplayState::new();
    d.on_event(global(10, "wl_output", 4));
    d.pending_reapply = false;
    d.on_event(DisplayEvent::OutputName { global_id: 10, name: "eDP-1".to_string() });
    assert!(d.pending_reapply);
    d.pending_reapply = false;
    d.on_event(DisplayEvent::OutputName { global_id: 10, name: "eDP-1".to_string() });
    assert!(!d.pending_reapply);
    d.on_event(DisplayEvent::OutputDescription { global_id: 10, description: "Panel".to_string() });
    assert_eq!(d.outputs[0].name_opt.as_deref(), Some("eDP-1"));
    assert_eq!(d.outputs[0].description_opt.as_deref(), Some("Panel"));
}

#[test]
fn apply_targets_follow_exclusions_and_readiness() {
    let mut d = DisplayState::new();
    d.on_event(global(10, "wl_output", 4));
    d.on_event(global(11, "wl_output", 4));
    d.on_event(DisplayEvent::OutputName { global_id: 11, name: "HDMI-A-1".to_string() });
    let filter = filter_excluding(&["HDMI-A-1"]);
    assert_eq!(d.ctm_targets(&filter).unwrap_err(), "hyprland manager missing");
    d.on_event(global(3, "hyprland_ctm_control_manager_v1", 2));
    assert_eq!(
        d.ctm_targets(&filter).unwrap(),
        vec![ApplyTarget { global_id: 10, excluded: false }, ApplyTarget { global_id: 11, excluded: true }]
    );
    d.on_event(global(4, "zwlr_gamma_control_manager_v1", 1));
    d.selected_backend = Some(BackendKind::WlrGamma);
    d.ensure_wlr_controls();
    assert!(d.gamma_targets(&filter).is_empty());
    d.on_event(DisplayEvent::GammaSize { global_id: 11, size: 1024 });
    assert_eq!(d.gamma_targets(&filter), vec![ApplyTarget { global_id: 11, excluded: true }]);
}

#[test]
fn apply_failures_are_joined() {
    let mut d = DisplayState::new();
    d.on_event(global(10, "wl_output", 4));
    let e = output_failure(&d.outputs[0], "short write");
    assert_eq!(e, "@10: short write");
    assert_eq!(apply_result(Vec::new()), Ok(()));
    assert_eq!(apply_result(vec![e, "DP-1: x".to_string()]), Err("@10: short write; DP-1: x".to_string()));
}
