use nighterrors::cli::{GammaChange, Percent, RunOptions, TemperatureChange};
use nighterrors::daemon::{
    format_float, handle_request, join_csv, resolve_gamma, resolve_temperature, response_after_apply,
    select_backend, validate_gamma, validate_temperature, BackendKind, FilterState, OutputInfo,
};

fn filter_at(temperature_k: u32, gamma_micros: i64) -> FilterState {
    FilterState {
        temperature_k,
        gamma_pct: Percent { micros: gamma_micros },
        identity: false,
        excluded_ids: Vec::new(),
    }
}

fn named_output(global_id: u32, name: &str) -> OutputInfo {
    OutputInfo { global_id, name_opt: Some(name.to_string()), description_opt: None }
}

#[test]
fn temperature_bounds() {
    assert!(resolve_temperature(6000, TemperatureChange::Absolute(999)).is_err());
    assert!(resolve_temperature(6000, TemperatureChange::Absolute(20001)).is_err());
    assert_eq!(resolve_temperature(6000, TemperatureChange::Relative(-500)).unwrap(), 5500);
}

#[test]
fn gamma_bounds() {
    let current = Percent { micros: 100_000_000 };
    assert!(resolve_gamma(current, GammaChange::Absolute(Percent { micros: -1_000_000 })).is_err());
    assert!(resolve_gamma(current, GammaChange::Absolute(Percent { micros: 201_000_000 })).is_err());
    assert_eq!(
        resolve_gamma(current, GammaChange::Relative(Percent { micros: 5_500_000 })).unwrap(),
        Percent { micros: 105_500_000 }
    );
}

#[test]
fn float_formatting_trims_trailing_zeros() {
    assert_eq!(format_float(Percent { micros: 100_000_000 }), "100");
    assert_eq!(format_float(Percent { micros: 95_500_000 }), "95.5");
}

#[test]
fn set_request_requires_apply() {
    let mut filter = filter_at(6000, 100_000_000);
    let result = handle_request("set temperature 5500", &mut filter, &[], BackendKind::WlrGamma);
    assert_eq!(result.response, "ok");
    assert!(result.needs_apply);
    assert!(!result.should_stop);
    assert_eq!(filter.temperature_k, 5500);
}

#[test]
fn get_request_does_not_require_apply() {
    let mut filter = filter_at(6000, 100_000_000);
    let result = handle_request("get temperature", &mut filter, &[], BackendKind::HyprlandCtm);
    assert_eq!(result.response, "ok temperature=6000");
    assert!(!result.needs_apply);
    assert!(!result.should_stop);
}

// ---------------------------------------------------------------------------
// Further cases of the library's own.
// ---------------------------------------------------------------------------

#[test]
fn range_errors_name_the_range() {
    assert_eq!(
        resolve_temperature(6000, TemperatureChange::Relative(i64::MAX)).unwrap_err(),
        "temperature must be in range 1000..=20000"
    );
    assert_eq!(
        resolve_gamma(Percent { micros: 0 }, GammaChange::Relative(Percent { micros: -1 })).unwrap_err(),
        "gamma must be in range 0..=200"
    );
    assert!(validate_temperature(1000).is_ok());
    assert!(validate_temperature(20001).is_err());
    assert!(validate_gamma(Percent { micros: 200_000_000 }).is_ok());
    assert!(validate_gamma(Percent { micros: 200_000_001 }).is_err());
}

#[test]
fn float_formatting_keeps_six_decimals() {
    assert_eq!(format_float(Percent { micros: 0 }), "0");
    assert_eq!(format_float(Percent { micros: 1 }), "0.000001");
    assert_eq!(format_float(Percent { micros: -2_500_000 }), "-2.5");
}

#[test]
fn csv_of_nothing_is_a_dash() {
    assert_eq!(join_csv(Vec::new()), "-");
    assert_eq!(join_csv(vec!["a".to_string(), "b".to_string()]), "a,b");
}

#[test]
fn set_then_get_reports_the_new_values() {
    let mut filter = filter_at(6000, 100_000_000);
    filter.identity = true;
    let set = handle_request("set temperature 4500", &mut filter, &[], BackendKind::WlrGamma);
    assert_eq!(set.response, "ok");
    assert!(!filter.identity);
    let get = handle_request("get temperature", &mut filter, &[], BackendKind::WlrGamma);
    assert_eq!(get.response, "ok temperature=4500");

    handle_request("set gamma 87.25", &mut filter, &[], BackendKind::WlrGamma);
    let get = handle_request("get gamma", &mut filter, &[], BackendKind::WlrGamma);
    assert_eq!(get.response, "ok gamma=87.25");
}

#[test]
fn toggling_identity_twice_gives_it_back() {
    let mut filter = filter_at(6000, 100_000_000);
    handle_request("set identity toggle", &mut filter, &[], BackendKind::WlrGamma);
    assert!(filter.identity);
    let get = handle_request("get identity", &mut filter, &[], BackendKind::WlrGamma);
    assert_eq!(get.response, "ok identity=true");
    handle_request("set identity toggle", &mut filter, &[], BackendKind::WlrGamma);
    assert!(!filter.identity);
}

#[test]
fn reset_restores_defaults_and_keeps_excludes() {
    let mut filter = filter_at(3000, 50_000_000);
    filter.identity = true;
    handle_request("exclude add eDP-1", &mut filter, &[], BackendKind::HyprlandCtm);
    let r = handle_request("reset", &mut filter, &[], BackendKind::HyprlandCtm);
    assert_eq!(r.response, "ok");
    assert!(r.needs_apply);
    let state = handle_request("get state", &mut filter, &[], BackendKind::HyprlandCtm);
    assert_eq!(
        state.response,
        "ok state=temperature:6000 gamma:100 identity:false backend:hyprland-ctm excludes:eDP-1"
    );
}

#[test]
fn excludes_are_kept_sorted_and_once() {
    let mut filter = filter_at(6000, 100_000_000);
    handle_request("exclude add HDMI-A-1", &mut filter, &[], BackendKind::WlrGamma);
    handle_request("exclude add @37", &mut filter, &[], BackendKind::WlrGamma);
    handle_request("exclude add eDP-1", &mut filter, &[], BackendKind::WlrGamma);
    handle_request("exclude add HDMI-A-1", &mut filter, &[], BackendKind::WlrGamma);
    let list = handle_request("exclude list", &mut filter, &[], BackendKind::WlrGamma);
    assert_eq!(list.response, "ok excludes=@37,HDMI-A-1,eDP-1");
    handle_request("exclude remove HDMI-A-1", &mut filter, &[], BackendKind::WlrGamma);
    let list = handle_request("exclude ls", &mut filter, &[], BackendKind::WlrGamma);
    assert_eq!(list.response, "ok excludes=@37,eDP-1");
    handle_request("exclude rm @37", &mut filter, &[], BackendKind::WlrGamma);
    handle_request("exclude rm eDP-1", &mut filter, &[], BackendKind::WlrGamma);
    let list = handle_request("exclude list", &mut filter, &[], BackendKind::WlrGamma);
    assert_eq!(list.response, "ok excludes=-");
}

#[test]
fn outputs_list_is_sorted_and_marks_excluded() {
    let mut filter = filter_at(6000, 100_000_000);
    let outputs = vec![
        named_output(40, "eDP-1"),
        OutputInfo::new(37),
        named_output(41, "DP-2"),
    ];
    handle_request("exclude add eDP-1", &mut filter, &outputs, BackendKind::WlrGamma);
    handle_request("exclude add @37", &mut filter, &outputs, BackendKind::WlrGamma);
    let r = handle_request("outputs list", &mut filter, &outputs, BackendKind::WlrGamma);
    assert_eq!(r.response, "ok outputs=@37*,DP-2,eDP-1*");
    assert!(!r.needs_apply);
    let none = handle_request("outputs list", &mut filter, &[], BackendKind::WlrGamma);
    assert_eq!(none.response, "ok outputs=-");
}

#[test]
fn refused_requests_change_nothing() {
    let mut filter = filter_at(6000, 100_000_000);
    let r = handle_request("set temperature 25000", &mut filter, &[], BackendKind::WlrGamma);
    assert_eq!(r.response, "error: temperature must be in range 1000..=20000");
    assert!(!r.needs_apply);
    assert_eq!(filter.temperature_k, 6000);
    let r = handle_request("set gamma 250", &mut filter, &[], BackendKind::WlrGamma);
    assert_eq!(r.response, "error: gamma must be in range 0..=200");
    let r = handle_request("bogus", &mut filter, &[], BackendKind::WlrGamma);
    assert!(r.response.starts_with("error: unknown command: bogus"));
    assert!(!r.should_stop);
}

#[test]
fn stop_request_stops() {
    let mut filter = filter_at(6000, 100_000_000);
    let r = handle_request("stop", &mut filter, &[], BackendKind::HyprlandCtm);
    assert_eq!(r.response, "ok");
    assert!(r.should_stop);
    assert!(!r.needs_apply);
}

#[test]
fn get_backend_names_the_backend() {
    let mut filter = filter_at(6000, 100_000_000);
    let r = handle_request("get backend", &mut filter, &[], BackendKind::WlrGamma);
    assert_eq!(r.response, "ok backend=wlr-gamma");
    assert_eq!(BackendKind::HyprlandCtm.name(), "hyprland-ctm");
}

#[test]
fn backend_prefers_hyprland() {
    assert_eq!(select_backend(true, true), Ok(BackendKind::HyprlandCtm));
    assert_eq!(select_backend(false, true), Ok(BackendKind::WlrGamma));
    assert!(select_backend(false, false).unwrap_err().starts_with("no supported color-control protocol"));
}

#[test]
fn filter_from_options_sorts_excludes() {
    let options = RunOptions {
        temperature_k: 5000,
        gamma_pct: Percent { micros: 90_000_000 },
        identity: true,
        excludes: vec!["b".to_string(), "a".to_string(), "b".to_string()],
        verbose: false,
    };
    let filter = FilterState::from_run_options(&options);
    assert_eq!(filter.excluded_ids, vec!["a".to_string(), "b".to_string()]);
    assert_eq!(filter.temperature_k, 5000);
    assert!(filter.identity);
}

#[test]
fn output_ids_and_exclusion() {
    let unnamed = OutputInfo::new(12);
    assert_eq!(unnamed.primary_id(), "@12");
    let named = named_output(12, "eDP-1");
    assert_eq!(named.primary_id(), "eDP-1");
    assert!(named.is_excluded(&vec!["@12".to_string()]));
    assert!(named.is_excluded(&vec!["eDP-1".to_string()]));
    assert!(!unnamed.is_excluded(&vec!["eDP-1".to_string()]));
}

#[test]
fn failed_apply_turns_the_answer_into_an_error() {
    assert_eq!(response_after_apply("ok".to_string(), Ok(())), "ok");
    assert_eq!(
        response_after_apply("ok".to_string(), Err("DP-1: boom".to_string())),
        "error: apply failed: DP-1: boom"
    );
}

#[test]
fn non_finite_gamma_gets_the_range_error() {
    let mut filter = filter_at(6000, 100_000_000);
    let r = handle_request("set gamma inf", &mut filter, &[], BackendKind::WlrGamma);
    assert_eq!(r.response, "error: gamma must be in range 0..=200");
    let r = handle_request("set gamma -nan", &mut filter, &[], BackendKind::WlrGamma);
    assert_eq!(r.response, "error: gamma must be in range 0..=200");
    let r = handle_request("toggle", &mut filter, &[], BackendKind::WlrGamma);
    assert_eq!(r.response, "ok");
    assert!(filter.identity);
}

#[test]
fn exponent_gamma_is_read_as_a_number() {
    let mut filter = filter_at(6000, 100_000_000);
    let r = handle_request("set gamma 1.5e2", &mut filter, &[], BackendKind::WlrGamma);
    assert_eq!(r.response, "ok");
    let r = handle_request("get gamma", &mut filter, &[], BackendKind::WlrGamma);
    assert_eq!(r.response, "ok gamma=150");
    let r = handle_request("set gamma 1e3", &mut filter, &[], BackendKind::WlrGamma);
    assert_eq!(r.response, "error: gamma must be in range 0..=200");
}

#[test]
fn gamma_just_beyond_the_range_is_refused() {
    let mut filter = filter_at(6000, 100_000_000);
    let r = handle_request("set gamma 200.0000001", &mut filter, &[], BackendKind::WlrGamma);
    assert_eq!(r.response, "error: gamma must be in range 0..=200");
    let r = handle_request("set gamma 200.0000000", &mut filter, &[], BackendKind::WlrGamma);
    assert_eq!(r.response, "ok");
    let r = handle_request("set gamma 0", &mut filter, &[], BackendKind::WlrGamma);
    assert_eq!(r.response, "ok");
    let r = handle_request("set gamma -0.0000001", &mut filter, &[], BackendKind::WlrGamma);
    assert_eq!(r.response, "error: gamma must be in range 0..=200");
}
