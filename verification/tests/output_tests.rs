use nighterrors::cli::{ControlRequest, GetField, OutputMode};
use nighterrors::client::{add_connect_hint, error_line};
use nighterrors::output::{format_excludes, format_outputs, format_state, render_response, resolved_raw, split_csv};

fn get_state_req() -> ControlRequest {
    ControlRequest::Get(GetField::State)
}

#[test]
fn auto_mode_uses_raw_when_not_tty() {
    let rendered = render_response(&get_state_req(), "ok temperature=6000", OutputMode::Auto, false);
    assert_eq!(rendered, "ok temperature=6000");
}

#[test]
fn auto_mode_uses_pretty_when_tty() {
    let rendered = render_response(&get_state_req(), "ok temperature=6000", OutputMode::Auto, true);
    assert_eq!(rendered, "Temperature: 6000 K");
}

#[test]
fn forced_modes_override_auto() {
    let rendered = render_response(&get_state_req(), "ok gamma=95", OutputMode::Pretty, false);
    assert_eq!(rendered, "Gamma: 95%");

    let rendered = render_response(&get_state_req(), "ok gamma=95", OutputMode::Raw, true);
    assert_eq!(rendered, "ok gamma=95");
}

#[test]
fn unknown_ok_shape_falls_back_to_raw() {
    let rendered = render_response(&get_state_req(), "ok mystery=value", OutputMode::Pretty, true);
    assert_eq!(rendered, "ok mystery=value");
}

#[test]
fn formats_outputs_and_excludes() {
    let rendered = render_response(&get_state_req(), "ok outputs=eDP-1*,HDMI-A-1", OutputMode::Pretty, true);
    assert_eq!(rendered, "Outputs:\n- eDP-1 (excluded)\n- HDMI-A-1");

    let rendered = render_response(&get_state_req(), "ok excludes=-", OutputMode::Pretty, true);
    assert_eq!(rendered, "Excluded outputs: none");
}

#[test]
fn formats_state_payload() {
    let rendered = render_response(
        &get_state_req(),
        "ok state=temperature:6000 gamma:100 identity:false backend:wlr-gamma excludes:eDP-1,@37",
        OutputMode::Pretty,
        true,
    );

    assert_eq!(
        rendered,
        "State:\nTemperature: 6000 K\nGamma: 100%\nIdentity: off\nBackend: wlr-gamma\nExcluded outputs: eDP-1, @37"
    );
}

// ---------------------------------------------------------------------------
// Further cases of the library's own.
// ---------------------------------------------------------------------------

#[test]
fn plain_ok_reads_applied() {
    assert_eq!(render_response(&get_state_req(), "ok", OutputMode::Pretty, false), "Applied.");
    assert_eq!(render_response(&get_state_req(), "ok identity=true", OutputMode::Pretty, false), "Identity: on");
    assert_eq!(render_response(&get_state_req(), "ok backend=hyprland-ctm", OutputMode::Pretty, false), "Backend: hyprland-ctm");
}

#[test]
fn raw_mode_choice() {
    assert!(resolved_raw(OutputMode::Raw, true));
    assert!(!resolved_raw(OutputMode::Pretty, false));
    assert!(resolved_raw(OutputMode::Auto, false));
    assert!(!resolved_raw(OutputMode::Auto, true));
}

#[test]
fn state_missing_a_field_stays_raw() {
    let raw = "ok state=temperature:6000 gamma:100 identity:true backend:wlr-gamma";
    assert_eq!(render_response(&get_state_req(), raw, OutputMode::Pretty, true), raw);
    assert_eq!(format_state("temperature:1 gamma:2 identity:x backend:b excludes:- junk"), None);
    assert_eq!(
        format_state("excludes:- backend:b identity:maybe gamma:2 temperature:1 other:z").unwrap(),
        "State:\nTemperature: 1 K\nGamma: 2%\nIdentity: maybe\nBackend: b\nExcluded outputs: none"
    );
}

#[test]
fn csv_pieces_skip_empty_ones() {
    assert_eq!(split_csv(",a,,b,"), vec!["a".to_string(), "b".to_string()]);
    assert_eq!(format_excludes(","), "Excluded outputs: none");
    assert_eq!(format_excludes("a,b"), "Excluded outputs: a, b");
    assert_eq!(format_outputs("-"), "Outputs: none");
}

#[test]
fn connect_failures_get_a_hint() {
    assert_eq!(
        add_connect_hint("failed to connect to /s: refused".to_string(), "/s"),
        "failed to connect to /s: refused\nhint: start daemon with: nighterrors run (socket: /s)"
    );
    assert_eq!(add_connect_hint("error: x".to_string(), "/s"), "error: x");
}

#[test]
fn error_lines_carry_one_prefix() {
    assert_eq!(error_line("error: busy"), "error: busy");
    assert_eq!(error_line("busy"), "error: busy");
}
