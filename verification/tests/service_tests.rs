use nighterrors::cli::{Percent, RunOptions};
use nighterrors::service::{
    escape_exec_arg, format_command_error, is_missing_unit_error, render_exec_start, render_unit_file, run,
    user_unit_dir_from, ServiceCommand, ServiceInstallOptions, ServiceStep,
};

fn test_install_options() -> ServiceInstallOptions {
    ServiceInstallOptions {
        socket: Some("/tmp/nighterrors.sock".to_string()),
        run_options: RunOptions {
            temperature_k: 5500,
            gamma_pct: Percent { micros: 95_500_000 },
            identity: false,
            excludes: vec!["eDP-1".to_string(), "HDMI A".to_string()],
            verbose: true,
        },
    }
}

const BINARY: &str = "/usr/local/bin/nighterrors";

#[test]
fn escape_exec_arg_quotes_unsafe_values() {
    assert_eq!(escape_exec_arg("safe-thing_1"), "safe-thing_1");
    assert_eq!(escape_exec_arg(""), "\"\"");
    assert_eq!(escape_exec_arg("HDMI A"), "\"HDMI A\"");
}

#[test]
fn render_exec_start_includes_run_options() {
    let options = test_install_options();
    let line = render_exec_start(&options, BINARY);
    assert!(line.contains(" run "));
    assert!(line.contains("--temperature 5500"));
    assert!(line.contains("--gamma 95.5"));
    assert!(line.contains("--identity=false"));
    assert!(line.contains("--socket /tmp/nighterrors.sock"));
    assert!(line.contains("--exclude eDP-1"));
    assert!(line.contains("--exclude \"HDMI A\""));
    assert!(line.contains("--verbose"));
}

#[test]
fn render_unit_file_has_expected_sections() {
    let options = test_install_options();
    let unit = render_unit_file(&options, BINARY);
    assert!(unit.contains("[Unit]"));
    assert!(unit.contains("[Service]"));
    assert!(unit.contains("[Install]"));
    assert!(unit.contains("WantedBy=default.target"));
    assert!(unit.contains("PassEnvironment=WAYLAND_DISPLAY XDG_RUNTIME_DIR"));
}

#[test]
fn user_unit_dir_prefers_xdg_config_home() {
    let dir = user_unit_dir_from(Some("/tmp/nighterrors-xdg-config-home"), Some("/home/example"))
        .expect("unit dir should resolve");
    assert_eq!(dir, "/tmp/nighterrors-xdg-config-home/systemd/user");
}

#[test]
fn user_unit_dir_falls_back_to_home() {
    let dir = user_unit_dir_from(None, Some("/home/example")).expect("unit dir should resolve");
    assert_eq!(dir, "/home/example/.config/systemd/user");
}

#[test]
fn missing_unit_error_detection() {
    assert!(is_missing_unit_error("Unit nighterrors.service not loaded."));
    assert!(is_missing_unit_error("Unit file nighterrors.service does not exist."));
    assert!(!is_missing_unit_error("permission denied"));
}

// ---------------------------------------------------------------------------
// Further cases of the library's own.
// ---------------------------------------------------------------------------

#[test]
fn escaping_backslashes_and_quotes() {
    assert_eq!(escape_exec_arg("a\"b\\c"), "\"a\\\"b\\\\c\"");
    assert_eq!(escape_exec_arg("/usr/bin/x:@."), "/usr/bin/x:@.");
}

#[test]
fn exec_start_line_in_full() {
    let options = ServiceInstallOptions {
        socket: None,
        run_options: RunOptions {
            temperature_k: 6000,
            gamma_pct: Percent { micros: 100_000_000 },
            identity: true,
            excludes: Vec::new(),
            verbose: false,
        },
    };
    assert_eq!(
        render_exec_start(&options, "/opt/my bin/nighterrors"),
        "\"/opt/my bin/nighterrors\" run --temperature 6000 --gamma 100 --identity=true"
    );
}

#[test]
fn unit_dir_edge_cases() {
    assert_eq!(user_unit_dir_from(Some(""), Some("/home/x/")).unwrap(), "/home/x/.config/systemd/user");
    assert_eq!(
        user_unit_dir_from(None, None).unwrap_err(),
        "cannot resolve HOME or XDG_CONFIG_HOME for user unit path"
    );
}

#[test]
fn missing_unit_detection_ignores_case() {
    assert!(is_missing_unit_error("NO SUCH FILE or directory"));
    assert!(is_missing_unit_error("Failed: Unit NIGHTERRORS.SERVICE NOT FOUND."));
    assert!(!is_missing_unit_error("not load"));
}

#[test]
fn command_errors_show_status_streams_and_hint() {
    assert_eq!(format_command_error("systemctl", Some(1), "", "  "), "systemctl exited with status 1");
    assert_eq!(
        format_command_error("systemctl", None, " out \n", "Failed to connect to bus\n"),
        "systemctl exited with status -1\nstdout:\nout\nstderr:\nFailed to connect to bus\nhint: ensure a user systemd session is available and run this from a graphical login."
    );
}

#[test]
fn service_steps_for_each_subcommand() {
    let steps = run(&ServiceCommand::Start, None, None, BINARY).expect("start needs no unit dir");
    assert_eq!(steps.len(), 2);
    match &steps[0] {
        ServiceStep::Systemctl { args, missing_unit_ok } => {
            assert_eq!(args, &vec!["--user".to_string(), "start".to_string(), "nighterrors.service".to_string()]);
            assert!(!missing_unit_ok);
        }
        _ => panic!("expected systemctl"),
    }
    match &steps[1] {
        ServiceStep::Print(line) => assert_eq!(line, "Started nighterrors.service"),
        _ => panic!("expected print"),
    }

    assert!(run(&ServiceCommand::Uninstall, None, None, BINARY).is_err());
    let steps = run(&ServiceCommand::Uninstall, None, Some("/home/u"), BINARY).expect("steps");
    match &steps[0] {
        ServiceStep::Systemctl { missing_unit_ok, .. } => assert!(*missing_unit_ok),
        _ => panic!("expected systemctl"),
    }
    match &steps[1] {
        ServiceStep::RemoveUnitFile(path) => assert_eq!(path, "/home/u/.config/systemd/user/nighterrors.service"),
        _ => panic!("expected remove"),
    }

    let steps = run(&ServiceCommand::Install(test_install_options()), Some("/cfg"), None, BINARY).expect("steps");
    assert_eq!(steps.len(), 6);
    match &steps[1] {
        ServiceStep::WriteUnitFile { path, contents } => {
            assert_eq!(path, "/cfg/systemd/user/nighterrors.service");
            assert!(contents.contains("ExecStart=/usr/local/bin/nighterrors run --temperature 5500"));
        }
        _ => panic!("expected write"),
    }
    match &steps[4] {
        ServiceStep::Print(line) => {
            assert_eq!(line, "Installed and enabled nighterrors.service at /cfg/systemd/user/nighterrors.service")
        }
        _ => panic!("expected print"),
    }
}
