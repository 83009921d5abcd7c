use nighterrors::args::parse_args;
use nighterrors::cli::{
    usage, usage_for, Command, ControlRequest, GammaChange, GetField, HelpTopic, IdentityValue,
    OutputMode, Percent, RunOptions, TemperatureChange, DEFAULT_GAMMA_MICROS, DEFAULT_TEMPERATURE_K,
};
use nighterrors::service::ServiceCommand;
use nighterrors::suggest::{edit_distance, suggest, suggestion_suffix};

fn args(list: &[&str]) -> Vec<String> {
    list.iter().map(|s| s.to_string()).collect()
}

#[test]
fn parse_run_defaults() {
    let cli = parse_args(args(&["nighterrors", "run"])).expect("parse should succeed");
    match cli.command {
        Command::Run(opts) => {
            assert_eq!(opts.temperature_k, DEFAULT_TEMPERATURE_K);
            assert_eq!(opts.gamma_pct, Percent { micros: DEFAULT_GAMMA_MICROS });
            assert!(!opts.identity);
            assert!(opts.excludes.is_empty());
        }
        _ => panic!("expected run command"),
    }
    assert_eq!(cli.output_mode, OutputMode::Auto);
}

#[test]
fn parse_run_alias_flags_and_inline_values() {
    let cli = parse_args(args(&[
        "nighterrors",
        "run",
        "--temp=5500",
        "--g",
        "95",
        "-x",
        "eDP-1",
        "--ex=HDMI-A-1",
        "--verbose",
    ]))
    .expect("parse should succeed");

    match cli.command {
        Command::Run(opts) => {
            assert_eq!(opts.temperature_k, 5500);
            assert_eq!(opts.gamma_pct, Percent { micros: 95_000_000 });
            assert_eq!(opts.excludes, vec!["eDP-1".to_string(), "HDMI-A-1".to_string()]);
            assert!(opts.verbose);
        }
        _ => panic!("expected run command"),
    }
}

#[test]
fn parse_run_identity_forms() {
    let cli = parse_args(args(&["nighterrors", "run", "--identity"])).expect("parse should succeed");
    match cli.command {
        Command::Run(opts) => assert!(opts.identity),
        _ => panic!("expected run command"),
    }

    let cli = parse_args(args(&["nighterrors", "run", "--id", "on"])).expect("parse should succeed");
    match cli.command {
        Command::Run(opts) => assert!(opts.identity),
        _ => panic!("expected run command"),
    }

    let cli = parse_args(args(&["nighterrors", "run", "-i", "off"])).expect("parse should succeed");
    match cli.command {
        Command::Run(opts) => assert!(!opts.identity),
        _ => panic!("expected run command"),
    }

    let cli = parse_args(args(&["nighterrors", "run", "--identity=false"])).expect("parse should succeed");
    match cli.command {
        Command::Run(opts) => assert!(!opts.identity),
        _ => panic!("expected run command"),
    }
}

#[test]
fn parse_run_identity_invalid_value_fails() {
    let err = parse_args(args(&["nighterrors", "run", "--id", "maybe"])).expect_err("must fail");
    assert!(err.contains("run identity value must be one of"));
}

#[test]
fn parse_run_unknown_flag_suggests_nearest() {
    let err = parse_args(args(&["nighterrors", "run", "--temprature", "5500"])).expect_err("must fail");
    assert!(err.contains("unknown run flag"));
    assert!(err.contains("did you mean"));
}

#[test]
fn help_text_includes_new_sections_and_examples() {
    let general = usage_for(HelpTopic::General);
    assert!(general.contains("Common Commands"));
    assert!(general.contains("Aliases"));
    assert!(general.contains("Examples"));

    let run = usage_for(HelpTopic::Run);
    assert!(run.contains("--temperature|--temp|-t"));
    assert!(run.contains("BOOL: true|false|on|off|1|0|yes|no"));
    assert!(run.contains("nighterrors run -t 5500 -g 95 -i off"));
}

#[test]
fn parse_set_temperature_alias() {
    let cli = parse_args(args(&["nighterrors", "set", "temp", "+250"])).expect("parse should succeed");
    match cli.command {
        Command::Control(ControlRequest::SetTemperature(TemperatureChange::Relative(v))) => {
            assert_eq!(v, 250)
        }
        _ => panic!("expected relative temperature set"),
    }
}

#[test]
fn parse_set_gamma_alias() {
    let cli = parse_args(args(&["nighterrors", "set", "g", "95.5"])).expect("parse");
    match cli.command {
        Command::Control(ControlRequest::SetGamma(GammaChange::Absolute(v))) => {
            assert_eq!(v, Percent { micros: 95_500_000 });
        }
        _ => panic!("expected absolute gamma set"),
    }
}

#[test]
fn parse_identity_alias_values() {
    let cli = parse_args(args(&["nighterrors", "set", "id", "on"])).expect("parse");
    match cli.command {
        Command::Control(ControlRequest::SetIdentity(IdentityValue::True)) => {}
        _ => panic!("expected identity=true"),
    }

    let cli = parse_args(args(&["nighterrors", "set", "identity", "toggle"])).expect("parse");
    match cli.command {
        Command::Control(ControlRequest::SetIdentity(IdentityValue::Toggle)) => {}
        _ => panic!("expected identity toggle"),
    }
}

#[test]
fn status_alias_maps_to_get_state() {
    let cli = parse_args(args(&["nighterrors", "status"])).expect("parse");
    assert_eq!(cli.command, Command::Control(ControlRequest::Get(GetField::State)));
}

#[test]
fn parse_get_backend_alias() {
    let cli = parse_args(args(&["nighterrors", "get", "be"])).expect("parse");
    assert_eq!(cli.command, Command::Control(ControlRequest::Get(GetField::Backend)));
}

#[test]
fn parse_outputs_ls_alias() {
    let cli = parse_args(args(&["nighterrors", "outputs", "ls"])).expect("parse");
    assert_eq!(cli.command, Command::Control(ControlRequest::OutputsList));
}

#[test]
fn parse_exclude_remove_aliases() {
    let cli = parse_args(args(&["nighterrors", "exclude", "rm", "eDP-1"])).expect("parse");
    assert_eq!(cli.command, Command::Control(ControlRequest::ExcludeRemove("eDP-1".to_string())));

    let cli = parse_args(args(&["nighterrors", "exclude", "del", "eDP-1"])).expect("parse");
    assert_eq!(cli.command, Command::Control(ControlRequest::ExcludeRemove("eDP-1".to_string())));
}

#[test]
fn parse_output_mode_flags_anywhere() {
    let cli = parse_args(args(&["nighterrors", "--raw", "get", "temperature"])).expect("parse");
    assert_eq!(cli.output_mode, OutputMode::Raw);

    let cli = parse_args(args(&["nighterrors", "get", "temperature", "--pretty"])).expect("parse");
    assert_eq!(cli.output_mode, OutputMode::Pretty);
}

#[test]
fn parse_output_mode_conflict_fails() {
    let err = parse_args(args(&["nighterrors", "--raw", "get", "state", "--pretty"])).expect_err("must fail");
    assert!(err.contains("cannot be used together"));
}

#[test]
fn parse_help_topic_and_command_help() {
    let cli = parse_args(args(&["nighterrors", "help", "set"])).expect("parse");
    assert_eq!(cli.command, Command::Help(HelpTopic::SetCommand));

    let cli = parse_args(args(&["nighterrors", "run", "--help"])).expect("parse");
    assert_eq!(cli.command, Command::Help(HelpTopic::Run));

    let cli = parse_args(args(&["nighterrors", "set", "--help"])).expect("parse");
    assert_eq!(cli.command, Command::Help(HelpTopic::SetCommand));

    let cli = parse_args(args(&["nighterrors", "status", "--help"])).expect("parse");
    assert_eq!(cli.command, Command::Help(HelpTopic::Status));
}

#[test]
fn roundtrip_wire() {
    let req = ControlRequest::ExcludeAdd("eDP-1".to_string());
    let wire = req.to_wire();
    let parsed = ControlRequest::from_wire(&wire).expect("wire parse should succeed");
    assert_eq!(req, parsed);
}

#[test]
fn parse_unknown_command_fails_with_suggestion() {
    let err = parse_args(args(&["nighterrors", "statsu"])).expect_err("must fail");
    assert!(err.contains("unknown command"));
    assert!(err.contains("did you mean"));
}

#[test]
fn edit_distance_smoke() {
    assert_eq!(edit_distance("status", "status"), 0);
    assert_eq!(edit_distance("status", "statuz"), 1);
    assert!(edit_distance("abc", "xyz") >= 2);
}

// ---------------------------------------------------------------------------
// Further cases of the library's own.
// ---------------------------------------------------------------------------

#[test]
fn empty_command_line_shows_general_help() {
    let cli = parse_args(args(&["nighterrors"])).expect("parse");
    assert_eq!(cli.command, Command::Help(HelpTopic::General));
    let cli = parse_args(Vec::new()).expect("parse");
    assert_eq!(cli.command, Command::Help(HelpTopic::General));
}

#[test]
fn version_command() {
    let cli = parse_args(args(&["nighterrors", "--version"])).expect("parse");
    assert_eq!(cli.command, Command::Version);
}

#[test]
fn socket_option_is_taken_from_control_commands() {
    let cli = parse_args(args(&["nighterrors", "get", "gamma", "--socket", "/tmp/x.sock"])).expect("parse");
    assert_eq!(cli.socket, Some("/tmp/x.sock".to_string()));
    assert_eq!(cli.command, Command::Control(ControlRequest::Get(GetField::Gamma)));
}

#[test]
fn wire_forms_of_each_request() {
    assert_eq!(ControlRequest::SetTemperature(TemperatureChange::Absolute(5500)).to_wire(), "set temperature 5500");
    assert_eq!(ControlRequest::SetTemperature(TemperatureChange::Relative(200)).to_wire(), "set temperature +200");
    assert_eq!(ControlRequest::SetTemperature(TemperatureChange::Relative(-200)).to_wire(), "set temperature -200");
    assert_eq!(ControlRequest::SetGamma(GammaChange::Absolute(Percent { micros: 95_500_000 })).to_wire(), "set gamma 95.5");
    assert_eq!(ControlRequest::SetGamma(GammaChange::Relative(Percent { micros: -5_000_000 })).to_wire(), "set gamma -5");
    assert_eq!(ControlRequest::SetGamma(GammaChange::Relative(Percent { micros: 250_000 })).to_wire(), "set gamma +0.25");
    assert_eq!(ControlRequest::SetIdentity(IdentityValue::Toggle).to_wire(), "set identity toggle");
    assert_eq!(ControlRequest::Get(GetField::State).to_wire(), "get state");
    assert_eq!(ControlRequest::OutputsList.to_wire(), "outputs list");
    assert_eq!(ControlRequest::ExcludeRemove("HDMI-A-1".to_string()).to_wire(), "exclude remove HDMI-A-1");
    assert_eq!(ControlRequest::Stop.to_wire(), "stop");
}

#[test]
fn every_request_reads_back_from_its_wire_form() {
    let requests = vec![
        ControlRequest::SetTemperature(TemperatureChange::Absolute(4800)),
        ControlRequest::SetTemperature(TemperatureChange::Relative(-300)),
        ControlRequest::SetGamma(GammaChange::Absolute(Percent { micros: 100_000_000 })),
        ControlRequest::SetGamma(GammaChange::Relative(Percent { micros: 1_500_000 })),
        ControlRequest::SetIdentity(IdentityValue::False),
        ControlRequest::Get(GetField::Identity),
        ControlRequest::Reset,
        ControlRequest::OutputsList,
        ControlRequest::ExcludeAdd("DP-2".to_string()),
        ControlRequest::ExcludeList,
        ControlRequest::Stop,
    ];
    for req in requests {
        let parsed = ControlRequest::from_wire(&req.to_wire()).expect("wire parse should succeed");
        assert_eq!(req, parsed);
    }
}

#[test]
fn wire_line_that_is_no_request_is_refused() {
    let err = ControlRequest::from_wire("run").expect_err("must fail");
    assert_eq!(err, "control request expected");
    let err = ControlRequest::from_wire("set temperature warm").expect_err("must fail");
    assert!(err.contains("invalid temperature value: warm"));
}

#[test]
fn gamma_values_parse_exactly() {
    let cli = parse_args(args(&["nighterrors", "set", "gamma", "-2.25"])).expect("parse");
    assert_eq!(
        cli.command,
        Command::Control(ControlRequest::SetGamma(GammaChange::Relative(Percent { micros: -2_250_000 })))
    );
    let err = parse_args(args(&["nighterrors", "set", "gamma", "abc"])).expect_err("must fail");
    assert!(err.contains("invalid gamma value"));
}

#[test]
fn usage_is_the_general_help() {
    assert_eq!(usage(), usage_for(HelpTopic::General));
    assert!(usage_for(HelpTopic::Stop).contains("Stop the running daemon."));
}

#[test]
fn run_options_default() {
    let o = RunOptions::default();
    assert_eq!(o.temperature_k, 6000);
    assert_eq!(o.gamma_pct, Percent { micros: 100_000_000 });
    assert!(!o.identity && !o.verbose && o.excludes.is_empty());
}

#[test]
fn suggestions_pick_the_nearest_word() {
    assert_eq!(suggest("statuz", &["run", "status", "stop"]), Some("status"));
    assert_eq!(suggest("zzzzzzzz", &["run", "status", "stop"]), None);
    assert_eq!(suggestion_suffix("stoq", &["stop"]), " (did you mean `stop`?)");
    assert_eq!(suggestion_suffix("stpo", &["stop"]), "");
}

fn parse_error(list: &[&str]) -> String {
    parse_args(args(list)).expect_err("must fail")
}

#[test]
fn each_parse_error_has_its_input() {
    assert_eq!(parse_error(&["nighterrors", "get", "state", "--socket"]), "--socket requires a path");
    assert_eq!(
        parse_error(&["nighterrors", "stop", "--socket", "a", "--socket", "b"]),
        "--socket specified more than once"
    );
    assert!(parse_error(&["nighterrors", "set", "temp"]).starts_with("set command requires a target and value"));
    assert_eq!(parse_error(&["nighterrors", "set", "temp", "1", "2"]), "unexpected arguments: 2");
    assert!(parse_error(&["nighterrors", "set", "warmth", "1"]).starts_with("unknown set target: warmth"));
    assert!(parse_error(&["nighterrors", "get"]).starts_with("get command requires exactly one field"));
    assert!(parse_error(&["nighterrors", "get", "gama"]).starts_with("unknown get field: gama (did you mean `gamma`?)"));
    assert!(parse_error(&["nighterrors", "outputs"]).starts_with("outputs command only supports: outputs list"));
    assert_eq!(parse_error(&["nighterrors", "exclude"]), "exclude command requires an action");
    assert_eq!(parse_error(&["nighterrors", "exclude", "add"]), "exclude add requires exactly one output id");
    assert_eq!(parse_error(&["nighterrors", "exclude", "rm"]), "exclude remove requires exactly one output id");
    assert_eq!(parse_error(&["nighterrors", "exclude", "ls", "x"]), "exclude list takes no additional arguments");
    assert!(parse_error(&["nighterrors", "exclude", "drop", "x"]).starts_with("exclude command supports only"));
    assert_eq!(parse_error(&["nighterrors", "reset", "now"]), "unexpected arguments for reset: now");
    assert_eq!(parse_error(&["nighterrors", "stop", "now"]), "unexpected arguments for stop: now");
    assert!(parse_error(&["nighterrors", "status", "now"]).starts_with("unexpected arguments for status: now\n\nUsage: nighterrors status"));
    assert_eq!(parse_error(&["nighterrors", "help", "a", "b"]), "help takes at most one topic");
    assert!(parse_error(&["nighterrors", "help", "sett"]).starts_with("unknown help topic: sett"));
    assert!(parse_error(&["nighterrors", "set", "temp", "+x"]).starts_with("invalid temperature delta: +x"));
    assert!(parse_error(&["nighterrors", "set", "g", "-x"]).starts_with("invalid gamma delta: -x"));
    assert!(parse_error(&["nighterrors", "set", "id", "maybe"]).starts_with("identity value must be one of"));
    assert_eq!(parse_error(&["nighterrors", "run", "--temp"]), "--temp requires a value");
    assert!(parse_error(&["nighterrors", "run", "-t", "hot"]).starts_with("invalid temperature: hot"));
    assert!(parse_error(&["nighterrors", "run", "-g", "x"]).starts_with("invalid gamma: x"));
    assert_eq!(parse_error(&["nighterrors", "run", "--verbose=1"]), "run verbose flag does not take a value");
}

#[test]
fn toggle_command_toggles_identity() {
    let cli = parse_args(args(&["nighterrors", "toggle"])).expect("parse");
    assert_eq!(cli.command, Command::Control(ControlRequest::SetIdentity(IdentityValue::Toggle)));
    let cli = parse_args(args(&["nighterrors", "toggle", "--socket", "/tmp/s.sock"])).expect("parse");
    assert_eq!(cli.socket, Some("/tmp/s.sock".to_string()));
    let cli = parse_args(args(&["nighterrors", "help", "toggle"])).expect("parse");
    assert_eq!(cli.command, Command::Help(HelpTopic::Toggle));
    let cli = parse_args(args(&["nighterrors", "toggle", "--help"])).expect("parse");
    assert_eq!(cli.command, Command::Help(HelpTopic::Toggle));
    assert_eq!(parse_error(&["nighterrors", "toggle", "now"]), "unexpected arguments for toggle: now");
    assert!(parse_error(&["nighterrors", "togle"]).contains("did you mean `toggle`"));
}

#[test]
fn service_commands_parse() {
    let cli = parse_args(args(&["nighterrors", "service", "status"])).expect("parse");
    assert_eq!(cli.command, Command::Service(ServiceCommand::Status));
    let cli = parse_args(args(&["nighterrors", "service", "restart"])).expect("parse");
    assert_eq!(cli.command, Command::Service(ServiceCommand::Restart));
    let cli = parse_args(args(&["nighterrors", "service", "install", "--temp", "5500", "--gamma", "95"])).expect("parse");
    match cli.command {
        Command::Service(ServiceCommand::Install(options)) => {
            assert_eq!(options.socket, None);
            assert_eq!(options.run_options.temperature_k, 5500);
            assert_eq!(options.run_options.gamma_pct, Percent { micros: 95_000_000 });
        }
        _ => panic!("expected service install"),
    }
    let cli = parse_args(args(&["nighterrors", "service", "install", "--socket", "/tmp/s.sock"])).expect("parse");
    match cli.command {
        Command::Service(ServiceCommand::Install(options)) => {
            assert_eq!(options.socket, Some("/tmp/s.sock".to_string()))
        }
        _ => panic!("expected service install"),
    }
    let cli = parse_args(args(&["nighterrors", "help", "service"])).expect("parse");
    assert_eq!(cli.command, Command::Help(HelpTopic::Service));
    assert!(usage_for(HelpTopic::Service).contains("nighterrors service install"));
    assert!(parse_error(&["nighterrors", "service"]).starts_with("service command requires an action"));
    assert_eq!(parse_error(&["nighterrors", "service", "stop", "x"]), "unexpected arguments for service stop: x");
    assert!(parse_error(&["nighterrors", "service", "stat"]).starts_with("unknown service action: stat"));
}

#[test]
fn gamma_out_of_type_range_is_a_range_matter() {
    let cli = parse_args(args(&["nighterrors", "set", "gamma", "inf"])).expect("parse");
    assert_eq!(
        cli.command,
        Command::Control(ControlRequest::SetGamma(GammaChange::Absolute(Percent { micros: i64::MAX })))
    );
    let cli = parse_args(args(&["nighterrors", "set", "gamma", "-NaN"])).expect("parse");
    assert_eq!(
        cli.command,
        Command::Control(ControlRequest::SetGamma(GammaChange::Relative(Percent { micros: -i64::MAX })))
    );
    let cli = parse_args(args(&["nighterrors", "run", "-g", "99999999999999999999"])).expect("parse");
    match cli.command {
        Command::Run(opts) => assert_eq!(opts.gamma_pct, Percent { micros: i64::MAX }),
        _ => panic!("expected run command"),
    }
}

#[test]
fn edit_distance_is_symmetric_and_bounded() {
    assert_eq!(edit_distance("abc", "ab"), edit_distance("ab", "abc"));
    assert_eq!(edit_distance("kitten", "sitting"), 3);
    assert_eq!(edit_distance("sitting", "kitten"), 3);
    assert!(edit_distance("abc", "defgh") <= 5);
    assert!(edit_distance("ab", "abc") > 0);
}

fn gamma_of(text: &str) -> GammaChange {
    match parse_args(args(&["nighterrors", "set", "gamma", text])).expect("parse").command {
        Command::Control(ControlRequest::SetGamma(change)) => change,
        _ => panic!("expected a gamma change"),
    }
}

#[test]
fn gamma_accepts_exponent_forms() {
    assert_eq!(gamma_of("1e2"), GammaChange::Absolute(Percent { micros: 100_000_000 }));
    assert_eq!(gamma_of("9.5E1"), GammaChange::Absolute(Percent { micros: 95_000_000 }));
    assert_eq!(gamma_of("2500e-2"), GammaChange::Absolute(Percent { micros: 25_000_000 }));
    assert_eq!(gamma_of(".5e+2"), GammaChange::Absolute(Percent { micros: 50_000_000 }));
    assert_eq!(gamma_of("+1e1"), GammaChange::Relative(Percent { micros: 10_000_000 }));
    assert_eq!(gamma_of("-15e-1"), GammaChange::Relative(Percent { micros: -1_500_000 }));
    assert_eq!(gamma_of("1.23456789e1"), GammaChange::Absolute(Percent { micros: 12_345_679 }));
    assert_eq!(gamma_of("7e-400"), GammaChange::Absolute(Percent { micros: 1 }));
    assert_eq!(gamma_of("0e-400"), GammaChange::Absolute(Percent { micros: 0 }));
    assert_eq!(gamma_of("0e999999999999999999999"), GammaChange::Absolute(Percent { micros: 0 }));
    assert_eq!(gamma_of("1e400"), GammaChange::Absolute(Percent { micros: i64::MAX }));
    assert_eq!(gamma_of("-1e30"), GammaChange::Relative(Percent { micros: -i64::MAX }));
    for bad in ["1e", "e5", "1e+", "1.e5.1", "1e5e1", "1E2e"] {
        assert!(parse_args(args(&["nighterrors", "set", "gamma", bad])).is_err(), "{bad}");
    }
}

#[test]
fn gamma_beyond_millionths_rounds_away_from_zero() {
    assert_eq!(gamma_of("200.0000001"), GammaChange::Absolute(Percent { micros: 200_000_001 }));
    assert_eq!(gamma_of("87.2500000"), GammaChange::Absolute(Percent { micros: 87_250_000 }));
    assert_eq!(gamma_of("87.25000001"), GammaChange::Absolute(Percent { micros: 87_250_001 }));
    assert_eq!(gamma_of("0.0000001"), GammaChange::Absolute(Percent { micros: 1 }));
    assert_eq!(gamma_of("-0.0000001"), GammaChange::Relative(Percent { micros: -1 }));
    assert_eq!(gamma_of("1.2345674"), GammaChange::Absolute(Percent { micros: 1_234_568 }));
}
