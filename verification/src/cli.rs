//! Command-line words: the commands, the control requests sent to the daemon
//! and their one-line wire form, with the help texts.
use vstd::prelude::*;
use vstd::string::*;
use crate::args::{args_fit, cli_of, parse_args};
use crate::num::{int_text, percent_text, signed_int_text, signed_percent_text, write_i64, write_percent, write_signed_i64};
use crate::service::{ServiceCommand, ServiceView};
use crate::text::{split_whitespace, words};

verus! {

/// The default startup temperature, in Kelvin.
pub const DEFAULT_TEMPERATURE_K: u32 = 6000;

/// The default gamma, in millionths of a percent (100 %).
pub const DEFAULT_GAMMA_MICROS: i64 = 100_000_000;

/// A percentage held exactly in millionths of a percent: `95.5 %` is
/// `Percent { micros: 95_500_000 }`.
#[derive(Debug, Clone, Copy, PartialEq, Eq, Structural)]
pub struct Percent {
    pub micros: i64,
}

/// Options of `nighterrors run`.
#[derive(Debug, Clone, PartialEq)]
pub struct RunOptions {
    pub temperature_k: u32,
    pub gamma_pct: Percent,
    pub identity: bool,
    pub excludes: Vec<String>,
    pub verbose: bool,
}

/// The view of a list of strings: the characters of each.
pub open spec fn strs(v: Seq<String>) -> Seq<Seq<char>> {
    v.map_values(|s: String| s@)
}

/// The view of an optional string.
pub open spec fn opt_str(o: Option<String>) -> Option<Seq<char>> {
    match o {
        Some(s) => Some(s@),
        None => None,
    }
}

/// [`RunOptions`] with its strings taken as character sequences.
pub struct RunOptionsView {
    pub temperature_k: u32,
    pub gamma_pct: Percent,
    pub identity: bool,
    pub excludes: Seq<Seq<char>>,
    pub verbose: bool,
}

impl View for RunOptions {
    type V = RunOptionsView;

    open spec fn view(&self) -> RunOptionsView {
        RunOptionsView {
            temperature_k: self.temperature_k,
            gamma_pct: self.gamma_pct,
            identity: self.identity,
            excludes: strs(self.excludes@),
            verbose: self.verbose,
        }
    }
}

/// The options that `run` starts from.
pub open spec fn default_run_options() -> RunOptionsView {
    RunOptionsView {
        temperature_k: DEFAULT_TEMPERATURE_K,
        gamma_pct: Percent { micros: DEFAULT_GAMMA_MICROS },
        identity: false,
        excludes: seq![],
        verbose: false,
    }
}

impl Default for RunOptions {
    fn default() -> (r: Self)
        ensures
            r@ == default_run_options(),
    {
        let r = RunOptions {
            temperature_k: DEFAULT_TEMPERATURE_K,
            gamma_pct: Percent { micros: DEFAULT_GAMMA_MICROS },
            identity: false,
            excludes: Vec::new(),
            verbose: false,
        };
        assert(strs(r.excludes@) =~= Seq::<Seq<char>>::empty());
        r
    }
}

/// A new temperature: a value in Kelvin, or a change to the current one.
#[derive(Debug, Clone, Copy, PartialEq, Eq, Structural)]
pub enum TemperatureChange {
    Absolute(i64),
    Relative(i64),
}

/// A new gamma: a value in percent, or a change to the current one.
#[derive(Debug, Clone, Copy, PartialEq, Eq, Structural)]
pub enum GammaChange {
    Absolute(Percent),
    Relative(Percent),
}

/// A new identity setting.
#[derive(Debug, Clone, Copy, PartialEq, Eq, Structural)]
pub enum IdentityValue {
    True,
    False,
    Toggle,
}

/// A value the daemon reports.
#[derive(Debug, Clone, Copy, PartialEq, Eq, Structural)]
pub enum GetField {
    Temperature,
    Gamma,
    Identity,
    Backend,
    State,
}

/// A request that a control command sends to the daemon.
#[derive(Debug, Clone, PartialEq)]
pub enum ControlRequest {
    SetTemperature(TemperatureChange),
    SetGamma(GammaChange),
    SetIdentity(IdentityValue),
    Get(GetField),
    Reset,
    OutputsList,
    ExcludeAdd(String),
    ExcludeRemove(String),
    ExcludeList,
    Stop,
}

/// [`ControlRequest`] with its strings taken as character sequences.
pub enum RequestView {
    SetTemperature(TemperatureChange),
    SetGamma(GammaChange),
    SetIdentity(IdentityValue),
    Get(GetField),
    Reset,
    OutputsList,
    ExcludeAdd(Seq<char>),
    ExcludeRemove(Seq<char>),
    ExcludeList,
    Stop,
}

impl View for ControlRequest {
    type V = RequestView;

    open spec fn view(&self) -> RequestView {
        match self {
            ControlRequest::SetTemperature(c) => RequestView::SetTemperature(*c),
            ControlRequest::SetGamma(c) => RequestView::SetGamma(*c),
            ControlRequest::SetIdentity(v) => RequestView::SetIdentity(*v),
            ControlRequest::Get(f) => RequestView::Get(*f),
            ControlRequest::Reset => RequestView::Reset,
            ControlRequest::OutputsList => RequestView::OutputsList,
            ControlRequest::ExcludeAdd(id) => RequestView::ExcludeAdd(id@),
            ControlRequest::ExcludeRemove(id) => RequestView::ExcludeRemove(id@),
            ControlRequest::ExcludeList => RequestView::ExcludeList,
            ControlRequest::Stop => RequestView::Stop,
        }
    }
}

/// A help page.
#[derive(Debug, Clone, Copy, PartialEq, Eq, Structural)]
pub enum HelpTopic {
    General,
    Run,
    SetCommand,
    Get,
    Reset,
    Outputs,
    Exclude,
    Stop,
    Status,
    Toggle,
    Service,
}

/// What the command line asks for.
#[derive(Debug, Clone, PartialEq)]
pub enum Command {
    Run(RunOptions),
    Control(ControlRequest),
    Help(HelpTopic),
    Version,
    Service(ServiceCommand),
}

/// [`Command`] with its strings taken as character sequences.
pub enum CommandView {
    Run(RunOptionsView),
    Control(RequestView),
    Help(HelpTopic),
    Version,
    Service(ServiceView),
}

impl View for Command {
    type V = CommandView;

    open spec fn view(&self) -> CommandView {
        match self {
            Command::Run(o) => CommandView::Run(o@),
            Command::Control(r) => CommandView::Control(r@),
            Command::Help(t) => CommandView::Help(*t),
            Command::Version => CommandView::Version,
            Command::Service(c) => CommandView::Service(c@),
        }
    }
}

/// How a control command prints the daemon's answer.
#[derive(Debug, Clone, Copy, PartialEq, Eq, Structural)]
pub enum OutputMode {
    Auto,
    Raw,
    Pretty,
}

/// A parsed command line.
#[derive(Debug, Clone)]
pub struct Cli {
    pub socket: Option<String>,
    pub output_mode: OutputMode,
    pub command: Command,
}

/// [`Cli`] with its strings taken as character sequences.
pub struct CliView {
    pub socket: Option<Seq<char>>,
    pub output_mode: OutputMode,
    pub command: CommandView,
}

impl View for Cli {
    type V = CliView;

    open spec fn view(&self) -> CliView {
        CliView {
            socket: opt_str(self.socket),
            output_mode: self.output_mode,
            command: self.command@,
        }
    }
}

pub const USAGE_GENERAL: &'static str = "nighterrors v1.2\n\nUsage:\n  nighterrors <command> [options]\n\nCommon Commands:\n  nighterrors run [options]\n  nighterrors set <target> <value> [--socket <PATH>]\n  nighterrors get <field> [--socket <PATH>]\n  nighterrors status [--socket <PATH>] (alias for get state)\n  nighterrors outputs <list|ls> [--socket <PATH>]\n  nighterrors exclude <add|remove|list> ... [--socket <PATH>]\n  nighterrors reset [--socket <PATH>]\n  nighterrors stop [--socket <PATH>]\n  nighterrors toggle [--socket <PATH>] (alias for set identity toggle)\n  nighterrors service <install|uninstall|status|start|stop|restart>\n\nAliases:\n  run flags: --temp|-t, --g|-g, --id|-i, --ex|-x\n  set targets: temperature|temp|t, gamma|g, identity|id\n  get fields: temperature|temp|t, gamma|g, identity|id, backend|be, state|status\n\nExamples:\n  nighterrors run -t 5500 -g 95 -i off\n  nighterrors set temp +200\n  nighterrors status --raw\n\nControl output modes:\n  --raw      force raw daemon output (ok/error line)\n  --pretty   force human-readable output\n\nMore help:\n  nighterrors help <run|set|get|status|outputs|exclude|reset|stop|toggle|service>";

pub const USAGE_TOGGLE: &'static str = "Usage: nighterrors toggle [--socket <PATH>] [--raw|--pretty]\n\nToggle the identity filter (alias for `nighterrors set identity toggle`).";

pub const USAGE_SERVICE: &'static str = "Usage: nighterrors service <action> [options]\n\nActions:\n  install [run options] [--socket <PATH>]   Write, enable and start the user unit\n  uninstall                                  Disable the user unit and remove it\n  status|start|stop|restart                  Run `systemctl --user <action>` on the unit\n\nExamples:\n  nighterrors service install --temp 5500 --gamma 95\n  nighterrors service status";

pub const USAGE_RUN: &'static str = "Usage: nighterrors run [options]\n\nOptions:\n  --temperature|--temp|-t <K>      Startup temperature in Kelvin (1000..=20000, default 6000)\n  --gamma|--g|-g <PCT>             Startup gamma percent (0..=200, default 100)\n  --identity|--id|-i [<BOOL>]      Enable identity or set explicitly\n                                    BOOL: true|false|on|off|1|0|yes|no\n  --identity=<BOOL>                Inline value form (also --id=, -i=)\n  --exclude|--ex|-x <OUTPUT_ID>    Exclude an output from filtering (repeatable)\n  --socket <PATH>                  Override control socket path\n  --verbose                        Enable daemon log messages\n  -h, --help                       Show this help\n\nExamples:\n  nighterrors run -t 5500 -g 95 -i off\n  nighterrors run --temp 4800 --id on --exclude eDP-1\n  nighterrors run --identity\n  nighterrors run --identity=false";

pub const USAGE_SET: &'static str = "Usage: nighterrors set <target> <value> [--socket <PATH>] [--raw|--pretty]\n\nTargets:\n  temperature|temp|t     <VALUE|+DELTA|-DELTA> in Kelvin\n  gamma|g                <VALUE|+DELTA|-DELTA> in percent\n  identity|id            <true|false|toggle> (aliases: on/off/1/0/yes/no)\n\nExamples:\n  nighterrors set temp 5500\n  nighterrors set g -5\n  nighterrors set id toggle";

pub const USAGE_GET: &'static str = "Usage: nighterrors get <field> [--socket <PATH>] [--raw|--pretty]\n\nFields:\n  temperature|temp|t\n  gamma|g\n  identity|id\n  backend|be\n  state|status\n\nExamples:\n  nighterrors get state\n  nighterrors get be --raw";

pub const USAGE_RESET: &'static str = "Usage: nighterrors reset [--socket <PATH>] [--raw|--pretty]\n\nReset filter state to defaults.";

pub const USAGE_OUTPUTS: &'static str = "Usage: nighterrors outputs <list|ls> [--socket <PATH>] [--raw|--pretty]\n\nList detected outputs (`*` means excluded).";

pub const USAGE_EXCLUDE: &'static str = "Usage: nighterrors exclude <action> [args] [--socket <PATH>] [--raw|--pretty]\n\nActions:\n  add <OUTPUT_ID>\n  remove|rm|del <OUTPUT_ID>\n  list|ls\n\nExamples:\n  nighterrors exclude add eDP-1\n  nighterrors exclude rm eDP-1\n  nighterrors exclude ls";

pub const USAGE_STOP: &'static str = "Usage: nighterrors stop [--socket <PATH>] [--raw|--pretty]\n\nStop the running daemon.";

pub const USAGE_STATUS: &'static str = "Usage: nighterrors status [--socket <PATH>] [--raw|--pretty]\n\nAlias for `nighterrors get state`.";

/// The general help text.
pub fn usage() -> (r: &'static str)
    ensures
        r@ == USAGE_GENERAL@,
{
    USAGE_GENERAL
}

/// The help text of each topic.
pub open spec fn usage_text(topic: HelpTopic) -> Seq<char> {
    match topic {
        HelpTopic::General => USAGE_GENERAL@,
        HelpTopic::Run => USAGE_RUN@,
        HelpTopic::SetCommand => USAGE_SET@,
        HelpTopic::Get => USAGE_GET@,
        HelpTopic::Reset => USAGE_RESET@,
        HelpTopic::Outputs => USAGE_OUTPUTS@,
        HelpTopic::Exclude => USAGE_EXCLUDE@,
        HelpTopic::Stop => USAGE_STOP@,
        HelpTopic::Status => USAGE_STATUS@,
        HelpTopic::Toggle => USAGE_TOGGLE@,
        HelpTopic::Service => USAGE_SERVICE@,
    }
}

/// The help text of a topic.
pub fn usage_for(topic: HelpTopic) -> (r: &'static str)
    ensures
        r@ == usage_text(topic),
{
    match topic {
        HelpTopic::General => USAGE_GENERAL,
        HelpTopic::Run => USAGE_RUN,
        HelpTopic::SetCommand => USAGE_SET,
        HelpTopic::Get => USAGE_GET,
        HelpTopic::Reset => USAGE_RESET,
        HelpTopic::Outputs => USAGE_OUTPUTS,
        HelpTopic::Exclude => USAGE_EXCLUDE,
        HelpTopic::Stop => USAGE_STOP,
        HelpTopic::Status => USAGE_STATUS,
        HelpTopic::Toggle => USAGE_TOGGLE,
        HelpTopic::Service => USAGE_SERVICE,
    }
}


/// The one-line form of a request, as the daemon reads it.
pub open spec fn wire_text(r: RequestView) -> Seq<char> {
    match r {
        RequestView::SetTemperature(TemperatureChange::Absolute(v)) => "set temperature "@ + int_text(v as int),
        RequestView::SetTemperature(TemperatureChange::Relative(v)) => "set temperature "@ + signed_int_text(v as int),
        RequestView::SetGamma(GammaChange::Absolute(p)) => "set gamma "@ + percent_text(p.micros as int),
        RequestView::SetGamma(GammaChange::Relative(p)) => "set gamma "@ + signed_percent_text(p.micros as int),
        RequestView::SetIdentity(IdentityValue::True) => "set identity true"@,
        RequestView::SetIdentity(IdentityValue::False) => "set identity false"@,
        RequestView::SetIdentity(IdentityValue::Toggle) => "set identity toggle"@,
        RequestView::Get(GetField::Temperature) => "get temperature"@,
        RequestView::Get(GetField::Gamma) => "get gamma"@,
        RequestView::Get(GetField::Identity) => "get identity"@,
        RequestView::Get(GetField::Backend) => "get backend"@,
        RequestView::Get(GetField::State) => "get state"@,
        RequestView::Reset => "reset"@,
        RequestView::OutputsList => "outputs list"@,
        RequestView::ExcludeAdd(v) => "exclude add "@ + v,
        RequestView::ExcludeRemove(v) => "exclude remove "@ + v,
        RequestView::ExcludeList => "exclude list"@,
        RequestView::Stop => "stop"@,
    }
}

/// The request a line read by the daemon carries: the line's words parsed as
/// the command line of a control command.
pub open spec fn request_of_line(line: Seq<char>) -> Result<RequestView, Seq<char>> {
    match cli_of(seq!["nighterrors"@] + words(line)) {
        Ok(c) => match c.command {
            CommandView::Control(r) => Ok(r),
            _ => Err("control request expected"@),
        },
        Err(e) => Err(e),
    }
}

impl ControlRequest {
    /// The one-line form of this request.
    pub fn to_wire(&self) -> (r: String)
        ensures
            r@ == wire_text(self@),
    {
        proof {
            reveal_strlit("+");
        }
        match self {
            ControlRequest::SetTemperature(value) => {
                let mut out = String::from_str("set temperature ");
                match value {
                    TemperatureChange::Absolute(v) => write_i64(&mut out, *v),
                    TemperatureChange::Relative(v) => write_signed_i64(&mut out, *v),
                }
                out
            },
            ControlRequest::SetGamma(value) => {
                let mut out = String::from_str("set gamma ");
                match value {
                    GammaChange::Absolute(v) => write_percent(&mut out, v.micros),
                    GammaChange::Relative(v) => {
                        if v.micros >= 0 {
                            out.append("+");
                        }
                        write_percent(&mut out, v.micros);
                    },
                }
                out
            },
            ControlRequest::SetIdentity(value) => match value {
                IdentityValue::True => String::from_str("set identity true"),
                IdentityValue::False => String::from_str("set identity false"),
                IdentityValue::Toggle => String::from_str("set identity toggle"),
            },
            ControlRequest::Get(field) => match field {
                GetField::Temperature => String::from_str("get temperature"),
                GetField::Gamma => String::from_str("get gamma"),
                GetField::Identity => String::from_str("get identity"),
                GetField::Backend => String::from_str("get backend"),
                GetField::State => String::from_str("get state"),
            },
            ControlRequest::Reset => String::from_str("reset"),
            ControlRequest::OutputsList => String::from_str("outputs list"),
            ControlRequest::ExcludeAdd(value) => {
                let mut out = String::from_str("exclude add ");
                out.append(value.as_str());
                out
            },
            ControlRequest::ExcludeRemove(value) => {
                let mut out = String::from_str("exclude remove ");
                out.append(value.as_str());
                out
            },
            ControlRequest::ExcludeList => String::from_str("exclude list"),
            ControlRequest::Stop => String::from_str("stop"),
        }
    }

    /// Reads a request from its one-line form.
    pub fn from_wire(line: &str) -> (r: Result<ControlRequest, String>)
        requires
            line@.len() < usize::MAX,
        ensures
            match r {
                Ok(req) => request_of_line(line@) == Ok::<RequestView, Seq<char>>(req@),
                Err(e) => request_of_line(line@) == Err::<RequestView, Seq<char>>(e@),
            },
    {
        proof {
            reveal_strlit("nighterrors");
        }
        let words_of_line = split_whitespace(line);
        let mut args: Vec<String> = Vec::new();
        args.push(String::from_str("nighterrors"));
        let mut i: usize = 0;
        while i < words_of_line.len()
            invariant
                i <= words_of_line@.len(),
                strs(words_of_line@) == words(line@),
                forall|k: int| 0 <= k < words_of_line@.len() ==> (#[trigger] words_of_line@[k])@.len() <= line@.len(),
                line@.len() < usize::MAX,
                "nighterrors"@.len() == 11,
                strs(args@) == seq!["nighterrors"@] + strs(words_of_line@).subrange(0, i as int),
            decreases words_of_line@.len() - i,
        {
            let ghost before = strs(args@);
            let ghost w = strs(words_of_line@);
            let word = words_of_line[i].clone();
            assert(word@ == w[i as int]);
            args.push(word);
            assert(strs(args@) =~= before.push(w[i as int]));
            assert(w.subrange(0, i + 1) =~= w.subrange(0, i as int).push(w[i as int]));
            assert(strs(args@) =~= seq!["nighterrors"@] + w.subrange(0, i + 1));
            i = i + 1;
        }
        assert(strs(words_of_line@).subrange(0, words_of_line@.len() as int) =~= strs(words_of_line@));
        assert(args_fit(strs(args@))) by {
            assert forall|k: int| 0 <= k < strs(args@).len() implies (#[trigger] strs(args@)[k]).len() < usize::MAX by {
                if k > 0 {
                    assert(strs(args@)[k] == words_of_line@[k - 1]@);
                }
            }
        }
        match parse_args(args) {
            Ok(cli) => match cli.command {
                Command::Control(request) => Ok(request),
                _ => Err(String::from_str("control request expected")),
            },
            Err(e) => Err(e),
        }
    }
}

} // verus!
