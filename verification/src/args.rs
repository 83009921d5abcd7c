//! Parsing of the command line into a [`Cli`].
use vstd::prelude::*;
use vstd::string::*;
use crate::cli::{USAGE_GET, USAGE_OUTPUTS, USAGE_SERVICE, USAGE_SET, USAGE_STATUS,
    default_run_options, opt_str, strs, Cli, CliView, Command, CommandView, ControlRequest,
    GammaChange, GetField, HelpTopic, IdentityValue, OutputMode, Percent, RequestView, RunOptions,
    RunOptionsView, TemperatureChange, USAGE_GENERAL,
};
use crate::service::{InstallView, ServiceCommand, ServiceInstallOptions, ServiceView};
use crate::num::{gamma_number, i64_text_value, parse_gamma_number, parse_i64, parse_u32, u32_text_value};
use crate::suggest::{all_short, suggestion_suffix, suggestion_text, views};
use crate::text::{find_char, first_index_of, is_prefix, lemma_first_index_of, owned, starts_with, str_eq, strip_prefix};

verus! {

// ---------------------------------------------------------------------------
// The grammar, stated over character sequences.
// ---------------------------------------------------------------------------

/// Every argument is shorter than `usize::MAX` characters.
pub open spec fn args_fit(args: Seq<Seq<char>>) -> bool {
    forall|i: int| 0 <= i < args.len() ==> (#[trigger] args[i]).len() < usize::MAX
}

/// The output mode that an argument selects, if it is a mode flag.
pub open spec fn mode_flag(a: Seq<char>) -> Option<OutputMode> {
    if a == "--raw"@ {
        Some(OutputMode::Raw)
    } else if a == "--pretty"@ {
        Some(OutputMode::Pretty)
    } else {
        None
    }
}

/// The arguments without the mode flags, in order.
pub open spec fn without_mode_flags(args: Seq<Seq<char>>) -> Seq<Seq<char>>
    decreases args.len(),
{
    if args.len() == 0 {
        seq![]
    } else {
        let r = without_mode_flags(args.drop_last());
        if mode_flag(args.last()) is Some {
            r
        } else {
            r.push(args.last())
        }
    }
}

/// `--raw` and `--pretty` may stand anywhere; both together are an error.
pub open spec fn output_mode_split(args: Seq<Seq<char>>) -> Result<(OutputMode, Seq<Seq<char>>), Seq<char>> {
    let raw = args.contains("--raw"@);
    let pretty = args.contains("--pretty"@);
    if raw && pretty {
        Err("--raw and --pretty cannot be used together"@)
    } else {
        Ok(
            (
                if raw {
                    OutputMode::Raw
                } else if pretty {
                    OutputMode::Pretty
                } else {
                    OutputMode::Auto
                },
                without_mode_flags(args),
            ),
        )
    }
}

/// Scans for `--socket <PATH>` from the left: the path and the other
/// arguments in order, or the first error met.
pub open spec fn socket_scan(args: Seq<Seq<char>>, found: Option<Seq<char>>) -> Result<
    (Option<Seq<char>>, Seq<Seq<char>>),
    Seq<char>,
>
    decreases args.len(),
{
    if args.len() == 0 {
        Ok((found, seq![]))
    } else if args[0] == "--socket"@ {
        if found is Some {
            Err("--socket specified more than once"@)
        } else if args.len() < 2 {
            Err("--socket requires a path"@)
        } else {
            socket_scan(args.subrange(2, args.len() as int), Some(args[1]))
        }
    } else {
        match socket_scan(args.drop_first(), found) {
            Ok(r) => Ok((r.0, seq![args[0]] + r.1)),
            Err(e) => Err(e),
        }
    }
}

/// The arguments consist of a single help flag.
pub open spec fn help_only(args: Seq<Seq<char>>) -> bool {
    args.len() == 1 && (args[0] == "--help"@ || args[0] == "-h"@)
}

/// `words` joined by `sep`.
pub open spec fn join(words: Seq<Seq<char>>, sep: Seq<char>) -> Seq<char>
    decreases words.len(),
{
    if words.len() == 0 {
        seq![]
    } else if words.len() == 1 {
        words[0]
    } else {
        join(words.drop_last(), sep) + sep + words.last()
    }
}

/// A successful parse.
pub open spec fn parsed(socket: Option<Seq<char>>, mode: OutputMode, command: CommandView) -> Result<CliView, Seq<char>> {
    Ok(CliView { socket, output_mode: mode, command })
}

// ---------------------------------------------------------------------------
// Mode flags and the socket option.
// ---------------------------------------------------------------------------

/// Takes `--raw`/`--pretty` out of `args` and returns the mode they select.
fn extract_output_mode_arg(args: &mut Vec<String>) -> (r: Result<OutputMode, String>)
    requires
        args_fit(strs(old(args)@)),
    ensures
        r is Ok ==> args_fit(strs(final(args)@)),
        match r {
            Ok(m) => output_mode_split(strs(old(args)@)) == Ok::<(OutputMode, Seq<Seq<char>>), Seq<char>>((m, strs(final(args)@))),
            Err(e) => output_mode_split(strs(old(args)@)) == Err::<(OutputMode, Seq<Seq<char>>), Seq<char>>(e@),
        },
{
    proof {
        reveal_strlit("--raw");
        reveal_strlit("--pretty");
        assert("--raw"@.len() != "--pretty"@.len());
    }
    let ghost a = strs(args@);
    let mut kept: Vec<String> = Vec::new();
    let mut raw = false;
    let mut pretty = false;
    let mut i: usize = 0;
    while i < args.len()
        invariant
            a == strs(args@),
            args_fit(a),
            args_fit(strs(kept@)),
            i <= args@.len(),
            strs(kept@) == without_mode_flags(a.subrange(0, i as int)),
            raw == a.subrange(0, i as int).contains("--raw"@),
            pretty == a.subrange(0, i as int).contains("--pretty"@),
            !(raw && pretty),
        decreases args@.len() - i,
    {
        proof {
            reveal_strlit("--raw");
            reveal_strlit("--pretty");
        }
        let ghost pre = a.subrange(0, i as int);
        let ghost next = a.subrange(0, i + 1);
        assert(next.drop_last() =~= pre);
        assert(next.last() == a[i as int]);
        assert(next =~= pre.push(a[i as int]));
        assert(a[i as int] == args@[i as int]@);
        let is_raw = str_eq(args[i].as_str(), "--raw");
        let is_pretty = str_eq(args[i].as_str(), "--pretty");
        if is_raw || is_pretty {
            proof {
                assert(next.contains(a[i as int]));
            }
            if (is_raw && pretty) || (is_pretty && raw) {
                proof {
                    let k = choose|k: int| 0 <= k < pre.len() && pre[k] == (if is_raw { "--pretty"@ } else { "--raw"@ });
                    assert(a[k] == pre[k]);
                    assert(a.contains("--raw"@));
                    assert(a.contains("--pretty"@));
                }
                return Err(String::from_str("--raw and --pretty cannot be used together"));
            }
            if is_raw {
                raw = true;
            } else {
                pretty = true;
            }
            assert(mode_flag(next.last()) is Some);
            assert(is_raw != is_pretty);
            assert(without_mode_flags(next) == without_mode_flags(pre));
        } else {
            kept.push(args[i].clone());
            assert(strs(kept@) =~= without_mode_flags(pre).push(a[i as int]));
            assert(mode_flag(next.last()) is None);
            assert(without_mode_flags(next) == without_mode_flags(pre).push(a[i as int]));
        }
        proof {
            if !(is_raw || is_pretty) {
                assert(next.contains("--raw"@) == pre.contains("--raw"@)) by {
                    if next.contains("--raw"@) {
                        let k = choose|k: int| 0 <= k < next.len() && next[k] == "--raw"@;
                        assert(k < pre.len());
                        assert(pre[k] == next[k]);
                    }
                }
                assert(next.contains("--pretty"@) == pre.contains("--pretty"@)) by {
                    if next.contains("--pretty"@) {
                        let k = choose|k: int| 0 <= k < next.len() && next[k] == "--pretty"@;
                        assert(k < pre.len());
                        assert(pre[k] == next[k]);
                    }
                }
            } else {
                assert(next.contains("--raw"@) == (pre.contains("--raw"@) || is_raw)) by {
                    if next.contains("--raw"@) && !is_raw {
                        let k = choose|k: int| 0 <= k < next.len() && next[k] == "--raw"@;
                        assert(k < pre.len());
                        assert(pre[k] == next[k]);
                    }
                    if pre.contains("--raw"@) {
                        let k = choose|k: int| 0 <= k < pre.len() && pre[k] == "--raw"@;
                        assert(next[k] == pre[k]);
                    }
                }
                assert(next.contains("--pretty"@) == (pre.contains("--pretty"@) || is_pretty)) by {
                    if next.contains("--pretty"@) && !is_pretty {
                        let k = choose|k: int| 0 <= k < next.len() && next[k] == "--pretty"@;
                        assert(k < pre.len());
                        assert(pre[k] == next[k]);
                    }
                    if pre.contains("--pretty"@) {
                        let k = choose|k: int| 0 <= k < pre.len() && pre[k] == "--pretty"@;
                        assert(next[k] == pre[k]);
                    }
                }
            }
        }
        i = i + 1;
    }
    assert(a.subrange(0, a.len() as int) =~= a);
    *args = kept;
    if raw {
        Ok(OutputMode::Raw)
    } else if pretty {
        Ok(OutputMode::Pretty)
    } else {
        Ok(OutputMode::Auto)
    }
}

/// Takes `--socket <PATH>` out of `args` and returns the path.
fn extract_socket_arg(args: &mut Vec<String>) -> (r: Result<Option<String>, String>)
    requires
        args_fit(strs(old(args)@)),
    ensures
        r is Ok ==> args_fit(strs(final(args)@)),
        match r {
            Ok(s) => socket_scan(strs(old(args)@), None) == Ok::<(Option<Seq<char>>, Seq<Seq<char>>), Seq<char>>(
                (opt_str(s), strs(final(args)@)),
            ),
            Err(e) => socket_scan(strs(old(args)@), None) == Err::<(Option<Seq<char>>, Seq<Seq<char>>), Seq<char>>(e@),
        },
{
    let ghost a = strs(args@);
    let mut kept: Vec<String> = Vec::new();
    let mut socket: Option<String> = None;
    let mut i: usize = 0;
    proof {
        assert(a.subrange(0, a.len() as int) =~= a);
        assert(strs(kept@) =~= Seq::<Seq<char>>::empty());
        match socket_scan(a, None) {
            Ok(r) => {
                assert(Seq::<Seq<char>>::empty() + r.1 =~= r.1);
            },
            Err(e) => {},
        }
    }
    while i < args.len()
        invariant
            a == strs(args@),
            args_fit(a),
            args_fit(strs(kept@)),
            i <= args@.len(),
            socket_scan(a, None) == (match socket_scan(a.subrange(i as int, a.len() as int), opt_str(socket)) {
                Ok(r) => Ok((r.0, strs(kept@) + r.1)),
                Err(e) => Err(e),
            }),
        decreases args@.len() - i,
    {
        let ghost rest = a.subrange(i as int, a.len() as int);
        assert(rest[0] == a[i as int]);
        if str_eq(args[i].as_str(), "--socket") {
            if socket.is_some() {
                return Err(String::from_str("--socket specified more than once"));
            }
            if i + 1 >= args.len() {
                return Err(String::from_str("--socket requires a path"));
            }
            assert(rest[1] == a[i + 1]);
            assert(rest.subrange(2, rest.len() as int) =~= a.subrange(i + 2, a.len() as int));
            socket = Some(args[i + 1].clone());
            i = i + 2;
        } else {
            assert(rest.drop_first() =~= a.subrange(i + 1, a.len() as int));
            let ghost before = strs(kept@);
            kept.push(args[i].clone());
            assert(strs(kept@) =~= before.push(a[i as int]));
            proof {
                match socket_scan(rest.drop_first(), opt_str(socket)) {
                    Ok(r) => {
                        assert(before + (seq![a[i as int]] + r.1) =~= strs(kept@) + r.1);
                    },
                    Err(e) => {},
                }
            }
            i = i + 1;
        }
    }
    assert(a.subrange(a.len() as int, a.len() as int) =~= Seq::<Seq<char>>::empty());
    assert(strs(kept@) + Seq::<Seq<char>>::empty() =~= strs(kept@));
    *args = kept;
    Ok(socket)
}

/// Whether the arguments are just `--help` or `-h`.
fn is_help_only(args: &Vec<String>) -> (r: bool)
    ensures
        r == help_only(strs(args@)),
{
    args.len() == 1 && (str_eq(args[0].as_str(), "--help") || str_eq(args[0].as_str(), "-h"))
}

/// The words from position `from` on, joined by `sep`.
fn join_words(words: &[String], from: usize, sep: &str) -> (r: String)
    requires
        from <= words@.len(),
    ensures
        r@ == join(strs(words@).subrange(from as int, words@.len() as int), sep@),
{
    let ghost w = strs(words@).subrange(from as int, words@.len() as int);
    let mut out = String::new();
    let mut i: usize = from;
    while i < words.len()
        invariant
            from <= i <= words@.len(),
            w == strs(words@).subrange(from as int, words@.len() as int),
            out@ == join(w.subrange(0, i - from), sep@),
        decreases words@.len() - i,
    {
        let ghost next = w.subrange(0, i - from + 1);
        assert(next.drop_last() =~= w.subrange(0, i - from));
        if i > from {
            out.append(sep);
        } else {
            assert(out@ =~= Seq::<char>::empty());
        }
        out.append(words[i].as_str());
        assert(next.last() == words@[i as int]@);
        i = i + 1;
    }
    assert(w.subrange(0, w.len() as int) =~= w);
    out
}

// ---------------------------------------------------------------------------
// Word lists for suggestions.
// ---------------------------------------------------------------------------

/// The commands, for suggestions.
pub open spec fn command_words() -> Seq<Seq<char>> {
    seq!["run"@, "set"@, "get"@, "status"@, "reset"@, "outputs"@, "exclude"@, "stop"@, "toggle"@, "service"@, "help"@, "version"@]
}

fn command_list() -> (r: Vec<&'static str>)
    ensures
        views(r@) == command_words(),
        all_short(command_words()),
{
    proof {
        reveal_strlit("run");
        reveal_strlit("set");
        reveal_strlit("get");
        reveal_strlit("status");
        reveal_strlit("reset");
        reveal_strlit("outputs");
        reveal_strlit("exclude");
        reveal_strlit("stop");
        reveal_strlit("toggle");
        reveal_strlit("service");
        reveal_strlit("help");
        reveal_strlit("version");
    }
    let mut r: Vec<&'static str> = Vec::new();
    r.push("run");
    r.push("set");
    r.push("get");
    r.push("status");
    r.push("reset");
    r.push("outputs");
    r.push("exclude");
    r.push("stop");
    r.push("toggle");
    r.push("service");
    r.push("help");
    r.push("version");
    assert(views(r@) =~= command_words());
    r
}

/// The flags of `run`, for suggestions.
pub open spec fn run_flag_words() -> Seq<Seq<char>> {
    seq!["--temperature"@, "--temp"@, "-t"@, "--gamma"@, "--g"@, "-g"@, "--identity"@, "--id"@, "-i"@, "--exclude"@, "--ex"@, "-x"@, "--verbose"@]
}

fn run_flag_list() -> (r: Vec<&'static str>)
    ensures
        views(r@) == run_flag_words(),
        all_short(run_flag_words()),
{
    proof {
        reveal_strlit("--temperature");
        reveal_strlit("--temp");
        reveal_strlit("-t");
        reveal_strlit("--gamma");
        reveal_strlit("--g");
        reveal_strlit("-g");
        reveal_strlit("--identity");
        reveal_strlit("--id");
        reveal_strlit("-i");
        reveal_strlit("--exclude");
        reveal_strlit("--ex");
        reveal_strlit("-x");
        reveal_strlit("--verbose");
    }
    let mut r: Vec<&'static str> = Vec::new();
    r.push("--temperature");
    r.push("--temp");
    r.push("-t");
    r.push("--gamma");
    r.push("--g");
    r.push("-g");
    r.push("--identity");
    r.push("--id");
    r.push("-i");
    r.push("--exclude");
    r.push("--ex");
    r.push("-x");
    r.push("--verbose");
    assert(views(r@) =~= run_flag_words());
    r
}

/// The targets of `set`, for suggestions.
pub open spec fn set_target_words() -> Seq<Seq<char>> {
    seq!["temperature"@, "temp"@, "t"@, "gamma"@, "g"@, "identity"@, "id"@]
}

fn set_target_list() -> (r: Vec<&'static str>)
    ensures
        views(r@) == set_target_words(),
        all_short(set_target_words()),
{
    proof {
        reveal_strlit("temperature");
        reveal_strlit("temp");
        reveal_strlit("t");
        reveal_strlit("gamma");
        reveal_strlit("g");
        reveal_strlit("identity");
        reveal_strlit("id");
    }
    let mut r: Vec<&'static str> = Vec::new();
    r.push("temperature");
    r.push("temp");
    r.push("t");
    r.push("gamma");
    r.push("g");
    r.push("identity");
    r.push("id");
    assert(views(r@) =~= set_target_words());
    r
}

/// The fields of `get`, for suggestions.
pub open spec fn get_field_words() -> Seq<Seq<char>> {
    seq!["temperature"@, "temp"@, "t"@, "gamma"@, "g"@, "identity"@, "id"@, "backend"@, "be"@, "state"@, "status"@]
}

fn get_field_list() -> (r: Vec<&'static str>)
    ensures
        views(r@) == get_field_words(),
        all_short(get_field_words()),
{
    proof {
        reveal_strlit("temperature");
        reveal_strlit("temp");
        reveal_strlit("t");
        reveal_strlit("gamma");
        reveal_strlit("g");
        reveal_strlit("identity");
        reveal_strlit("id");
        reveal_strlit("backend");
        reveal_strlit("be");
        reveal_strlit("state");
        reveal_strlit("status");
    }
    let mut r: Vec<&'static str> = Vec::new();
    r.push("temperature");
    r.push("temp");
    r.push("t");
    r.push("gamma");
    r.push("g");
    r.push("identity");
    r.push("id");
    r.push("backend");
    r.push("be");
    r.push("state");
    r.push("status");
    assert(views(r@) =~= get_field_words());
    r
}

/// The actions of `outputs`, for suggestions.
pub open spec fn outputs_action_words() -> Seq<Seq<char>> {
    seq!["list"@, "ls"@]
}

fn outputs_action_list() -> (r: Vec<&'static str>)
    ensures
        views(r@) == outputs_action_words(),
        all_short(outputs_action_words()),
{
    proof {
        reveal_strlit("list");
        reveal_strlit("ls");
    }
    let mut r: Vec<&'static str> = Vec::new();
    r.push("list");
    r.push("ls");
    assert(views(r@) =~= outputs_action_words());
    r
}

/// The actions of `exclude`, for suggestions.
pub open spec fn exclude_action_words() -> Seq<Seq<char>> {
    seq!["add"@, "remove"@, "rm"@, "del"@, "list"@, "ls"@]
}

fn exclude_action_list() -> (r: Vec<&'static str>)
    ensures
        views(r@) == exclude_action_words(),
        all_short(exclude_action_words()),
{
    proof {
        reveal_strlit("add");
        reveal_strlit("remove");
        reveal_strlit("rm");
        reveal_strlit("del");
        reveal_strlit("list");
        reveal_strlit("ls");
    }
    let mut r: Vec<&'static str> = Vec::new();
    r.push("add");
    r.push("remove");
    r.push("rm");
    r.push("del");
    r.push("list");
    r.push("ls");
    assert(views(r@) =~= exclude_action_words());
    r
}

/// The help topics, for suggestions.
pub open spec fn help_topic_words() -> Seq<Seq<char>> {
    seq!["general"@, "run"@, "set"@, "get"@, "status"@, "reset"@, "outputs"@, "exclude"@, "stop"@, "toggle"@, "service"@]
}

fn help_topic_list() -> (r: Vec<&'static str>)
    ensures
        views(r@) == help_topic_words(),
        all_short(help_topic_words()),
{
    proof {
        reveal_strlit("general");
        reveal_strlit("run");
        reveal_strlit("set");
        reveal_strlit("get");
        reveal_strlit("status");
        reveal_strlit("reset");
        reveal_strlit("outputs");
        reveal_strlit("exclude");
        reveal_strlit("stop");
        reveal_strlit("toggle");
        reveal_strlit("service");
    }
    let mut r: Vec<&'static str> = Vec::new();
    r.push("general");
    r.push("run");
    r.push("set");
    r.push("get");
    r.push("status");
    r.push("reset");
    r.push("outputs");
    r.push("exclude");
    r.push("stop");
    r.push("toggle");
    r.push("service");
    assert(views(r@) =~= help_topic_words());
    r
}


// ---------------------------------------------------------------------------
// Single words.
// ---------------------------------------------------------------------------

/// A result with its error message taken as characters.
pub open spec fn res_view<T>(r: Result<T, String>) -> Result<T, Seq<char>> {
    match r {
        Ok(v) => Ok(v),
        Err(e) => Err(e@),
    }
}

/// The help topic a word names.
pub open spec fn help_topic_of(v: Seq<char>) -> Result<HelpTopic, Seq<char>> {
    if v == "help"@ || v == "general"@ {
        Ok(HelpTopic::General)
    } else if v == "run"@ {
        Ok(HelpTopic::Run)
    } else if v == "set"@ {
        Ok(HelpTopic::SetCommand)
    } else if v == "get"@ {
        Ok(HelpTopic::Get)
    } else if v == "status"@ {
        Ok(HelpTopic::Status)
    } else if v == "reset"@ {
        Ok(HelpTopic::Reset)
    } else if v == "outputs"@ {
        Ok(HelpTopic::Outputs)
    } else if v == "exclude"@ {
        Ok(HelpTopic::Exclude)
    } else if v == "stop"@ {
        Ok(HelpTopic::Stop)
    } else if v == "toggle"@ {
        Ok(HelpTopic::Toggle)
    } else if v == "service"@ {
        Ok(HelpTopic::Service)
    } else {
        Err("unknown help topic: "@ + v + suggestion_text(v, help_topic_words()))
    }
}

fn parse_help_topic(value: &str) -> (r: Result<HelpTopic, String>)
    requires
        value@.len() < usize::MAX,
    ensures
        res_view(r) == help_topic_of(value@),
{
    if str_eq(value, "help") || str_eq(value, "general") {
        Ok(HelpTopic::General)
    } else if str_eq(value, "run") {
        Ok(HelpTopic::Run)
    } else if str_eq(value, "set") {
        Ok(HelpTopic::SetCommand)
    } else if str_eq(value, "get") {
        Ok(HelpTopic::Get)
    } else if str_eq(value, "status") {
        Ok(HelpTopic::Status)
    } else if str_eq(value, "reset") {
        Ok(HelpTopic::Reset)
    } else if str_eq(value, "outputs") {
        Ok(HelpTopic::Outputs)
    } else if str_eq(value, "exclude") {
        Ok(HelpTopic::Exclude)
    } else if str_eq(value, "stop") {
        Ok(HelpTopic::Stop)
    } else if str_eq(value, "toggle") {
        Ok(HelpTopic::Toggle)
    } else if str_eq(value, "service") {
        Ok(HelpTopic::Service)
    } else {
        let topics = help_topic_list();
        let mut e = String::from_str("unknown help topic: ");
        e.append(value);
        let suffix = suggestion_suffix(value, topics.as_slice());
        e.append(suffix.as_str());
        Err(e)
    }
}

/// What `set` changes.
pub enum SetTarget {
    Temperature,
    Gamma,
    Identity,
}

/// The target a word of `set` names.
pub open spec fn set_target_of(v: Seq<char>) -> Option<SetTarget> {
    if v == "temperature"@ || v == "temp"@ || v == "t"@ {
        Some(SetTarget::Temperature)
    } else if v == "gamma"@ || v == "g"@ {
        Some(SetTarget::Gamma)
    } else if v == "identity"@ || v == "id"@ {
        Some(SetTarget::Identity)
    } else {
        None
    }
}

fn normalize_set_target(value: &str) -> (r: Option<SetTarget>)
    ensures
        r == set_target_of(value@),
{
    if str_eq(value, "temperature") || str_eq(value, "temp") || str_eq(value, "t") {
        Some(SetTarget::Temperature)
    } else if str_eq(value, "gamma") || str_eq(value, "g") {
        Some(SetTarget::Gamma)
    } else if str_eq(value, "identity") || str_eq(value, "id") {
        Some(SetTarget::Identity)
    } else {
        None
    }
}

/// The field a word of `get` names.
pub open spec fn get_field_of(v: Seq<char>) -> Option<GetField> {
    if v == "temperature"@ || v == "temp"@ || v == "t"@ {
        Some(GetField::Temperature)
    } else if v == "gamma"@ || v == "g"@ {
        Some(GetField::Gamma)
    } else if v == "identity"@ || v == "id"@ {
        Some(GetField::Identity)
    } else if v == "backend"@ || v == "be"@ {
        Some(GetField::Backend)
    } else if v == "state"@ || v == "status"@ {
        Some(GetField::State)
    } else {
        None
    }
}

fn normalize_get_field(value: &str) -> (r: Option<GetField>)
    ensures
        r == get_field_of(value@),
{
    if str_eq(value, "temperature") || str_eq(value, "temp") || str_eq(value, "t") {
        Some(GetField::Temperature)
    } else if str_eq(value, "gamma") || str_eq(value, "g") {
        Some(GetField::Gamma)
    } else if str_eq(value, "identity") || str_eq(value, "id") {
        Some(GetField::Identity)
    } else if str_eq(value, "backend") || str_eq(value, "be") {
        Some(GetField::Backend)
    } else if str_eq(value, "state") || str_eq(value, "status") {
        Some(GetField::State)
    } else {
        None
    }
}

/// The identity setting a word names.
pub open spec fn identity_value_of(v: Seq<char>) -> Result<IdentityValue, Seq<char>> {
    if v == "true"@ || v == "on"@ || v == "1"@ || v == "yes"@ {
        Ok(IdentityValue::True)
    } else if v == "false"@ || v == "off"@ || v == "0"@ || v == "no"@ {
        Ok(IdentityValue::False)
    } else if v == "toggle"@ {
        Ok(IdentityValue::Toggle)
    } else {
        Err("identity value must be one of: true, false, toggle (aliases: on/off/1/0/yes/no)"@)
    }
}

fn parse_identity_value(value: &str) -> (r: Result<IdentityValue, String>)
    ensures
        res_view(r) == identity_value_of(value@),
{
    if str_eq(value, "true") || str_eq(value, "on") || str_eq(value, "1") || str_eq(value, "yes") {
        Ok(IdentityValue::True)
    } else if str_eq(value, "false") || str_eq(value, "off") || str_eq(value, "0") || str_eq(value, "no") {
        Ok(IdentityValue::False)
    } else if str_eq(value, "toggle") {
        Ok(IdentityValue::Toggle)
    } else {
        Err(String::from_str("identity value must be one of: true, false, toggle (aliases: on/off/1/0/yes/no)"))
    }
}

/// The error of a `run` identity value that is not a boolean.
pub open spec fn run_identity_error() -> Seq<char> {
    "run identity value must be one of: true, false (aliases: on/off/1/0/yes/no)"@
}

/// The boolean a `run --identity` value names; `toggle` is refused there.
pub open spec fn run_identity_of(v: Seq<char>) -> Result<bool, Seq<char>> {
    match identity_value_of(v) {
        Ok(IdentityValue::True) => Ok(true),
        Ok(IdentityValue::False) => Ok(false),
        _ => Err(run_identity_error()),
    }
}

fn parse_run_identity_bool(value: &str) -> (r: Result<bool, String>)
    ensures
        res_view(r) == run_identity_of(value@),
{
    match parse_identity_value(value) {
        Ok(IdentityValue::True) => Ok(true),
        Ok(IdentityValue::False) => Ok(false),
        _ => Err(String::from_str("run identity value must be one of: true, false (aliases: on/off/1/0/yes/no)")),
    }
}

/// `-v` as a release build computes it: `i64::MIN` stays `i64::MIN`.
pub open spec fn neg_wrapping(v: i64) -> i64 {
    if v == i64::MIN {
        i64::MIN
    } else {
        (-v) as i64
    }
}

/// The temperature change a `set` value names: `+N` and `-N` change the
/// current temperature, a plain number replaces it.
pub open spec fn temperature_change_of(v: Seq<char>) -> Result<TemperatureChange, Seq<char>> {
    if is_prefix("+"@, v) {
        match i64_text_value(v.drop_first()) {
            Some(d) => Ok(TemperatureChange::Relative(d)),
            None => Err("invalid temperature delta: "@ + v),
        }
    } else if is_prefix("-"@, v) {
        match i64_text_value(v.drop_first()) {
            Some(d) => Ok(TemperatureChange::Relative(neg_wrapping(d))),
            None => Err("invalid temperature delta: "@ + v),
        }
    } else {
        match i64_text_value(v) {
            Some(t) => Ok(TemperatureChange::Absolute(t)),
            None => Err("invalid temperature value: "@ + v),
        }
    }
}

fn parse_temperature_change(value: &str) -> (r: Result<TemperatureChange, String>)
    ensures
        res_view(r) == temperature_change_of(value@),
{
    proof {
        reveal_strlit("+");
        reveal_strlit("-");
    }
    if let Some(rest) = strip_prefix(value, "+") {
        assert(rest@ =~= value@.drop_first());
        match parse_i64(rest) {
            Some(d) => Ok(TemperatureChange::Relative(d)),
            None => {
                let mut e = String::from_str("invalid temperature delta: ");
                e.append(value);
                Err(e)
            },
        }
    } else if let Some(rest) = strip_prefix(value, "-") {
        assert(rest@ =~= value@.drop_first());
        match parse_i64(rest) {
            Some(d) => {
                let n = if d == i64::MIN { i64::MIN } else { -d };
                Ok(TemperatureChange::Relative(n))
            },
            None => {
                let mut e = String::from_str("invalid temperature delta: ");
                e.append(value);
                Err(e)
            },
        }
    } else {
        match parse_i64(value) {
            Some(t) => Ok(TemperatureChange::Absolute(t)),
            None => {
                let mut e = String::from_str("invalid temperature value: ");
                e.append(value);
                Err(e)
            },
        }
    }
}

/// The gamma change a `set` value names: `+N` and `-N` change the current
/// gamma, a plain number replaces it.
pub open spec fn gamma_change_of(v: Seq<char>) -> Result<GammaChange, Seq<char>> {
    if is_prefix("+"@, v) {
        match gamma_number(v.drop_first()) {
            Some(d) => Ok(GammaChange::Relative(Percent { micros: d })),
            None => Err("invalid gamma delta: "@ + v),
        }
    } else if is_prefix("-"@, v) {
        match gamma_number(v.drop_first()) {
            Some(d) => Ok(GammaChange::Relative(Percent { micros: (-d) as i64 })),
            None => Err("invalid gamma delta: "@ + v),
        }
    } else {
        match gamma_number(v) {
            Some(g) => Ok(GammaChange::Absolute(Percent { micros: g })),
            None => Err("invalid gamma value: "@ + v),
        }
    }
}


fn parse_gamma_change(value: &str) -> (r: Result<GammaChange, String>)
    ensures
        res_view(r) == gamma_change_of(value@),
{
    proof {
        reveal_strlit("+");
        reveal_strlit("-");
    }
    if let Some(rest) = strip_prefix(value, "+") {
        assert(rest@ =~= value@.drop_first());
        match parse_gamma_number(rest) {
            Some(d) => Ok(GammaChange::Relative(Percent { micros: d })),
            None => {
                let mut e = String::from_str("invalid gamma delta: ");
                e.append(value);
                Err(e)
            },
        }
    } else if let Some(rest) = strip_prefix(value, "-") {
        assert(rest@ =~= value@.drop_first());
        proof {
            crate::num::lemma_gamma_number_range(rest@);
        }
        match parse_gamma_number(rest) {
            Some(d) => Ok(GammaChange::Relative(Percent { micros: -d })),
            None => {
                let mut e = String::from_str("invalid gamma delta: ");
                e.append(value);
                Err(e)
            },
        }
    } else {
        match parse_gamma_number(value) {
            Some(g) => Ok(GammaChange::Absolute(Percent { micros: g })),
            None => {
                let mut e = String::from_str("invalid gamma value: ");
                e.append(value);
                Err(e)
            },
        }
    }
}


// ---------------------------------------------------------------------------
// `run` and its flags.
// ---------------------------------------------------------------------------

/// The flags of `run`.
pub enum RunFlagKind {
    Temperature,
    Gamma,
    Identity,
    Exclude,
    Verbose,
}

/// The `run` flag a word names, with its aliases.
pub open spec fn run_flag_of(v: Seq<char>) -> Option<RunFlagKind> {
    if v == "--temperature"@ || v == "--temp"@ || v == "-t"@ {
        Some(RunFlagKind::Temperature)
    } else if v == "--gamma"@ || v == "--g"@ || v == "-g"@ {
        Some(RunFlagKind::Gamma)
    } else if v == "--identity"@ || v == "--id"@ || v == "-i"@ {
        Some(RunFlagKind::Identity)
    } else if v == "--exclude"@ || v == "--ex"@ || v == "-x"@ {
        Some(RunFlagKind::Exclude)
    } else if v == "--verbose"@ {
        Some(RunFlagKind::Verbose)
    } else {
        None
    }
}

fn normalize_run_flag(value: &str) -> (r: Option<RunFlagKind>)
    ensures
        r == run_flag_of(value@),
{
    if str_eq(value, "--temperature") || str_eq(value, "--temp") || str_eq(value, "-t") {
        Some(RunFlagKind::Temperature)
    } else if str_eq(value, "--gamma") || str_eq(value, "--g") || str_eq(value, "-g") {
        Some(RunFlagKind::Gamma)
    } else if str_eq(value, "--identity") || str_eq(value, "--id") || str_eq(value, "-i") {
        Some(RunFlagKind::Identity)
    } else if str_eq(value, "--exclude") || str_eq(value, "--ex") || str_eq(value, "-x") {
        Some(RunFlagKind::Exclude)
    } else if str_eq(value, "--verbose") {
        Some(RunFlagKind::Verbose)
    } else {
        None
    }
}

/// The view of an optional string slice.
pub open spec fn opt_view(o: Option<&str>) -> Option<Seq<char>> {
    match o {
        Some(v) => Some(v@),
        None => None,
    }
}

/// A token split at its first `=` into flag and inline value.
pub open spec fn split_inline(token: Seq<char>) -> (Seq<char>, Option<Seq<char>>) {
    match first_index_of(token, '=') {
        Some(k) => (token.subrange(0, k), Some(token.subrange(k + 1, token.len() as int))),
        None => (token, None),
    }
}

fn split_inline_flag_value(token: &str) -> (r: (&str, Option<&str>))
    ensures
        r.0@ == split_inline(token@).0,
        split_inline(token@).1 == opt_view(r.1),
        r.0@.len() <= token@.len(),
{
    match find_char(token, '=') {
        Some(k) => {
            proof {
                lemma_first_index_of(token@, '=', k as int);
            }
            let n = token.unicode_len();
            (token.substring_char(0, k), Some(token.substring_char(k + 1, n)))
        },
        None => (token, None),
    }
}

/// The error of a flag given without its value.
pub open spec fn missing_value(flag: Seq<char>) -> Seq<char> {
    flag + " requires a value"@
}

/// The value of a flag: inline after `=`, else the next argument.
pub open spec fn take_value(flag: Seq<char>, inline: Option<Seq<char>>, args: Seq<Seq<char>>, i: int) -> Result<Seq<char>, Seq<char>> {
    match inline {
        Some(v) => if v.len() == 0 {
            Err(missing_value(flag))
        } else {
            Ok(v)
        },
        None => if i + 1 < args.len() {
            Ok(args[i + 1])
        } else {
            Err(missing_value(flag))
        },
    }
}

/// How many arguments a flag with or without an inline value uses up.
pub open spec fn consumed(inline: Option<Seq<char>>) -> int {
    if inline is Some {
        1
    } else {
        2
    }
}

fn take_run_flag_value<'a>(flag: &str, inline_value: Option<&'a str>, args: &'a [String], index: usize) -> (r: Result<(&'a str, usize), String>)
    requires
        index < args@.len(),
    ensures
        match r {
            Ok(p) => take_value(flag@, opt_view(inline_value), strs(args@), index as int)
                == Ok::<Seq<char>, Seq<char>>(p.0@) && p.1 as int == consumed(opt_view(inline_value)),
            Err(e) => take_value(flag@, opt_view(inline_value), strs(args@), index as int)
                == Err::<Seq<char>, Seq<char>>(e@),
        },
{
    if let Some(value) = inline_value {
        if value.unicode_len() == 0 {
            let mut e = owned(flag);
            e.append(" requires a value");
            return Err(e);
        }
        return Ok((value, 1));
    }
    if index < args.len() - 1 {
        assert(strs(args@)[index + 1] == args@[index + 1]@);
        Ok((args[index + 1].as_str(), 2))
    } else {
        let mut e = owned(flag);
        e.append(" requires a value");
        Err(e)
    }
}

/// `run`'s flags read from position `i` on, changing `opts`.
pub open spec fn run_scan(args: Seq<Seq<char>>, i: int, opts: RunOptionsView) -> Result<RunOptionsView, Seq<char>>
    decreases args.len() - i,
{
    if i < 0 || i >= args.len() {
        Ok(opts)
    } else {
        let token = args[i];
        let flag = split_inline(token).0;
        let inline = split_inline(token).1;
        match run_flag_of(flag) {
            None => Err("unknown run flag: "@ + token + suggestion_text(flag, run_flag_words())),
            Some(RunFlagKind::Temperature) => match take_value(flag, inline, args, i) {
                Err(e) => Err(e),
                Ok(v) => match u32_text_value(v) {
                    None => Err("invalid temperature: "@ + v),
                    Some(t) => run_scan(args, i + consumed(inline), RunOptionsView { temperature_k: t, ..opts }),
                },
            },
            Some(RunFlagKind::Gamma) => match take_value(flag, inline, args, i) {
                Err(e) => Err(e),
                Ok(v) => match gamma_number(v) {
                    None => Err("invalid gamma: "@ + v),
                    Some(g) => run_scan(args, i + consumed(inline), RunOptionsView { gamma_pct: Percent { micros: g }, ..opts }),
                },
            },
            Some(RunFlagKind::Identity) => match inline {
                Some(v) => match run_identity_of(v) {
                    Err(e) => Err(e),
                    Ok(b) => run_scan(args, i + 1, RunOptionsView { identity: b, ..opts }),
                },
                None => if i + 1 < args.len() && !is_prefix("-"@, args[i + 1]) {
                    match run_identity_of(args[i + 1]) {
                        Err(e) => Err(e),
                        Ok(b) => run_scan(args, i + 2, RunOptionsView { identity: b, ..opts }),
                    }
                } else {
                    run_scan(args, i + 1, RunOptionsView { identity: true, ..opts })
                },
            },
            Some(RunFlagKind::Exclude) => match take_value(flag, inline, args, i) {
                Err(e) => Err(e),
                Ok(v) => run_scan(args, i + consumed(inline), RunOptionsView { excludes: opts.excludes.push(v), ..opts }),
            },
            Some(RunFlagKind::Verbose) => if inline is Some {
                Err("run verbose flag does not take a value"@)
            } else {
                run_scan(args, i + 1, RunOptionsView { verbose: true, ..opts })
            },
        }
    }
}

/// The command line of `run` after the command word.
pub open spec fn run_command_of(args: Seq<Seq<char>>, mode: OutputMode) -> Result<CliView, Seq<char>> {
    if help_only(args) {
        parsed(None, mode, CommandView::Help(HelpTopic::Run))
    } else {
        match socket_scan(args, None) {
            Err(e) => Err(e),
            Ok(sr) => match run_scan(sr.1, 0, default_run_options()) {
                Err(e) => Err(e),
                Ok(o) => parsed(sr.0, mode, CommandView::Run(o)),
            },
        }
    }
}

/// A parse result with its strings taken as characters.
pub open spec fn cli_res(r: Result<Cli, String>) -> Result<CliView, Seq<char>> {
    match r {
        Ok(c) => Ok(c@),
        Err(e) => Err(e@),
    }
}

/// Reads the flag at position `i`; on success returns the position after it.
fn run_step(args: &[String], i: usize, options: &mut RunOptions) -> (r: Result<usize, String>)
    requires
        args_fit(strs(args@)),
        i < args@.len(),
    ensures
        match r {
            Ok(next) => i < next <= args@.len() && run_scan(strs(args@), i as int, old(options)@)
                == run_scan(strs(args@), next as int, final(options)@),
            Err(e) => run_scan(strs(args@), i as int, old(options)@) == Err::<RunOptionsView, Seq<char>>(e@),
        },
{
    let ghost a = strs(args@);
    let token = args[i].as_str();
    assert(token@ == a[i as int]);
    let (flag, inline_value) = split_inline_flag_value(token);
    let ghost inline = opt_view(inline_value);
    let ghost opts = options@;
    let kind = match normalize_run_flag(flag) {
        Some(kind) => kind,
        None => {
            let known = run_flag_list();
            let mut e = String::from_str("unknown run flag: ");
            e.append(token);
            let suffix = suggestion_suffix(flag, known.as_slice());
            e.append(suffix.as_str());
            return Err(e);
        },
    };
    match kind {
        RunFlagKind::Temperature => {
            let (value, used) = match take_run_flag_value(flag, inline_value, args, i) {
                Ok(p) => p,
                Err(e) => {
                    return Err(e);
                },
            };
            match parse_u32(value) {
                Some(t) => {
                    options.temperature_k = t;
                    assert(options@ == RunOptionsView { temperature_k: t, ..opts });
                    Ok(i + used)
                },
                None => {
                    let mut e = String::from_str("invalid temperature: ");
                    e.append(value);
                    Err(e)
                },
            }
        },
        RunFlagKind::Gamma => {
            let (value, used) = match take_run_flag_value(flag, inline_value, args, i) {
                Ok(p) => p,
                Err(e) => {
                    return Err(e);
                },
            };
            match parse_gamma_number(value) {
                Some(g) => {
                    options.gamma_pct = Percent { micros: g };
                    assert(options@ == RunOptionsView { gamma_pct: Percent { micros: g }, ..opts });
                    Ok(i + used)
                },
                None => {
                    let mut e = String::from_str("invalid gamma: ");
                    e.append(value);
                    Err(e)
                },
            }
        },
        RunFlagKind::Identity => {
            if let Some(value) = inline_value {
                match parse_run_identity_bool(value) {
                    Ok(b) => {
                        options.identity = b;
                        assert(options@ == RunOptionsView { identity: b, ..opts });
                        Ok(i + 1)
                    },
                    Err(e) => Err(e),
                }
            } else if i < args.len() - 1 && !starts_with(args[i + 1].as_str(), "-") {
                assert(args@[i + 1]@ == a[i + 1]);
                match parse_run_identity_bool(args[i + 1].as_str()) {
                    Ok(b) => {
                        options.identity = b;
                        assert(options@ == RunOptionsView { identity: b, ..opts });
                        Ok(i + 2)
                    },
                    Err(e) => Err(e),
                }
            } else {
                proof {
                    reveal_strlit("-");
                    if i + 1 < args@.len() {
                        assert(args@[i + 1]@ == a[i + 1]);
                    }
                }
                options.identity = true;
                assert(options@ == RunOptionsView { identity: true, ..opts });
                Ok(i + 1)
            }
        },
        RunFlagKind::Exclude => {
            let (value, used) = match take_run_flag_value(flag, inline_value, args, i) {
                Ok(p) => p,
                Err(e) => {
                    return Err(e);
                },
            };
            options.excludes.push(owned(value));
            assert(options@.excludes =~= opts.excludes.push(value@));
            assert(options@ == RunOptionsView { excludes: opts.excludes.push(value@), ..opts });
            Ok(i + used)
        },
        RunFlagKind::Verbose => {
            if inline_value.is_some() {
                return Err(String::from_str("run verbose flag does not take a value"));
            }
            options.verbose = true;
            assert(options@ == RunOptionsView { verbose: true, ..opts });
            Ok(i + 1)
        },
    }
}

#[verifier::loop_isolation(false)]
fn parse_run(args: Vec<String>, output_mode: OutputMode) -> (r: Result<Cli, String>)
    requires
        args_fit(strs(args@)),
    ensures
        cli_res(r) == run_command_of(strs(args@), output_mode),
{
    let ghost orig = strs(args@);
    let mut args = args;
    if is_help_only(&args) {
        return Ok(Cli { socket: None, output_mode, command: Command::Help(HelpTopic::Run) });
    }
    let socket = match extract_socket_arg(&mut args) {
        Ok(s) => s,
        Err(e) => {
            return Err(e);
        },
    };
    let ghost a = strs(args@);
    let mut options = RunOptions::default();
    let mut i: usize = 0;
    while i < args.len()
        invariant
            a == strs(args@),
            args_fit(a),
            i <= args@.len(),
            run_scan(a, 0, default_run_options()) == run_scan(a, i as int, options@),
            !help_only(orig),
            socket_scan(orig, None) == Ok::<(Option<Seq<char>>, Seq<Seq<char>>), Seq<char>>((opt_str(socket), a)),
        decreases args@.len() - i,
    {
        match run_step(args.as_slice(), i, &mut options) {
            Ok(next) => {
                i = next;
            },
            Err(e) => {
                return Err(e);
            },
        }
    }
    Ok(Cli { socket, output_mode, command: Command::Run(options) })
}


// ---------------------------------------------------------------------------
// The control commands.
// ---------------------------------------------------------------------------

/// A successful parse of a control request.
pub open spec fn control(socket: Option<Seq<char>>, mode: OutputMode, req: RequestView) -> Result<CliView, Seq<char>> {
    parsed(socket, mode, CommandView::Control(req))
}

/// The command line of `set` after the command word.
pub open spec fn set_command_of(args: Seq<Seq<char>>, mode: OutputMode) -> Result<CliView, Seq<char>> {
    if help_only(args) {
        parsed(None, mode, CommandView::Help(HelpTopic::SetCommand))
    } else {
        match socket_scan(args, None) {
            Err(e) => Err(e),
            Ok(sr) => {
                let rest = sr.1;
                if rest.len() < 2 {
                    Err("set command requires a target and value\n\n"@ + USAGE_SET@)
                } else if rest.len() > 2 {
                    Err("unexpected arguments: "@ + join(rest.subrange(2, rest.len() as int), " "@))
                } else {
                    let target = rest[0];
                    let value = rest[1];
                    match set_target_of(target) {
                        Some(SetTarget::Temperature) => match temperature_change_of(value) {
                            Ok(c) => control(sr.0, mode, RequestView::SetTemperature(c)),
                            Err(e) => Err(e),
                        },
                        Some(SetTarget::Gamma) => match gamma_change_of(value) {
                            Ok(c) => control(sr.0, mode, RequestView::SetGamma(c)),
                            Err(e) => Err(e),
                        },
                        Some(SetTarget::Identity) => match identity_value_of(value) {
                            Ok(v) => control(sr.0, mode, RequestView::SetIdentity(v)),
                            Err(e) => Err(e),
                        },
                        None => Err(
                            "unknown set target: "@ + target + suggestion_text(target, set_target_words())
                                + " (expected temperature|gamma|identity)"@,
                        ),
                    }
                }
            },
        }
    }
}

#[verifier::loop_isolation(false)]
fn parse_set(args: Vec<String>, output_mode: OutputMode) -> (r: Result<Cli, String>)
    requires
        args_fit(strs(args@)),
    ensures
        cli_res(r) == set_command_of(strs(args@), output_mode),
{
    let mut args = args;
    if is_help_only(&args) {
        return Ok(Cli { socket: None, output_mode, command: Command::Help(HelpTopic::SetCommand) });
    }
    let socket = match extract_socket_arg(&mut args) {
        Ok(s) => s,
        Err(e) => {
            return Err(e);
        },
    };
    let ghost rest = strs(args@);
    if args.len() < 2 {
        let mut e = String::from_str("set command requires a target and value\n\n");
        e.append(crate::cli::usage_for(HelpTopic::SetCommand));
        return Err(e);
    }
    if args.len() > 2 {
        let extra = join_words(args.as_slice(), 2, " ");
        let mut e = String::from_str("unexpected arguments: ");
        e.append(extra.as_str());
        return Err(e);
    }
    let target = args[0].as_str();
    let value = args[1].as_str();
    assert(target@ == rest[0] && value@ == rest[1]);
    let request = match normalize_set_target(target) {
        Some(SetTarget::Temperature) => match parse_temperature_change(value) {
            Ok(c) => ControlRequest::SetTemperature(c),
            Err(e) => {
                return Err(e);
            },
        },
        Some(SetTarget::Gamma) => match parse_gamma_change(value) {
            Ok(c) => ControlRequest::SetGamma(c),
            Err(e) => {
                return Err(e);
            },
        },
        Some(SetTarget::Identity) => match parse_identity_value(value) {
            Ok(v) => ControlRequest::SetIdentity(v),
            Err(e) => {
                return Err(e);
            },
        },
        None => {
            let targets = set_target_list();
            let mut e = String::from_str("unknown set target: ");
            e.append(target);
            let suffix = suggestion_suffix(target, targets.as_slice());
            e.append(suffix.as_str());
            e.append(" (expected temperature|gamma|identity)");
            return Err(e);
        },
    };
    Ok(Cli { socket, output_mode, command: Command::Control(request) })
}


/// The command line of `get` after the command word.
pub open spec fn get_command_of(args: Seq<Seq<char>>, mode: OutputMode) -> Result<CliView, Seq<char>> {
    if help_only(args) {
        parsed(None, mode, CommandView::Help(HelpTopic::Get))
    } else {
        match socket_scan(args, None) {
            Err(e) => Err(e),
            Ok(sr) => {
                let rest = sr.1;
                if rest.len() != 1 {
                    Err("get command requires exactly one field\n\n"@ + USAGE_GET@)
                } else {
                    match get_field_of(rest[0]) {
                        Some(f) => control(sr.0, mode, RequestView::Get(f)),
                        None => Err(
                            "unknown get field: "@ + rest[0] + suggestion_text(rest[0], get_field_words())
                                + " (expected temperature|gamma|identity|backend|state)"@,
                        ),
                    }
                }
            },
        }
    }
}

fn parse_get(args: Vec<String>, output_mode: OutputMode) -> (r: Result<Cli, String>)
    requires
        args_fit(strs(args@)),
    ensures
        cli_res(r) == get_command_of(strs(args@), output_mode),
{
    let mut args = args;
    if is_help_only(&args) {
        return Ok(Cli { socket: None, output_mode, command: Command::Help(HelpTopic::Get) });
    }
    let socket = match extract_socket_arg(&mut args) {
        Ok(s) => s,
        Err(e) => {
            return Err(e);
        },
    };
    if args.len() != 1 {
        let mut e = String::from_str("get command requires exactly one field\n\n");
        e.append(crate::cli::usage_for(HelpTopic::Get));
        return Err(e);
    }
    let word = args[0].as_str();
    assert(word@ == strs(args@)[0]);
    match normalize_get_field(word) {
        Some(field) => Ok(Cli { socket, output_mode, command: Command::Control(ControlRequest::Get(field)) }),
        None => {
            let fields = get_field_list();
            let mut e = String::from_str("unknown get field: ");
            e.append(word);
            let suffix = suggestion_suffix(word, fields.as_slice());
            e.append(suffix.as_str());
            e.append(" (expected temperature|gamma|identity|backend|state)");
            Err(e)
        },
    }
}

/// The command line of `status` after the command word.
pub open spec fn status_command_of(args: Seq<Seq<char>>, mode: OutputMode) -> Result<CliView, Seq<char>> {
    if help_only(args) {
        parsed(None, mode, CommandView::Help(HelpTopic::Status))
    } else {
        match socket_scan(args, None) {
            Err(e) => Err(e),
            Ok(sr) => if sr.1.len() != 0 {
                Err("unexpected arguments for status: "@ + join(sr.1, " "@) + "\n\n"@ + USAGE_STATUS@)
            } else {
                control(sr.0, mode, RequestView::Get(GetField::State))
            },
        }
    }
}

fn parse_status(args: Vec<String>, output_mode: OutputMode) -> (r: Result<Cli, String>)
    requires
        args_fit(strs(args@)),
    ensures
        cli_res(r) == status_command_of(strs(args@), output_mode),
{
    let mut args = args;
    if is_help_only(&args) {
        return Ok(Cli { socket: None, output_mode, command: Command::Help(HelpTopic::Status) });
    }
    let socket = match extract_socket_arg(&mut args) {
        Ok(s) => s,
        Err(e) => {
            return Err(e);
        },
    };
    if args.len() != 0 {
        let extra = join_words(args.as_slice(), 0, " ");
        assert(strs(args@).subrange(0, args@.len() as int) =~= strs(args@));
        let mut e = String::from_str("unexpected arguments for status: ");
        e.append(extra.as_str());
        e.append("\n\n");
        e.append(crate::cli::usage_for(HelpTopic::Status));
        return Err(e);
    }
    Ok(Cli { socket, output_mode, command: Command::Control(ControlRequest::Get(GetField::State)) })
}

/// The command line of `reset` after the command word.
pub open spec fn reset_command_of(args: Seq<Seq<char>>, mode: OutputMode) -> Result<CliView, Seq<char>> {
    if help_only(args) {
        parsed(None, mode, CommandView::Help(HelpTopic::Reset))
    } else {
        match socket_scan(args, None) {
            Err(e) => Err(e),
            Ok(sr) => if sr.1.len() != 0 {
                Err("unexpected arguments for reset: "@ + join(sr.1, " "@))
            } else {
                control(sr.0, mode, RequestView::Reset)
            },
        }
    }
}

fn parse_reset(args: Vec<String>, output_mode: OutputMode) -> (r: Result<Cli, String>)
    requires
        args_fit(strs(args@)),
    ensures
        cli_res(r) == reset_command_of(strs(args@), output_mode),
{
    let mut args = args;
    if is_help_only(&args) {
        return Ok(Cli { socket: None, output_mode, command: Command::Help(HelpTopic::Reset) });
    }
    let socket = match extract_socket_arg(&mut args) {
        Ok(s) => s,
        Err(e) => {
            return Err(e);
        },
    };
    if args.len() != 0 {
        let extra = join_words(args.as_slice(), 0, " ");
        assert(strs(args@).subrange(0, args@.len() as int) =~= strs(args@));
        let mut e = String::from_str("unexpected arguments for reset: ");
        e.append(extra.as_str());
        return Err(e);
    }
    Ok(Cli { socket, output_mode, command: Command::Control(ControlRequest::Reset) })
}

/// The command line of `stop` after the command word.
pub open spec fn stop_command_of(args: Seq<Seq<char>>, mode: OutputMode) -> Result<CliView, Seq<char>> {
    if help_only(args) {
        parsed(None, mode, CommandView::Help(HelpTopic::Stop))
    } else {
        match socket_scan(args, None) {
            Err(e) => Err(e),
            Ok(sr) => if sr.1.len() != 0 {
                Err("unexpected arguments for stop: "@ + join(sr.1, " "@))
            } else {
                control(sr.0, mode, RequestView::Stop)
            },
        }
    }
}

fn parse_stop(args: Vec<String>, output_mode: OutputMode) -> (r: Result<Cli, String>)
    requires
        args_fit(strs(args@)),
    ensures
        cli_res(r) == stop_command_of(strs(args@), output_mode),
{
    let mut args = args;
    if is_help_only(&args) {
        return Ok(Cli { socket: None, output_mode, command: Command::Help(HelpTopic::Stop) });
    }
    let socket = match extract_socket_arg(&mut args) {
        Ok(s) => s,
        Err(e) => {
            return Err(e);
        },
    };
    if args.len() != 0 {
        let extra = join_words(args.as_slice(), 0, " ");
        assert(strs(args@).subrange(0, args@.len() as int) =~= strs(args@));
        let mut e = String::from_str("unexpected arguments for stop: ");
        e.append(extra.as_str());
        return Err(e);
    }
    Ok(Cli { socket, output_mode, command: Command::Control(ControlRequest::Stop) })
}


/// The command line of `toggle` after the command word: the identity toggle.
pub open spec fn toggle_command_of(args: Seq<Seq<char>>, mode: OutputMode) -> Result<CliView, Seq<char>> {
    if help_only(args) {
        parsed(None, mode, CommandView::Help(HelpTopic::Toggle))
    } else {
        match socket_scan(args, None) {
            Err(e) => Err(e),
            Ok(sr) => if sr.1.len() != 0 {
                Err("unexpected arguments for toggle: "@ + join(sr.1, " "@))
            } else {
                control(sr.0, mode, RequestView::SetIdentity(IdentityValue::Toggle))
            },
        }
    }
}

fn parse_toggle(args: Vec<String>, output_mode: OutputMode) -> (r: Result<Cli, String>)
    requires
        args_fit(strs(args@)),
    ensures
        cli_res(r) == toggle_command_of(strs(args@), output_mode),
{
    let mut args = args;
    if is_help_only(&args) {
        return Ok(Cli { socket: None, output_mode, command: Command::Help(HelpTopic::Toggle) });
    }
    let socket = match extract_socket_arg(&mut args) {
        Ok(s) => s,
        Err(e) => {
            return Err(e);
        },
    };
    if args.len() != 0 {
        let extra = join_words(args.as_slice(), 0, " ");
        assert(strs(args@).subrange(0, args@.len() as int) =~= strs(args@));
        let mut e = String::from_str("unexpected arguments for toggle: ");
        e.append(extra.as_str());
        return Err(e);
    }
    Ok(Cli { socket, output_mode, command: Command::Control(ControlRequest::SetIdentity(IdentityValue::Toggle)) })
}

/// The actions of `service`, for suggestions.
pub open spec fn service_action_words() -> Seq<Seq<char>> {
    seq!["install"@, "uninstall"@, "status"@, "start"@, "stop"@, "restart"@]
}

fn service_action_list() -> (r: Vec<&'static str>)
    ensures
        views(r@) == service_action_words(),
        all_short(service_action_words()),
{
    proof {
        reveal_strlit("install");
        reveal_strlit("uninstall");
        reveal_strlit("status");
        reveal_strlit("start");
        reveal_strlit("stop");
        reveal_strlit("restart");
    }
    let mut r: Vec<&'static str> = Vec::new();
    r.push("install");
    r.push("uninstall");
    r.push("status");
    r.push("start");
    r.push("stop");
    r.push("restart");
    assert(views(r@) =~= service_action_words());
    r
}

/// The `service` action a word names, other than `install`.
pub open spec fn service_action_of(a: Seq<char>) -> Option<ServiceView> {
    if a == "uninstall"@ {
        Some(ServiceView::Uninstall)
    } else if a == "status"@ {
        Some(ServiceView::Status)
    } else if a == "start"@ {
        Some(ServiceView::Start)
    } else if a == "stop"@ {
        Some(ServiceView::Stop)
    } else if a == "restart"@ {
        Some(ServiceView::Restart)
    } else {
        None
    }
}

fn parse_service_action(a: &str) -> (r: Option<ServiceCommand>)
    ensures
        match r {
            Some(c) => service_action_of(a@) == Some(c@),
            None => service_action_of(a@) is None,
        },
{
    if str_eq(a, "uninstall") {
        Some(ServiceCommand::Uninstall)
    } else if str_eq(a, "status") {
        Some(ServiceCommand::Status)
    } else if str_eq(a, "start") {
        Some(ServiceCommand::Start)
    } else if str_eq(a, "stop") {
        Some(ServiceCommand::Stop)
    } else if str_eq(a, "restart") {
        Some(ServiceCommand::Restart)
    } else {
        None
    }
}

/// The command line of `service` after the command word: `install` takes the
/// options of `run` and `--socket`; the other actions take nothing.
pub open spec fn service_command_of(args: Seq<Seq<char>>, mode: OutputMode) -> Result<CliView, Seq<char>> {
    if args.len() == 0 {
        Err("service command requires an action\n\n"@ + USAGE_SERVICE@)
    } else if help_only(args) {
        parsed(None, mode, CommandView::Help(HelpTopic::Service))
    } else {
        let action = args[0];
        let tail = args.drop_first();
        if action == "install"@ {
            if help_only(tail) {
                parsed(None, mode, CommandView::Help(HelpTopic::Service))
            } else {
                match socket_scan(tail, None) {
                    Err(e) => Err(e),
                    Ok(sr) => match run_scan(sr.1, 0, default_run_options()) {
                        Err(e) => Err(e),
                        Ok(o) => parsed(
                            None,
                            mode,
                            CommandView::Service(ServiceView::Install(InstallView { socket: sr.0, run_options: o })),
                        ),
                    },
                }
            }
        } else {
            match service_action_of(action) {
                Some(v) => if tail.len() != 0 {
                    Err("unexpected arguments for service "@ + action + ": "@ + join(tail, " "@))
                } else {
                    parsed(None, mode, CommandView::Service(v))
                },
                None => Err("unknown service action: "@ + action + suggestion_text(action, service_action_words())),
            }
        }
    }
}

fn parse_service(args: Vec<String>, output_mode: OutputMode) -> (r: Result<Cli, String>)
    requires
        args_fit(strs(args@)),
    ensures
        cli_res(r) == service_command_of(strs(args@), output_mode),
{
    let ghost orig = strs(args@);
    let mut args = args;
    if args.len() == 0 {
        let mut e = String::from_str("service command requires an action\n\n");
        e.append(crate::cli::usage_for(HelpTopic::Service));
        return Err(e);
    }
    if is_help_only(&args) {
        return Ok(Cli { socket: None, output_mode, command: Command::Help(HelpTopic::Service) });
    }
    let action = args.remove(0);
    assert(action@ == orig[0]);
    assert(strs(args@) =~= orig.drop_first());
    if str_eq(action.as_str(), "install") {
        if is_help_only(&args) {
            return Ok(Cli { socket: None, output_mode, command: Command::Help(HelpTopic::Service) });
        }
        return match parse_run(args, output_mode) {
            Ok(cli) => match cli.command {
                Command::Run(run_options) => Ok(
                    Cli {
                        socket: None,
                        output_mode,
                        command: Command::Service(ServiceCommand::Install(ServiceInstallOptions { socket: cli.socket, run_options })),
                    },
                ),
                _ => Err(String::from_str("service install expects run options")),
            },
            Err(e) => Err(e),
        };
    }
    match parse_service_action(action.as_str()) {
        Some(c) => {
            if args.len() != 0 {
                let extra = join_words(args.as_slice(), 0, " ");
                assert(strs(args@).subrange(0, args@.len() as int) =~= strs(args@));
                let mut e = String::from_str("unexpected arguments for service ");
                e.append(action.as_str());
                e.append(": ");
                e.append(extra.as_str());
                return Err(e);
            }
            Ok(Cli { socket: None, output_mode, command: Command::Service(c) })
        },
        None => {
            let actions = service_action_list();
            let mut e = String::from_str("unknown service action: ");
            e.append(action.as_str());
            proof {
                assert(action@.len() < usize::MAX);
            }
            let suffix = suggestion_suffix(action.as_str(), actions.as_slice());
            e.append(suffix.as_str());
            Err(e)
        },
    }
}

/// The command line of `outputs` after the command word.
pub open spec fn outputs_command_of(args: Seq<Seq<char>>, mode: OutputMode) -> Result<CliView, Seq<char>> {
    if help_only(args) {
        parsed(None, mode, CommandView::Help(HelpTopic::Outputs))
    } else {
        match socket_scan(args, None) {
            Err(e) => Err(e),
            Ok(sr) => {
                let rest = sr.1;
                if rest.len() != 1 {
                    Err("outputs command only supports: outputs list\n\n"@ + USAGE_OUTPUTS@)
                } else if rest[0] != "list"@ && rest[0] != "ls"@ {
                    Err("outputs command only supports: outputs list"@ + suggestion_text(rest[0], outputs_action_words()))
                } else {
                    control(sr.0, mode, RequestView::OutputsList)
                }
            },
        }
    }
}

fn parse_outputs(args: Vec<String>, output_mode: OutputMode) -> (r: Result<Cli, String>)
    requires
        args_fit(strs(args@)),
    ensures
        cli_res(r) == outputs_command_of(strs(args@), output_mode),
{
    let mut args = args;
    if is_help_only(&args) {
        return Ok(Cli { socket: None, output_mode, command: Command::Help(HelpTopic::Outputs) });
    }
    let socket = match extract_socket_arg(&mut args) {
        Ok(s) => s,
        Err(e) => {
            return Err(e);
        },
    };
    if args.len() != 1 {
        let mut e = String::from_str("outputs command only supports: outputs list\n\n");
        e.append(crate::cli::usage_for(HelpTopic::Outputs));
        return Err(e);
    }
    let action = args[0].as_str();
    assert(action@ == strs(args@)[0]);
    if !str_eq(action, "list") && !str_eq(action, "ls") {
        let actions = outputs_action_list();
        let mut e = String::from_str("outputs command only supports: outputs list");
        let suffix = suggestion_suffix(action, actions.as_slice());
        e.append(suffix.as_str());
        return Err(e);
    }
    Ok(Cli { socket, output_mode, command: Command::Control(ControlRequest::OutputsList) })
}

/// The command line of `exclude` after the command word.
pub open spec fn exclude_command_of(args: Seq<Seq<char>>, mode: OutputMode) -> Result<CliView, Seq<char>> {
    if help_only(args) {
        parsed(None, mode, CommandView::Help(HelpTopic::Exclude))
    } else {
        match socket_scan(args, None) {
            Err(e) => Err(e),
            Ok(sr) => {
                let rest = sr.1;
                if rest.len() == 0 {
                    Err("exclude command requires an action"@)
                } else {
                    let action = rest[0];
                    let tail = rest.drop_first();
                    if action == "add"@ {
                        if tail.len() != 1 {
                            Err("exclude add requires exactly one output id"@)
                        } else {
                            control(sr.0, mode, RequestView::ExcludeAdd(tail[0]))
                        }
                    } else if action == "remove"@ || action == "rm"@ || action == "del"@ {
                        if tail.len() != 1 {
                            Err("exclude remove requires exactly one output id"@)
                        } else {
                            control(sr.0, mode, RequestView::ExcludeRemove(tail[0]))
                        }
                    } else if action == "list"@ || action == "ls"@ {
                        if tail.len() != 0 {
                            Err("exclude list takes no additional arguments"@)
                        } else {
                            control(sr.0, mode, RequestView::ExcludeList)
                        }
                    } else {
                        Err(
                            "exclude command supports only: add <id>, remove <id>, list"@ + suggestion_text(
                                action,
                                exclude_action_words(),
                            ),
                        )
                    }
                }
            },
        }
    }
}

fn parse_exclude(args: Vec<String>, output_mode: OutputMode) -> (r: Result<Cli, String>)
    requires
        args_fit(strs(args@)),
    ensures
        cli_res(r) == exclude_command_of(strs(args@), output_mode),
{
    let mut args = args;
    if is_help_only(&args) {
        return Ok(Cli { socket: None, output_mode, command: Command::Help(HelpTopic::Exclude) });
    }
    let socket = match extract_socket_arg(&mut args) {
        Ok(s) => s,
        Err(e) => {
            return Err(e);
        },
    };
    if args.len() == 0 {
        return Err(String::from_str("exclude command requires an action"));
    }
    let ghost rest = strs(args@);
    let action = args.remove(0);
    assert(action@ == rest[0]);
    assert(strs(args@) =~= rest.drop_first());
    let request = if str_eq(action.as_str(), "add") {
        if args.len() != 1 {
            return Err(String::from_str("exclude add requires exactly one output id"));
        }
        let id = args.remove(0);
        ControlRequest::ExcludeAdd(id)
    } else if str_eq(action.as_str(), "remove") || str_eq(action.as_str(), "rm") || str_eq(action.as_str(), "del") {
        if args.len() != 1 {
            return Err(String::from_str("exclude remove requires exactly one output id"));
        }
        let id = args.remove(0);
        ControlRequest::ExcludeRemove(id)
    } else if str_eq(action.as_str(), "list") || str_eq(action.as_str(), "ls") {
        if args.len() != 0 {
            return Err(String::from_str("exclude list takes no additional arguments"));
        }
        ControlRequest::ExcludeList
    } else {
        let actions = exclude_action_list();
        let mut e = String::from_str("exclude command supports only: add <id>, remove <id>, list");
        let suffix = suggestion_suffix(action.as_str(), actions.as_slice());
        e.append(suffix.as_str());
        return Err(e);
    };
    Ok(Cli { socket, output_mode, command: Command::Control(request) })
}

/// The command line of `help` after the command word.
pub open spec fn help_command_of(args: Seq<Seq<char>>, mode: OutputMode) -> Result<CliView, Seq<char>> {
    if args.len() == 0 {
        parsed(None, mode, CommandView::Help(HelpTopic::General))
    } else if args.len() > 1 {
        Err("help takes at most one topic"@)
    } else {
        match help_topic_of(args[0]) {
            Ok(t) => parsed(None, mode, CommandView::Help(t)),
            Err(e) => Err(e),
        }
    }
}

fn parse_help(args: Vec<String>, output_mode: OutputMode) -> (r: Result<Cli, String>)
    requires
        args_fit(strs(args@)),
    ensures
        cli_res(r) == help_command_of(strs(args@), output_mode),
{
    if args.len() == 0 {
        return Ok(Cli { socket: None, output_mode, command: Command::Help(HelpTopic::General) });
    }
    if args.len() > 1 {
        return Err(String::from_str("help takes at most one topic"));
    }
    assert(args@[0]@ == strs(args@)[0]);
    match parse_help_topic(args[0].as_str()) {
        Ok(topic) => Ok(Cli { socket: None, output_mode, command: Command::Help(topic) }),
        Err(e) => Err(e),
    }
}


// ---------------------------------------------------------------------------
// The whole command line.
// ---------------------------------------------------------------------------

/// What a command line means. The first argument is the program's name;
/// `--raw`/`--pretty` may stand anywhere; the next argument picks the command.
pub open spec fn cli_of(args: Seq<Seq<char>>) -> Result<CliView, Seq<char>> {
    if args.len() == 0 {
        parsed(None, OutputMode::Auto, CommandView::Help(HelpTopic::General))
    } else {
        match output_mode_split(args.drop_first()) {
            Err(e) => Err(e),
            Ok(ms) => {
                let mode = ms.0;
                let rest = ms.1;
                if rest.len() == 0 {
                    parsed(None, mode, CommandView::Help(HelpTopic::General))
                } else {
                    let cmd = rest[0];
                    let tail = rest.drop_first();
                    if cmd == "run"@ {
                        run_command_of(tail, mode)
                    } else if cmd == "set"@ {
                        set_command_of(tail, mode)
                    } else if cmd == "get"@ {
                        get_command_of(tail, mode)
                    } else if cmd == "status"@ {
                        status_command_of(tail, mode)
                    } else if cmd == "reset"@ {
                        reset_command_of(tail, mode)
                    } else if cmd == "outputs"@ {
                        outputs_command_of(tail, mode)
                    } else if cmd == "exclude"@ {
                        exclude_command_of(tail, mode)
                    } else if cmd == "stop"@ {
                        stop_command_of(tail, mode)
                    } else if cmd == "toggle"@ {
                        toggle_command_of(tail, mode)
                    } else if cmd == "service"@ {
                        service_command_of(tail, mode)
                    } else if cmd == "help"@ {
                        help_command_of(tail, mode)
                    } else if cmd == "--help"@ || cmd == "-h"@ {
                        parsed(None, mode, CommandView::Help(HelpTopic::General))
                    } else if cmd == "version"@ || cmd == "--version"@ || cmd == "-v"@ {
                        parsed(None, mode, CommandView::Version)
                    } else {
                        Err("unknown command: "@ + cmd + suggestion_text(cmd, command_words()) + "\n\n"@ + USAGE_GENERAL@)
                    }
                }
            },
        }
    }
}

/// Parses a command line; `args[0]` is the program's name.
pub fn parse_args(args: Vec<String>) -> (r: Result<Cli, String>)
    requires
        args_fit(strs(args@)),
    ensures
        cli_res(r) == cli_of(strs(args@)),
{
    let ghost orig = strs(args@);
    let mut args = args;
    if args.len() == 0 {
        return Ok(Cli { socket: None, output_mode: OutputMode::Auto, command: Command::Help(HelpTopic::General) });
    }
    let _program = args.remove(0);
    assert(strs(args@) =~= orig.drop_first());
    let output_mode = match extract_output_mode_arg(&mut args) {
        Ok(m) => m,
        Err(e) => {
            return Err(e);
        },
    };
    if args.len() == 0 {
        return Ok(Cli { socket: None, output_mode, command: Command::Help(HelpTopic::General) });
    }
    let ghost rest = strs(args@);
    let command = args.remove(0);
    assert(command@ == rest[0]);
    assert(strs(args@) =~= rest.drop_first());
    let c = command.as_str();
    if str_eq(c, "run") {
        parse_run(args, output_mode)
    } else if str_eq(c, "set") {
        parse_set(args, output_mode)
    } else if str_eq(c, "get") {
        parse_get(args, output_mode)
    } else if str_eq(c, "status") {
        parse_status(args, output_mode)
    } else if str_eq(c, "reset") {
        parse_reset(args, output_mode)
    } else if str_eq(c, "outputs") {
        parse_outputs(args, output_mode)
    } else if str_eq(c, "exclude") {
        parse_exclude(args, output_mode)
    } else if str_eq(c, "stop") {
        parse_stop(args, output_mode)
    } else if str_eq(c, "toggle") {
        parse_toggle(args, output_mode)
    } else if str_eq(c, "service") {
        parse_service(args, output_mode)
    } else if str_eq(c, "help") {
        parse_help(args, output_mode)
    } else if str_eq(c, "--help") || str_eq(c, "-h") {
        Ok(Cli { socket: None, output_mode, command: Command::Help(HelpTopic::General) })
    } else if str_eq(c, "version") || str_eq(c, "--version") || str_eq(c, "-v") {
        Ok(Cli { socket: None, output_mode, command: Command::Version })
    } else {
        let commands = command_list();
        let mut e = String::from_str("unknown command: ");
        e.append(c);
        let suffix = suggestion_suffix(c, commands.as_slice());
        e.append(suffix.as_str());
        e.append("\n\n");
        e.append(crate::cli::usage());
        Err(e)
    }
}

} // verus!
