//! What holds of every command line, and of how answers are printed.
use vstd::prelude::*;
use vstd::string::*;
use crate::args::{cli_of, control, get_field_of, output_mode_split, parsed};
use crate::cli::{default_run_options, CommandView, GetField, OutputMode, RequestView, RunOptionsView};
use crate::num::{lemma_nat_digits, lemma_u32_text_roundtrip, nat_digits, number_char};
use crate::output::{pretty_text, rendered};
use crate::roundtrip::{
    lemma_command_words_differ, lemma_command_words_plain, lemma_not_help, lemma_number_plain, lemma_plain_command_line,
    lemma_plain_if_no_dash, plain_word,
};

verus! {

/// The output mode a command line's flags select.
pub open spec fn selected_mode(args: Seq<Seq<char>>) -> OutputMode {
    if args.contains("--raw"@) {
        OutputMode::Raw
    } else if args.contains("--pretty"@) {
        OutputMode::Pretty
    } else {
        OutputMode::Auto
    }
}

/// `--raw` and `--pretty` together are refused, wherever they stand.
pub proof fn law_mode_flags_conflict(args: Seq<Seq<char>>)
    requires
        args.len() > 0,
        args.drop_first().contains("--raw"@),
        args.drop_first().contains("--pretty"@),
    ensures
        cli_of(args) == Err::<crate::cli::CliView, Seq<char>>("--raw and --pretty cannot be used together"@),
{
}

/// A command line that parses carries the mode its flags select, wherever
/// they stand.
pub proof fn law_mode_flag_anywhere(args: Seq<Seq<char>>)
    requires
        args.len() > 0,
        cli_of(args) is Ok,
    ensures
        cli_of(args)->Ok_0.output_mode == selected_mode(args.drop_first()),
{
    assert(output_mode_split(args.drop_first()) is Ok);
}

/// In raw mode, and in automatic mode when standard output is no terminal,
/// the daemon's answer is printed as it is; otherwise in its readable form.
pub proof fn law_raw_output_unchanged(raw: Seq<char>, mode: OutputMode, stdout_is_tty: bool)
    ensures
        (mode == OutputMode::Raw || (mode == OutputMode::Auto && !stdout_is_tty)) ==> rendered(raw, mode, stdout_is_tty) == raw,
        (mode == OutputMode::Pretty || (mode == OutputMode::Auto && stdout_is_tty)) ==> rendered(raw, mode, stdout_is_tty) == pretty_text(raw),
{
}

/// `get` with a word that names a field asks the daemon for that field.
proof fn lemma_get_word(v: Seq<char>)
    requires
        plain_word(v),
        v[0] != '-',
        get_field_of(v) is Some,
    ensures
        cli_of(seq!["nighterrors"@, "get"@, v]) == control(None, OutputMode::Auto, RequestView::Get(get_field_of(v)->Some_0)),
{
    lemma_command_words_differ();
    lemma_command_words_plain();
    lemma_not_help(v);
    lemma_plain_command_line("get"@, seq![v]);
    assert(seq!["nighterrors"@, "get"@] + seq![v] =~= seq!["nighterrors"@, "get"@, v]);
}

/// Each field of `get` is named by its word and by its short forms alike:
/// `temperature`, `temp` and `t` ask for the temperature; `gamma` and `g` for
/// the gamma; `identity` and `id` for identity; `backend` and `be` for the
/// backend; `state` and `status` for the whole state.
pub proof fn law_get_field_words()
    ensures
        cli_of(seq!["nighterrors"@, "get"@, "temperature"@]) == control(None, OutputMode::Auto, RequestView::Get(GetField::Temperature)),
        cli_of(seq!["nighterrors"@, "get"@, "temp"@]) == control(None, OutputMode::Auto, RequestView::Get(GetField::Temperature)),
        cli_of(seq!["nighterrors"@, "get"@, "t"@]) == control(None, OutputMode::Auto, RequestView::Get(GetField::Temperature)),
        cli_of(seq!["nighterrors"@, "get"@, "gamma"@]) == control(None, OutputMode::Auto, RequestView::Get(GetField::Gamma)),
        cli_of(seq!["nighterrors"@, "get"@, "g"@]) == control(None, OutputMode::Auto, RequestView::Get(GetField::Gamma)),
        cli_of(seq!["nighterrors"@, "get"@, "identity"@]) == control(None, OutputMode::Auto, RequestView::Get(GetField::Identity)),
        cli_of(seq!["nighterrors"@, "get"@, "id"@]) == control(None, OutputMode::Auto, RequestView::Get(GetField::Identity)),
        cli_of(seq!["nighterrors"@, "get"@, "backend"@]) == control(None, OutputMode::Auto, RequestView::Get(GetField::Backend)),
        cli_of(seq!["nighterrors"@, "get"@, "be"@]) == control(None, OutputMode::Auto, RequestView::Get(GetField::Backend)),
        cli_of(seq!["nighterrors"@, "get"@, "state"@]) == control(None, OutputMode::Auto, RequestView::Get(GetField::State)),
        cli_of(seq!["nighterrors"@, "get"@, "status"@]) == control(None, OutputMode::Auto, RequestView::Get(GetField::State)),
{
    reveal_strlit("temperature");
    reveal_strlit("temp");
    reveal_strlit("t");
    reveal_strlit("gamma");
    reveal_strlit("g");
    reveal_strlit("identity");
    reveal_strlit("id");
    reveal_strlit("backend");
    reveal_strlit("be");
    reveal_strlit("state");
    reveal_strlit("status");
    lemma_plain_if_no_dash("temperature"@);
    lemma_plain_if_no_dash("temp"@);
    lemma_plain_if_no_dash("t"@);
    lemma_plain_if_no_dash("gamma"@);
    lemma_plain_if_no_dash("g"@);
    lemma_plain_if_no_dash("identity"@);
    lemma_plain_if_no_dash("id"@);
    lemma_plain_if_no_dash("backend"@);
    lemma_plain_if_no_dash("be"@);
    lemma_plain_if_no_dash("state"@);
    lemma_plain_if_no_dash("status"@);
    lemma_get_word("temperature"@);
    lemma_get_word("temp"@);
    lemma_get_word("t"@);
    lemma_get_word("gamma"@);
    lemma_get_word("g"@);
    lemma_get_word("identity"@);
    lemma_get_word("id"@);
    lemma_get_word("backend"@);
    lemma_get_word("be"@);
    lemma_get_word("state"@);
    lemma_get_word("status"@);
}

/// `run` with a flag named `flag` and a number: the temperature flag sets
/// the starting temperature to that number and leaves the rest at its defaults.
proof fn lemma_run_temperature_word(flag: Seq<char>, n: u32)
    requires
        plain_word(flag),
        !flag.contains('='),
        crate::args::run_flag_of(flag) == Some(crate::args::RunFlagKind::Temperature),
    ensures
        cli_of(seq!["nighterrors"@, "run"@, flag, nat_digits(n as nat)])
            == parsed(None, OutputMode::Auto, CommandView::Run(RunOptionsView { temperature_k: n, ..default_run_options() })),
{
    let v = nat_digits(n as nat);
    lemma_nat_digits(n as nat);
    assert forall|i: int| 0 <= i < v.len() implies number_char(#[trigger] v[i]) by {
        assert(crate::num::is_digit(v[i]));
    }
    lemma_number_plain(v);
    lemma_u32_text_roundtrip(n);
    reveal_strlit("run");
    lemma_plain_if_no_dash("run"@);
    lemma_plain_command_line("run"@, seq![flag, v]);
    assert(seq!["nighterrors"@, "run"@] + seq![flag, v] =~= seq!["nighterrors"@, "run"@, flag, v]);
    reveal_strlit("--help");
    reveal_strlit("-h");
    assert(flag != "--help"@ || flag == "--help"@);
    assert(crate::text::first_index_of(flag, '=') is None);
    assert(crate::args::split_inline(flag) == (flag, None::<Seq<char>>));
    let tail = seq![flag, v];
    assert(!crate::args::help_only(tail));
    let opts = RunOptionsView { temperature_k: n, ..default_run_options() };
    assert(crate::args::run_scan(tail, 2, opts) == Ok::<RunOptionsView, Seq<char>>(opts));
    assert(crate::args::run_scan(tail, 0, default_run_options()) == Ok::<RunOptionsView, Seq<char>>(opts));
}

/// A flag of dashes and lower-case letters, of a length that none of the
/// flags taken out of every command line has, reaches the command's rules.
proof fn lemma_flag_plain(w: Seq<char>)
    requires
        w.len() > 0,
        w.len() != 5,
        w.len() != 8,
        forall|i: int| 0 <= i < w.len() ==> (#[trigger] w[i] == '-' || ('a' <= w[i] && w[i] <= 'z')),
    ensures
        plain_word(w),
        !w.contains('='),
{
    reveal_strlit("--raw");
    reveal_strlit("--pretty");
    reveal_strlit("--socket");
    assert forall|i: int| 0 <= i < w.len() implies !crate::text::is_space(#[trigger] w[i]) by {
        assert(w[i] == '-' || ('a' <= w[i] && w[i] <= 'z'));
    }
    if w.contains('=') {
        let i = choose|i: int| 0 <= i < w.len() && w[i] == '=';
        assert(w[i] == '-' || ('a' <= w[i] && w[i] <= 'z'));
    }
}

/// The starting temperature of `run` is given as `--temperature N`, as
/// `--temp N` or as `-t N`, alike: each starts the daemon at `N` kelvin with
/// every other option at its default.
#[verifier::rlimit(40)]
pub proof fn law_run_temperature_flags(n: u32)
    ensures
        cli_of(seq!["nighterrors"@, "run"@, "--temperature"@, nat_digits(n as nat)])
            == parsed(None, OutputMode::Auto, CommandView::Run(RunOptionsView { temperature_k: n, ..default_run_options() })),
        cli_of(seq!["nighterrors"@, "run"@, "--temp"@, nat_digits(n as nat)])
            == parsed(None, OutputMode::Auto, CommandView::Run(RunOptionsView { temperature_k: n, ..default_run_options() })),
        cli_of(seq!["nighterrors"@, "run"@, "-t"@, nat_digits(n as nat)])
            == parsed(None, OutputMode::Auto, CommandView::Run(RunOptionsView { temperature_k: n, ..default_run_options() })),
{
    let opts = RunOptionsView { temperature_k: n, ..default_run_options() };
    let v = nat_digits(n as nat);
    assert(cli_of(seq!["nighterrors"@, "run"@, "--temperature"@, v]) == parsed(None, OutputMode::Auto, CommandView::Run(opts))) by {
        reveal_strlit("--temperature");
        lemma_flag_plain("--temperature"@);
        lemma_run_temperature_word("--temperature"@, n);
    }
    assert(cli_of(seq!["nighterrors"@, "run"@, "--temp"@, v]) == parsed(None, OutputMode::Auto, CommandView::Run(opts))) by {
        reveal_strlit("--temp");
        reveal_strlit("--temperature");
        lemma_flag_plain("--temp"@);
        lemma_run_temperature_word("--temp"@, n);
    }
    assert(cli_of(seq!["nighterrors"@, "run"@, "-t"@, v]) == parsed(None, OutputMode::Auto, CommandView::Run(opts))) by {
        reveal_strlit("-t");
        reveal_strlit("--temperature");
        reveal_strlit("--temp");
        lemma_flag_plain("-t"@);
        lemma_run_temperature_word("-t"@, n);
    }
}

} // verus!
