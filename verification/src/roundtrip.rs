//! The daemon reads back every request in the form the client writes it.
use vstd::prelude::*;
use vstd::string::*;
use crate::args::{
    cli_of, control, exclude_command_of, gamma_change_of, get_command_of, mode_flag, output_mode_split, reset_command_of, socket_scan,
    stop_command_of, temperature_change_of, without_mode_flags,
};
use crate::cli::{
    request_of_line, wire_text, GammaChange, GetField, IdentityValue, OutputMode, RequestView,
    TemperatureChange,
};
use crate::num::{
    int_text, is_digit, lemma_i64_text_roundtrip, lemma_int_text_shape, lemma_percent_roundtrip,
    lemma_percent_text_shape, number_char, percent_text, signed_int_text, signed_percent_text,
};
use crate::text::{is_prefix, is_space, words, words_from};

verus! {

/// A word that reaches the parser unchanged: not empty, free of white space,
/// and none of the flags that the parser takes out of any command line.
pub open spec fn plain_word(w: Seq<char>) -> bool {
    &&& w.len() > 0
    &&& forall|i: int| 0 <= i < w.len() ==> !is_space(#[trigger] w[i])
    &&& w != "--raw"@
    &&& w != "--pretty"@
    &&& w != "--socket"@
}

/// The requests whose one-line form reads back as themselves: an absolute
/// value is not negative, a change is not `i64::MIN`, an output id is a plain word.
pub open spec fn wire_safe(r: RequestView) -> bool {
    match r {
        RequestView::SetTemperature(TemperatureChange::Absolute(v)) => v >= 0,
        RequestView::SetTemperature(TemperatureChange::Relative(v)) => v != i64::MIN,
        RequestView::SetGamma(GammaChange::Absolute(p)) => p.micros >= 0,
        RequestView::SetGamma(GammaChange::Relative(p)) => p.micros != i64::MIN,
        RequestView::ExcludeAdd(v) => plain_word(v),
        RequestView::ExcludeRemove(v) => plain_word(v),
        _ => true,
    }
}

proof fn lemma_words_word(t: Seq<char>, rest: Seq<char>, cur: Seq<char>)
    requires
        forall|i: int| 0 <= i < t.len() ==> !is_space(#[trigger] t[i]),
    ensures
        words_from(t + rest, cur) == words_from(rest, cur + t),
    decreases t.len(),
{
    if t.len() == 0 {
        assert(t + rest =~= rest);
        assert(cur + t =~= cur);
    } else {
        let s = t + rest;
        assert(s[0] == t[0]);
        assert(!is_space(t[0]));
        assert(s.drop_first() =~= t.drop_first() + rest);
        lemma_words_word(t.drop_first(), rest, cur.push(t[0]));
        assert(cur.push(t[0]) + t.drop_first() =~= cur + t);
    }
}

/// The words of a plain word followed by a space and more text.
proof fn lemma_words_cons(t: Seq<char>, rest: Seq<char>)
    requires
        plain_word(t),
    ensures
        words(t + seq![' '] + rest) == seq![t] + words(rest),
{
    lemma_words_word(t, seq![' '] + rest, seq![]);
    assert(t + seq![' '] + rest =~= t + (seq![' '] + rest));
    assert(Seq::<char>::empty() + t =~= t);
    let s = seq![' '] + rest;
    assert(s[0] == ' ');
    assert(is_space(' '));
    assert(s.drop_first() =~= rest);
}

/// The words of a single plain word.
proof fn lemma_words_single(t: Seq<char>)
    requires
        plain_word(t),
    ensures
        words(t) == seq![t],
{
    lemma_words_word(t, seq![], seq![]);
    assert(t + Seq::<char>::empty() =~= t);
    assert(Seq::<char>::empty() + t =~= t);
}

proof fn lemma_without_mode_flags_id(args: Seq<Seq<char>>)
    requires
        forall|i: int| 0 <= i < args.len() ==> plain_word(#[trigger] args[i]),
    ensures
        without_mode_flags(args) == args,
    decreases args.len(),
{
    if args.len() == 0 {
        assert(args =~= Seq::<Seq<char>>::empty());
    } else {
        let d = args.drop_last();
        assert forall|i: int| 0 <= i < d.len() implies plain_word(#[trigger] d[i]) by {
            assert(d[i] == args[i]);
        }
        lemma_without_mode_flags_id(d);
        assert(plain_word(args[args.len() - 1]));
        assert(mode_flag(args.last()) is None);
        assert(d.push(args.last()) =~= args);
    }
}

/// A list in which no word is a mode flag passes the mode scan unchanged.
pub(crate) proof fn lemma_no_mode_flags(args: Seq<Seq<char>>)
    requires
        forall|i: int| 0 <= i < args.len() ==> plain_word(#[trigger] args[i]),
    ensures
        output_mode_split(args) == Ok::<(OutputMode, Seq<Seq<char>>), Seq<char>>((OutputMode::Auto, args)),
{
    lemma_without_mode_flags_id(args);
    assert(!args.contains("--raw"@)) by {
        if args.contains("--raw"@) {
            let k = choose|k: int| 0 <= k < args.len() && args[k] == "--raw"@;
            assert(plain_word(args[k]));
        }
    }
    assert(!args.contains("--pretty"@)) by {
        if args.contains("--pretty"@) {
            let k = choose|k: int| 0 <= k < args.len() && args[k] == "--pretty"@;
            assert(plain_word(args[k]));
        }
    }
}

/// A list without `--socket` passes the socket scan unchanged.
pub(crate) proof fn lemma_no_socket(args: Seq<Seq<char>>)
    requires
        forall|i: int| 0 <= i < args.len() ==> plain_word(#[trigger] args[i]),
    ensures
        socket_scan(args, None) == Ok::<(Option<Seq<char>>, Seq<Seq<char>>), Seq<char>>((None, args)),
    decreases args.len(),
{
    if args.len() == 0 {
        assert(args =~= Seq::<Seq<char>>::empty());
    } else {
        assert(plain_word(args[0]));
        assert(args[0] != "--socket"@);
        let rest = args.drop_first();
        assert forall|i: int| 0 <= i < rest.len() implies plain_word(#[trigger] rest[i]) by {
            assert(rest[i] == args[i + 1]);
        }
        lemma_no_socket(rest);
        assert(socket_scan(rest, None) == Ok::<(Option<Seq<char>>, Seq<Seq<char>>), Seq<char>>((None, rest)));
        assert(seq![args[0]] + rest =~= args);
    }
}

/// Text that starts with a digit, or with one sign character and a digit, is
/// none of the flags (they all start with `--`).
proof fn lemma_number_not_flag(s: Seq<char>)
    requires
        s.len() > 0,
        is_digit(s[0]) || (s.len() > 1 && is_digit(s[1])),
    ensures
        s != "--raw"@,
        s != "--pretty"@,
        s != "--socket"@,
{
    reveal_strlit("--raw");
    reveal_strlit("--pretty");
    reveal_strlit("--socket");
    if s == "--raw"@ {
        assert(s[0] == '-' && s[1] == '-');
    }
    if s == "--pretty"@ {
        assert(s[0] == '-' && s[1] == '-');
    }
    if s == "--socket"@ {
        assert(s[0] == '-' && s[1] == '-');
    }
}


proof fn lemma_words3(a: Seq<char>, b: Seq<char>, c: Seq<char>)
    requires
        plain_word(a),
        plain_word(b),
        plain_word(c),
    ensures
        words(a + seq![' '] + b + seq![' '] + c) == seq![a, b, c],
{
    lemma_words_single(c);
    lemma_words_cons(b, c);
    assert(a + seq![' '] + b + seq![' '] + c =~= a + seq![' '] + (b + seq![' '] + c));
    lemma_words_cons(a, b + seq![' '] + c);
    assert(seq![a] + (seq![b] + seq![c]) =~= seq![a, b, c]);
}

proof fn lemma_words2(a: Seq<char>, b: Seq<char>)
    requires
        plain_word(a),
        plain_word(b),
    ensures
        words(a + seq![' '] + b) == seq![a, b],
{
    lemma_words_single(b);
    lemma_words_cons(a, b);
    assert(seq![a] + seq![b] =~= seq![a, b]);
}

/// A space-free word that does not start with `-` is plain.
pub(crate) proof fn lemma_plain_if_no_dash(w: Seq<char>)
    requires
        w.len() > 0,
        w[0] != '-',
        forall|i: int| 0 <= i < w.len() ==> !is_space(#[trigger] w[i]),
    ensures
        plain_word(w),
{
    reveal_strlit("--raw");
    reveal_strlit("--pretty");
    reveal_strlit("--socket");
    if w == "--raw"@ || w == "--pretty"@ || w == "--socket"@ {
        assert(w[0] == '-');
    }
}

/// A word that does not start with `-` is not a help flag.
pub(crate) proof fn lemma_not_help(w: Seq<char>)
    requires
        w.len() > 0,
        w[0] != '-',
    ensures
        w != "--help"@,
        w != "-h"@,
{
    reveal_strlit("--help");
    reveal_strlit("-h");
    if w == "--help"@ || w == "-h"@ {
        assert(w[0] == '-');
    }
}

/// The command words are plain words.
pub(crate) proof fn lemma_command_words_plain()
    ensures
        plain_word("set"@),
        plain_word("get"@),
        plain_word("reset"@),
        plain_word("outputs"@),
        plain_word("exclude"@),
        plain_word("stop"@),
        plain_word("temperature"@),
        plain_word("gamma"@),
        plain_word("identity"@),
        plain_word("backend"@),
        plain_word("state"@),
        plain_word("list"@),
        plain_word("add"@),
        plain_word("remove"@),
        plain_word("true"@),
        plain_word("false"@),
        plain_word("toggle"@),
{
    reveal_strlit("set");
    lemma_plain_if_no_dash("set"@);
    reveal_strlit("get");
    lemma_plain_if_no_dash("get"@);
    reveal_strlit("reset");
    lemma_plain_if_no_dash("reset"@);
    reveal_strlit("outputs");
    lemma_plain_if_no_dash("outputs"@);
    reveal_strlit("exclude");
    lemma_plain_if_no_dash("exclude"@);
    reveal_strlit("stop");
    lemma_plain_if_no_dash("stop"@);
    reveal_strlit("temperature");
    lemma_plain_if_no_dash("temperature"@);
    reveal_strlit("gamma");
    lemma_plain_if_no_dash("gamma"@);
    reveal_strlit("identity");
    lemma_plain_if_no_dash("identity"@);
    reveal_strlit("backend");
    lemma_plain_if_no_dash("backend"@);
    reveal_strlit("state");
    lemma_plain_if_no_dash("state"@);
    reveal_strlit("list");
    lemma_plain_if_no_dash("list"@);
    reveal_strlit("add");
    lemma_plain_if_no_dash("add"@);
    reveal_strlit("remove");
    lemma_plain_if_no_dash("remove"@);
    reveal_strlit("true");
    lemma_plain_if_no_dash("true"@);
    reveal_strlit("false");
    lemma_plain_if_no_dash("false"@);
    reveal_strlit("toggle");
    lemma_plain_if_no_dash("toggle"@);
}

/// Number text is a plain word.
pub(crate) proof fn lemma_number_plain(t: Seq<char>)
    requires
        t.len() > 0,
        forall|i: int| 0 <= i < t.len() ==> number_char(#[trigger] t[i]),
        is_digit(t[0]) || (t.len() > 1 && is_digit(t[1])),
    ensures
        plain_word(t),
{
    lemma_number_not_flag(t);
    assert forall|i: int| 0 <= i < t.len() implies !is_space(#[trigger] t[i]) by {
        assert(number_char(t[i]));
    }
}

/// Two texts differ where their lengths differ or where one position differs.
pub(crate) proof fn lemma_differ(a: Seq<char>, b: Seq<char>, i: int)
    requires
        a.len() != b.len() || (0 <= i < a.len() && i < b.len() && a[i] != b[i]),
    ensures
        a != b,
{
}

/// The command words differ from those the parser tries before them.
pub(crate) proof fn lemma_command_words_differ()
    ensures
        "set"@ != "run"@,
        "get"@ != "run"@,
        "get"@ != "set"@,
        "reset"@ != "run"@,
        "reset"@ != "set"@,
        "reset"@ != "get"@,
        "reset"@ != "status"@,
        "outputs"@ != "run"@,
        "outputs"@ != "set"@,
        "outputs"@ != "get"@,
        "outputs"@ != "status"@,
        "outputs"@ != "reset"@,
        "exclude"@ != "run"@,
        "exclude"@ != "set"@,
        "exclude"@ != "get"@,
        "exclude"@ != "status"@,
        "exclude"@ != "reset"@,
        "exclude"@ != "outputs"@,
        "stop"@ != "run"@,
        "stop"@ != "set"@,
        "stop"@ != "get"@,
        "stop"@ != "status"@,
        "stop"@ != "reset"@,
        "stop"@ != "outputs"@,
        "stop"@ != "exclude"@,
{
    reveal_strlit("set");
    reveal_strlit("run");
    reveal_strlit("get");
    reveal_strlit("reset");
    reveal_strlit("status");
    reveal_strlit("outputs");
    reveal_strlit("exclude");
    reveal_strlit("stop");
    lemma_differ("set"@, "run"@, 0);
    lemma_differ("get"@, "run"@, 0);
    lemma_differ("get"@, "set"@, 0);
    lemma_differ("reset"@, "run"@, 0);
    lemma_differ("reset"@, "set"@, 0);
    lemma_differ("reset"@, "get"@, 0);
    lemma_differ("reset"@, "status"@, 0);
    lemma_differ("outputs"@, "run"@, 0);
    lemma_differ("outputs"@, "set"@, 0);
    lemma_differ("outputs"@, "get"@, 0);
    lemma_differ("outputs"@, "status"@, 0);
    lemma_differ("outputs"@, "reset"@, 0);
    lemma_differ("exclude"@, "run"@, 0);
    lemma_differ("exclude"@, "set"@, 0);
    lemma_differ("exclude"@, "get"@, 0);
    lemma_differ("exclude"@, "status"@, 0);
    lemma_differ("exclude"@, "reset"@, 0);
    lemma_differ("exclude"@, "outputs"@, 0);
    lemma_differ("stop"@, "run"@, 0);
    lemma_differ("stop"@, "set"@, 0);
    lemma_differ("stop"@, "get"@, 0);
    lemma_differ("stop"@, "status"@, 0);
    lemma_differ("stop"@, "reset"@, 0);
    lemma_differ("stop"@, "outputs"@, 0);
    lemma_differ("stop"@, "exclude"@, 0);
}

/// The words the set, get and identity forms use differ from those tried before them.
proof fn lemma_value_words_differ()
    ensures
        "gamma"@ != "temperature"@,
        "gamma"@ != "temp"@,
        "gamma"@ != "t"@,
        "identity"@ != "temperature"@,
        "identity"@ != "temp"@,
        "identity"@ != "t"@,
        "identity"@ != "gamma"@,
        "identity"@ != "g"@,
        "backend"@ != "temperature"@,
        "backend"@ != "temp"@,
        "backend"@ != "t"@,
        "backend"@ != "gamma"@,
        "backend"@ != "g"@,
        "backend"@ != "identity"@,
        "backend"@ != "id"@,
        "state"@ != "temperature"@,
        "state"@ != "temp"@,
        "state"@ != "t"@,
        "state"@ != "gamma"@,
        "state"@ != "g"@,
        "state"@ != "identity"@,
        "state"@ != "id"@,
        "state"@ != "backend"@,
        "state"@ != "be"@,
        "false"@ != "true"@,
        "false"@ != "on"@,
        "false"@ != "1"@,
        "false"@ != "yes"@,
        "toggle"@ != "true"@,
        "toggle"@ != "on"@,
        "toggle"@ != "1"@,
        "toggle"@ != "yes"@,
        "toggle"@ != "false"@,
        "toggle"@ != "off"@,
        "toggle"@ != "0"@,
        "toggle"@ != "no"@,
        "remove"@ != "add"@,
        "list"@ != "add"@,
        "list"@ != "remove"@,
        "list"@ != "rm"@,
        "list"@ != "del"@,
{
    reveal_strlit("gamma");
    reveal_strlit("temperature");
    reveal_strlit("temp");
    reveal_strlit("t");
    reveal_strlit("identity");
    reveal_strlit("g");
    reveal_strlit("backend");
    reveal_strlit("id");
    reveal_strlit("state");
    reveal_strlit("be");
    reveal_strlit("false");
    reveal_strlit("true");
    reveal_strlit("on");
    reveal_strlit("1");
    reveal_strlit("yes");
    reveal_strlit("toggle");
    reveal_strlit("off");
    reveal_strlit("0");
    reveal_strlit("no");
    reveal_strlit("remove");
    reveal_strlit("add");
    reveal_strlit("list");
    reveal_strlit("rm");
    reveal_strlit("del");
    lemma_differ("gamma"@, "temperature"@, 0);
    lemma_differ("gamma"@, "temp"@, 0);
    lemma_differ("gamma"@, "t"@, 0);
    lemma_differ("identity"@, "temperature"@, 0);
    lemma_differ("identity"@, "temp"@, 0);
    lemma_differ("identity"@, "t"@, 0);
    lemma_differ("identity"@, "gamma"@, 0);
    lemma_differ("identity"@, "g"@, 0);
    lemma_differ("backend"@, "temperature"@, 0);
    lemma_differ("backend"@, "temp"@, 0);
    lemma_differ("backend"@, "t"@, 0);
    lemma_differ("backend"@, "gamma"@, 0);
    lemma_differ("backend"@, "g"@, 0);
    lemma_differ("backend"@, "identity"@, 0);
    lemma_differ("backend"@, "id"@, 0);
    lemma_differ("state"@, "temperature"@, 0);
    lemma_differ("state"@, "temp"@, 0);
    lemma_differ("state"@, "t"@, 0);
    lemma_differ("state"@, "gamma"@, 0);
    lemma_differ("state"@, "g"@, 0);
    lemma_differ("state"@, "identity"@, 0);
    lemma_differ("state"@, "id"@, 0);
    lemma_differ("state"@, "backend"@, 0);
    lemma_differ("state"@, "be"@, 0);
    lemma_differ("false"@, "true"@, 0);
    lemma_differ("false"@, "on"@, 0);
    lemma_differ("false"@, "1"@, 0);
    lemma_differ("false"@, "yes"@, 0);
    lemma_differ("toggle"@, "true"@, 0);
    lemma_differ("toggle"@, "on"@, 0);
    lemma_differ("toggle"@, "1"@, 0);
    lemma_differ("toggle"@, "yes"@, 0);
    lemma_differ("toggle"@, "false"@, 0);
    lemma_differ("toggle"@, "off"@, 0);
    lemma_differ("toggle"@, "0"@, 0);
    lemma_differ("toggle"@, "no"@, 0);
    lemma_differ("remove"@, "add"@, 0);
    lemma_differ("list"@, "add"@, 0);
    lemma_differ("list"@, "remove"@, 0);
    lemma_differ("list"@, "rm"@, 0);
    lemma_differ("list"@, "del"@, 0);
}

/// The text of a temperature change in a request line.
pub open spec fn temperature_word(c: TemperatureChange) -> Seq<char> {
    match c {
        TemperatureChange::Absolute(x) => int_text(x as int),
        TemperatureChange::Relative(x) => signed_int_text(x as int),
    }
}

/// The text of a gamma change in a request line.
pub open spec fn gamma_word(c: GammaChange) -> Seq<char> {
    match c {
        GammaChange::Absolute(p) => percent_text(p.micros as int),
        GammaChange::Relative(p) => signed_percent_text(p.micros as int),
    }
}

/// A temperature change reads back from its text.
proof fn lemma_temperature_word(c: TemperatureChange)
    requires
        wire_safe(RequestView::SetTemperature(c)),
    ensures
        plain_word(temperature_word(c)),
        temperature_change_of(temperature_word(c)) == Ok::<TemperatureChange, Seq<char>>(c),
{
    reveal_strlit("+");
    reveal_strlit("-");
    let v = temperature_word(c);
    match c {
        TemperatureChange::Absolute(x) => {
            lemma_int_text_shape(x as int);
            lemma_i64_text_roundtrip(x);
            assert(v.subrange(0, 1)[0] == v[0]);
            assert(!is_prefix("+"@, v));
            assert(!is_prefix("-"@, v));
        },
        TemperatureChange::Relative(x) => {
            if x >= 0 {
                lemma_int_text_shape(x as int);
                lemma_i64_text_roundtrip(x);
                assert(v.drop_first() =~= int_text(x as int));
                assert(v.subrange(0, 1) =~= "+"@);
            } else {
                let y = (-x) as i64;
                lemma_int_text_shape(y as int);
                lemma_i64_text_roundtrip(y);
                assert(v.drop_first() =~= int_text(y as int));
                assert(v.subrange(0, 1)[0] == v[0]);
                assert(!is_prefix("+"@, v));
                assert(v.subrange(0, 1) =~= "-"@);
            }
            assert forall|i: int| 0 <= i < v.len() implies number_char(#[trigger] v[i]) by {
                if i > 0 {
                    assert(v[i] == v.drop_first()[i - 1]);
                }
            }
        },
    }
    lemma_number_plain(v);
}

/// A gamma change reads back from its text.
proof fn lemma_gamma_word(c: GammaChange)
    requires
        wire_safe(RequestView::SetGamma(c)),
    ensures
        plain_word(gamma_word(c)),
        gamma_change_of(gamma_word(c)) == Ok::<GammaChange, Seq<char>>(c),
{
    reveal_strlit("+");
    reveal_strlit("-");
    let v = gamma_word(c);
    match c {
        GammaChange::Absolute(p) => {
            lemma_percent_text_shape(p.micros as int);
            lemma_percent_roundtrip(p.micros);
            assert(v.subrange(0, 1)[0] == v[0]);
            assert(!is_prefix("+"@, v));
            assert(!is_prefix("-"@, v));
        },
        GammaChange::Relative(p) => {
            if p.micros >= 0 {
                lemma_percent_text_shape(p.micros as int);
                lemma_percent_roundtrip(p.micros);
                assert(v.drop_first() =~= percent_text(p.micros as int));
                assert(v.subrange(0, 1) =~= "+"@);
                assert forall|i: int| 0 <= i < v.len() implies number_char(#[trigger] v[i]) by {
                    if i > 0 {
                        assert(v[i] == v.drop_first()[i - 1]);
                    }
                }
            } else {
                let y = (-p.micros) as i64;
                lemma_percent_text_shape(p.micros as int);
                lemma_percent_text_shape(y as int);
                lemma_percent_roundtrip(p.micros);
                lemma_percent_roundtrip(y);
                assert(v.drop_first() =~= percent_text(y as int));
                assert(v.subrange(0, 1)[0] == v[0]);
                assert(!is_prefix("+"@, v));
                assert(v.subrange(0, 1) =~= "-"@);
            }
        },
    }
    lemma_number_plain(v);
}

/// The request lines split into their words.
proof fn lemma_line_words()
    ensures
        "set temperature "@ =~= "set"@ + seq![' '] + "temperature"@ + seq![' '],
        "set gamma "@ =~= "set"@ + seq![' '] + "gamma"@ + seq![' '],
        "set identity true"@ =~= "set"@ + seq![' '] + "identity"@ + seq![' '] + "true"@,
        "set identity false"@ =~= "set"@ + seq![' '] + "identity"@ + seq![' '] + "false"@,
        "set identity toggle"@ =~= "set"@ + seq![' '] + "identity"@ + seq![' '] + "toggle"@,
        "get temperature"@ =~= "get"@ + seq![' '] + "temperature"@,
        "get gamma"@ =~= "get"@ + seq![' '] + "gamma"@,
        "get identity"@ =~= "get"@ + seq![' '] + "identity"@,
        "get backend"@ =~= "get"@ + seq![' '] + "backend"@,
        "get state"@ =~= "get"@ + seq![' '] + "state"@,
        "outputs list"@ =~= "outputs"@ + seq![' '] + "list"@,
        "exclude add "@ =~= "exclude"@ + seq![' '] + "add"@ + seq![' '],
        "exclude remove "@ =~= "exclude"@ + seq![' '] + "remove"@ + seq![' '],
        "exclude list"@ =~= "exclude"@ + seq![' '] + "list"@,
{
    reveal_strlit("set temperature ");
    reveal_strlit("set");
    reveal_strlit("temperature");
    reveal_strlit("set gamma ");
    reveal_strlit("gamma");
    reveal_strlit("set identity true");
    reveal_strlit("identity");
    reveal_strlit("true");
    reveal_strlit("set identity false");
    reveal_strlit("false");
    reveal_strlit("set identity toggle");
    reveal_strlit("toggle");
    reveal_strlit("get temperature");
    reveal_strlit("get");
    reveal_strlit("get gamma");
    reveal_strlit("get identity");
    reveal_strlit("get backend");
    reveal_strlit("backend");
    reveal_strlit("get state");
    reveal_strlit("state");
    reveal_strlit("outputs list");
    reveal_strlit("outputs");
    reveal_strlit("list");
    reveal_strlit("exclude add ");
    reveal_strlit("exclude");
    reveal_strlit("add");
    reveal_strlit("exclude remove ");
    reveal_strlit("remove");
    reveal_strlit("exclude list");
}

/// A command line of plain words: the parser reaches the command's own rules
/// with the mode `Auto` and no socket.
pub(crate) proof fn lemma_plain_command_line(cmd: Seq<char>, tail: Seq<Seq<char>>)
    requires
        plain_word(cmd),
        forall|i: int| 0 <= i < tail.len() ==> plain_word(#[trigger] tail[i]),
    ensures
        ({
            let args = seq!["nighterrors"@, cmd] + tail;
            &&& args.drop_first() == seq![cmd] + tail
            &&& output_mode_split(args.drop_first()) == Ok::<(OutputMode, Seq<Seq<char>>), Seq<char>>((OutputMode::Auto, seq![cmd] + tail))
            &&& (seq![cmd] + tail)[0] == cmd
            &&& (seq![cmd] + tail).drop_first() == tail
            &&& socket_scan(tail, None) == Ok::<(Option<Seq<char>>, Seq<Seq<char>>), Seq<char>>((None, tail))
        }),
{
    let args = seq!["nighterrors"@, cmd] + tail;
    let rest = seq![cmd] + tail;
    assert(args.drop_first() =~= rest);
    assert forall|i: int| 0 <= i < rest.len() implies plain_word(#[trigger] rest[i]) by {
        if i > 0 {
            assert(rest[i] == tail[i - 1]);
        }
    }
    lemma_no_mode_flags(rest);
    assert(rest.drop_first() =~= tail);
    lemma_no_socket(tail);
}

/// A temperature request reads back.
#[verifier::rlimit(40)]
proof fn lemma_roundtrip_set_temperature(c: TemperatureChange)
    requires
        wire_safe(RequestView::SetTemperature(c)),
    ensures
        request_of_line(wire_text(RequestView::SetTemperature(c))) == Ok::<RequestView, Seq<char>>(RequestView::SetTemperature(c)),
{
    lemma_command_words_plain();
    lemma_command_words_differ();
    lemma_value_words_differ();
    lemma_line_words();
    let line = wire_text(RequestView::SetTemperature(c));
    let v = temperature_word(c);
    assert(line =~= "set"@ + seq![' '] + "temperature"@ + seq![' '] + v);
    lemma_temperature_word(c);
    lemma_words3("set"@, "temperature"@, v);
    lemma_plain_command_line("set"@, seq!["temperature"@, v]);
    assert(seq!["nighterrors"@] + words(line) =~= seq!["nighterrors"@, "set"@] + seq!["temperature"@, v]);
}

/// A gamma request reads back.
#[verifier::rlimit(40)]
proof fn lemma_roundtrip_set_gamma(c: GammaChange)
    requires
        wire_safe(RequestView::SetGamma(c)),
    ensures
        request_of_line(wire_text(RequestView::SetGamma(c))) == Ok::<RequestView, Seq<char>>(RequestView::SetGamma(c)),
{
    lemma_command_words_plain();
    lemma_command_words_differ();
    lemma_value_words_differ();
    lemma_line_words();
    let line = wire_text(RequestView::SetGamma(c));
    let v = gamma_word(c);
    assert(line =~= "set"@ + seq![' '] + "gamma"@ + seq![' '] + v);
    lemma_gamma_word(c);
    lemma_words3("set"@, "gamma"@, v);
    lemma_plain_command_line("set"@, seq!["gamma"@, v]);
    assert(seq!["nighterrors"@] + words(line) =~= seq!["nighterrors"@, "set"@] + seq!["gamma"@, v]);
}

/// An identity request reads back.
#[verifier::rlimit(40)]
proof fn lemma_roundtrip_set_identity(x: IdentityValue)
    requires
        wire_safe(RequestView::SetIdentity(x)),
    ensures
        request_of_line(wire_text(RequestView::SetIdentity(x))) == Ok::<RequestView, Seq<char>>(RequestView::SetIdentity(x)),
{
    lemma_command_words_plain();
    lemma_command_words_differ();
    lemma_value_words_differ();
    lemma_line_words();
    let line = wire_text(RequestView::SetIdentity(x));
    reveal_strlit("set identity true");
    reveal_strlit("set identity false");
    reveal_strlit("set identity toggle");
    let v = match x {
        IdentityValue::True => "true"@,
        IdentityValue::False => "false"@,
        IdentityValue::Toggle => "toggle"@,
    };
    assert(line =~= "set"@ + seq![' '] + "identity"@ + seq![' '] + v);
    lemma_words3("set"@, "identity"@, v);
    lemma_plain_command_line("set"@, seq!["identity"@, v]);
    assert(seq!["nighterrors"@] + words(line) =~= seq!["nighterrors"@, "set"@] + seq!["identity"@, v]);
}

/// A `get` request reads back.
#[verifier::rlimit(40)]
proof fn lemma_roundtrip_get(f: GetField)
    requires
        wire_safe(RequestView::Get(f)),
    ensures
        request_of_line(wire_text(RequestView::Get(f))) == Ok::<RequestView, Seq<char>>(RequestView::Get(f)),
{
    lemma_command_words_plain();
    lemma_command_words_differ();
    lemma_value_words_differ();
    lemma_line_words();
    let line = wire_text(RequestView::Get(f));
    reveal_strlit("get temperature");
    reveal_strlit("get gamma");
    reveal_strlit("get identity");
    reveal_strlit("get backend");
    reveal_strlit("get state");
    let v = match f {
        GetField::Temperature => "temperature"@,
        GetField::Gamma => "gamma"@,
        GetField::Identity => "identity"@,
        GetField::Backend => "backend"@,
        GetField::State => "state"@,
    };
    assert(line =~= "get"@ + seq![' '] + v);
    reveal_strlit("temperature");
    reveal_strlit("gamma");
    reveal_strlit("identity");
    reveal_strlit("backend");
    reveal_strlit("state");
    lemma_not_help(v);
    lemma_words2("get"@, v);
    lemma_plain_command_line("get"@, seq![v]);
    assert(seq!["nighterrors"@] + words(line) =~= seq!["nighterrors"@, "get"@] + seq![v]);
    assert(get_command_of(seq![v], OutputMode::Auto) == control(None, OutputMode::Auto, RequestView::Get(f)));
}

/// `reset` reads back.
#[verifier::rlimit(40)]
proof fn lemma_roundtrip_reset()
    requires
        wire_safe(RequestView::Reset),
    ensures
        request_of_line(wire_text(RequestView::Reset)) == Ok::<RequestView, Seq<char>>(RequestView::Reset),
{
    lemma_command_words_plain();
    lemma_command_words_differ();
    lemma_value_words_differ();
    lemma_line_words();
    let line = wire_text(RequestView::Reset);
    reveal_strlit("reset");
    lemma_words_single("reset"@);
    lemma_plain_command_line("reset"@, seq![]);
    assert(seq!["nighterrors"@] + words(line) =~= seq!["nighterrors"@, "reset"@] + Seq::<Seq<char>>::empty());
    assert(seq!["nighterrors"@, "reset"@] + Seq::<Seq<char>>::empty() =~= seq!["nighterrors"@, "reset"@]);
    let args = seq!["nighterrors"@] + words(line);
    assert(args.drop_first() =~= seq!["reset"@]);
    assert(reset_command_of(Seq::<Seq<char>>::empty(), OutputMode::Auto) == control(None, OutputMode::Auto, RequestView::Reset));
    assert(cli_of(args) == control(None, OutputMode::Auto, RequestView::Reset));
}

/// `outputs list` reads back.
#[verifier::rlimit(40)]
proof fn lemma_roundtrip_outputs_list()
    requires
        wire_safe(RequestView::OutputsList),
    ensures
        request_of_line(wire_text(RequestView::OutputsList)) == Ok::<RequestView, Seq<char>>(RequestView::OutputsList),
{
    lemma_command_words_plain();
    lemma_command_words_differ();
    lemma_value_words_differ();
    lemma_line_words();
    let line = wire_text(RequestView::OutputsList);
    reveal_strlit("outputs list");
    assert(line =~= "outputs"@ + seq![' '] + "list"@);
    reveal_strlit("list");
    lemma_not_help("list"@);
    lemma_words2("outputs"@, "list"@);
    lemma_plain_command_line("outputs"@, seq!["list"@]);
    assert(seq!["nighterrors"@] + words(line) =~= seq!["nighterrors"@, "outputs"@] + seq!["list"@]);
}

/// `exclude add` reads back.
#[verifier::rlimit(40)]
proof fn lemma_roundtrip_exclude_add(v: Seq<char>)
    requires
        wire_safe(RequestView::ExcludeAdd(v)),
    ensures
        request_of_line(wire_text(RequestView::ExcludeAdd(v))) == Ok::<RequestView, Seq<char>>(RequestView::ExcludeAdd(v)),
{
    lemma_command_words_plain();
    lemma_command_words_differ();
    lemma_value_words_differ();
    lemma_line_words();
    let line = wire_text(RequestView::ExcludeAdd(v));
    reveal_strlit("exclude add ");
    assert(line =~= "exclude"@ + seq![' '] + "add"@ + seq![' '] + v);
    lemma_words3("exclude"@, "add"@, v);
    lemma_plain_command_line("exclude"@, seq!["add"@, v]);
    assert(seq!["nighterrors"@] + words(line) =~= seq!["nighterrors"@, "exclude"@] + seq!["add"@, v]);
    assert(exclude_command_of(seq!["add"@, v], OutputMode::Auto) == control(None, OutputMode::Auto, RequestView::ExcludeAdd(v)));
}

/// `exclude remove` reads back.
#[verifier::rlimit(40)]
proof fn lemma_roundtrip_exclude_remove(v: Seq<char>)
    requires
        wire_safe(RequestView::ExcludeRemove(v)),
    ensures
        request_of_line(wire_text(RequestView::ExcludeRemove(v))) == Ok::<RequestView, Seq<char>>(RequestView::ExcludeRemove(v)),
{
    lemma_command_words_plain();
    lemma_command_words_differ();
    lemma_value_words_differ();
    lemma_line_words();
    let line = wire_text(RequestView::ExcludeRemove(v));
    reveal_strlit("exclude remove ");
    assert(line =~= "exclude"@ + seq![' '] + "remove"@ + seq![' '] + v);
    lemma_words3("exclude"@, "remove"@, v);
    lemma_plain_command_line("exclude"@, seq!["remove"@, v]);
    assert(seq!["nighterrors"@] + words(line) =~= seq!["nighterrors"@, "exclude"@] + seq!["remove"@, v]);
    assert(exclude_command_of(seq!["remove"@, v], OutputMode::Auto) == control(None, OutputMode::Auto, RequestView::ExcludeRemove(v)));
}

/// `exclude list` reads back.
#[verifier::rlimit(40)]
proof fn lemma_roundtrip_exclude_list()
    requires
        wire_safe(RequestView::ExcludeList),
    ensures
        request_of_line(wire_text(RequestView::ExcludeList)) == Ok::<RequestView, Seq<char>>(RequestView::ExcludeList),
{
    lemma_command_words_plain();
    lemma_command_words_differ();
    lemma_value_words_differ();
    lemma_line_words();
    let line = wire_text(RequestView::ExcludeList);
    reveal_strlit("exclude list");
    assert(line =~= "exclude"@ + seq![' '] + "list"@);
    reveal_strlit("list");
    lemma_not_help("list"@);
    lemma_words2("exclude"@, "list"@);
    lemma_plain_command_line("exclude"@, seq!["list"@]);
    assert(seq!["nighterrors"@] + words(line) =~= seq!["nighterrors"@, "exclude"@] + seq!["list"@]);
}

/// `stop` reads back.
#[verifier::rlimit(40)]
proof fn lemma_roundtrip_stop()
    requires
        wire_safe(RequestView::Stop),
    ensures
        request_of_line(wire_text(RequestView::Stop)) == Ok::<RequestView, Seq<char>>(RequestView::Stop),
{
    lemma_command_words_plain();
    lemma_command_words_differ();
    lemma_value_words_differ();
    lemma_line_words();
    let line = wire_text(RequestView::Stop);
    reveal_strlit("stop");
    lemma_words_single("stop"@);
    lemma_plain_command_line("stop"@, seq![]);
    assert(seq!["nighterrors"@] + words(line) =~= seq!["nighterrors"@, "stop"@] + Seq::<Seq<char>>::empty());
    assert(seq!["nighterrors"@, "stop"@] + Seq::<Seq<char>>::empty() =~= seq!["nighterrors"@, "stop"@]);
    let args = seq!["nighterrors"@] + words(line);
    assert(words(line) == seq!["stop"@]);
    assert(args =~= seq!["nighterrors"@, "stop"@]);
    let rest = args.drop_first();
    assert(output_mode_split(rest) == Ok::<(OutputMode, Seq<Seq<char>>), Seq<char>>((OutputMode::Auto, seq!["stop"@])));
    assert(rest.len() == 1);
    assert(stop_command_of(Seq::<Seq<char>>::empty(), OutputMode::Auto) == control(None, OutputMode::Auto, RequestView::Stop));
    assert(cli_of(args) == control(None, OutputMode::Auto, RequestView::Stop));
}

/// The one-line form of a request reads back as the request itself.
pub proof fn lemma_wire_roundtrip(r: RequestView)
    requires
        wire_safe(r),
    ensures
        request_of_line(wire_text(r)) == Ok::<RequestView, Seq<char>>(r),
{
    match r {
        RequestView::SetTemperature(c) => lemma_roundtrip_set_temperature(c),
        RequestView::SetGamma(c) => lemma_roundtrip_set_gamma(c),
        RequestView::SetIdentity(x) => lemma_roundtrip_set_identity(x),
        RequestView::Get(f) => lemma_roundtrip_get(f),
        RequestView::Reset => lemma_roundtrip_reset(),
        RequestView::OutputsList => lemma_roundtrip_outputs_list(),
        RequestView::ExcludeAdd(v) => lemma_roundtrip_exclude_add(v),
        RequestView::ExcludeRemove(v) => lemma_roundtrip_exclude_remove(v),
        RequestView::ExcludeList => lemma_roundtrip_exclude_list(),
        RequestView::Stop => lemma_roundtrip_stop(),
    }
}

} // verus!
