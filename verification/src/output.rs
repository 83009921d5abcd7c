//! How a control command prints the daemon's answer: the raw line, or a
//! human-readable form of it.
use vstd::prelude::*;
use vstd::string::*;
use crate::args::join;
use crate::cli::{opt_str, strs, ControlRequest, OutputMode};
use crate::text::{
    fields, find_char, first_index_of, is_prefix, is_suffix, lemma_first_index_of, split_fields,
    split_whitespace, str_eq, strip_prefix, words,
};

verus! {

/// Whether the raw line is printed: always in raw mode, never in pretty mode,
/// and in automatic mode when standard output is not a terminal.
pub open spec fn raw_wanted(mode: OutputMode, stdout_is_tty: bool) -> bool {
    match mode {
        OutputMode::Raw => true,
        OutputMode::Pretty => false,
        OutputMode::Auto => !stdout_is_tty,
    }
}

/// Whether the raw line is printed.
pub fn resolved_raw(mode: OutputMode, stdout_is_tty: bool) -> (r: bool)
    ensures
        r == raw_wanted(mode, stdout_is_tty),
{
    match mode {
        OutputMode::Raw => true,
        OutputMode::Pretty => false,
        OutputMode::Auto => !stdout_is_tty,
    }
}

/// What follows the prefix `p` in `s`.
pub open spec fn after(p: Seq<char>, s: Seq<char>) -> Seq<char> {
    s.subrange(p.len() as int, s.len() as int)
}

/// `true` reads `on`, `false` reads `off`; anything else stays.
pub open spec fn on_off(v: Seq<char>) -> Seq<char> {
    if v == "true"@ {
        "on"@
    } else if v == "false"@ {
        "off"@
    } else {
        v
    }
}

/// One output in the list: its id, with ` (excluded)` for a trailing `*`.
pub open spec fn output_line(item: Seq<char>) -> Seq<char> {
    if is_suffix("*"@, item) {
        "- "@ + item.drop_last() + " (excluded)"@
    } else {
        "- "@ + item
    }
}

/// The readable form of an `outputs=` payload.
pub open spec fn outputs_text(v: Seq<char>) -> Seq<char> {
    if v == "-"@ {
        "Outputs: none"@
    } else {
        join(seq!["Outputs:"@] + fields(v, ',').map_values(|item: Seq<char>| output_line(item)), "\n"@)
    }
}

/// The readable form of an `excludes=` payload.
pub open spec fn excludes_text(v: Seq<char>) -> Seq<char> {
    if v == "-"@ || fields(v, ',').len() == 0 {
        "Excluded outputs: none"@
    } else {
        "Excluded outputs: "@ + join(fields(v, ','), ", "@)
    }
}

/// The values a `state=` payload gives, each the last one given for its key.
pub struct StateFields {
    pub temperature: Option<Seq<char>>,
    pub gamma: Option<Seq<char>>,
    pub identity: Option<Seq<char>>,
    pub backend: Option<Seq<char>>,
    pub excludes: Option<Seq<char>>,
}

pub open spec fn no_state_fields() -> StateFields {
    StateFields { temperature: None, gamma: None, identity: None, backend: None, excludes: None }
}

/// `acc` with the value of `key` set to `val`; other keys are ignored.
pub open spec fn set_state_field(acc: StateFields, key: Seq<char>, val: Seq<char>) -> StateFields {
    if key == "temperature"@ {
        StateFields { temperature: Some(val), ..acc }
    } else if key == "gamma"@ {
        StateFields { gamma: Some(val), ..acc }
    } else if key == "identity"@ {
        StateFields { identity: Some(val), ..acc }
    } else if key == "backend"@ {
        StateFields { backend: Some(val), ..acc }
    } else if key == "excludes"@ {
        StateFields { excludes: Some(val), ..acc }
    } else {
        acc
    }
}

/// Reads `key:value` tokens from the left; a token without `:` spoils the payload.
pub open spec fn state_scan(tokens: Seq<Seq<char>>, acc: StateFields) -> Option<StateFields>
    decreases tokens.len(),
{
    if tokens.len() == 0 {
        Some(acc)
    } else {
        let tok = tokens[0];
        match first_index_of(tok, ':') {
            None => None,
            Some(k) => state_scan(
                tokens.drop_first(),
                set_state_field(acc, tok.subrange(0, k), tok.subrange(k + 1, tok.len() as int)),
            ),
        }
    }
}

/// The readable list of excluded outputs in a state payload.
pub open spec fn excludes_label(e: Seq<char>) -> Seq<char> {
    if e == "-"@ {
        "none"@
    } else {
        join(fields(e, ','), ", "@)
    }
}

/// The readable form of a `state=` payload, where it names all five values.
pub open spec fn state_text(v: Seq<char>) -> Option<Seq<char>> {
    match state_scan(words(v), no_state_fields()) {
        Some(a) => match (a.temperature, a.gamma, a.identity, a.backend, a.excludes) {
            (Some(t), Some(g), Some(i), Some(b), Some(e)) => Some(
                "State:\nTemperature: "@ + t + " K\nGamma: "@ + g + "%\nIdentity: "@ + on_off(i)
                    + "\nBackend: "@ + b + "\nExcluded outputs: "@ + excludes_label(e),
            ),
            _ => None,
        },
        None => None,
    }
}

/// The readable form of a daemon answer; an answer of no known shape stays as it is.
pub open spec fn pretty_text(raw: Seq<char>) -> Seq<char> {
    if raw == "ok"@ {
        "Applied."@
    } else if is_prefix("ok temperature="@, raw) {
        "Temperature: "@ + after("ok temperature="@, raw) + " K"@
    } else if is_prefix("ok gamma="@, raw) {
        "Gamma: "@ + after("ok gamma="@, raw) + "%"@
    } else if is_prefix("ok identity="@, raw) {
        "Identity: "@ + on_off(after("ok identity="@, raw))
    } else if is_prefix("ok backend="@, raw) {
        "Backend: "@ + after("ok backend="@, raw)
    } else if is_prefix("ok outputs="@, raw) {
        outputs_text(after("ok outputs="@, raw))
    } else if is_prefix("ok excludes="@, raw) {
        excludes_text(after("ok excludes="@, raw))
    } else if is_prefix("ok state="@, raw) && state_text(after("ok state="@, raw)) is Some {
        state_text(after("ok state="@, raw))->0
    } else {
        raw
    }
}

/// What is printed for a daemon answer.
pub open spec fn rendered(raw: Seq<char>, mode: OutputMode, stdout_is_tty: bool) -> Seq<char> {
    if raw_wanted(mode, stdout_is_tty) {
        raw
    } else {
        pretty_text(raw)
    }
}

fn on_off_label(v: &str) -> (r: String)
    ensures
        r@ == on_off(v@),
{
    if str_eq(v, "true") {
        String::from_str("on")
    } else if str_eq(v, "false") {
        String::from_str("off")
    } else {
        v.to_owned()
    }
}

fn join_with(items: &Vec<String>, sep: &str) -> (r: String)
    ensures
        r@ == join(strs(items@), sep@),
{
    let ghost w = strs(items@);
    let mut out = String::new();
    let mut i: usize = 0;
    while i < items.len()
        invariant
            i <= items@.len(),
            w == strs(items@),
            out@ == join(w.subrange(0, i as int), sep@),
        decreases items@.len() - i,
    {
        let ghost next = w.subrange(0, i + 1);
        assert(next.drop_last() =~= w.subrange(0, i as int));
        if i > 0 {
            out.append(sep);
        } else {
            assert(out@ =~= Seq::<char>::empty());
        }
        out.append(items[i].as_str());
        assert(next.last() == items@[i as int]@);
        i = i + 1;
    }
    assert(w.subrange(0, w.len() as int) =~= w);
    out
}

/// `s.split(',')` without its empty pieces.
pub fn split_csv(value: &str) -> (r: Vec<String>)
    ensures
        strs(r@) == fields(value@, ','),
{
    split_fields(value, ',')
}

fn output_item_line(item: &str) -> (r: String)
    ensures
        r@ == output_line(item@),
{
    let n = item.unicode_len();
    proof {
        reveal_strlit("*");
        reveal_strlit("- ");
        reveal_strlit(" (excluded)");
    }
    if n > 0 && item.get_char(n - 1) == '*' {
        assert(item@.subrange(n - 1, n as int) =~= "*"@);
        let mut out = String::from_str("- ");
        out.append(item.substring_char(0, n - 1));
        out.append(" (excluded)");
        assert(item@.subrange(0, n - 1) =~= item@.drop_last());
        out
    } else {
        assert(!is_suffix("*"@, item@)) by {
            if n > 0 {
                assert(item@.subrange(n - 1, n as int)[0] == item@[n - 1]);
            }
        }
        let mut out = String::from_str("- ");
        out.append(item);
        out
    }
}

/// The readable form of an `outputs=` payload.
pub fn format_outputs(value: &str) -> (r: String)
    ensures
        r@ == outputs_text(value@),
{
    if str_eq(value, "-") {
        return String::from_str("Outputs: none");
    }
    let items = split_csv(value);
    let ghost its = strs(items@);
    let mut lines: Vec<String> = Vec::new();
    lines.push(String::from_str("Outputs:"));
    let mut i: usize = 0;
    while i < items.len()
        invariant
            i <= items@.len(),
            its == strs(items@),
            strs(lines@) == seq!["Outputs:"@] + its.subrange(0, i as int).map_values(|item: Seq<char>| output_line(item)),
        decreases items@.len() - i,
    {
        let line = output_item_line(items[i].as_str());
        let ghost before = strs(lines@);
        lines.push(line);
        assert(its.subrange(0, i + 1).map_values(|item: Seq<char>| output_line(item)) =~= its.subrange(0, i as int).map_values(
            |item: Seq<char>| output_line(item),
        ).push(output_line(its[i as int])));
        assert(strs(lines@) =~= before.push(output_line(its[i as int])));
        i = i + 1;
    }
    assert(its.subrange(0, its.len() as int) =~= its);
    join_with(&lines, "\n")
}

/// The readable form of an `excludes=` payload.
pub fn format_excludes(value: &str) -> (r: String)
    ensures
        r@ == excludes_text(value@),
{
    if str_eq(value, "-") {
        return String::from_str("Excluded outputs: none");
    }
    let values = split_csv(value);
    if values.len() == 0 {
        String::from_str("Excluded outputs: none")
    } else {
        let mut out = String::from_str("Excluded outputs: ");
        let joined = join_with(&values, ", ");
        out.append(joined.as_str());
        out
    }
}

/// The readable form of a `state=` payload, where it names all five values.
pub fn format_state(value: &str) -> (r: Option<String>)
    ensures
        opt_str(r) == state_text(value@),
{
    let tokens = split_whitespace(value);
    let ghost toks = tokens@.map_values(|w: String| w@);
    let mut temperature: Option<String> = None;
    let mut gamma: Option<String> = None;
    let mut identity: Option<String> = None;
    let mut backend: Option<String> = None;
    let mut excludes: Option<String> = None;
    let mut i: usize = 0;
    assert(toks.subrange(0, toks.len() as int) =~= toks);
    while i < tokens.len()
        invariant
            i <= tokens@.len(),
            toks == tokens@.map_values(|w: String| w@),
            toks == words(value@),
            state_scan(toks, no_state_fields()) == state_scan(
                toks.subrange(i as int, toks.len() as int),
                StateFields {
                    temperature: opt_str(temperature),
                    gamma: opt_str(gamma),
                    identity: opt_str(identity),
                    backend: opt_str(backend),
                    excludes: opt_str(excludes),
                },
            ),
        decreases tokens@.len() - i,
    {
        let token = tokens[i].as_str();
        let ghost rest = toks.subrange(i as int, toks.len() as int);
        assert(rest[0] == token@);
        assert(rest.drop_first() =~= toks.subrange(i + 1, toks.len() as int));
        let n = token.unicode_len();
        let k = match find_char(token, ':') {
            Some(k) => k,
            None => {
                return None;
            },
        };
        proof {
            lemma_first_index_of(token@, ':', k as int);
        }
        let key = token.substring_char(0, k);
        let val = token.substring_char(k + 1, n);
        let owned_val = val.to_owned();
        if str_eq(key, "temperature") {
            temperature = Some(owned_val);
        } else if str_eq(key, "gamma") {
            gamma = Some(owned_val);
        } else if str_eq(key, "identity") {
            identity = Some(owned_val);
        } else if str_eq(key, "backend") {
            backend = Some(owned_val);
        } else if str_eq(key, "excludes") {
            excludes = Some(owned_val);
        }
        i = i + 1;
    }
    assert(toks.subrange(toks.len() as int, toks.len() as int) =~= Seq::<Seq<char>>::empty());
    match (temperature, gamma, identity, backend, excludes) {
        (Some(t), Some(g), Some(id), Some(b), Some(e)) => {
            let mut out = String::from_str("State:\nTemperature: ");
            out.append(t.as_str());
            out.append(" K\nGamma: ");
            out.append(g.as_str());
            out.append("%\nIdentity: ");
            let label = on_off_label(id.as_str());
            out.append(label.as_str());
            out.append("\nBackend: ");
            out.append(b.as_str());
            out.append("\nExcluded outputs: ");
            if str_eq(e.as_str(), "-") {
                out.append("none");
            } else {
                let parts = split_csv(e.as_str());
                let joined = join_with(&parts, ", ");
                out.append(joined.as_str());
            }
            Some(out)
        },
        _ => None,
    }
}

/// What a control command prints for the daemon's answer `raw_response`.
pub fn render_response(_request: &ControlRequest, raw_response: &str, mode: OutputMode, stdout_is_tty: bool) -> (r: String)
    ensures
        r@ == rendered(raw_response@, mode, stdout_is_tty),
{
    if resolved_raw(mode, stdout_is_tty) {
        return raw_response.to_owned();
    }
    if str_eq(raw_response, "ok") {
        return String::from_str("Applied.");
    }
    if let Some(value) = strip_prefix(raw_response, "ok temperature=") {
        let mut out = String::from_str("Temperature: ");
        out.append(value);
        out.append(" K");
        return out;
    }
    if let Some(value) = strip_prefix(raw_response, "ok gamma=") {
        let mut out = String::from_str("Gamma: ");
        out.append(value);
        out.append("%");
        return out;
    }
    if let Some(value) = strip_prefix(raw_response, "ok identity=") {
        let mut out = String::from_str("Identity: ");
        let label = on_off_label(value);
        out.append(label.as_str());
        return out;
    }
    if let Some(value) = strip_prefix(raw_response, "ok backend=") {
        let mut out = String::from_str("Backend: ");
        out.append(value);
        return out;
    }
    if let Some(value) = strip_prefix(raw_response, "ok outputs=") {
        return format_outputs(value);
    }
    if let Some(value) = strip_prefix(raw_response, "ok excludes=") {
        return format_excludes(value);
    }
    if let Some(value) = strip_prefix(raw_response, "ok state=") {
        if let Some(pretty) = format_state(value) {
            return pretty;
        }
    }
    raw_response.to_owned()
}

} // verus!
