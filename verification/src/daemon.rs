//! The daemon's filter state, its outputs, and its answers to control requests.
use vstd::prelude::*;
use vstd::string::*;
use crate::args::join;
use crate::cli::{
    request_of_line, strs, ControlRequest, GammaChange, GetField, IdentityValue, Percent,
    RequestView, RunOptions, TemperatureChange, DEFAULT_GAMMA_MICROS, DEFAULT_TEMPERATURE_K,
};
use crate::num::{nat_digits, percent_text, write_nat, write_percent};
use crate::order::{
    insert_sorted, remove_sorted, sort_texts, sorted_insert, strictly_sorted, text_order,
};
use crate::text::str_eq;

verus! {

/// The lowest temperature the filter takes, in Kelvin.
pub const MIN_TEMPERATURE_K: u32 = 1000;

/// The highest temperature the filter takes, in Kelvin.
pub const MAX_TEMPERATURE_K: u32 = 20000;

/// The highest gamma the filter takes, in millionths of a percent (200 %).
pub const MAX_GAMMA_MICROS: i64 = 200_000_000;

/// The compositor protocol the daemon drives.
#[derive(Debug, Clone, Copy, PartialEq, Eq, Structural)]
pub enum BackendKind {
    HyprlandCtm,
    WlrGamma,
}

/// The name a backend is reported by.
pub open spec fn backend_name(b: BackendKind) -> Seq<char> {
    match b {
        BackendKind::HyprlandCtm => "hyprland-ctm"@,
        BackendKind::WlrGamma => "wlr-gamma"@,
    }
}

impl BackendKind {
    /// The name this backend is reported by.
    pub fn name(&self) -> (r: &'static str)
        ensures
            r@ == backend_name(*self),
    {
        match self {
            BackendKind::HyprlandCtm => "hyprland-ctm",
            BackendKind::WlrGamma => "wlr-gamma",
        }
    }
}

/// The backend the daemon picks: Hyprland's color-transform manager where the
/// compositor offers it, else the wlroots gamma-control manager.
pub open spec fn backend_choice(hyprland_ctm: bool, wlr_gamma: bool) -> Result<BackendKind, Seq<char>> {
    if hyprland_ctm {
        Ok(BackendKind::HyprlandCtm)
    } else if wlr_gamma {
        Ok(BackendKind::WlrGamma)
    } else {
        Err(no_backend_error())
    }
}

pub open spec fn no_backend_error() -> Seq<char> {
    "no supported color-control protocol found (need hyprland-ctm-control-v1 or zwlr_gamma_control_manager_v1)"@
}

/// Picks the backend from the managers the compositor announced.
pub fn select_backend(hyprland_ctm: bool, wlr_gamma: bool) -> (r: Result<BackendKind, String>)
    ensures
        match r {
            Ok(b) => backend_choice(hyprland_ctm, wlr_gamma) == Ok::<BackendKind, Seq<char>>(b),
            Err(e) => backend_choice(hyprland_ctm, wlr_gamma) == Err::<BackendKind, Seq<char>>(e@),
        },
{
    if hyprland_ctm {
        Ok(BackendKind::HyprlandCtm)
    } else if wlr_gamma {
        Ok(BackendKind::WlrGamma)
    } else {
        Err(String::from_str(
            "no supported color-control protocol found (need hyprland-ctm-control-v1 or zwlr_gamma_control_manager_v1)",
        ))
    }
}

pub open spec fn temperature_range_error() -> Seq<char> {
    "temperature must be in range 1000..=20000"@
}

pub open spec fn gamma_range_error() -> Seq<char> {
    "gamma must be in range 0..=200"@
}

/// A temperature the filter takes.
pub open spec fn temperature_in_range(t: int) -> bool {
    MIN_TEMPERATURE_K <= t <= MAX_TEMPERATURE_K
}

/// A gamma the filter takes, in millionths of a percent.
pub open spec fn gamma_in_range(g: int) -> bool {
    0 <= g <= MAX_GAMMA_MICROS
}

/// The temperature a change asks for, from the current one.
pub open spec fn temperature_target(current: u32, change: TemperatureChange) -> int {
    match change {
        TemperatureChange::Absolute(v) => v as int,
        TemperatureChange::Relative(d) => current + d,
    }
}

/// The gamma a change asks for, from the current one, in millionths of a percent.
pub open spec fn gamma_target(current: Percent, change: GammaChange) -> int {
    match change {
        GammaChange::Absolute(v) => v.micros as int,
        GammaChange::Relative(d) => current.micros + d.micros,
    }
}

/// Applies a temperature change; the result must lie in `1000..=20000`.
pub fn resolve_temperature(current: u32, change: TemperatureChange) -> (r: Result<u32, String>)
    ensures
        match r {
            Ok(t) => temperature_in_range(temperature_target(current, change)) && t == temperature_target(current, change),
            Err(e) => !temperature_in_range(temperature_target(current, change)) && e@ == temperature_range_error(),
        },
{
    let candidate: Option<i64> = match change {
        TemperatureChange::Absolute(value) => Some(value),
        TemperatureChange::Relative(delta) => (current as i64).checked_add(delta),
    };
    match candidate {
        Some(c) => {
            if 1000 <= c && c <= 20000 {
                Ok(c as u32)
            } else {
                Err(String::from_str("temperature must be in range 1000..=20000"))
            }
        },
        None => Err(String::from_str("temperature must be in range 1000..=20000")),
    }
}

/// Applies a gamma change; the result must lie in `0..=200` percent.
pub fn resolve_gamma(current: Percent, change: GammaChange) -> (r: Result<Percent, String>)
    ensures
        match r {
            Ok(g) => gamma_in_range(gamma_target(current, change)) && g.micros == gamma_target(current, change),
            Err(e) => !gamma_in_range(gamma_target(current, change)) && e@ == gamma_range_error(),
        },
{
    let candidate: Option<i64> = match change {
        GammaChange::Absolute(value) => Some(value.micros),
        GammaChange::Relative(delta) => current.micros.checked_add(delta.micros),
    };
    match candidate {
        Some(c) => {
            if 0 <= c && c <= MAX_GAMMA_MICROS {
                Ok(Percent { micros: c })
            } else {
                Err(String::from_str("gamma must be in range 0..=200"))
            }
        },
        None => Err(String::from_str("gamma must be in range 0..=200")),
    }
}

/// Checks a startup temperature.
pub fn validate_temperature(value: u32) -> (r: Result<(), String>)
    ensures
        match r {
            Ok(_) => temperature_in_range(value as int),
            Err(e) => !temperature_in_range(value as int) && e@ == temperature_range_error(),
        },
{
    if 1000 <= value && value <= 20000 {
        Ok(())
    } else {
        Err(String::from_str("temperature must be in range 1000..=20000"))
    }
}

/// Checks a startup gamma.
pub fn validate_gamma(value: Percent) -> (r: Result<(), String>)
    ensures
        match r {
            Ok(_) => gamma_in_range(value.micros as int),
            Err(e) => !gamma_in_range(value.micros as int) && e@ == gamma_range_error(),
        },
{
    if 0 <= value.micros && value.micros <= MAX_GAMMA_MICROS {
        Ok(())
    } else {
        Err(String::from_str("gamma must be in range 0..=200"))
    }
}

/// A percentage as the daemon reports it: six decimals at most, trailing
/// zeros and a trailing point dropped.
pub fn format_float(value: Percent) -> (r: String)
    ensures
        r@ == percent_text(value.micros as int),
{
    let mut out = String::new();
    write_percent(&mut out, value.micros);
    out
}

/// A list as the daemon reports it: its items joined by `,`, or `-` when it is empty.
pub open spec fn csv_text(values: Seq<Seq<char>>) -> Seq<char> {
    if values.len() == 0 {
        "-"@
    } else {
        join(values, ","@)
    }
}

/// Joins `values` as the daemon reports a list.
pub fn join_csv(values: Vec<String>) -> (r: String)
    ensures
        r@ == csv_text(strs(values@)),
{
    if values.len() == 0 {
        return String::from_str("-");
    }
    let ghost w = strs(values@);
    let mut out = String::new();
    let mut i: usize = 0;
    while i < values.len()
        invariant
            i <= values@.len(),
            w == strs(values@),
            out@ == join(w.subrange(0, i as int), ","@),
        decreases values@.len() - i,
    {
        let ghost next = w.subrange(0, i + 1);
        assert(next.drop_last() =~= w.subrange(0, i as int));
        if i > 0 {
            out.append(",");
        } else {
            assert(out@ =~= Seq::<char>::empty());
        }
        out.append(values[i].as_str());
        assert(next.last() == values@[i as int]@);
        i = i + 1;
    }
    assert(w.subrange(0, w.len() as int) =~= w);
    out
}

/// The filter the daemon applies: temperature, gamma, identity, and the
/// outputs it leaves unfiltered.
pub struct FilterState {
    pub temperature_k: u32,
    pub gamma_pct: Percent,
    pub identity: bool,
    pub excluded_ids: Vec<String>,
}

/// [`FilterState`] with its strings taken as character sequences.
pub struct FilterView {
    pub temperature_k: u32,
    pub gamma_pct: Percent,
    pub identity: bool,
    pub excluded_ids: Seq<Seq<char>>,
}

impl View for FilterState {
    type V = FilterView;

    open spec fn view(&self) -> FilterView {
        FilterView {
            temperature_k: self.temperature_k,
            gamma_pct: self.gamma_pct,
            identity: self.identity,
            excluded_ids: strs(self.excluded_ids@),
        }
    }
}

/// The excluded ids in sorted order, each once, as a set of them is kept.
pub open spec fn sorted_ids(ids: Seq<Seq<char>>) -> Seq<Seq<char>>
    decreases ids.len(),
{
    if ids.len() == 0 {
        seq![]
    } else {
        sorted_insert(sorted_ids(ids.drop_last()), ids.last())
    }
}

/// The filter a run starts with.
pub open spec fn filter_from_options(o: crate::cli::RunOptionsView) -> FilterView {
    FilterView {
        temperature_k: o.temperature_k,
        gamma_pct: o.gamma_pct,
        identity: o.identity,
        excluded_ids: sorted_ids(o.excludes),
    }
}

/// The filter with temperature, gamma and identity back at their defaults;
/// the excluded outputs stay.
pub open spec fn reset_filter(f: FilterView) -> FilterView {
    FilterView {
        temperature_k: DEFAULT_TEMPERATURE_K,
        gamma_pct: Percent { micros: DEFAULT_GAMMA_MICROS },
        identity: false,
        excluded_ids: f.excluded_ids,
    }
}

impl FilterState {
    /// The excluded ids are kept in sorted order, each once.
    pub open spec fn wf(&self) -> bool {
        strictly_sorted(strs(self.excluded_ids@))
    }

    /// The filter a run starts with.
    pub fn from_run_options(options: &RunOptions) -> (r: Self)
        ensures
            r.wf(),
            r@ == filter_from_options(options@),
    {
        let mut ids: Vec<String> = Vec::new();
        let ghost all = strs(options.excludes@);
        let mut i: usize = 0;
        while i < options.excludes.len()
            invariant
                i <= options.excludes@.len(),
                all == strs(options.excludes@),
                strictly_sorted(strs(ids@)),
                strs(ids@) == sorted_ids(all.subrange(0, i as int)),
            decreases options.excludes@.len() - i,
        {
            let id = options.excludes[i].clone();
            assert(all.subrange(0, i + 1).drop_last() =~= all.subrange(0, i as int));
            insert_sorted(&mut ids, id);
            i = i + 1;
        }
        assert(all.subrange(0, all.len() as int) =~= all);
        FilterState {
            temperature_k: options.temperature_k,
            gamma_pct: options.gamma_pct,
            identity: options.identity,
            excluded_ids: ids,
        }
    }

    /// Puts temperature, gamma and identity back to their defaults.
    pub fn reset_to_defaults(&mut self)
        ensures
            final(self)@ == reset_filter(old(self)@),
            final(self).excluded_ids@ == old(self).excluded_ids@,
    {
        self.temperature_k = DEFAULT_TEMPERATURE_K;
        self.gamma_pct = Percent { micros: DEFAULT_GAMMA_MICROS };
        self.identity = false;
    }
}

/// An output the compositor announced.
pub struct OutputInfo {
    pub global_id: u32,
    pub name_opt: Option<String>,
    pub description_opt: Option<String>,
}

/// [`OutputInfo`] with its strings taken as character sequences.
pub struct OutputView {
    pub global_id: u32,
    pub name: Option<Seq<char>>,
    pub description: Option<Seq<char>>,
}

impl View for OutputInfo {
    type V = OutputView;

    open spec fn view(&self) -> OutputView {
        OutputView {
            global_id: self.global_id,
            name: crate::cli::opt_str(self.name_opt),
            description: crate::cli::opt_str(self.description_opt),
        }
    }
}

/// The id an output is known by when it has no name: `@` and its global id.
pub open spec fn global_id_text(id: u32) -> Seq<char> {
    "@"@ + nat_digits(id as nat)
}

/// The id an output is listed by: its name, or else its global id.
pub open spec fn primary_id_text(o: OutputView) -> Seq<char> {
    match o.name {
        Some(n) => n,
        None => global_id_text(o.global_id),
    }
}

/// Whether an output is excluded: by its global id, or by its name.
pub open spec fn output_excluded(o: OutputView, excluded: Seq<Seq<char>>) -> bool {
    excluded.contains(global_id_text(o.global_id)) || match o.name {
        Some(n) => excluded.contains(n),
        None => false,
    }
}

/// An output as `outputs list` shows it: its id, marked `*` when excluded.
pub open spec fn output_label(o: OutputView, excluded: Seq<Seq<char>>) -> Seq<char> {
    if output_excluded(o, excluded) {
        primary_id_text(o) + "*"@
    } else {
        primary_id_text(o)
    }
}

/// The views of a list of outputs.
pub open spec fn output_views(outputs: Seq<OutputInfo>) -> Seq<OutputView> {
    outputs.map_values(|o: OutputInfo| o@)
}

/// The labels of the outputs, in sorted order.
pub open spec fn output_list(outputs: Seq<OutputView>, excluded: Seq<Seq<char>>) -> Seq<Seq<char>> {
    outputs.map_values(|o: OutputView| output_label(o, excluded)).sort_by(text_order())
}

impl OutputInfo {
    /// An output just announced, with no name or description yet.
    pub fn new(global_id: u32) -> (r: Self)
        ensures
            r@ == (OutputView { global_id, name: None, description: None }),
    {
        OutputInfo { global_id, name_opt: None, description_opt: None }
    }

    /// The id this output is listed by.
    pub fn primary_id(&self) -> (r: String)
        ensures
            r@ == primary_id_text(self@),
    {
        match &self.name_opt {
            Some(name) => name.clone(),
            None => {
                let mut out = String::from_str("@");
                proof {
                    reveal_strlit("@");
                }
                write_nat(&mut out, self.global_id as u64);
                out
            },
        }
    }

    /// Whether this output is excluded by `excluded_ids`.
    pub fn is_excluded(&self, excluded_ids: &Vec<String>) -> (r: bool)
        ensures
            r == output_excluded(self@, strs(excluded_ids@)),
    {
        let mut at_id = String::from_str("@");
        proof {
            reveal_strlit("@");
        }
        write_nat(&mut at_id, self.global_id as u64);
        if contains_text(excluded_ids, at_id.as_str()) {
            return true;
        }
        match &self.name_opt {
            Some(name) => contains_text(excluded_ids, name.as_str()),
            None => false,
        }
    }
}

/// Whether `v` holds `x`.
fn contains_text(v: &Vec<String>, x: &str) -> (r: bool)
    ensures
        r == strs(v@).contains(x@),
{
    let mut i: usize = 0;
    while i < v.len()
        invariant
            i <= v@.len(),
            forall|j: int| 0 <= j < i ==> (#[trigger] v@[j])@ != x@,
        decreases v@.len() - i,
    {
        if str_eq(v[i].as_str(), x) {
            assert(strs(v@)[i as int] == x@);
            return true;
        }
        i = i + 1;
    }
    assert(!strs(v@).contains(x@)) by {
        if strs(v@).contains(x@) {
            let j = choose|j: int| 0 <= j < strs(v@).len() && strs(v@)[j] == x@;
            assert(v@[j]@ == x@);
        }
    }
    false
}

/// The outputs as `outputs list` reports them: their labels in sorted order.
pub fn list_outputs(outputs: &[OutputInfo], excluded_ids: &Vec<String>) -> (r: Vec<String>)
    ensures
        strs(r@) == output_list(output_views(outputs@), strs(excluded_ids@)),
{
    let ghost ex = strs(excluded_ids@);
    let ghost labels = output_views(outputs@).map_values(|o: OutputView| output_label(o, ex));
    let mut ids: Vec<String> = Vec::new();
    let mut i: usize = 0;
    while i < outputs.len()
        invariant
            i <= outputs@.len(),
            ex == strs(excluded_ids@),
            labels == output_views(outputs@).map_values(|o: OutputView| output_label(o, ex)),
            strs(ids@) == labels.subrange(0, i as int),
        decreases outputs@.len() - i,
    {
        let output = &outputs[i];
        let mut id = output.primary_id();
        if output.is_excluded(excluded_ids) {
            id.append("*");
            proof {
                reveal_strlit("*");
            }
        }
        assert(id@ == output_label(output@, ex));
        assert(output_views(outputs@)[i as int] == output@);
        assert(labels[i as int] == output_label(output@, ex));
        let ghost before = strs(ids@);
        ids.push(id);
        assert(strs(ids@) =~= before.push(labels[i as int]));
        assert(strs(ids@) =~= labels.subrange(0, i + 1));
        i = i + 1;
    }
    assert(labels.subrange(0, labels.len() as int) =~= labels);
    sort_texts(ids)
}

/// What the daemon makes of a request: the filter after it, the one-line
/// answer, whether the daemon stops, and whether the filter is applied again.
pub struct Outcome {
    pub filter: FilterView,
    pub response: Seq<char>,
    pub should_stop: bool,
    pub needs_apply: bool,
}

/// An answer that leaves the filter as it is.
pub open spec fn answer(f: FilterView, response: Seq<char>) -> Outcome {
    Outcome { filter: f, response, should_stop: false, needs_apply: false }
}

/// A change to the filter, answered `ok` and applied.
pub open spec fn applied(f: FilterView) -> Outcome {
    Outcome { filter: f, response: "ok"@, should_stop: false, needs_apply: true }
}

/// `true` or `false`, as `Display` writes a `bool`.
pub open spec fn bool_text(b: bool) -> Seq<char> {
    if b {
        "true"@
    } else {
        "false"@
    }
}

/// The identity setting after an identity request.
pub open spec fn identity_after(current: bool, v: IdentityValue) -> bool {
    match v {
        IdentityValue::True => true,
        IdentityValue::False => false,
        IdentityValue::Toggle => !current,
    }
}

/// The answer to a `get` request.
pub open spec fn get_response(field: GetField, f: FilterView, b: BackendKind) -> Seq<char> {
    match field {
        GetField::Temperature => "ok temperature="@ + nat_digits(f.temperature_k as nat),
        GetField::Gamma => "ok gamma="@ + percent_text(f.gamma_pct.micros as int),
        GetField::Identity => "ok identity="@ + bool_text(f.identity),
        GetField::Backend => "ok backend="@ + backend_name(b),
        GetField::State => "ok state=temperature:"@ + nat_digits(f.temperature_k as nat) + " gamma:"@
            + percent_text(f.gamma_pct.micros as int) + " identity:"@ + bool_text(f.identity) + " backend:"@
            + backend_name(b) + " excludes:"@ + csv_text(f.excluded_ids),
    }
}

/// What the daemon makes of a request, given its filter, its outputs and its backend.
pub open spec fn request_outcome(r: RequestView, f: FilterView, outputs: Seq<OutputView>, b: BackendKind) -> Outcome {
    match r {
        RequestView::SetTemperature(c) => {
            let t = temperature_target(f.temperature_k, c);
            if temperature_in_range(t) {
                applied(FilterView { temperature_k: t as u32, gamma_pct: f.gamma_pct, identity: false, excluded_ids: f.excluded_ids })
            } else {
                answer(f, "error: "@ + temperature_range_error())
            }
        },
        RequestView::SetGamma(c) => {
            let g = gamma_target(f.gamma_pct, c);
            if gamma_in_range(g) {
                applied(FilterView { temperature_k: f.temperature_k, gamma_pct: Percent { micros: g as i64 }, identity: f.identity, excluded_ids: f.excluded_ids })
            } else {
                answer(f, "error: "@ + gamma_range_error())
            }
        },
        RequestView::SetIdentity(v) => applied(
            FilterView { temperature_k: f.temperature_k, gamma_pct: f.gamma_pct, identity: identity_after(f.identity, v), excluded_ids: f.excluded_ids },
        ),
        RequestView::Get(field) => answer(f, get_response(field, f, b)),
        RequestView::Reset => applied(reset_filter(f)),
        RequestView::OutputsList => answer(f, "ok outputs="@ + csv_text(output_list(outputs, f.excluded_ids))),
        RequestView::ExcludeAdd(id) => applied(
            FilterView { temperature_k: f.temperature_k, gamma_pct: f.gamma_pct, identity: f.identity, excluded_ids: sorted_insert(f.excluded_ids, id) },
        ),
        RequestView::ExcludeRemove(id) => applied(
            FilterView { temperature_k: f.temperature_k, gamma_pct: f.gamma_pct, identity: f.identity, excluded_ids: f.excluded_ids.remove_value(id) },
        ),
        RequestView::ExcludeList => answer(f, "ok excludes="@ + csv_text(f.excluded_ids)),
        RequestView::Stop => Outcome { filter: f, response: "ok"@, should_stop: true, needs_apply: false },
    }
}

/// What the daemon makes of a request line: a line that does not read as a
/// request is answered `error: ` and the reason, and changes nothing.
pub open spec fn line_outcome(line: Seq<char>, f: FilterView, outputs: Seq<OutputView>, b: BackendKind) -> Outcome {
    match request_of_line(line) {
        Ok(r) => request_outcome(r, f, outputs, b),
        Err(e) => answer(f, "error: "@ + e),
    }
}

/// The daemon's answer to one request.
pub struct RequestResult {
    pub response: String,
    pub should_stop: bool,
    pub needs_apply: bool,
}

/// The answer and flags of a result, with the filter they leave.
pub open spec fn result_outcome(r: RequestResult, f: FilterView) -> Outcome {
    Outcome { filter: f, response: r.response@, should_stop: r.should_stop, needs_apply: r.needs_apply }
}

fn ok_result(should_stop: bool, needs_apply: bool) -> (r: RequestResult)
    ensures
        r.response@ == "ok"@,
        r.should_stop == should_stop,
        r.needs_apply == needs_apply,
{
    RequestResult { response: String::from_str("ok"), should_stop, needs_apply }
}

fn error_result(reason: String) -> (r: RequestResult)
    ensures
        r.response@ == "error: "@ + reason@,
        !r.should_stop,
        !r.needs_apply,
{
    let mut response = String::from_str("error: ");
    response.append(reason.as_str());
    RequestResult { response, should_stop: false, needs_apply: false }
}

fn append_bool(out: &mut String, b: bool)
    ensures
        final(out)@ == old(out)@ + bool_text(b),
{
    if b {
        out.append("true");
    } else {
        out.append("false");
    }
}

/// The answer to a `get` request.
pub fn get_answer(field: GetField, filter: &FilterState, backend: BackendKind) -> (r: String)
    ensures
        r@ == get_response(field, filter@, backend),
{
    match field {
        GetField::Temperature => {
            let mut out = String::from_str("ok temperature=");
            write_nat(&mut out, filter.temperature_k as u64);
            out
        },
        GetField::Gamma => {
            let mut out = String::from_str("ok gamma=");
            write_percent(&mut out, filter.gamma_pct.micros);
            out
        },
        GetField::Identity => {
            let mut out = String::from_str("ok identity=");
            append_bool(&mut out, filter.identity);
            out
        },
        GetField::Backend => {
            let mut out = String::from_str("ok backend=");
            out.append(backend.name());
            out
        },
        GetField::State => {
            let mut out = String::from_str("ok state=temperature:");
            write_nat(&mut out, filter.temperature_k as u64);
            out.append(" gamma:");
            write_percent(&mut out, filter.gamma_pct.micros);
            out.append(" identity:");
            append_bool(&mut out, filter.identity);
            out.append(" backend:");
            out.append(backend.name());
            out.append(" excludes:");
            let ids = clone_texts(&filter.excluded_ids);
            let csv = join_csv(ids);
            out.append(csv.as_str());
            out
        },
    }
}

fn clone_texts(v: &Vec<String>) -> (r: Vec<String>)
    ensures
        strs(r@) == strs(v@),
{
    let mut out: Vec<String> = Vec::new();
    let mut i: usize = 0;
    while i < v.len()
        invariant
            i <= v@.len(),
            strs(out@) == strs(v@).subrange(0, i as int),
        decreases v@.len() - i,
    {
        let ghost before = strs(out@);
        let item = v[i].clone();
        assert(item@ == strs(v@)[i as int]);
        out.push(item);
        assert(strs(out@) =~= before.push(strs(v@)[i as int]));
        assert(strs(out@) =~= strs(v@).subrange(0, i + 1));
        i = i + 1;
    }
    assert(strs(v@).subrange(0, v@.len() as int) =~= strs(v@));
    out
}

/// Answers one request line, changing the filter as it asks.
pub fn handle_request(line: &str, filter: &mut FilterState, outputs: &[OutputInfo], backend: BackendKind) -> (r: RequestResult)
    requires
        old(filter).wf(),
        line@.len() < usize::MAX,
    ensures
        final(filter).wf(),
        result_outcome(r, final(filter)@) == line_outcome(line@, old(filter)@, output_views(outputs@), backend),
{
    let parsed = match ControlRequest::from_wire(line) {
        Ok(req) => req,
        Err(err) => {
            return error_result(err);
        },
    };
    match parsed {
        ControlRequest::SetTemperature(change) => match resolve_temperature(filter.temperature_k, change) {
            Ok(new_temp) => {
                filter.temperature_k = new_temp;
                filter.identity = false;
                ok_result(false, true)
            },
            Err(err) => error_result(err),
        },
        ControlRequest::SetGamma(change) => match resolve_gamma(filter.gamma_pct, change) {
            Ok(new_gamma) => {
                filter.gamma_pct = new_gamma;
                ok_result(false, true)
            },
            Err(err) => error_result(err),
        },
        ControlRequest::SetIdentity(value) => {
            match value {
                IdentityValue::True => filter.identity = true,
                IdentityValue::False => filter.identity = false,
                IdentityValue::Toggle => filter.identity = !filter.identity,
            }
            ok_result(false, true)
        },
        ControlRequest::Get(field) => {
            let response = get_answer(field, filter, backend);
            RequestResult { response, should_stop: false, needs_apply: false }
        },
        ControlRequest::Reset => {
            filter.reset_to_defaults();
            ok_result(false, true)
        },
        ControlRequest::OutputsList => {
            let ids = list_outputs(outputs, &filter.excluded_ids);
            let mut response = String::from_str("ok outputs=");
            let csv = join_csv(ids);
            response.append(csv.as_str());
            RequestResult { response, should_stop: false, needs_apply: false }
        },
        ControlRequest::ExcludeAdd(id) => {
            insert_sorted(&mut filter.excluded_ids, id);
            ok_result(false, true)
        },
        ControlRequest::ExcludeRemove(id) => {
            remove_sorted(&mut filter.excluded_ids, id.as_str());
            ok_result(false, true)
        },
        ControlRequest::ExcludeList => {
            let ids = clone_texts(&filter.excluded_ids);
            let mut response = String::from_str("ok excludes=");
            let csv = join_csv(ids);
            response.append(csv.as_str());
            RequestResult { response, should_stop: false, needs_apply: false }
        },
        ControlRequest::Stop => ok_result(true, false),
    }
}

/// The answer sent back once the filter has been applied: an apply that
/// failed turns it into `error: apply failed: ` and the reason.
pub fn response_after_apply(response: String, apply: Result<(), String>) -> (r: String)
    ensures
        match apply {
            Ok(_) => r@ == response@,
            Err(e) => r@ == "error: apply failed: "@ + e@,
        },
{
    match apply {
        Ok(()) => response,
        Err(err) => {
            let mut out = String::from_str("error: apply failed: ");
            out.append(err.as_str());
            out
        },
    }
}

} // verus!
