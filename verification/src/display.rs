//! What the daemon knows of the compositor: the outputs, the color-control
//! managers and the gamma controls it holds, kept up to date from the
//! compositor's events; and what each apply of the filter sends to which output.
use vstd::prelude::*;
use vstd::string::*;
use crate::cli::strs;
use crate::daemon::{
    output_excluded, primary_id_text, BackendKind, FilterState, OutputInfo, OutputView,
};
use crate::num::nat_digits;
use crate::num::write_nat;
use crate::text::str_eq;

verus! {

/// The gamma control the daemon holds for one output, under the wlroots
/// gamma-control backend: the control itself, the size of gamma ramp the
/// compositor announced for it, and whether the compositor failed it.
pub struct WlrControlState<C> {
    pub control: C,
    pub gamma_size: Option<u32>,
    pub failed: bool,
}

impl<C> WlrControlState<C> {
    /// A control just created: no ramp size known yet, not failed.
    pub fn new(control: C) -> (r: Self)
        ensures
            r.control == control,
            r.gamma_size is None,
            !r.failed,
    {
        WlrControlState { control, gamma_size: None, failed: false }
    }
}

/// Whether a control takes a gamma ramp now, and of what size.
pub open spec fn ramp_size_of<C>(c: WlrControlState<C>) -> Result<u32, Seq<char>> {
    if c.failed {
        Err("wlr gamma control object is marked as failed"@)
    } else {
        match c.gamma_size {
            None => Err("gamma size has not been announced yet"@),
            Some(n) => if n < 2 {
                Err("invalid gamma ramp size "@ + nat_digits(n as nat) + ", expected at least 2"@)
            } else {
                Ok(n)
            },
        }
    }
}

/// The size of gamma ramp to send to a control, where it takes one.
pub fn ramp_size<C>(control: &WlrControlState<C>) -> (r: Result<u32, String>)
    ensures
        match r {
            Ok(n) => ramp_size_of(*control) == Ok::<u32, Seq<char>>(n),
            Err(e) => ramp_size_of(*control) == Err::<u32, Seq<char>>(e@),
        },
{
    if control.failed {
        return Err(String::from_str("wlr gamma control object is marked as failed"));
    }
    match control.gamma_size {
        None => Err(String::from_str("gamma size has not been announced yet")),
        Some(n) => {
            if n < 2 {
                let mut msg = String::from_str("invalid gamma ramp size ");
                write_nat(&mut msg, n as u64);
                msg.append(", expected at least 2");
                Err(msg)
            } else {
                Ok(n)
            }
        },
    }
}

// ---------------------------------------------------------------------------
// Lists kept in the order of their integer keys.
// ---------------------------------------------------------------------------

/// Each key is smaller than the next.
pub open spec fn keys_sorted(keys: Seq<u32>) -> bool {
    forall|i: int, j: int| 0 <= i < j < keys.len() ==> keys[i] < keys[j]
}

/// Where `k` goes in the sorted `keys`: after the keys smaller than it.
pub open spec fn key_pos(keys: Seq<u32>, k: u32) -> int
    decreases keys.len(),
{
    if keys.len() > 0 && keys[0] < k {
        1 + key_pos(keys.drop_first(), k)
    } else {
        0
    }
}

/// The index of `k` in the sorted `keys`, where it is there.
pub open spec fn key_index(keys: Seq<u32>, k: u32) -> Option<int> {
    let p = key_pos(keys, k);
    if p < keys.len() && keys[p] == k {
        Some(p)
    } else {
        None
    }
}

proof fn lemma_key_pos(keys: Seq<u32>, k: u32, i: int)
    requires
        0 <= i <= keys.len(),
        forall|j: int| 0 <= j < i ==> #[trigger] keys[j] < k,
        i == keys.len() || keys[i] >= k,
    ensures
        key_pos(keys, k) == i,
    decreases i,
{
    if i > 0 {
        lemma_key_pos(keys.drop_first(), k, i - 1);
    }
}

proof fn lemma_key_index(keys: Seq<u32>, k: u32)
    requires
        keys_sorted(keys),
    ensures
        0 <= key_pos(keys, k) <= keys.len(),
        forall|j: int| 0 <= j < key_pos(keys, k) ==> #[trigger] keys[j] < k,
        key_pos(keys, k) < keys.len() ==> keys[key_pos(keys, k)] >= k,
        key_index(keys, k) is None ==> !keys.contains(k),
        key_index(keys, k) matches Some(i) ==> keys[i] == k,
    decreases keys.len(),
{
    if keys.len() > 0 && keys[0] < k {
        let d = keys.drop_first();
        assert(keys_sorted(d)) by {
            assert forall|i: int, j: int| 0 <= i < j < d.len() implies d[i] < d[j] by {
                assert(keys[i + 1] < keys[j + 1]);
            }
        }
        lemma_key_index(d, k);
        assert forall|j: int| 0 <= j < key_pos(keys, k) implies #[trigger] keys[j] < k by {
            if j > 0 {
                assert(keys[j] == d[j - 1]);
            }
        }
    }
    let p = key_pos(keys, k);
    if key_index(keys, k) is None && keys.contains(k) {
        let w = choose|w: int| 0 <= w < keys.len() && keys[w] == k;
        if w < p {
            assert(keys[w] < k);
        } else if w > p {
            assert(keys[p] < keys[w]);
        }
    }
}

/// The global ids of a list of outputs.
pub open spec fn output_ids(s: Seq<OutputView>) -> Seq<u32> {
    s.map_values(|o: OutputView| o.global_id)
}

/// The output ids of a list of controls.
pub open spec fn control_ids(s: Seq<WlrControlState<u32>>) -> Seq<u32> {
    s.map_values(|c: WlrControlState<u32>| c.control)
}

/// The list of outputs with `o` in its place, replacing one of the same id.
pub open spec fn outputs_put(s: Seq<OutputView>, o: OutputView) -> Seq<OutputView> {
    match key_index(output_ids(s), o.global_id) {
        Some(i) => s.update(i, o),
        None => s.insert(key_pos(output_ids(s), o.global_id), o),
    }
}

/// The list of outputs without the one of id `id`.
pub open spec fn outputs_without(s: Seq<OutputView>, id: u32) -> Seq<OutputView> {
    match key_index(output_ids(s), id) {
        Some(i) => s.remove(i),
        None => s,
    }
}

/// The list of controls with `c` in its place, replacing one for the same output.
pub open spec fn controls_put(s: Seq<WlrControlState<u32>>, c: WlrControlState<u32>) -> Seq<WlrControlState<u32>> {
    match key_index(control_ids(s), c.control) {
        Some(i) => s.update(i, c),
        None => s.insert(key_pos(control_ids(s), c.control), c),
    }
}

/// The list of controls without the one for output `id`.
pub open spec fn controls_without(s: Seq<WlrControlState<u32>>, id: u32) -> Seq<WlrControlState<u32>> {
    match key_index(control_ids(s), id) {
        Some(i) => s.remove(i),
        None => s,
    }
}

proof fn lemma_keys_insert(keys: Seq<u32>, k: u32)
    requires
        keys_sorted(keys),
        key_index(keys, k) is None,
    ensures
        keys_sorted(keys.insert(key_pos(keys, k), k)),
{
    lemma_key_index(keys, k);
    let p = key_pos(keys, k);
    let t = keys.insert(p, k);
    assert forall|i: int, j: int| 0 <= i < j < t.len() implies t[i] < t[j] by {
        if j < p {
        } else if i < p && j == p {
        } else if i < p {
            assert(keys[i] < keys[j - 1]);
        } else if i == p {
            assert(keys[p] >= k);
            assert(keys[p] != k);
            if j - 1 > p {
                assert(keys[p] < keys[j - 1]);
            }
        } else {
            assert(keys[i - 1] < keys[j - 1]);
        }
    }
}

proof fn lemma_keys_remove(keys: Seq<u32>, i: int)
    requires
        keys_sorted(keys),
        0 <= i < keys.len(),
    ensures
        keys_sorted(keys.remove(i)),
{
    let t = keys.remove(i);
    assert forall|a: int, b: int| 0 <= a < b < t.len() implies t[a] < t[b] by {
        let a0 = if a < i { a } else { a + 1 };
        let b0 = if b < i { b } else { b + 1 };
        assert(keys[a0] < keys[b0]);
    }
}

// ---------------------------------------------------------------------------
// The compositor's state as the daemon sees it.
// ---------------------------------------------------------------------------

/// The interface name of an output global.
pub const OUTPUT_INTERFACE: &'static str = "wl_output";

/// The interface name of Hyprland's color-transform manager global.
pub const CTM_MANAGER_INTERFACE: &'static str = "hyprland_ctm_control_manager_v1";

/// The interface name of the wlroots gamma-control manager global.
pub const GAMMA_MANAGER_INTERFACE: &'static str = "zwlr_gamma_control_manager_v1";

/// What the daemon knows of the compositor. The outputs are kept in the order
/// of their global ids, each once, and so are the gamma controls, each named
/// by the global id of its output; the managers' objects and the protocol
/// objects of outputs and controls are held by the caller under those ids.
pub struct DisplayState {
    pub outputs: Vec<OutputInfo>,
    pub controls: Vec<WlrControlState<u32>>,
    pub hyprland_manager: bool,
    pub hyprland_blocked: bool,
    pub wlr_manager: bool,
    pub selected_backend: Option<BackendKind>,
    pub pending_reapply: bool,
}

/// [`DisplayState`] with its strings taken as character sequences.
pub struct DisplayView {
    pub outputs: Seq<OutputView>,
    pub controls: Seq<WlrControlState<u32>>,
    pub hyprland_manager: bool,
    pub hyprland_blocked: bool,
    pub wlr_manager: bool,
    pub selected_backend: Option<BackendKind>,
    pub pending_reapply: bool,
}

impl View for DisplayState {
    type V = DisplayView;

    open spec fn view(&self) -> DisplayView {
        DisplayView {
            outputs: crate::daemon::output_views(self.outputs@),
            controls: self.controls@,
            hyprland_manager: self.hyprland_manager,
            hyprland_blocked: self.hyprland_blocked,
            wlr_manager: self.wlr_manager,
            selected_backend: self.selected_backend,
            pending_reapply: self.pending_reapply,
        }
    }
}

/// Outputs and controls each in the order of their ids, each id once.
pub open spec fn display_wf(d: DisplayView) -> bool {
    keys_sorted(output_ids(d.outputs)) && keys_sorted(control_ids(d.controls))
}

/// A request the daemon sends to the compositor, naming objects by global id.
#[derive(Debug, Clone, Copy, PartialEq, Eq, Structural)]
pub enum DisplayAction {
    /// Bind the output global `name` at `version`.
    BindOutput { name: u32, version: u32 },
    /// Bind Hyprland's color-transform manager global `name` at `version`.
    BindCtmManager { name: u32, version: u32 },
    /// Bind the wlroots gamma-control manager global `name` at `version`.
    BindGammaManager { name: u32, version: u32 },
    /// Create a gamma control for the output of this global id.
    CreateControl(u32),
    /// Destroy the gamma control of the output of this global id.
    DestroyControl(u32),
}

/// A control just created for output `id`.
pub open spec fn fresh_control(id: u32) -> WlrControlState<u32> {
    WlrControlState { control: id, gamma_size: None, failed: false }
}

/// The ids of the outputs that have no control, in the order of the outputs.
pub open spec fn missing_controls(outputs: Seq<OutputView>, controls: Seq<WlrControlState<u32>>) -> Seq<u32>
    decreases outputs.len(),
{
    if outputs.len() == 0 {
        seq![]
    } else {
        missing_controls(outputs.drop_last(), controls) + (if control_ids(controls).contains(outputs.last().global_id) {
            seq![]
        } else {
            seq![outputs.last().global_id]
        })
    }
}

/// The controls with a fresh one put in for each id of `ids`, in turn.
pub open spec fn controls_put_all(controls: Seq<WlrControlState<u32>>, ids: Seq<u32>) -> Seq<WlrControlState<u32>>
    decreases ids.len(),
{
    if ids.len() == 0 {
        controls
    } else {
        controls_put(controls_put_all(controls, ids.drop_last()), fresh_control(ids.last()))
    }
}

/// Under the gamma-control backend with its manager bound, a control for
/// each output that has none, and the requests that create them.
pub open spec fn ensure_controls(d: DisplayView) -> (DisplayView, Seq<DisplayAction>) {
    if d.selected_backend == Some(BackendKind::WlrGamma) && d.wlr_manager {
        let missing = missing_controls(d.outputs, d.controls);
        (
            DisplayView { controls: controls_put_all(d.controls, missing), ..d },
            missing.map_values(|id: u32| DisplayAction::CreateControl(id)),
        )
    } else {
        (d, seq![])
    }
}

fn output_slot(outputs: &Vec<OutputInfo>, id: u32) -> (r: (usize, bool))
    requires
        keys_sorted(output_ids(crate::daemon::output_views(outputs@))),
    ensures
        r.0 == key_pos(output_ids(crate::daemon::output_views(outputs@)), id),
        r.1 == key_index(output_ids(crate::daemon::output_views(outputs@)), id) is Some,
{
    let ghost keys = output_ids(crate::daemon::output_views(outputs@));
    let mut i: usize = 0;
    while i < outputs.len() && outputs[i].global_id < id
        invariant
            i <= outputs@.len(),
            keys == output_ids(crate::daemon::output_views(outputs@)),
            keys.len() == outputs@.len(),
            forall|j: int| 0 <= j < i ==> #[trigger] keys[j] < id,
        decreases outputs@.len() - i,
    {
        assert(keys[i as int] == outputs@[i as int].global_id);
        i = i + 1;
    }
    proof {
        if i < outputs@.len() {
            assert(keys[i as int] == outputs@[i as int].global_id);
        }
        lemma_key_pos(keys, id, i as int);
    }
    let found = i < outputs.len() && outputs[i].global_id == id;
    proof {
        if i < outputs@.len() {
            assert(keys[i as int] == outputs@[i as int].global_id);
        }
    }
    (i, found)
}

fn control_slot(controls: &Vec<WlrControlState<u32>>, id: u32) -> (r: (usize, bool))
    requires
        keys_sorted(control_ids(controls@)),
    ensures
        r.0 == key_pos(control_ids(controls@), id),
        r.1 == key_index(control_ids(controls@), id) is Some,
{
    let ghost keys = control_ids(controls@);
    let mut i: usize = 0;
    while i < controls.len() && controls[i].control < id
        invariant
            i <= controls@.len(),
            keys == control_ids(controls@),
            keys.len() == controls@.len(),
            forall|j: int| 0 <= j < i ==> #[trigger] keys[j] < id,
        decreases controls@.len() - i,
    {
        assert(keys[i as int] == controls@[i as int].control);
        i = i + 1;
    }
    proof {
        if i < controls@.len() {
            assert(keys[i as int] == controls@[i as int].control);
        }
        lemma_key_pos(keys, id, i as int);
    }
    let found = i < controls.len() && controls[i].control == id;
    proof {
        if i < controls@.len() {
            assert(keys[i as int] == controls@[i as int].control);
        }
    }
    (i, found)
}

/// Puts `c` in its place among the controls.
fn put_control(controls: &mut Vec<WlrControlState<u32>>, c: WlrControlState<u32>)
    requires
        keys_sorted(control_ids(old(controls)@)),
    ensures
        keys_sorted(control_ids(final(controls)@)),
        final(controls)@ == controls_put(old(controls)@, c),
{
    let ghost s = controls@;
    let (pos, found) = control_slot(controls, c.control);
    if found {
        controls.set(pos, c);
        assert(control_ids(controls@) =~= control_ids(s));
    } else {
        proof {
            lemma_keys_insert(control_ids(s), c.control);
            lemma_key_index(control_ids(s), c.control);
        }
        controls.insert(pos, c);
        assert(control_ids(controls@) =~= control_ids(s).insert(pos as int, c.control));
    }
}

/// Takes the control of output `id` out, where there is one.
fn take_control(controls: &mut Vec<WlrControlState<u32>>, id: u32) -> (r: bool)
    requires
        keys_sorted(control_ids(old(controls)@)),
    ensures
        keys_sorted(control_ids(final(controls)@)),
        final(controls)@ == controls_without(old(controls)@, id),
        r == key_index(control_ids(old(controls)@), id) is Some,
{
    let ghost s = controls@;
    let (pos, found) = control_slot(controls, id);
    if found {
        proof {
            lemma_key_index(control_ids(s), id);
            lemma_keys_remove(control_ids(s), pos as int);
        }
        controls.remove(pos);
        assert(control_ids(controls@) =~= control_ids(s).remove(pos as int));
    }
    found
}

impl DisplayState {
    /// Nothing known yet.
    pub fn new() -> (r: Self)
        ensures
            display_wf(r@),
            r@.outputs.len() == 0,
            r@.controls.len() == 0,
            !r.hyprland_manager && !r.hyprland_blocked && !r.wlr_manager,
            r.selected_backend is None,
            !r.pending_reapply,
    {
        let r = DisplayState {
            outputs: Vec::new(),
            controls: Vec::new(),
            hyprland_manager: false,
            hyprland_blocked: false,
            wlr_manager: false,
            selected_backend: None,
            pending_reapply: false,
        };
        assert(output_ids(r@.outputs) =~= Seq::<u32>::empty());
        assert(control_ids(r@.controls) =~= Seq::<u32>::empty());
        r
    }

    /// Under the gamma-control backend with its manager bound, creates a
    /// control for each output that has none.
    pub fn ensure_wlr_controls(&mut self) -> (r: Vec<DisplayAction>)
        requires
            display_wf(old(self)@),
        ensures
            display_wf(final(self)@),
            (final(self)@, r@) == ensure_controls(old(self)@),
    {
        let ghost d = self@;
        if !(matches!(self.selected_backend, Some(BackendKind::WlrGamma)) && self.wlr_manager) {
            return Vec::new();
        }
        let ghost missing_all = missing_controls(d.outputs, d.controls);
        let mut missing: Vec<u32> = Vec::new();
        let mut i: usize = 0;
        while i < self.outputs.len()
            invariant
                i <= self.outputs@.len(),
                self@ == d,
                display_wf(d),
                missing@ == missing_controls(d.outputs.subrange(0, i as int), d.controls),
            decreases self.outputs@.len() - i,
        {
            let id = self.outputs[i].global_id;
            let (_, present) = control_slot(&self.controls, id);
            proof {
                lemma_key_index(control_ids(d.controls), id);
                assert(d.outputs.subrange(0, i + 1).drop_last() =~= d.outputs.subrange(0, i as int));
                assert(d.outputs.subrange(0, i + 1).last() == d.outputs[i as int]);
                if present {
                    let k = key_index(control_ids(d.controls), id)->0;
                    assert(control_ids(d.controls)[k] == id);
                }
            }
            if !present {
                missing.push(id);
            }
            proof {
                assert(missing@ =~= missing_controls(d.outputs.subrange(0, i + 1), d.controls));
            }
            i = i + 1;
        }
        assert(d.outputs.subrange(0, d.outputs.len() as int) =~= d.outputs);
        let mut actions: Vec<DisplayAction> = Vec::new();
        let mut j: usize = 0;
        while j < missing.len()
            invariant
                j <= missing@.len(),
                missing@ == missing_all,
                keys_sorted(control_ids(self.controls@)),
                self.controls@ == controls_put_all(d.controls, missing_all.subrange(0, j as int)),
                self@ == (DisplayView { controls: self.controls@, ..d }),
                actions@ == missing_all.subrange(0, j as int).map_values(|id: u32| DisplayAction::CreateControl(id)),
            decreases missing@.len() - j,
        {
            let id = missing[j];
            assert(missing_all.subrange(0, j + 1).drop_last() =~= missing_all.subrange(0, j as int));
            put_control(&mut self.controls, WlrControlState::new(id));
            actions.push(DisplayAction::CreateControl(id));
            assert(actions@ =~= missing_all.subrange(0, j + 1).map_values(|id: u32| DisplayAction::CreateControl(id)));
            j = j + 1;
        }
        assert(missing_all.subrange(0, missing_all.len() as int) =~= missing_all);
        actions
    }
}

/// An event from the compositor.
pub enum DisplayEvent {
    /// A global `name` of `interface` at `version` was announced.
    Global { name: u32, interface: String, version: u32 },
    /// The global `name` went away.
    GlobalRemove { name: u32 },
    /// The output of global id `global_id` is called `name`.
    OutputName { global_id: u32, name: String },
    /// The output of global id `global_id` is described as `description`.
    OutputDescription { global_id: u32, description: String },
    /// Another client holds Hyprland's color-transform manager.
    CtmBlocked,
    /// The gamma control of output `global_id` takes ramps of `size` entries.
    GammaSize { global_id: u32, size: u32 },
    /// The compositor failed the gamma control of output `global_id`.
    GammaFailed { global_id: u32 },
}

/// [`DisplayEvent`] with its strings taken as character sequences.
pub enum EventView {
    Global { name: u32, interface: Seq<char>, version: u32 },
    GlobalRemove { name: u32 },
    OutputName { global_id: u32, name: Seq<char> },
    OutputDescription { global_id: u32, description: Seq<char> },
    CtmBlocked,
    GammaSize { global_id: u32, size: u32 },
    GammaFailed { global_id: u32 },
}

impl View for DisplayEvent {
    type V = EventView;

    open spec fn view(&self) -> EventView {
        match self {
            DisplayEvent::Global { name, interface, version } => EventView::Global { name: *name, interface: interface@, version: *version },
            DisplayEvent::GlobalRemove { name } => EventView::GlobalRemove { name: *name },
            DisplayEvent::OutputName { global_id, name } => EventView::OutputName { global_id: *global_id, name: name@ },
            DisplayEvent::OutputDescription { global_id, description } => EventView::OutputDescription { global_id: *global_id, description: description@ },
            DisplayEvent::CtmBlocked => EventView::CtmBlocked,
            DisplayEvent::GammaSize { global_id, size } => EventView::GammaSize { global_id: *global_id, size: *size },
            DisplayEvent::GammaFailed { global_id } => EventView::GammaFailed { global_id: *global_id },
        }
    }
}

pub open spec fn min_u32(a: u32, b: u32) -> u32 {
    if a < b {
        a
    } else {
        b
    }
}

/// An output just announced.
pub open spec fn fresh_output(id: u32) -> OutputView {
    OutputView { global_id: id, name: None, description: None }
}

/// The state after an event, and the requests the daemon sends for it.
pub open spec fn display_step(d: DisplayView, e: EventView) -> (DisplayView, Seq<DisplayAction>) {
    match e {
        EventView::Global { name, interface, version } => {
            if interface == OUTPUT_INTERFACE@ {
                let added = DisplayView { outputs: outputs_put(d.outputs, fresh_output(name)), ..d };
                let ensured = ensure_controls(added);
                (
                    DisplayView { pending_reapply: true, ..ensured.0 },
                    seq![DisplayAction::BindOutput { name, version: min_u32(version, 4) }] + ensured.1,
                )
            } else if interface == CTM_MANAGER_INTERFACE@ {
                (DisplayView { hyprland_manager: true, ..d }, seq![DisplayAction::BindCtmManager { name, version: min_u32(version, 2) }])
            } else if interface == GAMMA_MANAGER_INTERFACE@ {
                (DisplayView { wlr_manager: true, ..d }, seq![DisplayAction::BindGammaManager { name, version: 1 }])
            } else {
                (d, seq![])
            }
        },
        EventView::GlobalRemove { name } => {
            let had_output = key_index(output_ids(d.outputs), name) is Some;
            let had_control = key_index(control_ids(d.controls), name) is Some;
            (
                DisplayView {
                    outputs: outputs_without(d.outputs, name),
                    controls: controls_without(d.controls, name),
                    pending_reapply: d.pending_reapply || had_output,
                    ..d
                },
                if had_control {
                    seq![DisplayAction::DestroyControl(name)]
                } else {
                    seq![]
                },
            )
        },
        EventView::OutputName { global_id, name } => match key_index(output_ids(d.outputs), global_id) {
            Some(i) => if d.outputs[i].name != Some(name) {
                (
                    DisplayView { outputs: d.outputs.update(i, OutputView { name: Some(name), ..d.outputs[i] }), pending_reapply: true, ..d },
                    seq![],
                )
            } else {
                (d, seq![])
            },
            None => (d, seq![]),
        },
        EventView::OutputDescription { global_id, description } => match key_index(output_ids(d.outputs), global_id) {
            Some(i) => (
                DisplayView { outputs: d.outputs.update(i, OutputView { description: Some(description), ..d.outputs[i] }), ..d },
                seq![],
            ),
            None => (d, seq![]),
        },
        EventView::CtmBlocked => (DisplayView { hyprland_blocked: true, ..d }, seq![]),
        EventView::GammaSize { global_id, size } => match key_index(control_ids(d.controls), global_id) {
            Some(i) => (
                DisplayView {
                    controls: d.controls.update(i, WlrControlState { control: global_id, gamma_size: Some(size), failed: false }),
                    pending_reapply: true,
                    ..d
                },
                seq![],
            ),
            None => (d, seq![]),
        },
        EventView::GammaFailed { global_id } => {
            let had_control = key_index(control_ids(d.controls), global_id) is Some;
            let removed = controls_without(d.controls, global_id);
            let recreate = d.wlr_manager && key_index(output_ids(d.outputs), global_id) is Some;
            (
                DisplayView {
                    controls: if recreate {
                        controls_put(removed, fresh_control(global_id))
                    } else {
                        removed
                    },
                    pending_reapply: true,
                    ..d
                },
                (if had_control {
                    seq![DisplayAction::DestroyControl(global_id)]
                } else {
                    seq![]
                }) + (if recreate {
                    seq![DisplayAction::CreateControl(global_id)]
                } else {
                    seq![]
                }),
            )
        },
    }
}

/// Puts `o` in its place among the outputs.
fn put_output(outputs: &mut Vec<OutputInfo>, o: OutputInfo)
    requires
        keys_sorted(output_ids(crate::daemon::output_views(old(outputs)@))),
    ensures
        keys_sorted(output_ids(crate::daemon::output_views(final(outputs)@))),
        crate::daemon::output_views(final(outputs)@) == outputs_put(crate::daemon::output_views(old(outputs)@), o@),
{
    let ghost s = crate::daemon::output_views(outputs@);
    let ghost ov = o@;
    let (pos, found) = output_slot(outputs, o.global_id);
    if found {
        outputs.set(pos, o);
        assert(crate::daemon::output_views(outputs@) =~= s.update(pos as int, ov));
        assert(output_ids(crate::daemon::output_views(outputs@)) =~= output_ids(s));
    } else {
        proof {
            lemma_keys_insert(output_ids(s), ov.global_id);
            lemma_key_index(output_ids(s), ov.global_id);
        }
        outputs.insert(pos, o);
        assert(crate::daemon::output_views(outputs@) =~= s.insert(pos as int, ov));
        assert(output_ids(crate::daemon::output_views(outputs@)) =~= output_ids(s).insert(pos as int, ov.global_id));
    }
}

/// Takes the output of id `id` out, where it is there.
fn take_output(outputs: &mut Vec<OutputInfo>, id: u32) -> (r: bool)
    requires
        keys_sorted(output_ids(crate::daemon::output_views(old(outputs)@))),
    ensures
        keys_sorted(output_ids(crate::daemon::output_views(final(outputs)@))),
        crate::daemon::output_views(final(outputs)@) == outputs_without(crate::daemon::output_views(old(outputs)@), id),
        r == key_index(output_ids(crate::daemon::output_views(old(outputs)@)), id) is Some,
{
    let ghost s = crate::daemon::output_views(outputs@);
    let (pos, found) = output_slot(outputs, id);
    if found {
        proof {
            lemma_key_index(output_ids(s), id);
            lemma_keys_remove(output_ids(s), pos as int);
        }
        outputs.remove(pos);
        assert(crate::daemon::output_views(outputs@) =~= s.remove(pos as int));
        assert(output_ids(crate::daemon::output_views(outputs@)) =~= output_ids(s).remove(pos as int));
    }
    found
}

fn same_name(current: &Option<String>, name: &str) -> (r: bool)
    ensures
        r == (crate::cli::opt_str(*current) == Some(name@)),
{
    match current {
        Some(n) => str_eq(n.as_str(), name),
        None => false,
    }
}

impl DisplayState {
    /// Takes in one event from the compositor.
    pub fn on_event(&mut self, event: DisplayEvent) -> (r: Vec<DisplayAction>)
        requires
            display_wf(old(self)@),
        ensures
            display_wf(final(self)@),
            (final(self)@, r@) == display_step(old(self)@, event@),
    {
        let ghost d = self@;
        let ghost ev = event@;
        match event {
            DisplayEvent::Global { name, interface, version } => {
                if str_eq(interface.as_str(), OUTPUT_INTERFACE) {
                    let bind = DisplayAction::BindOutput { name, version: if version < 4 { version } else { 4 } };
                    put_output(&mut self.outputs, OutputInfo::new(name));
                    let created = self.ensure_wlr_controls();
                    self.pending_reapply = true;
                    let mut actions: Vec<DisplayAction> = Vec::new();
                    actions.push(bind);
                    let mut k: usize = 0;
                    while k < created.len()
                        invariant
                            k <= created@.len(),
                            actions@ == seq![bind] + created@.subrange(0, k as int),
                        decreases created@.len() - k,
                    {
                        actions.push(created[k]);
                        assert(created@.subrange(0, k + 1) =~= created@.subrange(0, k as int).push(created@[k as int]));
                        assert(actions@ =~= seq![bind] + created@.subrange(0, k + 1));
                        k = k + 1;
                    }
                    assert(created@.subrange(0, created@.len() as int) =~= created@);
                    actions
                } else if str_eq(interface.as_str(), CTM_MANAGER_INTERFACE) {
                    self.hyprland_manager = true;
                    let mut actions: Vec<DisplayAction> = Vec::new();
                    actions.push(DisplayAction::BindCtmManager { name, version: if version < 2 { version } else { 2 } });
                    actions
                } else if str_eq(interface.as_str(), GAMMA_MANAGER_INTERFACE) {
                    self.wlr_manager = true;
                    let mut actions: Vec<DisplayAction> = Vec::new();
                    actions.push(DisplayAction::BindGammaManager { name, version: 1 });
                    actions
                } else {
                    Vec::new()
                }
            },
            DisplayEvent::GlobalRemove { name } => {
                if take_output(&mut self.outputs, name) {
                    self.pending_reapply = true;
                }
                let mut actions: Vec<DisplayAction> = Vec::new();
                if take_control(&mut self.controls, name) {
                    actions.push(DisplayAction::DestroyControl(name));
                }
                actions
            },
            DisplayEvent::OutputName { global_id, name } => {
                let (pos, found) = output_slot(&self.outputs, global_id);
                if found && !same_name(&self.outputs[pos].name_opt, name.as_str()) {
                    proof {
                        lemma_key_index(output_ids(d.outputs), global_id);
                    }
                    let ghost nv = name@;
                    let o = OutputInfo {
                        global_id: self.outputs[pos].global_id,
                        name_opt: Some(name),
                        description_opt: self.outputs[pos].description_opt.clone(),
                    };
                    self.outputs.set(pos, o);
                    self.pending_reapply = true;
                    assert(crate::daemon::output_views(self.outputs@) =~= d.outputs.update(
                        pos as int,
                        OutputView { name: Some(nv), ..d.outputs[pos as int] },
                    ));
                    assert(output_ids(crate::daemon::output_views(self.outputs@)) =~= output_ids(d.outputs));
                }
                Vec::new()
            },
            DisplayEvent::OutputDescription { global_id, description } => {
                let (pos, found) = output_slot(&self.outputs, global_id);
                if found {
                    proof {
                        lemma_key_index(output_ids(d.outputs), global_id);
                    }
                    let ghost dv = description@;
                    let o = OutputInfo {
                        global_id: self.outputs[pos].global_id,
                        name_opt: self.outputs[pos].name_opt.clone(),
                        description_opt: Some(description),
                    };
                    self.outputs.set(pos, o);
                    assert(crate::daemon::output_views(self.outputs@) =~= d.outputs.update(
                        pos as int,
                        OutputView { description: Some(dv), ..d.outputs[pos as int] },
                    ));
                    assert(output_ids(crate::daemon::output_views(self.outputs@)) =~= output_ids(d.outputs));
                }
                Vec::new()
            },
            DisplayEvent::CtmBlocked => {
                self.hyprland_blocked = true;
                Vec::new()
            },
            DisplayEvent::GammaSize { global_id, size } => {
                let (pos, found) = control_slot(&self.controls, global_id);
                if found {
                    proof {
                        lemma_key_index(control_ids(d.controls), global_id);
                    }
                    self.controls.set(pos, WlrControlState { control: global_id, gamma_size: Some(size), failed: false });
                    self.pending_reapply = true;
                    assert(control_ids(self.controls@) =~= control_ids(d.controls));
                }
                Vec::new()
            },
            DisplayEvent::GammaFailed { global_id } => {
                let mut actions: Vec<DisplayAction> = Vec::new();
                if take_control(&mut self.controls, global_id) {
                    actions.push(DisplayAction::DestroyControl(global_id));
                }
                let (_, has_output) = output_slot(&self.outputs, global_id);
                if self.wlr_manager && has_output {
                    put_control(&mut self.controls, WlrControlState::new(global_id));
                    actions.push(DisplayAction::CreateControl(global_id));
                }
                self.pending_reapply = true;
                actions
            },
        }
    }
}

// ---------------------------------------------------------------------------
// Applying the filter.
// ---------------------------------------------------------------------------

/// An output the filter is sent to, and whether it is excluded (and so gets
/// the identity transform in place of the filter).
#[derive(Debug, Clone, Copy, PartialEq, Eq, Structural)]
pub struct ApplyTarget {
    pub global_id: u32,
    pub excluded: bool,
}

/// The outputs a color-transform apply covers: all of them, in order.
pub open spec fn ctm_targets_of(outputs: Seq<OutputView>, excluded: Seq<Seq<char>>) -> Seq<ApplyTarget> {
    outputs.map_values(|o: OutputView| ApplyTarget { global_id: o.global_id, excluded: output_excluded(o, excluded) })
}

/// Whether the control of output `id` is there, not failed, and has
/// announced its ramp size.
pub open spec fn control_ready(controls: Seq<WlrControlState<u32>>, id: u32) -> bool {
    match key_index(control_ids(controls), id) {
        Some(i) => !controls[i].failed && controls[i].gamma_size is Some,
        None => false,
    }
}

/// The outputs a gamma-ramp apply covers: those whose control is ready, in order.
pub open spec fn gamma_targets_of(
    outputs: Seq<OutputView>,
    controls: Seq<WlrControlState<u32>>,
    excluded: Seq<Seq<char>>,
) -> Seq<ApplyTarget>
    decreases outputs.len(),
{
    if outputs.len() == 0 {
        seq![]
    } else {
        let o = outputs.last();
        gamma_targets_of(outputs.drop_last(), controls, excluded) + (if control_ready(controls, o.global_id) {
            seq![ApplyTarget { global_id: o.global_id, excluded: output_excluded(o, excluded) }]
        } else {
            seq![]
        })
    }
}

/// The error where the color-transform manager is not bound.
pub open spec fn ctm_missing_error() -> Seq<char> {
    "hyprland manager missing"@
}

/// The error where another client holds the color-transform manager.
pub open spec fn ctm_blocked_error() -> Seq<char> {
    "hyprland CTM manager is blocked by another client"@
}

/// The backend a run starts with: as [`crate::daemon::backend_choice`] picks
/// it, refused where Hyprland's manager is held by another client.
pub open spec fn startup_choice(d: DisplayView) -> Result<BackendKind, Seq<char>> {
    match crate::daemon::backend_choice(d.hyprland_manager, d.wlr_manager) {
        Ok(b) => if b == BackendKind::HyprlandCtm && d.hyprland_blocked {
            Err(ctm_blocked_error())
        } else {
            Ok(b)
        },
        Err(e) => Err(e),
    }
}

/// An output's failure in a gamma apply: the output's id, `: `, and the reason.
pub open spec fn output_failure_text(o: OutputView, err: Seq<char>) -> Seq<char> {
    primary_id_text(o) + ": "@ + err
}

/// The result of a gamma apply from its failures: success when there are
/// none, else the failures joined by `; `.
pub open spec fn apply_result_of(failures: Seq<Seq<char>>) -> Result<(), Seq<char>> {
    if failures.len() == 0 {
        Ok(())
    } else {
        Err(crate::args::join(failures, "; "@))
    }
}

impl DisplayState {
    /// Picks the backend for the run and keeps it.
    pub fn start_backend(&mut self) -> (r: Result<BackendKind, String>)
        requires
            display_wf(old(self)@),
        ensures
            display_wf(final(self)@),
            match r {
                Ok(b) => startup_choice(old(self)@) == Ok::<BackendKind, Seq<char>>(b)
                    && final(self)@ == (DisplayView { selected_backend: Some(b), ..old(self)@ }),
                Err(e) => startup_choice(old(self)@) == Err::<BackendKind, Seq<char>>(e@) && final(self)@ == old(self)@,
            },
    {
        let backend = match crate::daemon::select_backend(self.hyprland_manager, self.wlr_manager) {
            Ok(b) => b,
            Err(e) => {
                return Err(e);
            },
        };
        if matches!(backend, BackendKind::HyprlandCtm) && self.hyprland_blocked {
            return Err(String::from_str("hyprland CTM manager is blocked by another client"));
        }
        self.selected_backend = Some(backend);
        Ok(backend)
    }

    /// The outputs a color-transform apply covers, where the manager is bound.
    pub fn ctm_targets(&self, filter: &FilterState) -> (r: Result<Vec<ApplyTarget>, String>)
        ensures
            match r {
                Ok(t) => self.hyprland_manager && t@ == ctm_targets_of(self@.outputs, strs(filter.excluded_ids@)),
                Err(e) => !self.hyprland_manager && e@ == ctm_missing_error(),
            },
    {
        if !self.hyprland_manager {
            return Err(String::from_str("hyprland manager missing"));
        }
        let ghost ex = strs(filter.excluded_ids@);
        let mut targets: Vec<ApplyTarget> = Vec::new();
        let mut i: usize = 0;
        while i < self.outputs.len()
            invariant
                i <= self.outputs@.len(),
                ex == strs(filter.excluded_ids@),
                targets@ == ctm_targets_of(self@.outputs.subrange(0, i as int), ex),
            decreases self.outputs@.len() - i,
        {
            let o = &self.outputs[i];
            let excluded = o.is_excluded(&filter.excluded_ids);
            targets.push(ApplyTarget { global_id: o.global_id, excluded });
            assert(self@.outputs[i as int] == o@);
            assert(targets@ =~= ctm_targets_of(self@.outputs.subrange(0, i + 1), ex));
            i = i + 1;
        }
        assert(self@.outputs.subrange(0, self@.outputs.len() as int) =~= self@.outputs);
        Ok(targets)
    }

    /// The outputs a gamma-ramp apply covers.
    pub fn gamma_targets(&self, filter: &FilterState) -> (r: Vec<ApplyTarget>)
        requires
            display_wf(self@),
        ensures
            r@ == gamma_targets_of(self@.outputs, self@.controls, strs(filter.excluded_ids@)),
    {
        let ghost ex = strs(filter.excluded_ids@);
        let ghost d = self@;
        let mut targets: Vec<ApplyTarget> = Vec::new();
        let mut i: usize = 0;
        while i < self.outputs.len()
            invariant
                i <= self.outputs@.len(),
                d == self@,
                display_wf(d),
                ex == strs(filter.excluded_ids@),
                targets@ == gamma_targets_of(d.outputs.subrange(0, i as int), d.controls, ex),
            decreases self.outputs@.len() - i,
        {
            let o = &self.outputs[i];
            let (pos, found) = control_slot(&self.controls, o.global_id);
            assert(d.outputs.subrange(0, i + 1).drop_last() =~= d.outputs.subrange(0, i as int));
            assert(d.outputs[i as int] == o@);
            if found && !self.controls[pos].failed && self.controls[pos].gamma_size.is_some() {
                let excluded = o.is_excluded(&filter.excluded_ids);
                targets.push(ApplyTarget { global_id: o.global_id, excluded });
            }
            assert(targets@ =~= gamma_targets_of(d.outputs.subrange(0, i + 1), d.controls, ex));
            i = i + 1;
        }
        assert(d.outputs.subrange(0, d.outputs.len() as int) =~= d.outputs);
        targets
    }
}

/// One output's failure in a gamma apply.
pub fn output_failure(output: &OutputInfo, err: &str) -> (r: String)
    ensures
        r@ == output_failure_text(output@, err@),
{
    let mut out = output.primary_id();
    out.append(": ");
    out.append(err);
    out
}

/// The result of a gamma apply from its failures.
pub fn apply_result(failures: Vec<String>) -> (r: Result<(), String>)
    ensures
        match r {
            Ok(_) => apply_result_of(strs(failures@)) is Ok,
            Err(e) => apply_result_of(strs(failures@)) == Err::<(), Seq<char>>(e@),
        },
{
    if failures.len() == 0 {
        return Ok(());
    }
    let ghost w = strs(failures@);
    let mut out = String::new();
    let mut i: usize = 0;
    while i < failures.len()
        invariant
            i <= failures@.len(),
            w == strs(failures@),
            out@ == crate::args::join(w.subrange(0, i as int), "; "@),
        decreases failures@.len() - i,
    {
        let ghost next = w.subrange(0, i + 1);
        assert(next.drop_last() =~= w.subrange(0, i as int));
        if i > 0 {
            out.append("; ");
        } else {
            assert(out@ =~= Seq::<char>::empty());
        }
        out.append(failures[i].as_str());
        assert(next.last() == failures@[i as int]@);
        i = i + 1;
    }
    assert(w.subrange(0, w.len() as int) =~= w);
    Err(out)
}

// ---------------------------------------------------------------------------
// What every event keeps.
// ---------------------------------------------------------------------------

/// Every control belongs to an output the daemon knows.
pub open spec fn controls_of_known_outputs(d: DisplayView) -> bool {
    forall|k: u32| #[trigger] control_ids(d.controls).contains(k) ==> output_ids(d.outputs).contains(k)
}

proof fn lemma_outputs_put(s: Seq<OutputView>, o: OutputView)
    requires
        keys_sorted(output_ids(s)),
    ensures
        keys_sorted(output_ids(outputs_put(s, o))),
        forall|k: u32| #[trigger] output_ids(outputs_put(s, o)).contains(k) <==> (output_ids(s).contains(k) || k == o.global_id),
{
    let ids = output_ids(s);
    lemma_key_index(ids, o.global_id);
    match key_index(ids, o.global_id) {
        Some(i) => {
            assert(output_ids(s.update(i, o)) =~= ids);
        },
        None => {
            lemma_keys_insert(ids, o.global_id);
            let p = key_pos(ids, o.global_id);
            assert(output_ids(s.insert(p, o)) =~= ids.insert(p, o.global_id));
            lemma_insert_contains(ids, p, o.global_id);
        },
    }
}

proof fn lemma_insert_contains(ids: Seq<u32>, p: int, x: u32)
    requires
        0 <= p <= ids.len(),
    ensures
        forall|k: u32| #[trigger] ids.insert(p, x).contains(k) <==> (ids.contains(k) || k == x),
{
    let t = ids.insert(p, x);
    assert forall|k: u32| #[trigger] t.contains(k) <==> (ids.contains(k) || k == x) by {
        if t.contains(k) {
            let j = choose|j: int| 0 <= j < t.len() && t[j] == k;
            if j < p {
                assert(ids[j] == k);
            } else if j > p {
                assert(ids[j - 1] == k);
            }
        }
        if ids.contains(k) {
            let j = choose|j: int| 0 <= j < ids.len() && ids[j] == k;
            if j < p {
                assert(t[j] == k);
            } else {
                assert(t[j + 1] == k);
            }
        }
        if k == x {
            assert(t[p] == x);
        }
    }
}

proof fn lemma_remove_contains(ids: Seq<u32>, i: int)
    requires
        keys_sorted(ids),
        0 <= i < ids.len(),
    ensures
        forall|k: u32| #[trigger] ids.remove(i).contains(k) <==> (ids.contains(k) && k != ids[i]),
{
    let t = ids.remove(i);
    assert forall|k: u32| #[trigger] t.contains(k) <==> (ids.contains(k) && k != ids[i]) by {
        if t.contains(k) {
            let j = choose|j: int| 0 <= j < t.len() && t[j] == k;
            if j < i {
                assert(ids[j] == k);
                assert(ids[j] < ids[i]);
            } else {
                assert(ids[j + 1] == k);
                assert(ids[i] < ids[j + 1]);
            }
        }
        if ids.contains(k) && k != ids[i] {
            let j = choose|j: int| 0 <= j < ids.len() && ids[j] == k;
            if j < i {
                assert(t[j] == k);
            } else {
                assert(j != i);
                assert(t[j - 1] == k);
            }
        }
    }
}

proof fn lemma_outputs_without(s: Seq<OutputView>, id: u32)
    requires
        keys_sorted(output_ids(s)),
    ensures
        keys_sorted(output_ids(outputs_without(s, id))),
        forall|k: u32| #[trigger] output_ids(outputs_without(s, id)).contains(k) <==> (output_ids(s).contains(k) && k != id),
{
    let ids = output_ids(s);
    lemma_key_index(ids, id);
    match key_index(ids, id) {
        Some(i) => {
            assert(output_ids(s.remove(i)) =~= ids.remove(i));
            lemma_keys_remove(ids, i);
            lemma_remove_contains(ids, i);
        },
        None => {},
    }
}

proof fn lemma_controls_put(s: Seq<WlrControlState<u32>>, c: WlrControlState<u32>)
    requires
        keys_sorted(control_ids(s)),
    ensures
        keys_sorted(control_ids(controls_put(s, c))),
        forall|k: u32| #[trigger] control_ids(controls_put(s, c)).contains(k) <==> (control_ids(s).contains(k) || k == c.control),
{
    let ids = control_ids(s);
    lemma_key_index(ids, c.control);
    match key_index(ids, c.control) {
        Some(i) => {
            assert(control_ids(s.update(i, c)) =~= ids);
        },
        None => {
            lemma_keys_insert(ids, c.control);
            let p = key_pos(ids, c.control);
            assert(control_ids(s.insert(p, c)) =~= ids.insert(p, c.control));
            lemma_insert_contains(ids, p, c.control);
        },
    }
}

proof fn lemma_controls_without(s: Seq<WlrControlState<u32>>, id: u32)
    requires
        keys_sorted(control_ids(s)),
    ensures
        keys_sorted(control_ids(controls_without(s, id))),
        forall|k: u32| #[trigger] control_ids(controls_without(s, id)).contains(k) <==> (control_ids(s).contains(k) && k != id),
{
    let ids = control_ids(s);
    lemma_key_index(ids, id);
    match key_index(ids, id) {
        Some(i) => {
            assert(control_ids(s.remove(i)) =~= ids.remove(i));
            lemma_keys_remove(ids, i);
            lemma_remove_contains(ids, i);
        },
        None => {},
    }
}

proof fn lemma_controls_put_all(c: Seq<WlrControlState<u32>>, ids: Seq<u32>)
    requires
        keys_sorted(control_ids(c)),
    ensures
        keys_sorted(control_ids(controls_put_all(c, ids))),
        forall|k: u32| #[trigger] control_ids(controls_put_all(c, ids)).contains(k) <==> (control_ids(c).contains(k) || ids.contains(k)),
    decreases ids.len(),
{
    if ids.len() > 0 {
        lemma_controls_put_all(c, ids.drop_last());
        lemma_controls_put(controls_put_all(c, ids.drop_last()), fresh_control(ids.last()));
        assert forall|k: u32| ids.contains(k) <==> (ids.drop_last().contains(k) || k == ids.last()) by {
            if ids.contains(k) {
                let j = choose|j: int| 0 <= j < ids.len() && ids[j] == k;
                if j < ids.len() - 1 {
                    assert(ids.drop_last()[j] == k);
                }
            }
            if ids.drop_last().contains(k) {
                let j = choose|j: int| 0 <= j < ids.len() - 1 && ids.drop_last()[j] == k;
                assert(ids[j] == k);
            }
        }
    }
}

proof fn lemma_missing_controls(outputs: Seq<OutputView>, c: Seq<WlrControlState<u32>>)
    ensures
        forall|k: u32| #[trigger] missing_controls(outputs, c).contains(k) ==> output_ids(outputs).contains(k),
        forall|k: u32| #[trigger] output_ids(outputs).contains(k) ==> missing_controls(outputs, c).contains(k) || control_ids(c).contains(k),
    decreases outputs.len(),
{
    if outputs.len() > 0 {
        let d = outputs.drop_last();
        lemma_missing_controls(d, c);
        let m = missing_controls(outputs, c);
        let md = missing_controls(d, c);
        let last = outputs.last().global_id;
        assert(output_ids(d) =~= output_ids(outputs).drop_last());
        assert forall|k: u32| #[trigger] m.contains(k) implies output_ids(outputs).contains(k) by {
            let j = choose|j: int| 0 <= j < m.len() && m[j] == k;
            if j < md.len() {
                assert(md[j] == k);
                assert(md.contains(k));
                let i = choose|i: int| 0 <= i < output_ids(d).len() && output_ids(d)[i] == k;
                assert(output_ids(outputs)[i] == k);
            } else {
                assert(output_ids(outputs)[outputs.len() - 1] == last);
            }
        }
        assert forall|k: u32| #[trigger] output_ids(outputs).contains(k) implies m.contains(k) || control_ids(c).contains(k) by {
            let i = choose|i: int| 0 <= i < output_ids(outputs).len() && output_ids(outputs)[i] == k;
            if i < outputs.len() - 1 {
                assert(output_ids(d)[i] == k);
                assert(output_ids(d).contains(k));
                if md.contains(k) {
                    let j = choose|j: int| 0 <= j < md.len() && md[j] == k;
                    assert(m[j] == k);
                }
            } else {
                assert(k == last);
                if !control_ids(c).contains(k) {
                    assert(m[m.len() - 1] == k);
                }
            }
        }
    }
}

/// Once the gamma-control backend is selected and its manager bound, making
/// sure of the controls leaves every output with one, and no control without
/// its output where there was none before.
pub proof fn law_ensure_controls_covers_outputs(d: DisplayView)
    requires
        display_wf(d),
        controls_of_known_outputs(d),
        d.selected_backend == Some(BackendKind::WlrGamma),
        d.wlr_manager,
    ensures
        display_wf(ensure_controls(d).0),
        controls_of_known_outputs(ensure_controls(d).0),
        forall|k: u32| #[trigger] output_ids(d.outputs).contains(k) ==> control_ids(ensure_controls(d).0.controls).contains(k),
{
    let missing = missing_controls(d.outputs, d.controls);
    lemma_missing_controls(d.outputs, d.controls);
    lemma_controls_put_all(d.controls, missing);
}

proof fn lemma_ensure_controls(d: DisplayView)
    requires
        display_wf(d),
        controls_of_known_outputs(d),
    ensures
        display_wf(ensure_controls(d).0),
        controls_of_known_outputs(ensure_controls(d).0),
        ensure_controls(d).0.outputs == d.outputs,
{
    if d.selected_backend == Some(BackendKind::WlrGamma) && d.wlr_manager {
        law_ensure_controls_covers_outputs(d);
    }
}

/// Every event keeps the outputs and controls each in id order, each once,
/// and keeps every control tied to an output the daemon knows.
pub proof fn law_events_keep_controls_tied(d: DisplayView, e: EventView)
    requires
        display_wf(d),
        controls_of_known_outputs(d),
    ensures
        display_wf(display_step(d, e).0),
        controls_of_known_outputs(display_step(d, e).0),
{
    match e {
        EventView::Global { name, interface, version } => {
            if interface == OUTPUT_INTERFACE@ {
                lemma_outputs_put(d.outputs, fresh_output(name));
                let added = DisplayView { outputs: outputs_put(d.outputs, fresh_output(name)), ..d };
                lemma_ensure_controls(added);
            }
        },
        EventView::GlobalRemove { name } => {
            lemma_outputs_without(d.outputs, name);
            lemma_controls_without(d.controls, name);
        },
        EventView::OutputName { global_id, name } => {
            lemma_key_index(output_ids(d.outputs), global_id);
            match key_index(output_ids(d.outputs), global_id) {
                Some(i) => {
                    let o2 = OutputView { name: Some(name), ..d.outputs[i] };
                    assert(output_ids(d.outputs.update(i, o2)) =~= output_ids(d.outputs));
                },
                None => {},
            }
        },
        EventView::OutputDescription { global_id, description } => {
            lemma_key_index(output_ids(d.outputs), global_id);
            match key_index(output_ids(d.outputs), global_id) {
                Some(i) => {
                    let o2 = OutputView { description: Some(description), ..d.outputs[i] };
                    assert(output_ids(d.outputs.update(i, o2)) =~= output_ids(d.outputs));
                },
                None => {},
            }
        },
        EventView::CtmBlocked => {},
        EventView::GammaSize { global_id, size } => {
            lemma_key_index(control_ids(d.controls), global_id);
            match key_index(control_ids(d.controls), global_id) {
                Some(i) => {
                    let c2 = WlrControlState { control: global_id, gamma_size: Some(size), failed: false };
                    assert(control_ids(d.controls.update(i, c2)) =~= control_ids(d.controls));
                },
                None => {},
            }
        },
        EventView::GammaFailed { global_id } => {
            lemma_controls_without(d.controls, global_id);
            let removed = controls_without(d.controls, global_id);
            lemma_controls_put(removed, fresh_control(global_id));
            lemma_key_index(output_ids(d.outputs), global_id);
            if key_index(output_ids(d.outputs), global_id) is Some {
                let i = key_index(output_ids(d.outputs), global_id)->0;
                assert(output_ids(d.outputs)[i] == global_id);
            }
        },
    }
}

/// When an output goes away, so does its control, and the daemon asks for
/// that control to be destroyed.
pub proof fn law_removed_output_loses_control(d: DisplayView, name: u32)
    requires
        display_wf(d),
        control_ids(d.controls).contains(name),
    ensures
        !output_ids(display_step(d, EventView::GlobalRemove { name }).0.outputs).contains(name),
        !control_ids(display_step(d, EventView::GlobalRemove { name }).0.controls).contains(name),
        display_step(d, EventView::GlobalRemove { name }).1 == seq![DisplayAction::DestroyControl(name)],
{
    lemma_outputs_without(d.outputs, name);
    lemma_controls_without(d.controls, name);
    lemma_key_index(control_ids(d.controls), name);
}

/// Every control that an event drops is destroyed, and only controls that
/// were there are destroyed: a control leaves the daemon's list exactly
/// where the daemon asks for it to be destroyed, or where it is failed and
/// made anew.
pub proof fn law_dropped_controls_destroyed(d: DisplayView, e: EventView)
    requires
        display_wf(d),
    ensures
        forall|k: u32| #[trigger] control_ids(d.controls).contains(k) && !control_ids(display_step(d, e).0.controls).contains(k)
            ==> display_step(d, e).1.contains(DisplayAction::DestroyControl(k)),
        forall|k: u32| #[trigger] display_step(d, e).1.contains(DisplayAction::DestroyControl(k))
            ==> control_ids(d.controls).contains(k),
{
    let (n, acts) = display_step(d, e);
    match e {
        EventView::Global { name, interface, version } => {
            if interface == OUTPUT_INTERFACE@ {
                lemma_outputs_put(d.outputs, fresh_output(name));
                let added = DisplayView { outputs: outputs_put(d.outputs, fresh_output(name)), ..d };
                if added.selected_backend == Some(BackendKind::WlrGamma) && added.wlr_manager {
                    let missing = missing_controls(added.outputs, added.controls);
                    lemma_controls_put_all(added.controls, missing);
                    let created = missing.map_values(|id: u32| DisplayAction::CreateControl(id));
                    assert(acts =~= seq![DisplayAction::BindOutput { name, version: min_u32(version, 4) }] + created);
                    assert forall|k: u32| #[trigger] acts.contains(DisplayAction::DestroyControl(k)) implies control_ids(d.controls).contains(k) by {
                        let j = choose|j: int| 0 <= j < acts.len() && acts[j] == DisplayAction::DestroyControl(k);
                        if j > 0 {
                            assert(acts[j] == created[j - 1]);
                        }
                    }
                } else {
                    assert forall|k: u32| #[trigger] acts.contains(DisplayAction::DestroyControl(k)) implies control_ids(d.controls).contains(k) by {
                        let j = choose|j: int| 0 <= j < acts.len() && acts[j] == DisplayAction::DestroyControl(k);
                        assert(acts[j] == DisplayAction::BindOutput { name, version: min_u32(version, 4) });
                    }
                }
            }
        },
        EventView::GlobalRemove { name } => {
            lemma_controls_without(d.controls, name);
            lemma_key_index(control_ids(d.controls), name);
        },
        EventView::GammaSize { global_id, size } => {
            lemma_key_index(control_ids(d.controls), global_id);
            match key_index(control_ids(d.controls), global_id) {
                Some(i) => {
                    let c2 = WlrControlState { control: global_id, gamma_size: Some(size), failed: false };
                    assert(control_ids(d.controls.update(i, c2)) =~= control_ids(d.controls));
                },
                None => {},
            }
        },
        EventView::GammaFailed { global_id } => {
            lemma_controls_without(d.controls, global_id);
            lemma_key_index(control_ids(d.controls), global_id);
            let removed = controls_without(d.controls, global_id);
            lemma_controls_put(removed, fresh_control(global_id));
            assert forall|k: u32| #[trigger] acts.contains(DisplayAction::DestroyControl(k)) implies control_ids(d.controls).contains(k) by {
                let j = choose|j: int| 0 <= j < acts.len() && acts[j] == DisplayAction::DestroyControl(k);
                if key_index(control_ids(d.controls), global_id) is Some {
                    if j == 0 {
                        let i = key_index(control_ids(d.controls), global_id)->0;
                        assert(control_ids(d.controls)[i] == global_id);
                    }
                }
            }
            assert forall|k: u32| #[trigger] control_ids(d.controls).contains(k) && !control_ids(n.controls).contains(k)
                implies acts.contains(DisplayAction::DestroyControl(k)) by {
                assert(k == global_id);
                assert(acts[0] == DisplayAction::DestroyControl(k));
            }
        },
        _ => {},
    }
}

/// Under controls kept in the order of their outputs' ids, the control of an
/// output is ready exactly where some control for it is neither failed nor
/// without a ramp size.
proof fn lemma_ready_exists(c: Seq<WlrControlState<u32>>, id: u32)
    requires
        keys_sorted(control_ids(c)),
    ensures
        control_ready(c, id) <==> exists|j: int|
            0 <= j < c.len() && #[trigger] c[j].control == id && !c[j].failed && c[j].gamma_size is Some,
{
    let ids = control_ids(c);
    lemma_key_index(ids, id);
    match key_index(ids, id) {
        Some(i) => {
            assert(ids[i] == c[i].control);
            if exists|j: int| 0 <= j < c.len() && #[trigger] c[j].control == id && !c[j].failed && c[j].gamma_size is Some {
                let j = choose|j: int| 0 <= j < c.len() && #[trigger] c[j].control == id && !c[j].failed && c[j].gamma_size is Some;
                assert(ids[j] == c[j].control);
                if j < i {
                    assert(ids[j] < ids[i]);
                } else if j > i {
                    assert(ids[i] < ids[j]);
                }
            }
        },
        None => {
            if exists|j: int| 0 <= j < c.len() && #[trigger] c[j].control == id && !c[j].failed && c[j].gamma_size is Some {
                let j = choose|j: int| 0 <= j < c.len() && #[trigger] c[j].control == id && !c[j].failed && c[j].gamma_size is Some;
                assert(ids[j] == id);
            }
        },
    }
}

/// A gamma-ramp apply covers the same outputs for two lists of outputs that
/// agree on ids and names, where each output's control is ready in both or in neither.
proof fn lemma_gamma_targets_same(
    s1: Seq<OutputView>,
    s2: Seq<OutputView>,
    c1: Seq<WlrControlState<u32>>,
    c2: Seq<WlrControlState<u32>>,
    excluded: Seq<Seq<char>>,
)
    requires
        s1.len() == s2.len(),
        forall|k: int| 0 <= k < s1.len() ==> (#[trigger] s1[k]).global_id == s2[k].global_id && s1[k].name == s2[k].name,
        forall|k: int| 0 <= k < s1.len() ==> control_ready(c1, (#[trigger] s1[k]).global_id) == control_ready(c2, s1[k].global_id),
    ensures
        gamma_targets_of(s1, c1, excluded) == gamma_targets_of(s2, c2, excluded),
    decreases s1.len(),
{
    if s1.len() > 0 {
        let k = s1.len() - 1;
        assert(s1[k].global_id == s2[k].global_id && s1[k].name == s2[k].name);
        assert(control_ready(c1, s1[k].global_id) == control_ready(c2, s1[k].global_id));
        assert forall|j: int| 0 <= j < s1.drop_last().len() implies (#[trigger] s1.drop_last()[j]).global_id == s2.drop_last()[j].global_id
            && s1.drop_last()[j].name == s2.drop_last()[j].name && control_ready(c1, s1.drop_last()[j].global_id) == control_ready(c2, s1.drop_last()[j].global_id) by {
            assert(s1.drop_last()[j] == s1[j]);
            assert(s2.drop_last()[j] == s2[j]);
        }
        lemma_gamma_targets_same(s1.drop_last(), s2.drop_last(), c1, c2, excluded);
        assert(output_excluded(s1.last(), excluded) == output_excluded(s2.last(), excluded));
    }
}

/// A control that announces its ramp size becomes ready, and the filter is
/// sent again: after the event the outputs are as before, and the next
/// gamma-ramp apply covers the output of that control, where it is known.
pub proof fn law_gamma_size_reapplies(d: DisplayView, global_id: u32, size: u32, excluded: Seq<Seq<char>>)
    requires
        display_wf(d),
        control_ids(d.controls).contains(global_id),
    ensures
        ({
            let n = display_step(d, EventView::GammaSize { global_id, size }).0;
            &&& n.pending_reapply
            &&& n.outputs == d.outputs
            &&& control_ready(n.controls, global_id)
            &&& (forall|k: int| 0 <= k < n.outputs.len() && (#[trigger] n.outputs[k]).global_id == global_id
                ==> gamma_targets_of(n.outputs, n.controls, excluded).contains(
                    ApplyTarget { global_id, excluded: output_excluded(n.outputs[k], excluded) },
                ))
        }),
{
    let ids = control_ids(d.controls);
    lemma_key_index(ids, global_id);
    let i = key_index(ids, global_id)->0;
    let c2 = WlrControlState { control: global_id, gamma_size: Some(size), failed: false };
    let nc = d.controls.update(i, c2);
    assert(control_ids(nc) =~= ids);
    let n = display_step(d, EventView::GammaSize { global_id, size }).0;
    assert(n.controls == nc);
    assert(nc[i] == c2);
    assert forall|k: int| 0 <= k < n.outputs.len() && (#[trigger] n.outputs[k]).global_id == global_id
        implies gamma_targets_of(n.outputs, n.controls, excluded).contains(
            ApplyTarget { global_id, excluded: output_excluded(n.outputs[k], excluded) },
        ) by {
        lemma_target_listed(n.outputs, n.controls, excluded, k);
    }
}

/// An output whose control is ready is among the outputs a gamma-ramp apply covers.
proof fn lemma_target_listed(s: Seq<OutputView>, c: Seq<WlrControlState<u32>>, excluded: Seq<Seq<char>>, k: int)
    requires
        0 <= k < s.len(),
        control_ready(c, s[k].global_id),
    ensures
        gamma_targets_of(s, c, excluded).contains(ApplyTarget { global_id: s[k].global_id, excluded: output_excluded(s[k], excluded) }),
    decreases s.len(),
{
    let t = ApplyTarget { global_id: s[k].global_id, excluded: output_excluded(s[k], excluded) };
    let g = gamma_targets_of(s, c, excluded);
    let p = gamma_targets_of(s.drop_last(), c, excluded);
    if k == s.len() - 1 {
        assert(g[p.len() as int] == t);
    } else {
        assert(s.drop_last()[k] == s[k]);
        lemma_target_listed(s.drop_last(), c, excluded, k);
        let j = choose|j: int| 0 <= j < p.len() && p[j] == t;
        assert(g[j] == t);
    }
}

/// Whatever the compositor reports, an event after which a gamma-ramp apply
/// would cover other outputs, or the same outputs otherwise excluded, leaves
/// the filter to be sent again.
pub proof fn law_target_changes_reapply(d: DisplayView, e: EventView, excluded: Seq<Seq<char>>)
    requires
        display_wf(d),
    ensures
        gamma_targets_of(display_step(d, e).0.outputs, display_step(d, e).0.controls, excluded)
            != gamma_targets_of(d.outputs, d.controls, excluded) ==> display_step(d, e).0.pending_reapply,
{
    let n = display_step(d, e).0;
    if !n.pending_reapply {
        match e {
            EventView::GlobalRemove { name } => {
                let oids = output_ids(d.outputs);
                lemma_key_index(oids, name);
                assert(n.outputs == d.outputs);
                let cids = control_ids(d.controls);
                lemma_key_index(cids, name);
                lemma_controls_without(d.controls, name);
                assert forall|k: int| 0 <= k < d.outputs.len() implies control_ready(d.controls, (#[trigger] d.outputs[k]).global_id)
                    == control_ready(n.controls, d.outputs[k].global_id) by {
                    let id = d.outputs[k].global_id;
                    assert(oids[k] == id);
                    assert(id != name);
                    lemma_ready_exists(d.controls, id);
                    lemma_ready_exists(n.controls, id);
                    match key_index(cids, name) {
                        Some(i) => {
                            let r = d.controls.remove(i);
                            assert(n.controls == r);
                            if exists|j: int| 0 <= j < d.controls.len() && #[trigger] d.controls[j].control == id && !d.controls[j].failed && d.controls[j].gamma_size is Some {
                                let j = choose|j: int| 0 <= j < d.controls.len() && #[trigger] d.controls[j].control == id && !d.controls[j].failed && d.controls[j].gamma_size is Some;
                                assert(cids[i] == name);
                                assert(j != i);
                                let j2 = if j < i { j } else { j - 1 };
                                assert(r[j2] == d.controls[j]);
                            }
                            if exists|j: int| 0 <= j < r.len() && #[trigger] r[j].control == id && !r[j].failed && r[j].gamma_size is Some {
                                let j = choose|j: int| 0 <= j < r.len() && #[trigger] r[j].control == id && !r[j].failed && r[j].gamma_size is Some;
                                let j0 = if j < i { j } else { j + 1 };
                                assert(d.controls[j0] == r[j]);
                            }
                        },
                        None => {},
                    }
                }
                lemma_gamma_targets_same(d.outputs, n.outputs, d.controls, n.controls, excluded);
            },
            EventView::OutputDescription { global_id, description } => {
                assert(n.controls == d.controls);
                lemma_key_index(output_ids(d.outputs), global_id);
                assert(output_ids(d.outputs).len() == d.outputs.len());
                match key_index(output_ids(d.outputs), global_id) {
                    Some(i) => {
                        let o2 = OutputView { description: Some(description), ..d.outputs[i] };
                        assert(n.outputs == d.outputs.update(i, o2));
                        assert forall|k: int| 0 <= k < d.outputs.len() implies (#[trigger] d.outputs[k]).global_id == n.outputs[k].global_id
                            && d.outputs[k].name == n.outputs[k].name by {
                            if k == i {
                                assert(n.outputs[k] == o2);
                            }
                        }
                    },
                    None => {
                        assert(n.outputs == d.outputs);
                    },
                }
                assert forall|k: int| 0 <= k < d.outputs.len() implies control_ready(d.controls, (#[trigger] d.outputs[k]).global_id)
                    == control_ready(n.controls, d.outputs[k].global_id) by {
                }
                lemma_gamma_targets_same(d.outputs, n.outputs, d.controls, n.controls, excluded);
            },
            _ => {
                assert(n.outputs == d.outputs && n.controls == d.controls);
            },
        }
    }
}

} // verus!
