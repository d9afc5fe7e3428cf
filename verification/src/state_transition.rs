//! Peripheral lifecycle state machines derived from the generated call graph:
//! reset, ready, and either an interrupt path (armed, ISR, callbacks, error)
//! or a polling path.
use vstd::prelude::*;
use crate::builder::{edges_view, handler_matches, EdgeType, EdgeView, GraphEdge};
use crate::ioc::{periphs_view, PeripheralConfig, PeriphView};
use crate::text::{
    chars_of, char_is_digit, concat3, concat_str, contains, decimal, decimal_string, find_char,
    find_char_in, find_in, join, join_strings, lemma_find_char_bounds, owned, starts_with_in,
    ends_with_in, string_of, strip_prefix_or, strip_suffix_or,
};

verus! {

#[derive(Debug, Clone, Copy, PartialEq, Eq, Structural)]
pub enum StateKind {
    Reset,
    Ready,
    Active,
    Handling,
    Callback,
    Error,
}

#[derive(Debug, Clone, PartialEq, Eq)]
pub struct StateNode {
    pub id: String,
    pub name: String,
    pub peripheral: String,
    pub kind: StateKind,
    pub description: String,
}

pub struct StateNodeView {
    pub id: Seq<char>,
    pub name: Seq<char>,
    pub peripheral: Seq<char>,
    pub kind: StateKind,
    pub description: Seq<char>,
}

impl View for StateNode {
    type V = StateNodeView;

    open spec fn view(&self) -> StateNodeView {
        StateNodeView {
            id: self.id@,
            name: self.name@,
            peripheral: self.peripheral@,
            kind: self.kind,
            description: self.description@,
        }
    }
}

#[derive(Debug, Clone, PartialEq, Eq)]
pub struct StateTransition {
    pub id: String,
    pub from: String,
    pub to: String,
    pub trigger: String,
    pub action: Option<String>,
}

pub struct TransitionView {
    pub id: Seq<char>,
    pub from: Seq<char>,
    pub to: Seq<char>,
    pub trigger: Seq<char>,
    pub action: Option<Seq<char>>,
}

impl View for StateTransition {
    type V = TransitionView;

    open spec fn view(&self) -> TransitionView {
        TransitionView {
            id: self.id@,
            from: self.from@,
            to: self.to@,
            trigger: self.trigger@,
            action: self.action.deep_view(),
        }
    }
}

#[derive(Debug, Clone, PartialEq, Eq)]
pub struct StateMachine {
    pub peripheral: String,
    pub states: Vec<StateNode>,
    pub transitions: Vec<StateTransition>,
}

pub struct MachineView {
    pub peripheral: Seq<char>,
    pub states: Seq<StateNodeView>,
    pub transitions: Seq<TransitionView>,
}

pub open spec fn nodes_view(v: Seq<StateNode>) -> Seq<StateNodeView> {
    v.map_values(|n: StateNode| n@)
}

pub open spec fn transitions_view(v: Seq<StateTransition>) -> Seq<TransitionView> {
    v.map_values(|t: StateTransition| t@)
}

impl View for StateMachine {
    type V = MachineView;

    open spec fn view(&self) -> MachineView {
        MachineView {
            peripheral: self.peripheral@,
            states: nodes_view(self.states@),
            transitions: transitions_view(self.transitions@),
        }
    }
}

#[derive(Debug, Clone, PartialEq, Eq)]
pub struct ProjectStateModel {
    pub machines: Vec<StateMachine>,
}

pub open spec fn machines_view(v: Seq<StateMachine>) -> Seq<MachineView> {
    v.map_values(|m: StateMachine| m@)
}

pub open spec fn node(
    id: Seq<char>,
    name: Seq<char>,
    p: Seq<char>,
    kind: StateKind,
    desc: Seq<char>,
) -> StateNodeView {
    StateNodeView { id: id, name: name, peripheral: p, kind: kind, description: desc }
}

pub open spec fn trans(
    id: Seq<char>,
    from: Seq<char>,
    to: Seq<char>,
    trigger: Seq<char>,
    action: Seq<char>,
) -> TransitionView {
    TransitionView { id: id, from: from, to: to, trigger: trigger, action: Some(action) }
}

/// The short state name of a weak callback: `HAL_UART_RxCpltCallback` gives
/// `RxCplt`; the peripheral name when nothing is left.
pub open spec fn short_callback_name(cb: Seq<char>, p: Seq<char>) -> Seq<char> {
    let trimmed = strip_prefix_or(cb, "HAL_"@);
    let after = match find_char(trimmed, '_') {
        Some(pos) => trimmed.subrange(pos + 1, trimmed.len() as int),
        None => trimmed,
    };
    let short = strip_suffix_or(after, "Callback"@);
    if short.len() == 0 {
        p
    } else {
        short
    }
}

pub open spec fn irq_pred(p: Seq<char>) -> spec_fn(EdgeView) -> bool {
    |e: EdgeView| e.edge_type == EdgeType::IrqEntry && handler_matches(e.from, p)
}

pub open spec fn callback_pred(irqs: Seq<EdgeView>) -> spec_fn(EdgeView) -> bool {
    |e: EdgeView|
        e.edge_type == EdgeType::WeakOverride && exists|j: int|
            0 <= j < irqs.len() && (#[trigger] irqs[j]).to == e.from
}

/// What the walk over the callback edges has built.
pub struct CbAcc {
    pub has_error: bool,
    pub idx: nat,
    pub states: Seq<StateNodeView>,
    pub transitions: Seq<TransitionView>,
}

/// One callback edge: the first error callback adds the error state and its
/// two transitions; any other adds a numbered callback state with its entry
/// and return transitions.
pub open spec fn cb_step(p: Seq<char>, acc: CbAcc, cb: Seq<char>) -> CbAcc {
    let isr = p + "_ISR"@;
    let ready = p + "_READY"@;
    if contains(cb, "Error"@) {
        if acc.has_error {
            acc
        } else {
            let err = p + "_ERROR"@;
            CbAcc {
                has_error: true,
                idx: acc.idx,
                states: acc.states.push(
                    node(err, "ERROR"@, p, StateKind::Error, p + " error interrupt triggered."@),
                ),
                transitions: acc.transitions.push(
                    trans(p + "_t_err"@, isr, err, cb, "Execute error callback handler"@),
                ).push(
                    trans(
                        p + "_t_err_recover"@,
                        err,
                        ready,
                        "Clear error / Reset state"@,
                        "Re-initialize peripheral state"@,
                    ),
                ),
            }
        }
    } else {
        let k = acc.idx + 1;
        let cb_id = p + "_CB_"@ + decimal(k);
        CbAcc {
            has_error: acc.has_error,
            idx: k,
            states: acc.states.push(
                node(
                    cb_id,
                    short_callback_name(cb, p),
                    p,
                    StateKind::Callback,
                    "Dispatched callback: "@ + cb,
                ),
            ),
            transitions: acc.transitions.push(
                trans(p + "_t_cb_"@ + decimal(k), isr, cb_id, cb, "Invoke weak callback in user code"@),
            ).push(
                trans(
                    p + "_t_cb_ret_"@ + decimal(k),
                    cb_id,
                    ready,
                    "Return from callback"@,
                    "End of interrupt service"@,
                ),
            ),
        }
    }
}

pub open spec fn cb_fold(p: Seq<char>, acc: CbAcc, cbs: Seq<EdgeView>) -> CbAcc
    decreases cbs.len(),
{
    if cbs.len() == 0 {
        acc
    } else {
        cb_step(p, cb_fold(p, acc, cbs.drop_last()), cbs.last().to)
    }
}

pub open spec fn has_init_edge(p: Seq<char>, edges: Seq<EdgeView>) -> bool {
    exists|i: int|
        0 <= i < edges.len() && (#[trigger] edges[i]).edge_type == EdgeType::Init && edges[i].to
            == "MX_"@ + p + "_Init"@
}

/// The reset and ready states and the init transition.
pub open spec fn base_states(p: Seq<char>) -> Seq<StateNodeView> {
    seq![
        node(p + "_RESET"@, "RESET"@, p, StateKind::Reset, p + " is in hardware reset / uninitialized."@),
        node(p + "_READY"@, "READY"@, p, StateKind::Ready, p + " is initialized and awaiting commands or interrupts."@),
    ]
}

pub open spec fn init_transition(p: Seq<char>, edges: Seq<EdgeView>) -> TransitionView {
    trans(
        p + "_t_init"@,
        p + "_RESET"@,
        p + "_READY"@,
        if has_init_edge(p, edges) {
            "MX_"@ + p + "_Init()"@
        } else {
            "Initialize()"@
        },
        "Configure clocks, pins, & parameters"@,
    )
}

/// The states of a peripheral with an interrupt path, before its callbacks.
pub open spec fn irq_states(p: Seq<char>) -> Seq<StateNodeView> {
    base_states(p).push(
        node(p + "_ACTIVE"@, "ACTIVE"@, p, StateKind::Active, p + " NVIC interrupt is enabled, awaiting hardware triggers."@),
    ).push(
        node(p + "_ISR"@, "ISR"@, p, StateKind::Handling, p + " IRQ fired; executing HAL dispatch routine."@),
    )
}

/// The transitions of a peripheral with an interrupt path, before its callbacks.
pub open spec fn irq_transitions(p: Seq<char>, edges: Seq<EdgeView>) -> Seq<TransitionView> {
    seq![init_transition(p, edges)].push(
        trans(p + "_t_arm"@, p + "_READY"@, p + "_ACTIVE"@, "HAL_NVIC_EnableIRQ()"@, "Arm interrupt vector in NVIC"@),
    ).push(
        trans(
            p + "_t_fire"@,
            p + "_ACTIVE"@,
            p + "_ISR"@,
            join(edges.filter(irq_pred(p)).map_values(|e: EdgeView| e.from), " / "@),
            "Context switch to interrupt vector"@,
        ),
    )
}

/// The state machine of the peripheral `p` given the call graph `edges`.
pub open spec fn peripheral_machine(p: Seq<char>, edges: Seq<EdgeView>) -> MachineView {
    let irqs = edges.filter(irq_pred(p));
    let s0 = base_states(p);
    let t0 = seq![init_transition(p, edges)];
    if irqs.len() > 0 {
        let isr = p + "_ISR"@;
        let s1 = irq_states(p);
        let t1 = irq_transitions(p, edges);
        let cbs = edges.filter(callback_pred(irqs));
        let acc = cb_fold(p, CbAcc { has_error: false, idx: 0, states: s1, transitions: t1 }, cbs);
        MachineView {
            peripheral: p,
            states: acc.states,
            transitions: if cbs.len() == 0 {
                acc.transitions.push(
                    trans(p + "_t_isr_ret"@, isr, p + "_READY"@, "ISR Exit"@, "Acknowledge interrupt & return"@),
                )
            } else {
                acc.transitions
            },
        }
    } else {
        let busy = p + "_BUSY"@;
        MachineView {
            peripheral: p,
            states: s0.push(
                node(busy, "BUSY"@, p, StateKind::Active, p + " is performing a blocking polling transfer."@),
            ),
            transitions: t0.push(
                trans(p + "_t_poll_start"@, p + "_READY"@, busy, "HAL_Transfer()"@, "Poll status registers until completion"@),
            ).push(
                trans(p + "_t_poll_done"@, busy, p + "_READY"@, "Transfer Complete / Timeout"@, "Return transfer status"@),
            ),
        }
    }
}

fn make_node(id: String, name: &str, p: &str, kind: StateKind, desc: String) -> (n: StateNode)
    ensures
        n@ == node(id@, name@, p@, kind, desc@),
{
    StateNode { id, name: owned(name), peripheral: owned(p), kind, description: desc }
}

fn make_trans(id: String, from: String, to: String, trigger: String, action: &str) -> (t: StateTransition)
    ensures
        t@ == trans(id@, from@, to@, trigger@, action@),
{
    let a = owned(action);
    let t = StateTransition { id, from, to, trigger, action: Some(a) };
    assert(t.action.deep_view() == Some(a@));
    t
}

/// `handler_name` is an IRQ handler of the peripheral `periph`.
pub(crate) fn handler_belongs_to_peripheral(handler_name: &str, periph: &str) -> (b: bool)
    ensures
        b == handler_matches(handler_name@, periph@),
{
    let h = chars_of(handler_name);
    let inst = chars_of(periph);
    assert(h@.subrange(0, h@.len() as int) =~= h@);
    if !starts_with_in(&h, 0, h.len(), &inst) {
        return false;
    }
    if h.len() == inst.len() {
        return true;
    }
    !char_is_digit(h[inst.len()])
}

/// The state name of the callback `cb_name` of the peripheral `periph`.
fn shorten_callback_name(cb_name: &str, periph: &str) -> (s: String)
    ensures
        s@ == short_callback_name(cb_name@, periph@),
{
    let c = chars_of(cb_name);
    let hal = chars_of("HAL_");
    assert(c@.subrange(0, c@.len() as int) =~= c@);
    let start = if starts_with_in(&c, 0, c.len(), &hal) {
        hal.len()
    } else {
        0
    };
    let ghost trimmed = strip_prefix_or(cb_name@, "HAL_"@);
    assert(c@.subrange(start as int, c@.len() as int) == trimmed);
    proof {
        lemma_find_char_bounds(trimmed, '_');
    }
    let after = match find_char_in(&c, start, c.len(), '_') {
        Some(pos) => {
            assert(c@.subrange(start + pos + 1, c@.len() as int) =~= trimmed.subrange(
                pos + 1,
                trimmed.len() as int,
            ));
            start + pos + 1
        },
        None => start,
    };
    let suffix = chars_of("Callback");
    let end = if ends_with_in(&c, after, c.len(), &suffix) {
        c.len() - suffix.len()
    } else {
        c.len()
    };
    assert(c@.subrange(after as int, end as int) =~= strip_suffix_or(
        c@.subrange(after as int, c@.len() as int),
        "Callback"@,
    ));
    if end == after {
        owned(periph)
    } else {
        string_of(&c, after, end)
    }
}

fn copy_edge(e: &GraphEdge) -> (r: GraphEdge)
    ensures
        r@ == e@,
{
    GraphEdge { from: e.from.clone(), to: e.to.clone(), edge_type: e.edge_type, generated: e.generated }
}

/// The edges of `edges` that are IRQ entries of the peripheral `p`.
fn irq_entries_of(p: &str, edges: &[GraphEdge]) -> (r: Vec<GraphEdge>)
    ensures
        edges_view(r@) == edges_view(edges@).filter(irq_pred(p@)),
{
    let ghost ev = edges_view(edges@);
    let mut out: Vec<GraphEdge> = Vec::new();
    let mut i: usize = 0;
    proof {
        reveal(Seq::filter);
    }
    assert(edges_view(out@) =~= ev.subrange(0, 0).filter(irq_pred(p@)));
    while i < edges.len()
        invariant
            0 <= i <= edges@.len(),
            ev == edges_view(edges@),
            edges_view(out@) == ev.subrange(0, i as int).filter(irq_pred(p@)),
        decreases edges.len() - i,
    {
        proof {
            reveal(Seq::filter);
        }
        assert(ev.subrange(0, i + 1).drop_last() =~= ev.subrange(0, i as int));
        assert(ev[i as int] == edges@[i as int]@);
        if edges[i].edge_type == EdgeType::IrqEntry && handler_belongs_to_peripheral(
            edges[i].from.as_str(),
            p,
        ) {
            out.push(copy_edge(&edges[i]));
            assert(edges_view(out@) =~= ev.subrange(0, i + 1).filter(irq_pred(p@)));
        } else {
            assert(edges_view(out@) =~= ev.subrange(0, i + 1).filter(irq_pred(p@)));
        }
        i += 1;
    }
    assert(ev.subrange(0, i as int) =~= ev);
    out
}

/// Some edge of `irqs` leads to `name`.
fn dispatched_by(irqs: &Vec<GraphEdge>, name: &String) -> (b: bool)
    ensures
        b == exists|j: int|
            0 <= j < irqs@.len() && (#[trigger] edges_view(irqs@)[j]).to == name@,
{
    let mut j: usize = 0;
    while j < irqs.len()
        invariant
            0 <= j <= irqs@.len(),
            forall|m: int| 0 <= m < j ==> (#[trigger] edges_view(irqs@)[m]).to != name@,
        decreases irqs.len() - j,
    {
        if irqs[j].to == *name {
            assert(edges_view(irqs@)[j as int].to == name@);
            return true;
        }
        assert(edges_view(irqs@)[j as int].to == irqs@[j as int].to@);
        j += 1;
    }
    false
}

/// The weak-override edges of `edges` leaving a dispatch routine that `irqs` reach.
fn callback_edges_of(irqs: &Vec<GraphEdge>, edges: &[GraphEdge]) -> (r: Vec<GraphEdge>)
    ensures
        edges_view(r@) == edges_view(edges@).filter(callback_pred(edges_view(irqs@))),
{
    let ghost ev = edges_view(edges@);
    let ghost pred = callback_pred(edges_view(irqs@));
    let mut out: Vec<GraphEdge> = Vec::new();
    let mut i: usize = 0;
    proof {
        reveal(Seq::filter);
    }
    assert(edges_view(out@) =~= ev.subrange(0, 0).filter(pred));
    while i < edges.len()
        invariant
            0 <= i <= edges@.len(),
            ev == edges_view(edges@),
            pred == callback_pred(edges_view(irqs@)),
            edges_view(out@) == ev.subrange(0, i as int).filter(pred),
        decreases edges.len() - i,
    {
        proof {
            reveal(Seq::filter);
        }
        assert(ev.subrange(0, i + 1).drop_last() =~= ev.subrange(0, i as int));
        assert(ev[i as int] == edges@[i as int]@);
        if edges[i].edge_type == EdgeType::WeakOverride && dispatched_by(irqs, &edges[i].from) {
            out.push(copy_edge(&edges[i]));
            assert(edges_view(out@) =~= ev.subrange(0, i + 1).filter(pred));
        } else {
            assert(edges_view(out@) =~= ev.subrange(0, i + 1).filter(pred));
        }
        i += 1;
    }
    assert(ev.subrange(0, i as int) =~= ev);
    out
}

/// Some edge is the init call `MX_<p>_Init` of the peripheral `p`.
fn has_init(p: &str, edges: &[GraphEdge]) -> (b: bool)
    ensures
        b == has_init_edge(p@, edges_view(edges@)),
{
    let target = concat3("MX_", p, "_Init");
    let mut i: usize = 0;
    while i < edges.len()
        invariant
            0 <= i <= edges@.len(),
            target@ == "MX_"@ + p@ + "_Init"@,
            forall|m: int|
                0 <= m < i ==> !((#[trigger] edges_view(edges@)[m]).edge_type == EdgeType::Init
                    && edges_view(edges@)[m].to == target@),
        decreases edges.len() - i,
    {
        assert(edges_view(edges@)[i as int] == edges@[i as int]@);
        if edges[i].edge_type == EdgeType::Init && edges[i].to == target {
            return true;
        }
        i += 1;
    }
    false
}

/// Adds the states and transitions of the callback edges `cbs`.
fn add_callbacks(
    p: &str,
    cbs: &Vec<GraphEdge>,
    states: &mut Vec<StateNode>,
    transitions: &mut Vec<StateTransition>,
)
    ensures
        ({
            let acc = cb_fold(
                p@,
                CbAcc {
                    has_error: false,
                    idx: 0,
                    states: nodes_view(old(states)@),
                    transitions: transitions_view(old(transitions)@),
                },
                edges_view(cbs@),
            );
            nodes_view(final(states)@) == acc.states && transitions_view(final(transitions)@)
                == acc.transitions
        }),
{
    let ghost init = CbAcc {
        has_error: false,
        idx: 0,
        states: nodes_view(states@),
        transitions: transitions_view(transitions@),
    };
    let ghost cv = edges_view(cbs@);
    let mut has_error = false;
    let mut cb_idx: usize = 0;
    let mut i: usize = 0;
    assert(cv.subrange(0, 0) =~= Seq::<EdgeView>::empty());
    while i < cbs.len()
        invariant
            0 <= i <= cbs@.len(),
            cv == edges_view(cbs@),
            cb_idx <= i,
            cb_fold(p@, init, cv.subrange(0, i as int)) == (CbAcc {
                has_error: has_error,
                idx: cb_idx as nat,
                states: nodes_view(states@),
                transitions: transitions_view(transitions@),
            }),
        decreases cbs.len() - i,
    {
        let ghost acc = CbAcc {
            has_error: has_error,
            idx: cb_idx as nat,
            states: nodes_view(states@),
            transitions: transitions_view(transitions@),
        };
        assert(cv.subrange(0, i + 1).drop_last() =~= cv.subrange(0, i as int));
        assert(cv[i as int] == cbs@[i as int]@);
        let cb_name = &cbs[i].to;
        let cc = chars_of(cb_name.as_str());
        let err = chars_of("Error");
        assert(cc@.subrange(0, cc@.len() as int) =~= cc@);
        let is_error = find_in(&cc, 0, cc.len(), &err).is_some();
        if is_error {
            if !has_error {
                let err_id = concat_str(p, "_ERROR");
                states.push(
                    make_node(
                        err_id.clone(),
                        "ERROR",
                        p,
                        StateKind::Error,
                        concat_str(p, " error interrupt triggered."),
                    ),
                );
                transitions.push(
                    make_trans(
                        concat_str(p, "_t_err"),
                        concat_str(p, "_ISR"),
                        err_id.clone(),
                        cb_name.clone(),
                        "Execute error callback handler",
                    ),
                );
                transitions.push(
                    make_trans(
                        concat_str(p, "_t_err_recover"),
                        err_id,
                        concat_str(p, "_READY"),
                        owned("Clear error / Reset state"),
                        "Re-initialize peripheral state",
                    ),
                );
                has_error = true;
            }
        } else {
            cb_idx = cb_idx + 1;
            let num = decimal_string(cb_idx);
            let short = shorten_callback_name(cb_name.as_str(), p);
            let cb_node_id = concat3(p, "_CB_", num.as_str());
            states.push(
                make_node(
                    cb_node_id.clone(),
                    short.as_str(),
                    p,
                    StateKind::Callback,
                    concat_str("Dispatched callback: ", cb_name.as_str()),
                ),
            );
            transitions.push(
                make_trans(
                    concat3(p, "_t_cb_", num.as_str()),
                    concat_str(p, "_ISR"),
                    cb_node_id.clone(),
                    cb_name.clone(),
                    "Invoke weak callback in user code",
                ),
            );
            transitions.push(
                make_trans(
                    concat3(p, "_t_cb_ret_", num.as_str()),
                    cb_node_id,
                    concat_str(p, "_READY"),
                    owned("Return from callback"),
                    "End of interrupt service",
                ),
            );
        }
        assert(nodes_view(states@) =~= cb_step(p@, acc, cv[i as int].to).states);
        assert(transitions_view(transitions@) =~= cb_step(p@, acc, cv[i as int].to).transitions);
        i += 1;
    }
    assert(cv.subrange(0, i as int) =~= cv);
}

/// The lifecycle state machine of the peripheral `peripheral`, read off the
/// call graph `edges`.
pub fn build_state_machine_for_peripheral(peripheral: &str, edges: &[GraphEdge]) -> (sm: StateMachine)
    ensures
        sm@ == peripheral_machine(peripheral@, edges_view(edges@)),
{
    let p = peripheral;
    let ghost ev = edges_view(edges@);
    let mut states: Vec<StateNode> = Vec::new();
    let mut transitions: Vec<StateTransition> = Vec::new();
    let reset_id = concat_str(p, "_RESET");
    let ready_id = concat_str(p, "_READY");
    states.push(
        make_node(
            reset_id.clone(),
            "RESET",
            p,
            StateKind::Reset,
            concat_str(p, " is in hardware reset / uninitialized."),
        ),
    );
    states.push(
        make_node(
            ready_id.clone(),
            "READY",
            p,
            StateKind::Ready,
            concat_str(p, " is initialized and awaiting commands or interrupts."),
        ),
    );
    let init_trigger = if has_init(p, edges) {
        concat3("MX_", p, "_Init()")
    } else {
        owned("Initialize()")
    };
    transitions.push(
        make_trans(
            concat_str(p, "_t_init"),
            reset_id.clone(),
            ready_id.clone(),
            init_trigger,
            "Configure clocks, pins, & parameters",
        ),
    );
    assert(nodes_view(states@) =~= base_states(p@));
    assert(transitions_view(transitions@) =~= seq![init_transition(p@, ev)]);
    let irqs = irq_entries_of(p, edges);
    if irqs.len() > 0 {
        let active_id = concat_str(p, "_ACTIVE");
        let isr_id = concat_str(p, "_ISR");
        states.push(
            make_node(
                active_id.clone(),
                "ACTIVE",
                p,
                StateKind::Active,
                concat_str(p, " NVIC interrupt is enabled, awaiting hardware triggers."),
            ),
        );
        states.push(
            make_node(
                isr_id.clone(),
                "ISR",
                p,
                StateKind::Handling,
                concat_str(p, " IRQ fired; executing HAL dispatch routine."),
            ),
        );
        transitions.push(
            make_trans(
                concat_str(p, "_t_arm"),
                ready_id.clone(),
                active_id.clone(),
                owned("HAL_NVIC_EnableIRQ()"),
                "Arm interrupt vector in NVIC",
            ),
        );
        let mut names: Vec<String> = Vec::new();
        let mut k: usize = 0;
        while k < irqs.len()
            invariant
                0 <= k <= irqs@.len(),
                names.deep_view() == edges_view(irqs@).subrange(0, k as int).map_values(
                    |e: EdgeView| e.from,
                ),
            decreases irqs.len() - k,
        {
            let ghost prev = names.deep_view();
            assert(edges_view(irqs@)[k as int].from == irqs@[k as int].from@);
            names.push(irqs[k].from.clone());
            assert(names.deep_view() =~= prev.push(irqs@[k as int].from@));
            assert(names.deep_view() =~= edges_view(irqs@).subrange(0, k + 1).map_values(
                |e: EdgeView| e.from,
            ));
            k += 1;
        }
        assert(edges_view(irqs@).subrange(0, k as int) =~= edges_view(irqs@));
        let irq_trigger = join_strings(&names, " / ");
        transitions.push(
            make_trans(
                concat_str(p, "_t_fire"),
                active_id,
                isr_id.clone(),
                irq_trigger,
                "Context switch to interrupt vector",
            ),
        );
        assert(nodes_view(states@) =~= irq_states(p@));
        assert(transitions_view(transitions@) =~= irq_transitions(p@, ev));
        let cbs = callback_edges_of(&irqs, edges);
        add_callbacks(p, &cbs, &mut states, &mut transitions);
        if cbs.len() == 0 {
            transitions.push(
                make_trans(
                    concat_str(p, "_t_isr_ret"),
                    isr_id,
                    ready_id,
                    owned("ISR Exit"),
                    "Acknowledge interrupt & return",
                ),
            );
        }
        let sm = StateMachine { peripheral: owned(p), states, transitions };
        assert(sm@.transitions =~= peripheral_machine(p@, ev).transitions);
        assert(sm@.states =~= peripheral_machine(p@, ev).states);
        sm
    } else {
        let busy_id = concat_str(p, "_BUSY");
        states.push(
            make_node(
                busy_id.clone(),
                "BUSY",
                p,
                StateKind::Active,
                concat_str(p, " is performing a blocking polling transfer."),
            ),
        );
        transitions.push(
            make_trans(
                concat_str(p, "_t_poll_start"),
                ready_id.clone(),
                busy_id.clone(),
                owned("HAL_Transfer()"),
                "Poll status registers until completion",
            ),
        );
        transitions.push(
            make_trans(
                concat_str(p, "_t_poll_done"),
                busy_id,
                ready_id,
                owned("Transfer Complete / Timeout"),
                "Return transfer status",
            ),
        );
        let sm = StateMachine { peripheral: owned(p), states, transitions };
        assert(sm@.transitions =~= peripheral_machine(p@, ev).transitions);
        assert(sm@.states =~= peripheral_machine(p@, ev).states);
        sm
    }
}

/// The state machines of the peripherals, in order.
pub open spec fn state_model(ps: Seq<PeriphView>, edges: Seq<EdgeView>) -> Seq<MachineView> {
    ps.map_values(|p: PeriphView| peripheral_machine(p.name, edges))
}

/// One state machine per peripheral, in order.
pub fn build_state_model_from_parts(peripherals: &[PeripheralConfig], edges: &[GraphEdge]) -> (m: ProjectStateModel)
    ensures
        machines_view(m.machines@) == state_model(periphs_view(peripherals@), edges_view(edges@)),
{
    let mut machines: Vec<StateMachine> = Vec::new();
    let mut i: usize = 0;
    while i < peripherals.len()
        invariant
            0 <= i <= peripherals@.len(),
            machines_view(machines@) == state_model(
                periphs_view(peripherals@).subrange(0, i as int),
                edges_view(edges@),
            ),
        decreases peripherals.len() - i,
    {
        let sm = build_state_machine_for_peripheral(peripherals[i].name.as_str(), edges);
        let ghost prev = machines_view(machines@);
        let ghost smv = sm@;
        machines.push(sm);
        assert(machines_view(machines@) =~= prev.push(smv));
        assert(periphs_view(peripherals@)[i as int] == peripherals@[i as int]@);
        assert(machines_view(machines@) =~= state_model(
            periphs_view(peripherals@).subrange(0, i + 1),
            edges_view(edges@),
        ));
        i += 1;
    }
    assert(periphs_view(peripherals@).subrange(0, i as int) =~= periphs_view(peripherals@));
    ProjectStateModel { machines }
}

/// The state machines of every peripheral of a project.
pub fn build_project_state_model(project: &crate::project::Project) -> (m: ProjectStateModel)
    ensures
        machines_view(m.machines@) == state_model(
            periphs_view(project.peripherals@),
            edges_view(project.call_graph_edges@),
        ),
{
    build_state_model_from_parts(project.peripherals.as_slice(), project.call_graph_edges.as_slice())
}

} // verus!
