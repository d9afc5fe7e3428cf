//! What the drawing of a state machine decides before it places anything:
//! the degree of each state, the high fan-in states drawn as badges, the
//! hubs, and the lanes that hold the other states.
use vstd::prelude::*;
use crate::machine::{
    cluster_name, fault_name, infer_cluster_name, is_fault_state, transitions_view, AppStateMachine, AppTransition,
    TransitionSpec,
};
use crate::sorted::{insert_sorted, strictly_sorted};
use crate::state_graph::machine_initial;
use crate::text::{contains_string, first_occurrences, owned, str_eq};

verus! {

/// The source of a transition that any state may take.
pub open spec fn any_state() -> Seq<char> {
    "(any state)"@
}

/// The transition moves between two states and is neither a fault
/// transition nor one into a fault state.
pub open spec fn operational(t: TransitionSpec) -> bool {
    t.from != t.to && !t.is_fault && !fault_name(t.to)
}

/// What a count counts, for the state `st`: `0` the transitions into it
/// from another state, `1` those out of it to another state (not from any
/// state), `2` and `3` the same among operational transitions, `4` those
/// into it from another state, whatever they are.
pub open spec fn counted(mode: u8, t: TransitionSpec, st: Seq<char>) -> bool {
    if mode == 0 {
        t.from != t.to && t.to == st
    } else if mode == 1 {
        t.from != t.to && t.from != any_state() && t.from == st
    } else if mode == 2 {
        operational(t) && t.to == st
    } else if mode == 3 {
        operational(t) && t.from != any_state() && t.from == st
    } else {
        t.to == st && t.from != st
    }
}

/// The number of transitions of `trs` that `counted` counts.
pub open spec fn count_of(trs: Seq<TransitionSpec>, mode: u8, st: Seq<char>) -> nat
    decreases trs.len(),
{
    if trs.len() == 0 {
        0
    } else {
        count_of(trs.drop_last(), mode, st) + if counted(mode, trs.last(), st) {
            1nat
        } else {
            0nat
        }
    }
}

/// The state takes in four transitions or more, or is a fault state: its
/// incoming edges are drawn as badges on their sources.
pub open spec fn high_fan_in(trs: Seq<TransitionSpec>, vs: Seq<Seq<char>>, st: Seq<char>) -> bool {
    vs.contains(st) && (count_of(trs, 4, st) >= 4 || fault_name(st))
}

/// The high fan-in targets of the transitions of `es` out of `st`.
pub open spec fn badge_raw(es: Seq<TransitionSpec>, trs: Seq<TransitionSpec>, vs: Seq<Seq<char>>, st: Seq<char>) -> Seq<Seq<char>>
    decreases es.len(),
{
    if es.len() == 0 {
        seq![]
    } else {
        let t = es.last();
        if t.from == st && t.from != any_state() && t.from != t.to && high_fan_in(trs, vs, t.to) {
            badge_raw(es.drop_last(), trs, vs, st).push(t.to)
        } else {
            badge_raw(es.drop_last(), trs, vs, st)
        }
    }
}

/// The badges of the state `st`: its high fan-in targets, each once.
pub open spec fn badges(trs: Seq<TransitionSpec>, vs: Seq<Seq<char>>, st: Seq<char>) -> Seq<Seq<char>> {
    first_occurrences(badge_raw(trs, trs, vs, st))
}

/// The lanes of the other states that the transitions of `es` link `st`
/// to, out then in, leaving out fault states and the initial state.
pub open spec fn foreign_raw(es: Seq<TransitionSpec>, st: Seq<char>, init: Seq<char>) -> Seq<Seq<char>>
    decreases es.len(),
{
    if es.len() == 0 {
        seq![]
    } else {
        let t = es.last();
        let r = foreign_raw(es.drop_last(), st, init);
        let mine = cluster_name(st, init);
        let r1 = if t.from == st && t.to != st && !fault_name(t.to) && t.to != init && cluster_name(t.to, init) != mine {
            r.push(cluster_name(t.to, init))
        } else {
            r
        };
        if t.to == st && t.from != st && !fault_name(t.from) && t.from != init && t.from != any_state() && cluster_name(
            t.from,
            init,
        ) != mine {
            r1.push(cluster_name(t.from, init))
        } else {
            r1
        }
    }
}

/// The state is a hub that leaves the initial state: no fault state, not
/// the initial state, linked to two other lanes or more, with four
/// operational transitions or more.
pub open spec fn exit_hub(trs: Seq<TransitionSpec>, st: Seq<char>, init: Seq<char>) -> bool {
    &&& !fault_name(st)
    &&& st != init
    &&& first_occurrences(foreign_raw(trs, st, init)).len() >= 2
    &&& count_of(trs, 2, st) + count_of(trs, 3, st) >= 4
}

/// The lane of a state that is no hub and no fault state.
pub open spec fn lane_key(st: Seq<char>, init: Seq<char>) -> Seq<char> {
    let c = cluster_name(st, init);
    if c == "CALIBRATION"@ || c == "MECHANISM"@ || c == "MOTION"@ || c == "RECOVERY"@ {
        c
    } else {
        "GENERAL"@
    }
}

/// The states of `vs` in the lane `key`, in order.
pub open spec fn lane_states(vs: Seq<Seq<char>>, trs: Seq<TransitionSpec>, init: Seq<char>, key: Seq<char>) -> Seq<Seq<char>>
    decreases vs.len(),
{
    if vs.len() == 0 {
        seq![]
    } else {
        let st = vs.last();
        if !fault_name(st) && st != init && !exit_hub(trs, st, init) && lane_key(st, init) == key {
            lane_states(vs.drop_last(), trs, init, key).push(st)
        } else {
            lane_states(vs.drop_last(), trs, init, key)
        }
    }
}

/// The lanes in drawing order.
pub open spec fn lane_keys() -> Seq<Seq<char>> {
    seq!["CALIBRATION"@, "MECHANISM"@, "MOTION"@, "RECOVERY"@, "GENERAL"@]
}

/// The lanes of the keys `keys` that hold a state, in order.
pub open spec fn plan_lanes(keys: Seq<Seq<char>>, vs: Seq<Seq<char>>, trs: Seq<TransitionSpec>, init: Seq<char>) -> Seq<
    (Seq<char>, Seq<Seq<char>>),
>
    decreases keys.len(),
{
    if keys.len() == 0 {
        seq![]
    } else {
        let r = plan_lanes(keys.drop_last(), vs, trs, init);
        let l = lane_states(vs, trs, init, keys.last());
        if l.len() > 0 {
            r.push((keys.last(), l))
        } else {
            r
        }
    }
}

proof fn lemma_lane_states_has(vs: Seq<Seq<char>>, trs: Seq<TransitionSpec>, init: Seq<char>, k: int)
    requires
        0 <= k < vs.len(),
        !fault_name(vs[k]),
        vs[k] != init,
        !exit_hub(trs, vs[k], init),
    ensures
        lane_states(vs, trs, init, lane_key(vs[k], init)).contains(vs[k]),
    decreases vs.len(),
{
    let key = lane_key(vs[k], init);
    if k == vs.len() - 1 {
        let l = lane_states(vs, trs, init, key);
        assert(l.last() == vs[k]);
        assert(l[l.len() - 1] == vs[k]);
    } else {
        assert(vs.drop_last()[k] == vs[k]);
        lemma_lane_states_has(vs.drop_last(), trs, init, k);
        let r = lane_states(vs.drop_last(), trs, init, key);
        let j = choose|j: int| 0 <= j < r.len() && r[j] == vs[k];
        let l = lane_states(vs, trs, init, key);
        if l != r {
            assert(l == r.push(vs.last()));
            assert(l[j] == r[j]);
        }
    }
}

proof fn lemma_plan_lanes_has(keys: Seq<Seq<char>>, vs: Seq<Seq<char>>, trs: Seq<TransitionSpec>, init: Seq<char>, i: int)
    requires
        0 <= i < keys.len(),
        lane_states(vs, trs, init, keys[i]).len() > 0,
    ensures
        plan_lanes(keys, vs, trs, init).contains((keys[i], lane_states(vs, trs, init, keys[i]))),
    decreases keys.len(),
{
    let p = plan_lanes(keys, vs, trs, init);
    let e = (keys[i], lane_states(vs, trs, init, keys[i]));
    if i == keys.len() - 1 {
        assert(p[p.len() - 1] == e);
    } else {
        assert(keys.drop_last()[i] == keys[i]);
        lemma_plan_lanes_has(keys.drop_last(), vs, trs, init, i);
        let r = plan_lanes(keys.drop_last(), vs, trs, init);
        let j = choose|j: int| 0 <= j < r.len() && r[j] == e;
        if p != r {
            assert(p[j] == r[j]);
        }
    }
}

/// Every state of a machine has a place in its drawing: it is the initial
/// state (the entry hub), an exit hub, a fault state, or a member of one of
/// the lanes that the plan keeps.
pub proof fn law_every_state_is_placed(vs: Seq<Seq<char>>, trs: Seq<TransitionSpec>, init: Seq<char>)
    ensures
        forall|k: int|
            0 <= k < vs.len() ==> (#[trigger] vs[k] == init || exit_hub(trs, vs[k], init) || fault_name(vs[k])
                || exists|l: (Seq<char>, Seq<Seq<char>>)| #[trigger] plan_lanes(lane_keys(), vs, trs, init).contains(l) && l.1.contains(vs[k])),
{
    assert forall|k: int| 0 <= k < vs.len() implies (#[trigger] vs[k] == init || exit_hub(trs, vs[k], init) || fault_name(vs[k])
        || exists|l: (Seq<char>, Seq<Seq<char>>)| #[trigger] plan_lanes(lane_keys(), vs, trs, init).contains(l) && l.1.contains(vs[k])) by {
        if vs[k] != init && !exit_hub(trs, vs[k], init) && !fault_name(vs[k]) {
            lemma_lane_states_has(vs, trs, init, k);
            let key = lane_key(vs[k], init);
            let keys = lane_keys();
            let i: int = if key == "CALIBRATION"@ {
                0
            } else if key == "MECHANISM"@ {
                1
            } else if key == "MOTION"@ {
                2
            } else if key == "RECOVERY"@ {
                3
            } else {
                4
            };
            assert(keys[i] == key);
            lemma_plan_lanes_has(keys, vs, trs, init, i);
            let l = (key, lane_states(vs, trs, init, key));
            assert(plan_lanes(keys, vs, trs, init).contains(l) && l.1.contains(vs[k]));
        }
    }
}

/// A lane of states.
pub struct StateLane {
    pub cluster: String,
    pub states: Vec<String>,
}

/// What the drawing of a machine decides before placing anything. The
/// per-state lists follow the order of the machine's states.
pub struct StateLayoutPlan {
    pub incoming: Vec<usize>,
    pub outgoing: Vec<usize>,
    pub high_fan_in: Vec<bool>,
    pub collapsed_badges: Vec<Vec<String>>,
    pub entry_hub: String,
    pub exit_hubs: Vec<String>,
    pub lanes: Vec<StateLane>,
    pub fault_states: Vec<String>,
}

/// The fault states of `vs`, in order.
pub open spec fn fault_states_of(vs: Seq<Seq<char>>) -> Seq<Seq<char>>
    decreases vs.len(),
{
    if vs.len() == 0 {
        seq![]
    } else if fault_name(vs.last()) {
        fault_states_of(vs.drop_last()).push(vs.last())
    } else {
        fault_states_of(vs.drop_last())
    }
}

/// Whether `counted` counts the transition.
fn counted_exec(mode: u8, t: &AppTransition, st: &str) -> (b: bool)
    ensures
        b == counted(mode, t@, st@),
{
    proof {
        reveal_strlit("(any state)");
    }
    let moves = !str_eq(t.from.as_str(), t.to.as_str());
    if mode == 0 {
        moves && str_eq(t.to.as_str(), st)
    } else if mode == 1 {
        moves && !str_eq(t.from.as_str(), "(any state)") && str_eq(t.from.as_str(), st)
    } else if mode == 2 {
        moves && !t.is_fault && !is_fault_state(t.to.as_str()) && str_eq(t.to.as_str(), st)
    } else if mode == 3 {
        moves && !t.is_fault && !is_fault_state(t.to.as_str()) && !str_eq(t.from.as_str(), "(any state)") && str_eq(
            t.from.as_str(),
            st,
        )
    } else {
        str_eq(t.to.as_str(), st) && !str_eq(t.from.as_str(), st)
    }
}

/// The number of transitions that `counted` counts.
fn count_exec(trs: &Vec<AppTransition>, mode: u8, st: &str) -> (n: usize)
    ensures
        n == count_of(transitions_view(trs@), mode, st@),
{
    let ghost ts = transitions_view(trs@);
    let mut n: usize = 0;
    let mut j: usize = 0;
    while j < trs.len()
        invariant
            0 <= j <= trs@.len(),
            ts == transitions_view(trs@),
            n == count_of(ts.take(j as int), mode, st@),
            n <= j,
        decreases trs.len() - j,
    {
        assert(ts.take(j + 1).drop_last() =~= ts.take(j as int));
        assert(ts.take(j + 1).last() == trs@[j as int]@);
        if counted_exec(mode, &trs[j], st) {
            n += 1;
        }
        j += 1;
    }
    assert(ts.take(j as int) =~= ts);
    n
}

/// Whether the state is a high fan-in state.
fn high_fan_in_exec(trs: &Vec<AppTransition>, states: &Vec<String>, st: &String) -> (b: bool)
    ensures
        b == high_fan_in(transitions_view(trs@), states.deep_view(), st@),
{
    contains_string(states, st) && (count_exec(trs, 4, st.as_str()) >= 4 || is_fault_state(st.as_str()))
}

/// The badges of a state.
fn badges_exec(trs: &Vec<AppTransition>, states: &Vec<String>, st: &str) -> (r: Vec<String>)
    ensures
        r.deep_view() == badges(transitions_view(trs@), states.deep_view(), st@),
{
    let ghost ts = transitions_view(trs@);
    let ghost vs = states.deep_view();
    proof {
        reveal_strlit("(any state)");
    }
    let mut out: Vec<String> = Vec::new();
    let mut j: usize = 0;
    while j < trs.len()
        invariant
            0 <= j <= trs@.len(),
            ts == transitions_view(trs@),
            vs == states.deep_view(),
            out.deep_view() == first_occurrences(badge_raw(ts.take(j as int), ts, vs, st@)),
        decreases trs.len() - j,
    {
        proof {
            reveal_strlit("(any state)");
        }
        let ghost pre = badge_raw(ts.take(j as int), ts, vs, st@);
        assert(ts.take(j + 1).drop_last() =~= ts.take(j as int));
        assert(ts.take(j + 1).last() == trs@[j as int]@);
        let t = &trs[j];
        if str_eq(t.from.as_str(), st) && !str_eq(t.from.as_str(), "(any state)") && !str_eq(t.from.as_str(), t.to.as_str())
            && high_fan_in_exec(trs, states, &t.to) {
            assert(badge_raw(ts.take(j + 1), ts, vs, st@) == pre.push(t.to@));
            assert(pre.push(t.to@).drop_last() =~= pre);
            if !contains_string(&out, &t.to) {
                out.push(owned(t.to.as_str()));
                assert(out.deep_view() =~= first_occurrences(pre).push(t.to@));
            }
        } else {
            assert(badge_raw(ts.take(j + 1), ts, vs, st@) == pre);
        }
        j += 1;
    }
    assert(ts.take(j as int) =~= ts);
    out
}

/// Whether the state is an exit hub.
fn exit_hub_exec(trs: &Vec<AppTransition>, st: &str, init: &str) -> (b: bool)
    ensures
        b == exit_hub(transitions_view(trs@), st@, init@),
{
    let ghost ts = transitions_view(trs@);
    if is_fault_state(st) || str_eq(st, init) {
        return false;
    }
    proof {
        reveal_strlit("(any state)");
    }
    let mine = infer_cluster_name(st, init);
    let mut seen: Vec<String> = Vec::new();
    let mut j: usize = 0;
    while j < trs.len()
        invariant
            0 <= j <= trs@.len(),
            ts == transitions_view(trs@),
            mine@ == cluster_name(st@, init@),
            seen.deep_view() == first_occurrences(foreign_raw(ts.take(j as int), st@, init@)),
        decreases trs.len() - j,
    {
        proof {
            reveal_strlit("(any state)");
        }
        let ghost pre = foreign_raw(ts.take(j as int), st@, init@);
        assert(ts.take(j + 1).drop_last() =~= ts.take(j as int));
        assert(ts.take(j + 1).last() == trs@[j as int]@);
        let t = &trs[j];
        let ghost r1: Seq<Seq<char>> = pre;
        if str_eq(t.from.as_str(), st) && !str_eq(t.to.as_str(), st) && !is_fault_state(t.to.as_str()) && !str_eq(
            t.to.as_str(),
            init,
        ) {
            let c = infer_cluster_name(t.to.as_str(), init);
            if !str_eq(c, mine) {
                proof {
                    r1 = pre.push(c@);
                    assert(pre.push(c@).drop_last() =~= pre);
                }
                let cs = owned(c);
                if !contains_string(&seen, &cs) {
                    seen.push(cs);
                    assert(seen.deep_view() =~= first_occurrences(pre).push(c@));
                }
            }
        }
        assert(seen.deep_view() == first_occurrences(r1));
        if str_eq(t.to.as_str(), st) && !str_eq(t.from.as_str(), st) && !is_fault_state(t.from.as_str()) && !str_eq(
            t.from.as_str(),
            init,
        ) && !str_eq(t.from.as_str(), "(any state)") {
            let c = infer_cluster_name(t.from.as_str(), init);
            if !str_eq(c, mine) {
                assert(r1.push(c@).drop_last() =~= r1);
                let cs = owned(c);
                if !contains_string(&seen, &cs) {
                    seen.push(cs);
                    assert(seen.deep_view() =~= first_occurrences(r1).push(c@));
                }
            }
        }
        j += 1;
    }
    assert(ts.take(j as int) =~= ts);
    if seen.len() < 2 {
        return false;
    }
    let a = count_exec(trs, 2, st);
    let b = count_exec(trs, 3, st);
    a >= 4 || b >= 4 - a
}

/// The decisions that the drawing of the machine `sm` makes before placing
/// anything: each state's transitions in and out (between two states, not
/// from any state), whether its fan-in is high, the badges of its
/// high fan-in targets; the initial state as the entry hub; the exit hubs,
/// sorted; the lanes (calibration, mechanism, motion, recovery, general)
/// of the other states that are no fault states, each with at least one
/// state; and the fault states.
pub fn plan_state_machine_layout(sm: &AppStateMachine) -> (r: StateLayoutPlan)
    ensures
        ({
            let m = sm@;
            let trs = m.transitions;
            let vs = m.states;
            let init = machine_initial(m);
            &&& r.incoming@.len() == vs.len()
            &&& r.outgoing@.len() == vs.len()
            &&& r.high_fan_in@.len() == vs.len()
            &&& r.collapsed_badges@.len() == vs.len()
            &&& forall|k: int| 0 <= k < vs.len() ==> #[trigger] r.incoming@[k] == count_of(trs, 0, vs[k])
            &&& forall|k: int| 0 <= k < vs.len() ==> #[trigger] r.outgoing@[k] == count_of(trs, 1, vs[k])
            &&& forall|k: int| 0 <= k < vs.len() ==> #[trigger] r.high_fan_in@[k] == high_fan_in(trs, vs, vs[k])
            &&& forall|k: int| 0 <= k < vs.len() ==> (#[trigger] r.collapsed_badges@[k]).deep_view() == badges(trs, vs, vs[k])
            &&& r.entry_hub@ == init
            &&& strictly_sorted(r.exit_hubs.deep_view())
            &&& forall|t: Seq<char>| #[trigger] r.exit_hubs.deep_view().contains(t) <==> (vs.contains(t) && exit_hub(trs, t, init))
            &&& r.lanes@.map_values(|l: StateLane| (l.cluster@, l.states.deep_view())) == plan_lanes(lane_keys(), vs, trs, init)
            &&& r.fault_states.deep_view() == fault_states_of(vs)
        }),
{
    let ghost m = sm@;
    let ghost trs = m.transitions;
    let ghost vs = m.states;
    let init: &str = match &sm.var.initial_value {
        Some(v) => v.as_str(),
        None => "IDLE",
    };
    assert(init@ == machine_initial(m)) by {
        reveal_strlit("IDLE");
    }
    let mut incoming: Vec<usize> = Vec::new();
    let mut outgoing: Vec<usize> = Vec::new();
    let mut high: Vec<bool> = Vec::new();
    let mut badge_lists: Vec<Vec<String>> = Vec::new();
    let mut exits: Vec<String> = Vec::new();
    let mut faults: Vec<String> = Vec::new();
    let mut k: usize = 0;
    while k < sm.states.len()
        invariant
            0 <= k <= sm.states@.len(),
            m == sm@,
            trs == m.transitions,
            vs == m.states,
            init@ == machine_initial(m),
            incoming@.len() == k,
            outgoing@.len() == k,
            high@.len() == k,
            badge_lists@.len() == k,
            forall|a: int| 0 <= a < k ==> #[trigger] incoming@[a] == count_of(trs, 0, vs[a]),
            forall|a: int| 0 <= a < k ==> #[trigger] outgoing@[a] == count_of(trs, 1, vs[a]),
            forall|a: int| 0 <= a < k ==> #[trigger] high@[a] == high_fan_in(trs, vs, vs[a]),
            forall|a: int| 0 <= a < k ==> (#[trigger] badge_lists@[a]).deep_view() == badges(trs, vs, vs[a]),
            strictly_sorted(exits.deep_view()),
            forall|t: Seq<char>| #[trigger] exits.deep_view().contains(t) <==> (vs.take(k as int).contains(t) && exit_hub(trs, t, init@)),
            faults.deep_view() == fault_states_of(vs.take(k as int)),
        decreases sm.states.len() - k,
    {
        let st = &sm.states[k];
        assert(vs[k as int] == st@);
        assert(vs.take(k + 1).drop_last() =~= vs.take(k as int));
        assert(vs.take(k + 1).last() == st@);
        incoming.push(count_exec(&sm.transitions, 0, st.as_str()));
        outgoing.push(count_exec(&sm.transitions, 1, st.as_str()));
        high.push(high_fan_in_exec(&sm.transitions, &sm.states, st));
        badge_lists.push(badges_exec(&sm.transitions, &sm.states, st.as_str()));
        let ghost old_exits = exits.deep_view();
        let ghost pre = vs.take(k as int);
        let ghost nxt = vs.take(k + 1);
        assert forall|t: Seq<char>| #[trigger] nxt.contains(t) <==> (pre.contains(t) || t == st@) by {
            if nxt.contains(t) {
                let a = choose|a: int| 0 <= a < nxt.len() && nxt[a] == t;
                if a < k {
                    assert(pre[a] == t);
                }
            }
            if pre.contains(t) {
                let a = choose|a: int| 0 <= a < pre.len() && pre[a] == t;
                assert(nxt[a] == t);
            }
            if t == st@ {
                assert(nxt[k as int] == t);
            }
        }
        if exit_hub_exec(&sm.transitions, st.as_str(), init) {
            insert_sorted(&mut exits, owned(st.as_str()));
            assert forall|t: Seq<char>| #[trigger] exits.deep_view().contains(t) <==> (vs.take(k + 1).contains(t) && exit_hub(trs, t, init@)) by {
                assert(old_exits.contains(t) <==> (pre.contains(t) && exit_hub(trs, t, init@)));
            }
        } else {
            assert forall|t: Seq<char>| #[trigger] exits.deep_view().contains(t) <==> (vs.take(k + 1).contains(t) && exit_hub(trs, t, init@)) by {
                assert(old_exits.contains(t) <==> (pre.contains(t) && exit_hub(trs, t, init@)));
            }
        }
        if is_fault_state(st.as_str()) {
            faults.push(owned(st.as_str()));
            assert(faults.deep_view() =~= fault_states_of(pre).push(st@));
        }
        k += 1;
    }
    assert(vs.take(k as int) =~= vs);
    let lanes = lanes_exec(sm, init);
    StateLayoutPlan {
        incoming,
        outgoing,
        high_fan_in: high,
        collapsed_badges: badge_lists,
        entry_hub: owned(init),
        exit_hubs: exits,
        lanes,
        fault_states: faults,
    }
}

/// The states of the lane `key`.
fn lane_states_exec(sm: &AppStateMachine, init: &str, key: &str) -> (r: Vec<String>)
    ensures
        r.deep_view() == lane_states(sm@.states, sm@.transitions, init@, key@),
{
    let ghost vs = sm@.states;
    let ghost trs = sm@.transitions;
    let mut out: Vec<String> = Vec::new();
    let mut k: usize = 0;
    while k < sm.states.len()
        invariant
            0 <= k <= sm.states@.len(),
            vs == sm@.states,
            trs == sm@.transitions,
            out.deep_view() == lane_states(vs.take(k as int), trs, init@, key@),
        decreases sm.states.len() - k,
    {
        let st = &sm.states[k];
        assert(vs[k as int] == st@);
        assert(vs.take(k + 1).drop_last() =~= vs.take(k as int));
        assert(vs.take(k + 1).last() == st@);
        if !is_fault_state(st.as_str()) && !str_eq(st.as_str(), init) && !exit_hub_exec(&sm.transitions, st.as_str(), init) {
            let c = infer_cluster_name(st.as_str(), init);
            proof {
                reveal_strlit("CALIBRATION");
                reveal_strlit("MECHANISM");
                reveal_strlit("MOTION");
                reveal_strlit("RECOVERY");
                reveal_strlit("GENERAL");
            }
            let lk = if str_eq(c, "CALIBRATION") || str_eq(c, "MECHANISM") || str_eq(c, "MOTION") || str_eq(c, "RECOVERY") {
                c
            } else {
                "GENERAL"
            };
            assert(lk@ == lane_key(st@, init@));
            if str_eq(lk, key) {
                out.push(owned(st.as_str()));
                assert(out.deep_view() =~= lane_states(vs.take(k as int), trs, init@, key@).push(st@));
            }
        }
        k += 1;
    }
    assert(vs.take(k as int) =~= vs);
    out
}

/// The lanes that hold a state.
fn lanes_exec(sm: &AppStateMachine, init: &str) -> (r: Vec<StateLane>)
    ensures
        r@.map_values(|l: StateLane| (l.cluster@, l.states.deep_view())) == plan_lanes(
            lane_keys(),
            sm@.states,
            sm@.transitions,
            init@,
        ),
{
    let ghost vs = sm@.states;
    let ghost trs = sm@.transitions;
    let mut keys: Vec<&str> = Vec::new();
    keys.push("CALIBRATION");
    keys.push("MECHANISM");
    keys.push("MOTION");
    keys.push("RECOVERY");
    keys.push("GENERAL");
    let ghost kv = keys@.map_values(|s: &str| s@);
    assert(kv =~= lane_keys());
    let mut out: Vec<StateLane> = Vec::new();
    let mut i: usize = 0;
    while i < keys.len()
        invariant
            0 <= i <= keys@.len(),
            kv == keys@.map_values(|s: &str| s@),
            vs == sm@.states,
            trs == sm@.transitions,
            out@.map_values(|l: StateLane| (l.cluster@, l.states.deep_view())) == plan_lanes(kv.take(i as int), vs, trs, init@),
        decreases keys.len() - i,
    {
        assert(kv.take(i + 1).drop_last() =~= kv.take(i as int));
        assert(kv.take(i + 1).last() == keys@[i as int]@);
        let states = lane_states_exec(sm, init, keys[i]);
        if states.len() > 0 {
            let ghost before = out@.map_values(|l: StateLane| (l.cluster@, l.states.deep_view()));
            let lane = StateLane { cluster: owned(keys[i]), states };
            out.push(lane);
            assert(out@.map_values(|l: StateLane| (l.cluster@, l.states.deep_view())) =~= before.push(
                (keys@[i as int]@, lane_states(vs, trs, init@, keys@[i as int]@)),
            ));
        }
        i += 1;
    }
    assert(kv.take(i as int) =~= kv);
    out
}

/// The lanes of a plan, each as its cluster and its states.
pub open spec fn lanes_view(lanes: Seq<StateLane>) -> Seq<(Seq<char>, Seq<Seq<char>>)> {
    lanes.map_values(|l: StateLane| (l.cluster@, l.states.deep_view()))
}

/// The cluster of the last lane that holds `st`.
pub open spec fn lane_cluster_of(lanes: Seq<(Seq<char>, Seq<Seq<char>>)>, st: Seq<char>) -> Option<Seq<char>>
    decreases lanes.len(),
{
    if lanes.len() == 0 {
        None
    } else if lanes.last().1.contains(st) {
        Some(lanes.last().0)
    } else {
        lane_cluster_of(lanes.drop_last(), st)
    }
}

/// The cluster of the node that the drawing places for `st`, if it places
/// one: a fault state is drawn in the fault row, an exit hub in the cluster
/// of its name, the entry hub in the initial cluster, and any other state
/// in the last lane that holds it.
pub open spec fn placed_cluster(
    faults: Seq<Seq<char>>,
    exits: Seq<Seq<char>>,
    entry: Seq<char>,
    lanes: Seq<(Seq<char>, Seq<Seq<char>>)>,
    init: Seq<char>,
    st: Seq<char>,
) -> Option<Seq<char>> {
    if faults.contains(st) {
        Some("FAULT"@)
    } else if exits.contains(st) {
        Some(cluster_name(st, init))
    } else if st == entry {
        Some("INITIAL"@)
    } else {
        lane_cluster_of(lanes, st)
    }
}

/// Some state `vs[k]` named `st` is marked in `marks`.
pub open spec fn marked(vs: Seq<Seq<char>>, marks: Seq<bool>, st: Seq<char>) -> bool {
    exists|k: int| 0 <= k < vs.len() && k < marks.len() && vs[k] == st && marks[k]
}

/// How a drawn transition is drawn.
pub struct EdgeDecision {
    /// It ends at a high fan-in state that it does not start from.
    pub high_fan_in: bool,
    /// Its two ends lie in different clusters.
    pub inter_cluster: bool,
}

/// The decision as a pair of flags, `None` for a transition not drawn.
pub open spec fn decision_view(d: Option<EdgeDecision>) -> Option<(bool, bool)> {
    match d {
        Some(e) => Some((e.high_fan_in, e.inter_cluster)),
        None => None,
    }
}

/// The decision for `t`: drawn when both its ends are placed.
pub open spec fn edge_decision(
    vs: Seq<Seq<char>>,
    marks: Seq<bool>,
    faults: Seq<Seq<char>>,
    exits: Seq<Seq<char>>,
    entry: Seq<char>,
    lanes: Seq<(Seq<char>, Seq<Seq<char>>)>,
    init: Seq<char>,
    t: TransitionSpec,
) -> Option<(bool, bool)> {
    match (
        placed_cluster(faults, exits, entry, lanes, init, t.from),
        placed_cluster(faults, exits, entry, lanes, init, t.to),
    ) {
        (Some(a), Some(b)) => Some((marked(vs, marks, t.to) && t.from != t.to, a != b)),
        _ => None,
    }
}

/// The cluster of the last lane of `lanes` that holds `st`.
fn lane_cluster_exec(lanes: &Vec<StateLane>, st: &String) -> (r: Option<String>)
    ensures
        r.deep_view() == lane_cluster_of(lanes_view(lanes@), st@),
{
    let ghost lv = lanes_view(lanes@);
    let mut i: usize = lanes.len();
    assert(lv.take(i as int) =~= lv);
    while i > 0
        invariant
            0 <= i <= lanes@.len(),
            lv == lanes_view(lanes@),
            lane_cluster_of(lv, st@) == lane_cluster_of(lv.take(i as int), st@),
        decreases i,
    {
        let l = &lanes[i - 1];
        assert(lv.take(i as int).drop_last() =~= lv.take(i - 1));
        assert(lv.take(i as int).last() == (l.cluster@, l.states.deep_view()));
        if contains_string(&l.states, st) {
            return Some(l.cluster.clone());
        }
        i -= 1;
    }
    assert(lv.take(0) =~= Seq::<(Seq<char>, Seq<Seq<char>>)>::empty());
    None
}

/// The cluster of the node placed for `st`, as `placed_cluster` gives it.
fn placed_cluster_exec(plan: &StateLayoutPlan, init: &str, st: &String) -> (r: Option<String>)
    ensures
        r.deep_view() == placed_cluster(
            plan.fault_states.deep_view(),
            plan.exit_hubs.deep_view(),
            plan.entry_hub@,
            lanes_view(plan.lanes@),
            init@,
            st@,
        ),
{
    proof {
        reveal_strlit("FAULT");
        reveal_strlit("INITIAL");
    }
    if contains_string(&plan.fault_states, st) {
        Some(owned("FAULT"))
    } else if contains_string(&plan.exit_hubs, st) {
        Some(owned(infer_cluster_name(st.as_str(), init)))
    } else if str_eq(st.as_str(), plan.entry_hub.as_str()) {
        Some(owned("INITIAL"))
    } else {
        lane_cluster_exec(&plan.lanes, st)
    }
}

/// Whether a state named `st` is marked high fan-in in `marks`.
fn marked_exec(states: &Vec<String>, marks: &Vec<bool>, st: &String) -> (b: bool)
    ensures
        b == marked(states.deep_view(), marks@, st@),
{
    let ghost vs = states.deep_view();
    let mut k: usize = 0;
    while k < states.len() && k < marks.len()
        invariant
            0 <= k <= states@.len(),
            vs == states.deep_view(),
            forall|a: int| 0 <= a < k && a < marks@.len() && vs[a] == st@ ==> !marks@[a],
        decreases states.len() - k,
    {
        if marks[k] && str_eq(states[k].as_str(), st.as_str()) {
            assert(vs[k as int] == st@);
            return true;
        }
        k += 1;
    }
    false
}

/// Which transitions of `sm` the drawing draws under `plan`, and how: a
/// transition is drawn when both its ends are placed (`placed_cluster`); it
/// is a high fan-in edge when it ends at a state that the plan marks high
/// fan-in and does not start there, and an inter-cluster edge when its ends
/// lie in different clusters.
pub fn plan_drawn_edges(sm: &AppStateMachine, plan: &StateLayoutPlan) -> (r: Vec<Option<EdgeDecision>>)
    ensures
        r@.len() == sm@.transitions.len(),
        forall|i: int|
            0 <= i < r@.len() ==> decision_view(#[trigger] r@[i]) == edge_decision(
                sm@.states,
                plan.high_fan_in@,
                plan.fault_states.deep_view(),
                plan.exit_hubs.deep_view(),
                plan.entry_hub@,
                lanes_view(plan.lanes@),
                machine_initial(sm@),
                sm@.transitions[i],
            ),
{
    let init: &str = match &sm.var.initial_value {
        Some(v) => v.as_str(),
        None => "IDLE",
    };
    assert(init@ == machine_initial(sm@)) by {
        reveal_strlit("IDLE");
    }
    let ghost trs = sm@.transitions;
    assert(sm@.states == sm.states.deep_view());
    let mut out: Vec<Option<EdgeDecision>> = Vec::new();
    let mut i: usize = 0;
    while i < sm.transitions.len()
        invariant
            0 <= i <= sm.transitions@.len(),
            trs == sm@.transitions,
            sm@.states == sm.states.deep_view(),
            init@ == machine_initial(sm@),
            out@.len() == i,
            forall|a: int|
                0 <= a < i ==> decision_view(#[trigger] out@[a]) == edge_decision(
                    sm@.states,
                    plan.high_fan_in@,
                    plan.fault_states.deep_view(),
                    plan.exit_hubs.deep_view(),
                    plan.entry_hub@,
                    lanes_view(plan.lanes@),
                    init@,
                    trs[a],
                ),
        decreases sm.transitions.len() - i,
    {
        let t = &sm.transitions[i];
        assert(trs[i as int] == t@);
        let a = placed_cluster_exec(plan, init, &t.from);
        let b = placed_cluster_exec(plan, init, &t.to);
        let d = match (a, b) {
            (Some(ca), Some(cb)) => {
                let high = marked_exec(&sm.states, &plan.high_fan_in, &t.to) && !str_eq(
                    t.from.as_str(),
                    t.to.as_str(),
                );
                Some(EdgeDecision { high_fan_in: high, inter_cluster: !str_eq(ca.as_str(), cb.as_str()) })
            },
            _ => None,
        };
        out.push(d);
        i += 1;
    }
    out
}

/// The last index of `x` in `v`.
pub open spec fn last_pos(v: Seq<Seq<char>>, x: Seq<char>) -> Option<int>
    decreases v.len(),
{
    if v.len() == 0 {
        None
    } else if v.last() == x {
        Some(v.len() - 1)
    } else {
        last_pos(v.drop_last(), x)
    }
}

/// The edges of the graph of one lane: for each transition between two
/// different states of the lane, in order, the transition's index and the
/// places of its two ends in the lane (the last place of a name that occurs
/// twice).
pub open spec fn lane_edges_of(lane: Seq<Seq<char>>, trs: Seq<TransitionSpec>) -> Seq<(int, int, int)>
    decreases trs.len(),
{
    if trs.len() == 0 {
        seq![]
    } else {
        let rest = lane_edges_of(lane, trs.drop_last());
        let t = trs.last();
        match (last_pos(lane, t.from), last_pos(lane, t.to)) {
            (Some(a), Some(b)) => if t.from != t.to {
                rest.push((trs.len() - 1, a, b))
            } else {
                rest
            },
            _ => rest,
        }
    }
}

/// The last place of `x` in `v`.
fn last_pos_exec(v: &Vec<String>, x: &String) -> (r: Option<usize>)
    ensures
        match r {
            Some(k) => last_pos(v.deep_view(), x@) == Some(k as int),
            None => last_pos(v.deep_view(), x@) is None,
        },
{
    let ghost dv = v.deep_view();
    let mut i: usize = v.len();
    assert(dv.take(i as int) =~= dv);
    while i > 0
        invariant
            0 <= i <= v@.len(),
            dv == v.deep_view(),
            last_pos(dv, x@) == last_pos(dv.take(i as int), x@),
        decreases i,
    {
        assert(dv.take(i as int).drop_last() =~= dv.take(i - 1));
        assert(dv.take(i as int).last() == v@[i - 1]@);
        if str_eq(v[i - 1].as_str(), x.as_str()) {
            return Some(i - 1);
        }
        i -= 1;
    }
    assert(dv.take(0) =~= Seq::<Seq<char>>::empty());
    None
}

/// The edges of the graph of the lane `lane` of `sm`, as `lane_edges_of`
/// gives them.
pub fn lane_edges(sm: &AppStateMachine, lane: &Vec<String>) -> (r: Vec<(usize, usize, usize)>)
    ensures
        r@.map_values(|e: (usize, usize, usize)| (e.0 as int, e.1 as int, e.2 as int)) == lane_edges_of(
            lane.deep_view(),
            sm@.transitions,
        ),
{
    let ghost trs = sm@.transitions;
    let ghost lv = lane.deep_view();
    let mut out: Vec<(usize, usize, usize)> = Vec::new();
    let mut k: usize = 0;
    while k < sm.transitions.len()
        invariant
            0 <= k <= sm.transitions@.len(),
            trs == sm@.transitions,
            lv == lane.deep_view(),
            out@.map_values(|e: (usize, usize, usize)| (e.0 as int, e.1 as int, e.2 as int)) == lane_edges_of(
                lv,
                trs.take(k as int),
            ),
        decreases sm.transitions.len() - k,
    {
        let t = &sm.transitions[k];
        assert(trs.take(k + 1).drop_last() =~= trs.take(k as int));
        assert(trs.take(k + 1).last() == t@);
        let ghost before = out@.map_values(|e: (usize, usize, usize)| (e.0 as int, e.1 as int, e.2 as int));
        let a = last_pos_exec(lane, &t.from);
        let b = last_pos_exec(lane, &t.to);
        match (a, b) {
            (Some(x), Some(y)) => {
                if !str_eq(t.from.as_str(), t.to.as_str()) {
                    out.push((k, x, y));
                    assert(out@.map_values(|e: (usize, usize, usize)| (e.0 as int, e.1 as int, e.2 as int))
                        =~= before.push((k as int, x as int, y as int)));
                }
            },
            _ => {},
        }
        k += 1;
    }
    assert(trs.take(k as int) =~= trs);
    out
}

} // verus!
