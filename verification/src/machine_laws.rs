//! Properties of the peripheral state machines, of the HAL interrupt table,
//! of guard labels and of the board's reserved pins.
use vstd::prelude::*;
use crate::builder::{EdgeType, EdgeView};
use crate::state_transition::{
    callback_pred, cb_fold, cb_step, irq_pred, irq_states, irq_transitions, peripheral_machine, CbAcc,
    StateNodeView, TransitionView,
};
use crate::text::{
    decimal, digit_char, find, find_from, is_ws, lemma_find_from_props, lemma_trim_end_len, lemma_trim_start_len,
    occurs_at, contains, join, trim, trim_end, trim_start,
};
use crate::prettify::{guard_core, guard_label};
use crate::nucleo_pinout::{
    location_index_from, pinout_table, reserved_index_from, reserved_table, PinLocationView, ReservedPinView,
};

verus! {

/// `p + a == p + b` only when `a == b`.
proof fn lemma_prefix_cancel(p: Seq<char>, a: Seq<char>, b: Seq<char>)
    requires
        p + a == p + b,
    ensures
        a == b,
{
    assert((p + a).subrange(p.len() as int, (p + a).len() as int) =~= a);
    assert((p + b).subrange(p.len() as int, (p + b).len() as int) =~= b);
}

proof fn lemma_prefix_ne(p: Seq<char>, a: Seq<char>, b: Seq<char>)
    requires
        a != b,
    ensures
        p + a != p + b,
{
    if p + a == p + b {
        lemma_prefix_cancel(p, a, b);
    }
}

/// What follows the prefix `p` in `id`.
spec fn drop_p(p: Seq<char>, id: Seq<char>) -> Seq<char> {
    id.subrange(p.len() as int, id.len() as int)
}

proof fn lemma_drop_p(p: Seq<char>, s: Seq<char>)
    ensures
        drop_p(p, p + s) == s,
{
    assert(drop_p(p, p + s) =~= s);
}

proof fn lemma_decimal_digits(n: nat)
    ensures
        decimal(n).len() >= 1,
        forall|i: int| 0 <= i < decimal(n).len() ==> '0' <= #[trigger] decimal(n)[i] <= '9',
        n >= 10 ==> decimal(n).len() >= 2,
    decreases n,
{
    if n >= 10 {
        lemma_decimal_digits(n / 10);
        let d = decimal(n / 10);
        assert forall|i: int| 0 <= i < decimal(n).len() implies '0' <= #[trigger] decimal(n)[i] <= '9' by {
            if i < d.len() {
                assert(decimal(n)[i] == d[i]);
            }
        }
    }
}

/// Two numbers with the same decimal digits are the same number.
proof fn lemma_decimal_injective(a: nat, b: nat)
    requires
        decimal(a) == decimal(b),
    ensures
        a == b,
    decreases a,
{
    lemma_decimal_digits(a);
    lemma_decimal_digits(b);
    if a < 10 && b < 10 {
        assert(decimal(a)[0] == digit_char(a));
        assert(decimal(b)[0] == digit_char(b));
    } else if a >= 10 && b >= 10 {
        assert(decimal(a).drop_last() == decimal(a / 10));
        assert(decimal(b).drop_last() == decimal(b / 10));
        assert(decimal(a).last() == digit_char(a % 10));
        assert(decimal(b).last() == digit_char(b % 10));
        lemma_decimal_injective(a / 10, b / 10);
        assert(a % 10 == b % 10);
    } else {
        assert(decimal(a).len() != decimal(b).len());
    }
}

/// The id suffix of the `k`-th callback state.
spec fn cb_sfx(k: nat) -> Seq<char> {
    "_CB_"@ + decimal(k)
}

/// The id suffixes of the transitions into and out of the `k`-th callback.
spec fn cb_in_sfx(k: nat) -> Seq<char> {
    "_t_cb_"@ + decimal(k)
}

spec fn cb_out_sfx(k: nat) -> Seq<char> {
    "_t_cb_ret_"@ + decimal(k)
}

/// A state id suffix that the walk over the callbacks may have made.
spec fn st_sfx_ok(acc: CbAcc, s: Seq<char>) -> bool {
    ||| s == "_RESET"@
    ||| s == "_READY"@
    ||| s == "_ACTIVE"@
    ||| s == "_ISR"@
    ||| (acc.has_error && s == "_ERROR"@)
    ||| exists|k: nat| 1 <= k <= acc.idx && s == #[trigger] cb_sfx(k)
}

/// A transition id suffix that the walk over the callbacks may have made.
spec fn tr_sfx_ok(acc: CbAcc, s: Seq<char>) -> bool {
    ||| s == "_t_init"@
    ||| s == "_t_arm"@
    ||| s == "_t_fire"@
    ||| (acc.has_error && (s == "_t_err"@ || s == "_t_err_recover"@))
    ||| exists|k: nat| 1 <= k <= acc.idx && s == #[trigger] cb_in_sfx(k)
    ||| exists|k: nat| 1 <= k <= acc.idx && s == #[trigger] cb_out_sfx(k)
}

/// Some state of `sts` has the id `id`.
pub open spec fn has_id(sts: Seq<StateNodeView>, id: Seq<char>) -> bool {
    exists|i: int| 0 <= i < sts.len() && sts[i].id == id
}

/// The state ids are distinct, the transition ids are distinct, and every
/// transition joins two states.
pub open spec fn machine_ids_ok(sts: Seq<StateNodeView>, trs: Seq<TransitionView>) -> bool {
    &&& forall|i: int, j: int| 0 <= i < j < sts.len() ==> #[trigger] sts[i].id != #[trigger] sts[j].id
    &&& forall|i: int, j: int| 0 <= i < j < trs.len() ==> #[trigger] trs[i].id != #[trigger] trs[j].id
    &&& forall|t: int| 0 <= t < trs.len() ==> has_id(sts, #[trigger] trs[t].from) && has_id(sts, trs[t].to)
}

/// What holds of the walk over the callbacks at every step.
spec fn acc_ok(p: Seq<char>, acc: CbAcc) -> bool {
    &&& machine_ids_ok(acc.states, acc.transitions)
    &&& forall|i: int|
        0 <= i < acc.states.len() ==> p + drop_p(p, #[trigger] acc.states[i].id) == acc.states[i].id && st_sfx_ok(
            acc,
            drop_p(p, acc.states[i].id),
        )
    &&& forall|i: int|
        0 <= i < acc.transitions.len() ==> p + drop_p(p, #[trigger] acc.transitions[i].id) == acc.transitions[i].id
            && tr_sfx_ok(acc, drop_p(p, acc.transitions[i].id))
    &&& has_id(acc.states, p + "_ISR"@)
    &&& has_id(acc.states, p + "_READY"@)
}

proof fn lemma_reveal_literals()
    ensures
        "_RESET"@ =~= seq!['_', 'R', 'E', 'S', 'E', 'T'],
        "_READY"@ =~= seq!['_', 'R', 'E', 'A', 'D', 'Y'],
        "_ACTIVE"@ =~= seq!['_', 'A', 'C', 'T', 'I', 'V', 'E'],
        "_ISR"@ =~= seq!['_', 'I', 'S', 'R'],
        "_ERROR"@ =~= seq!['_', 'E', 'R', 'R', 'O', 'R'],
        "_BUSY"@ =~= seq!['_', 'B', 'U', 'S', 'Y'],
        "_CB_"@ =~= seq!['_', 'C', 'B', '_'],
        "_t_init"@ =~= seq!['_', 't', '_', 'i', 'n', 'i', 't'],
        "_t_arm"@ =~= seq!['_', 't', '_', 'a', 'r', 'm'],
        "_t_fire"@ =~= seq!['_', 't', '_', 'f', 'i', 'r', 'e'],
        "_t_err"@ =~= seq!['_', 't', '_', 'e', 'r', 'r'],
        "_t_err_recover"@ =~= seq!['_', 't', '_', 'e', 'r', 'r', '_', 'r', 'e', 'c', 'o', 'v', 'e', 'r'],
        "_t_cb_"@ =~= seq!['_', 't', '_', 'c', 'b', '_'],
        "_t_cb_ret_"@ =~= seq!['_', 't', '_', 'c', 'b', '_', 'r', 'e', 't', '_'],
        "_t_isr_ret"@ =~= seq!['_', 't', '_', 'i', 's', 'r', '_', 'r', 'e', 't'],
        "_t_poll_start"@ =~= seq!['_', 't', '_', 'p', 'o', 'l', 'l', '_', 's', 't', 'a', 'r', 't'],
        "_t_poll_done"@ =~= seq!['_', 't', '_', 'p', 'o', 'l', 'l', '_', 'd', 'o', 'n', 'e'],
{
    reveal_strlit("_RESET");
    reveal_strlit("_READY");
    reveal_strlit("_ACTIVE");
    reveal_strlit("_ISR");
    reveal_strlit("_ERROR");
    reveal_strlit("_BUSY");
    reveal_strlit("_CB_");
    reveal_strlit("_t_init");
    reveal_strlit("_t_arm");
    reveal_strlit("_t_fire");
    reveal_strlit("_t_err");
    reveal_strlit("_t_err_recover");
    reveal_strlit("_t_cb_");
    reveal_strlit("_t_cb_ret_");
    reveal_strlit("_t_isr_ret");
    reveal_strlit("_t_poll_start");
    reveal_strlit("_t_poll_done");
}

/// The callback suffixes start with `_CB_` and a digit, the transition
/// ones with `_t_cb_` and a digit or `r`.
proof fn lemma_cb_shapes(k: nat)
    ensures
        cb_sfx(k).len() >= 5,
        cb_sfx(k)[1] == 'C',
        cb_in_sfx(k).len() >= 7,
        cb_in_sfx(k)[3] == 'c',
        '0' <= cb_in_sfx(k)[6] <= '9',
        cb_out_sfx(k).len() >= 11,
        cb_out_sfx(k)[3] == 'c',
        cb_out_sfx(k)[6] == 'r',
{
    lemma_reveal_literals();
    lemma_decimal_digits(k);
    assert(cb_in_sfx(k)[6] == decimal(k)[0]);
}

proof fn lemma_cb_sfx_injective(a: nat, b: nat)
    ensures
        cb_sfx(a) == cb_sfx(b) ==> a == b,
        cb_in_sfx(a) == cb_in_sfx(b) ==> a == b,
        cb_out_sfx(a) == cb_out_sfx(b) ==> a == b,
{
    if cb_sfx(a) == cb_sfx(b) {
        lemma_prefix_cancel("_CB_"@, decimal(a), decimal(b));
        lemma_decimal_injective(a, b);
    }
    if cb_in_sfx(a) == cb_in_sfx(b) {
        lemma_prefix_cancel("_t_cb_"@, decimal(a), decimal(b));
        lemma_decimal_injective(a, b);
    }
    if cb_out_sfx(a) == cb_out_sfx(b) {
        lemma_prefix_cancel("_t_cb_ret_"@, decimal(a), decimal(b));
        lemma_decimal_injective(a, b);
    }
}

/// A new state `p + s` whose suffix the old walk could not have made keeps
/// the ids distinct.
proof fn lemma_push_state(p: Seq<char>, acc: CbAcc, n: StateNodeView, s: Seq<char>)
    requires
        acc_ok(p, acc),
        n.id == p + s,
        !st_sfx_ok(acc, s),
    ensures
        forall|i: int| 0 <= i < acc.states.len() ==> #[trigger] acc.states[i].id != n.id,
{
    assert forall|i: int| 0 <= i < acc.states.len() implies #[trigger] acc.states[i].id != n.id by {
        let si = drop_p(p, acc.states[i].id);
        assert(st_sfx_ok(acc, si));
        lemma_prefix_ne(p, si, s);
    }
}

proof fn lemma_push_trans(p: Seq<char>, acc: CbAcc, t: TransitionView, s: Seq<char>)
    requires
        acc_ok(p, acc),
        t.id == p + s,
        !tr_sfx_ok(acc, s),
    ensures
        forall|i: int| 0 <= i < acc.transitions.len() ==> #[trigger] acc.transitions[i].id != t.id,
{
    assert forall|i: int| 0 <= i < acc.transitions.len() implies #[trigger] acc.transitions[i].id != t.id by {
        let si = drop_p(p, acc.transitions[i].id);
        assert(tr_sfx_ok(acc, si));
        lemma_prefix_ne(p, si, s);
    }
}

proof fn lemma_cb_step_ok(p: Seq<char>, acc: CbAcc, cb: Seq<char>)
    requires
        acc_ok(p, acc),
    ensures
        acc_ok(p, cb_step(p, acc, cb)),
{
    lemma_reveal_literals();
    let a2 = cb_step(p, acc, cb);
    let isr = p + "_ISR"@;
    let ready = p + "_READY"@;
    if a2 == acc {
        return;
    }
    let n = a2.states.last();
    let t1 = a2.transitions[acc.transitions.len() as int];
    let t2 = a2.transitions[acc.transitions.len() as int + 1];
    assert(a2.states == acc.states.push(n));
    assert(a2.transitions == acc.transitions.push(t1).push(t2));
    let (ns, s1, s2): (Seq<char>, Seq<char>, Seq<char>) = if !a2.has_error || acc.has_error {
        let k = acc.idx + 1;
        lemma_cb_shapes(k);
        assert(n.id =~= p + cb_sfx(k));
        assert(t1.id =~= p + cb_in_sfx(k));
        assert(t2.id =~= p + cb_out_sfx(k));
        (cb_sfx(k), cb_in_sfx(k), cb_out_sfx(k))
    } else {
        ("_ERROR"@, "_t_err"@, "_t_err_recover"@)
    };
    // The new suffixes are fresh.
    assert(!st_sfx_ok(acc, ns)) by {
        if exists|k: nat| 1 <= k <= acc.idx && ns == #[trigger] cb_sfx(k) {
            let k = choose|k: nat| 1 <= k <= acc.idx && ns == #[trigger] cb_sfx(k);
            lemma_cb_shapes(k);
            lemma_cb_sfx_injective(k, acc.idx + 1);
        }
        if ns != "_ERROR"@ {
            lemma_cb_shapes(acc.idx + 1);
            assert(ns[1] != "_RESET"@[1]);
            assert(ns[1] != "_ACTIVE"@[1]);
            assert(ns[1] != "_ISR"@[1]);
            assert(ns[1] != "_ERROR"@[1]);
        }
    }
    assert(!tr_sfx_ok(acc, s1) && !tr_sfx_ok(acc, s2) && s1 != s2) by {
        if exists|k: nat| 1 <= k <= acc.idx && s1 == #[trigger] cb_in_sfx(k) {
            let k = choose|k: nat| 1 <= k <= acc.idx && s1 == #[trigger] cb_in_sfx(k);
            lemma_cb_shapes(k);
            lemma_cb_shapes(acc.idx + 1);
            lemma_cb_sfx_injective(k, acc.idx + 1);
        }
        if exists|k: nat| 1 <= k <= acc.idx && s1 == #[trigger] cb_out_sfx(k) {
            let k = choose|k: nat| 1 <= k <= acc.idx && s1 == #[trigger] cb_out_sfx(k);
            lemma_cb_shapes(k);
            lemma_cb_shapes(acc.idx + 1);
        }
        if exists|k: nat| 1 <= k <= acc.idx && s2 == #[trigger] cb_in_sfx(k) {
            let k = choose|k: nat| 1 <= k <= acc.idx && s2 == #[trigger] cb_in_sfx(k);
            lemma_cb_shapes(k);
            lemma_cb_shapes(acc.idx + 1);
        }
        if exists|k: nat| 1 <= k <= acc.idx && s2 == #[trigger] cb_out_sfx(k) {
            let k = choose|k: nat| 1 <= k <= acc.idx && s2 == #[trigger] cb_out_sfx(k);
            lemma_cb_shapes(k);
            lemma_cb_shapes(acc.idx + 1);
            lemma_cb_sfx_injective(k, acc.idx + 1);
        }
        lemma_cb_shapes(acc.idx + 1);
        assert(s1[3] != "_t_init"@[3]);
        assert(s1[3] != "_t_arm"@[3]);
        assert(s1[3] != "_t_fire"@[3]);
        assert(s2[3] != "_t_init"@[3]);
        assert(s2[3] != "_t_arm"@[3]);
        assert(s2[3] != "_t_fire"@[3]);
        if s1 != "_t_err"@ {
            assert(s1[6] != s2[6]);
            assert(s1[3] != "_t_err"@[3]);
            assert(s2[3] != "_t_err"@[3]);
            assert(s1[3] != "_t_err_recover"@[3]);
            assert(s2[3] != "_t_err_recover"@[3]);
        } else {
            assert(s1.len() != s2.len());
        }
    }
    lemma_push_state(p, acc, n, ns);
    lemma_push_trans(p, acc, t1, s1);
    lemma_push_trans(p, acc, t2, s2);
    lemma_drop_p(p, ns);
    lemma_drop_p(p, s1);
    lemma_drop_p(p, s2);
    assert(t1.id != t2.id) by {
        lemma_prefix_ne(p, s1, s2);
    }
    // Suffixes allowed before stay allowed.
    assert forall|s: Seq<char>| st_sfx_ok(acc, s) implies st_sfx_ok(a2, s) by {
        if exists|k: nat| 1 <= k <= acc.idx && s == #[trigger] cb_sfx(k) {
            let k = choose|k: nat| 1 <= k <= acc.idx && s == #[trigger] cb_sfx(k);
            assert(1 <= k <= a2.idx && s == cb_sfx(k));
        }
    }
    assert forall|s: Seq<char>| tr_sfx_ok(acc, s) implies tr_sfx_ok(a2, s) by {
        if exists|k: nat| 1 <= k <= acc.idx && s == #[trigger] cb_in_sfx(k) {
            let k = choose|k: nat| 1 <= k <= acc.idx && s == #[trigger] cb_in_sfx(k);
            assert(1 <= k <= a2.idx && s == cb_in_sfx(k));
        }
        if exists|k: nat| 1 <= k <= acc.idx && s == #[trigger] cb_out_sfx(k) {
            let k = choose|k: nat| 1 <= k <= acc.idx && s == #[trigger] cb_out_sfx(k);
            assert(1 <= k <= a2.idx && s == cb_out_sfx(k));
        }
    }
    if !a2.has_error || acc.has_error {
        let k = acc.idx + 1;
        assert(st_sfx_ok(a2, ns) && ns == cb_sfx(k));
        assert(tr_sfx_ok(a2, s1) && s1 == cb_in_sfx(k));
        assert(tr_sfx_ok(a2, s2) && s2 == cb_out_sfx(k));
    }
    let last = acc.states.len() as int;
    assert(a2.states[last] == n);
    let i_isr = choose|i: int| 0 <= i < acc.states.len() && acc.states[i].id == isr;
    let i_ready = choose|i: int| 0 <= i < acc.states.len() && acc.states[i].id == ready;
    assert(a2.states[i_isr] == acc.states[i_isr]);
    assert(a2.states[i_ready] == acc.states[i_ready]);
    assert forall|t: int| 0 <= t < a2.transitions.len() implies has_id(a2.states, #[trigger] a2.transitions[t].from)
        && has_id(a2.states, a2.transitions[t].to) by {
        if t < acc.transitions.len() {
            assert(a2.transitions[t] == acc.transitions[t]);
            let i = choose|i: int| 0 <= i < acc.states.len() && acc.states[i].id == acc.transitions[t].from;
            let j = choose|j: int| 0 <= j < acc.states.len() && acc.states[j].id == acc.transitions[t].to;
            assert(a2.states[i] == acc.states[i]);
            assert(a2.states[j] == acc.states[j]);
        }
    }
    assert forall|i: int, j: int| 0 <= i < j < a2.states.len() implies #[trigger] a2.states[i].id != #[trigger] a2.states[j].id by {
        assert(a2.states[i] == acc.states[i]);
        if j < last {
            assert(a2.states[j] == acc.states[j]);
        }
    }
    assert forall|i: int, j: int| 0 <= i < j < a2.transitions.len() implies #[trigger] a2.transitions[i].id
        != #[trigger] a2.transitions[j].id by {
        let m = acc.transitions.len() as int;
        if j < m {
            assert(a2.transitions[i] == acc.transitions[i]);
            assert(a2.transitions[j] == acc.transitions[j]);
        } else if i < m {
            assert(a2.transitions[i] == acc.transitions[i]);
        }
    }
    assert forall|i: int| 0 <= i < a2.states.len() implies p + drop_p(p, #[trigger] a2.states[i].id)
        == a2.states[i].id && st_sfx_ok(a2, drop_p(p, a2.states[i].id)) by {
        if i < last {
            assert(a2.states[i] == acc.states[i]);
        }
    }
    assert forall|i: int| 0 <= i < a2.transitions.len() implies p + drop_p(p, #[trigger] a2.transitions[i].id)
        == a2.transitions[i].id && tr_sfx_ok(a2, drop_p(p, a2.transitions[i].id)) by {
        if i < acc.transitions.len() {
            assert(a2.transitions[i] == acc.transitions[i]);
        }
    }
}

proof fn lemma_cb_fold_ok(p: Seq<char>, acc: CbAcc, cbs: Seq<EdgeView>)
    requires
        acc_ok(p, acc),
    ensures
        acc_ok(p, cb_fold(p, acc, cbs)),
    decreases cbs.len(),
{
    if cbs.len() > 0 {
        lemma_cb_fold_ok(p, acc, cbs.drop_last());
        lemma_cb_step_ok(p, cb_fold(p, acc, cbs.drop_last()), cbs.last().to);
    }
}

/// The machine of every peripheral has distinct state ids and distinct
/// transition ids, and each of its transitions goes from one of its states
/// to one of its states.
pub proof fn law_peripheral_machine_ids(p: Seq<char>, edges: Seq<EdgeView>)
    ensures
        machine_ids_ok(peripheral_machine(p, edges).states, peripheral_machine(p, edges).transitions),
{
    lemma_reveal_literals();
    let m = peripheral_machine(p, edges);
    let irqs = edges.filter(irq_pred(p));
    if irqs.len() > 0 {
        let s1 = irq_states(p);
        let t1 = irq_transitions(p, edges);
        let a0 = CbAcc { has_error: false, idx: 0, states: s1, transitions: t1 };
        let sfx = seq!["_RESET"@, "_READY"@, "_ACTIVE"@, "_ISR"@];
        let tsfx = seq!["_t_init"@, "_t_arm"@, "_t_fire"@];
        assert forall|i: int| 0 <= i < 4 implies s1[i].id == p + sfx[i] by {}
        assert forall|i: int| 0 <= i < 3 implies t1[i].id == p + tsfx[i] by {}
        assert forall|i: int, j: int| 0 <= i < j < 4 implies #[trigger] s1[i].id != #[trigger] s1[j].id by {
            assert(sfx[i][3] != sfx[j][3]);
            lemma_prefix_ne(p, sfx[i], sfx[j]);
        }
        assert forall|i: int, j: int| 0 <= i < j < 3 implies #[trigger] t1[i].id != #[trigger] t1[j].id by {
            assert(tsfx[i][3] != tsfx[j][3]);
            lemma_prefix_ne(p, tsfx[i], tsfx[j]);
        }
        assert(has_id(s1, p + "_ISR"@)) by {
            assert(s1[3].id == p + "_ISR"@);
        }
        assert(has_id(s1, p + "_READY"@)) by {
            assert(s1[1].id == p + "_READY"@);
        }
        assert(has_id(s1, p + "_RESET"@)) by {
            assert(s1[0].id == p + "_RESET"@);
        }
        assert(has_id(s1, p + "_ACTIVE"@)) by {
            assert(s1[2].id == p + "_ACTIVE"@);
        }
        assert forall|i: int| 0 <= i < s1.len() implies p + drop_p(p, #[trigger] s1[i].id) == s1[i].id && st_sfx_ok(
            a0,
            drop_p(p, s1[i].id),
        ) by {
            lemma_drop_p(p, sfx[i]);
        }
        assert forall|i: int| 0 <= i < t1.len() implies p + drop_p(p, #[trigger] t1[i].id) == t1[i].id && tr_sfx_ok(
            a0,
            drop_p(p, t1[i].id),
        ) by {
            lemma_drop_p(p, tsfx[i]);
        }
        assert(acc_ok(p, a0));
        let cbs = edges.filter(callback_pred(irqs));
        lemma_cb_fold_ok(p, a0, cbs);
        let acc = cb_fold(p, a0, cbs);
        if cbs.len() == 0 {
            let t = m.transitions.last();
            assert(acc == a0);
            assert(m.transitions == t1.push(t));
            assert(t.id == p + "_t_isr_ret"@);
            assert forall|i: int| 0 <= i < 3 implies #[trigger] t1[i].id != t.id by {
                assert(tsfx[i][3] != "_t_isr_ret"@[3] || tsfx[i].len() != "_t_isr_ret"@.len());
                lemma_prefix_ne(p, tsfx[i], "_t_isr_ret"@);
            }
            assert forall|i: int, j: int| 0 <= i < j < m.transitions.len() implies #[trigger] m.transitions[i].id
                != #[trigger] m.transitions[j].id by {
                if j < 3 {
                    assert(m.transitions[i] == t1[i] && m.transitions[j] == t1[j]);
                } else {
                    assert(m.transitions[i] == t1[i]);
                }
            }
            assert forall|t2: int| 0 <= t2 < m.transitions.len() implies has_id(m.states, #[trigger] m.transitions[t2].from)
                && has_id(m.states, m.transitions[t2].to) by {
                if t2 < 3 {
                    assert(m.transitions[t2] == t1[t2]);
                }
            }
        }
    } else {
        let sfx = seq!["_RESET"@, "_READY"@, "_BUSY"@];
        let tsfx = seq!["_t_init"@, "_t_poll_start"@, "_t_poll_done"@];
        assert forall|i: int| 0 <= i < 3 implies m.states[i].id == p + sfx[i] by {}
        assert forall|i: int| 0 <= i < 3 implies m.transitions[i].id == p + tsfx[i] by {}
        assert forall|i: int, j: int| 0 <= i < j < m.states.len() implies #[trigger] m.states[i].id
            != #[trigger] m.states[j].id by {
            assert(sfx[i][1] != sfx[j][1] || sfx[i][3] != sfx[j][3]);
            lemma_prefix_ne(p, sfx[i], sfx[j]);
        }
        assert forall|i: int, j: int| 0 <= i < j < m.transitions.len() implies #[trigger] m.transitions[i].id
            != #[trigger] m.transitions[j].id by {
            assert(tsfx[i][3] != tsfx[j][3] || tsfx[i][8] != tsfx[j][8]);
            lemma_prefix_ne(p, tsfx[i], tsfx[j]);
        }
        assert(m.states[1].id == p + "_READY"@);
        assert(m.states[2].id == p + "_BUSY"@);
        assert(m.states[0].id == p + "_RESET"@);
        assert forall|t: int| 0 <= t < m.transitions.len() implies has_id(m.states, #[trigger] m.transitions[t].from)
            && has_id(m.states, m.transitions[t].to) by {}
    }
}


proof fn lemma_trim_start_append(a: Seq<char>, b: Seq<char>)
    requires
        trim_start(a).len() > 0,
    ensures
        trim_start(a + b) == trim_start(a) + b,
    decreases a.len(),
{
    if a.len() > 0 && is_ws(a[0]) {
        assert((a + b).drop_first() =~= a.drop_first() + b);
        lemma_trim_start_append(a.drop_first(), b);
    } else {
        assert(a.len() > 0);
    }
}

proof fn lemma_trim_end_last(s: Seq<char>)
    ensures
        trim_end(s).len() > 0 ==> !is_ws(trim_end(s).last()),
    decreases s.len(),
{
    if s.len() > 0 && is_ws(s.last()) {
        lemma_trim_end_last(s.drop_last());
    }
}

/// Trimming twice trims no more, nor does trimming what starts trimmed.
proof fn lemma_trim_twice(g: Seq<char>)
    ensures
        trim(trim(g)) == trim(g),
        trim(trim_start(g)) == trim(g),
{
    lemma_trim_start_len(g);
    let x = trim_start(g);
    lemma_trim_start_len(x);
    assert(trim_start(x) == x);
    lemma_trim_end_len(x);
    let y = trim_end(x);
    lemma_trim_end_last(x);
    if y.len() > 0 {
        assert(y[0] == x[0]);
    }
    lemma_trim_start_len(y);
    assert(trim_start(y) == y);
    lemma_trim_end_len(y);
    lemma_trim_end_last(y);
    if y.len() > 0 {
        assert(trim_end(y) == y);
    }
}

/// A piece of `g` holds no `p` where `g` holds none.
proof fn lemma_no_find_in_piece(g: Seq<char>, k0: int, n: int, p: Seq<char>, j: int)
    requires
        0 <= k0 <= k0 + n <= g.len(),
        !contains(g, p),
    ensures
        !occurs_at(g.subrange(k0, k0 + n), p, j),
{
    lemma_find_from_props(g, p, 0);
    if occurs_at(g.subrange(k0, k0 + n), p, j) {
        assert(g.subrange(k0 + j, k0 + j + p.len()) =~= g.subrange(k0, k0 + n).subrange(j, j + p.len()));
        assert(occurs_at(g, p, k0 + j));
    }
}

/// A trailing ` [..]` note never changes the label of a guard: for a
/// guard `g` with some text and no ` [` of its own, `g [tag]` and `g` read
/// the same.
pub proof fn law_guard_note_ignored(g: Seq<char>, tag: Seq<char>)
    requires
        trim(g).len() > 0,
        !contains(g, " ["@),
    ensures
        guard_label(g + " ["@ + tag + "]"@) == guard_label(g),
{
    reveal_strlit(" [");
    reveal_strlit("]");
    let p = " ["@;
    let b = p + tag + "]"@;
    let raw = g + " ["@ + tag + "]"@;
    assert(raw =~= g + b);
    lemma_trim_start_len(g);
    let k0 = choose|k: int| 0 <= k <= g.len() && #[trigger] g.subrange(k, g.len() as int) == trim_start(g);
    let x = trim_start(g);
    lemma_trim_end_len(x);
    assert(x.len() > 0);
    lemma_trim_start_append(g, b);
    let t2 = x + b;
    assert(b.last() == ']');
    assert(t2.last() == ']');
    assert(trim(raw) == t2);
    let l = x.len() as int;
    // The first ` [` of `t2` is the note's.
    assert(occurs_at(t2, p, l)) by {
        assert(t2.subrange(l, l + 2) =~= p);
    }
    lemma_find_from_props(t2, p, 0);
    match find(t2, p) {
        Some(k) => {
            if k < l {
                if k + 2 <= l {
                    assert(t2.subrange(k, k + 2) =~= x.subrange(k, k + 2));
                    assert(x =~= g.subrange(k0, k0 + l));
                    assert(occurs_at(g.subrange(k0, k0 + l), p, k));
                    lemma_no_find_in_piece(g, k0, l, p, k);
                } else {
                    assert(t2.subrange(k, k + 2)[1] == t2[l]);
                    assert(t2[l] == ' ');
                }
            }
        },
        None => {},
    }
    assert(find(t2, p) == Some(l));
    assert(t2.subrange(0, l) =~= x);
    lemma_trim_twice(g);
    // The guard itself has no ` [`.
    let t = trim(g);
    assert(t == x.subrange(0, t.len() as int));
    lemma_find_from_props(t, p, 0);
    if let Some(k) = find(t, p) {
        assert(t =~= g.subrange(k0, k0 + t.len()));
        lemma_no_find_in_piece(g, k0, t.len() as int, p, k);
    }
    assert(guard_core(raw) == guard_core(g));
}


proof fn lemma_location_found(t: Seq<PinLocationView>, pin: Seq<char>, i: int, j: int)
    requires
        0 <= i <= j < t.len(),
        t[j].mcu_pin == pin,
    ensures
        location_index_from(t, pin, i) matches Some(k) && t[k].mcu_pin == pin,
    decreases j - i,
{
    if t[i].mcu_pin != pin {
        lemma_location_found(t, pin, i + 1, j);
    }
}

proof fn lemma_reserved_hit(t: Seq<ReservedPinView>, pin: Seq<char>, i: int)
    requires
        0 <= i,
    ensures
        reserved_index_from(t, pin, i) matches Some(k) ==> 0 <= k < t.len() && t[k].mcu_pin == pin,
    decreases t.len() - i,
{
    if i < t.len() && t[i].mcu_pin != pin {
        lemma_reserved_hit(t, pin, i + 1);
    }
}

/// Every reserved pin is broken out on the board: a pin that has a
/// reservation has a place in the pinout.
pub proof fn law_reserved_pins_on_board(pin: Seq<char>)
    ensures
        reserved_index_from(reserved_table(), pin, 0) is Some ==> (location_index_from(pinout_table(), pin, 0) matches Some(
            i,
        ) && pinout_table()[i].mcu_pin == pin),
{
    let r = reserved_table();
    let t = pinout_table();
    lemma_reserved_hit(r, pin, 0);
    if let Some(k) = reserved_index_from(r, pin, 0) {
        let j: int = if k == 0 {
            4
        } else if k == 1 {
            5
        } else if k == 2 {
            11
        } else if k == 3 {
            12
        } else if k == 4 {
            9
        } else {
            10
        };
        assert(t[j].mcu_pin == r[k].mcu_pin);
        lemma_location_found(t, pin, 0, j);
    }
}

/// `h` names an interrupt handler of the peripheral `p`: it starts with
/// `p`, and no digit follows (`TIM10_IRQHandler` is no handler of `TIM1`).
pub open spec fn handler_of(h: Seq<char>, p: Seq<char>) -> bool {
    &&& p.len() <= h.len()
    &&& h.subrange(0, p.len() as int) == p
    &&& (h.len() == p.len() || !('0' <= h[p.len() as int] && h[p.len() as int] <= '9'))
}

/// Some edge of `edges` enters the interrupt handler `h`.
pub open spec fn enters(edges: Seq<EdgeView>, h: Seq<char>) -> bool {
    exists|j: int| 0 <= j < edges.len() && edges[j].edge_type == EdgeType::IrqEntry && edges[j].from == h
}

/// The walk over the callbacks only adds states and transitions.
proof fn lemma_cb_fold_prefix(p: Seq<char>, acc: CbAcc, cbs: Seq<EdgeView>)
    ensures
        cb_fold(p, acc, cbs).states.len() >= acc.states.len(),
        cb_fold(p, acc, cbs).transitions.len() >= acc.transitions.len(),
        forall|i: int| 0 <= i < acc.states.len() ==> cb_fold(p, acc, cbs).states[i] == acc.states[i],
        forall|i: int| 0 <= i < acc.transitions.len() ==> cb_fold(p, acc, cbs).transitions[i] == acc.transitions[i],
    decreases cbs.len(),
{
    if cbs.len() > 0 {
        lemma_cb_fold_prefix(p, acc, cbs.drop_last());
    }
}

/// A peripheral's machine has an interrupt path (an `ISR` state) exactly
/// when the call graph enters one of the peripheral's own interrupt
/// handlers; and the trigger of its `t_fire` transition names only such
/// handlers, joined by ` / `.
pub proof fn law_machine_interrupt_path(p: Seq<char>, edges: Seq<EdgeView>)
    ensures
        has_id(peripheral_machine(p, edges).states, p + "_ISR"@) <==> exists|j: int|
            0 <= j < edges.len() && edges[j].edge_type == EdgeType::IrqEntry && handler_of(edges[j].from, p),
        forall|i: int|
            0 <= i < peripheral_machine(p, edges).transitions.len() && (#[trigger] peripheral_machine(
                p,
                edges,
            ).transitions[i]).id == p + "_t_fire"@ ==> exists|hs: Seq<Seq<char>>|
                peripheral_machine(p, edges).transitions[i].trigger == join(hs, " / "@) && hs.len() > 0 && forall|
                    k: int,
                | 0 <= k < hs.len() ==> handler_of(#[trigger] hs[k], p) && enters(edges, hs[k]),
{
    lemma_reveal_literals();
    let m = peripheral_machine(p, edges);
    let pred = irq_pred(p);
    let irqs = edges.filter(pred);
    assert forall|j: int| 0 <= j < edges.len() && edges[j].edge_type == EdgeType::IrqEntry && handler_of(
        edges[j].from,
        p,
    ) implies irqs.len() > 0 by {
        assert(pred(edges[j]));
        edges.lemma_filter_contains(pred, j);
    }
    if irqs.len() > 0 {
        edges.lemma_filter_pred(pred, 0);
        edges.lemma_filter_contains_rev(pred, irqs[0]);
        let j0 = choose|j: int| 0 <= j < edges.len() && edges[j] == irqs[0];
        assert(edges[j0].edge_type == EdgeType::IrqEntry && handler_of(edges[j0].from, p));
        let s1 = irq_states(p);
        let t1 = irq_transitions(p, edges);
        let cbs = edges.filter(callback_pred(irqs));
        let a0 = CbAcc { has_error: false, idx: 0, states: s1, transitions: t1 };
        lemma_cb_fold_prefix(p, a0, cbs);
        assert(m.states[3] == s1[3]);
        assert(has_id(m.states, p + "_ISR"@));
        law_peripheral_machine_ids(p, edges);
        assert(m.transitions[2] == t1[2]);
        let hs = irqs.map_values(|e: EdgeView| e.from);
        assert(t1[2].trigger == join(hs, " / "@));
        assert forall|k: int| 0 <= k < hs.len() implies handler_of(#[trigger] hs[k], p) && enters(edges, hs[k]) by {
            edges.lemma_filter_pred(pred, k);
            edges.lemma_filter_contains_rev(pred, irqs[k]);
            let j = choose|j: int| 0 <= j < edges.len() && edges[j] == irqs[k];
            assert(edges[j].edge_type == EdgeType::IrqEntry && edges[j].from == hs[k]);
        }
        assert forall|i: int|
            0 <= i < m.transitions.len() && (#[trigger] m.transitions[i]).id == p + "_t_fire"@ implies exists|
                hs2: Seq<Seq<char>>,
            |
                m.transitions[i].trigger == join(hs2, " / "@) && hs2.len() > 0 && forall|k: int|
                    0 <= k < hs2.len() ==> handler_of(#[trigger] hs2[k], p) && enters(edges, hs2[k]) by {
            if i != 2 {
                if i < 2 {
                    assert(m.transitions[i].id != m.transitions[2].id);
                } else {
                    assert(m.transitions[2].id != m.transitions[i].id);
                }
            }
            assert(m.transitions[i].trigger == join(hs, " / "@));
        }
    } else {
        assert(m.states.len() == 3);
        assert(m.states[0].id == p + "_RESET"@);
        assert(m.states[1].id == p + "_READY"@);
        assert(m.states[2].id == p + "_BUSY"@);
        lemma_prefix_ne(p, "_RESET"@, "_ISR"@);
        lemma_prefix_ne(p, "_READY"@, "_ISR"@);
        lemma_prefix_ne(p, "_BUSY"@, "_ISR"@);
        assert(!has_id(m.states, p + "_ISR"@));
        lemma_prefix_ne(p, "_t_init"@, "_t_fire"@);
        lemma_prefix_ne(p, "_t_poll_start"@, "_t_fire"@);
        lemma_prefix_ne(p, "_t_poll_done"@, "_t_fire"@);
        assert(m.transitions[0].id == p + "_t_init"@);
        assert(m.transitions[1].id == p + "_t_poll_start"@);
        assert(m.transitions[2].id == p + "_t_poll_done"@);
    }
}

} // verus!
