//! The peripheral lanes of the call graph's drawing: which `MX_*_Init`
//! node and which interrupt chains each peripheral's lane holds, and the
//! order of the lanes.
use vstd::prelude::*;
use crate::builder::{edges_view, handler_matches, EdgeType, EdgeView, GraphEdge};
use crate::hal_rules::{hal_irq_table, irq_row_index_from, mapping_for_irq_handler};
use crate::sorted::{insert_sorted, seq_lt, strictly_sorted};
use crate::state_transition::handler_belongs_to_peripheral;
use crate::text::{
    lemma_find_char_bounds, chars_of, contains_string, ends_with, ends_with_in, find_char, find_char_in, first_occurrences, owned,
    starts_with, starts_with_in, str_eq, string_of,
};

verus! {

/// The peripheral of an `MX_<P>_Init` node: `<P>`; the node's own name
/// for another node.
pub open spec fn init_peripheral(node: Seq<char>) -> Seq<char> {
    if starts_with(node, "MX_"@) && ends_with(node.skip(3), "_Init"@) {
        node.subrange(3, node.len() - 5)
    } else {
        node
    }
}

/// The peripherals of the `Init` edges, in edge order.
pub open spec fn init_raw(es: Seq<EdgeView>) -> Seq<Seq<char>>
    decreases es.len(),
{
    if es.len() == 0 {
        seq![]
    } else if es.last().edge_type == EdgeType::Init {
        init_raw(es.drop_last()).push(init_peripheral(es.last().to))
    } else {
        init_raw(es.drop_last())
    }
}

/// The peripherals that `Init` edges initialise, each once, in order.
pub open spec fn init_peripherals(es: Seq<EdgeView>) -> Seq<Seq<char>> {
    first_occurrences(init_raw(es))
}

/// The init node of the peripheral `p`: the target of its last `Init` edge.
pub open spec fn init_node_of(es: Seq<EdgeView>, p: Seq<char>) -> Option<Seq<char>>
    decreases es.len(),
{
    if es.len() == 0 {
        None
    } else if es.last().edge_type == EdgeType::Init && init_peripheral(es.last().to) == p {
        Some(es.last().to)
    } else {
        init_node_of(es.drop_last(), p)
    }
}

/// The first of the peripherals `known` that the handler `h` belongs to.
pub open spec fn known_peripheral(h: Seq<char>, known: Seq<Seq<char>>) -> Option<Seq<char>>
    decreases known.len(),
{
    if known.len() == 0 {
        None
    } else if handler_matches(h, known[0]) {
        Some(known[0])
    } else {
        known_peripheral(h, known.drop_first())
    }
}

/// The text of `s` before its first `_`.
pub open spec fn first_part(s: Seq<char>) -> Seq<char> {
    match find_char(s, '_') {
        Some(k) => s.subrange(0, k),
        None => s,
    }
}

/// The HAL table lists `h` as a GPIO interrupt.
pub open spec fn gpio_irq(h: Seq<char>) -> bool {
    match irq_row_index_from(hal_irq_table(), h, 0) {
        Some(i) => hal_irq_table()[i].peripheral_prefix == "GPIO"@,
        None => false,
    }
}

/// The peripheral whose lane the interrupt handler `h` goes to: the first
/// initialised peripheral it belongs to; else `GPIO` for an `EXTI` or GPIO
/// handler; else the name before `_IRQHandler` up to its first `_`; else
/// `PERIPHERAL`.
pub open spec fn handler_peripheral(h: Seq<char>, known: Seq<Seq<char>>) -> Seq<char> {
    match known_peripheral(h, known) {
        Some(p) => p,
        None => if starts_with(h, "EXTI"@) || gpio_irq(h) {
            "GPIO"@
        } else if ends_with(h, "_IRQHandler"@) {
            first_part(h.subrange(0, h.len() - 11))
        } else {
            "PERIPHERAL"@
        },
    }
}

/// The targets of the weak-override edges from the dispatch function `d`.
pub open spec fn overrides_of(es: Seq<EdgeView>, d: Seq<char>) -> Seq<Seq<char>>
    decreases es.len(),
{
    if es.len() == 0 {
        seq![]
    } else if es.last().edge_type == EdgeType::WeakOverride && es.last().from == d {
        overrides_of(es.drop_last(), d).push(es.last().to)
    } else {
        overrides_of(es.drop_last(), d)
    }
}

/// An interrupt chain: the handler, the HAL dispatch function it enters,
/// and the callbacks that override the dispatch's weak ones.
pub struct ChainSpec {
    pub handler_id: Seq<char>,
    pub dispatch_id: Seq<char>,
    pub override_targets: Seq<Seq<char>>,
}

/// The chains of the `IrqEntry` edges of `es` that go to the lane of `p`,
/// in edge order; `all` gives the override edges.
pub open spec fn chains_of(es: Seq<EdgeView>, all: Seq<EdgeView>, p: Seq<char>, known: Seq<Seq<char>>) -> Seq<ChainSpec>
    decreases es.len(),
{
    if es.len() == 0 {
        seq![]
    } else {
        let e = es.last();
        if e.edge_type == EdgeType::IrqEntry && handler_peripheral(e.from, known) == p {
            chains_of(es.drop_last(), all, p, known).push(
                ChainSpec { handler_id: e.from, dispatch_id: e.to, override_targets: overrides_of(all, e.to) },
            )
        } else {
            chains_of(es.drop_last(), all, p, known)
        }
    }
}

/// The lane of each `Init` and `IrqEntry` edge, in edge order.
pub open spec fn lane_raw(es: Seq<EdgeView>, known: Seq<Seq<char>>) -> Seq<Seq<char>>
    decreases es.len(),
{
    if es.len() == 0 {
        seq![]
    } else {
        let e = es.last();
        if e.edge_type == EdgeType::Init {
            lane_raw(es.drop_last(), known).push(init_peripheral(e.to))
        } else if e.edge_type == EdgeType::IrqEntry {
            lane_raw(es.drop_last(), known).push(handler_peripheral(e.from, known))
        } else {
            lane_raw(es.drop_last(), known)
        }
    }
}

/// Lane `a` comes before lane `b`: `GPIO` first, the others by name.
pub open spec fn lane_before(a: Seq<char>, b: Seq<char>) -> bool {
    (a == "GPIO"@ && b != "GPIO"@) || (a != "GPIO"@ && b != "GPIO"@ && seq_lt(a, b))
}

/// A lane: its peripheral, its init node and its interrupt chains.
pub struct LaneSpec {
    pub name: Seq<char>,
    pub init_node: Option<Seq<char>>,
    pub irq_chains: Seq<ChainSpec>,
}

/// The lane of the peripheral `p` in the graph `es`.
pub open spec fn lane_of(es: Seq<EdgeView>, p: Seq<char>) -> LaneSpec {
    LaneSpec {
        name: p,
        init_node: init_node_of(es, p),
        irq_chains: chains_of(es, es, p, init_peripherals(es)),
    }
}

/// One interrupt chain of a lane.
pub struct IrqChainInfo {
    pub handler_id: String,
    pub dispatch_id: String,
    pub override_targets: Vec<String>,
}

impl View for IrqChainInfo {
    type V = ChainSpec;

    open spec fn view(&self) -> ChainSpec {
        ChainSpec {
            handler_id: self.handler_id@,
            dispatch_id: self.dispatch_id@,
            override_targets: self.override_targets.deep_view(),
        }
    }
}

pub open spec fn chains_view(v: Seq<IrqChainInfo>) -> Seq<ChainSpec> {
    v.map_values(|c: IrqChainInfo| c@)
}

/// The lane of one peripheral.
pub struct PeripheralLane {
    pub name: String,
    pub init_node: Option<String>,
    pub irq_chains: Vec<IrqChainInfo>,
}

impl View for PeripheralLane {
    type V = LaneSpec;

    open spec fn view(&self) -> LaneSpec {
        LaneSpec {
            name: self.name@,
            init_node: match &self.init_node {
                Some(n) => Some(n@),
                None => None,
            },
            irq_chains: chains_view(self.irq_chains@),
        }
    }
}

/// The peripheral of an init node.
fn init_peripheral_of(node: &str) -> (r: String)
    ensures
        r@ == init_peripheral(node@),
{
    let c = chars_of(node);
    let mx = chars_of("MX_");
    let init = chars_of("_Init");
    proof {
        reveal_strlit("MX_");
        reveal_strlit("_Init");
    }
    assert(c@.subrange(0, c@.len() as int) =~= c@);
    if starts_with_in(&c, 0, c.len(), &mx) {
        assert(c@.subrange(3, c@.len() as int) =~= node@.skip(3));
        if ends_with_in(&c, 3, c.len(), &init) {
            return string_of(&c, 3, c.len() - 5);
        }
    }
    owned(node)
}

/// The first of `known` that the handler belongs to.
fn known_peripheral_of(h: &str, known: &Vec<String>) -> (r: Option<String>)
    ensures
        match r {
            Some(p) => known_peripheral(h@, known.deep_view()) == Some(p@),
            None => known_peripheral(h@, known.deep_view()) is None,
        },
{
    let ghost kv = known.deep_view();
    let mut i: usize = 0;
    assert(kv.skip(0) =~= kv);
    while i < known.len()
        invariant
            0 <= i <= known@.len(),
            kv == known.deep_view(),
            known_peripheral(h@, kv) == known_peripheral(h@, kv.skip(i as int)),
        decreases known.len() - i,
    {
        assert(kv.skip(i as int)[0] == known@[i as int]@);
        assert(kv.skip(i as int).drop_first() =~= kv.skip(i + 1));
        if handler_belongs_to_peripheral(h, known[i].as_str()) {
            return Some(owned(known[i].as_str()));
        }
        i += 1;
    }
    None
}

/// The lane of an interrupt handler.
fn handler_peripheral_of(h: &str, known: &Vec<String>) -> (r: String)
    ensures
        r@ == handler_peripheral(h@, known.deep_view()),
{
    if let Some(p) = known_peripheral_of(h, known) {
        return p;
    }
    let c = chars_of(h);
    let exti = chars_of("EXTI");
    let suffix = chars_of("_IRQHandler");
    proof {
        reveal_strlit("EXTI");
        reveal_strlit("_IRQHandler");
        reveal_strlit("GPIO");
    }
    assert(c@.subrange(0, c@.len() as int) =~= c@);
    let gpio = match mapping_for_irq_handler(h) {
        Some(m) => str_eq(m.peripheral_prefix, "GPIO"),
        None => false,
    };
    if starts_with_in(&c, 0, c.len(), &exti) || gpio {
        return owned("GPIO");
    }
    if ends_with_in(&c, 0, c.len(), &suffix) {
        let n = c.len() - 11;
        assert(c@.subrange(0, n as int) =~= h@.subrange(0, h@.len() - 11));
        proof {
            crate::text::lemma_find_char_bounds(c@.subrange(0, n as int), '_');
        }
        return match find_char_in(&c, 0, n, '_') {
            Some(k) => {
                assert(c@.subrange(0, n as int).subrange(0, k as int) =~= c@.subrange(0, k as int));
                string_of(&c, 0, k)
            },
            None => string_of(&c, 0, n),
        };
    }
    owned("PERIPHERAL")
}

/// The targets of the weak-override edges from `d`.
fn overrides_in(edges: &[GraphEdge], d: &str) -> (r: Vec<String>)
    ensures
        r.deep_view() == overrides_of(edges_view(edges@), d@),
{
    let ghost es = edges_view(edges@);
    let mut out: Vec<String> = Vec::new();
    let mut j: usize = 0;
    while j < edges.len()
        invariant
            0 <= j <= edges@.len(),
            es == edges_view(edges@),
            out.deep_view() == overrides_of(es.take(j as int), d@),
        decreases edges.len() - j,
    {
        assert(es.take(j + 1).drop_last() =~= es.take(j as int));
        assert(es.take(j + 1).last() == edges@[j as int]@);
        if edges[j].edge_type == EdgeType::WeakOverride && str_eq(edges[j].from.as_str(), d) {
            out.push(owned(edges[j].to.as_str()));
            assert(out.deep_view() =~= overrides_of(es.take(j as int), d@).push(edges@[j as int].to@));
        }
        j += 1;
    }
    assert(es.take(j as int) =~= es);
    out
}

/// The init node of the peripheral `p`.
fn init_node_in(edges: &[GraphEdge], p: &str) -> (r: Option<String>)
    ensures
        match r {
            Some(n) => init_node_of(edges_view(edges@), p@) == Some(n@),
            None => init_node_of(edges_view(edges@), p@) is None,
        },
{
    let ghost es = edges_view(edges@);
    let mut k: usize = edges.len();
    assert(es.take(k as int) =~= es);
    while k > 0
        invariant
            0 <= k <= edges@.len(),
            es == edges_view(edges@),
            init_node_of(es, p@) == init_node_of(es.take(k as int), p@),
        decreases k,
    {
        assert(es.take(k as int).drop_last() =~= es.take(k - 1));
        assert(es.take(k as int).last() == edges@[k - 1]@);
        if edges[k - 1].edge_type == EdgeType::Init {
            let q = init_peripheral_of(edges[k - 1].to.as_str());
            if str_eq(q.as_str(), p) {
                return Some(owned(edges[k - 1].to.as_str()));
            }
        }
        k -= 1;
    }
    None
}

/// The chains of the lane of `p`.
fn chains_in(edges: &[GraphEdge], p: &str, known: &Vec<String>) -> (r: Vec<IrqChainInfo>)
    ensures
        chains_view(r@) == chains_of(edges_view(edges@), edges_view(edges@), p@, known.deep_view()),
{
    let ghost es = edges_view(edges@);
    let mut out: Vec<IrqChainInfo> = Vec::new();
    let mut j: usize = 0;
    while j < edges.len()
        invariant
            0 <= j <= edges@.len(),
            es == edges_view(edges@),
            chains_view(out@) == chains_of(es.take(j as int), es, p@, known.deep_view()),
        decreases edges.len() - j,
    {
        assert(es.take(j + 1).drop_last() =~= es.take(j as int));
        assert(es.take(j + 1).last() == edges@[j as int]@);
        if edges[j].edge_type == EdgeType::IrqEntry {
            let q = handler_peripheral_of(edges[j].from.as_str(), known);
            if str_eq(q.as_str(), p) {
                let c = IrqChainInfo {
                    handler_id: owned(edges[j].from.as_str()),
                    dispatch_id: owned(edges[j].to.as_str()),
                    override_targets: overrides_in(edges, edges[j].to.as_str()),
                };
                out.push(c);
                assert(chains_view(out@) =~= chains_of(es.take(j as int), es, p@, known.deep_view()).push(c@));
            }
        }
        j += 1;
    }
    assert(es.take(j as int) =~= es);
    out
}

/// The names of `s` other than `GPIO`, in order.
pub open spec fn drop_gpio(s: Seq<Seq<char>>) -> Seq<Seq<char>>
    decreases s.len(),
{
    if s.len() == 0 {
        seq![]
    } else if s.last() == "GPIO"@ {
        drop_gpio(s.drop_last())
    } else {
        drop_gpio(s.drop_last()).push(s.last())
    }
}

proof fn lemma_drop_gpio(s: Seq<Seq<char>>)
    requires
        strictly_sorted(s),
    ensures
        forall|t: Seq<char>| #[trigger] drop_gpio(s).contains(t) <==> (s.contains(t) && t != "GPIO"@),
        strictly_sorted(drop_gpio(s)),
    decreases s.len(),
{
    if s.len() > 0 {
        let init = s.drop_last();
        assert(strictly_sorted(init)) by {
            assert forall|i: int, j: int| 0 <= i < j < init.len() implies seq_lt(#[trigger] init[i], #[trigger] init[j]) by {
                assert(init[i] == s[i] && init[j] == s[j]);
            }
        }
        lemma_drop_gpio(init);
        let d = drop_gpio(init);
        assert forall|t: Seq<char>| s.contains(t) <==> (init.contains(t) || t == s.last()) by {
            if s.contains(t) {
                let k = choose|k: int| 0 <= k < s.len() && s[k] == t;
                if k < init.len() {
                    assert(init[k] == t);
                }
            }
            if init.contains(t) {
                let k = choose|k: int| 0 <= k < init.len() && init[k] == t;
                assert(s[k] == t);
            }
            if t == s.last() {
                assert(s[s.len() - 1] == t);
            }
        }
        if s.last() != "GPIO"@ {
            let x = s.last();
            assert forall|t: Seq<char>| #[trigger] d.push(x).contains(t) <==> (d.contains(t) || t == x) by {
                if d.push(x).contains(t) {
                    let k = choose|k: int| 0 <= k < d.push(x).len() && d.push(x)[k] == t;
                    if k < d.len() {
                        assert(d[k] == t);
                    }
                }
                if d.contains(t) {
                    let k = choose|k: int| 0 <= k < d.len() && d[k] == t;
                    assert(d.push(x)[k] == t);
                }
                if t == x {
                    assert(d.push(x)[d.len() as int] == t);
                }
            }
            assert forall|i: int, j: int| 0 <= i < j < d.push(x).len() implies seq_lt(#[trigger] d.push(x)[i], #[trigger] d.push(x)[j]) by {
                if j < d.len() {
                    assert(d.push(x)[i] == d[i] && d.push(x)[j] == d[j]);
                } else {
                    assert(d.push(x)[i] == d[i]);
                    assert(d.contains(d[i]));
                    let k = choose|k: int| 0 <= k < init.len() && init[k] == d[i];
                    assert(s[k] == init[k]);
                    assert(seq_lt(s[k], s[s.len() - 1]));
                }
            }
        }
    }
}

/// `GPIO`, when the sorted names hold it, followed by the others keeps the
/// lane order and the names.
proof fn lemma_gpio_first(sv: Seq<Seq<char>>, has_gpio: bool, head: Seq<Seq<char>>)
    requires
        strictly_sorted(sv),
        has_gpio == sv.contains("GPIO"@),
        head == (if has_gpio { seq!["GPIO"@] } else { Seq::<Seq<char>>::empty() }),
    ensures
        forall|i: int, j: int| 0 <= i < j < (head + drop_gpio(sv)).len() ==> lane_before(
            #[trigger] (head + drop_gpio(sv))[i],
            #[trigger] (head + drop_gpio(sv))[j],
        ),
        forall|t: Seq<char>| #[trigger] (head + drop_gpio(sv)).contains(t) <==> sv.contains(t),
{
    lemma_drop_gpio(sv);
    let d = drop_gpio(sv);
    let all = head + d;
    assert forall|k: int| 0 <= k < d.len() implies #[trigger] d[k] != "GPIO"@ by {
        assert(d.contains(d[k]));
    }
    assert forall|i: int, j: int| 0 <= i < j < all.len() implies lane_before(#[trigger] all[i], #[trigger] all[j]) by {
        if i < head.len() {
            assert(all[i] == "GPIO"@);
            assert(all[j] == d[j - head.len()]);
        } else {
            assert(all[i] == d[i - head.len()]);
            assert(all[j] == d[j - head.len()]);
        }
    }
    assert forall|t: Seq<char>| #[trigger] all.contains(t) <==> sv.contains(t) by {
        if all.contains(t) {
            let k = choose|k: int| 0 <= k < all.len() && all[k] == t;
            if k >= head.len() {
                assert(d[k - head.len()] == t);
                assert(d.contains(t));
            }
        }
        if sv.contains(t) {
            if t == "GPIO"@ {
                assert(all[0] == t);
            } else {
                assert(d.contains(t));
                let k = choose|k: int| 0 <= k < d.len() && d[k] == t;
                assert(all[k + head.len()] == t);
            }
        }
    }
}

/// The lanes of the call graph `edges`: one per peripheral that an `Init`
/// edge initialises or an interrupt chain goes to, `GPIO` first and the
/// others by name; each with its init node and its chains in edge order.
pub fn graph_lanes(edges: &[GraphEdge]) -> (r: Vec<PeripheralLane>)
    ensures
        ({
            let es = edges_view(edges@);
            let names = r@.map_values(|l: PeripheralLane| l.name@);
            &&& forall|i: int, j: int| 0 <= i < j < names.len() ==> lane_before(#[trigger] names[i], #[trigger] names[j])
            &&& forall|t: Seq<char>| #[trigger] names.contains(t) <==> lane_raw(es, init_peripherals(es)).contains(t)
            &&& forall|k: int| 0 <= k < r@.len() ==> (#[trigger] r@[k])@ == lane_of(es, r@[k].name@)
        }),
{
    let ghost es = edges_view(edges@);
    // The initialised peripherals, each once.
    let mut known: Vec<String> = Vec::new();
    let mut i: usize = 0;
    while i < edges.len()
        invariant
            0 <= i <= edges@.len(),
            es == edges_view(edges@),
            known.deep_view() == first_occurrences(init_raw(es.take(i as int))),
        decreases edges.len() - i,
    {
        assert(es.take(i + 1).drop_last() =~= es.take(i as int));
        assert(es.take(i + 1).last() == edges@[i as int]@);
        if edges[i].edge_type == EdgeType::Init {
            let p = init_peripheral_of(edges[i].to.as_str());
            assert(init_raw(es.take(i + 1)) == init_raw(es.take(i as int)).push(p@));
            assert(init_raw(es.take(i as int)).push(p@).drop_last() =~= init_raw(es.take(i as int)));
            if !contains_string(&known, &p) {
                known.push(p);
                assert(known.deep_view() =~= first_occurrences(init_raw(es.take(i as int))).push(p@));
            }
        } else {
            assert(init_raw(es.take(i + 1)) == init_raw(es.take(i as int)));
        }
        i += 1;
    }
    assert(es.take(i as int) =~= es);
    let ghost kv = known.deep_view();
    assert(kv == init_peripherals(es));
    // The lanes' names, sorted.
    let mut sorted: Vec<String> = Vec::new();
    let mut i: usize = 0;
    while i < edges.len()
        invariant
            0 <= i <= edges@.len(),
            es == edges_view(edges@),
            kv == known.deep_view(),
            strictly_sorted(sorted.deep_view()),
            forall|t: Seq<char>| #[trigger] sorted.deep_view().contains(t) <==> lane_raw(es.take(i as int), kv).contains(t),
        decreases edges.len() - i,
    {
        assert(es.take(i + 1).drop_last() =~= es.take(i as int));
        assert(es.take(i + 1).last() == edges@[i as int]@);
        let ghost before = lane_raw(es.take(i as int), kv);
        if edges[i].edge_type == EdgeType::Init {
            let p = init_peripheral_of(edges[i].to.as_str());
            let ghost pv = p@;
            assert(lane_raw(es.take(i + 1), kv) == before.push(pv));
            let ghost old_sv = sorted.deep_view();
            insert_sorted(&mut sorted, p);
            assert forall|t: Seq<char>| before.push(pv).contains(t) <==> (t == pv || before.contains(t)) by {
                assert(old_sv.contains(t) <==> before.contains(t));
                if before.push(pv).contains(t) {
                    let k = choose|k: int| 0 <= k < before.push(pv).len() && before.push(pv)[k] == t;
                    if k < before.len() {
                        assert(before[k] == t);
                    }
                }
                if before.contains(t) {
                    let k = choose|k: int| 0 <= k < before.len() && before[k] == t;
                    assert(before.push(pv)[k] == t);
                }
                if t == pv {
                    assert(before.push(pv)[before.len() as int] == t);
                }
            }
            assert forall|t: Seq<char>| #[trigger] sorted.deep_view().contains(t) <==> lane_raw(es.take(i + 1), kv).contains(t) by {
                assert(old_sv.contains(t) <==> before.contains(t));
                assert(before.push(pv).contains(t) <==> (t == pv || before.contains(t)));
            }
        } else if edges[i].edge_type == EdgeType::IrqEntry {
            let p = handler_peripheral_of(edges[i].from.as_str(), &known);
            let ghost pv = p@;
            assert(lane_raw(es.take(i + 1), kv) == before.push(pv));
            let ghost old_sv = sorted.deep_view();
            insert_sorted(&mut sorted, p);
            assert forall|t: Seq<char>| before.push(pv).contains(t) <==> (t == pv || before.contains(t)) by {
                assert(old_sv.contains(t) <==> before.contains(t));
                if before.push(pv).contains(t) {
                    let k = choose|k: int| 0 <= k < before.push(pv).len() && before.push(pv)[k] == t;
                    if k < before.len() {
                        assert(before[k] == t);
                    }
                }
                if before.contains(t) {
                    let k = choose|k: int| 0 <= k < before.len() && before[k] == t;
                    assert(before.push(pv)[k] == t);
                }
                if t == pv {
                    assert(before.push(pv)[before.len() as int] == t);
                }
            }
            assert forall|t: Seq<char>| #[trigger] sorted.deep_view().contains(t) <==> lane_raw(es.take(i + 1), kv).contains(t) by {
                assert(old_sv.contains(t) <==> before.contains(t));
                assert(before.push(pv).contains(t) <==> (t == pv || before.contains(t)));
            }
        } else {
            assert(lane_raw(es.take(i + 1), kv) == before);
        }
        i += 1;
    }
    assert(es.take(i as int) =~= es);
    let ghost sv = sorted.deep_view();
    // `GPIO` first, then the others in order.
    let mut names: Vec<String> = Vec::new();
    let gpio = owned("GPIO");
    proof {
        reveal_strlit("GPIO");
    }
    let has_gpio = contains_string(&sorted, &gpio);
    let ghost head: Seq<Seq<char>> = if has_gpio { seq!["GPIO"@] } else { seq![] };
    if has_gpio {
        names.push(gpio);
    }
    let mut k: usize = 0;
    assert(names.deep_view() =~= head + drop_gpio(sv.take(0)));
    while k < sorted.len()
        invariant
            0 <= k <= sorted@.len(),
            sv == sorted.deep_view(),
            names.deep_view() == head + drop_gpio(sv.take(k as int)),
        decreases sorted.len() - k,
    {
        assert(sv.take(k + 1).drop_last() =~= sv.take(k as int));
        assert(sv.take(k + 1).last() == sorted@[k as int]@);
        proof {
            reveal_strlit("GPIO");
        }
        let ghost old_dv = names.deep_view();
        if !str_eq(sorted[k].as_str(), "GPIO") {
            names.push(owned(sorted[k].as_str()));
            assert(names.deep_view() =~= old_dv.push(sorted@[k as int]@));
            assert(names.deep_view() =~= head + drop_gpio(sv.take(k as int)).push(sorted@[k as int]@));
        }
        k += 1;
    }
    assert(sv.take(k as int) =~= sv);
    proof {
        lemma_gpio_first(sv, has_gpio, head);
    }
    let ghost nv = names.deep_view();
    // Each lane.
    let mut lanes: Vec<PeripheralLane> = Vec::new();
    let mut n: usize = 0;
    while n < names.len()
        invariant
            0 <= n <= names@.len(),
            es == edges_view(edges@),
            kv == known.deep_view(),
            kv == init_peripherals(es),
            lanes@.len() == n,
            nv == names.deep_view(),
            forall|a: int| 0 <= a < n ==> (#[trigger] lanes@[a]).name@ == nv[a],
            forall|a: int| 0 <= a < n ==> (#[trigger] lanes@[a])@ == lane_of(es, lanes@[a].name@),
        decreases names.len() - n,
    {
        let name = names[n].as_str();
        let lane = PeripheralLane {
            name: owned(name),
            init_node: init_node_in(edges, name),
            irq_chains: chains_in(edges, name, &known),
        };
        lanes.push(lane);
        n += 1;
    }
    proof {
        let lnames = lanes@.map_values(|l: PeripheralLane| l.name@);
        assert(lnames =~= nv);
        assert forall|t: Seq<char>| #[trigger] nv.contains(t) <==> lane_raw(es, kv).contains(t) by {
            assert(sv.contains(t) <==> lane_raw(es, kv).contains(t));
        }
    }
    lanes
}

} // verus!
