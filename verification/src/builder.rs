//! The generated call graph of a CubeMX project: the init call of every
//! peripheral and, where its interrupt is enabled in the NVIC, the chain from
//! the IRQ handler through the HAL dispatch routine to the weak callbacks.
use vstd::prelude::*;
use crate::assoc::{lookup, Entries};
use crate::hal_rules::{hal_irq_mappings, hal_irq_table, mappings_view, HalIrqView, HalIrqMapping, strs_view};
use crate::ioc::{IocProject, PeriphView, periphs_view};
use crate::text::{
    chars_of, char_is_digit, concat3, ends_with, is_ascii_digit, owned, starts_with, starts_with_in,
    strip_suffix_or, ends_with_in, string_of,
};

verus! {

#[derive(Debug, Clone, Copy, PartialEq, Eq, Structural)]
pub enum EdgeType {
    Init,
    IrqEntry,
    HalDispatch,
    WeakOverride,
}

/// One edge of the call graph.
#[derive(Debug, Clone, PartialEq, Eq)]
pub struct GraphEdge {
    pub from: String,
    pub to: String,
    pub edge_type: EdgeType,
    pub generated: bool,
}

pub struct EdgeView {
    pub from: Seq<char>,
    pub to: Seq<char>,
    pub edge_type: EdgeType,
    pub generated: bool,
}

impl View for GraphEdge {
    type V = EdgeView;

    open spec fn view(&self) -> EdgeView {
        EdgeView { from: self.from@, to: self.to@, edge_type: self.edge_type, generated: self.generated }
    }
}

pub open spec fn edges_view(v: Seq<GraphEdge>) -> Seq<EdgeView> {
    v.map_values(|e: GraphEdge| e@)
}

/// `handler` belongs to the peripheral instance `inst`: it starts with the
/// instance name, and no digit follows (so `TIM10_...` is not `TIM1`).
pub open spec fn handler_matches(handler: Seq<char>, inst: Seq<char>) -> bool {
    starts_with(handler, inst) && (handler.len() == inst.len() || !is_ascii_digit(
        handler[inst.len() as int],
    ))
}

/// The NVIC key of an IRQ handler: `USART2_IRQHandler` gives `NVIC.USART2_IRQn`.
pub open spec fn nvic_key(irq: Seq<char>) -> Seq<char> {
    "NVIC."@ + strip_suffix_or(irq, "_IRQHandler"@) + "_IRQn"@
}

/// The `.ioc` settings enable the interrupt of `irq`: its NVIC value starts with `true`.
pub open spec fn irq_enabled(raw: Entries, irq: Seq<char>) -> bool {
    match lookup(raw, nvic_key(irq)) {
        Some(v) => starts_with(v, "true"@),
        None => false,
    }
}

pub open spec fn edge(from: Seq<char>, to: Seq<char>, t: EdgeType) -> EdgeView {
    EdgeView { from: from, to: to, edge_type: t, generated: true }
}

/// The edges that one table row contributes for the instance `name`.
pub open spec fn row_edges(raw: Entries, name: Seq<char>, m: HalIrqView) -> Seq<EdgeView> {
    if handler_matches(m.irq_handler_name, name) && irq_enabled(raw, m.irq_handler_name) {
        seq![edge(m.irq_handler_name, m.hal_dispatch_fn, EdgeType::IrqEntry)]
            + m.weak_callbacks.map_values(
            |cb: Seq<char>| edge(m.hal_dispatch_fn, cb, EdgeType::WeakOverride),
        )
    } else {
        seq![]
    }
}

/// The edges of the rows `t`, in order.
pub open spec fn table_edges(raw: Entries, name: Seq<char>, t: Seq<HalIrqView>) -> Seq<EdgeView>
    decreases t.len(),
{
    if t.len() == 0 {
        seq![]
    } else {
        table_edges(raw, name, t.drop_last()) + row_edges(raw, name, t.last())
    }
}

/// The init edge of the peripheral `name` followed by its interrupt chains.
pub open spec fn peripheral_edges(raw: Entries, name: Seq<char>) -> Seq<EdgeView> {
    seq![edge("main"@, "MX_"@ + name + "_Init"@, EdgeType::Init)] + table_edges(
        raw,
        name,
        hal_irq_table(),
    )
}

/// The call graph of the peripherals `ps`, in order.
pub open spec fn call_graph(raw: Entries, ps: Seq<PeriphView>) -> Seq<EdgeView>
    decreases ps.len(),
{
    if ps.len() == 0 {
        seq![]
    } else {
        call_graph(raw, ps.drop_last()) + peripheral_edges(raw, ps.last().name)
    }
}

/// `handler_name` belongs to the peripheral instance `instance_name`.
fn handler_matches_instance(handler_name: &str, instance_name: &str) -> (b: bool)
    ensures
        b == handler_matches(handler_name@, instance_name@),
{
    let h = chars_of(handler_name);
    let inst = chars_of(instance_name);
    assert(h@.subrange(0, h@.len() as int) =~= h@);
    if !starts_with_in(&h, 0, h.len(), &inst) {
        return false;
    }
    if h.len() == inst.len() {
        return true;
    }
    !char_is_digit(h[inst.len()])
}

/// `s` without the suffix `suf`, when it ends so.
fn strip_suffix_str(s: &str, suf: &str) -> (r: String)
    ensures
        r@ == strip_suffix_or(s@, suf@),
{
    let c = chars_of(s);
    let sc = chars_of(suf);
    assert(c@.subrange(0, c@.len() as int) =~= c@);
    if ends_with_in(&c, 0, c.len(), &sc) {
        string_of(&c, 0, c.len() - sc.len())
    } else {
        string_of(&c, 0, c.len())
    }
}

/// The edges that the row `m` contributes for the instance `name`.
fn row_edge_list(ioc: &IocProject, name: &str, m: &HalIrqMapping, edges: &mut Vec<GraphEdge>)
    ensures
        edges_view(final(edges)@) == edges_view(old(edges)@) + row_edges(ioc.raw@, name@, m@),
{
    let ghost start = edges_view(edges@);
    if !handler_matches_instance(m.irq_handler_name, name) {
        assert(edges_view(edges@) =~= start + row_edges(ioc.raw@, name@, m@));
        return;
    }
    let stem = strip_suffix_str(m.irq_handler_name, "_IRQHandler");
    let key = concat3("NVIC.", stem.as_str(), "_IRQn");
    let enabled = match ioc.raw.get(key.as_str()) {
        Some(v) => {
            let vc = chars_of(v.as_str());
            let t = chars_of("true");
            assert(vc@.subrange(0, vc@.len() as int) =~= vc@);
            starts_with_in(&vc, 0, vc.len(), &t)
        },
        None => false,
    };
    if !enabled {
        assert(edges_view(edges@) =~= start + row_edges(ioc.raw@, name@, m@));
        return;
    }
    edges.push(GraphEdge {
        from: owned(m.irq_handler_name),
        to: owned(m.hal_dispatch_fn),
        edge_type: EdgeType::IrqEntry,
        generated: true,
    });
    let ghost head = edges_view(edges@);
    let ghost cbs = strs_view(m.weak_callbacks@);
    let mut i: usize = 0;
    while i < m.weak_callbacks.len()
        invariant
            0 <= i <= m.weak_callbacks@.len(),
            cbs == strs_view(m.weak_callbacks@),
            edges_view(edges@) == head + cbs.subrange(0, i as int).map_values(
                |cb: Seq<char>| edge(m.hal_dispatch_fn@, cb, EdgeType::WeakOverride),
            ),
        decreases m.weak_callbacks.len() - i,
    {
        let ghost prev = edges_view(edges@);
        edges.push(GraphEdge {
            from: owned(m.hal_dispatch_fn),
            to: owned(m.weak_callbacks[i]),
            edge_type: EdgeType::WeakOverride,
            generated: true,
        });
        assert(cbs[i as int] == m.weak_callbacks@[i as int]@);
        assert(cbs.subrange(0, i + 1) =~= cbs.subrange(0, i as int).push(cbs[i as int]));
        assert(edges_view(edges@) =~= prev.push(edge(m.hal_dispatch_fn@, cbs[i as int], EdgeType::WeakOverride)));
        assert(cbs.subrange(0, i + 1).map_values(
            |cb: Seq<char>| edge(m.hal_dispatch_fn@, cb, EdgeType::WeakOverride),
        ) =~= cbs.subrange(0, i as int).map_values(
            |cb: Seq<char>| edge(m.hal_dispatch_fn@, cb, EdgeType::WeakOverride),
        ).push(edge(m.hal_dispatch_fn@, cbs[i as int], EdgeType::WeakOverride)));
        assert(edges_view(edges@) =~= head + cbs.subrange(0, i + 1).map_values(
            |cb: Seq<char>| edge(m.hal_dispatch_fn@, cb, EdgeType::WeakOverride),
        ));
        i += 1;
    }
    assert(cbs.subrange(0, i as int) =~= cbs);
    assert(edges_view(edges@) =~= start + row_edges(ioc.raw@, name@, m@));
}

/// The generated call graph of the project `ioc`.
pub fn build_call_graph(ioc: &IocProject) -> (edges: Vec<GraphEdge>)
    ensures
        edges_view(edges@) == call_graph(ioc.raw@, ioc@.peripherals),
{
    let table = hal_irq_mappings();
    let ghost ps = ioc@.peripherals;
    let mut edges: Vec<GraphEdge> = Vec::new();
    let mut p: usize = 0;
    assert(edges_view(edges@) =~= call_graph(ioc.raw@, ps.subrange(0, 0)));
    while p < ioc.peripherals.len()
        invariant
            0 <= p <= ioc.peripherals@.len(),
            ps == ioc@.peripherals,
            mappings_view(table@) == hal_irq_table(),
            edges_view(edges@) == call_graph(ioc.raw@, ps.subrange(0, p as int)),
        decreases ioc.peripherals.len() - p,
    {
        let name = ioc.peripherals[p].name.as_str();
        assert(name@ == ps[p as int].name);
        let ghost before = edges_view(edges@);
        edges.push(GraphEdge {
            from: owned("main"),
            to: concat3("MX_", name, "_Init"),
            edge_type: EdgeType::Init,
            generated: true,
        });
        let ghost head = edges_view(edges@);
        let mut j: usize = 0;
        assert(table_edges(ioc.raw@, name@, hal_irq_table().subrange(0, 0)) =~= Seq::<EdgeView>::empty());
        assert(edges_view(edges@) =~= head + table_edges(ioc.raw@, name@, hal_irq_table().subrange(0, 0)));
        while j < table.len()
            invariant
                0 <= j <= table@.len(),
                mappings_view(table@) == hal_irq_table(),
                edges_view(edges@) == head + table_edges(
                    ioc.raw@,
                    name@,
                    hal_irq_table().subrange(0, j as int),
                ),
            decreases table.len() - j,
        {
            row_edge_list(ioc, name, &table[j], &mut edges);
            assert(hal_irq_table().subrange(0, j + 1).drop_last() =~= hal_irq_table().subrange(0, j as int));
            assert(hal_irq_table()[j as int] == table@[j as int]@);
            j += 1;
        }
        assert(hal_irq_table().subrange(0, j as int) =~= hal_irq_table());
        assert(ps.subrange(0, p + 1).drop_last() =~= ps.subrange(0, p as int));
        assert(edges_view(edges@) =~= call_graph(ioc.raw@, ps.subrange(0, p + 1)));
        p += 1;
    }
    assert(ps.subrange(0, p as int) =~= ps);
    edges
}

} // verus!
