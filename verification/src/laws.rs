//! Properties of the library as a whole, each proved over the
//! specifications that its functions' contracts use.
use vstd::prelude::*;
use crate::marker_scan::{scan_spec, scan_upto, user_regions, OpenSpec, RegionSpec, ScanFailure};
use crate::syntax::{c_syntax, tree_wf, SyntaxNodeView};
use crate::usage_finder::{within, uses_of, uses_upto, UsageSpec};
use crate::render_model::{line_records, render, LineRec};
use crate::user_call_graph::{
    calls_upto, dedup_first, definitions_upto, function_of, known_calls, raw_edges, user_call_graph,
};
use crate::pv_extract::{decl_records, in_region_decl, pv_upto, PvSpec};
use crate::machine::{cut_point, shortened};
use crate::text::{byte_len, chars_for_bytes, find_char, is_char_boundary, lemma_encode_concat};
use crate::builder::{call_graph, edge, peripheral_edges, row_edges, table_edges, EdgeType, EdgeView};
use crate::ioc::PeriphView;
use crate::assoc::Entries;
use crate::hal_rules::HalIrqView;

verus! {

proof fn lemma_scan_markers(src: Seq<char>, ns: Seq<SyntaxNodeView>, i: int)
    ensures
        scan_upto(src, ns, i) matches Ok((open, regs)) ==> {
            &&& forall|k: int| 0 <= k < open.len() ==> (#[trigger] open[k]).begin_marker_range.1 == open[k].end_byte
            &&& forall|k: int|
                0 <= k < regs.len() ==> (#[trigger] regs[k]).byte_range == (
                    regs[k].begin_marker_range.1,
                    regs[k].end_marker_range.0,
                )
        },
    decreases i,
{
    if i > 0 {
        lemma_scan_markers(src, ns, i - 1);
        if let Ok((open, regs)) = scan_upto(src, ns, i) {
            let prev = scan_upto(src, ns, i - 1);
            assert(prev is Ok);
            let (o0, r0) = prev->Ok_0;
            assert forall|k: int| 0 <= k < open.len() implies (#[trigger] open[k]).begin_marker_range.1
                == open[k].end_byte by {
                if open.len() > o0.len() {
                    if k < o0.len() {
                        assert(open[k] == o0[k]);
                    }
                } else {
                    assert(open[k] == o0[k]);
                }
            }
            assert forall|k: int|
                0 <= k < regs.len() implies (#[trigger] regs[k]).byte_range == (
                    regs[k].begin_marker_range.1,
                    regs[k].end_marker_range.0,
                ) by {
                if k < r0.len() {
                    assert(regs[k] == r0[k]);
                } else {
                    assert(o0.len() > 0);
                    assert(o0.last().begin_marker_range.1 == o0.last().end_byte);
                }
            }
        }
    }
}

/// A region's content is exactly the bytes between its two marker
/// comments: it starts where the `USER CODE BEGIN` comment ends and stops
/// where the `USER CODE END` comment starts.
pub proof fn law_regions_lie_between_markers(source: Seq<char>)
    ensures
        scan_spec(source) matches Ok(regs) ==> forall|k: int|
            0 <= k < regs.len() ==> (#[trigger] regs[k]).byte_range == (
                regs[k].begin_marker_range.1,
                regs[k].end_marker_range.0,
            ),
{
    if let Some(ns) = c_syntax(source) {
        lemma_scan_markers(source, ns, ns.len() as int);
    }
}

proof fn lemma_uses_upto(s: Seq<char>, ns: Seq<SyntaxNodeView>, name: Seq<char>, decl: (usize, usize), i: int)
    ensures
        forall|k: int|
            0 <= k < uses_upto(s, ns, name, decl, i).len() ==> !within(
                (#[trigger] uses_upto(s, ns, name, decl, i)[k]).byte_range,
                decl,
            ) && uses_upto(s, ns, name, decl, i)[k].line >= 1,
    decreases i,
{
    if i > 0 {
        lemma_uses_upto(s, ns, name, decl, i - 1);
        let prev = uses_upto(s, ns, name, decl, i - 1);
        let cur = uses_upto(s, ns, name, decl, i);
        assert forall|k: int| 0 <= k < cur.len() implies !within((#[trigger] cur[k]).byte_range, decl)
            && cur[k].line >= 1 by {
            if k < prev.len() {
                assert(cur[k] == prev[k]);
            }
        }
    }
}

/// A use of a variable never lies within its declaration, and its line is
/// counted from one.
pub proof fn law_usages_avoid_declaration(s: Seq<char>, ns: Seq<SyntaxNodeView>, name: Seq<char>, decl: (usize, usize))
    ensures
        forall|k: int|
            0 <= k < uses_of(s, ns, name, decl).len() ==> !within(
                (#[trigger] uses_of(s, ns, name, decl)[k]).byte_range,
                decl,
            ) && uses_of(s, ns, name, decl)[k].line >= 1,
{
    lemma_uses_upto(s, ns, name, decl, ns.len() as int);
}

proof fn lemma_line_numbers(s: Seq<char>, base: int, num: int)
    ensures
        forall|k: int|
            0 <= k < line_records(s, base, num).len() ==> (#[trigger] line_records(s, base, num)[k]).number
                == num + k,
    decreases s.len(),
{
    if s.len() > 0 {
        match find_char(s, '\n') {
            Some(i) => if 0 <= i < s.len() {
                let rest = s.skip(i + 1);
                lemma_line_numbers(rest, base + byte_len(s.take(i + 1)), num + 1);
                let cur = line_records(s, base, num);
                let tail = line_records(rest, base + byte_len(s.take(i + 1)), num + 1);
                assert forall|k: int| 0 <= k < cur.len() implies (#[trigger] cur[k]).number == num + k by {
                    if k > 0 {
                        assert(cur[k] == tail[k - 1]);
                    }
                }
            },
            None => {},
        }
    }
}

/// The lines of a rendered file are numbered one, two, three, and so on,
/// in order.
pub proof fn law_render_lines_are_numbered(
    s: Seq<char>,
    regions: Seq<RegionSpec>,
    decl: (usize, usize),
    uses: Seq<(usize, usize)>,
)
    ensures
        forall|k: int|
            0 <= k < render(line_records(s, 0, 1), regions, decl, uses).len() ==> (#[trigger] render(
                line_records(s, 0, 1),
                regions,
                decl,
                uses,
            )[k]).line_number == k + 1,
{
    lemma_line_numbers(s, 0, 1);
}

proof fn lemma_dedup_distinct(es: Seq<(Seq<char>, Seq<char>)>)
    ensures
        forall|i: int, j: int|
            0 <= i < j < dedup_first(es).len() ==> #[trigger] dedup_first(es)[i] != #[trigger] dedup_first(es)[j],
        forall|k: int| 0 <= k < dedup_first(es).len() ==> es.contains(#[trigger] dedup_first(es)[k]),
    decreases es.len(),
{
    if es.len() > 0 {
        lemma_dedup_distinct(es.drop_last());
        let prev = dedup_first(es.drop_last());
        let cur = dedup_first(es);
        assert forall|k: int| 0 <= k < cur.len() implies es.contains(#[trigger] cur[k]) by {
            if k < prev.len() {
                assert(cur[k] == prev[k]);
                let m = choose|m: int| 0 <= m < es.drop_last().len() && es.drop_last()[m] == prev[k];
                assert(es[m] == prev[k]);
            } else {
                assert(cur[k] == es.last());
                assert(es[es.len() - 1] == es.last());
            }
        }
        assert forall|i: int, j: int| 0 <= i < j < cur.len() implies #[trigger] cur[i] != #[trigger] cur[j] by {
            if j < prev.len() {
                assert(cur[i] == prev[i] && cur[j] == prev[j]);
            } else {
                assert(cur[i] == prev[i]);
                if cur[i] == cur[j] {
                    assert(prev.contains(es.last()));
                }
            }
        }
    }
}

proof fn lemma_known_calls(cs: Seq<Seq<char>>, names: Seq<Seq<char>>, from: Seq<char>)
    ensures
        forall|k: int|
            0 <= k < known_calls(cs, names, from).len() ==> (#[trigger] known_calls(cs, names, from)[k]).0
                == from && names.contains(known_calls(cs, names, from)[k].1),
    decreases cs.len(),
{
    if cs.len() > 0 {
        lemma_known_calls(cs.drop_last(), names, from);
        let prev = known_calls(cs.drop_last(), names, from);
        let cur = known_calls(cs, names, from);
        assert forall|k: int| 0 <= k < cur.len() implies (#[trigger] cur[k]).0 == from && names.contains(cur[k].1) by {
            if k < prev.len() {
                assert(cur[k] == prev[k]);
            }
        }
    }
}

proof fn lemma_raw_edges(s: Seq<char>, ns: Seq<SyntaxNodeView>, defs: Seq<(int, Seq<char>)>, names: Seq<Seq<char>>)
    ensures
        forall|k: int|
            0 <= k < raw_edges(s, ns, defs, names).len() ==> names.contains(
                (#[trigger] raw_edges(s, ns, defs, names)[k]).1,
            ) && defs.map_values(|e: (int, Seq<char>)| e.1).contains(raw_edges(s, ns, defs, names)[k].0),
    decreases defs.len(),
{
    if defs.len() > 0 {
        lemma_raw_edges(s, ns, defs.drop_last(), names);
        let prev = raw_edges(s, ns, defs.drop_last(), names);
        let kc = known_calls(calls_upto(s, ns, defs.last().0, ns.len() as int), names, defs.last().1);
        lemma_known_calls(calls_upto(s, ns, defs.last().0, ns.len() as int), names, defs.last().1);
        let cur = raw_edges(s, ns, defs, names);
        let all = defs.map_values(|e: (int, Seq<char>)| e.1);
        let before = defs.drop_last().map_values(|e: (int, Seq<char>)| e.1);
        assert forall|k: int| 0 <= k < cur.len() implies names.contains((#[trigger] cur[k]).1) && all.contains(cur[k].0) by {
            if k < prev.len() {
                assert(cur[k] == prev[k]);
                let m = choose|m: int| 0 <= m < before.len() && before[m] == prev[k].0;
                assert(all[m] == before[m]);
            } else {
                assert(cur[k] == kc[k - prev.len()]);
                assert(all[defs.len() - 1] == defs.last().1);
            }
        }
    }
}

/// Every call edge joins two functions that the file defines, and no
/// caller-callee pair appears twice.
pub proof fn law_call_edges_join_defined_functions(s: Seq<char>, ns: Seq<SyntaxNodeView>)
    ensures
        forall|k: int|
            0 <= k < user_call_graph(s, ns).1.len() ==> user_call_graph(s, ns).0.map_values(
                |f: crate::user_call_graph::FunctionSpec| f.name,
            ).contains((#[trigger] user_call_graph(s, ns).1[k]).0) && user_call_graph(s, ns).0.map_values(
                |f: crate::user_call_graph::FunctionSpec| f.name,
            ).contains(user_call_graph(s, ns).1[k].1),
        forall|i: int, j: int|
            0 <= i < j < user_call_graph(s, ns).1.len() ==> #[trigger] user_call_graph(s, ns).1[i]
                != #[trigger] user_call_graph(s, ns).1[j],
{
    let defs = definitions_upto(s, ns, ns.len() as int);
    let names = defs.map_values(|e: (int, Seq<char>)| e.1);
    let raw = raw_edges(s, ns, defs, names);
    lemma_raw_edges(s, ns, defs, names);
    lemma_dedup_distinct(raw);
    let fns = defs.map_values(|e: (int, Seq<char>)| function_of(s, ns, e.0, e.1));
    let fnames = fns.map_values(|f: crate::user_call_graph::FunctionSpec| f.name);
    assert(fnames =~= names);
    let es = dedup_first(raw);
    assert forall|k: int| 0 <= k < es.len() implies fnames.contains((#[trigger] es[k]).0) && fnames.contains(es[k].1) by {
        assert(raw.contains(es[k]));
        let m = choose|m: int| 0 <= m < raw.len() && raw[m] == es[k];
        assert(names.contains(raw[m].1));
        assert(names.contains(raw[m].0));
    }
}

proof fn lemma_pv_inside(s: Seq<char>, ns: Seq<SyntaxNodeView>, r: (usize, usize), i: int)
    ensures
        forall|k: int|
            0 <= k < pv_upto(s, ns, r, i).len() ==> r.0 <= (#[trigger] pv_upto(s, ns, r, i)[k]).byte_range.0
                && pv_upto(s, ns, r, i)[k].byte_range.1 <= r.1,
    decreases i,
{
    if i > 0 && i <= ns.len() {
        lemma_pv_inside(s, ns, r, i - 1);
        let prev = pv_upto(s, ns, r, i - 1);
        let cur = pv_upto(s, ns, r, i);
        assert forall|k: int| 0 <= k < cur.len() implies r.0 <= (#[trigger] cur[k]).byte_range.0 && cur[k].byte_range.1 <= r.1 by {
            if k < prev.len() {
                assert(cur[k] == prev[k]);
            } else {
                let recs = decl_records(s, ns, i - 1);
                assert(in_region_decl(ns, i - 1, r));
                assert(cur[k] == recs[k - prev.len()]);
            }
        }
    }
}

/// Every declaration that the `PV` scan reports lies inside the region.
pub proof fn law_pv_declarations_inside_region(s: Seq<char>, ns: Seq<SyntaxNodeView>, r: (usize, usize))
    ensures
        forall|k: int|
            0 <= k < pv_upto(s, ns, r, ns.len() as int).len() ==> r.0 <= (#[trigger] pv_upto(
                s,
                ns,
                r,
                ns.len() as int,
            )[k]).byte_range.0 && pv_upto(s, ns, r, ns.len() as int)[k].byte_range.1 <= r.1,
{
    lemma_pv_inside(s, ns, r, ns.len() as int);
}

/// A shown guard never takes more than `max_len` bytes, or three bytes
/// when `max_len` is below three (the `...` alone).
pub proof fn law_display_guard_fits(text: Seq<char>, max_len: usize)
    requires
        byte_len(text) <= max_len || is_char_boundary(text, cut_point(max_len)),
    ensures
        byte_len(shortened(text, max_len)) <= if max_len >= 3 {
            max_len as int
        } else {
            3
        },
{
    if byte_len(text) > max_len {
        let k = chars_for_bytes(text, cut_point(max_len)) as int;
        crate::text::lemma_chars_for_bytes_le(text, cut_point(max_len));
        lemma_encode_concat(text.take(k), "..."@);
        reveal_strlit("...");
        assert(vstd::utf8::encode_utf8("..."@).len() == 3) by {
            crate::syntax::lemma_char_bytes('.');
            assert("..."@ =~= seq!['.'] + seq!['.'] + seq!['.']);
            lemma_encode_concat(seq!['.'], seq!['.']);
            lemma_encode_concat(seq!['.'] + seq!['.'], seq!['.']);
            lemma_dot_byte();
        }
    }
}

proof fn lemma_dot_byte()
    ensures
        byte_len(seq!['.']) == 1,
{
    vstd::utf8::char_is_scalar('.');
    assert(seq!['.'].drop_first() =~= Seq::<char>::empty());
    assert(vstd::utf8::encode_utf8(Seq::<char>::empty()) =~= Seq::<u8>::empty());
    assert(vstd::utf8::encode_utf8(seq!['.']) =~= vstd::utf8::encode_scalar('.' as u32));
}

/// The `Init` edges of a list of edges, as the functions they call.
pub open spec fn init_calls(es: Seq<EdgeView>) -> Seq<Seq<char>>
    decreases es.len(),
{
    if es.len() == 0 {
        seq![]
    } else {
        init_calls(es.drop_last()) + if es.last().edge_type == EdgeType::Init {
            seq![es.last().to]
        } else {
            seq![]
        }
    }
}

proof fn lemma_init_calls_concat(a: Seq<EdgeView>, b: Seq<EdgeView>)
    ensures
        init_calls(a + b) == init_calls(a) + init_calls(b),
    decreases b.len(),
{
    if b.len() == 0 {
        assert(a + b =~= a);
        assert(init_calls(a) + init_calls(b) =~= init_calls(a));
    } else {
        lemma_init_calls_concat(a, b.drop_last());
        assert((a + b).drop_last() =~= a + b.drop_last());
        assert((a + b).last() == b.last());
        assert(init_calls(a) + init_calls(b) =~= init_calls(a) + init_calls(b.drop_last()) + if b.last().edge_type
            == EdgeType::Init {
            seq![b.last().to]
        } else {
            seq![]
        });
    }
}

proof fn lemma_no_init_in_rows(raw: Entries, name: Seq<char>, t: Seq<HalIrqView>)
    ensures
        init_calls(table_edges(raw, name, t)) == Seq::<Seq<char>>::empty(),
        forall|k: int| 0 <= k < table_edges(raw, name, t).len() ==> (#[trigger] table_edges(raw, name, t)[k]).generated,
    decreases t.len(),
{
    if t.len() > 0 {
        lemma_no_init_in_rows(raw, name, t.drop_last());
        let re = row_edges(raw, name, t.last());
        assert forall|k: int| 0 <= k < re.len() implies (#[trigger] re[k]).edge_type != EdgeType::Init && re[k].generated by {
            if k > 0 {
                assert(re[k] == t.last().weak_callbacks.map_values(
                    |cb: Seq<char>| edge(t.last().hal_dispatch_fn, cb, EdgeType::WeakOverride),
                )[k - 1]);
            }
        }
        lemma_rows_no_init(re);
        lemma_init_calls_concat(table_edges(raw, name, t.drop_last()), re);
        let prev = table_edges(raw, name, t.drop_last());
        let cur = table_edges(raw, name, t);
        assert forall|k: int| 0 <= k < cur.len() implies (#[trigger] cur[k]).generated by {
            if k < prev.len() {
                assert(cur[k] == prev[k]);
            } else {
                assert(cur[k] == re[k - prev.len()]);
            }
        }
    }
}

proof fn lemma_rows_no_init(es: Seq<EdgeView>)
    requires
        forall|k: int| 0 <= k < es.len() ==> (#[trigger] es[k]).edge_type != EdgeType::Init,
    ensures
        init_calls(es) == Seq::<Seq<char>>::empty(),
    decreases es.len(),
{
    if es.len() > 0 {
        lemma_rows_no_init(es.drop_last());
        assert(es[es.len() - 1] == es.last());
    }
}

/// Every edge of a project's call graph is generated code, and its `Init`
/// edges are `main` calling `MX_<name>_Init` once for each peripheral, in
/// the order of the peripherals.
pub proof fn law_call_graph_inits(raw: Entries, ps: Seq<PeriphView>)
    ensures
        init_calls(call_graph(raw, ps)) == ps.map_values(|p: PeriphView| "MX_"@ + p.name + "_Init"@),
        forall|k: int| 0 <= k < call_graph(raw, ps).len() ==> (#[trigger] call_graph(raw, ps)[k]).generated,
    decreases ps.len(),
{
    if ps.len() > 0 {
        law_call_graph_inits(raw, ps.drop_last());
        let name = ps.last().name;
        let pe = peripheral_edges(raw, name);
        let head = seq![edge("main"@, "MX_"@ + name + "_Init"@, EdgeType::Init)];
        let rows = table_edges(raw, name, crate::hal_rules::hal_irq_table());
        lemma_no_init_in_rows(raw, name, crate::hal_rules::hal_irq_table());
        lemma_init_calls_concat(head, rows);
        assert(head.drop_last() =~= Seq::<EdgeView>::empty());
        assert(head.last() == edge("main"@, "MX_"@ + name + "_Init"@, EdgeType::Init));
        assert(init_calls(head.drop_last()) == Seq::<Seq<char>>::empty());
        assert(init_calls(head) =~= seq!["MX_"@ + name + "_Init"@]);
        lemma_init_calls_concat(call_graph(raw, ps.drop_last()), pe);
        assert(ps.map_values(|p: PeriphView| "MX_"@ + p.name + "_Init"@) =~= ps.drop_last().map_values(
            |p: PeriphView| "MX_"@ + p.name + "_Init"@,
        ).push("MX_"@ + name + "_Init"@));
        let prev = call_graph(raw, ps.drop_last());
        let cur = call_graph(raw, ps);
        assert forall|k: int| 0 <= k < cur.len() implies (#[trigger] cur[k]).generated by {
            if k < prev.len() {
                assert(cur[k] == prev[k]);
            } else if k == prev.len() {
                assert(cur[k] == head[0]);
            } else {
                assert(cur[k] == rows[k - prev.len() - 1]);
            }
        }
    }
}

} // verus!
