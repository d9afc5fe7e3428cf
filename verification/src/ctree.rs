//! A parsed C file: its text, its syntax nodes and the children of every
//! node, with the folds over subtrees that the analyses are stated in.
use vstd::prelude::*;
use crate::pin_modules::field_child;
use crate::syntax::{
    c_syntax, children, lemma_children_range, nodes_view, parse_source, row_of, tree_wf, trimmed_text,
    SourceText, SyntaxNode, SyntaxNodeView,
};
use crate::text::{byte_len, str_eq};

verus! {

/// A C text with its syntax tree.
pub struct CTree {
    pub src: SourceText,
    pub nodes: Vec<SyntaxNode>,
    /// The children of each node, in order.
    pub kids: Vec<Vec<usize>>,
}

impl CTree {
    /// The text.
    pub open spec fn s(&self) -> Seq<char> {
        self.src@
    }

    /// The nodes as values.
    pub open spec fn ns(&self) -> Seq<SyntaxNodeView> {
        nodes_view(self.nodes@)
    }

    /// The tree fits the text and the child lists are those of the nodes.
    pub open spec fn wf(&self) -> bool {
        &&& self.src.wf()
        &&& tree_wf(self.src@, self.ns())
        &&& self.kids@.len() == self.nodes@.len()
        &&& forall|i: int| 0 <= i < self.kids@.len() ==> (#[trigger] self.kids@[i])@ == children(self.ns(), i)
    }

    /// The number of nodes.
    pub fn len(&self) -> (n: usize)
        ensures
            n == self.ns().len(),
    {
        self.nodes.len()
    }

    /// The kind of node `i` is `k`.
    pub fn kind_is(&self, i: usize, k: &str) -> (b: bool)
        requires
            i < self.ns().len(),
        ensures
            b == (self.ns()[i as int].kind == k@),
    {
        assert(self.ns()[i as int] == self.nodes@[i as int]@);
        str_eq(self.nodes[i].kind.as_str(), k)
    }

    /// The kind of node `i`.
    pub fn kind_of(&self, i: usize) -> (r: &str)
        requires
            i < self.ns().len(),
        ensures
            r@ == self.ns()[i as int].kind,
    {
        assert(self.ns()[i as int] == self.nodes@[i as int]@);
        self.nodes[i].kind.as_str()
    }

    /// The children of node `i`.
    pub fn kids_of(&self, i: usize) -> (r: &Vec<usize>)
        requires
            self.wf(),
            i < self.ns().len(),
        ensures
            r@ == children(self.ns(), i as int),
            forall|k: int| 0 <= k < r@.len() ==> i < #[trigger] r@[k] < self.ns().len(),
    {
        let _n = self.nodes.len();
        proof {
            lemma_children_range(self.ns(), i as int, self.ns().len() as int);
        }
        &self.kids[i]
    }

    /// The first child of node `i` in field `f`: `Node::child_by_field_name`.
    pub fn field(&self, i: usize, f: &str) -> (r: Option<usize>)
        requires
            self.wf(),
            i < self.ns().len(),
        ensures
            r == field_child(self.ns(), i as int, f@),
            r matches Some(c) ==> i < c < self.ns().len(),
    {
        let ghost ns = self.ns();
        let kids = self.kids_of(i);
        let mut m: usize = 0;
        while m < kids.len()
            invariant
                0 <= m <= kids@.len(),
                ns == self.ns(),
                kids@ == children(ns, i as int),
                forall|j: int| 0 <= j < kids@.len() ==> i < #[trigger] kids@[j] < ns.len(),
                field_child(ns, i as int, f@) == crate::pin_modules::field_child_from(ns, kids@, f@, m as int),
            decreases kids.len() - m,
        {
            let c = kids[m];
            assert(ns[c as int] == self.nodes@[c as int]@);
            let hit = match &self.nodes[c].field {
                Some(name) => str_eq(name.as_str(), f),
                None => false,
            };
            if hit {
                return Some(c);
            }
            m += 1;
        }
        None
    }

    /// The text of node `i`, trimmed.
    pub fn text(&self, i: usize) -> (r: String)
        requires
            self.wf(),
            i < self.ns().len(),
        ensures
            r@ == trimmed_text(self.s(), self.ns(), i as int),
    {
        crate::syntax::node_trimmed_text(&self.src, &self.nodes, i)
    }

    /// The one-based line where node `i` starts.
    pub fn line(&self, i: usize) -> (r: usize)
        requires
            self.wf(),
            i < self.ns().len(),
        ensures
            r == row_of(self.s(), self.ns()[i as int].start_byte as int) + 1,
    {
        assert(self.ns()[i as int] == self.nodes@[i as int]@);
        let k = match self.src.char_index(self.nodes[i].start_byte) {
            Some(k) => k,
            None => {
                assert(false);
                0
            },
        };
        self.src.row_at(k) + 1
    }

    /// The parent of node `i`.
    pub fn parent(&self, i: usize) -> (r: Option<usize>)
        requires
            self.wf(),
            i < self.ns().len(),
        ensures
            r == self.ns()[i as int].parent,
            r matches Some(p) ==> p < i,
    {
        assert(self.ns()[i as int] == self.nodes@[i as int]@);
        self.nodes[i].parent
    }
}

/// The syntax tree of a C text, when the parser gives one that fits it.
pub fn parse_tree(text: &str) -> (r: Option<CTree>)
    requires
        byte_len(text@) < usize::MAX,
    ensures
        match r {
            Some(t) => t.wf() && t.s() == text@ && c_syntax(text@) == Some(t.ns()),
            None => !parses(text@),
        },
{
    let src = SourceText::new(text);
    let nodes = match parse_source(&src, text) {
        Some(v) => v,
        None => return None,
    };
    let ghost ns = nodes_view(nodes@);
    let n = nodes.len();
    let mut kids: Vec<Vec<usize>> = Vec::new();
    let mut i: usize = 0;
    while i < n
        invariant
            0 <= i <= n,
            n == nodes@.len(),
            kids@.len() == i,
            forall|k: int| 0 <= k < i ==> (#[trigger] kids@[k])@ == Seq::<usize>::empty(),
        decreases n - i,
    {
        kids.push(Vec::new());
        i += 1;
    }
    let mut j: usize = 0;
    while j < n
        invariant
            0 <= j <= n,
            n == nodes@.len(),
            ns == nodes_view(nodes@),
            kids@.len() == n,
            forall|k: int| 0 <= k < n ==> (#[trigger] kids@[k])@ == crate::syntax::children_upto(ns, k, j as int),
        decreases n - j,
    {
        assert(ns[j as int] == nodes@[j as int]@);
        let ghost before = kids@;
        match nodes[j].parent {
            Some(p) => if p < j {
                kids[p].push(j);
            },
            None => {},
        }
        assert forall|k: int| 0 <= k < n implies (#[trigger] kids@[k])@ == crate::syntax::children_upto(
            ns,
            k,
            j + 1,
        ) by {
            assert(crate::syntax::children_upto(ns, k, j as int) == before[k]@);
            if k < j {
                assert(crate::syntax::children_upto(ns, k, j + 1) == crate::syntax::children_upto(ns, k, j as int)
                    + if ns[j as int].parent matches Some(q) && q == k {
                    seq![j]
                } else {
                    seq![]
                });
            }
        }
        j += 1;
    }
    Some(CTree { src, nodes, kids })
}

/// The parser gives a tree for `text` that fits it.
pub open spec fn parses(text: Seq<char>) -> bool {
    c_syntax(text) matches Some(ns) && tree_wf(text, ns)
}

/// Some node of the subtree at `i`, in a walk that goes through every
/// child, satisfies `p`.
pub open spec fn subtree_any(ns: Seq<SyntaxNodeView>, i: int, p: spec_fn(int) -> bool) -> bool
    decreases ns.len() - i, 1int, 0int,
{
    if 0 <= i < ns.len() {
        p(i) || kids_any(ns, i, 0, p)
    } else {
        false
    }
}

/// Some node of the subtrees of the children of `i`, from the `m`-th child
/// on, satisfies `p`.
pub open spec fn kids_any(ns: Seq<SyntaxNodeView>, i: int, m: int, p: spec_fn(int) -> bool) -> bool
    decreases ns.len() - i, 0int, children(ns, i).len() - m,
{
    let kids = children(ns, i);
    if 0 <= m < kids.len() && i < kids[m] < ns.len() {
        subtree_any(ns, kids[m] as int, p) || kids_any(ns, i, m + 1, p)
    } else {
        false
    }
}

/// What `f` gives for each node of the subtree at `i`, in a walk that visits
/// a node before its children and does not go below the nodes that `stop`
/// holds of.
pub open spec fn subtree_collect<T>(
    ns: Seq<SyntaxNodeView>,
    i: int,
    f: spec_fn(int) -> Seq<T>,
    stop: spec_fn(int) -> bool,
) -> Seq<T>
    decreases ns.len() - i, 1int, 0int,
{
    if 0 <= i < ns.len() {
        f(i) + if stop(i) {
            Seq::<T>::empty()
        } else {
            kids_collect(ns, i, 0, f, stop)
        }
    } else {
        Seq::<T>::empty()
    }
}

/// `subtree_collect` over the children of `i` from the `m`-th on.
pub open spec fn kids_collect<T>(
    ns: Seq<SyntaxNodeView>,
    i: int,
    m: int,
    f: spec_fn(int) -> Seq<T>,
    stop: spec_fn(int) -> bool,
) -> Seq<T>
    decreases ns.len() - i, 0int, children(ns, i).len() - m,
{
    let kids = children(ns, i);
    if 0 <= m < kids.len() && i < kids[m] < ns.len() {
        subtree_collect(ns, kids[m] as int, f, stop) + kids_collect(ns, i, m + 1, f, stop)
    } else {
        Seq::<T>::empty()
    }
}

/// What `f` gives for each child of `i` from the `m`-th on, in order.
pub open spec fn kids_concat<T>(ns: Seq<SyntaxNodeView>, i: int, m: int, f: spec_fn(int) -> Seq<T>) -> Seq<T>
    decreases children(ns, i).len() - m,
{
    let kids = children(ns, i);
    if 0 <= m < kids.len() {
        f(kids[m] as int) + kids_concat(ns, i, m + 1, f)
    } else {
        Seq::<T>::empty()
    }
}

/// The first child of `i`, from the `m`-th on, whose kind is `k`:
/// the first match of `Node::children`.
pub open spec fn kid_of_kind(ns: Seq<SyntaxNodeView>, i: int, m: int, k: Seq<char>) -> Option<usize>
    decreases children(ns, i).len() - m,
{
    let kids = children(ns, i);
    if 0 <= m < kids.len() {
        if 0 <= kids[m] < ns.len() && ns[kids[m] as int].kind == k {
            Some(kids[m])
        } else {
            kid_of_kind(ns, i, m + 1, k)
        }
    } else {
        None
    }
}

impl CTree {
    /// The first child of node `i` whose kind is `k`.
    pub fn kid_of_kind(&self, i: usize, k: &str) -> (r: Option<usize>)
        requires
            self.wf(),
            i < self.ns().len(),
        ensures
            r == kid_of_kind(self.ns(), i as int, 0, k@),
            r matches Some(c) ==> i < c < self.ns().len(),
    {
        let kids = self.kids_of(i);
        let mut m: usize = 0;
        while m < kids.len()
            invariant
                self.wf(),
                i < self.ns().len(),
                0 <= m <= kids@.len(),
                kids@ == children(self.ns(), i as int),
                forall|j: int| 0 <= j < kids@.len() ==> i < #[trigger] kids@[j] < self.ns().len(),
                kid_of_kind(self.ns(), i as int, 0, k@) == kid_of_kind(self.ns(), i as int, m as int, k@),
            decreases kids.len() - m,
        {
            if self.kind_is(kids[m], k) {
                return Some(kids[m]);
            }
            m += 1;
        }
        None
    }
}


/// What the collection over a subtree holds comes from `f` at nodes of the
/// tree.
pub proof fn lemma_collect_bounds(ns: Seq<SyntaxNodeView>, i: int, f: spec_fn(int) -> Seq<usize>, stop: spec_fn(int) -> bool)
    requires
        forall|j: int, k: int| 0 <= j < ns.len() && 0 <= k < f(j).len() ==> #[trigger] f(j)[k] < ns.len(),
    ensures
        forall|k: int| 0 <= k < subtree_collect(ns, i, f, stop).len() ==> #[trigger] subtree_collect(ns, i, f, stop)[k] < ns.len(),
    decreases ns.len() - i, 1int, 0int,
{
    if 0 <= i < ns.len() {
        if !stop(i) {
            lemma_kids_collect_bounds(ns, i, 0, f, stop);
        }
        let a = f(i);
        let b = if stop(i) { Seq::<usize>::empty() } else { kids_collect(ns, i, 0, f, stop) };
        assert forall|k: int| 0 <= k < (a + b).len() implies #[trigger] (a + b)[k] < ns.len() by {
            if k < a.len() {
                assert((a + b)[k] == a[k]);
            } else {
                assert((a + b)[k] == b[k - a.len()]);
            }
        }
    }
}

/// `lemma_collect_bounds` over the children of `i` from the `m`-th on.
pub proof fn lemma_kids_collect_bounds(ns: Seq<SyntaxNodeView>, i: int, m: int, f: spec_fn(int) -> Seq<usize>, stop: spec_fn(int) -> bool)
    requires
        forall|j: int, k: int| 0 <= j < ns.len() && 0 <= k < f(j).len() ==> #[trigger] f(j)[k] < ns.len(),
    ensures
        forall|k: int| 0 <= k < kids_collect(ns, i, m, f, stop).len() ==> #[trigger] kids_collect(ns, i, m, f, stop)[k] < ns.len(),
    decreases ns.len() - i, 0int, children(ns, i).len() - m,
{
    let kids = children(ns, i);
    if 0 <= m < kids.len() && i < kids[m] < ns.len() {
        lemma_collect_bounds(ns, kids[m] as int, f, stop);
        lemma_kids_collect_bounds(ns, i, m + 1, f, stop);
        let a = subtree_collect(ns, kids[m] as int, f, stop);
        let b = kids_collect(ns, i, m + 1, f, stop);
        assert forall|k: int| 0 <= k < (a + b).len() implies #[trigger] (a + b)[k] < ns.len() by {
            if k < a.len() {
                assert((a + b)[k] == a[k]);
            } else {
                assert((a + b)[k] == b[k - a.len()]);
            }
        }
    }
}

} // verus!
