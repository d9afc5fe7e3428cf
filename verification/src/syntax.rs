//! C syntax trees as plain values: the nodes that tree-sitter's C grammar
//! gives for a source text, in the order of a depth-first walk, and the
//! source text indexed by byte offset.
use vstd::prelude::*;
use tree_sitter::Parser;
use crate::text::{byte_len, char_utf8_len, chars_for_bytes, chars_of, is_char_boundary, lemma_encode_concat};

verus! {

/// One node of a syntax tree.
#[derive(Debug, Clone)]
pub struct SyntaxNode {
    /// The grammar's name for the node, such as `comment` or `identifier`.
    pub kind: String,
    /// The field that the parent holds this node in, if any.
    pub field: Option<String>,
    /// The index of the parent node; the root has none.
    pub parent: Option<usize>,
    pub start_byte: usize,
    pub end_byte: usize,
}

/// The value of a `SyntaxNode`.
pub struct SyntaxNodeView {
    pub kind: Seq<char>,
    pub field: Option<Seq<char>>,
    pub parent: Option<usize>,
    pub start_byte: usize,
    pub end_byte: usize,
}

impl View for SyntaxNode {
    type V = SyntaxNodeView;

    open spec fn view(&self) -> SyntaxNodeView {
        SyntaxNodeView {
            kind: self.kind@,
            field: match self.field {
                Some(f) => Some(f@),
                None => None,
            },
            parent: self.parent,
            start_byte: self.start_byte,
            end_byte: self.end_byte,
        }
    }
}

/// The nodes that tree-sitter's C grammar gives for a source text, root
/// first, each node before its children and the children in order; `None`
/// when the parser gives no tree.
pub uninterp spec fn c_syntax(source: Seq<char>) -> Option<Seq<SyntaxNodeView>>;

pub open spec fn nodes_view(v: Seq<SyntaxNode>) -> Seq<SyntaxNodeView> {
    v.map_values(|n: SyntaxNode| n@)
}

/// Parses `source` with tree-sitter's C grammar (`Parser::set_language`,
/// `Parser::parse`) and lists the nodes of the tree in a depth-first walk
/// (`Node::kind`, `Node::child`, `Node::field_name_for_child`,
/// `Node::start_byte`, `Node::end_byte`). The contract claims only that the
/// list depends on the text alone; nothing is claimed of its shape, which
/// `tree_wf` checks.
#[verifier::external_body]
fn parse_c(source: &str) -> (r: Option<Vec<SyntaxNode>>)
    ensures
        match r {
            Some(v) => c_syntax(source@) == Some(nodes_view(v@)),
            None => c_syntax(source@) is None,
        },
{
    let mut parser = Parser::new();
    parser.set_language(&tree_sitter_c::language()).ok()?;
    let tree = parser.parse(source, None)?;
    let mut out = Vec::new();
    let mut stack = vec![(tree.root_node(), None, None)];
    while let Some((n, parent, field)) = stack.pop() {
        let id = Some(out.len());
        out.push(SyntaxNode { kind: n.kind().into(), field, parent, start_byte: n.start_byte(), end_byte: n.end_byte() });
        for i in (0..n.child_count()).rev() {
            stack.push((n.child(i)?, id, n.field_name_for_child(i as u32).map(String::from)));
        }
    }
    Some(out)
}

/// The number of line feeds in `s`.
pub open spec fn newlines(s: Seq<char>) -> nat
    decreases s.len(),
{
    if s.len() == 0 {
        0
    } else {
        newlines(s.drop_last()) + if s.last() == '\n' {
            1nat
        } else {
            0nat
        }
    }
}

/// The characters of `s` that the first `b` bytes encode.
pub open spec fn char_at_byte(s: Seq<char>, b: int) -> int {
    chars_for_bytes(s, b) as int
}

/// The zero-based line that byte `b` of `s` lies on.
pub open spec fn row_of(s: Seq<char>, b: int) -> nat {
    newlines(s.take(char_at_byte(s, b)))
}

/// The text of a node.
pub open spec fn node_text(s: Seq<char>, n: SyntaxNodeView) -> Seq<char> {
    s.subrange(char_at_byte(s, n.start_byte as int), char_at_byte(s, n.end_byte as int))
}

/// The nodes fit the text: every node covers whole characters of it, in
/// order, and every parent comes before its children.
pub open spec fn tree_wf(s: Seq<char>, nodes: Seq<SyntaxNodeView>) -> bool {
    forall|i: int|
        0 <= i < nodes.len() ==> {
            &&& (#[trigger] nodes[i]).start_byte <= nodes[i].end_byte <= byte_len(s)
            &&& is_char_boundary(s, nodes[i].start_byte as int)
            &&& is_char_boundary(s, nodes[i].end_byte as int)
            &&& (nodes[i].parent matches Some(p) ==> p < i && nodes[p as int].start_byte
                <= nodes[i].start_byte && nodes[i].end_byte <= nodes[p as int].end_byte)
        }
}

pub proof fn lemma_char_bytes(c: char)
    ensures
        1 <= byte_len(seq![c]) <= 4,
{
    vstd::utf8::char_is_scalar(c);
    assert(seq![c].drop_first() =~= Seq::<char>::empty());
    assert(vstd::utf8::encode_utf8(Seq::<char>::empty()) =~= Seq::<u8>::empty());
    assert(vstd::utf8::encode_utf8(seq![c]) =~= vstd::utf8::encode_scalar(c as u32));
}

/// A line feed takes one byte.
pub proof fn lemma_newline_byte()
    ensures
        byte_len(seq!['\n']) == 1,
{
    vstd::utf8::char_is_scalar('\n');
    assert(seq!['\n'].drop_first() =~= Seq::<char>::empty());
    assert(vstd::utf8::encode_utf8(Seq::<char>::empty()) =~= Seq::<u8>::empty());
    assert(vstd::utf8::encode_utf8(seq!['\n']) =~= vstd::utf8::encode_scalar('\n' as u32));
}

/// A text takes at least one byte per character.
pub proof fn lemma_byte_len_ge_len(s: Seq<char>)
    ensures
        s.len() <= byte_len(s),
    decreases s.len(),
{
    if s.len() > 0 {
        lemma_char_bytes(s[0]);
        lemma_encode_concat(seq![s[0]], s.drop_first());
        assert(seq![s[0]] + s.drop_first() =~= s);
        lemma_byte_len_ge_len(s.drop_first());
    }
}

/// The characters that `m` bytes encode are exactly `k` when the first `k`
/// characters take `m` bytes.
pub proof fn lemma_chars_for_bytes_exact(s: Seq<char>, k: int, m: int)
    requires
        0 <= k <= s.len(),
        byte_len(s.take(k)) == m,
    ensures
        chars_for_bytes(s, m) == k,
    decreases k,
{
    if k == 0 {
        assert(s.take(0) =~= Seq::<char>::empty());
        assert(vstd::utf8::encode_utf8(Seq::<char>::empty()) =~= Seq::<u8>::empty());
    } else {
        let w = byte_len(seq![s[0]]);
        lemma_char_bytes(s[0]);
        lemma_encode_concat(seq![s[0]], s.drop_first().take(k - 1));
        assert(seq![s[0]] + s.drop_first().take(k - 1) =~= s.take(k));
        lemma_chars_for_bytes_exact(s.drop_first(), k - 1, m - w);
    }
}

/// A source text with the byte offset of every character and the line
/// that it starts on.
pub struct SourceText {
    chars: Vec<char>,
    offsets: Vec<usize>,
    rows: Vec<usize>,
}

impl View for SourceText {
    type V = Seq<char>;

    closed spec fn view(&self) -> Seq<char> {
        self.chars@
    }
}

impl SourceText {
    pub closed spec fn wf(&self) -> bool {
        &&& self.offsets@.len() == self.chars@.len() + 1
        &&& self.rows@.len() == self.chars@.len() + 1
        &&& self.chars@.len() < usize::MAX
        &&& forall|k: int| 0 <= k <= self.chars@.len() ==> #[trigger] self.rows@[k] <= k
        &&& forall|k: int|
            0 <= k <= self.chars@.len() ==> #[trigger] self.offsets@[k] == byte_len(
                self.chars@.take(k),
            )
        &&& forall|k: int|
            0 <= k <= self.chars@.len() ==> #[trigger] self.rows@[k] == newlines(self.chars@.take(k))
        &&& forall|i: int, j: int|
            0 <= i < j < self.offsets@.len() ==> self.offsets@[i] < self.offsets@[j]
    }

    /// Indexes `s`, whose length in bytes is below `usize::MAX`.
    pub fn new(s: &str) -> (r: SourceText)
        requires
            byte_len(s@) < usize::MAX,
        ensures
            r.wf(),
            r@ == s@,
    {
        let chars = chars_of(s);
        let total = crate::text::str_byte_len(s);
        let mut offsets: Vec<usize> = Vec::new();
        let mut rows: Vec<usize> = Vec::new();
        let mut acc: usize = 0;
        let mut lines: usize = 0;
        let mut i: usize = 0;
        assert(chars@.take(0) =~= Seq::<char>::empty());
        assert(vstd::utf8::encode_utf8(Seq::<char>::empty()) =~= Seq::<u8>::empty());
        while i < chars.len()
            invariant
                0 <= i <= chars@.len(),
                chars@ == s@,
                total == byte_len(s@),
                byte_len(s@) < usize::MAX,
                offsets@.len() == i,
                rows@.len() == i,
                acc == byte_len(chars@.take(i as int)),
                lines == newlines(chars@.take(i as int)),
                lines <= i,
                acc >= i,
                forall|k: int| 0 <= k < i ==> #[trigger] rows@[k] <= k,
                forall|k: int| 0 <= k < i ==> #[trigger] offsets@[k] == byte_len(chars@.take(k)),
                forall|k: int| 0 <= k < i ==> #[trigger] rows@[k] == newlines(chars@.take(k)),
                forall|a: int, b: int| 0 <= a < b < i ==> offsets@[a] < offsets@[b],
                forall|a: int| 0 <= a < i ==> offsets@[a] < acc,
            decreases chars.len() - i,
        {
            offsets.push(acc);
            rows.push(lines);
            let w = char_utf8_len(chars[i]);
            proof {
                lemma_encode_concat(chars@.take(i as int), seq![chars@[i as int]]);
                assert(chars@.take(i + 1) =~= chars@.take(i as int) + seq![chars@[i as int]]);
                assert(chars@.take(i + 1).drop_last() =~= chars@.take(i as int));
                crate::text::lemma_byte_len_subrange(chars@, 0, i + 1);
                assert(chars@.subrange(0, i + 1) =~= chars@.take(i + 1));
            }
            acc = acc + w;
            if chars[i] == '\n' {
                lines = lines + 1;
            }
            i += 1;
        }
        assert(chars@.take(chars@.len() as int) =~= chars@);
        offsets.push(acc);
        rows.push(lines);
        SourceText { chars, offsets, rows }
    }

    /// The number of characters.
    pub fn len(&self) -> (n: usize)
        ensures
            n == self@.len(),
    {
        self.chars.len()
    }

    /// The index of the character that starts at byte `b`; `None` when `b`
    /// is not the start of a character or the end of the text.
    pub fn char_index(&self, b: usize) -> (r: Option<usize>)
        requires
            self.wf(),
        ensures
            r matches Some(k) ==> k == char_at_byte(self@, b as int) && k <= self@.len()
                && is_char_boundary(self@, b as int),
            r is None ==> !is_char_boundary(self@, b as int),
    {
        let mut lo: usize = 0;
        let mut hi: usize = self.offsets.len();
        while lo < hi
            invariant
                self.wf(),
                0 <= lo <= hi <= self.offsets@.len(),
                forall|k: int| 0 <= k < lo ==> self.offsets@[k] < b,
                forall|k: int| hi <= k < self.offsets@.len() ==> self.offsets@[k] > b,
            decreases hi - lo,
        {
            let mid = lo + (hi - lo) / 2;
            if self.offsets[mid] == b {
                proof {
                    lemma_chars_for_bytes_exact(self@, mid as int, b as int);
                }
                return Some(mid);
            } else if self.offsets[mid] < b {
                lo = mid + 1;
            } else {
                hi = mid;
            }
        }
        proof {
            crate::text::lemma_chars_for_bytes_le(self@, b as int);
            let k = char_at_byte(self@, b as int);
            assert(self.offsets@[k] == byte_len(self@.take(k)));
        }
        None
    }

    /// The zero-based line of the character at index `k`.
    pub fn row_at(&self, k: usize) -> (r: usize)
        requires
            self.wf(),
            k <= self@.len(),
        ensures
            r == newlines(self@.take(k as int)),
            r < usize::MAX,
    {
        self.rows[k]
    }

    /// The characters `lo..hi` as a string.
    pub fn slice(&self, lo: usize, hi: usize) -> (r: String)
        requires
            lo <= hi <= self@.len(),
        ensures
            r@ == self@.subrange(lo as int, hi as int),
    {
        crate::text::string_of(&self.chars, lo, hi)
    }

    /// The character at index `k`.
    pub fn char_at(&self, k: usize) -> (c: char)
        requires
            k < self@.len(),
        ensures
            c == self@[k as int],
    {
        self.chars[k]
    }

    /// The characters, as a slice.
    pub fn chars(&self) -> (r: &[char])
        ensures
            r@ == self@,
    {
        self.chars.as_slice()
    }
}

/// Checks that the nodes fit the text.
pub fn check_tree(src: &SourceText, nodes: &Vec<SyntaxNode>) -> (b: bool)
    requires
        src.wf(),
    ensures
        b == tree_wf(src@, nodes_view(nodes@)),
{
    let total = src.offsets_end();
    let mut i: usize = 0;
    while i < nodes.len()
        invariant
            src.wf(),
            0 <= i <= nodes@.len(),
            total == byte_len(src@),
            forall|j: int|
                0 <= j < i ==> {
                    &&& (#[trigger] nodes@[j])@.start_byte <= nodes@[j]@.end_byte <= byte_len(src@)
                    &&& is_char_boundary(src@, nodes@[j]@.start_byte as int)
                    &&& is_char_boundary(src@, nodes@[j]@.end_byte as int)
                    &&& (nodes@[j]@.parent matches Some(p) ==> p < j && nodes@[p as int]@.start_byte
                        <= nodes@[j]@.start_byte && nodes@[j]@.end_byte <= nodes@[p as int]@.end_byte)
                },
        decreases nodes.len() - i,
    {
        let n = &nodes[i];
        let ok_parent = match n.parent {
            Some(p) => p < i && nodes[p].start_byte <= n.start_byte && n.end_byte <= nodes[p].end_byte,
            None => true,
        };
        if !(n.start_byte <= n.end_byte && n.end_byte <= total && ok_parent) {
            assert(nodes_view(nodes@)[i as int] == nodes@[i as int]@);
            if let Some(p) = n.parent {
                if p < i {
                    assert(nodes_view(nodes@)[p as int] == nodes@[p as int]@);
                }
            }
            return false;
        }
        if src.char_index(n.start_byte).is_none() || src.char_index(n.end_byte).is_none() {
            assert(nodes_view(nodes@)[i as int] == nodes@[i as int]@);
            return false;
        }
        i += 1;
    }
    assert forall|j: int| 0 <= j < nodes_view(nodes@).len() implies {
        &&& (#[trigger] nodes_view(nodes@)[j]).start_byte <= nodes_view(nodes@)[j].end_byte <= byte_len(src@)
        &&& is_char_boundary(src@, nodes_view(nodes@)[j].start_byte as int)
        &&& is_char_boundary(src@, nodes_view(nodes@)[j].end_byte as int)
        &&& (nodes_view(nodes@)[j].parent matches Some(p) ==> p < j && nodes_view(nodes@)[p as int].start_byte
            <= nodes_view(nodes@)[j].start_byte && nodes_view(nodes@)[j].end_byte <= nodes_view(nodes@)[p as int].end_byte)
    } by {
        assert(nodes_view(nodes@)[j] == nodes@[j]@);
        if let Some(p) = nodes_view(nodes@)[j].parent {
            assert(nodes_view(nodes@)[p as int] == nodes@[p as int]@);
        }
    }
    true
}

impl SourceText {
    /// The byte length of the text.
    pub fn offsets_end(&self) -> (n: usize)
        requires
            self.wf(),
        ensures
            n == byte_len(self@),
    {
        assert(self@.take(self@.len() as int) =~= self@);
        self.offsets[self.chars.len()]
    }
}

/// The syntax tree of `source`, when the parser gives one that fits the text.
pub fn parse_source(src: &SourceText, source: &str) -> (r: Option<Vec<SyntaxNode>>)
    requires
        src.wf(),
        src@ == source@,
    ensures
        match r {
            Some(v) => c_syntax(source@) == Some(nodes_view(v@)) && tree_wf(src@, nodes_view(v@)),
            None => match c_syntax(source@) {
                Some(ns) => !tree_wf(source@, ns),
                None => true,
            },
        },
{
    match parse_c(source) {
        Some(v) => {
            if check_tree(src, &v) {
                Some(v)
            } else {
                None
            }
        },
        None => None,
    }
}

/// The children of node `i` among the nodes before `j`, in order.
pub open spec fn children_upto(ns: Seq<SyntaxNodeView>, i: int, j: int) -> Seq<usize>
    decreases j - i,
{
    if i < 0 || j <= i + 1 || j > ns.len() {
        seq![]
    } else {
        children_upto(ns, i, j - 1) + if ns[j - 1].parent matches Some(p) && p == i {
            seq![(j - 1) as usize]
        } else {
            seq![]
        }
    }
}

/// The children of node `i`, in order.
pub open spec fn children(ns: Seq<SyntaxNodeView>, i: int) -> Seq<usize> {
    children_upto(ns, i, ns.len() as int)
}

pub proof fn lemma_children_range(ns: Seq<SyntaxNodeView>, i: int, j: int)
    requires
        ns.len() <= usize::MAX,
    ensures
        forall|k: int| 0 <= k < children_upto(ns, i, j).len() ==> i < #[trigger] children_upto(ns, i, j)[k] < j
            && ns[children_upto(ns, i, j)[k] as int].parent == Some(i as usize),
    decreases j - i,
{
    if i >= 0 && j > i + 1 && j <= ns.len() {
        lemma_children_range(ns, i, j - 1);
        let prev = children_upto(ns, i, j - 1);
        let cur = children_upto(ns, i, j);
        assert forall|k: int| 0 <= k < cur.len() implies i < #[trigger] cur[k] < j && ns[cur[k] as int].parent == Some(i as usize) by {
            if k < prev.len() {
                assert(cur[k] == prev[k]);
            }
        }
    }
}

/// The children of node `i`, in order.
pub fn children_of(nodes: &Vec<SyntaxNode>, i: usize) -> (v: Vec<usize>)
    ensures
        v@ == children(nodes_view(nodes@), i as int),
        forall|k: int| 0 <= k < v@.len() ==> i < #[trigger] v@[k] < nodes@.len(),
        forall|k: int| 0 <= k < v@.len() ==> (#[trigger] nodes@[v@[k] as int]).parent == Some(i),
{
    let ghost ns = nodes_view(nodes@);
    let mut v: Vec<usize> = Vec::new();
    if i >= nodes.len() {
        assert(children_upto(ns, i as int, ns.len() as int) =~= Seq::<usize>::empty());
        return v;
    }
    let mut j = i + 1;
    while j < nodes.len()
        invariant
            i < j <= nodes@.len(),
            ns == nodes_view(nodes@),
            v@ == children_upto(ns, i as int, j as int),
        decreases nodes.len() - j,
    {
        assert(ns[j as int] == nodes@[j as int]@);
        if nodes[j].parent == Some(i) {
            v.push(j);
        }
        j += 1;
    }
    proof {
        lemma_children_range(ns, i as int, ns.len() as int);
        assert forall|k: int| 0 <= k < v@.len() implies (#[trigger] nodes@[v@[k] as int]).parent == Some(i) by {
            assert(ns[v@[k] as int] == nodes@[v@[k] as int]@);
        }
    }
    v
}

/// Node `j` is node `i` or lies below it.
pub open spec fn is_desc(ns: Seq<SyntaxNodeView>, j: int, i: int) -> bool
    decreases j,
{
    if j == i {
        true
    } else if j < i || j >= ns.len() {
        false
    } else {
        match ns[j].parent {
            Some(p) => if p < j {
                is_desc(ns, p as int, i)
            } else {
                false
            },
            None => false,
        }
    }
}

/// Node `j` is node `i` or lies below it.
pub fn is_desc_of(nodes: &Vec<SyntaxNode>, j: usize, i: usize) -> (b: bool)
    ensures
        b == is_desc(nodes_view(nodes@), j as int, i as int),
    decreases j,
{
    let ghost ns = nodes_view(nodes@);
    if j == i {
        return true;
    }
    if j < i || j >= nodes.len() {
        return false;
    }
    assert(ns[j as int] == nodes@[j as int]@);
    match nodes[j].parent {
        Some(p) => if p < j {
            is_desc_of(nodes, p, i)
        } else {
            false
        },
        None => false,
    }
}

/// The text of node `j`, trimmed.
pub open spec fn trimmed_text(s: Seq<char>, ns: Seq<SyntaxNodeView>, j: int) -> Seq<char> {
    crate::text::trim(node_text(s, ns[j]))
}

/// The characters of `src` between two byte offsets that start characters.
pub fn text_between(src: &SourceText, a: usize, b: usize) -> (r: String)
    requires
        src.wf(),
        a <= b,
        is_char_boundary(src@, a as int),
        is_char_boundary(src@, b as int),
    ensures
        r@ == src@.subrange(char_at_byte(src@, a as int), char_at_byte(src@, b as int)),
{
    let ca = match src.char_index(a) {
        Some(k) => k,
        None => {
            assert(false);
            0
        },
    };
    let cb = match src.char_index(b) {
        Some(k) => k,
        None => {
            assert(false);
            0
        },
    };
    proof {
        crate::text::lemma_chars_for_bytes_monotone(src@, a as int, b as int);
    }
    src.slice(ca, cb)
}

/// The text of node `j`, trimmed.
pub fn node_trimmed_text(src: &SourceText, nodes: &Vec<SyntaxNode>, j: usize) -> (r: String)
    requires
        src.wf(),
        tree_wf(src@, nodes_view(nodes@)),
        j < nodes@.len(),
    ensures
        r@ == trimmed_text(src@, nodes_view(nodes@), j as int),
{
    assert(nodes_view(nodes@)[j as int] == nodes@[j as int]@);
    let t = text_between(src, nodes[j].start_byte, nodes[j].end_byte);
    crate::prettify::trimmed(t.as_str())
}

} // verus!
