//! Guard conditions rewritten as short English labels: `state == ST_IDLE`
//! reads `State is IDLE`, `a && !b` reads `A and not B`.
use vstd::prelude::*;
use crate::labels::{strip_parens, strip_parens_range, title_case, to_title_case_identifier};
use crate::text::{
    chars_of, char_is_digit, char_is_lower, char_is_upper, concat3, concat_str, contains, find,
    find_char, find_char_in, find_in, is_ascii_digit, is_ascii_lower, is_ascii_upper, join,
    join_strings, lemma_find_char_bounds, lemma_find_from_props, split_on, split_ranges, str_byte_len,
    str_eq, string_of, trim, trim_range, trim_start,
};
use crate::unicode::{char_is_alnum, is_alnum};

verus! {

/// `s` trimmed, then stripped of matching wrapping parentheses.
pub open spec fn stripped(s: Seq<char>) -> Seq<char> {
    strip_parens(trim(s))
}

/// The operands that keep their spelling.
pub open spec fn is_literal_operand(s: Seq<char>) -> bool {
    s == "0"@ || s == "1"@ || s == "true"@ || s == "false"@ || s == "NULL"@
}

/// An operand as a label: literals as written, anything else title-cased.
pub open spec fn operand_label(op: Seq<char>) -> Seq<char> {
    let s = stripped(op);
    if is_literal_operand(s) {
        s
    } else {
        title_case(s)
    }
}

/// A camel-case identifier: starts lower-case, has an upper-case letter,
/// and holds no space, `[` or `(`.
pub open spec fn is_camel_case(s: Seq<char>) -> bool {
    let t = trim(s);
    &&& t.len() > 0
    &&& !t.contains(' ')
    &&& !t.contains('[')
    &&& !t.contains('(')
    &&& is_ascii_lower(t[0])
    &&& exists|i: int| 0 <= i < t.len() && is_ascii_upper(#[trigger] t[i])
}

/// The part after the first `_` of an upper-case enum constant such as
/// `ST_IDLE`, when there is one.
pub open spec fn variant_suffix(s: Seq<char>) -> Option<Seq<char>> {
    let t = trim(s);
    if t.contains('_') && forall|i: int|
        0 <= i < t.len() ==> is_ascii_upper(#[trigger] t[i]) || is_ascii_digit(t[i]) || t[i] == '_' {
        match find_char(t, '_') {
            Some(i) => if i + 1 < t.len() {
                Some(t.subrange(i + 1, t.len() as int))
            } else {
                None
            },
            None => None,
        }
    } else {
        None
    }
}

/// One comparison or operand as a label.
pub open spec fn term_label(term: Seq<char>) -> Seq<char> {
    let s = stripped(term);
    let eq = split_on(s, "=="@);
    let ne = split_on(s, "!="@);
    if s.len() == 0 {
        seq![]
    } else if contains(s, "=="@) && eq.len() == 2 {
        let l = trim(eq[0]);
        let r = trim(eq[1]);
        (if is_camel_case(l) {
            l
        } else {
            operand_label(l)
        }) + " is "@ + match variant_suffix(r) {
            Some(x) => x,
            None => operand_label(r),
        }
    } else if contains(s, "!="@) && ne.len() == 2 {
        operand_label(trim(ne[0])) + " is not "@ + operand_label(trim(ne[1]))
    } else if s[0] == '!' {
        "not "@ + operand_label(trim(s.subrange(1, s.len() as int)))
    } else {
        operand_label(s)
    }
}

/// The non-empty strings of `ps`, in order.
pub open spec fn keep_nonempty(ps: Seq<Seq<char>>) -> Seq<Seq<char>>
    decreases ps.len(),
{
    if ps.len() == 0 {
        seq![]
    } else {
        keep_nonempty(ps.drop_last()) + if ps.last().len() > 0 {
            seq![ps.last()]
        } else {
            seq![]
        }
    }
}

/// The trimmed pieces of `s` between occurrences of `sep`.
pub open spec fn trimmed_pieces(s: Seq<char>, sep: Seq<char>) -> Seq<Seq<char>> {
    split_on(s, sep).map_values(|p: Seq<char>| trim(p))
}

/// A conjunction as a label: its terms joined with ` and `.
pub open spec fn clause_label(clause: Seq<char>) -> Seq<char> {
    join(
        keep_nonempty(trimmed_pieces(clause, "&&"@).map_values(|p: Seq<char>| term_label(p))),
        " and "@,
    )
}

/// The length of the longest prefix of `s[i..]` made of alphanumeric
/// characters and `_`, plus `i`.
pub open spec fn ident_end(s: Seq<char>, i: int) -> int
    decreases s.len() - i,
{
    if 0 <= i < s.len() && (is_alnum(s[i]) || s[i] == '_') {
        ident_end(s, i + 1)
    } else {
        i
    }
}

/// The label of a `now - stateStart > LIMIT` timeout condition:
/// `Timeout (LIMIT)`.
pub open spec fn timeout_label(s: Seq<char>) -> Option<Seq<char>> {
    let t = trim(s);
    let sc = if t.len() >= 2 && t[0] == '(' && t.last() == ')' {
        trim(t.subrange(1, t.len() - 1))
    } else {
        t
    };
    match find(sc, "now"@) {
        Some(i) => {
            let an = trim_start(sc.subrange(i + 3, sc.len() as int));
            match find_char(an, '-') {
                Some(d) => {
                    let ad = trim_start(an.subrange(d + 1, an.len() as int));
                    match find_char(ad, '>') {
                        Some(g) => {
                            let left = trim(ad.subrange(0, g));
                            let right = trim(ad.subrange(g + 1, ad.len() as int));
                            let k = right.subrange(0, ident_end(right, 0));
                            if contains(left, "stateStart"@) && k.len() > 0 {
                                Some("Timeout ("@ + k + ")"@)
                            } else {
                                None
                            }
                        },
                        None => None,
                    }
                },
                None => None,
            }
        },
        None => None,
    }
}

/// The first index at or after `j` of a piece that holds `==`.
pub open spec fn first_with_eq(ps: Seq<Seq<char>>, j: int) -> Option<int>
    decreases ps.len() - j,
{
    if j < 0 || j >= ps.len() {
        None
    } else if contains(ps[j], "=="@) {
        Some(j)
    } else {
        first_with_eq(ps, j + 1)
    }
}

/// The condition of a guard, without a trailing ` [..]` note and without
/// wrapping parentheses.
pub open spec fn guard_core(raw: Seq<char>) -> Seq<char> {
    let t = trim(raw);
    let a = match find(t, " ["@) {
        Some(i) => t.subrange(0, i),
        None => t,
    };
    strip_parens(trim(a))
}

/// A guard as a label. An equality term wins; then a timeout pattern; then
/// a disjunction of conjunctions.
pub open spec fn guard_label(raw: Seq<char>) -> Seq<char> {
    let s = guard_core(raw);
    let ands = trimmed_pieces(s, "&&"@);
    if s.len() == 0 {
        seq![]
    } else if contains(s, "=="@) && first_with_eq(ands, 0) is Some {
        term_label(ands[first_with_eq(ands, 0)->0])
    } else if contains(s, "now"@) && contains(s, "stateStart"@) && timeout_label(s) is Some {
        timeout_label(s)->0
    } else if contains(s, "||"@) {
        join(
            keep_nonempty(trimmed_pieces(s, "||"@).map_values(|p: Seq<char>| clause_label(p))),
            " or "@,
        )
    } else {
        clause_label(s)
    }
}

/// `s` with white space trimmed from both ends.
pub fn trimmed(s: &str) -> (r: String)
    ensures
        r@ == trim(s@),
{
    let c = chars_of(s);
    let (a, b) = trim_range(&c, 0, c.len());
    assert(c@.subrange(0, c@.len() as int) =~= c@);
    string_of(&c, a, b)
}

/// `p` occurs in `s`.
pub fn contains_str(s: &str, p: &str) -> (b: bool)
    ensures
        b == contains(s@, p@),
{
    let c = chars_of(s);
    let pc = chars_of(p);
    assert(c@.subrange(0, c@.len() as int) =~= c@);
    find_in(&c, 0, c.len(), &pc).is_some()
}

/// The trimmed pieces of `s` between occurrences of the non-empty `sep`.
pub fn split_trimmed(s: &str, sep: &str) -> (out: Vec<String>)
    requires
        sep@.len() > 0,
    ensures
        out.deep_view() == trimmed_pieces(s@, sep@),
{
    let c = chars_of(s);
    let pc = chars_of(sep);
    assert(c@.subrange(0, c@.len() as int) =~= c@);
    let rs = split_ranges(&c, 0, c.len(), &pc);
    let ghost ps = split_on(c@, sep@);
    let mut out: Vec<String> = Vec::new();
    let mut i: usize = 0;
    while i < rs.len()
        invariant
            0 <= i <= rs@.len(),
            ps == split_on(c@, sep@),
            c@ == s@,
            rs@.len() == ps.len(),
            forall|j: int| 0 <= j < rs@.len() ==> (#[trigger] rs@[j]).0 <= rs@[j].1 <= c@.len(),
            forall|j: int|
                0 <= j < rs@.len() ==> #[trigger] c@.subrange(rs@[j].0 as int, rs@[j].1 as int)
                    == ps[j],
            out.deep_view() == ps.subrange(0, i as int).map_values(|p: Seq<char>| trim(p)),
        decreases rs.len() - i,
    {
        let (x, y) = rs[i];
        let (a, b) = trim_range(&c, x, y);
        let w = string_of(&c, a, b);
        let ghost prev = out.deep_view();
        out.push(w);
        assert(out.deep_view() =~= prev.push(trim(ps[i as int])));
        assert(out.deep_view() =~= ps.subrange(0, i + 1).map_values(|p: Seq<char>| trim(p)));
        i += 1;
    }
    assert(ps.subrange(0, i as int) =~= ps);
    out
}

/// The non-empty strings of `parts` joined with `sep`.
fn join_nonempty(parts: &Vec<String>, sep: &str) -> (r: String)
    ensures
        r@ == join(keep_nonempty(parts.deep_view()), sep@),
{
    let ghost pv = parts.deep_view();
    let mut kept: Vec<String> = Vec::new();
    let mut i: usize = 0;
    assert(pv.subrange(0, 0) =~= Seq::<Seq<char>>::empty());
    while i < parts.len()
        invariant
            0 <= i <= parts@.len(),
            pv == parts.deep_view(),
            kept.deep_view() == keep_nonempty(pv.subrange(0, i as int)),
        decreases parts.len() - i,
    {
        assert(pv.subrange(0, i + 1).drop_last() =~= pv.subrange(0, i as int));
        assert(pv[i as int] == parts@[i as int]@);
        if parts[i].as_str().unicode_len() > 0 {
            let ghost prev = kept.deep_view();
            kept.push(parts[i].clone());
            assert(kept.deep_view() =~= prev + seq![pv[i as int]]);
        } else {
            assert(kept.deep_view() =~= kept.deep_view() + Seq::<Seq<char>>::empty());
        }
        i += 1;
    }
    assert(pv.subrange(0, i as int) =~= pv);
    join_strings(&kept, sep)
}

/// `s` trimmed and stripped of matching wrapping parentheses.
fn stripped_text(s: &str) -> (r: String)
    ensures
        r@ == stripped(s@),
{
    let c = chars_of(s);
    let _ = str_byte_len(s);
    let (ta, tb) = trim_range(&c, 0, c.len());
    assert(c@.subrange(0, c@.len() as int) =~= c@);
    let (a, b) = strip_parens_range(&c, ta, tb);
    string_of(&c, a, b)
}

/// An operand as a label: `0`, `1`, `true`, `false` and `NULL` as written,
/// anything else title-cased.
pub fn prettify_operand(op: &str) -> (r: String)
    ensures
        r@ == operand_label(op@),
{
    let s = stripped_text(op);
    if str_eq(s.as_str(), "0") || str_eq(s.as_str(), "1") || str_eq(s.as_str(), "true") || str_eq(
        s.as_str(),
        "false",
    ) || str_eq(s.as_str(), "NULL") {
        s
    } else {
        to_title_case_identifier(s.as_str())
    }
}

/// `s` is a camel-case identifier such as `pendingState`.
pub fn is_camel_case_ident(s: &str) -> (b: bool)
    ensures
        b == is_camel_case(s@),
{
    let c = chars_of(s);
    let (a, e) = trim_range(&c, 0, c.len());
    assert(c@.subrange(0, c@.len() as int) =~= c@);
    let ghost t = c@.subrange(a as int, e as int);
    if a == e {
        return false;
    }
    let mut any_upper = false;
    let mut k = a;
    while k < e
        invariant
            a <= k <= e <= c@.len(),
            t == c@.subrange(a as int, e as int),
            t == trim(s@),
            forall|j: int| 0 <= j < k - a ==> #[trigger] t[j] != ' ' && t[j] != '[' && t[j] != '(',
            any_upper == exists|j: int| 0 <= j < k - a && is_ascii_upper(#[trigger] t[j]),
        decreases e - k,
    {
        assert(t[k - a] == c@[k as int]);
        if c[k] == ' ' || c[k] == '[' || c[k] == '(' {
            assert(t.contains(c@[k as int]));
            return false;
        }
        if char_is_upper(c[k]) {
            any_upper = true;
        }
        k += 1;
    }
    assert(t[0] == c@[a as int]);
    char_is_lower(c[a]) && any_upper
}

/// The part of an upper-case enum constant after its first `_`:
/// `ST_IDLE` gives `IDLE`.
pub fn strip_variant_prefix(s: &str) -> (r: Option<String>)
    ensures
        r.deep_view() == variant_suffix(s@),
{
    let c = chars_of(s);
    let (a, e) = trim_range(&c, 0, c.len());
    assert(c@.subrange(0, c@.len() as int) =~= c@);
    let ghost t = c@.subrange(a as int, e as int);
    let mut has_sep = false;
    let mut all_ok = true;
    let mut k = a;
    while k < e
        invariant
            a <= k <= e <= c@.len(),
            t == c@.subrange(a as int, e as int),
            t == trim(s@),
            has_sep == exists|j: int| 0 <= j < k - a && #[trigger] t[j] == '_',
            all_ok == forall|j: int|
                0 <= j < k - a ==> is_ascii_upper(#[trigger] t[j]) || is_ascii_digit(t[j]) || t[j]
                    == '_',
        decreases e - k,
    {
        assert(t[k - a] == c@[k as int]);
        if c[k] == '_' {
            has_sep = true;
        }
        if !(char_is_upper(c[k]) || char_is_digit(c[k]) || c[k] == '_') {
            all_ok = false;
        }
        k += 1;
    }
    if !(has_sep && all_ok) {
        return None;
    }
    proof {
        lemma_find_char_bounds(t, '_');
    }
    match find_char_in(&c, a, e, '_') {
        Some(i) => {
            if a + i + 1 < e {
                let r = string_of(&c, a + i + 1, e);
                assert(r@ =~= t.subrange(i + 1, t.len() as int));
                Some(r)
            } else {
                None
            }
        },
        None => None,
    }
}

/// One comparison or operand as a label: `a == ST_B` reads `A is B`,
/// `a != b` reads `A is not B`, `!a` reads `not A`.
pub fn prettify_single_term(term: &str) -> (r: String)
    ensures
        r@ == term_label(term@),
{
    proof {
        reveal_strlit("==");
        reveal_strlit("!=");
    }
    let s = stripped_text(term);
    let sc = chars_of(s.as_str());
    if sc.len() == 0 {
        return String::new();
    }
    if contains_str(s.as_str(), "==") {
        let parts = split_trimmed(s.as_str(), "==");
        assert(parts.deep_view().len() == split_on(s@, "=="@).len());
        if parts.len() == 2 {
            assert(parts.deep_view()[0] == parts@[0]@);
            assert(parts.deep_view()[1] == parts@[1]@);
            assert(parts.deep_view() == trimmed_pieces(s@, "=="@));
            assert(parts.deep_view().len() == split_on(s@, "=="@).len());
            assert(trimmed_pieces(s@, "=="@)[0] == trim(split_on(s@, "=="@)[0]));
            assert(parts@[0]@ == trim(split_on(s@, "=="@)[0]));
            assert(parts@[1]@ == trim(split_on(s@, "=="@)[1]));
            let left = if is_camel_case_ident(parts[0].as_str()) {
                parts[0].clone()
            } else {
                prettify_operand(parts[0].as_str())
            };
            let right = match strip_variant_prefix(parts[1].as_str()) {
                Some(x) => x,
                None => prettify_operand(parts[1].as_str()),
            };
            assert(left@ == (if is_camel_case(parts@[0]@) {
                parts@[0]@
            } else {
                operand_label(parts@[0]@)
            }));
            assert(right@ == match variant_suffix(parts@[1]@) {
                Some(x) => x,
                None => operand_label(parts@[1]@),
            });
            return concat3(left.as_str(), " is ", right.as_str());
        }
    }
    if contains_str(s.as_str(), "!=") {
        let parts = split_trimmed(s.as_str(), "!=");
        assert(parts.deep_view().len() == split_on(s@, "!="@).len());
        if parts.len() == 2 {
            assert(parts.deep_view()[0] == parts@[0]@);
            assert(parts.deep_view()[1] == parts@[1]@);
            assert(trimmed_pieces(s@, "!="@)[0] == trim(split_on(s@, "!="@)[0]));
            assert(trimmed_pieces(s@, "!="@)[1] == trim(split_on(s@, "!="@)[1]));
            let left = prettify_operand(parts[0].as_str());
            let right = prettify_operand(parts[1].as_str());
            return concat3(left.as_str(), " is not ", right.as_str());
        }
    }
    if sc[0] == '!' {
        let (a, b) = trim_range(&sc, 1, sc.len());
        assert(sc@.subrange(1, sc@.len() as int) == s@.subrange(1, s@.len() as int));
        let rest = string_of(&sc, a, b);
        let o = prettify_operand(rest.as_str());
        return concat_str("not ", o.as_str());
    }
    prettify_operand(s.as_str())
}

/// A conjunction as a label: its terms joined with ` and `.
pub fn prettify_conjunctive_clause(clause: &str) -> (r: String)
    ensures
        r@ == clause_label(clause@),
{
    proof {
        reveal_strlit("&&");
    }
    let parts = split_trimmed(clause, "&&");
    let ghost pv = parts.deep_view();
    let mut labels: Vec<String> = Vec::new();
    let mut i: usize = 0;
    while i < parts.len()
        invariant
            0 <= i <= parts@.len(),
            pv == parts.deep_view(),
            labels.deep_view() == pv.subrange(0, i as int).map_values(|p: Seq<char>| term_label(p)),
        decreases parts.len() - i,
    {
        assert(pv[i as int] == parts@[i as int]@);
        let l = prettify_single_term(parts[i].as_str());
        let ghost prev = labels.deep_view();
        labels.push(l);
        assert(labels.deep_view() =~= prev.push(term_label(pv[i as int])));
        assert(labels.deep_view() =~= pv.subrange(0, i + 1).map_values(|p: Seq<char>| term_label(p)));
        i += 1;
    }
    assert(pv.subrange(0, i as int) =~= pv);
    join_nonempty(&labels, " and ")
}

/// The first index at or after `p` in `c[p..b]` that is not white space.
fn skip_ws(c: &[char], p: usize, b: usize) -> (r: usize)
    requires
        p <= b <= c@.len(),
    ensures
        p <= r <= b,
        c@.subrange(r as int, b as int) == trim_start(c@.subrange(p as int, b as int)),
{
    let mut q = p;
    while q < b && crate::text::char_is_ws(c[q])
        invariant
            p <= q <= b <= c@.len(),
            trim_start(c@.subrange(p as int, b as int)) == trim_start(c@.subrange(q as int, b as int)),
        decreases b - q,
    {
        assert(c@.subrange(q as int, b as int).drop_first() =~= c@.subrange(q + 1, b as int));
        q += 1;
    }
    q
}

/// The end of the run of alphanumeric characters and `_` that starts at `lo`.
fn ident_run(c: &[char], lo: usize, hi: usize) -> (k: usize)
    requires
        lo <= hi <= c@.len(),
    ensures
        lo <= k <= hi,
        k - lo == ident_end(c@.subrange(lo as int, hi as int), 0),
{
    let ghost t = c@.subrange(lo as int, hi as int);
    let mut k = lo;
    while k < hi && (char_is_alnum(c[k]) || c[k] == '_')
        invariant
            lo <= k <= hi <= c@.len(),
            t == c@.subrange(lo as int, hi as int),
            ident_end(t, 0) == ident_end(t, (k - lo) as int),
        decreases hi - k,
    {
        assert(t[k - lo] == c@[k as int]);
        k += 1;
    }
    if k < hi {
        assert(t[k - lo] == c@[k as int]);
    }
    k
}

/// The bounds of the text that `timeout_label` reads: `s` trimmed, less
/// one pair of wrapping parentheses.
fn timeout_body(c: &[char]) -> (r: (usize, usize))
    ensures
        r.0 <= r.1 <= c@.len(),
        c@.subrange(r.0 as int, r.1 as int) == ({
            let t = trim(c@);
            if t.len() >= 2 && t[0] == '(' && t.last() == ')' {
                trim(t.subrange(1, t.len() - 1))
            } else {
                t
            }
        }),
{
    let n = c.len();
    assert(c@.subrange(0, n as int) =~= c@);
    let (ta, tb) = trim_range(c, 0, n);
    let ghost t = c@.subrange(ta as int, tb as int);
    if tb - ta >= 2 && c[ta] == '(' && c[tb - 1] == ')' {
        assert(t.subrange(1, t.len() - 1) =~= c@.subrange(ta + 1, tb - 1));
        trim_range(c, ta + 1, tb - 1)
    } else {
        (ta, tb)
    }
}

/// The label `Timeout (LIMIT)` of a `now - stateStart > LIMIT` condition.
#[verifier::rlimit(30)]
pub fn extract_timeout_pattern(s: &str) -> (r: Option<String>)
    ensures
        r.deep_view() == timeout_label(s@),
{
    proof {
        reveal_strlit("now");
    }
    let c = chars_of(s);
    let (a, b) = timeout_body(&c);
    let ghost sc = c@.subrange(a as int, b as int);
    let nowp = chars_of("now");
    proof {
        lemma_find_from_props(sc, "now"@, 0);
    }
    let i = match find_in(&c, a, b, &nowp) {
        Some(i) => i,
        None => return None,
    };
    assert(sc.subrange(i + 3, sc.len() as int) =~= c@.subrange(a + i + 3, b as int));
    let p = skip_ws(&c, a + i + 3, b);
    let ghost an = c@.subrange(p as int, b as int);
    proof {
        lemma_find_char_bounds(an, '-');
    }
    let d = match find_char_in(&c, p, b, '-') {
        Some(d) => d,
        None => return None,
    };
    assert(an.subrange(d + 1, an.len() as int) =~= c@.subrange(p + d + 1, b as int));
    let q = skip_ws(&c, p + d + 1, b);
    let ghost ad = c@.subrange(q as int, b as int);
    proof {
        lemma_find_char_bounds(ad, '>');
    }
    let g = match find_char_in(&c, q, b, '>') {
        Some(g) => g,
        None => return None,
    };
    assert(ad.subrange(0, g as int) =~= c@.subrange(q as int, q + g));
    assert(ad.subrange(g + 1, ad.len() as int) =~= c@.subrange(q + g + 1, b as int));
    let (la, lb) = trim_range(&c, q, q + g);
    let (ra, rb) = trim_range(&c, q + g + 1, b);
    let ghost right = c@.subrange(ra as int, rb as int);
    let k = ident_run(&c, ra, rb);
    let left = string_of(&c, la, lb);
    if !contains_str(left.as_str(), "stateStart") || k == ra {
        return None;
    }
    let name = string_of(&c, ra, k);
    assert(name@ =~= right.subrange(0, ident_end(right, 0)));
    Some(concat3("Timeout (", name.as_str(), ")"))
}

/// A guard condition as a short English label.
pub fn prettify_guard(raw_guard: &str) -> (r: String)
    ensures
        r@ == guard_label(raw_guard@),
{
    proof {
        reveal_strlit("==");
        reveal_strlit("&&");
        reveal_strlit("||");
        reveal_strlit(" [");
    }
    let c = chars_of(raw_guard);
    let _ = str_byte_len(raw_guard);
    let n = c.len();
    assert(c@.subrange(0, n as int) =~= c@);
    let (ta, tb) = trim_range(&c, 0, n);
    let ghost t = c@.subrange(ta as int, tb as int);
    let note = chars_of(" [");
    proof {
        lemma_find_from_props(t, " ["@, 0);
    }
    let end = match find_in(&c, ta, tb, &note) {
        Some(k) => {
            assert(t.subrange(0, k as int) =~= c@.subrange(ta as int, ta + k));
            ta + k
        },
        None => tb,
    };
    let (a1, b1) = trim_range(&c, ta, end);
    let (a, b) = strip_parens_range(&c, a1, b1);
    if a == b {
        return String::new();
    }
    let s = string_of(&c, a, b);
    assert(s@ == guard_core(raw_guard@));
    if contains_str(s.as_str(), "==") {
        let ands = split_trimmed(s.as_str(), "&&");
        let ghost av = ands.deep_view();
        let mut j: usize = 0;
        while j < ands.len()
            invariant
                0 <= j <= ands@.len(),
                av == ands.deep_view(),
                av == trimmed_pieces(s@, "&&"@),
                s@ == guard_core(raw_guard@),
                s@.len() > 0,
                contains(s@, "=="@),
                first_with_eq(av, 0) == first_with_eq(av, j as int),
            decreases ands.len() - j,
        {
            assert(av[j as int] == ands@[j as int]@);
            if contains_str(ands[j].as_str(), "==") {
                return prettify_single_term(ands[j].as_str());
            }
            j += 1;
        }
    }
    if contains_str(s.as_str(), "now") && contains_str(s.as_str(), "stateStart") {
        match extract_timeout_pattern(s.as_str()) {
            Some(label) => return label,
            None => {},
        }
    }
    if contains_str(s.as_str(), "||") {
        let ors = split_trimmed(s.as_str(), "||");
        let ghost ov = ors.deep_view();
        let mut labels: Vec<String> = Vec::new();
        let mut i: usize = 0;
        while i < ors.len()
            invariant
                0 <= i <= ors@.len(),
                ov == ors.deep_view(),
                labels.deep_view() == ov.subrange(0, i as int).map_values(
                    |p: Seq<char>| clause_label(p),
                ),
            decreases ors.len() - i,
        {
            assert(ov[i as int] == ors@[i as int]@);
            let l = prettify_conjunctive_clause(ors[i].as_str());
            let ghost prev = labels.deep_view();
            labels.push(l);
            assert(labels.deep_view() =~= prev.push(clause_label(ov[i as int])));
            assert(labels.deep_view() =~= ov.subrange(0, i + 1).map_values(
                |p: Seq<char>| clause_label(p),
            ));
            i += 1;
        }
        assert(ov.subrange(0, i as int) =~= ov);
        return join_nonempty(&labels, " or ");
    }
    prettify_conjunctive_clause(s.as_str())
}

} // verus!
