//! Text primitives over character sequences: trimming, searching, splitting
//! and building strings, each with an exact specification over `Seq<char>`.
use vstd::prelude::*;

verus! {

/// Unicode `White_Space` characters, the set that `char::is_whitespace` and
/// `str::trim` use.
pub open spec fn is_ws(c: char) -> bool {
    let u = c as u32;
    ||| u == 0x09 || u == 0x0A || u == 0x0B || u == 0x0C || u == 0x0D || u == 0x20
    ||| u == 0x85 || u == 0xA0 || u == 0x1680
    ||| (0x2000 <= u && u <= 0x200A)
    ||| u == 0x2028 || u == 0x2029 || u == 0x202F || u == 0x205F || u == 0x3000
}

pub open spec fn is_ascii_digit(c: char) -> bool {
    '0' <= c && c <= '9'
}

pub open spec fn is_ascii_upper(c: char) -> bool {
    'A' <= c && c <= 'Z'
}

pub open spec fn is_ascii_lower(c: char) -> bool {
    'a' <= c && c <= 'z'
}

pub open spec fn is_ascii_alpha(c: char) -> bool {
    is_ascii_upper(c) || is_ascii_lower(c)
}

pub open spec fn is_ascii_alnum(c: char) -> bool {
    is_ascii_alpha(c) || is_ascii_digit(c)
}

/// `s` with leading white space removed.
pub open spec fn trim_start(s: Seq<char>) -> Seq<char>
    decreases s.len(),
{
    if s.len() > 0 && is_ws(s[0]) {
        trim_start(s.drop_first())
    } else {
        s
    }
}

/// `s` with trailing white space removed.
pub open spec fn trim_end(s: Seq<char>) -> Seq<char>
    decreases s.len(),
{
    if s.len() > 0 && is_ws(s.last()) {
        trim_end(s.drop_last())
    } else {
        s
    }
}

/// `s` with white space removed at both ends, as `str::trim` does.
pub open spec fn trim(s: Seq<char>) -> Seq<char> {
    trim_end(trim_start(s))
}

pub open spec fn starts_with(s: Seq<char>, p: Seq<char>) -> bool {
    p.len() <= s.len() && s.subrange(0, p.len() as int) == p
}

pub open spec fn ends_with(s: Seq<char>, p: Seq<char>) -> bool {
    p.len() <= s.len() && s.subrange(s.len() - p.len(), s.len() as int) == p
}

/// `p` occurs in `s` at index `i`.
pub open spec fn occurs_at(s: Seq<char>, p: Seq<char>, i: int) -> bool {
    0 <= i && i + p.len() <= s.len() && s.subrange(i, i + p.len()) == p
}

/// The first index at or after `i` where `p` occurs in `s`.
pub open spec fn find_from(s: Seq<char>, p: Seq<char>, i: int) -> Option<int>
    decreases s.len() + 1 - i,
{
    if i < 0 || i + p.len() > s.len() {
        None
    } else if occurs_at(s, p, i) {
        Some(i)
    } else {
        find_from(s, p, i + 1)
    }
}

/// The first index where `p` occurs in `s`, as `str::find` gives it
/// (counted in characters).
pub open spec fn find(s: Seq<char>, p: Seq<char>) -> Option<int> {
    find_from(s, p, 0)
}

pub open spec fn contains(s: Seq<char>, p: Seq<char>) -> bool {
    find(s, p) is Some
}

/// The pieces of `s` between the occurrences of the non-empty separator `p`,
/// as `str::split` gives them.
pub open spec fn split_on(s: Seq<char>, p: Seq<char>) -> Seq<Seq<char>>
    decreases s.len(),
{
    if p.len() == 0 {
        seq![s]
    } else {
        match find(s, p) {
            Some(i) => {
                if 0 <= i && i + p.len() <= s.len() && p.len() > 0 {
                    seq![s.subrange(0, i)] + split_on(s.subrange(i + p.len(), s.len() as int), p)
                } else {
                    seq![s]
                }
            },
            None => seq![s],
        }
    }
}

/// The first index where `c` occurs in `s`.
pub open spec fn find_char(s: Seq<char>, c: char) -> Option<int> {
    find(s, seq![c])
}

pub proof fn lemma_find_from_props(s: Seq<char>, p: Seq<char>, i: int)
    requires
        0 <= i,
    ensures
        find_from(s, p, i) matches Some(k) ==> i <= k && occurs_at(s, p, k)
            && forall|j: int| i <= j < k ==> !occurs_at(s, p, j),
        find_from(s, p, i) is None ==> forall|j: int| i <= j ==> !occurs_at(s, p, j),
    decreases s.len() + 1 - i,
{
    if i + p.len() > s.len() {
    } else if occurs_at(s, p, i) {
    } else {
        lemma_find_from_props(s, p, i + 1);
    }
}

/// The characters of `s`, in order.
pub fn chars_of(s: &str) -> (out: Vec<char>)
    ensures
        out@ == s@,
{
    let mut out: Vec<char> = Vec::new();
    for c in it: s.chars()
        invariant
            out@ == it.seq().take(it.index() as int),
    {
        out.push(c);
    }
    out
}

/// Appends one character; `String::push`.
#[verifier::external_body]
pub(crate) fn push_char(s: &mut String, c: char)
    ensures
        final(s)@ == old(s)@.push(c),
{
    s.push(c);
}

/// A new string holding `s[lo..hi]`.
pub fn string_of(s: &[char], lo: usize, hi: usize) -> (out: String)
    requires
        lo <= hi <= s@.len(),
    ensures
        out@ == s@.subrange(lo as int, hi as int),
{
    let mut out = String::new();
    let mut i = lo;
    while i < hi
        invariant
            lo <= i <= hi <= s@.len(),
            out@ == s@.subrange(lo as int, i as int),
        decreases hi - i,
    {
        push_char(&mut out, s[i]);
        i += 1;
        assert(out@ =~= s@.subrange(lo as int, i as int));
    }
    out
}

/// A new string holding all of `s`.
pub fn string_of_all(s: &[char]) -> (out: String)
    ensures
        out@ == s@,
{
    let out = string_of(s, 0, s.len());
    assert(s@.subrange(0, s@.len() as int) =~= s@);
    out
}

/// A new string holding the characters of `a` followed by those of `b`.
pub fn concat_str(a: &str, b: &str) -> (out: String)
    ensures
        out@ == a@ + b@,
{
    let ac = chars_of(a);
    let bc = chars_of(b);
    let mut out = string_of_all(&ac);
    let mut i: usize = 0;
    while i < bc.len()
        invariant
            0 <= i <= bc@.len(),
            out@ == a@ + bc@.subrange(0, i as int),
            bc@ == b@,
        decreases bc.len() - i,
    {
        push_char(&mut out, bc[i]);
        i += 1;
        assert(out@ =~= a@ + bc@.subrange(0, i as int));
    }
    assert(bc@.subrange(0, bc@.len() as int) =~= bc@);
    out
}

/// `c` is Unicode white space.
pub fn char_is_ws(c: char) -> (b: bool)
    ensures
        b == is_ws(c),
{
    let u = c as u32;
    u == 0x09 || u == 0x0A || u == 0x0B || u == 0x0C || u == 0x0D || u == 0x20 || u == 0x85
        || u == 0xA0 || u == 0x1680 || (0x2000 <= u && u <= 0x200A) || u == 0x2028 || u == 0x2029
        || u == 0x202F || u == 0x205F || u == 0x3000
}

pub fn char_is_digit(c: char) -> (b: bool)
    ensures
        b == is_ascii_digit(c),
{
    '0' <= c && c <= '9'
}

pub fn char_is_upper(c: char) -> (b: bool)
    ensures
        b == is_ascii_upper(c),
{
    'A' <= c && c <= 'Z'
}

pub fn char_is_lower(c: char) -> (b: bool)
    ensures
        b == is_ascii_lower(c),
{
    'a' <= c && c <= 'z'
}

/// The bounds of `s[lo..hi]` once white space is trimmed from both ends.
pub fn trim_range(s: &[char], lo: usize, hi: usize) -> (r: (usize, usize))
    requires
        lo <= hi <= s@.len(),
    ensures
        lo <= r.0 <= r.1 <= hi,
        s@.subrange(r.0 as int, r.1 as int) == trim(s@.subrange(lo as int, hi as int)),
{
    let mut a = lo;
    while a < hi && char_is_ws(s[a])
        invariant
            lo <= a <= hi <= s@.len(),
            trim_start(s@.subrange(lo as int, hi as int)) == trim_start(
                s@.subrange(a as int, hi as int),
            ),
        decreases hi - a,
    {
        assert(s@.subrange(a as int, hi as int).drop_first() =~= s@.subrange(
            a + 1,
            hi as int,
        ));
        a += 1;
    }
    assert(trim_start(s@.subrange(a as int, hi as int)) == s@.subrange(a as int, hi as int));
    let mut b = hi;
    while b > a && char_is_ws(s[b - 1])
        invariant
            lo <= a <= b <= hi <= s@.len(),
            trim_end(s@.subrange(a as int, hi as int)) == trim_end(
                s@.subrange(a as int, b as int),
            ),
        decreases b - a,
    {
        assert(s@.subrange(a as int, b as int).drop_last() =~= s@.subrange(
            a as int,
            b - 1,
        ));
        b -= 1;
    }
    (a, b)
}

/// `s[lo..hi]` equals `p`.
pub fn range_eq(s: &[char], lo: usize, hi: usize, p: &[char]) -> (b: bool)
    requires
        lo <= hi <= s@.len(),
    ensures
        b == (s@.subrange(lo as int, hi as int) == p@),
{
    if hi - lo != p.len() {
        return false;
    }
    let mut i: usize = 0;
    while i < p.len()
        invariant
            hi - lo == p@.len(),
            lo <= hi <= s@.len(),
            0 <= i <= p@.len(),
            forall|j: int| 0 <= j < i ==> s@[lo + j] == p@[j],
        decreases p.len() - i,
    {
        if s[lo + i] != p[i] {
            assert(s@.subrange(lo as int, hi as int)[i as int] != p@[i as int]);
            return false;
        }
        i += 1;
    }
    assert(s@.subrange(lo as int, hi as int) =~= p@);
    true
}

/// `p` occurs in `s[lo..hi]` at relative index `i`.
pub fn occurs_in(s: &[char], lo: usize, hi: usize, p: &[char], i: usize) -> (b: bool)
    requires
        lo <= hi <= s@.len(),
    ensures
        b == occurs_at(s@.subrange(lo as int, hi as int), p@, i as int),
{
    if i > hi - lo || p.len() > hi - lo - i {
        return false;
    }
    let r = range_eq(s, lo + i, lo + i + p.len(), p);
    assert(s@.subrange(lo as int, hi as int).subrange(i as int, i + p@.len()) =~= s@.subrange(
        lo + i,
        lo + i + p@.len(),
    ));
    r
}

/// The first index, relative to `lo`, where `p` occurs in `s[lo..hi]`.
pub fn find_in(s: &[char], lo: usize, hi: usize, p: &[char]) -> (r: Option<usize>)
    requires
        lo <= hi <= s@.len(),
    ensures
        r matches Some(k) ==> find(s@.subrange(lo as int, hi as int), p@) == Some(k as int),
        r is None ==> find(s@.subrange(lo as int, hi as int), p@) is None,
{
    let ghost t = s@.subrange(lo as int, hi as int);
    if p.len() > hi - lo {
        assert(find_from(t, p@, 0) is None);
        return None;
    }
    let last = hi - lo - p.len();
    let mut i: usize = 0;
    while i <= last
        invariant
            lo <= hi <= s@.len(),
            t == s@.subrange(lo as int, hi as int),
            last == hi - lo - p@.len(),
            0 <= i <= last,
            find(t, p@) == find_from(t, p@, i as int),
        decreases last - i,
    {
        if occurs_in(s, lo, hi, p, i) {
            return Some(i);
        }
        if i == last {
            assert(find_from(t, p@, i + 1) is None);
            return None;
        }
        i += 1;
    }
    None
}

/// The first index, relative to `lo`, where `c` occurs in `s[lo..hi]`.
pub fn find_char_in(s: &[char], lo: usize, hi: usize, c: char) -> (r: Option<usize>)
    requires
        lo <= hi <= s@.len(),
    ensures
        r matches Some(k) ==> find_char(s@.subrange(lo as int, hi as int), c) == Some(k as int),
        r is None ==> find_char(s@.subrange(lo as int, hi as int), c) is None,
{
    let mut v: Vec<char> = Vec::new();
    v.push(c);
    assert(v@ =~= seq![c]);
    find_in(s, lo, hi, &v)
}

/// `s[lo..hi]` starts with `p`.
pub fn starts_with_in(s: &[char], lo: usize, hi: usize, p: &[char]) -> (b: bool)
    requires
        lo <= hi <= s@.len(),
    ensures
        b == starts_with(s@.subrange(lo as int, hi as int), p@),
{
    if p.len() > hi - lo {
        return false;
    }
    let r = range_eq(s, lo, lo + p.len(), p);
    assert(s@.subrange(lo as int, hi as int).subrange(0, p@.len() as int) =~= s@.subrange(
        lo as int,
        lo + p@.len(),
    ));
    r
}

/// `s[lo..hi]` ends with `p`.
pub fn ends_with_in(s: &[char], lo: usize, hi: usize, p: &[char]) -> (b: bool)
    requires
        lo <= hi <= s@.len(),
    ensures
        b == ends_with(s@.subrange(lo as int, hi as int), p@),
{
    if p.len() > hi - lo {
        return false;
    }
    let r = range_eq(s, hi - p.len(), hi, p);
    assert(s@.subrange(lo as int, hi as int).subrange(
        (hi - lo) - p@.len(),
        (hi - lo) as int,
    ) =~= s@.subrange(hi - p@.len(), hi as int));
    r
}

/// The strings of `s`, each kept at its first occurrence only.
pub open spec fn first_occurrences(s: Seq<Seq<char>>) -> Seq<Seq<char>>
    decreases s.len(),
{
    if s.len() == 0 {
        seq![]
    } else if first_occurrences(s.drop_last()).contains(s.last()) {
        first_occurrences(s.drop_last())
    } else {
        first_occurrences(s.drop_last()).push(s.last())
    }
}

/// The string `s` is one of `v`.
pub fn contains_string(v: &Vec<String>, s: &String) -> (b: bool)
    ensures
        b == v.deep_view().contains(s@),
{
    let mut i: usize = 0;
    while i < v.len()
        invariant
            0 <= i <= v@.len(),
            forall|j: int| 0 <= j < i ==> v.deep_view()[j] != s@,
        decreases v.len() - i,
    {
        assert(v.deep_view()[i as int] == v@[i as int]@);
        if str_eq(v[i].as_str(), s.as_str()) {
            assert(v.deep_view()[i as int] == s@);
            return true;
        }
        i += 1;
    }
    false
}

/// The two strings hold the same characters.
pub fn str_eq(a: &str, b: &str) -> (r: bool)
    ensures
        r == (a@ == b@),
{
    let ac = chars_of(a);
    let bc = chars_of(b);
    let r = range_eq(&ac, 0, ac.len(), &bc);
    assert(ac@.subrange(0, ac@.len() as int) =~= ac@);
    r
}

} // verus!

verus! {

/// `x` without one trailing carriage return.
pub open spec fn strip_cr(x: Seq<char>) -> Seq<char> {
    if x.len() > 0 && x.last() == '\r' {
        x.drop_last()
    } else {
        x
    }
}

/// The lines of `s` as `str::lines` gives them: split at `\n`, a `\r` right
/// before the `\n` dropped, and no empty last line after a final `\n`.
pub open spec fn lines(s: Seq<char>) -> Seq<Seq<char>>
    decreases s.len(),
{
    if s.len() == 0 {
        seq![]
    } else {
        match find_char(s, '\n') {
            Some(i) => if 0 <= i < s.len() {
                seq![strip_cr(s.subrange(0, i))] + lines(s.subrange(i + 1, s.len() as int))
            } else {
                seq![s]
            },
            None => seq![s],
        }
    }
}

/// The bounds of each line of `s`, in order.
pub fn line_spans(s: &Vec<char>) -> (out: Vec<(usize, usize)>)
    ensures
        out@.len() == lines(s@).len(),
        forall|j: int| 0 <= j < out@.len() ==> (#[trigger] out@[j]).0 <= out@[j].1 <= s@.len(),
        forall|j: int|
            0 <= j < out@.len() ==> #[trigger] s@.subrange(
                out@[j].0 as int,
                out@[j].1 as int,
            ) == lines(s@)[j],
{
    let mut out: Vec<(usize, usize)> = Vec::new();
    let mut pos: usize = 0;
    let n = s.len();
    let mut nl: Vec<char> = Vec::new();
    nl.push('\n');
    assert(nl@ =~= seq!['\n']);
    assert(s@.subrange(0, n as int) =~= s@);
    assert(out@.map_values(|sp: (usize, usize)| s@.subrange(sp.0 as int, sp.1 as int)) =~= Seq::<Seq<char>>::empty());
    while pos < n
        invariant
            n == s@.len(),
            0 <= pos <= n,
            nl@ == seq!['\n'],
            lines(s@) == out@.map_values(
                |sp: (usize, usize)| s@.subrange(sp.0 as int, sp.1 as int),
            ) + lines(s@.subrange(pos as int, n as int)),
            forall|j: int| 0 <= j < out@.len() ==> (#[trigger] out@[j]).0 <= out@[j].1 <= s@.len(),
        decreases n - pos,
    {
        let ghost rest = s@.subrange(pos as int, n as int);
        let ghost before = out@.map_values(
            |sp: (usize, usize)| s@.subrange(sp.0 as int, sp.1 as int),
        );
        proof {
            lemma_find_from_props(rest, seq!['\n'], 0);
        }
        match find_in(s, pos, n, &nl) {
            Some(k) => {
                let mut e = pos + k;
                if e > pos && s[e - 1] == '\r' {
                    e = e - 1;
                }
                assert(s@.subrange(pos as int, e as int) =~= strip_cr(rest.subrange(0, k as int)));
                assert(rest.subrange(k + 1, rest.len() as int) =~= s@.subrange(
                    pos + k + 1,
                    n as int,
                ));
                out.push((pos, e));
                assert forall|j: int| 0 <= j < out@.len() implies (#[trigger] out@[j]).0 <= out@[j].1 <= s@.len() by {
                    if j < out@.len() - 1 {
                    }
                }
                assert(out@.map_values(|sp: (usize, usize)| s@.subrange(sp.0 as int, sp.1 as int))
                    =~= before.push(s@.subrange(pos as int, e as int)));
                assert(lines(rest) == seq![strip_cr(rest.subrange(0, k as int))] + lines(
                    rest.subrange(k + 1, rest.len() as int),
                ));
                assert(lines(s@) =~= out@.map_values(
                    |sp: (usize, usize)| s@.subrange(sp.0 as int, sp.1 as int),
                ) + lines(s@.subrange(pos + k + 1, n as int)));
                pos = pos + k + 1;
            },
            None => {
                out.push((pos, n));
                assert forall|j: int| 0 <= j < out@.len() implies (#[trigger] out@[j]).0 <= out@[j].1 <= s@.len() by {
                    if j < out@.len() - 1 {
                    }
                }
                assert(out@.map_values(|sp: (usize, usize)| s@.subrange(sp.0 as int, sp.1 as int))
                    =~= before.push(rest));
                assert(lines(rest) == seq![rest]);
                assert(lines(s@.subrange(n as int, n as int)) =~= Seq::<Seq<char>>::empty());
                assert(lines(s@) =~= out@.map_values(
                    |sp: (usize, usize)| s@.subrange(sp.0 as int, sp.1 as int),
                ) + lines(s@.subrange(n as int, n as int)));
                pos = n;
            },
        }
    }
    assert(lines(s@.subrange(n as int, n as int)) =~= Seq::<Seq<char>>::empty());
    assert(lines(s@) =~= out@.map_values(
        |sp: (usize, usize)| s@.subrange(sp.0 as int, sp.1 as int),
    ));
    proof {
        assert forall|j: int| 0 <= j < out@.len() implies #[trigger] s@.subrange(
            out@[j].0 as int,
            out@[j].1 as int,
        ) == lines(s@)[j] by {
            assert(lines(s@)[j] == out@.map_values(
                |sp: (usize, usize)| s@.subrange(sp.0 as int, sp.1 as int),
            )[j]);
        }
    }
    out
}

} // verus!

verus! {

/// `s` split at the first `c`, as `str::split_once` gives it.
pub open spec fn split_once(s: Seq<char>, c: char) -> Option<(Seq<char>, Seq<char>)> {
    match find_char(s, c) {
        Some(i) => if 0 <= i < s.len() {
            Some((s.subrange(0, i), s.subrange(i + 1, s.len() as int)))
        } else {
            None
        },
        None => None,
    }
}

pub proof fn lemma_find_char_bounds(s: Seq<char>, c: char)
    ensures
        find_char(s, c) matches Some(i) ==> 0 <= i < s.len() && s[i] == c && forall|j: int|
            0 <= j < i ==> s[j] != c,
        find_char(s, c) is None ==> forall|j: int| 0 <= j < s.len() ==> s[j] != c,
{
    lemma_find_from_props(s, seq![c], 0);
    if let Some(i) = find_char(s, c) {
        assert(occurs_at(s, seq![c], i));
        assert(s.subrange(i, i + 1) == seq![c]);
        assert(s[i] == s.subrange(i, i + 1)[0]);
        assert forall|j: int| 0 <= j < i implies s[j] != c by {
            if s[j] == c {
                assert(s.subrange(j, j + 1) =~= seq![c]);
                assert(occurs_at(s, seq![c], j));
            }
        }
    } else {
        assert forall|j: int| 0 <= j < s.len() implies s[j] != c by {
            if s[j] == c {
                assert(s.subrange(j, j + 1) =~= seq![c]);
                assert(occurs_at(s, seq![c], j));
            }
        }
    }
}

} // verus!

verus! {

/// `s` without the suffix `suf`, or `s` itself when it does not end so.
pub open spec fn strip_suffix_or(s: Seq<char>, suf: Seq<char>) -> Seq<char> {
    if ends_with(s, suf) {
        s.subrange(0, s.len() - suf.len())
    } else {
        s
    }
}

/// `s` without the prefix `pre`, or `s` itself when it does not start so.
pub open spec fn strip_prefix_or(s: Seq<char>, pre: Seq<char>) -> Seq<char> {
    if starts_with(s, pre) {
        s.subrange(pre.len() as int, s.len() as int)
    } else {
        s
    }
}

/// An owned copy of `s`.
pub fn owned(s: &str) -> (r: String)
    ensures
        r@ == s@,
{
    s.to_owned()
}

/// A new string holding `a`, `b` and `c` in turn.
pub fn concat3(a: &str, b: &str, c: &str) -> (r: String)
    ensures
        r@ == a@ + b@ + c@,
{
    let ab = concat_str(a, b);
    concat_str(ab.as_str(), c)
}

} // verus!

verus! {

pub open spec fn digit_char(d: nat) -> char {
    if d == 0 { '0' }
    else if d == 1 { '1' }
    else if d == 2 { '2' }
    else if d == 3 { '3' }
    else if d == 4 { '4' }
    else if d == 5 { '5' }
    else if d == 6 { '6' }
    else if d == 7 { '7' }
    else if d == 8 { '8' }
    else { '9' }
}

/// The decimal digits of `n`, as `format!("{}", n)` writes them.
pub open spec fn decimal(n: nat) -> Seq<char>
    decreases n,
{
    if n < 10 {
        seq![digit_char(n)]
    } else {
        decimal(n / 10).push(digit_char(n % 10))
    }
}

fn digit_of(d: usize) -> (c: char)
    requires
        d < 10,
    ensures
        c == digit_char(d as nat),
{
    if d == 0 { '0' }
    else if d == 1 { '1' }
    else if d == 2 { '2' }
    else if d == 3 { '3' }
    else if d == 4 { '4' }
    else if d == 5 { '5' }
    else if d == 6 { '6' }
    else if d == 7 { '7' }
    else if d == 8 { '8' }
    else { '9' }
}

/// `n` written in decimal.
pub fn decimal_string(n: usize) -> (s: String)
    ensures
        s@ == decimal(n as nat),
    decreases n,
{
    if n < 10 {
        let mut s = String::new();
        push_char(&mut s, digit_of(n));
        assert(s@ =~= decimal(n as nat));
        s
    } else {
        let mut s = decimal_string(n / 10);
        push_char(&mut s, digit_of(n % 10));
        s
    }
}

/// The pieces of `parts` joined with `sep` between them, as `join` gives them.
pub open spec fn join(parts: Seq<Seq<char>>, sep: Seq<char>) -> Seq<char>
    decreases parts.len(),
{
    if parts.len() == 0 {
        seq![]
    } else if parts.len() == 1 {
        parts[0]
    } else {
        join(parts.drop_last(), sep) + sep + parts.last()
    }
}

/// Appends `t` to `s`.
pub fn append_str(s: &mut String, t: &str)
    ensures
        final(s)@ == old(s)@ + t@,
{
    let tc = chars_of(t);
    let mut i: usize = 0;
    while i < tc.len()
        invariant
            0 <= i <= tc@.len(),
            tc@ == t@,
            s@ == old(s)@ + tc@.subrange(0, i as int),
        decreases tc.len() - i,
    {
        push_char(s, tc[i]);
        i += 1;
        assert(s@ =~= old(s)@ + tc@.subrange(0, i as int));
    }
    assert(tc@.subrange(0, i as int) =~= t@);
}

/// The strings of `parts` joined with `sep` between them.
pub fn join_strings(parts: &Vec<String>, sep: &str) -> (s: String)
    ensures
        s@ == join(parts.deep_view(), sep@),
{
    let mut s = String::new();
    let mut i: usize = 0;
    let ghost pv = parts.deep_view();
    assert(join(pv.subrange(0, 0), sep@) =~= s@);
    while i < parts.len()
        invariant
            0 <= i <= parts@.len(),
            pv == parts.deep_view(),
            pv.len() == parts@.len(),
            s@ == join(pv.subrange(0, i as int), sep@),
        decreases parts.len() - i,
    {
        assert(pv[i as int] == parts@[i as int]@);
        assert(pv.subrange(0, i + 1).drop_last() =~= pv.subrange(0, i as int));
        if i > 0 {
            append_str(&mut s, sep);
        }
        append_str(&mut s, parts[i].as_str());
        if i == 0 {
            assert(s@ =~= join(pv.subrange(0, i + 1), sep@));
        }
        i += 1;
    }
    assert(pv.subrange(0, i as int) =~= pv);
    s
}

} // verus!

verus! {

/// The number of bytes of the UTF-8 encoding of `s`, which `str::len` gives.
pub open spec fn byte_len(s: Seq<char>) -> nat {
    vstd::utf8::encode_utf8(s).len()
}

pub proof fn lemma_encode_concat(a: Seq<char>, b: Seq<char>)
    ensures
        vstd::utf8::encode_utf8(a + b) == vstd::utf8::encode_utf8(a) + vstd::utf8::encode_utf8(b),
    decreases a.len(),
{
    if a.len() == 0 {
        assert(a + b =~= b);
        assert(vstd::utf8::encode_utf8(a) =~= Seq::<u8>::empty());
        assert(vstd::utf8::encode_utf8(a + b) =~= vstd::utf8::encode_utf8(a) + vstd::utf8::encode_utf8(b));
    } else {
        assert((a + b).drop_first() =~= a.drop_first() + b);
        lemma_encode_concat(a.drop_first(), b);
        assert(vstd::utf8::encode_utf8(a + b) =~= vstd::utf8::encode_utf8(a) + vstd::utf8::encode_utf8(b));
    }
}

/// The number of bytes of the UTF-8 encoding of `c`.
pub fn char_utf8_len(c: char) -> (n: usize)
    ensures
        n == byte_len(seq![c]),
        1 <= n <= 4,
{
    proof {
        vstd::utf8::char_is_scalar(c);
        assert(seq![c].drop_first() =~= Seq::<char>::empty());
        assert(vstd::utf8::encode_utf8(Seq::<char>::empty()) =~= Seq::<u8>::empty());
        assert(vstd::utf8::encode_utf8(seq![c]) =~= vstd::utf8::encode_scalar(c as u32));
    }
    let u = c as u32;
    if u <= 0x7F {
        1
    } else if u <= 0x7FF {
        2
    } else if u <= 0xFFFF {
        3
    } else {
        4
    }
}

pub proof fn lemma_byte_len_subrange(s: Seq<char>, lo: int, hi: int)
    requires
        0 <= lo <= hi <= s.len(),
    ensures
        byte_len(s.subrange(lo, hi)) <= byte_len(s),
{
    lemma_encode_concat(s.subrange(0, lo), s.subrange(lo, hi));
    lemma_encode_concat(s.subrange(0, hi), s.subrange(hi, s.len() as int));
    assert(s.subrange(0, lo) + s.subrange(lo, hi) =~= s.subrange(0, hi));
    assert(s.subrange(0, hi) + s.subrange(hi, s.len() as int) =~= s);
}

/// The byte length of the text `s` fits in a `usize`.
pub fn str_byte_len(s: &str) -> (n: usize)
    ensures
        n == byte_len(s@),
{
    s.as_bytes().len()
}

/// The number of bytes of the UTF-8 encoding of `s[lo..hi]`.
pub fn byte_len_of(s: &[char], lo: usize, hi: usize) -> (n: usize)
    requires
        lo <= hi <= s@.len(),
        byte_len(s@) <= usize::MAX,
    ensures
        n == byte_len(s@.subrange(lo as int, hi as int)),
{
    let mut n: usize = 0;
    let mut i = lo;
    assert(s@.subrange(lo as int, lo as int) =~= Seq::<char>::empty());
    while i < hi
        invariant
            lo <= i <= hi <= s@.len(),
            byte_len(s@) <= usize::MAX,
            n == byte_len(s@.subrange(lo as int, i as int)),
        decreases hi - i,
    {
        let w = char_utf8_len(s[i]);
        proof {
            lemma_encode_concat(s@.subrange(lo as int, i as int), seq![s@[i as int]]);
            assert(s@.subrange(lo as int, i + 1) =~= s@.subrange(lo as int, i as int) + seq![s@[i as int]]);
            lemma_byte_len_subrange(s@, lo as int, i + 1);
        }
        n = n + w;
        i += 1;
    }
    n
}

} // verus!

verus! {

pub proof fn lemma_trim_start_len(s: Seq<char>)
    ensures
        trim_start(s).len() <= s.len(),
        trim_start(s).len() > 0 ==> !is_ws(trim_start(s)[0]),
        exists|k: int| 0 <= k <= s.len() && #[trigger] s.subrange(k, s.len() as int) == trim_start(s),
    decreases s.len(),
{
    if s.len() > 0 && is_ws(s[0]) {
        lemma_trim_start_len(s.drop_first());
        let k = choose|k: int| 0 <= k <= s.drop_first().len() && #[trigger] s.drop_first().subrange(k, s.drop_first().len() as int) == trim_start(s.drop_first());
        assert(s.subrange(k + 1, s.len() as int) =~= s.drop_first().subrange(k, s.drop_first().len() as int));
    } else {
        assert(s.subrange(0, s.len() as int) =~= s);
    }
}

pub proof fn lemma_trim_end_len(s: Seq<char>)
    ensures
        trim_end(s).len() <= s.len(),
        trim_end(s) == s.subrange(0, trim_end(s).len() as int),
    decreases s.len(),
{
    if s.len() > 0 && is_ws(s.last()) {
        lemma_trim_end_len(s.drop_last());
        assert(s.drop_last().subrange(0, trim_end(s).len() as int) =~= s.subrange(0, trim_end(s).len() as int));
    } else {
        assert(s.subrange(0, s.len() as int) =~= s);
    }
}

pub proof fn lemma_trim_len(s: Seq<char>)
    ensures
        trim(s).len() <= s.len(),
{
    lemma_trim_start_len(s);
    lemma_trim_end_len(trim_start(s));
}

/// The words of `s` as `str::split_whitespace` gives them.
pub open spec fn words(s: Seq<char>) -> Seq<Seq<char>>
    decreases s.len(),
{
    let t = trim_start(s);
    if t.len() == 0 {
        seq![]
    } else {
        let k = match find_ws(t) {
            Some(k) => k,
            None => t.len() as int,
        };
        if 0 < k <= t.len() && t.len() <= s.len() {
            seq![t.subrange(0, k)] + words(t.subrange(k, t.len() as int))
        } else {
            seq![t]
        }
    }
}

/// The first white-space index of `s`.
pub open spec fn find_ws_from(s: Seq<char>, i: int) -> Option<int>
    decreases s.len() - i,
{
    if i < 0 || i >= s.len() {
        None
    } else if is_ws(s[i]) {
        Some(i)
    } else {
        find_ws_from(s, i + 1)
    }
}

pub open spec fn find_ws(s: Seq<char>) -> Option<int> {
    find_ws_from(s, 0)
}

pub proof fn lemma_find_ws_from(s: Seq<char>, i: int)
    requires
        0 <= i,
    ensures
        find_ws_from(s, i) matches Some(k) ==> i <= k < s.len() && is_ws(s[k]) && forall|j: int|
            i <= j < k ==> !is_ws(#[trigger] s[j]),
        find_ws_from(s, i) is None ==> forall|j: int| i <= j < s.len() ==> !is_ws(#[trigger] s[j]),
    decreases s.len() - i,
{
    if i < s.len() && !is_ws(s[i]) {
        lemma_find_ws_from(s, i + 1);
    }
}

/// The bounds of the words of `s[lo..hi]`.
pub fn word_ranges(s: &[char], lo: usize, hi: usize) -> (out: Vec<(usize, usize)>)
    requires
        lo <= hi <= s@.len(),
    ensures
        out@.len() == words(s@.subrange(lo as int, hi as int)).len(),
        forall|j: int| 0 <= j < out@.len() ==> (#[trigger] out@[j]).0 <= out@[j].1 <= s@.len(),
        forall|j: int|
            0 <= j < out@.len() ==> #[trigger] s@.subrange(out@[j].0 as int, out@[j].1 as int)
                == words(s@.subrange(lo as int, hi as int))[j],
{
    let mut out: Vec<(usize, usize)> = Vec::new();
    let mut pos = lo;
    let ghost ws = words(s@.subrange(lo as int, hi as int));
    while pos < hi
        invariant
            lo <= pos <= hi <= s@.len(),
            ws == words(s@.subrange(lo as int, hi as int)),
            ws == out@.map_values(|r: (usize, usize)| s@.subrange(r.0 as int, r.1 as int)) + words(
                s@.subrange(pos as int, hi as int),
            ),
            forall|j: int| 0 <= j < out@.len() ==> (#[trigger] out@[j]).0 <= out@[j].1 <= s@.len(),
        decreases hi - pos,
    {
        let ghost rest = s@.subrange(pos as int, hi as int);
        let ghost before = out@.map_values(|r: (usize, usize)| s@.subrange(r.0 as int, r.1 as int));
        let mut a = pos;
        while a < hi && char_is_ws(s[a])
            invariant
                pos <= a <= hi <= s@.len(),
                trim_start(rest) == trim_start(s@.subrange(a as int, hi as int)),
                rest == s@.subrange(pos as int, hi as int),
            decreases hi - a,
        {
            assert(s@.subrange(a as int, hi as int).drop_first() =~= s@.subrange(a + 1, hi as int));
            a += 1;
        }
        assert(trim_start(s@.subrange(a as int, hi as int)) == s@.subrange(a as int, hi as int));
        let ghost t = s@.subrange(a as int, hi as int);
        if a == hi {
            assert(words(rest) =~= Seq::<Seq<char>>::empty());
            assert(words(s@.subrange(hi as int, hi as int)) =~= Seq::<Seq<char>>::empty());
            pos = hi;
        } else {
            let mut b = a;
            while b < hi && !char_is_ws(s[b])
                invariant
                    a <= b <= hi <= s@.len(),
                    t == s@.subrange(a as int, hi as int),
                    forall|j: int| a <= j < b ==> !is_ws(#[trigger] s@[j]),
                decreases hi - b,
            {
                b += 1;
            }
            proof {
                lemma_find_ws_from(t, 0);
                lemma_trim_start_len(rest);
                if b < hi {
                    assert(t[b - a] == s@[b as int]);
                    assert forall|j: int| 0 <= j < b - a implies !is_ws(#[trigger] t[j]) by {
                        assert(t[j] == s@[a + j]);
                    }
                    if find_ws(t) != Some((b - a) as int) {
                        let k = find_ws(t)->0;
                        assert(t[k] == s@[a + k]);
                    }
                } else {
                    assert forall|j: int| 0 <= j < t.len() implies !is_ws(#[trigger] t[j]) by {
                        assert(t[j] == s@[a + j]);
                    }
                    if find_ws(t) is Some {
                        let k = find_ws(t)->0;
                        assert(t[k] == s@[a + k]);
                    }
                }
                assert(t.subrange(0, (b - a) as int) =~= s@.subrange(a as int, b as int));
                assert(t.subrange((b - a) as int, t.len() as int) =~= s@.subrange(b as int, hi as int));
                assert(words(rest) == seq![t.subrange(0, (b - a) as int)] + words(
                    t.subrange((b - a) as int, t.len() as int),
                ));
            }
            out.push((a, b));
            assert(out@.map_values(|r: (usize, usize)| s@.subrange(r.0 as int, r.1 as int)) =~= before.push(
                s@.subrange(a as int, b as int),
            ));
            assert forall|j: int| 0 <= j < out@.len() implies (#[trigger] out@[j]).0 <= out@[j].1 <= s@.len() by {
                if j < out@.len() - 1 {
                }
            }
            pos = b;
        }
    }
    assert(words(s@.subrange(hi as int, hi as int)) =~= Seq::<Seq<char>>::empty());
    assert(ws =~= out@.map_values(|r: (usize, usize)| s@.subrange(r.0 as int, r.1 as int)));
    proof {
        assert forall|j: int| 0 <= j < out@.len() implies #[trigger] s@.subrange(out@[j].0 as int, out@[j].1 as int)
            == ws[j] by {
            assert(ws[j] == out@.map_values(|r: (usize, usize)| s@.subrange(r.0 as int, r.1 as int))[j]);
        }
    }
    out
}

/// The bounds of the pieces of `s[lo..hi]` between occurrences of the
/// non-empty separator `p`.
pub fn split_ranges(s: &[char], lo: usize, hi: usize, p: &[char]) -> (out: Vec<(usize, usize)>)
    requires
        lo <= hi <= s@.len(),
        p@.len() > 0,
    ensures
        out@.len() == split_on(s@.subrange(lo as int, hi as int), p@).len(),
        forall|j: int| 0 <= j < out@.len() ==> (#[trigger] out@[j]).0 <= out@[j].1 <= s@.len(),
        forall|j: int|
            0 <= j < out@.len() ==> #[trigger] s@.subrange(out@[j].0 as int, out@[j].1 as int)
                == split_on(s@.subrange(lo as int, hi as int), p@)[j],
{
    let mut out: Vec<(usize, usize)> = Vec::new();
    let mut pos = lo;
    let ghost ws = split_on(s@.subrange(lo as int, hi as int), p@);
    loop
        invariant
            lo <= pos <= hi <= s@.len(),
            p@.len() > 0,
            ws == split_on(s@.subrange(lo as int, hi as int), p@),
            ws == out@.map_values(|r: (usize, usize)| s@.subrange(r.0 as int, r.1 as int)) + split_on(
                s@.subrange(pos as int, hi as int),
                p@,
            ),
            forall|j: int| 0 <= j < out@.len() ==> (#[trigger] out@[j]).0 <= out@[j].1 <= s@.len(),
        decreases hi - pos,
    {
        let ghost rest = s@.subrange(pos as int, hi as int);
        let ghost before = out@.map_values(|r: (usize, usize)| s@.subrange(r.0 as int, r.1 as int));
        proof {
            lemma_find_from_props(rest, p@, 0);
        }
        match find_in(s, pos, hi, p) {
            Some(k) => {
                assert(rest.subrange(0, k as int) =~= s@.subrange(pos as int, pos + k));
                assert(rest.subrange(k + p@.len(), rest.len() as int) =~= s@.subrange(
                    pos + k + p@.len(),
                    hi as int,
                ));
                out.push((pos, pos + k));
                assert(out@.map_values(|r: (usize, usize)| s@.subrange(r.0 as int, r.1 as int))
                    =~= before.push(s@.subrange(pos as int, pos + k)));
                assert forall|j: int| 0 <= j < out@.len() implies (#[trigger] out@[j]).0 <= out@[j].1 <= s@.len() by {
                    if j < out@.len() - 1 {
                    }
                }
                pos = pos + k + p.len();
            },
            None => {
                out.push((pos, hi));
                assert(out@.map_values(|r: (usize, usize)| s@.subrange(r.0 as int, r.1 as int))
                    =~= before.push(rest));
                assert(split_on(rest, p@) == seq![rest]);
                assert forall|j: int| 0 <= j < out@.len() implies (#[trigger] out@[j]).0 <= out@[j].1 <= s@.len() by {
                    if j < out@.len() - 1 {
                    }
                }
                assert(ws =~= out@.map_values(|r: (usize, usize)| s@.subrange(r.0 as int, r.1 as int)));
                proof {
                    assert forall|j: int| 0 <= j < out@.len() implies #[trigger] s@.subrange(
                        out@[j].0 as int,
                        out@[j].1 as int,
                    ) == ws[j] by {
                        assert(ws[j] == out@.map_values(
                            |r: (usize, usize)| s@.subrange(r.0 as int, r.1 as int),
                        )[j]);
                    }
                }
                return out;
            },
        }
    }
}

/// The number of leading characters of `s` whose UTF-8 encoding is `m`
/// bytes long, counting on until at least `m` bytes are covered.
pub open spec fn chars_for_bytes(s: Seq<char>, m: int) -> nat
    decreases s.len(),
{
    if m <= 0 || s.len() == 0 {
        0
    } else {
        1 + chars_for_bytes(s.drop_first(), m - byte_len(seq![s[0]]))
    }
}

/// `m` bytes of `s` end on a character boundary.
pub open spec fn is_char_boundary(s: Seq<char>, m: int) -> bool {
    byte_len(s.take(chars_for_bytes(s, m) as int)) == m
}

pub proof fn lemma_chars_for_bytes_le(s: Seq<char>, m: int)
    ensures
        chars_for_bytes(s, m) <= s.len(),
    decreases s.len(),
{
    if m > 0 && s.len() > 0 {
        lemma_chars_for_bytes_le(s.drop_first(), m - byte_len(seq![s[0]]));
    }
}


pub proof fn lemma_chars_for_bytes_monotone(s: Seq<char>, m1: int, m2: int)
    requires
        m1 <= m2,
    ensures
        chars_for_bytes(s, m1) <= chars_for_bytes(s, m2),
    decreases s.len(),
{
    if m1 > 0 && s.len() > 0 {
        lemma_chars_for_bytes_monotone(s.drop_first(), m1 - byte_len(seq![s[0]]), m2 - byte_len(seq![s[0]]));
    }
}

} // verus!
