//! Human-readable labels for state-machine transitions: cleaned guard
//! conditions, title-cased identifiers, timeout and command patterns.
use vstd::prelude::*;
use crate::text::{
    byte_len, byte_len_of, str_byte_len, chars_of, char_is_digit, char_is_lower, char_is_upper, char_is_ws,
    concat3, concat_str, contains, ends_with, find, find_char, find_char_in, find_in, is_ascii_digit,
    is_ascii_lower, is_ascii_upper, is_ws, join, join_strings, lemma_find_char_bounds,
    lemma_find_from_props, lemma_trim_len, occurs_at, owned, range_eq, split_on, split_ranges,
    starts_with, string_of, string_of_all, trim, trim_end, trim_range, trim_start, word_ranges, words,
};
use crate::unicode::{char_is_alnum, is_alnum, lowercase, to_lower, to_upper, uppercase};
use crate::prettify::contains_str;
use crate::title_laws::{all_upper_digits, call_ident, firsts_known, lemma_title_case_law, letters, upper_known};

verus! {

/// The depth scan of `has_matching_outer_parens` from the character `i` on,
/// at depth `depth`; `bl` is the byte length of the whole text.
pub open spec fn outer_paren_scan(s: Seq<char>, bl: int, i: int, depth: int) -> bool
    decreases s.len() - i,
{
    if i < 0 || i >= s.len() {
        depth == 0
    } else {
        let d = if s[i] == '(' {
            depth + 1
        } else if s[i] == ')' {
            depth - 1
        } else {
            depth
        };
        if s[i] == ')' && d == 0 && i < bl - 1 {
            false
        } else {
            outer_paren_scan(s, bl, i + 1, d)
        }
    }
}

/// `s` is wrapped in one pair of parentheses that match each other: it
/// starts with `(`, ends with `)`, and the depth first returns to zero at the
/// end. (The end is measured in bytes against a character count, so a
/// non-ASCII text may be refused.)
pub open spec fn matching_outer_parens(s: Seq<char>) -> bool {
    &&& s.len() > 0
    &&& s[0] == '('
    &&& s.last() == ')'
    &&& outer_paren_scan(s, byte_len(s) as int, 0, 0)
}

/// `s` with wrapping parentheses removed as long as they match, trimming
/// each time.
pub open spec fn strip_parens(s: Seq<char>) -> Seq<char>
    decreases s.len(),
{
    if matching_outer_parens(s) && s.len() >= 2 {
        proof {
            lemma_trim_len(s.subrange(1, s.len() - 1));
        }
        strip_parens(trim(s.subrange(1, s.len() - 1)))
    } else {
        s
    }
}

/// A guard condition with wrapping parentheses and repeated white space removed.
pub open spec fn clean_guard(raw: Seq<char>) -> Seq<char> {
    join(words(strip_parens(trim(raw))), " "@)
}

/// `s[lo..hi]` is wrapped in matching parentheses.
fn outer_parens_in(s: &[char], lo: usize, hi: usize) -> (b: bool)
    requires
        lo <= hi <= s@.len(),
        byte_len(s@) <= usize::MAX,
    ensures
        b == matching_outer_parens(s@.subrange(lo as int, hi as int)),
{
    let ghost t = s@.subrange(lo as int, hi as int);
    if lo == hi || s[lo] != '(' || s[hi - 1] != ')' {
        return false;
    }
    let bl = byte_len_of(s, lo, hi);
    let mut opens: usize = 0;
    let mut closes: usize = 0;
    let mut i = lo;
    while i < hi
        invariant
            lo <= i <= hi <= s@.len(),
            t == s@.subrange(lo as int, hi as int),
            bl == byte_len(t),
            opens + closes <= i - lo,
            outer_paren_scan(t, bl as int, 0, 0) == outer_paren_scan(
                t,
                bl as int,
                (i - lo) as int,
                opens - closes,
            ),
        decreases hi - i,
    {
        assert(t[i - lo] == s@[i as int]);
        if s[i] == '(' {
            opens += 1;
        } else if s[i] == ')' {
            closes += 1;
            if opens == closes && i - lo + 1 < bl {
                return false;
            }
        }
        i += 1;
    }
    opens == closes
}

/// `s` is wrapped in one pair of matching parentheses.
pub fn has_matching_outer_parens(s: &str) -> (b: bool)
    ensures
        b == matching_outer_parens(s@),
{
    let c = chars_of(s);
    let _ = str_byte_len(s);
    assert(c@.subrange(0, c@.len() as int) =~= c@);
    outer_parens_in(&c, 0, c.len())
}

/// The bounds of `strip_parens(s[lo..hi])`.
pub(crate) fn strip_parens_range(s: &[char], lo: usize, hi: usize) -> (r: (usize, usize))
    requires
        lo <= hi <= s@.len(),
        byte_len(s@) <= usize::MAX,
    ensures
        lo <= r.0 <= r.1 <= hi,
        s@.subrange(r.0 as int, r.1 as int) == strip_parens(s@.subrange(lo as int, hi as int)),
{
    let mut a = lo;
    let mut b = hi;
    while outer_parens_in(s, a, b)
        invariant
            lo <= a <= b <= hi <= s@.len(),
            byte_len(s@) <= usize::MAX,
            strip_parens(s@.subrange(lo as int, hi as int)) == strip_parens(
                s@.subrange(a as int, b as int),
            ),
        decreases b - a,
    {
        let ghost t = s@.subrange(a as int, b as int);
        assert(t.subrange(1, t.len() - 1) =~= s@.subrange(a + 1, b - 1));
        let r = trim_range(s, a + 1, b - 1);
        a = r.0;
        b = r.1;
    }
    (a, b)
}

/// A guard condition with wrapping parentheses and repeated white space removed.
pub fn clean_guard_text(raw: &str) -> (r: String)
    ensures
        r@ == clean_guard(raw@),
{
    let c = chars_of(raw);
    let _ = str_byte_len(raw);
    let (ta, tb) = trim_range(&c, 0, c.len());
    assert(c@.subrange(0, c@.len() as int) =~= c@);
    let (a, b) = strip_parens_range(&c, ta, tb);
    let ws = word_ranges(&c, a, b);
    let mut parts: Vec<String> = Vec::new();
    let mut i: usize = 0;
    while i < ws.len()
        invariant
            0 <= i <= ws@.len(),
            ws@.len() == words(c@.subrange(a as int, b as int)).len(),
            forall|j: int| 0 <= j < ws@.len() ==> (#[trigger] ws@[j]).0 <= ws@[j].1 <= c@.len(),
            forall|j: int|
                0 <= j < ws@.len() ==> #[trigger] c@.subrange(ws@[j].0 as int, ws@[j].1 as int)
                    == words(c@.subrange(a as int, b as int))[j],
            parts.deep_view() == words(c@.subrange(a as int, b as int)).subrange(0, i as int),
        decreases ws.len() - i,
    {
        let (x, y) = ws[i];
        let w = string_of(&c, x, y);
        let ghost prev = parts.deep_view();
        parts.push(w);
        assert(parts.deep_view() =~= prev.push(w@));
        assert(parts.deep_view() =~= words(c@.subrange(a as int, b as int)).subrange(0, i + 1));
        i += 1;
    }
    assert(words(c@.subrange(a as int, b as int)).subrange(0, i as int) =~= words(
        c@.subrange(a as int, b as int),
    ));
    join_strings(&parts, " ")
}

/// The command of a `strcmp(cmd, "GO") == 0` guard: the first quoted text
/// between `strcmp` and the following `==`.
pub open spec fn command_string(g: Seq<char>) -> Option<Seq<char>> {
    match find(g, "strcmp"@) {
        Some(idx) => {
            let after = g.subrange(idx, g.len() as int);
            match find(after, "=="@) {
                Some(eq) => {
                    let call = after.subrange(0, eq);
                    match find_char(call, '"') {
                        Some(q1) => {
                            let after_q = call.subrange(q1 + 1, call.len() as int);
                            match find_char(after_q, '"') {
                                Some(q2) => if q2 > 0 {
                                    Some(after_q.subrange(0, q2))
                                } else {
                                    None
                                },
                                None => None,
                            }
                        },
                        None => None,
                    }
                },
                None => None,
            }
        },
        None => None,
    }
}

/// The command string that a guard compares against with `strcmp`.
pub fn extract_command_string(guard: &str) -> (r: Option<String>)
    ensures
        r.deep_view() == command_string(guard@),
{
    let g = chars_of(guard);
    let n = g.len();
    assert(g@.subrange(0, n as int) =~= g@);
    let pat = chars_of("strcmp");
    proof {
        lemma_find_from_props(g@, "strcmp"@, 0);
    }
    let idx = match find_in(&g, 0, n, &pat) {
        Some(i) => i,
        None => return None,
    };
    let ghost after = g@.subrange(idx as int, n as int);
    let eqp = chars_of("==");
    proof {
        lemma_find_from_props(after, "=="@, 0);
    }
    let eq = match find_in(&g, idx, n, &eqp) {
        Some(e) => e,
        None => return None,
    };
    let ghost call = after.subrange(0, eq as int);
    assert(call =~= g@.subrange(idx as int, idx + eq));
    proof {
        lemma_find_char_bounds(call, '"');
    }
    let q1 = match find_char_in(&g, idx, idx + eq, '"') {
        Some(q) => q,
        None => return None,
    };
    let ghost after_q = call.subrange(q1 + 1, call.len() as int);
    assert(after_q =~= g@.subrange(idx + q1 + 1, idx + eq));
    proof {
        lemma_find_char_bounds(after_q, '"');
    }
    let q2 = match find_char_in(&g, idx + q1 + 1, idx + eq, '"') {
        Some(q) => q,
        None => return None,
    };
    if q2 == 0 {
        return None;
    }
    let cmd = string_of(&g, idx + q1 + 1, idx + q1 + 1 + q2);
    assert(cmd@ =~= after_q.subrange(0, q2 as int));
    Some(cmd)
}

/// `s` without every occurrence of the non-empty pattern `p`, as
/// `str::replace(p, "")` gives it.
pub open spec fn remove_all(s: Seq<char>, p: Seq<char>) -> Seq<char> {
    join(split_on(s, p), seq![])
}

/// `s` with characters in `set` trimmed from both ends.
pub open spec fn trim_chars_start(s: Seq<char>, a: char, b: char) -> Seq<char>
    decreases s.len(),
{
    if s.len() > 0 && (s[0] == a || s[0] == b) {
        trim_chars_start(s.drop_first(), a, b)
    } else {
        s
    }
}

pub open spec fn trim_chars_end(s: Seq<char>, a: char, b: char) -> Seq<char>
    decreases s.len(),
{
    if s.len() > 0 && (s.last() == a || s.last() == b) {
        trim_chars_end(s.drop_last(), a, b)
    } else {
        s
    }
}

/// A `printf` message as a label: escaped and real line breaks removed,
/// then white space, `.` and `!` trimmed from the ends.
pub open spec fn clean_printf(raw: Seq<char>) -> Seq<char> {
    let s = remove_all(remove_all(remove_all(remove_all(raw, "\\r"@), "\\n"@), "\r"@), "\n"@);
    trim(trim_chars_end(trim_chars_start(trim(s), '.', '!'), '.', '!'))
}

/// `s` without every occurrence of the non-empty pattern `p`.
fn remove_all_str(s: &str, p: &str) -> (r: String)
    requires
        p@.len() > 0,
    ensures
        r@ == remove_all(s@, p@),
{
    let c = chars_of(s);
    let pc = chars_of(p);
    assert(c@.subrange(0, c@.len() as int) =~= c@);
    let rs = split_ranges(&c, 0, c.len(), &pc);
    let mut parts: Vec<String> = Vec::new();
    let mut i: usize = 0;
    while i < rs.len()
        invariant
            0 <= i <= rs@.len(),
            rs@.len() == split_on(c@, p@).len(),
            c@ == s@,
            forall|j: int| 0 <= j < rs@.len() ==> (#[trigger] rs@[j]).0 <= rs@[j].1 <= c@.len(),
            forall|j: int|
                0 <= j < rs@.len() ==> #[trigger] c@.subrange(rs@[j].0 as int, rs@[j].1 as int)
                    == split_on(c@, p@)[j],
            parts.deep_view() == split_on(c@, p@).subrange(0, i as int),
        decreases rs.len() - i,
    {
        let (x, y) = rs[i];
        let w = string_of(&c, x, y);
        let ghost prev = parts.deep_view();
        parts.push(w);
        assert(parts.deep_view() =~= prev.push(w@));
        assert(parts.deep_view() =~= split_on(c@, p@).subrange(0, i + 1));
        i += 1;
    }
    assert(split_on(c@, p@).subrange(0, i as int) =~= split_on(c@, p@));
    let r = join_strings(&parts, "");
    assert(""@ =~= Seq::<char>::empty()) by {
        reveal_strlit("");
    }
    r
}

/// The bounds of `s[lo..hi]` with `a` and `b` trimmed from both ends.
pub(crate) fn trim_chars_range(s: &[char], lo: usize, hi: usize, x: char, y: char) -> (r: (usize, usize))
    requires
        lo <= hi <= s@.len(),
    ensures
        lo <= r.0 <= r.1 <= hi,
        s@.subrange(r.0 as int, r.1 as int) == trim_chars_end(
            trim_chars_start(s@.subrange(lo as int, hi as int), x, y),
            x,
            y,
        ),
{
    let mut a = lo;
    while a < hi && (s[a] == x || s[a] == y)
        invariant
            lo <= a <= hi <= s@.len(),
            trim_chars_start(s@.subrange(lo as int, hi as int), x, y) == trim_chars_start(
                s@.subrange(a as int, hi as int),
                x,
                y,
            ),
        decreases hi - a,
    {
        assert(s@.subrange(a as int, hi as int).drop_first() =~= s@.subrange(a + 1, hi as int));
        a += 1;
    }
    let mut b = hi;
    while b > a && (s[b - 1] == x || s[b - 1] == y)
        invariant
            lo <= a <= b <= hi <= s@.len(),
            trim_chars_end(s@.subrange(a as int, hi as int), x, y) == trim_chars_end(
                s@.subrange(a as int, b as int),
                x,
                y,
            ),
        decreases b - a,
    {
        assert(s@.subrange(a as int, b as int).drop_last() =~= s@.subrange(a as int, b - 1));
        b -= 1;
    }
    (a, b)
}

/// A `printf` message cleaned for use as a label.
pub fn clean_printf_literal(raw: &str) -> (r: String)
    ensures
        r@ == clean_printf(raw@),
{
    proof {
        reveal_strlit("\\r");
        reveal_strlit("\\n");
        reveal_strlit("\r");
        reveal_strlit("\n");
    }
    let s1 = remove_all_str(raw, "\\r");
    let s2 = remove_all_str(s1.as_str(), "\\n");
    let s3 = remove_all_str(s2.as_str(), "\r");
    let s4 = remove_all_str(s3.as_str(), "\n");
    let c = chars_of(s4.as_str());
    assert(c@.subrange(0, c@.len() as int) =~= c@);
    let (a, b) = trim_range(&c, 0, c.len());
    let (a2, b2) = trim_chars_range(&c, a, b, '.', '!');
    let (a3, b3) = trim_range(&c, a2, b2);
    string_of(&c, a3, b3)
}

/// `s` with every trailing `()` removed, as `trim_end_matches("()")` gives it.
pub open spec fn trim_end_calls(s: Seq<char>) -> Seq<char>
    decreases s.len(),
{
    if ends_with(s, "()"@) && s.len() >= 2 {
        trim_end_calls(s.subrange(0, s.len() - 2))
    } else {
        s
    }
}

pub open spec fn is_ident_sep(c: char) -> bool {
    c == '_' || c == '.'
}

/// The first index of `_` or `.` in `s` at or after `i`.
pub open spec fn find_sep_from(s: Seq<char>, i: int) -> Option<int>
    decreases s.len() - i,
{
    if i < 0 || i >= s.len() {
        None
    } else if is_ident_sep(s[i]) {
        Some(i)
    } else {
        find_sep_from(s, i + 1)
    }
}

/// The pieces of `s` between the characters `_` and `.`.
pub open spec fn ident_parts(s: Seq<char>) -> Seq<Seq<char>>
    decreases s.len(),
{
    match find_sep_from(s, 0) {
        Some(i) => if 0 <= i < s.len() {
            seq![s.subrange(0, i)] + ident_parts(s.subrange(i + 1, s.len() as int))
        } else {
            seq![s]
        },
        None => seq![s],
    }
}

/// A new word starts at index `i` of `part`: after a lower-case letter or
/// digit comes an upper-case letter, or an upper-case run ends in a
/// capitalised word (`HTTPServer` splits before `S`).
pub open spec fn word_boundary(part: Seq<char>, i: int) -> bool {
    let prev = part[i - 1];
    let c = part[i];
    ((is_ascii_lower(prev) || is_ascii_digit(prev)) && is_ascii_upper(c)) || (is_ascii_upper(prev)
        && is_ascii_upper(c) && i + 1 < part.len() && is_ascii_lower(part[i + 1]))
}

/// The finished words and the current word after the first `i` characters of `part`.
pub open spec fn camel_state(part: Seq<char>, i: int) -> (Seq<Seq<char>>, Seq<char>)
    decreases i,
{
    if i <= 0 {
        (seq![], seq![])
    } else {
        let (ws, cur) = camel_state(part, i - 1);
        let c = part[i - 1];
        if i - 1 > 0 && word_boundary(part, i - 1) && cur.len() > 0 {
            (ws.push(cur), seq![c])
        } else {
            (ws, cur.push(c))
        }
    }
}

/// The camel-case words of `part`.
pub open spec fn camel_words(part: Seq<char>) -> Seq<Seq<char>> {
    let (ws, cur) = camel_state(part, part.len() as int);
    if cur.len() > 0 {
        ws.push(cur)
    } else {
        ws
    }
}

/// The words of all the non-empty `parts`, in order.
pub open spec fn all_words(parts: Seq<Seq<char>>) -> Seq<Seq<char>>
    decreases parts.len(),
{
    if parts.len() == 0 {
        seq![]
    } else {
        all_words(parts.drop_last()) + if parts.last().len() == 0 {
            seq![]
        } else {
            camel_words(parts.last())
        }
    }
}

/// A word with its first character upper-cased, unless it is all upper-case
/// letters and digits already.
pub open spec fn capitalize(w: Seq<char>) -> Seq<char> {
    if forall|i: int| 0 <= i < w.len() ==> is_ascii_upper(#[trigger] w[i]) || is_ascii_digit(w[i]) {
        w
    } else if w.len() == 0 {
        seq![]
    } else {
        uppercase(seq![w[0]]) + w.subrange(1, w.len() as int)
    }
}

/// An identifier as title-case words: `motorSpeed_max` gives `Motor Speed Max`.
pub open spec fn title_case(ident: Seq<char>) -> Seq<char> {
    join(all_words(ident_parts(trim_end_calls(ident))).map_values(|w: Seq<char>| capitalize(w)), " "@)
}

/// The camel-case words of `part`.
fn camel_words_of(part: &[char], out: &mut Vec<String>)
    ensures
        final(out).deep_view() == old(out).deep_view() + camel_words(part@),
{
    let ghost start = out.deep_view();
    let mut cur: Vec<char> = Vec::new();
    let mut ws: Vec<String> = Vec::new();
    let mut i: usize = 0;
    let n = part.len();
    while i < n
        invariant
            0 <= i <= n,
            n == part@.len(),
            (ws.deep_view(), cur@) == camel_state(part@, i as int),
        decreases n - i,
    {
        let c = part[i];
        let boundary = if i > 0 {
            let prev = part[i - 1];
            ((char_is_lower(prev) || char_is_digit(prev)) && char_is_upper(c)) || (char_is_upper(prev)
                && char_is_upper(c) && i + 1 < n && char_is_lower(part[i + 1]))
        } else {
            false
        };
        if i > 0 && boundary && cur.len() > 0 {
            let w = string_of_all(&cur);
            let ghost prev_ws = ws.deep_view();
            ws.push(w);
            assert(ws.deep_view() =~= prev_ws.push(cur@));
            cur = Vec::new();
            cur.push(c);
            assert(cur@ =~= seq![c]);
        } else {
            cur.push(c);
        }
        i += 1;
    }
    if cur.len() > 0 {
        let w = string_of_all(&cur);
        let ghost prev_ws = ws.deep_view();
        ws.push(w);
        assert(ws.deep_view() =~= prev_ws.push(cur@));
    }
    let mut j: usize = 0;
    let ghost wv = ws.deep_view();
    while j < ws.len()
        invariant
            0 <= j <= ws@.len(),
            wv == ws.deep_view(),
            out.deep_view() == start + wv.subrange(0, j as int),
        decreases ws.len() - j,
    {
        let ghost prev = out.deep_view();
        out.push(ws[j].clone());
        assert(out.deep_view() =~= prev.push(wv[j as int]));
        assert(out.deep_view() =~= start + wv.subrange(0, j + 1));
        j += 1;
    }
    assert(wv.subrange(0, j as int) =~= wv);
}

/// A word capitalised as `capitalize` says.
fn capitalize_word(w: &String) -> (r: String)
    ensures
        r@ == capitalize(w@),
        w@.len() > 0 && !all_upper_digits(w@) && (w@[0] as u32) < 128 ==> upper_known(w@[0]),
{
    let c = chars_of(w.as_str());
    let mut all_upper = true;
    let mut i: usize = 0;
    while i < c.len()
        invariant
            0 <= i <= c@.len(),
            all_upper == forall|j: int| 0 <= j < i ==> is_ascii_upper(#[trigger] c@[j]) || is_ascii_digit(c@[j]),
        decreases c.len() - i,
    {
        if !(char_is_upper(c[i]) || char_is_digit(c[i])) {
            all_upper = false;
        }
        i += 1;
    }
    if all_upper {
        return w.clone();
    }
    if c.len() == 0 {
        return String::new();
    }
    let first = string_of(&c, 0, 1);
    assert(first@ =~= seq![c@[0]]);
    let up = to_upper(first.as_str());
    assert(all_upper_digits(w@) == all_upper);
    let rest = string_of(&c, 1, c.len());
    concat_str(up.as_str(), rest.as_str())
}

/// An identifier as title-case words, as `title_case` says.
///
/// For an identifier of letters, digits and underscores, with or without
/// a trailing `()`, the result holds no underscore, title-casing it again
/// leaves it as it is, and apart from spaces, underscores and letter case
/// it reads as the identifier.
pub fn to_title_case_identifier(ident: &str) -> (r: String)
    ensures
        r@ == title_case(ident@),
        call_ident(ident@) ==> !r@.contains('_') && title_case(r@) == r@ && letters(r@) == letters(
            trim_end_calls(ident@),
        ),
{
    let c = chars_of(ident);
    let mut end = c.len();
    let call = chars_of("()");
    assert(c@.subrange(0, c@.len() as int) =~= c@);
    while end >= 2 && ends_with_in_chars(&c, end, &call)
        invariant
            0 <= end <= c@.len(),
            c@ == ident@,
            call@ == "()"@,
            trim_end_calls(ident@) == trim_end_calls(c@.subrange(0, end as int)),
        decreases end,
    {
        assert(c@.subrange(0, end as int).subrange(0, end - 2) =~= c@.subrange(0, end - 2));
        end = end - 2;
    }
    proof {
        reveal_strlit("()");
    }
    assert(trim_end_calls(c@.subrange(0, end as int)) == c@.subrange(0, end as int));
    let ghost stripped = c@.subrange(0, end as int);
    let mut words_out: Vec<String> = Vec::new();
    let mut pos: usize = 0;
    let ghost mut done: Seq<Seq<char>> = seq![];
    assert(words_out.deep_view() =~= all_words(done));
    loop
        invariant_except_break
            0 <= pos <= end <= c@.len(),
            stripped == c@.subrange(0, end as int),
            ident_parts(stripped) == done + ident_parts(c@.subrange(pos as int, end as int)),
            words_out.deep_view() == all_words(done),
        ensures
            words_out.deep_view() == all_words(ident_parts(stripped)),
        decreases end - pos,
    {
        let ghost rest = c@.subrange(pos as int, end as int);
        let mut k = pos;
        while k < end && !(c[k] == '_' || c[k] == '.')
            invariant
                pos <= k <= end <= c@.len(),
                rest == c@.subrange(pos as int, end as int),
                find_sep_from(rest, 0) == find_sep_from(rest, (k - pos) as int),
            decreases end - k,
        {
            assert(rest[k - pos] == c@[k as int]);
            k += 1;
        }
        let part = slice_of(&c, pos, k);
        assert(part@ == c@.subrange(pos as int, k as int));
        if part.len() > 0 {
            camel_words_of(&part, &mut words_out);
        }
        if k < end {
            assert(rest[k - pos] == c@[k as int]);
            assert(find_sep_from(rest, 0) == Some((k - pos) as int));
            assert(rest.subrange(0, (k - pos) as int) =~= part@);
            assert(rest.subrange(k - pos + 1, rest.len() as int) =~= c@.subrange(k + 1, end as int));
            proof {
                assert(done.push(part@).drop_last() =~= done);
                assert(done.push(part@).last() == part@);
                done = done.push(part@);
                assert(ident_parts(stripped) =~= done + ident_parts(c@.subrange(k + 1, end as int)));
            }
            pos = k + 1;
        } else {
            assert(find_sep_from(rest, 0) is None);
            assert(rest =~= part@);
            proof {
                assert(done.push(part@).drop_last() =~= done);
                assert(done.push(part@).last() == part@);
                done = done.push(part@);
                assert(ident_parts(stripped) =~= done);
            }
            break;
        }
    }
    let mut caps: Vec<String> = Vec::new();
    let mut j: usize = 0;
    let ghost wv = words_out.deep_view();
    while j < words_out.len()
        invariant
            0 <= j <= words_out@.len(),
            wv == words_out.deep_view(),
            caps.deep_view() == wv.subrange(0, j as int).map_values(|w: Seq<char>| capitalize(w)),
            firsts_known(wv.subrange(0, j as int)),
        decreases words_out.len() - j,
    {
        let cw = capitalize_word(&words_out[j]);
        let ghost prev = caps.deep_view();
        caps.push(cw);
        assert(caps.deep_view() =~= prev.push(capitalize(wv[j as int])));
        assert(caps.deep_view() =~= wv.subrange(0, j + 1).map_values(|w: Seq<char>| capitalize(w)));
        assert(firsts_known(wv.subrange(0, j + 1))) by {
            assert forall|k: int| 0 <= k < j + 1 implies #[trigger] wv.subrange(0, j + 1)[k] == wv[k] by {}
        }
        j += 1;
    }
    assert(wv.subrange(0, j as int) =~= wv);
    let r = join_strings(&caps, " ");
    let rc = chars_of(r.as_str());
    if rc.len() > 0 {
        // What std upper-cases the first character to; the idempotence
        // below rests on it leaving that capital or digit as it is.
        let head = string_of(&rc, 0, 1);
        assert(head@ =~= seq![r@[0]]);
        let _same = to_upper(head.as_str());
    }
    proof {
        if call_ident(ident@) {
            lemma_title_case_law(ident@);
        }
    }
    r
}

/// `s[0..end]` ends with `p`.
fn ends_with_in_chars(s: &[char], end: usize, p: &[char]) -> (b: bool)
    requires
        end <= s@.len(),
    ensures
        b == ends_with(s@.subrange(0, end as int), p@),
{
    crate::text::ends_with_in(s, 0, end, p)
}

/// A copy of `s[lo..hi]`.
fn slice_of(s: &[char], lo: usize, hi: usize) -> (v: Vec<char>)
    requires
        lo <= hi <= s@.len(),
    ensures
        v@ == s@.subrange(lo as int, hi as int),
{
    let mut v: Vec<char> = Vec::new();
    let mut i = lo;
    while i < hi
        invariant
            lo <= i <= hi <= s@.len(),
            v@ == s@.subrange(lo as int, i as int),
        decreases hi - i,
    {
        v.push(s[i]);
        i += 1;
        assert(v@ =~= s@.subrange(lo as int, i as int));
    }
    v
}


/// A message without escaped or real line breaks.
pub open spec fn no_breaks(raw: Seq<char>) -> Seq<char> {
    remove_all(remove_all(remove_all(remove_all(raw, "\\r"@), "\\n"@), "\r"@), "\n"@)
}

/// The message holds a word that only confirms a status.
pub open spec fn redundant_message(m: Seq<char>) -> bool {
    ||| contains(m, "hold"@) || contains(m, "cal ok"@) || contains(m, "returned"@) || contains(m, "stopping"@)
    ||| contains(m, "backoff"@) || contains(m, "go"@) || contains(m, "ret"@) || contains(m, "rst"@)
    ||| contains(m, "opening"@) || contains(m, "closing"@) || contains(m, "closed"@) || contains(m, "opened"@)
    ||| contains(m, "busy"@) || contains(m, "no cal"@) || contains(m, "invalid"@) || contains(m, "hatch stopped"@)
    ||| contains(m, "ok"@)
}

/// A state name without a `cal_` or `rec_` prefix and without underscores.
pub open spec fn dest_core(d: Seq<char>) -> Seq<char> {
    remove_all(
        if starts_with(d, "cal_"@) {
            d.skip(4)
        } else if starts_with(d, "rec_"@) {
            d.skip(4)
        } else {
            d
        },
        "_"@,
    )
}

/// The alphanumeric characters of `s`, in order.
pub open spec fn alnum_only(s: Seq<char>) -> Seq<char>
    decreases s.len(),
{
    if s.len() == 0 {
        s
    } else {
        alnum_only(s.drop_last()) + if is_alnum(s.last()) {
            seq![s.last()]
        } else {
            Seq::<char>::empty()
        }
    }
}

/// A `printf` message says more than the name of the state `dest` that
/// follows it: it is not empty, reports no hit, confirms no status, and,
/// reduced to letters and digits, neither holds nor lies in the state name.
pub open spec fn differs(msg: Seq<char>, dest: Seq<char>) -> bool {
    let m = lowercase(trim(no_breaks(msg)));
    let d = lowercase(trim(dest));
    let sd = dest_core(d);
    let cm = alnum_only(m);
    &&& m.len() > 0
    &&& !contains(m, "hit"@)
    &&& !redundant_message(m)
    &&& cm != sd
    &&& cm != remove_all(d, "_"@)
    &&& !contains(sd, cm)
    &&& !contains(cm, sd)
}

/// The alphanumeric characters of `s`.
fn alnum_only_str(s: &str) -> (r: String)
    ensures
        r@ == alnum_only(s@),
{
    let c = chars_of(s);
    let mut out = String::new();
    let mut i: usize = 0;
    assert(c@.take(0) =~= Seq::<char>::empty());
    while i < c.len()
        invariant
            0 <= i <= c@.len(),
            c@ == s@,
            out@ == alnum_only(c@.take(i as int)),
        decreases c.len() - i,
    {
        assert(c@.take(i + 1).drop_last() =~= c@.take(i as int));
        if char_is_alnum(c[i]) {
            crate::text::push_char(&mut out, c[i]);
            assert(out@ =~= alnum_only(c@.take(i + 1)));
        } else {
            assert(out@ =~= alnum_only(c@.take(i + 1)));
        }
        i += 1;
    }
    assert(c@.take(c@.len() as int) =~= c@);
    out
}

/// A `printf` message says more than the name of the state that follows it.
pub fn differs_meaningfully(printf_msg: &str, dest_state: &str) -> (b: bool)
    ensures
        b == differs(printf_msg@, dest_state@),
{
    proof {
        reveal_strlit("\\r");
        reveal_strlit("\\n");
        reveal_strlit("\r");
        reveal_strlit("\n");
        reveal_strlit("_");
        reveal_strlit("cal_");
        reveal_strlit("rec_");
    }
    let s1 = remove_all_str(printf_msg, "\\r");
    let s2 = remove_all_str(s1.as_str(), "\\n");
    let s3 = remove_all_str(s2.as_str(), "\r");
    let s4 = remove_all_str(s3.as_str(), "\n");
    let t = crate::prettify::trimmed(s4.as_str());
    let m = to_lower(t.as_str());
    let dt = crate::prettify::trimmed(dest_state);
    let d = to_lower(dt.as_str());
    if m.as_str().unicode_len() == 0 {
        return false;
    }
    let ms = m.as_str();
    if contains_str(ms, "hit") {
        return false;
    }
    if contains_str(ms, "hold") || contains_str(ms, "cal ok") || contains_str(ms, "returned") || contains_str(
        ms,
        "stopping",
    ) || contains_str(ms, "backoff") || contains_str(ms, "go") || contains_str(ms, "ret") || contains_str(ms, "rst")
        || contains_str(ms, "opening") || contains_str(ms, "closing") || contains_str(ms, "closed") || contains_str(
        ms,
        "opened",
    ) || contains_str(ms, "busy") || contains_str(ms, "no cal") || contains_str(ms, "invalid") || contains_str(
        ms,
        "hatch stopped",
    ) || contains_str(ms, "ok") {
        return false;
    }
    let dc = chars_of(d.as_str());
    let cal = chars_of("cal_");
    let rec = chars_of("rec_");
    let base = if crate::text::starts_with_in(&dc, 0, dc.len(), &cal) {
        string_of(&dc, 4, dc.len())
    } else if crate::text::starts_with_in(&dc, 0, dc.len(), &rec) {
        string_of(&dc, 4, dc.len())
    } else {
        string_of_all(&dc)
    };
    assert(dc@.subrange(0, dc@.len() as int) =~= dc@);
    assert(dc@.subrange(4, dc@.len() as int) =~= dc@.skip(4));
    let sd = remove_all_str(base.as_str(), "_");
    let cm = alnum_only_str(ms);
    let plain = remove_all_str(d.as_str(), "_");
    if crate::text::str_eq(cm.as_str(), sd.as_str()) || crate::text::str_eq(cm.as_str(), plain.as_str()) {
        return false;
    }
    if contains_str(sd.as_str(), cm.as_str()) || contains_str(cm.as_str(), sd.as_str()) {
        return false;
    }
    true
}

/// A function that reports a fault: its name, lower-cased, holds `fault`,
/// `panic` or `abort`, but not `clear` or `in_fault`, and it is not
/// `Error_Handler`.
pub open spec fn fault_coordinator(name: Seq<char>) -> bool {
    let l = lowercase(name);
    (contains(l, "fault"@) || contains(l, "panic"@) || contains(l, "abort"@)) && !contains(l, "clear"@) && !contains(
        l,
        "in_fault"@,
    ) && name != "Error_Handler"@
}

/// A function that reports a fault.
pub fn is_fault_coordinator_name(name: &str) -> (b: bool)
    ensures
        b == fault_coordinator(name@),
{
    let lower = to_lower(name);
    let l = lower.as_str();
    (contains_str(l, "fault") || contains_str(l, "panic") || contains_str(l, "abort")) && !contains_str(l, "clear")
        && !contains_str(l, "in_fault") && !crate::text::str_eq(name, "Error_Handler")
}

/// A variant of a starting state: its name, lower-cased, holds `idle`,
/// `init`, `boot` or `reset`.
pub open spec fn initial_variant(v: Seq<char>) -> bool {
    let l = lowercase(v);
    contains(l, "idle"@) || contains(l, "init"@) || contains(l, "boot"@) || contains(l, "reset"@)
}

/// A variant of a starting state.
pub fn is_initial_variant(v: &str) -> (b: bool)
    ensures
        b == initial_variant(v@),
{
    let lower = to_lower(v);
    let l = lower.as_str();
    contains_str(l, "idle") || contains_str(l, "init") || contains_str(l, "boot") || contains_str(l, "reset")
}

} // verus!
