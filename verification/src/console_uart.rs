//! The UART that a firmware uses as its console, found in the text of its
//! C files: the handle that the `printf` retarget function transmits on,
//! and the baud rate that the handle is initialised with.
use vstd::prelude::*;
use crate::text::{
    byte_len, byte_len_of, chars_of, char_is_digit, char_is_upper, char_is_lower, find, find_char, find_char_in, find_in,
    is_ascii_alnum, is_ascii_digit, lemma_find_char_bounds, lemma_find_from_props, string_of, trim, trim_range,
    trim_start,
};
use crate::text::{contains_string, first_occurrences};
use crate::unicode::{char_is_alnum, is_alnum};

verus! {

/// The console UART of a project.
#[derive(Debug, Clone, PartialEq, Eq)]
pub struct ConsoleUartInfo {
    /// The HAL handle, such as `huart2`.
    pub uart_instance: String,
    pub baud_rate: u32,
}

/// A character of a C identifier.
pub open spec fn is_word_char(c: char) -> bool {
    is_alnum(c) || c == '_'
}

/// The end of the run of identifier characters of `s` from `i`.
pub open spec fn word_end(s: Seq<char>, i: int) -> int
    decreases s.len() - i,
{
    if 0 <= i < s.len() && is_word_char(s[i]) {
        word_end(s, i + 1)
    } else {
        i
    }
}

/// The start of the run of identifier characters that ends `s[..i]`.
pub open spec fn word_start(s: Seq<char>, i: int) -> int
    decreases i,
{
    if 0 < i <= s.len() && is_word_char(s[i - 1]) {
        word_start(s, i - 1)
    } else {
        i
    }
}

/// The end of the run of ASCII digits of `s` from `i`.
pub open spec fn digit_end(s: Seq<char>, i: int) -> int
    decreases s.len() - i,
{
    if 0 <= i < s.len() && is_ascii_digit(s[i]) {
        digit_end(s, i + 1)
    } else {
        i
    }
}

/// The value of a string of ASCII digits.
pub open spec fn digits_value(ds: Seq<char>) -> nat
    decreases ds.len(),
{
    if ds.len() == 0 {
        0
    } else {
        digits_value(ds.drop_last()) * 10 + ((ds.last() as u32) - ('0' as u32)) as nat
    }
}

/// What `str::parse::<u32>` gives for a string of ASCII digits.
pub open spec fn parse_u32(ds: Seq<char>) -> Option<u32> {
    if ds.len() > 0 && digits_value(ds) <= u32::MAX {
        Some(digits_value(ds) as u32)
    } else {
        None
    }
}

/// The number after the first `=` of `after`: the leading digits once
/// white space is skipped.
pub open spec fn value_after_eq(after: Seq<char>) -> Option<u32> {
    match find_char(after, '=') {
        Some(e) => {
            let v = trim_start(after.subrange(e + 1, after.len() as int));
            parse_u32(v.take(digit_end(v, 0)))
        },
        None => None,
    }
}

/// The index of the `{` that opens the body of the function `name`, found
/// from index `from` on: an occurrence of the name with no identifier
/// character on either side, an `(` less than sixty bytes after it, and the
/// next `{`.
pub open spec fn body_brace_from(s: Seq<char>, name: Seq<char>, from: int) -> Option<int>
    decreases s.len() - from,
{
    if name.len() == 0 || from < 0 || from > s.len() {
        None
    } else {
        match find(s.subrange(from, s.len() as int), name) {
            None => None,
            Some(p) => {
                let a = from + p;
                let post = a + name.len();
                let pre_ok = a == 0 || !is_word_char(s[a - 1]);
                let post_ok = post < s.len() && !is_word_char(s[post]);
                let hit = if pre_ok && post_ok {
                    match find_char(s.subrange(post, s.len() as int), '(') {
                        Some(q) => if byte_len(s.subrange(post, post + q)) < 60 {
                            match find_char(s.subrange(post + q, s.len() as int), '{') {
                                Some(b) => Some(post + q + b),
                                None => None,
                            }
                        } else {
                            None
                        },
                        None => None,
                    }
                } else {
                    None
                };
                if hit is Some {
                    hit
                } else if from < post <= s.len() {
                    body_brace_from(s, name, post)
                } else {
                    None
                }
            },
        }
    }
}

/// The index of the `}` that closes the brace depth `depth` at index `i`.
pub open spec fn closing_brace(s: Seq<char>, i: int, depth: int) -> Option<int>
    decreases s.len() - i,
{
    if i < 0 || i >= s.len() {
        None
    } else {
        let d = if s[i] == '{' {
            depth + 1
        } else if s[i] == '}' {
            depth - 1
        } else {
            depth
        };
        if s[i] == '}' && d == 0 {
            Some(i)
        } else {
            closing_brace(s, i + 1, d)
        }
    }
}

/// The first `{ .. }` block of `s`, braces included, when it closes.
pub open spec fn brace_block(s: Seq<char>) -> Option<Seq<char>> {
    match find_char(s, '{') {
        Some(st) => match closing_brace(s, st, 0) {
            Some(e) => if st <= e < s.len() {
                Some(s.subrange(st, e + 1))
            } else {
                None
            },
            None => None,
        },
        None => None,
    }
}

/// The handle passed as `&handle` to the first call of `pat` at or after
/// index `from` that has one.
pub open spec fn handle_after(t: Seq<char>, pat: Seq<char>, from: int) -> Option<Seq<char>>
    decreases t.len() - from,
{
    if pat.len() == 0 || from < 0 || from > t.len() {
        None
    } else {
        match find(t.subrange(from, t.len() as int), pat) {
            None => None,
            Some(p) => {
                let a = from + p + pat.len();
                let hit = match find_char(t.subrange(a, t.len() as int), '(') {
                    Some(q) => {
                        let args = a + q + 1;
                        match find_char(t.subrange(args, t.len() as int), '&') {
                            Some(m) => {
                                let rem = trim_start(t.subrange(args + m + 1, t.len() as int));
                                let id = rem.take(word_end(rem, 0));
                                if id.len() > 0 {
                                    Some(id)
                                } else {
                                    None
                                }
                            },
                            None => None,
                        }
                    },
                    None => None,
                };
                if hit is Some {
                    hit
                } else if from < a <= t.len() {
                    handle_after(t, pat, a)
                } else {
                    None
                }
            },
        }
    }
}

/// The handle that a block transmits on with `HAL_UART_Transmit`,
/// `HAL_UART_Transmit_IT` or `HAL_UART_Transmit_DMA`.
pub open spec fn transmit_handle(t: Seq<char>) -> Option<Seq<char>> {
    match handle_after(t, "HAL_UART_Transmit"@, 0) {
        Some(h) => Some(h),
        None => match handle_after(t, "HAL_UART_Transmit_IT"@, 0) {
            Some(h) => Some(h),
            None => handle_after(t, "HAL_UART_Transmit_DMA"@, 0),
        },
    }
}

/// The functions that retarget `printf`.
pub open spec fn retarget_names() -> Seq<Seq<char>> {
    seq!["_write"@, "__io_putchar"@, "_io_putchar"@, "fputc"@]
}

/// The handle that the first retarget function (from the `k`-th name on)
/// transmits on.
pub open spec fn retarget_handle_from(s: Seq<char>, k: int) -> Option<Seq<char>>
    decreases 4 - k,
{
    if k < 0 || k >= 4 {
        None
    } else {
        let found = match body_brace_from(s, retarget_names()[k], 0) {
            Some(b) => if 0 <= b <= s.len() {
                let body = s.subrange(b, s.len() as int);
                transmit_handle(
                    match brace_block(body) {
                        Some(x) => x,
                        None => body,
                    },
                )
            } else {
                None
            },
            None => None,
        };
        if found is Some {
            found
        } else {
            retarget_handle_from(s, k + 1)
        }
    }
}

/// The first file, from the `f`-th on, with a retarget function's handle.
pub open spec fn retarget_in_files(files: Seq<Seq<char>>, f: int) -> Option<Seq<char>>
    decreases files.len() - f,
{
    if f < 0 || f >= files.len() {
        None
    } else if retarget_handle_from(files[f], 0) is Some {
        retarget_handle_from(files[f], 0)
    } else {
        retarget_in_files(files, f + 1)
    }
}

/// The baud rate that `inst` is initialised with in the first file, from
/// the `f`-th on, that gives one.
pub open spec fn baud_for(inst: Seq<char>, files: Seq<Seq<char>>, f: int) -> Option<u32>
    decreases files.len() - f,
{
    if f < 0 || f >= files.len() {
        None
    } else {
        let target = inst + ".Init.BaudRate"@;
        let here = match find(files[f], target) {
            Some(pos) => value_after_eq(files[f].subrange(pos + target.len(), files[f].len() as int)),
            None => None,
        };
        if here is Some {
            here
        } else {
            baud_for(inst, files, f + 1)
        }
    }
}

/// The first `<handle>.Init.BaudRate = <n>` of `s` from index `from` on,
/// with the handle written right before it (within the text searched).
pub open spec fn any_baud_from(s: Seq<char>, from: int) -> Option<(Seq<char>, u32)>
    decreases s.len() - from,
{
    let key = ".Init.BaudRate"@;
    if from < 0 || from > s.len() {
        None
    } else {
        match find(s.subrange(from, s.len() as int), key) {
            None => None,
            Some(p) => {
                let a = from + p;
                let before = s.subrange(from, a);
                let inst = before.subrange(word_start(before, before.len() as int), before.len() as int);
                let v = value_after_eq(s.subrange(a + key.len(), s.len() as int));
                if v is Some && inst.len() > 0 {
                    Some((inst, v->0))
                } else if from < a + key.len() <= s.len() {
                    any_baud_from(s, a + key.len())
                } else {
                    None
                }
            },
        }
    }
}

/// The first file, from the `f`-th on, that initialises some UART's baud rate.
pub open spec fn any_baud_in_files(files: Seq<Seq<char>>, f: int) -> Option<(Seq<char>, u32)>
    decreases files.len() - f,
{
    if f < 0 || f >= files.len() {
        None
    } else if any_baud_from(files[f], 0) is Some {
        any_baud_from(files[f], 0)
    } else {
        any_baud_in_files(files, f + 1)
    }
}

/// The console UART of a project whose C files hold the texts `files`:
/// the handle of a retarget function, with its baud rate; else the first
/// UART that some file initialises (keeping the retarget handle when there
/// is one); else the retarget handle at 115200 baud.
pub open spec fn console_uart(files: Seq<Seq<char>>) -> Option<(Seq<char>, u32)> {
    let detected = retarget_in_files(files, 0);
    match detected {
        Some(inst) => match baud_for(inst, files, 0) {
            Some(b) => Some((inst, b)),
            None => match any_baud_in_files(files, 0) {
                Some((_, b)) => Some((inst, b)),
                None => Some((inst, 115200u32)),
            },
        },
        None => any_baud_in_files(files, 0),
    }
}

/// The character vectors `texts` hold the file texts `fs`.
spec fn holds_texts(texts: Seq<Vec<char>>, fs: Seq<Seq<char>>) -> bool {
    texts.len() == fs.len() && forall|h: int| 0 <= h < texts.len() ==> (#[trigger] texts[h])@ == fs[h]
}

/// Each text's UTF-8 length fits in a `usize`.
spec fn texts_fit(fs: Seq<Seq<char>>) -> bool {
    forall|h: int| 0 <= h < fs.len() ==> byte_len(#[trigger] fs[h]) <= usize::MAX
}

proof fn lemma_digits_monotone(ds: Seq<char>, k: int)
    requires
        0 <= k <= ds.len(),
    ensures
        digits_value(ds.take(k)) <= digits_value(ds),
    decreases ds.len() - k,
{
    if k < ds.len() {
        lemma_digits_monotone(ds, k + 1);
        assert(ds.take(k + 1).drop_last() =~= ds.take(k));
    } else {
        assert(ds.take(k) =~= ds);
    }
}

/// A character of a C identifier.
fn word_char(c: char) -> (b: bool)
    ensures
        b == is_word_char(c),
{
    char_is_alnum(c) || c == '_'
}

/// What `str::parse::<u32>` gives for the digits `c[lo..hi]`.
fn parse_digits(c: &Vec<char>, lo: usize, hi: usize) -> (r: Option<u32>)
    requires
        lo <= hi <= c@.len(),
        forall|i: int| lo <= i < hi ==> is_ascii_digit(#[trigger] c@[i]),
    ensures
        r == parse_u32(c@.subrange(lo as int, hi as int)),
{
    let ghost ds = c@.subrange(lo as int, hi as int);
    if lo == hi {
        return None;
    }
    let mut v: u64 = 0;
    let mut i = lo;
    assert(ds.take(0) =~= Seq::<char>::empty());
    while i < hi
        invariant
            lo <= i <= hi <= c@.len(),
            ds == c@.subrange(lo as int, hi as int),
            forall|j: int| lo <= j < hi ==> is_ascii_digit(#[trigger] c@[j]),
            v == digits_value(ds.take(i - lo)),
            v <= u32::MAX,
        decreases hi - i,
    {
        assert(ds.take(i - lo + 1).drop_last() =~= ds.take(i - lo));
        assert(ds.take(i - lo + 1).last() == c@[i as int]);
        let d = (c[i] as u32 - '0' as u32) as u64;
        let nv = v * 10 + d;
        if nv > 0xFFFF_FFFF {
            proof {
                lemma_digits_monotone(ds, i - lo + 1);
            }
            return None;
        }
        v = nv;
        i += 1;
    }
    assert(ds.take(i - lo) =~= ds);
    Some(v as u32)
}

/// The number after the first `=` of `c[lo..hi]`.
fn value_after_eq_in(c: &Vec<char>, lo: usize, hi: usize) -> (r: Option<u32>)
    requires
        lo <= hi <= c@.len(),
    ensures
        r == value_after_eq(c@.subrange(lo as int, hi as int)),
{
    let ghost after = c@.subrange(lo as int, hi as int);
    proof {
        lemma_find_char_bounds(after, '=');
    }
    let e = match find_char_in(c, lo, hi, '=') {
        Some(e) => e,
        None => return None,
    };
    let mut a = lo + e + 1;
    let ghost rest = c@.subrange(a as int, hi as int);
    assert(after.subrange(e + 1, after.len() as int) =~= rest);
    while a < hi && crate::text::char_is_ws(c[a])
        invariant
            lo + e + 1 <= a <= hi <= c@.len(),
            trim_start(rest) == trim_start(c@.subrange(a as int, hi as int)),
        decreases hi - a,
    {
        assert(c@.subrange(a as int, hi as int).drop_first() =~= c@.subrange(a + 1, hi as int));
        a += 1;
    }
    let ghost v = c@.subrange(a as int, hi as int);
    assert(trim_start(v) == v);
    let mut k = a;
    while k < hi && char_is_digit(c[k])
        invariant
            a <= k <= hi <= c@.len(),
            v == c@.subrange(a as int, hi as int),
            digit_end(v, 0) == digit_end(v, (k - a) as int),
            forall|j: int| a <= j < k ==> is_ascii_digit(#[trigger] c@[j]),
        decreases hi - k,
    {
        assert(v[k - a] == c@[k as int]);
        k += 1;
    }
    if k < hi {
        assert(v[k - a] == c@[k as int]);
    }
    assert(v.take(digit_end(v, 0)) =~= c@.subrange(a as int, k as int));
    parse_digits(c, a, k)
}

/// The index of the `{` that opens the body of the function `name` in `c`.
fn body_brace(c: &Vec<char>, name: &Vec<char>) -> (r: Option<usize>)
    requires
        byte_len(c@) <= usize::MAX,
    ensures
        match r {
            Some(b) => body_brace_from(c@, name@, 0) == Some(b as int) && b < c@.len(),
            None => body_brace_from(c@, name@, 0) is None,
        },
{
    let n = c.len();
    if name.len() == 0 {
        return None;
    }
    let mut from: usize = 0;
    while from <= n
        invariant
            0 <= from <= n,
            n == c@.len(),
            name@.len() > 0,
            byte_len(c@) <= usize::MAX,
            body_brace_from(c@, name@, 0) == body_brace_from(c@, name@, from as int),
        decreases n + 1 - from,
    {
        let ghost sub = c@.subrange(from as int, n as int);
        proof {
            lemma_find_from_props(sub, name@, 0);
        }
        let p = match find_in(c, from, n, name) {
            Some(p) => p,
            None => return None,
        };
        let a = from + p;
        let post = a + name.len();
        assert(sub.subrange(p as int, p + name@.len()) == name@);
        let pre_ok = a == 0 || !word_char(c[a - 1]);
        let post_ok = post < n && !word_char(c[post]);
        if pre_ok && post_ok {
            let ghost s1 = c@.subrange(post as int, n as int);
            proof {
                lemma_find_char_bounds(s1, '(');
            }
            match find_char_in(c, post, n, '(') {
                Some(q) => {
                    let bl = byte_len_of(c, post, post + q);
                    assert(s1.subrange(0, q as int) =~= c@.subrange(post as int, post + q));
                    if bl < 60 {
                        let ghost s2 = c@.subrange(post + q, n as int);
                        proof {
                            lemma_find_char_bounds(s2, '{');
                        }
                        match find_char_in(c, post + q, n, '{') {
                            Some(b) => return Some(post + q + b),
                            None => {},
                        }
                    }
                },
                None => {},
            }
        }
        from = post;
    }
    None
}

/// The bounds of the first `{ .. }` block of `c[lo..hi]`.
fn brace_block_in(c: &Vec<char>, lo: usize, hi: usize) -> (r: Option<(usize, usize)>)
    requires
        lo <= hi <= c@.len(),
    ensures
        match r {
            Some((a, b)) => lo <= a <= b <= hi && brace_block(c@.subrange(lo as int, hi as int)) == Some(
                c@.subrange(a as int, b as int),
            ),
            None => brace_block(c@.subrange(lo as int, hi as int)) is None,
        },
{
    let ghost s = c@.subrange(lo as int, hi as int);
    proof {
        lemma_find_char_bounds(s, '{');
    }
    let st = match find_char_in(c, lo, hi, '{') {
        Some(st) => st,
        None => return None,
    };
    let mut i = lo + st;
    let mut depth: usize = 0;
    while i < hi
        invariant
            lo + st <= i <= hi <= c@.len(),
            s == c@.subrange(lo as int, hi as int),
            s[st as int] == '{',
            st < s.len(),
            (i == lo + st && depth == 0) || (i > lo + st && depth >= 1),
            depth <= i - lo - st,
            closing_brace(s, st as int, 0) == closing_brace(s, i - lo, depth as int),
            find_char(s, '{') == Some(st as int),
        decreases hi - i,
    {
        assert(s[i - lo] == c@[i as int]);
        if c[i] == '{' {
            depth += 1;
        } else if c[i] == '}' {
            if depth == 1 {
                assert(closing_brace(s, i - lo, depth as int) == Some(i - lo));
                assert(brace_block(s) == Some(s.subrange(st as int, i - lo + 1)));
                assert(s.subrange(st as int, i - lo + 1) =~= c@.subrange(lo + st, i + 1));
                return Some((lo + st, i + 1));
            }
            depth -= 1;
        }
        i += 1;
    }
    None
}

/// The handle passed as `&handle` to a call of `pat` in `c[lo..hi]`.
fn handle_after_in(c: &Vec<char>, lo: usize, hi: usize, pat: &Vec<char>) -> (r: Option<String>)
    requires
        lo <= hi <= c@.len(),
    ensures
        r.deep_view() == handle_after(c@.subrange(lo as int, hi as int), pat@, 0),
{
    let ghost t = c@.subrange(lo as int, hi as int);
    if pat.len() == 0 {
        return None;
    }
    let mut from = lo;
    while from <= hi
        invariant
            lo <= from <= hi,
            hi <= c@.len(),
            t == c@.subrange(lo as int, hi as int),
            pat@.len() > 0,
            handle_after(t, pat@, 0) == handle_after(t, pat@, from - lo),
        decreases hi + 1 - from,
    {
        let ghost sub = c@.subrange(from as int, hi as int);
        assert(t.subrange(from - lo, t.len() as int) =~= sub);
        proof {
            lemma_find_from_props(sub, pat@, 0);
        }
        let p = match find_in(c, from, hi, pat) {
            Some(p) => p,
            None => return None,
        };
        let a = from + p + pat.len();
        let ghost s1 = c@.subrange(a as int, hi as int);
        assert(t.subrange(a - lo, t.len() as int) =~= s1);
        proof {
            lemma_find_char_bounds(s1, '(');
        }
        match find_char_in(c, a, hi, '(') {
            Some(q) => {
                let args = a + q + 1;
                let ghost s2 = c@.subrange(args as int, hi as int);
                assert(t.subrange(args - lo, t.len() as int) =~= s2);
                proof {
                    lemma_find_char_bounds(s2, '&');
                }
                match find_char_in(c, args, hi, '&') {
                    Some(m) => {
                        let mut k = args + m + 1;
                        let ghost rest = c@.subrange(k as int, hi as int);
                        assert(t.subrange(k - lo, t.len() as int) =~= rest);
                        while k < hi && crate::text::char_is_ws(c[k])
                            invariant
                                args + m + 1 <= k <= hi <= c@.len(),
                                trim_start(rest) == trim_start(c@.subrange(k as int, hi as int)),
                            decreases hi - k,
                        {
                            assert(c@.subrange(k as int, hi as int).drop_first() =~= c@.subrange(k + 1, hi as int));
                            k += 1;
                        }
                        let ghost rem = c@.subrange(k as int, hi as int);
                        assert(trim_start(rem) == rem);
                        let mut e = k;
                        while e < hi && word_char(c[e])
                            invariant
                                k <= e <= hi <= c@.len(),
                                rem == c@.subrange(k as int, hi as int),
                                word_end(rem, 0) == word_end(rem, (e - k) as int),
                            decreases hi - e,
                        {
                            assert(rem[e - k] == c@[e as int]);
                            e += 1;
                        }
                        if e < hi {
                            assert(rem[e - k] == c@[e as int]);
                        }
                        if e > k {
                            let id = string_of(c, k, e);
                            assert(id@ =~= rem.take(word_end(rem, 0)));
                            return Some(id);
                        }
                    },
                    None => {},
                }
            },
            None => {},
        }
        from = a;
    }
    None
}

/// The handle that `c[lo..hi]` transmits on.
fn transmit_handle_in(c: &Vec<char>, lo: usize, hi: usize) -> (r: Option<String>)
    requires
        lo <= hi <= c@.len(),
    ensures
        r.deep_view() == transmit_handle(c@.subrange(lo as int, hi as int)),
{
    let p1 = chars_of("HAL_UART_Transmit");
    match handle_after_in(c, lo, hi, &p1) {
        Some(h) => return Some(h),
        None => {},
    }
    let p2 = chars_of("HAL_UART_Transmit_IT");
    match handle_after_in(c, lo, hi, &p2) {
        Some(h) => return Some(h),
        None => {},
    }
    let p3 = chars_of("HAL_UART_Transmit_DMA");
    handle_after_in(c, lo, hi, &p3)
}

/// The handle that a retarget function of the text `c` transmits on.
fn retarget_handle(c: &Vec<char>) -> (r: Option<String>)
    requires
        byte_len(c@) <= usize::MAX,
    ensures
        r.deep_view() == retarget_handle_from(c@, 0),
{
    let names: [&str; 4] = ["_write", "__io_putchar", "_io_putchar", "fputc"];
    proof {
        assert(names@[0]@ == retarget_names()[0]);
        assert(names@[1]@ == retarget_names()[1]);
        assert(names@[2]@ == retarget_names()[2]);
        assert(names@[3]@ == retarget_names()[3]);
    }
    let n = c.len();
    let mut k: usize = 0;
    while k < 4
        invariant
            0 <= k <= 4,
            n == c@.len(),
            byte_len(c@) <= usize::MAX,
            forall|j: int| 0 <= j < 4 ==> #[trigger] names@[j]@ == retarget_names()[j],
            retarget_handle_from(c@, 0) == retarget_handle_from(c@, k as int),
        decreases 4 - k,
    {
        let name = chars_of(names[k]);
        match body_brace(c, &name) {
            Some(b) => {
                let found = match brace_block_in(c, b, n) {
                    Some((x, y)) => transmit_handle_in(c, x, y),
                    None => transmit_handle_in(c, b, n),
                };
                if found.is_some() {
                    return found;
                }
            },
            None => {},
        }
        k += 1;
    }
    None
}

/// The baud rate that `inst` is initialised with in the text `c`.
fn baud_in(c: &Vec<char>, target: &Vec<char>) -> (r: Option<u32>)
    ensures
        r == match find(c@, target@) {
            Some(pos) => value_after_eq(c@.subrange(pos + target@.len(), c@.len() as int)),
            None => None,
        },
{
    let n = c.len();
    assert(c@.subrange(0, n as int) =~= c@);
    proof {
        lemma_find_from_props(c@, target@, 0);
    }
    match find_in(c, 0, n, target) {
        Some(pos) => value_after_eq_in(c, pos + target.len(), n),
        None => None,
    }
}

/// The first `<handle>.Init.BaudRate = <n>` of the text `c`.
fn any_baud(c: &Vec<char>) -> (r: Option<(String, u32)>)
    ensures
        match r {
            Some((i, b)) => any_baud_from(c@, 0) == Some((i@, b)),
            None => any_baud_from(c@, 0) is None,
        },
{
    let key = chars_of(".Init.BaudRate");
    proof {
        reveal_strlit(".Init.BaudRate");
    }
    let n = c.len();
    let mut from: usize = 0;
    while from <= n
        invariant
            0 <= from <= n,
            n == c@.len(),
            key@ == ".Init.BaudRate"@,
            key@.len() == 14,
            any_baud_from(c@, 0) == any_baud_from(c@, from as int),
        decreases n + 1 - from,
    {
        let ghost sub = c@.subrange(from as int, n as int);
        proof {
            lemma_find_from_props(sub, key@, 0);
        }
        let p = match find_in(c, from, n, &key) {
            Some(p) => p,
            None => return None,
        };
        let a = from + p;
        let ghost before = c@.subrange(from as int, a as int);
        let mut w = a;
        while w > from && word_char(c[w - 1])
            invariant
                from <= w <= a,
                a <= n,
                n == c@.len(),
                before == c@.subrange(from as int, a as int),
                word_start(before, before.len() as int) == word_start(before, (w - from) as int),
            decreases w,
        {
            assert(before[w - from - 1] == c@[w - 1]);
            w -= 1;
        }
        if w > from {
            assert(before[w - from - 1] == c@[w - 1]);
        }
        let v = value_after_eq_in(c, a + key.len(), n);
        if v.is_some() && w < a {
            let inst = string_of(c, w, a);
            assert(inst@ =~= before.subrange(word_start(before, before.len() as int), before.len() as int));
            return Some((inst, v.unwrap()));
        }
        from = a + key.len();
    }
    None
}

/// The handle of the first file's retarget function.
fn retarget_in(texts: &Vec<Vec<char>>, Ghost(fs): Ghost<Seq<Seq<char>>>) -> (r: Option<String>)
    requires
        holds_texts(texts@, fs),
        texts_fit(fs),
    ensures
        r.deep_view() == retarget_in_files(fs, 0),
{
    let mut g: usize = 0;
    while g < texts.len()
        invariant
            0 <= g <= texts@.len(),
            holds_texts(texts@, fs),
            texts_fit(fs),
            retarget_in_files(fs, 0) == retarget_in_files(fs, g as int),
        decreases texts.len() - g,
    {
        assert(texts@[g as int]@ == fs[g as int]);
        match retarget_handle(&texts[g]) {
            Some(h) => return Some(h),
            None => {},
        }
        g += 1;
    }
    None
}

/// The baud rate of `inst` in the first file that gives one.
fn baud_for_in(inst: &str, texts: &Vec<Vec<char>>, Ghost(fs): Ghost<Seq<Seq<char>>>) -> (r: Option<u32>)
    requires
        holds_texts(texts@, fs),
    ensures
        r == baud_for(inst@, fs, 0),
{
    let t = crate::text::concat_str(inst, ".Init.BaudRate");
    let target = chars_of(t.as_str());
    let mut g: usize = 0;
    while g < texts.len()
        invariant
            0 <= g <= texts@.len(),
            holds_texts(texts@, fs),
            target@ == inst@ + ".Init.BaudRate"@,
            baud_for(inst@, fs, 0) == baud_for(inst@, fs, g as int),
        decreases texts.len() - g,
    {
        assert(texts@[g as int]@ == fs[g as int]);
        match baud_in(&texts[g], &target) {
            Some(b) => return Some(b),
            None => {},
        }
        g += 1;
    }
    None
}

/// The first UART baud rate that some file initialises.
fn any_baud_in(texts: &Vec<Vec<char>>, Ghost(fs): Ghost<Seq<Seq<char>>>) -> (r: Option<(String, u32)>)
    requires
        holds_texts(texts@, fs),
    ensures
        match r {
            Some((i, b)) => any_baud_in_files(fs, 0) == Some((i@, b)),
            None => any_baud_in_files(fs, 0) is None,
        },
{
    let mut g: usize = 0;
    while g < texts.len()
        invariant
            0 <= g <= texts@.len(),
            holds_texts(texts@, fs),
            any_baud_in_files(fs, 0) == any_baud_in_files(fs, g as int),
        decreases texts.len() - g,
    {
        assert(texts@[g as int]@ == fs[g as int]);
        match any_baud(&texts[g]) {
            Some(x) => return Some(x),
            None => {},
        }
        g += 1;
    }
    None
}

/// The console UART of a project whose C files hold the texts `files`.
pub fn detect_console_uart(files: &[String]) -> (r: Option<ConsoleUartInfo>)
    ensures
        match r {
            Some(info) => console_uart(files@.map_values(|f: String| f@)) == Some(
                (info.uart_instance@, info.baud_rate),
            ),
            None => console_uart(files@.map_values(|f: String| f@)) is None,
        },
{
    let ghost fs = files@.map_values(|f: String| f@);
    let mut texts: Vec<Vec<char>> = Vec::new();
    let mut f: usize = 0;
    while f < files.len()
        invariant
            0 <= f <= files@.len(),
            fs == files@.map_values(|f: String| f@),
            texts@.len() == f,
            forall|g: int| 0 <= g < f ==> (#[trigger] texts@[g])@ == fs[g] && byte_len(fs[g]) <= usize::MAX,
        decreases files.len() - f,
    {
        let _ = crate::text::str_byte_len(files[f].as_str());
        texts.push(chars_of(files[f].as_str()));
        f += 1;
    }
    assert(holds_texts(texts@, fs));
    assert forall|h: int| 0 <= h < fs.len() implies byte_len(#[trigger] fs[h]) <= usize::MAX by {
        assert(texts@[h]@ == fs[h]);
    }
    match retarget_in(&texts, Ghost(fs)) {
        Some(inst) => match baud_for_in(inst.as_str(), &texts, Ghost(fs)) {
            Some(b) => Some(ConsoleUartInfo { uart_instance: inst, baud_rate: b }),
            None => match any_baud_in(&texts, Ghost(fs)) {
                Some((_, b)) => Some(ConsoleUartInfo { uart_instance: inst, baud_rate: b }),
                None => Some(ConsoleUartInfo { uart_instance: inst, baud_rate: 115200 }),
            },
        },
        None => match any_baud_in(&texts, Ghost(fs)) {
            Some((i, b)) => Some(ConsoleUartInfo { uart_instance: i, baud_rate: b }),
            None => None,
        },
    }
}


/// A character that a command name may hold.
pub open spec fn is_command_char(c: char) -> bool {
    is_ascii_alnum(c) || c == '_' || c == '-'
}

/// The command that the `{ .. }` block `block` declares, as in
/// `{ "GO", cmd_go }`: the first quoted string, when a `,` and an
/// identifier follow it and it is one to sixteen bytes of letters, digits,
/// `_` and `-`.
pub open spec fn table_entry(block: Seq<char>) -> Option<Seq<char>> {
    match find_char(block, '"') {
        Some(q1) => {
            let rest = block.subrange(q1 + 1, block.len() as int);
            match find_char(rest, '"') {
                Some(q2) => {
                    let cmd = rest.take(q2);
                    let after = rest.subrange(q2 + 1, rest.len() as int);
                    match find_char(after, ',') {
                        Some(m) => {
                            let ac = trim(after.subrange(m + 1, after.len() as int));
                            let ident = ac.take(word_end(ac, 0));
                            if ident.len() > 0 && cmd.len() > 0 && byte_len(cmd) <= 16 && (forall|i: int|
                                0 <= i < cmd.len() ==> is_command_char(#[trigger] cmd[i])) {
                                Some(cmd)
                            } else {
                                None
                            }
                        },
                        None => None,
                    }
                },
                None => None,
            }
        },
        None => None,
    }
}

/// The commands that the `{ .. }` blocks of `s` declare, from index `from`
/// on: each block runs from a `{` to the next `}`, and the search goes on
/// after that `}`.
pub open spec fn command_entries_from(s: Seq<char>, from: int) -> Seq<Seq<char>>
    decreases s.len() - from,
{
    if from < 0 || from > s.len() {
        seq![]
    } else {
        match find_char(s.subrange(from, s.len() as int), '{') {
            None => seq![],
            Some(p) => {
                let a = from + p;
                match find_char(s.subrange(a, s.len() as int), '}') {
                    None => seq![],
                    Some(q) => {
                        let here = match table_entry(s.subrange(a, a + q + 1)) {
                            Some(cmd) => seq![cmd],
                            None => seq![],
                        };
                        if from < a + q + 1 <= s.len() {
                            here + command_entries_from(s, a + q + 1)
                        } else {
                            here
                        }
                    },
                }
            },
        }
    }
}

/// The commands of a command table in the text `s`.
pub open spec fn command_entries(s: Seq<char>) -> Seq<Seq<char>> {
    command_entries_from(s, 0)
}

/// The command names of a project whose C files hold the texts `files`:
/// those of every file in turn, each name once.
pub open spec fn project_commands(files: Seq<Seq<char>>) -> Seq<Seq<char>> {
    first_occurrences(files.map_values(|f: Seq<char>| command_entries(f)).flatten())
}

/// A character that a command name may hold.
fn command_char(c: char) -> (b: bool)
    ensures
        b == is_command_char(c),
{
    char_is_digit(c) || char_is_upper(c) || char_is_lower(c) || c == '_' || c == '-'
}

/// Every character of `c[lo..hi]` may stand in a command name.
fn command_chars(c: &Vec<char>, lo: usize, hi: usize) -> (b: bool)
    requires
        lo <= hi <= c@.len(),
    ensures
        b == forall|i: int| lo <= i < hi ==> is_command_char(#[trigger] c@[i]),
{
    let mut k = lo;
    while k < hi
        invariant
            lo <= k <= hi <= c@.len(),
            forall|i: int| lo <= i < k ==> is_command_char(#[trigger] c@[i]),
        decreases hi - k,
    {
        if !command_char(c[k]) {
            return false;
        }
        k += 1;
    }
    true
}

/// The command that the block `c[lo..hi]` declares.
fn entry_in(c: &Vec<char>, lo: usize, hi: usize) -> (r: Option<String>)
    requires
        lo <= hi <= c@.len(),
        byte_len(c@) <= usize::MAX,
    ensures
        r.deep_view() == table_entry(c@.subrange(lo as int, hi as int)),
{
    let ghost block = c@.subrange(lo as int, hi as int);
    proof {
        lemma_find_char_bounds(block, '"');
    }
    let q1 = match find_char_in(c, lo, hi, '"') {
        Some(q) => q,
        None => return None,
    };
    let s1 = lo + q1 + 1;
    let ghost rest = c@.subrange(s1 as int, hi as int);
    assert(block.subrange(q1 + 1, block.len() as int) =~= rest);
    proof {
        lemma_find_char_bounds(rest, '"');
    }
    let q2 = match find_char_in(c, s1, hi, '"') {
        Some(q) => q,
        None => return None,
    };
    let e1 = s1 + q2;
    assert(rest.take(q2 as int) =~= c@.subrange(s1 as int, e1 as int));
    let ghost after = c@.subrange(e1 + 1, hi as int);
    assert(rest.subrange(q2 + 1, rest.len() as int) =~= after);
    proof {
        lemma_find_char_bounds(after, ',');
    }
    let m = match find_char_in(c, e1 + 1, hi, ',') {
        Some(m) => m,
        None => return None,
    };
    let ghost tail = c@.subrange(e1 + 1 + m + 1, hi as int);
    assert(after.subrange(m + 1, after.len() as int) =~= tail);
    let (ta, tb) = trim_range(c, e1 + 1 + m + 1, hi);
    let ghost ac = c@.subrange(ta as int, tb as int);
    let mut w = ta;
    while w < tb && word_char(c[w])
        invariant
            ta <= w <= tb <= c@.len(),
            ac == c@.subrange(ta as int, tb as int),
            word_end(ac, 0) == word_end(ac, (w - ta) as int),
        decreases tb - w,
    {
        assert(ac[w - ta] == c@[w as int]);
        w += 1;
    }
    if w < tb {
        assert(ac[w - ta] == c@[w as int]);
    }
    assert(word_end(ac, 0) == w - ta);
    if w == ta || e1 == s1 {
        return None;
    }
    if byte_len_of(c, s1, e1) > 16 {
        return None;
    }
    let ghost cmd = c@.subrange(s1 as int, e1 as int);
    if !command_chars(c, s1, e1) {
        let ghost k = choose|k: int| s1 <= k < e1 && !is_command_char(c@[k]);
        assert(!is_command_char(cmd[k - s1]));
        return None;
    }
    assert forall|i: int| 0 <= i < cmd.len() implies is_command_char(#[trigger] cmd[i]) by {
        assert(cmd[i] == c@[s1 + i]);
    }
    Some(string_of(c, s1, e1))
}

/// The commands of a command table in the text `content`.
fn parse_command_table_entries(content: &str) -> (r: Vec<String>)
    ensures
        r.deep_view() == command_entries(content@),
{
    let _ = crate::text::str_byte_len(content);
    let c = chars_of(content);
    let n = c.len();
    let mut out: Vec<String> = Vec::new();
    let mut from: usize = 0;
    while from <= n
        invariant
            0 <= from <= n,
            n == c@.len(),
            c@ == content@,
            byte_len(c@) <= usize::MAX,
            command_entries(c@) == out.deep_view() + command_entries_from(c@, from as int),
        decreases n - from,
    {
        let ghost sub = c@.subrange(from as int, n as int);
        proof {
            lemma_find_char_bounds(sub, '{');
        }
        let p = match find_char_in(c.as_slice(), from, n, '{') {
            Some(p) => p,
            None => {
                assert(out.deep_view() + Seq::<Seq<char>>::empty() =~= out.deep_view());
                return out;
            },
        };
        let a = from + p;
        let ghost sub2 = c@.subrange(a as int, n as int);
        proof {
            lemma_find_char_bounds(sub2, '}');
        }
        let q = match find_char_in(c.as_slice(), a, n, '}') {
            Some(q) => q,
            None => {
                assert(out.deep_view() + Seq::<Seq<char>>::empty() =~= out.deep_view());
                return out;
            },
        };
        let ghost old_out = out.deep_view();
        match entry_in(&c, a, a + q + 1) {
            Some(cmd) => {
                out.push(cmd);
                assert(out.deep_view() =~= old_out + seq![cmd@]);
            },
            None => {
                assert(out.deep_view() =~= old_out);
            },
        }
        let ghost here = match table_entry(c@.subrange(a as int, a + q + 1)) {
            Some(cmd) => seq![cmd],
            None => Seq::<Seq<char>>::empty(),
        };
        assert(out.deep_view() =~= old_out + here);
        assert(command_entries_from(c@, from as int) == here + command_entries_from(c@, a + q + 1));
        assert(old_out + (here + command_entries_from(c@, a + q + 1)) =~= (old_out + here)
            + command_entries_from(c@, a + q + 1));
        from = a + q + 1;
    }
    out
}

/// The command names of a project whose C files hold the texts `files`,
/// each name once, in the order in which they first occur.
pub fn extract_project_command_names(files: &[String]) -> (r: Vec<String>)
    ensures
        r.deep_view() == project_commands(files@.map_values(|f: String| f@)),
{
    let ghost fs = files@.map_values(|f: String| f@);
    let ghost per = fs.map_values(|f: Seq<char>| command_entries(f));
    let mut out: Vec<String> = Vec::new();
    let mut f: usize = 0;
    assert(per.take(0).flatten() =~= Seq::<Seq<char>>::empty());
    while f < files.len()
        invariant
            0 <= f <= files@.len(),
            fs == files@.map_values(|f: String| f@),
            per == fs.map_values(|f: Seq<char>| command_entries(f)),
            out.deep_view() == first_occurrences(per.take(f as int).flatten()),
        decreases files.len() - f,
    {
        let entries = parse_command_table_entries(files[f].as_str());
        let ghost done = per.take(f as int).flatten();
        let mut j: usize = 0;
        while j < entries.len()
            invariant
                0 <= j <= entries@.len(),
                out.deep_view() == first_occurrences(done + entries.deep_view().take(j as int)),
            decreases entries.len() - j,
        {
            let ghost before = done + entries.deep_view().take(j as int);
            assert(done + entries.deep_view().take(j + 1) =~= before.push(entries.deep_view()[j as int]));
            assert(before.push(entries.deep_view()[j as int]).drop_last() =~= before);
            assert(entries.deep_view()[j as int] == entries@[j as int]@);
            if !contains_string(&out, &entries[j]) {
                out.push(entries[j].clone());
                assert(out.deep_view() =~= first_occurrences(before).push(entries.deep_view()[j as int]));
            }
            j += 1;
        }
        proof {
            assert(entries.deep_view().take(entries@.len() as int) =~= entries.deep_view());
            assert(per.take(f + 1) =~= per.take(f as int).push(per[f as int]));
            per.take(f as int).lemma_flatten_push(per[f as int]);
        }
        f += 1;
    }
    assert(per.take(files@.len() as int) =~= per);
    out
}

} // verus!
