//! What title-casing an identifier keeps: the words of a title-cased
//! identifier read as one word each, title-casing them again changes
//! nothing, and the letters and digits stay in order.
use vstd::prelude::*;
use crate::labels::{
    all_words, camel_state, camel_words, capitalize, find_sep_from, ident_parts, is_ident_sep, title_case,
    trim_end_calls, word_boundary,
};
use crate::text::{ends_with, is_ascii_alnum, is_ascii_digit, is_ascii_lower, is_ascii_upper, join};
use crate::unicode::{ascii_upper_of, uppercase};

verus! {

/// No new word starts anywhere inside `s`.
pub open spec fn quiet(s: Seq<char>) -> bool {
    forall|i: int| 1 <= i < s.len() ==> !#[trigger] word_boundary(s, i)
}

/// Every character of `s` is an ASCII letter or digit.
pub open spec fn all_alnum(s: Seq<char>) -> bool {
    forall|i: int| 0 <= i < s.len() ==> is_ascii_alnum(#[trigger] s[i])
}

/// The words `ws` one after another.
pub open spec fn concat_all(ws: Seq<Seq<char>>) -> Seq<char>
    decreases ws.len(),
{
    if ws.len() == 0 {
        seq![]
    } else {
        concat_all(ws.drop_last()) + ws.last()
    }
}

/// Each of `ws` is a non-empty word of ASCII letters and digits in which
/// no new word starts.
pub open spec fn good_words(ws: Seq<Seq<char>>) -> bool {
    forall|k: int| 0 <= k < ws.len() ==> #[trigger] ws[k].len() > 0 && quiet(ws[k]) && all_alnum(ws[k])
}

proof fn lemma_concat_one(w: Seq<char>)
    ensures
        concat_all(seq![w]) == w,
{
    assert(seq![w].drop_last() =~= Seq::<Seq<char>>::empty());
    assert(seq![w].last() == w);
    assert(concat_all(Seq::<Seq<char>>::empty()) == Seq::<char>::empty());
    assert(Seq::<char>::empty() + w =~= w);
}

proof fn lemma_concat_all_append(a: Seq<Seq<char>>, b: Seq<Seq<char>>)
    ensures
        concat_all(a + b) == concat_all(a) + concat_all(b),
    decreases b.len(),
{
    if b.len() == 0 {
        assert(a + b =~= a);
        assert(concat_all(b) =~= seq![]);
        assert(concat_all(a) + concat_all(b) =~= concat_all(a));
    } else {
        assert((a + b).drop_last() =~= a + b.drop_last());
        assert((a + b).last() == b.last());
        lemma_concat_all_append(a, b.drop_last());
        assert(concat_all(a + b) =~= concat_all(a) + concat_all(b));
    }
}

/// A stretch of `p` inside which `p` starts no new word starts none of its own.
proof fn lemma_quiet_sub(p: Seq<char>, a: int, b: int)
    requires
        0 <= a <= b <= p.len(),
        forall|m: int| a < m < b ==> !#[trigger] word_boundary(p, m),
    ensures
        quiet(p.subrange(a, b)),
{
    let w = p.subrange(a, b);
    assert forall|i: int| 1 <= i < w.len() implies !#[trigger] word_boundary(w, i) by {
        assert(w[i - 1] == p[a + i - 1]);
        assert(w[i] == p[a + i]);
        if i + 1 < w.len() {
            assert(w[i + 1] == p[a + i + 1]);
        }
        assert(!word_boundary(p, a + i));
    }
}

/// What the camel-case walk over `p` has made after `i` characters: words
/// that tile the start of `p`, and a current word that ends at `i`, inside
/// which `p` starts no new word.
proof fn lemma_camel_state(p: Seq<char>, i: int)
    requires
        0 <= i <= p.len(),
        all_alnum(p),
    ensures
        ({
            let (ws, cur) = camel_state(p, i);
            &&& cur.len() <= i
            &&& cur == p.subrange(i - cur.len(), i)
            &&& (i > 0 ==> cur.len() > 0)
            &&& forall|m: int| i - cur.len() < m < i ==> !#[trigger] word_boundary(p, m)
            &&& good_words(ws)
            &&& concat_all(ws) + cur == p.subrange(0, i)
        }),
    decreases i,
{
    if i <= 0 {
        assert(p.subrange(0, 0) =~= Seq::<char>::empty());
        assert(concat_all(Seq::<Seq<char>>::empty()) + Seq::<char>::empty() =~= Seq::<char>::empty());
    } else {
        lemma_camel_state(p, i - 1);
        let (ws0, cur0) = camel_state(p, i - 1);
        let c = p[i - 1];
        if i - 1 > 0 && word_boundary(p, i - 1) && cur0.len() > 0 {
            let a = i - 1 - cur0.len();
            lemma_quiet_sub(p, a, i - 1);
            let ws = ws0.push(cur0);
            assert(ws.drop_last() =~= ws0);
            assert forall|k: int| 0 <= k < ws.len() implies #[trigger] ws[k].len() > 0 && quiet(ws[k]) && all_alnum(
                ws[k],
            ) by {
                if k < ws0.len() {
                    assert(ws[k] == ws0[k]);
                } else {
                    assert(ws[k] == cur0);
                    assert forall|j: int| 0 <= j < cur0.len() implies is_ascii_alnum(#[trigger] cur0[j]) by {
                        assert(cur0[j] == p[a + j]);
                    }
                }
            }
            assert(concat_all(ws) == concat_all(ws0) + cur0);
            assert(p.subrange(0, i) =~= p.subrange(0, i - 1).push(c));
            assert(concat_all(ws) + seq![c] =~= p.subrange(0, i));
            assert(seq![c] =~= p.subrange(i - 1, i));
        } else {
            let cur = cur0.push(c);
            assert(cur =~= p.subrange(i - cur.len(), i));
            assert(p.subrange(0, i) =~= p.subrange(0, i - 1).push(c));
            assert(concat_all(ws0) + cur =~= p.subrange(0, i));
        }
    }
}

/// The camel-case words of a non-empty run of letters and digits are good
/// words, and together they are the run.
proof fn lemma_camel_words(p: Seq<char>)
    requires
        p.len() > 0,
        all_alnum(p),
    ensures
        good_words(camel_words(p)),
        concat_all(camel_words(p)) == p,
{
    lemma_camel_state(p, p.len() as int);
    let (ws, cur) = camel_state(p, p.len() as int);
    assert(p.subrange(0, p.len() as int) =~= p);
    let cw = ws.push(cur);
    assert(cw.drop_last() =~= ws);
    let a = p.len() - cur.len();
    lemma_quiet_sub(p, a, p.len() as int);
    assert forall|k: int| 0 <= k < cw.len() implies #[trigger] cw[k].len() > 0 && quiet(cw[k]) && all_alnum(cw[k]) by {
        if k < ws.len() {
            assert(cw[k] == ws[k]);
        } else {
            assert(cw[k] == cur);
            assert forall|j: int| 0 <= j < cur.len() implies is_ascii_alnum(#[trigger] cur[j]) by {
                assert(cur[j] == p[a + j]);
            }
        }
    }
}

/// The code of `c` with its case folded: a capital counts as its small
/// letter.
pub open spec fn fold_code(c: char) -> int {
    if is_ascii_upper(c) {
        c as int + 32
    } else {
        c as int
    }
}

/// The characters of `s` other than spaces and underscores, in order and
/// with their case folded.
pub open spec fn letters(s: Seq<char>) -> Seq<int>
    decreases s.len(),
{
    if s.len() == 0 {
        seq![]
    } else if s.last() == ' ' || s.last() == '_' {
        letters(s.drop_last())
    } else {
        letters(s.drop_last()).push(fold_code(s.last()))
    }
}

proof fn lemma_letters_append(a: Seq<char>, b: Seq<char>)
    ensures
        letters(a + b) == letters(a) + letters(b),
    decreases b.len(),
{
    if b.len() == 0 {
        assert(a + b =~= a);
        assert(letters(a) + letters(b) =~= letters(a));
    } else {
        assert((a + b).drop_last() =~= a + b.drop_last());
        assert((a + b).last() == b.last());
        lemma_letters_append(a, b.drop_last());
        assert(letters(a + b) =~= letters(a) + letters(b));
    }
}

/// The words of parts made of letters and digits are good words, and
/// together they are the parts.
proof fn lemma_all_words(ps: Seq<Seq<char>>)
    requires
        forall|k: int| 0 <= k < ps.len() ==> all_alnum(#[trigger] ps[k]),
    ensures
        good_words(all_words(ps)),
        concat_all(all_words(ps)) == concat_all(ps),
    decreases ps.len(),
{
    if ps.len() > 0 {
        let q = ps.drop_last();
        assert forall|k: int| 0 <= k < q.len() implies all_alnum(#[trigger] q[k]) by {
            assert(q[k] == ps[k]);
        }
        lemma_all_words(q);
        let a = all_words(q);
        let l = ps.last();
        assert(all_alnum(ps[ps.len() - 1]));
        let b = if l.len() == 0 {
            Seq::<Seq<char>>::empty()
        } else {
            camel_words(l)
        };
        if l.len() == 0 {
            assert(concat_all(b) =~= Seq::<char>::empty());
        } else {
            lemma_camel_words(l);
        }
        assert(all_words(ps) == a + b);
        lemma_concat_all_append(a, b);
        assert(concat_all(b) == l);
        assert forall|k: int| 0 <= k < (a + b).len() implies #[trigger] (a + b)[k].len() > 0 && quiet((a + b)[k])
            && all_alnum((a + b)[k]) by {
            if k < a.len() {
                assert((a + b)[k] == a[k]);
            } else {
                assert((a + b)[k] == b[k - a.len()]);
            }
        }
    }
}

proof fn lemma_find_sep(s: Seq<char>, j: int)
    requires
        0 <= j,
    ensures
        match find_sep_from(s, j) {
            Some(i) => j <= i < s.len() && is_ident_sep(s[i]) && forall|m: int| j <= m < i ==> !is_ident_sep(
                #[trigger] s[m],
            ),
            None => forall|m: int| j <= m < s.len() ==> !is_ident_sep(#[trigger] s[m]),
        },
    decreases s.len() - j,
{
    if j < s.len() && !is_ident_sep(s[j]) {
        lemma_find_sep(s, j + 1);
    }
}

/// An identifier of letters, digits and underscores.
pub open spec fn plain_ident(s: Seq<char>) -> bool {
    forall|i: int| 0 <= i < s.len() ==> is_ascii_alnum(#[trigger] s[i]) || s[i] == '_'
}

/// The parts of a plain identifier are made of letters and digits, and
/// hold its letters and digits.
proof fn lemma_parts(s: Seq<char>)
    requires
        plain_ident(s),
    ensures
        forall|k: int| 0 <= k < ident_parts(s).len() ==> all_alnum(#[trigger] ident_parts(s)[k]),
        letters(s) == letters(concat_all(ident_parts(s))),
    decreases s.len(),
{
    lemma_find_sep(s, 0);
    match find_sep_from(s, 0) {
        Some(i) => {
            let head = s.subrange(0, i);
            let rest = s.subrange(i + 1, s.len() as int);
            assert(plain_ident(rest)) by {
                assert forall|m: int| 0 <= m < rest.len() implies is_ascii_alnum(#[trigger] rest[m]) || rest[m]
                    == '_' by {
                    assert(rest[m] == s[i + 1 + m]);
                }
            }
            lemma_parts(rest);
            assert(all_alnum(head)) by {
                assert forall|m: int| 0 <= m < head.len() implies is_ascii_alnum(#[trigger] head[m]) by {
                    assert(head[m] == s[m]);
                    assert(!is_ident_sep(s[m]));
                }
            }
            let qs = ident_parts(rest);
            assert(ident_parts(s) == seq![head] + qs);
            assert forall|k: int| 0 <= k < ident_parts(s).len() implies all_alnum(#[trigger] ident_parts(s)[k]) by {
                if k > 0 {
                    assert(ident_parts(s)[k] == qs[k - 1]);
                }
            }
            lemma_concat_all_append(seq![head], qs);
            lemma_concat_one(head);
            assert(s[i] == '_');
            assert(s =~= head + seq![s[i]] + rest);
            lemma_letters_append(head + seq![s[i]], rest);
            lemma_letters_append(head, seq![s[i]]);
            assert(seq![s[i]].drop_last() =~= Seq::<char>::empty());
            assert(seq![s[i]].last() == '_');
            assert(letters(Seq::<char>::empty()) == Seq::<int>::empty());
            assert(letters(seq![s[i]]) =~= Seq::<int>::empty());
            lemma_letters_append(head, concat_all(qs));
            assert(letters(s) =~= letters(concat_all(ident_parts(s))));
        },
        None => {
            assert(ident_parts(s) == seq![s]);
            lemma_concat_one(s);
            assert forall|k: int| 0 <= k < ident_parts(s).len() implies all_alnum(#[trigger] ident_parts(s)[k]) by {
                assert(ident_parts(s)[k] == s);
                assert forall|m: int| 0 <= m < s.len() implies is_ascii_alnum(#[trigger] s[m]) by {
                    assert(!is_ident_sep(s[m]));
                }
            }
        },
    }
}

/// What std's upper-casing makes of `c` is the one character that ASCII
/// upper-casing makes of it.
pub open spec fn upper_known(c: char) -> bool {
    uppercase(seq![c]).len() == 1 && ascii_upper_of(c, uppercase(seq![c])[0])
}

/// Every character of `w` is a capital or a digit.
pub open spec fn all_upper_digits(w: Seq<char>) -> bool {
    forall|i: int| 0 <= i < w.len() ==> is_ascii_upper(#[trigger] w[i]) || is_ascii_digit(w[i])
}

/// Capitalising a good word gives a good word with the same letters that
/// starts with no small letter and keeps every character but the first.
proof fn lemma_capitalize(w: Seq<char>)
    requires
        w.len() > 0,
        quiet(w),
        all_alnum(w),
        !all_upper_digits(w) ==> upper_known(w[0]),
    ensures
        capitalize(w).len() == w.len(),
        quiet(capitalize(w)),
        all_alnum(capitalize(w)),
        !is_ascii_lower(capitalize(w)[0]),
        letters(capitalize(w)) == letters(w),
{
    let c = capitalize(w);
    if all_upper_digits(w) {
        assert(c == w);
        assert(is_ascii_upper(w[0]) || is_ascii_digit(w[0]));
    } else {
        let w0 = w[0];
        let u = uppercase(seq![w0])[0];
        let rest = w.subrange(1, w.len() as int);
        assert(uppercase(seq![w0]) =~= seq![u]);
        assert(c == seq![u] + rest);
        assert(w =~= seq![w0] + rest);
        assert(is_ascii_alnum(w0));
        if is_ascii_lower(w0) {
            assert(is_ascii_upper(u));
            assert(fold_code(u) == fold_code(w0));
        } else {
            assert(u == w0);
        }
        assert(is_ascii_alnum(u));
        assert forall|j: int| 0 <= j < c.len() implies is_ascii_alnum(#[trigger] c[j]) by {
            if j > 0 {
                assert(c[j] == w[j]);
            }
        }
        assert forall|j: int| 1 <= j < c.len() implies !#[trigger] word_boundary(c, j) by {
            assert(c[j] == w[j]);
            if j + 1 < c.len() {
                assert(c[j + 1] == w[j + 1]);
            }
            if j >= 2 {
                assert(c[j - 1] == w[j - 1]);
                assert(!word_boundary(w, j));
            } else if u == w0 {
                assert(!word_boundary(w, j));
            } else {
                assert(!word_boundary(w, 1));
            }
        }
        lemma_letters_append(seq![u], rest);
        lemma_letters_append(seq![w0], rest);
        assert(seq![u].drop_last() =~= Seq::<char>::empty());
        assert(seq![w0].drop_last() =~= Seq::<char>::empty());
        assert(letters(Seq::<char>::empty()) == Seq::<int>::empty());
        assert(seq![u].last() == u);
        assert(seq![w0].last() == w0);
        assert(letters(seq![u]) =~= letters(seq![w0]));
    }
}

/// Each of `cs` is a non-empty word of letters and digits in which no new
/// word starts; `join` puts them together with single spaces.
proof fn lemma_join(cs: Seq<Seq<char>>)
    requires
        good_words(cs),
    ensures
        quiet(join(cs, " "@)),
        forall|i: int| 0 <= i < join(cs, " "@).len() ==> is_ascii_alnum(#[trigger] join(cs, " "@)[i]) || join(cs, " "@)[i]
            == ' ',
        cs.len() > 0 ==> join(cs, " "@).len() > 0 && join(cs, " "@)[0] == cs[0][0],
        letters(join(cs, " "@)) == letters(concat_all(cs)),
    decreases cs.len(),
{
    if cs.len() == 0 {
        assert(join(cs, " "@) =~= Seq::<char>::empty());
    } else if cs.len() == 1 {
        assert(cs =~= seq![cs[0]]);
        lemma_concat_one(cs[0]);
    } else {
        let q = cs.drop_last();
        assert forall|k: int| 0 <= k < q.len() implies #[trigger] q[k].len() > 0 && quiet(q[k]) && all_alnum(q[k]) by {
            assert(q[k] == cs[k]);
        }
        lemma_join(q);
        let a = join(q, " "@);
        let b = cs.last();
        assert(b == cs[cs.len() - 1]);
        let r = a + " "@ + b;
        assert(join(cs, " "@) == r);
        assert(" "@.len() == 1 && " "@[0] == ' ') by {
            reveal_strlit(" ");
        }
        let n = a.len();
        assert(q[0] == cs[0]);
        assert forall|i: int| 0 <= i < r.len() implies is_ascii_alnum(#[trigger] r[i]) || r[i] == ' ' by {
            if i > n {
                assert(r[i] == b[i - n - 1]);
            } else if i < n {
                assert(r[i] == a[i]);
            }
        }
        assert forall|i: int| 1 <= i < r.len() implies !#[trigger] word_boundary(r, i) by {
            if i < n {
                assert(r[i] == a[i]);
                assert(r[i - 1] == a[i - 1]);
                if i + 1 < n {
                    assert(r[i + 1] == a[i + 1]);
                }
                assert(!word_boundary(a, i));
            } else if i == n {
                assert(r[i] == ' ');
            } else if i == n + 1 {
                assert(r[i - 1] == ' ');
            } else {
                let j = i - n - 1;
                assert(r[i] == b[j]);
                assert(r[i - 1] == b[j - 1]);
                if i + 1 < r.len() {
                    assert(r[i + 1] == b[j + 1]);
                }
                assert(!word_boundary(b, j));
            }
        }
        assert(r[0] == a[0]);
        lemma_letters_append(a + " "@, b);
        lemma_letters_append(a, " "@);
        assert(" "@.drop_last() =~= Seq::<char>::empty());
        assert(letters(Seq::<char>::empty()) == Seq::<int>::empty());
        assert(letters(" "@) =~= Seq::<int>::empty());
        lemma_letters_append(concat_all(q), b);
        assert(concat_all(cs) == concat_all(q) + b);
        assert(letters(r) =~= letters(concat_all(cs)));
    }
}

/// Capitalising each word keeps the letters of the words together.
proof fn lemma_letters_caps(ws: Seq<Seq<char>>)
    requires
        good_words(ws),
        forall|k: int| 0 <= k < ws.len() ==> !all_upper_digits(#[trigger] ws[k]) ==> upper_known(ws[k][0]),
    ensures
        good_words(ws.map_values(|w: Seq<char>| capitalize(w))),
        letters(concat_all(ws.map_values(|w: Seq<char>| capitalize(w)))) == letters(concat_all(ws)),
        ws.len() > 0 ==> !is_ascii_lower(ws.map_values(|w: Seq<char>| capitalize(w))[0][0]),
    decreases ws.len(),
{
    let cs = ws.map_values(|w: Seq<char>| capitalize(w));
    if ws.len() > 0 {
        let q = ws.drop_last();
        assert forall|k: int| 0 <= k < q.len() implies #[trigger] q[k].len() > 0 && quiet(q[k]) && all_alnum(q[k]) by {
            assert(q[k] == ws[k]);
        }
        assert forall|k: int| 0 <= k < q.len() implies !all_upper_digits(#[trigger] q[k]) ==> upper_known(q[k][0]) by {
            assert(q[k] == ws[k]);
        }
        lemma_letters_caps(q);
        let l = ws.last();
        assert(l == ws[ws.len() - 1]);
        lemma_capitalize(l);
        assert(cs.drop_last() =~= q.map_values(|w: Seq<char>| capitalize(w)));
        assert(cs.last() == capitalize(l));
        lemma_letters_append(concat_all(cs.drop_last()), capitalize(l));
        lemma_letters_append(concat_all(q), l);
        assert forall|k: int| 0 <= k < cs.len() implies #[trigger] cs[k].len() > 0 && quiet(cs[k]) && all_alnum(cs[k]) by {
            if k < q.len() {
                assert(cs[k] == cs.drop_last()[k]);
            } else {
                assert(cs[k] == capitalize(l));
            }
        }
        lemma_capitalize(ws[0]);
    }
}

/// The camel-case words of a non-empty text in which no new word starts
/// are the text alone.
proof fn lemma_camel_quiet(p: Seq<char>, i: int)
    requires
        quiet(p),
        0 <= i <= p.len(),
    ensures
        camel_state(p, i) == (Seq::<Seq<char>>::empty(), p.subrange(0, i)),
    decreases i,
{
    if i <= 0 {
        assert(p.subrange(0, 0) =~= Seq::<char>::empty());
    } else {
        lemma_camel_quiet(p, i - 1);
        if i - 1 > 0 {
            assert(!word_boundary(p, i - 1));
        }
        assert(p.subrange(0, i) =~= p.subrange(0, i - 1).push(p[i - 1]));
    }
}

/// An identifier of letters, digits and underscores, with or without one
/// trailing `()`.
pub open spec fn call_ident(s: Seq<char>) -> bool {
    ||| plain_ident(s)
    ||| s.len() >= 2 && s.subrange(s.len() - 2, s.len() as int) == "()"@ && plain_ident(s.subrange(0, s.len() - 2))
}

/// The words that title-casing `ident` capitalises.
pub open spec fn title_words(ident: Seq<char>) -> Seq<Seq<char>> {
    all_words(ident_parts(trim_end_calls(ident)))
}

/// Std's upper-casing is known for the first character of every word of
/// `ws` that capitalising changes.
pub open spec fn firsts_known(ws: Seq<Seq<char>>) -> bool {
    forall|k: int|
        0 <= k < ws.len() ==> (#[trigger] ws[k]).len() > 0 && !all_upper_digits(ws[k]) && (ws[k][0] as u32) < 128
            ==> upper_known(ws[k][0])
}

proof fn lemma_trim_calls(s: Seq<char>)
    requires
        call_ident(s),
    ensures
        plain_ident(trim_end_calls(s)),
{
    assert("()"@.len() == 2 && "()"@[0] == '(' && "()"@[1] == ')') by {
        reveal_strlit("()");
    }
    if plain_ident(s) {
        if ends_with(s, "()"@) && s.len() >= 2 {
            assert(s[s.len() - 1] == s.subrange(s.len() - 2, s.len() as int)[1]);
            assert(s[s.len() - 1] == ')');
            assert(is_ascii_alnum(s[s.len() - 1]) || s[s.len() - 1] == '_');
        }
    } else {
        let b = s.subrange(0, s.len() - 2);
        assert(ends_with(s, "()"@));
        if ends_with(b, "()"@) && b.len() >= 2 {
            assert(b[b.len() - 1] == b.subrange(b.len() - 2, b.len() as int)[1]);
            assert(is_ascii_alnum(b[b.len() - 1]) || b[b.len() - 1] == '_');
        }
        assert(trim_end_calls(s) == trim_end_calls(b));
    }
}

/// Title-casing an identifier of letters, digits and underscores (with or
/// without a trailing `()`) leaves no underscore, gives text that
/// title-casing again leaves as it is, and keeps the letters and digits
/// in order.
pub(crate) proof fn lemma_title_case_law(ident: Seq<char>)
    requires
        call_ident(ident),
        firsts_known(title_words(ident)),
        title_case(ident).len() > 0 && (title_case(ident)[0] as u32) < 128 ==> upper_known(title_case(ident)[0]),
    ensures
        !title_case(ident).contains('_'),
        title_case(title_case(ident)) == title_case(ident),
        letters(title_case(ident)) == letters(trim_end_calls(ident)),
{
    lemma_trim_calls(ident);
    let body = trim_end_calls(ident);
    lemma_parts(body);
    let ps = ident_parts(body);
    lemma_all_words(ps);
    let ws = all_words(ps);
    assert(ws == title_words(ident));
    assert forall|k: int| 0 <= k < ws.len() implies !all_upper_digits(#[trigger] ws[k]) ==> upper_known(ws[k][0]) by {
        assert(ws[k].len() > 0 && all_alnum(ws[k]));
        assert(is_ascii_alnum(ws[k][0]));
    }
    lemma_letters_caps(ws);
    let cs = ws.map_values(|w: Seq<char>| capitalize(w));
    lemma_join(cs);
    let r = join(cs, " "@);
    assert(r == title_case(ident));
    assert(!r.contains('_')) by {
        if r.contains('_') {
            let i = choose|i: int| 0 <= i < r.len() && r[i] == '_';
            assert(is_ascii_alnum(r[i]) || r[i] == ' ');
        }
    }
    assert("()"@.len() == 2 && "()"@[1] == ')') by {
        reveal_strlit("()");
    }
    if r.len() == 0 {
        let e = Seq::<char>::empty();
        assert(r =~= e);
        assert(!ends_with(e, "()"@));
        assert(trim_end_calls(e) == e);
        lemma_find_sep(e, 0);
        assert(ident_parts(e) == seq![e]);
        assert(seq![e].drop_last() =~= Seq::<Seq<char>>::empty());
        assert(seq![e].last() == e);
        assert(all_words(Seq::<Seq<char>>::empty()) == Seq::<Seq<char>>::empty());
        assert(all_words(seq![e]) =~= Seq::<Seq<char>>::empty());
        assert(all_words(seq![e]).map_values(|w: Seq<char>| capitalize(w)) =~= Seq::<Seq<char>>::empty());
        assert(title_case(e) == e);
    } else {
        assert(cs.len() > 0);
        if ends_with(r, "()"@) && r.len() >= 2 {
            assert(r[r.len() - 1] == r.subrange(r.len() - 2, r.len() as int)[1]);
            assert(is_ascii_alnum(r[r.len() - 1]) || r[r.len() - 1] == ' ');
        }
        assert(trim_end_calls(r) == r);
        lemma_find_sep(r, 0);
        if find_sep_from(r, 0) is Some {
            let i = find_sep_from(r, 0)->Some_0;
            assert(is_ascii_alnum(r[i]) || r[i] == ' ');
        }
        assert(ident_parts(r) == seq![r]);
        lemma_camel_quiet(r, r.len() as int);
        assert(r.subrange(0, r.len() as int) =~= r);
        assert(camel_words(r) =~= seq![r]);
        assert(seq![r].drop_last() =~= Seq::<Seq<char>>::empty());
        assert(seq![r].last() == r);
        assert(all_words(Seq::<Seq<char>>::empty()) == Seq::<Seq<char>>::empty());
        assert(all_words(seq![r]) =~= seq![r]);
        let c = capitalize(r);
        assert(seq![r].map_values(|w: Seq<char>| capitalize(w)) =~= seq![c]);
        assert(join(seq![c], " "@) == c);
        assert(r[0] == cs[0][0]);
        assert(is_ascii_alnum(r[0]));
        if !all_upper_digits(r) {
            let u = uppercase(seq![r[0]]);
            assert(upper_known(r[0]));
            assert(!is_ascii_lower(r[0]));
            assert(u =~= seq![r[0]]);
            assert(c =~= r);
        }
        assert(title_case(r) == c);
    }
}

} // verus!
