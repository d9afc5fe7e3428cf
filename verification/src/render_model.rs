//! A source file as numbered lines, each ranked for display: the
//! declaration of the variable in view, its uses, user code, or generated
//! code.
use vstd::prelude::*;
use crate::marker_scan::{in_some_region, is_byte_in_user_region, regions_view, UserRegion};
use crate::syntax::lemma_char_bytes;
use crate::text::{byte_len, char_utf8_len, chars_of, find_char, lemma_encode_concat, lemma_find_char_bounds, string_of, strip_cr};

verus! {

/// How a line is drawn.
#[derive(Debug, Clone, Copy, PartialEq, Eq, Structural)]
pub enum LineTier {
    Generated,
    Normal,
    Declaration,
    Usage,
}

/// One line of the file.
#[derive(Debug, Clone, PartialEq, Eq)]
pub struct RenderedLine {
    /// One-based.
    pub line_number: usize,
    /// The line without its line ending.
    pub text: String,
    pub tier: LineTier,
}

/// A line of a text: its number, the bytes it spans with its line feed,
/// and its text without `\n` or a trailing `\r`.
pub struct LineRec {
    pub number: int,
    pub start: int,
    pub end: int,
    pub text: Seq<char>,
}

/// The lines of `s`, whose first byte is byte `base` of the file and whose
/// first line is line `num`: split after each `\n`, with no empty line
/// after a final `\n`.
pub open spec fn line_records(s: Seq<char>, base: int, num: int) -> Seq<LineRec>
    decreases s.len(),
{
    if s.len() == 0 {
        seq![]
    } else {
        match find_char(s, '\n') {
            Some(i) => if 0 <= i < s.len() {
                seq![
                    LineRec {
                        number: num,
                        start: base,
                        end: base + byte_len(s.take(i + 1)),
                        text: strip_cr(s.take(i)),
                    },
                ] + line_records(s.skip(i + 1), base + byte_len(s.take(i + 1)), num + 1)
            } else {
                seq![]
            },
            None => seq![
                LineRec { number: num, start: base, end: base + byte_len(s), text: strip_cr(s) },
            ],
        }
    }
}

/// The byte span `[start, end)` shares a byte with `r`.
pub open spec fn touches(start: int, end: int, r: (usize, usize)) -> bool {
    !(end <= r.0 || start >= r.1)
}

/// The tier of a line: it touches the declaration; else it touches a use;
/// else it starts inside a user code region; else it is generated.
pub open spec fn tier_of(
    l: LineRec,
    regions: Seq<crate::marker_scan::RegionSpec>,
    decl: (usize, usize),
    uses: Seq<(usize, usize)>,
) -> LineTier {
    if touches(l.start, l.end, decl) {
        LineTier::Declaration
    } else if exists|k: int| 0 <= k < uses.len() && touches(l.start, l.end, #[trigger] uses[k]) {
        LineTier::Usage
    } else if 0 <= l.start <= usize::MAX && in_some_region(l.start as usize, regions) {
        LineTier::Normal
    } else {
        LineTier::Generated
    }
}

/// The value of a rendered line.
pub struct RenderedSpec {
    pub line_number: int,
    pub text: Seq<char>,
    pub tier: LineTier,
}

impl View for RenderedLine {
    type V = RenderedSpec;

    open spec fn view(&self) -> RenderedSpec {
        RenderedSpec { line_number: self.line_number as int, text: self.text@, tier: self.tier }
    }
}

pub open spec fn rendered_view(v: Seq<RenderedLine>) -> Seq<RenderedSpec> {
    v.map_values(|l: RenderedLine| l@)
}

/// The rendering of the lines `ls`.
pub open spec fn render(
    ls: Seq<LineRec>,
    regions: Seq<crate::marker_scan::RegionSpec>,
    decl: (usize, usize),
    uses: Seq<(usize, usize)>,
) -> Seq<RenderedSpec> {
    ls.map_values(
        |l: LineRec| RenderedSpec { line_number: l.number, text: l.text, tier: tier_of(l, regions, decl, uses) },
    )
}

/// The span of bytes `[start, end)` touches one of `uses`.
fn touches_any(start: usize, end: usize, uses: &[(usize, usize)]) -> (b: bool)
    ensures
        b == exists|k: int| 0 <= k < uses@.len() && touches(start as int, end as int, #[trigger] uses@[k]),
{
    let mut k: usize = 0;
    while k < uses.len()
        invariant
            0 <= k <= uses@.len(),
            forall|j: int| 0 <= j < k ==> !touches(start as int, end as int, #[trigger] uses@[j]),
        decreases uses.len() - k,
    {
        let u = uses[k];
        if !(end <= u.0 || start >= u.1) {
            assert(touches(start as int, end as int, uses@[k as int]));
            return true;
        }
        k += 1;
    }
    false
}

/// The lines of `source`, numbered from one, each with its tier.
pub fn build_source_render_model_from_str(
    source: &str,
    regions: &[UserRegion],
    declaration_byte_range: (usize, usize),
    usage_byte_ranges: &[(usize, usize)],
) -> (out: Vec<RenderedLine>)
    requires
        byte_len(source@) < usize::MAX,
    ensures
        rendered_view(out@) == render(
            line_records(source@, 0, 1),
            regions_view(regions@),
            declaration_byte_range,
            usage_byte_ranges@,
        ),
{
    let c = chars_of(source);
    let n = c.len();
    let total = crate::text::str_byte_len(source);
    let ghost s = c@;
    let ghost rs = regions_view(regions@);
    let ghost decl = declaration_byte_range;
    let ghost uses = usage_byte_ranges@;
    let mut out: Vec<RenderedLine> = Vec::new();
    let mut i: usize = 0;
    let mut b: usize = 0;
    let mut number: usize = 1;
    proof {
        assert(s.skip(0) =~= s);
        assert(s.take(0) =~= Seq::<char>::empty());
        assert(vstd::utf8::encode_utf8(Seq::<char>::empty()) =~= Seq::<u8>::empty());
        crate::syntax::lemma_byte_len_ge_len(s);
    }
    while i < n
        invariant
            0 <= i <= n,
            n == s.len(),
            s == source@,
            s == c@,
            total == byte_len(s),
            byte_len(s) < usize::MAX,
            s.len() <= byte_len(s),
            b == byte_len(s.take(i as int)),
            1 <= number <= i + 1,
            rs == regions_view(regions@),
            uses == usage_byte_ranges@,
            decl == declaration_byte_range,
            render(line_records(s, 0, 1), rs, decl, uses) == rendered_view(out@) + render(
                line_records(s.skip(i as int), b as int, number as int),
                rs,
                decl,
                uses,
            ),
        decreases n - i,
    {
        let ghost t = s.skip(i as int);
        let mut j = i;
        let mut bj = b;
        while j < n && c[j] != '\n'
            invariant
                i <= j <= n,
                n == s.len(),
                s == c@,
                t == s.skip(i as int),
                forall|k: int| i <= k < j ==> s[k] != '\n',
                bj == byte_len(s.take(j as int)),
                byte_len(s) < usize::MAX,
            decreases n - j,
        {
            let w = char_utf8_len(c[j]);
            proof {
                lemma_encode_concat(s.take(j as int), seq![s[j as int]]);
                assert(s.take(j + 1) =~= s.take(j as int) + seq![s[j as int]]);
                crate::text::lemma_byte_len_subrange(s, 0, j + 1);
                assert(s.subrange(0, j + 1) =~= s.take(j + 1));
            }
            bj = bj + w;
            j += 1;
        }
        proof {
            lemma_find_char_bounds(t, '\n');
            lemma_encode_concat(s.take(i as int), t.take(j - i));
            assert(s.take(i as int) + t.take(j - i) =~= s.take(j as int));
        }
        let (end_char, end_byte) = if j < n {
            proof {
                assert(t[j - i] == s[j as int]);
                lemma_encode_concat(s.take(j as int), seq![s[j as int]]);
                assert(s.take(j + 1) =~= s.take(j as int) + seq![s[j as int]]);
                lemma_encode_concat(s.take(i as int), t.take(j - i + 1));
                assert(s.take(i as int) + t.take(j - i + 1) =~= s.take(j + 1));
                crate::text::lemma_byte_len_subrange(s, 0, j + 1);
                assert(s.subrange(0, j + 1) =~= s.take(j + 1));
                crate::syntax::lemma_newline_byte();
                assert(s[j as int] == '\n');
                assert(find_char(t, '\n') == Some((j - i) as int));
            }
            (j + 1, bj + 1)
        } else {
            proof {
                assert(find_char(t, '\n') is None);
                assert(t.take(j - i) =~= t);
                assert(s.take(j as int) =~= s);
            }
            (j, bj)
        };
        let k = if j > i && c[j - 1] == '\r' {
            j - 1
        } else {
            j
        };
        let text = string_of(&c, i, k);
        proof {
            assert(t.take(j - i) =~= s.subrange(i as int, j as int));
            if j > i && s[j - 1] == '\r' {
                assert(s.subrange(i as int, j as int).drop_last() =~= s.subrange(i as int, k as int));
            }
        }
        assert(text@ == strip_cr(t.take(j - i)));
        let tier = if !(end_byte <= declaration_byte_range.0 || b >= declaration_byte_range.1) {
            LineTier::Declaration
        } else if touches_any(b, end_byte, usage_byte_ranges) {
            LineTier::Usage
        } else if is_byte_in_user_region(b, regions) {
            LineTier::Normal
        } else {
            LineTier::Generated
        };
        let ghost rec = LineRec {
            number: number as int,
            start: b as int,
            end: end_byte as int,
            text: text@,
        };
        assert(tier == tier_of(rec, rs, decl, uses));
        let ghost prev = rendered_view(out@);
        out.push(RenderedLine { line_number: number, text, tier });
        assert(rendered_view(out@) =~= prev.push(
            RenderedSpec { line_number: number as int, text: rec.text, tier: tier_of(rec, rs, decl, uses) },
        ));
        proof {
            if j < n {
                assert(t.skip(j - i + 1) =~= s.skip(j + 1));
                assert(line_records(t, b as int, number as int) == seq![rec] + line_records(
                    s.skip(j + 1),
                    end_byte as int,
                    number + 1,
                ));
                assert(render(seq![rec] + line_records(s.skip(j + 1), end_byte as int, number + 1), rs, decl, uses)
                    =~= seq![RenderedSpec { line_number: number as int, text: rec.text, tier: tier_of(rec, rs, decl, uses) }]
                        + render(line_records(s.skip(j + 1), end_byte as int, number + 1), rs, decl, uses));
            } else {
                assert(line_records(t, b as int, number as int) == seq![rec]);
                assert(s.skip(j as int) =~= Seq::<char>::empty());
                assert(render(seq![rec], rs, decl, uses) =~= seq![RenderedSpec { line_number: number as int, text: rec.text, tier: tier_of(rec, rs, decl, uses) }]);
                assert(render(line_records(s.skip(j as int), end_byte as int, number + 1), rs, decl, uses) =~= Seq::<RenderedSpec>::empty());
            }
        }
        i = end_char;
        b = end_byte;
        number = number + 1;
    }
    proof {
        assert(s.skip(i as int) =~= Seq::<char>::empty());
        assert(render(line_records(s.skip(i as int), b as int, number as int), rs, decl, uses) =~= Seq::<RenderedSpec>::empty());
        assert(rendered_view(out@) + Seq::<RenderedSpec>::empty() =~= rendered_view(out@));
    }
    out
}

} // verus!
