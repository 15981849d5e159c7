//! What the pattern libraries hold, and what is drawn of a pattern.
use crate::json::{lookup, member, JsonView};
use crate::lists::lemma_pushed;
use crate::patterns::{
    bare_hex, blank, decoded, library_in, lit_segments, pattern_names, patterns_in, points_of, segments, text_lists, traced, PatternPoint, PATTERN_COUNT,
};
use crate::projector_patterns::{by_code, code_byte, code_tables, is_code_table, projector_library_in, name_in, named_in, pattern_of, ProjectorPattern, ProjectorPatternView};
use crate::text::unsigned_value;
use vstd::prelude::*;

verus! {

broadcast use vstd::seq::group_seq_axioms;

/// A packed point is unpacked: a word made of nine bits each of two coordinates and three
/// bits each of three colours, whatever its lowest five bits, decodes to them. Only the zero
/// word is blank.
pub proof fn law_packed_point(x: u32, y: u32, r: u32, g: u32, b: u32, low: u32, v: u32)
    requires
        x < 512,
        y < 512,
        r < 8,
        g < 8,
        b < 8,
        low < 32,
        v == x * 0x80_0000 + y * 0x4000 + r * 0x800 + g * 0x100 + b * 0x20 + low,
    ensures
        v != 0 ==> decoded(v) == Some(PatternPoint { x: x as i16, y: y as i16, r: r as u8, g: g as u8, b: b as u8 }),
        v == 0 ==> decoded(v) is None,
{
    let a4: int = b * 0x20 + low;
    let a3: int = g * 0x100 + a4;
    let a2: int = r * 0x800 + a3;
    let a1: int = y * 0x4000 + a2;
    assert(0 <= a4 < 0x100 && 0 <= a3 < 0x800 && 0 <= a2 < 0x4000 && 0 <= a1 < 0x80_0000);
    assert(v == x * 0x80_0000 + a1);
    assert(v as int / 0x80_0000 == x);
    assert(v as int / 0x4000 == x * 512 + y);
    assert((x * 512 + y) % 512 == y as int);
    assert(v as int / 0x800 == x * 0x1000 + y * 8 + r);
    assert((x * 0x1000 + y * 8 + r) % 8 == r as int);
    assert(v as int / 0x100 == x * 0x8000 + y * 0x40 + r * 8 + g);
    assert((x * 0x8000 + y * 0x40 + r * 8 + g) % 8 == g as int);
    assert(v as int / 0x20 == x * 0x4_0000 + y * 0x200 + r * 0x40 + g * 8 + b);
    assert((x * 0x4_0000 + y * 0x200 + r * 0x40 + g * 8 + b) % 8 == b as int);
}

/// Of a pattern's points those are traced that are not dark points at the origin, and no
/// others.
pub proof fn law_traced(points: Seq<PatternPoint>, p: PatternPoint)
    ensures
        traced(points).contains(p) <==> points.contains(p) && !(p.x == 0 && p.y == 0 && p.r == 0 && p.g == 0 && p.b == 0),
        (forall|i: int| 0 <= i < points.len() ==> (#[trigger] points[i]).x != 0 || points[i].y != 0) ==> traced(points) == points,
    decreases points.len(),
{
    if points.len() > 0 {
        let q = points.drop_last();
        law_traced(q, p);
        assert(points =~= q.push(points.last()));
        lemma_pushed(q, points.last(), p);
        lemma_pushed(traced(q), points.last(), p);
        if forall|i: int| 0 <= i < points.len() ==> (#[trigger] points[i]).x != 0 || points[i].y != 0 {
            assert forall|i: int| 0 <= i < q.len() implies (#[trigger] q[i]).x != 0 || q[i].y != 0 by {
                assert(points[i] == q[i]);
            }
            assert(points[points.len() - 1].x != 0 || points[points.len() - 1].y != 0);
        }
    }
}

proof fn lemma_lit_segments(pts: Seq<PatternPoint>, n: nat, a: PatternPoint, b: PatternPoint)
    requires
        n <= pts.len(),
    ensures
        lit_segments(pts, n).contains((a, b)) <==> exists|k: int|
            0 <= k < n && #[trigger] pts[k] == a && (a.r != 0 || a.g != 0 || a.b != 0) && b == pts[if k + 1 < pts.len() {
                k + 1
            } else {
                0
            }],
    decreases n,
{
    if n > 0 {
        let m = (n - 1) as nat;
        lemma_lit_segments(pts, m, a, b);
        let to = pts[if n < pts.len() {
            n as int
        } else {
            0
        }];
        lemma_pushed(lit_segments(pts, m), (pts[m as int], to), (a, b));
        if exists|k: int|
            0 <= k < n && #[trigger] pts[k] == a && (a.r != 0 || a.g != 0 || a.b != 0) && b == pts[if k + 1 < pts.len() {
                k + 1
            } else {
                0
            }] {
            let k = choose|k: int|
                0 <= k < n && #[trigger] pts[k] == a && (a.r != 0 || a.g != 0 || a.b != 0) && b == pts[if k + 1 < pts.len() {
                    k + 1
                } else {
                    0
                }];
            if k < m {
                assert(lit_segments(pts, m).contains((a, b)));
            }
        }
        if !blank(pts[m as int]) && (a, b) == (pts[m as int], to) {
            assert(pts[m as int] == a);
        }
    }
}

/// A pattern is drawn as a closed loop through its traced points: from each that is lit a
/// line goes to the next, from the last to the first, and no other line is drawn. One point
/// alone draws nothing.
pub proof fn law_segments(points: Seq<PatternPoint>, a: PatternPoint, b: PatternPoint)
    ensures
        ({
            let pts = traced(points);
            &&& pts.len() >= 2 ==> (segments(points).contains((a, b)) <==> exists|k: int|
                0 <= k < pts.len() && #[trigger] pts[k] == a && (a.r != 0 || a.g != 0 || a.b != 0) && b == pts[if k + 1 < pts.len() {
                    k + 1
                } else {
                    0
                }])
            &&& pts.len() < 2 ==> segments(points).len() == 0
        }),
{
    let pts = traced(points);
    lemma_lit_segments(pts, pts.len(), a, b);
}

/// A word may have any number of `0x` before its digits.
pub proof fn law_bare_hex(s: Seq<char>)
    ensures
        bare_hex(seq!['0', 'x'] + s) == bare_hex(s),
        !(bare_hex(s).len() >= 2 && bare_hex(s)[0] == '0' && bare_hex(s)[1] == 'x'),
        !(s.len() >= 2 && s[0] == '0' && s[1] == 'x') ==> bare_hex(s) == s,
    decreases s.len(),
{
    let t = seq!['0', 'x'] + s;
    assert(t.skip(2) =~= s);
    if s.len() >= 2 && s[0] == '0' && s[1] == 'x' {
        law_bare_hex(s.skip(2));
    }
}

/// Where every word of a pattern is a hexadecimal number other than zero, each is a point of
/// it, in order.
pub proof fn law_points_of(words: Seq<JsonView>, values: Seq<u32>)
    requires
        words.len() == values.len(),
        forall|i: int|
            0 <= i < words.len() ==> #[trigger] values[i] != 0 && (words[i] matches JsonView::Text(t) && unsigned_value(
                bare_hex(t),
                16,
                u32::MAX as nat,
            ) == Some(values[i] as nat)),
    ensures
        points_of(words).len() == words.len(),
        forall|i: int| 0 <= i < words.len() ==> Some(#[trigger] points_of(words)[i]) == decoded(values[i]),
    decreases words.len(),
{
    if words.len() > 0 {
        let p = words.drop_last();
        let q = values.drop_last();
        let z = words.len() - 1;
        assert forall|i: int| 0 <= i < p.len() implies #[trigger] q[i] != 0 && (p[i] matches JsonView::Text(t) && unsigned_value(
            bare_hex(t),
            16,
            u32::MAX as nat,
        ) == Some(q[i] as nat)) by {
            assert(q[i] == values[i] && p[i] == words[i]);
        }
        law_points_of(p, q);
        assert(values[z] != 0);
        assert(words[z] == words.last());
    }
}

proof fn lemma_patterns_in(entries: Seq<(Seq<char>, JsonView)>, n: nat, i: int)
    requires
        n <= PATTERN_COUNT,
    ensures
        patterns_in(entries, n).len() == n,
        0 <= i < n ==> patterns_in(entries, n)[i].points == (match lookup(entries, pattern_names()[i]) {
            Some(JsonView::Array(words)) => points_of(words),
            _ => Seq::empty(),
        }),
    decreases n,
{
    if n > 0 {
        lemma_patterns_in(entries, (n - 1) as nat, i);
    }
}

/// A pattern of the library has the points that the document lists under its name, and none
/// where the document does not name it.
pub proof fn law_library_points(doc: JsonView, i: int)
    requires
        library_in(doc) is Some,
        0 <= i < PATTERN_COUNT,
    ensures
        member(doc, pattern_names()[i]) matches Some(JsonView::Array(words)) ==> library_in(doc)->0[i].points == points_of(words),
        member(doc, pattern_names()[i]) is None ==> library_in(doc)->0[i].points.len() == 0,
{
    lemma_patterns_in(doc->Object_0, PATTERN_COUNT as nat, i);
}

// ---- the projector's patterns -----------------------------------------------

/// The name shown for a gallery and pattern is that of the first entry with these bytes;
/// there is none exactly where no entry has them.
pub proof fn law_projector_name(lib: Seq<ProjectorPattern>, gallery: u8, pattern: u8)
    ensures
        match name_in(lib, gallery, pattern) {
            Some(n) => exists|i: int|
                {
                    &&& 0 <= i < lib.len() && (#[trigger] lib[i]).gallery == gallery && lib[i].pattern == pattern && lib[i].name@ == n
                    &&& forall|j: int| 0 <= j < i ==> (#[trigger] lib[j]).gallery != gallery || lib[j].pattern != pattern
                },
            None => forall|j: int| 0 <= j < lib.len() ==> (#[trigger] lib[j]).gallery != gallery || lib[j].pattern != pattern,
        },
    decreases lib.len(),
{
    if lib.len() > 0 {
        let p = lib.drop_last();
        let z = lib.len() - 1;
        law_projector_name(p, gallery, pattern);
        assert forall|j: int| 0 <= j < z implies #[trigger] p[j] == lib[j] by {}
        match name_in(p, gallery, pattern) {
            Some(n) => {
                let i = choose|i: int|
                    {
                        &&& 0 <= i < p.len() && (#[trigger] p[i]).gallery == gallery && p[i].pattern == pattern && p[i].name@ == n
                        &&& forall|j: int| 0 <= j < i ==> (#[trigger] p[j]).gallery != gallery || p[j].pattern != pattern
                    };
                assert(lib[i] == p[i]);
                assert forall|j: int| 0 <= j < i implies (#[trigger] lib[j]).gallery != gallery || lib[j].pattern != pattern by {
                    assert(p[j] == lib[j]);
                }
            },
            None => {
                assert forall|j: int| 0 <= j < z implies (#[trigger] lib[j]).gallery != gallery || lib[j].pattern != pattern by {
                    assert(p[j] == lib[j]);
                }
                if lib[z].gallery == gallery && lib[z].pattern == pattern {
                    assert(name_in(lib, gallery, pattern) == Some(lib[z].name@));
                }
            },
        }
    }
}

/// The entry names `x` and its code begins with the two bytes of `x`; it is not `ignore`.
pub open spec fn codes(entry: (Seq<char>, JsonView), x: ProjectorPatternView) -> bool {
    &&& entry.0 == x.name
    &&& x.name != "ignore"@
    &&& match member(entry.1, "code"@) {
        Some(JsonView::Array(code)) => code_byte(code, 0) == Some(x.gallery as nat) && code_byte(code, 1) == Some(x.pattern as nat),
        _ => false,
    }
}

proof fn lemma_codes(entry: (Seq<char>, JsonView), x: ProjectorPatternView)
    ensures
        codes(entry, x) <==> pattern_of(entry.0, entry.1) == Some(x),
{
    if let Some(JsonView::Array(code)) = member(entry.1, "code"@) {
        lemma_code_byte(code, 0);
        lemma_code_byte(code, 1);
    }
}

/// The projector's library has a pattern for every entry but `ignore` whose code begins with
/// two bytes: the first is its gallery, the second its number. It has no others.
pub proof fn law_projector_patterns(entries: Seq<(Seq<char>, JsonView)>, x: ProjectorPatternView)
    ensures
        named_in(entries).contains(x) <==> exists|i: int| 0 <= i < entries.len() && codes(#[trigger] entries[i], x),
    decreases entries.len(),
{
    if entries.len() > 0 {
        let p = entries.drop_last();
        let z = entries.len() - 1;
        law_projector_patterns(p, x);
        lemma_codes(entries[z], x);
        let last = pattern_of(entries[z].0, entries[z].1);
        if last is Some {
            lemma_pushed(named_in(p), last->0, x);
        }
        if exists|i: int| 0 <= i < p.len() && codes(#[trigger] p[i], x) {
            let i = choose|i: int| 0 <= i < p.len() && codes(#[trigger] p[i], x);
            assert(entries[i] == p[i]);
        }
        if exists|i: int| 0 <= i < entries.len() && codes(#[trigger] entries[i], x) {
            let i = choose|i: int| 0 <= i < entries.len() && codes(#[trigger] entries[i], x);
            if i < z {
                assert(p[i] == entries[i]);
            }
        }
    }
}

proof fn lemma_code_byte(code: Seq<JsonView>, i: int)
    ensures
        code_byte(code, i) matches Some(b) ==> b <= 255,
{
}

/// The projector's patterns are listed by gallery, and in one by their numbers.
pub proof fn law_projector_order(s: Seq<ProjectorPatternView>, i: int, j: int)
    requires
        by_code(s),
        0 <= i < j < s.len(),
    ensures
        s[i].gallery <= s[j].gallery,
        s[i].gallery == s[j].gallery ==> s[i].pattern <= s[j].pattern,
{
}

/// A document is a library of the projector exactly where it is an object of objects whose
/// values are lists of texts; then the library has the patterns of its entries.
pub proof fn law_projector_library(doc: JsonView, x: ProjectorPatternView)
    ensures
        projector_library_in(doc) is Some <==> doc is Object && forall|i: int|
            0 <= i < doc->Object_0.len() ==> (#[trigger] doc->Object_0[i]).1 is Object && text_lists(doc->Object_0[i].1->Object_0),
        projector_library_in(doc) matches Some(lib) ==> (lib.contains(x) <==> exists|i: int|
            0 <= i < doc->Object_0.len() && codes(#[trigger] doc->Object_0[i], x)),
{
    if doc is Object {
        law_projector_patterns(doc->Object_0, x);
        let es = doc->Object_0;
        if forall|i: int| 0 <= i < es.len() ==> (#[trigger] es[i]).1 is Object && text_lists(es[i].1->Object_0) {
            assert(code_tables(es));
        }
        if code_tables(es) {
            assert forall|i: int| 0 <= i < es.len() implies (#[trigger] es[i]).1 is Object && text_lists(es[i].1->Object_0) by {
                assert(is_code_table(es[i].1));
            }
        }
    }
}

} // verus!
