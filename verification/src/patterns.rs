//! The laser pattern library: named shapes, each a list of points that the beam
//! traces. A point is packed into a 32-bit word on disk; see [`decode_u32`].
use crate::json::{entry_views, item_views, lemma_array_view, lemma_object_view, lookup, parse_json, parsed_json, Json, JsonView};
use crate::text::{chars_of, parse_unsigned, replace_char, replaced, same, unsigned_value};
use vstd::prelude::*;

verus! {

broadcast use {vstd::seq::group_seq_axioms, vstd::string::group_string_axioms};

/// One point of a pattern: coordinates of about 0 to 300, and a 3-bit colour.
#[derive(Clone, Copy, PartialEq, Eq, Structural, Debug)]
pub struct PatternPoint {
    pub x: i16,
    pub y: i16,
    pub r: u8,
    pub g: u8,
    pub b: u8,
}

/// A named shape of the library.
#[derive(Debug)]
pub struct Pattern {
    pub id: u8,
    pub name: &'static str,
    /// Points in draw order.
    pub points: Vec<PatternPoint>,
}

/// What a [`Pattern`] holds.
pub struct PatternView {
    pub id: u8,
    pub name: Seq<char>,
    pub points: Seq<PatternPoint>,
}

impl View for Pattern {
    type V = PatternView;

    open spec fn view(&self) -> PatternView {
        PatternView { id: self.id, name: self.name@, points: self.points@ }
    }
}

// ---- names ------------------------------------------------------------------

/// How many patterns there are.
pub const PATTERN_COUNT: usize = 38;

/// The names of the patterns. A laser keyframe's pattern is an index into them.
pub open spec fn pattern_names() -> Seq<Seq<char>> {
    seq![
        "bat"@,
        "bow"@,
        "bow_slow"@,
        "candy"@,
        "circle"@,
        "circle_slow"@,
        "clockwise_spiral_slow"@,
        "counterclockwise_spiral_slow"@,
        "crescent"@,
        "ghost"@,
        "gravestone_cross"@,
        "hexagon"@,
        "hexagon_slow"@,
        "horizontal_lines_left_to_right_slow"@,
        "horizontal_lines_right_to_left_slow"@,
        "lightning_bolt"@,
        "octagon"@,
        "octagon_slow"@,
        "parallelogram"@,
        "parallelogram_slow"@,
        "pentagon"@,
        "pentagon_slow"@,
        "pentagram"@,
        "pentagram_slow"@,
        "pumpkin"@,
        "septagon_slow"@,
        "square_large"@,
        "square_large_slow"@,
        "square_small"@,
        "square_small_slow"@,
        "star"@,
        "star_slow"@,
        "triangle_large"@,
        "triangle_large_slow"@,
        "triangle_small"@,
        "triangle_small_slow"@,
        "vertical_lines_bottom_to_top_slow"@,
        "vertical_lines_top_to_bottom_slow"@,
    ]
}

/// The name of a pattern.
pub fn pattern_name(id: usize) -> (r: Option<&'static str>)
    ensures
        match r {
            Some(n) => id < PATTERN_COUNT && n@ == pattern_names()[id as int],
            None => id >= PATTERN_COUNT,
        },
        pattern_names().len() == PATTERN_COUNT,
{
    match id {
        0 => Some("bat"),
        1 => Some("bow"),
        2 => Some("bow_slow"),
        3 => Some("candy"),
        4 => Some("circle"),
        5 => Some("circle_slow"),
        6 => Some("clockwise_spiral_slow"),
        7 => Some("counterclockwise_spiral_slow"),
        8 => Some("crescent"),
        9 => Some("ghost"),
        10 => Some("gravestone_cross"),
        11 => Some("hexagon"),
        12 => Some("hexagon_slow"),
        13 => Some("horizontal_lines_left_to_right_slow"),
        14 => Some("horizontal_lines_right_to_left_slow"),
        15 => Some("lightning_bolt"),
        16 => Some("octagon"),
        17 => Some("octagon_slow"),
        18 => Some("parallelogram"),
        19 => Some("parallelogram_slow"),
        20 => Some("pentagon"),
        21 => Some("pentagon_slow"),
        22 => Some("pentagram"),
        23 => Some("pentagram_slow"),
        24 => Some("pumpkin"),
        25 => Some("septagon_slow"),
        26 => Some("square_large"),
        27 => Some("square_large_slow"),
        28 => Some("square_small"),
        29 => Some("square_small_slow"),
        30 => Some("star"),
        31 => Some("star_slow"),
        32 => Some("triangle_large"),
        33 => Some("triangle_large_slow"),
        34 => Some("triangle_small"),
        35 => Some("triangle_small_slow"),
        36 => Some("vertical_lines_bottom_to_top_slow"),
        37 => Some("vertical_lines_top_to_bottom_slow"),
        _ => None,
    }
}

/// The index of a name, with hyphens read as underscores.
pub open spec fn is_name_index(name: Seq<char>, i: int) -> bool {
    &&& 0 <= i < pattern_names().len()
    &&& pattern_names()[i] == replaced(name, '-', '_')
    &&& forall|j: int| 0 <= j < i ==> #[trigger] pattern_names()[j] != replaced(name, '-', '_')
}

/// The index of a name, with hyphens read as underscores; none where no pattern
/// has that name.
pub fn name_to_id(name: &str) -> (r: Option<u8>)
    ensures
        match r {
            Some(i) => is_name_index(name@, i as int),
            None => !pattern_names().contains(replaced(name@, '-', '_')),
        },
{
    let norm: Vec<char> = replace_char(&chars_of(name), '-', '_');
    let mut i: usize = 0;
    while i < PATTERN_COUNT
        invariant
            i <= PATTERN_COUNT,
            norm@ == replaced(name@, '-', '_'),
            pattern_names().len() == PATTERN_COUNT,
            forall|j: int| 0 <= j < i ==> #[trigger] pattern_names()[j] != norm@,
        decreases PATTERN_COUNT - i,
    {
        let n: Option<&'static str> = pattern_name(i);
        match n {
            Some(n) => {
                if same(&chars_of(n), &norm) {
                    return Some(i as u8);
                }
            },
            None => {},
        }
        i = i + 1;
    }
    None
}

// ---- points -----------------------------------------------------------------

/// The point packed in a word: 9 bits each of `x` and `y`, then 3 bits each of
/// red, green and blue, from the top. The zero word is blank.
pub open spec fn decoded(v: u32) -> Option<PatternPoint> {
    if v == 0 {
        None
    } else {
        Some(
            PatternPoint {
                x: (v / 0x80_0000) as i16,
                y: (v / 0x4000 % 512) as i16,
                r: (v / 0x800 % 8) as u8,
                g: (v / 0x100 % 8) as u8,
                b: (v / 0x20 % 8) as u8,
            },
        )
    }
}

/// Decodes one packed point; none for a blank one.
pub fn decode_u32(v: u32) -> (r: Option<PatternPoint>)
    ensures
        r == decoded(v),
{
    if v == 0 {
        return None;
    }
    assert((v & 0xFF80_0000) >> 23 == v / 0x80_0000 && v / 0x80_0000 < 512) by (bit_vector);
    assert((v & 0x007F_C000) >> 14 == v / 0x4000 % 512) by (bit_vector);
    assert((v & 0x0000_3800) >> 11 == v / 0x800 % 8) by (bit_vector);
    assert((v & 0x0000_0700) >> 8 == v / 0x100 % 8) by (bit_vector);
    assert((v & 0x0000_00E0) >> 5 == v / 0x20 % 8) by (bit_vector);
    Some(
        PatternPoint {
            x: ((v & 0xFF80_0000) >> 23) as i16,
            y: ((v & 0x007F_C000) >> 14) as i16,
            r: ((v & 0x0000_3800) >> 11) as u8,
            g: ((v & 0x0000_0700) >> 8) as u8,
            b: ((v & 0x0000_00E0) >> 5) as u8,
        },
    )
}

/// The beam is off at this point.
pub open spec fn blank(p: PatternPoint) -> bool {
    p.r == 0 && p.g == 0 && p.b == 0
}

/// Whether the beam is off at this point.
pub fn is_blank(p: &PatternPoint) -> (r: bool)
    ensures
        r == blank(*p),
{
    p.r == 0 && p.g == 0 && p.b == 0
}

/// A 3-bit channel spread over 0 to 255, rounded to the nearest.
pub open spec fn spread(c: u8) -> int {
    let n = if c > 7 {
        7
    } else {
        c as int
    };
    (510 * n + 7) / 14
}

/// A 3-bit channel spread over 0 to 255.
pub fn chan(c: u8) -> (r: u8)
    ensures
        r == spread(c),
{
    let n: u32 = if c > 7 { 7 } else { c as u32 };
    ((510 * n + 7) / 14) as u8
}

// ---- segments ---------------------------------------------------------------

/// A word that is only home or padding.
pub open spec fn padding(p: PatternPoint) -> bool {
    p.x == 0 && p.y == 0 && blank(p)
}

/// The points without home and padding words.
pub open spec fn traced(points: Seq<PatternPoint>) -> Seq<PatternPoint>
    decreases points.len(),
{
    if points.len() == 0 {
        Seq::empty()
    } else {
        let rest = traced(points.drop_last());
        if padding(points.last()) {
            rest
        } else {
            rest.push(points.last())
        }
    }
}

/// The lit segments that start at the first `n` of the points, which form a
/// closed loop.
pub open spec fn lit_segments(pts: Seq<PatternPoint>, n: nat) -> Seq<(PatternPoint, PatternPoint)>
    decreases n,
{
    if n == 0 {
        Seq::empty()
    } else {
        let rest = lit_segments(pts, (n - 1) as nat);
        if blank(pts[n - 1]) {
            rest
        } else {
            rest.push((pts[n - 1], pts[if n < pts.len() { n as int } else { 0 }]))
        }
    }
}

/// The lit segments of a pattern.
pub open spec fn segments(points: Seq<PatternPoint>) -> Seq<(PatternPoint, PatternPoint)> {
    let pts = traced(points);
    if pts.len() < 2 {
        Seq::empty()
    } else {
        lit_segments(pts, pts.len())
    }
}

/// The lit segments of a pattern, ready to draw. The beam traces a closed loop
/// through the points, and each segment has its source's colour; from a blank
/// source nothing is drawn. Home and padding words are left out.
pub fn outline_segments(points: &[PatternPoint]) -> (r: Vec<(PatternPoint, PatternPoint)>)
    ensures
        r@ == segments(points@),
{
    let mut pts: Vec<PatternPoint> = Vec::new();
    let mut i: usize = 0;
    while i < points.len()
        invariant
            i <= points@.len(),
            pts@ == traced(points@.take(i as int)),
        decreases points@.len() - i,
    {
        let p: PatternPoint = points[i];
        assert(points@.take(i + 1).drop_last() =~= points@.take(i as int));
        if !(p.x == 0 && p.y == 0 && is_blank(&p)) {
            pts.push(p);
        }
        i = i + 1;
    }
    assert(points@.take(points@.len() as int) =~= points@);
    let mut out: Vec<(PatternPoint, PatternPoint)> = Vec::new();
    let n: usize = pts.len();
    if n < 2 {
        return out;
    }
    let mut i: usize = 0;
    while i < n
        invariant
            i <= n == pts@.len(),
            out@ == lit_segments(pts@, i as nat),
        decreases n - i,
    {
        let src: PatternPoint = pts[i];
        if !is_blank(&src) {
            let dst: PatternPoint = if i < n - 1 { pts[i + 1] } else { pts[0] };
            out.push((src, dst));
        }
        i = i + 1;
    }
    out
}

/// No lit segment starts at a blank point.
pub proof fn law_segments_are_lit(points: Seq<PatternPoint>, k: int)
    requires
        0 <= k < segments(points).len(),
    ensures
        !blank(segments(points)[k].0),
{
    let pts = traced(points);
    lemma_lit(pts, pts.len(), k);
}

proof fn lemma_lit(pts: Seq<PatternPoint>, n: nat, k: int)
    requires
        0 <= k < lit_segments(pts, n).len(),
    ensures
        !blank(lit_segments(pts, n)[k].0),
    decreases n,
{
    if n > 0 && k < lit_segments(pts, (n - 1) as nat).len() {
        lemma_lit(pts, (n - 1) as nat, k);
    }
}

/// A shape without blank points closes: it has as many segments as points, each
/// starts where the one before ended, and the last ends where the first starts.
pub proof fn law_shape_closes(points: Seq<PatternPoint>, k: int)
    requires
        points.len() >= 2,
        forall|i: int| 0 <= i < points.len() ==> !blank(#[trigger] points[i]),
        0 <= k < points.len(),
    ensures
        segments(points).len() == points.len(),
        segments(points)[k].0 == points[k],
        segments(points)[k].1 == points[if k + 1 < points.len() {
            k + 1
        } else {
            0
        }],
{
    lemma_traced_all(points);
    lemma_closed(points, points.len(), k);
}

proof fn lemma_traced_all(points: Seq<PatternPoint>)
    requires
        forall|i: int| 0 <= i < points.len() ==> !blank(#[trigger] points[i]),
    ensures
        traced(points) == points,
    decreases points.len(),
{
    if points.len() > 0 {
        lemma_traced_all(points.drop_last());
        assert(!blank(points[points.len() - 1]));
        assert(traced(points) =~= points);
    }
}

proof fn lemma_closed(pts: Seq<PatternPoint>, n: nat, k: int)
    requires
        forall|i: int| 0 <= i < pts.len() ==> !blank(#[trigger] pts[i]),
        n <= pts.len(),
    ensures
        lit_segments(pts, n).len() == n,
        0 <= k < n ==> lit_segments(pts, n)[k] == (pts[k], pts[if k + 1 < pts.len() {
            k + 1
        } else {
            0
        }]),
    decreases n,
{
    if n > 0 {
        lemma_closed(pts, (n - 1) as nat, k);
        assert(!blank(pts[n - 1]));
    }
}

// ---- the library ------------------------------------------------------------

/// The text without the `0x` it begins with, however often.
pub open spec fn bare_hex(s: Seq<char>) -> Seq<char>
    decreases s.len(),
{
    if s.len() >= 2 && s[0] == '0' && s[1] == 'x' {
        bare_hex(s.skip(2))
    } else {
        s
    }
}

/// The text without the `0x` it begins with, however often.
pub fn strip_hex(v: &Vec<char>) -> (r: Vec<char>)
    ensures
        r@ == bare_hex(v@),
{
    let mut i: usize = 0;
    assert(v@.skip(0) =~= v@);
    while v.len() - i >= 2 && v[i] == '0' && v[i + 1] == 'x'
        invariant
            i <= v@.len(),
            bare_hex(v@) == bare_hex(v@.skip(i as int)),
        decreases v@.len() - i,
    {
        assert(v@.skip(i as int).skip(2) =~= v@.skip(i + 2));
        i = i + 2;
    }
    let r: Vec<char> = crate::text::slice_of(v, i, v.len());
    assert(r@ =~= v@.skip(i as int));
    r
}

/// The words of a pattern that decode to points, in order.
pub open spec fn points_of(words: Seq<JsonView>) -> Seq<PatternPoint>
    decreases words.len(),
{
    if words.len() == 0 {
        Seq::empty()
    } else {
        let rest = points_of(words.drop_last());
        match words.last() {
            JsonView::Text(t) => match unsigned_value(bare_hex(t), 16, u32::MAX as nat) {
                Some(v) => match decoded(v as u32) {
                    Some(p) => rest.push(p),
                    None => rest,
                },
                None => rest,
            },
            _ => rest,
        }
    }
}

/// Every value is a list of texts.
pub open spec fn text_lists(entries: Seq<(Seq<char>, JsonView)>) -> bool {
    forall|i: int| 0 <= i < entries.len() ==> is_text_list((#[trigger] entries[i]).1)
}

/// The value is a list of texts.
pub open spec fn is_text_list(j: JsonView) -> bool {
    match j {
        JsonView::Array(items) => forall|k: int| 0 <= k < items.len() ==> (#[trigger] items[k]) is Text,
        _ => false,
    }
}

/// The first `n` patterns of a document: each name with its points, none where
/// the document lacks the name.
pub open spec fn patterns_in(entries: Seq<(Seq<char>, JsonView)>, n: nat) -> Seq<PatternView>
    decreases n,
{
    if n == 0 {
        Seq::empty()
    } else {
        let name = pattern_names()[n - 1];
        let points = match lookup(entries, name) {
            Some(JsonView::Array(words)) => points_of(words),
            _ => Seq::empty(),
        };
        patterns_in(entries, (n - 1) as nat).push(PatternView { id: (n - 1) as u8, name, points })
    }
}

/// The library in a document: an object of lists of texts.
pub open spec fn library_in(doc: JsonView) -> Option<Seq<PatternView>> {
    match doc {
        JsonView::Object(entries) => if text_lists(entries) {
            Some(patterns_in(entries, PATTERN_COUNT as nat))
        } else {
            None
        },
        _ => None,
    }
}

/// What patterns hold.
pub open spec fn pattern_views(v: Seq<Pattern>) -> Seq<PatternView> {
    v.map_values(|p: Pattern| p@)
}

/// Whether a value is a list of texts.
pub fn text_list(j: &Json) -> (r: bool)
    ensures
        r == is_text_list(j@),
{
    match j {
        Json::Array(items) => {
            proof {
                lemma_array_view(*items);
            }
            let ghost all = item_views(items@);
            let mut k: usize = 0;
            while k < items.len()
                invariant
                    k <= items@.len(),
                    all == item_views(items@),
                    j@ == JsonView::Array(all),
                    forall|i: int| 0 <= i < k ==> (#[trigger] all[i]) is Text,
                decreases items@.len() - k,
            {
                assert(all[k as int] == items@[k as int]@);
                match &items[k] {
                    Json::Text(_) => {},
                    _ => {
                        return false;
                    },
                }
                k = k + 1;
            }
            true
        },
        _ => false,
    }
}

fn decode_words(words: &Vec<Json>) -> (r: Vec<PatternPoint>)
    ensures
        r@ == points_of(item_views(words@)),
{
    let ghost all = item_views(words@);
    let mut out: Vec<PatternPoint> = Vec::new();
    let mut i: usize = 0;
    while i < words.len()
        invariant
            i <= words@.len(),
            all == item_views(words@),
            out@ == points_of(all.take(i as int)),
        decreases words@.len() - i,
    {
        assert(all[i as int] == words@[i as int]@);
        assert(all.take(i + 1).drop_last() =~= all.take(i as int));
        match &words[i] {
            Json::Text(t) => {
                let bare: Vec<char> = strip_hex(&chars_of(t.as_str()));
                let v: Option<u64> = parse_unsigned(&bare, 16, u32::MAX as u64);
                match v {
                    Some(v) => {
                        let p: Option<PatternPoint> = decode_u32(v as u32);
                        match p {
                            Some(p) => {
                                out.push(p);
                            },
                            None => {},
                        }
                    },
                    None => {},
                }
            },
            _ => {},
        }
        i = i + 1;
    }
    assert(all.take(all.len() as int) =~= all);
    out
}

/// Builds the library from its document; none where the document is not an object
/// of lists of texts.
pub fn build(doc: &Json) -> (r: Option<Vec<Pattern>>)
    ensures
        match r {
            Some(v) => library_in(doc@) == Some(pattern_views(v@)),
            None => library_in(doc@) is None,
        },
{
    match doc {
        Json::Object(entries) => {
            proof {
                lemma_object_view(*entries);
            }
            let ghost all = entry_views(entries@);
            let mut i: usize = 0;
            while i < entries.len()
                invariant
                    i <= entries@.len(),
                    all == entry_views(entries@),
                    doc@ == JsonView::Object(all),
                    forall|k: int| 0 <= k < i ==> is_text_list((#[trigger] all[k]).1),
                decreases entries@.len() - i,
            {
                assert(all[i as int] == (entries@[i as int].0@, entries@[i as int].1@));
                if !text_list(&entries[i].1) {
                    assert(!is_text_list(all[i as int].1));
                    return None;
                }
                i = i + 1;
            }
            let mut out: Vec<Pattern> = Vec::new();
            let mut id: usize = 0;
            assert(pattern_views(out@) =~= patterns_in(all, 0));
            while id < PATTERN_COUNT
                invariant
                    id <= PATTERN_COUNT,
                    doc@ == JsonView::Object(all),
                    pattern_views(out@) == patterns_in(all, id as nat),
                decreases PATTERN_COUNT - id,
            {
                let name: Option<&'static str> = pattern_name(id);
                match name {
                    Some(name) => {
                        let found: Option<&Json> = doc.get(name);
                        let points: Vec<PatternPoint> = match found {
                            Some(Json::Array(words)) => {
                                proof {
                                    lemma_array_view(*words);
                                }
                                decode_words(words)
                            },
                            _ => Vec::new(),
                        };
                        let ghost before = out@;
                        let p: Pattern = Pattern { id: id as u8, name, points };
                        let ghost v = p@;
                        out.push(p);
                        assert(pattern_views(out@) =~= pattern_views(before).push(v));
                    },
                    None => {},
                }
                id = id + 1;
            }
            Some(out)
        },
        _ => None,
    }
}

/// Reads the library from its JSON text.
pub fn library(json: &str) -> (r: Option<Vec<Pattern>>)
    ensures
        match r {
            Some(v) => parsed_json(json@) matches Ok(doc) && library_in(doc) == Some(pattern_views(v@)),
            None => parsed_json(json@) matches Ok(doc) ==> library_in(doc) is None,
        },
{
    let doc: Result<Json, String> = parse_json(json);
    match doc {
        Ok(doc) => build(&doc),
        Err(_) => None,
    }
}

/// A pattern of the library by its id.
pub fn get(lib: &Vec<Pattern>, id: u8) -> (r: Option<&Pattern>)
    ensures
        match r {
            Some(p) => id < lib@.len() && *p == lib@[id as int],
            None => id >= lib@.len(),
        },
{
    if (id as usize) < lib.len() {
        Some(&lib[id as usize])
    } else {
        None
    }
}

/// The library has every pattern, at the index of its id and under its name.
pub proof fn law_library_ids(doc: JsonView, i: int)
    requires
        library_in(doc) is Some,
        0 <= i < PATTERN_COUNT,
    ensures
        library_in(doc)->0.len() == PATTERN_COUNT,
        library_in(doc)->0[i].id == i,
        library_in(doc)->0[i].name == pattern_names()[i],
{
    lemma_patterns_in(doc->Object_0, PATTERN_COUNT as nat, i);
}

proof fn lemma_patterns_in(entries: Seq<(Seq<char>, JsonView)>, n: nat, i: int)
    requires
        n <= PATTERN_COUNT,
    ensures
        patterns_in(entries, n).len() == n,
        0 <= i < n ==> patterns_in(entries, n)[i].id == i && patterns_in(entries, n)[i].name == pattern_names()[i],
    decreases n,
{
    if n > 0 {
        lemma_patterns_in(entries, (n - 1) as nat, i);
    }
}

} // verus!
