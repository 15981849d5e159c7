//! What a package keeps of a show: an exported show reads back as it was.
use crate::export::{
    device_name, hex_of, laser_json, package_name, point_json, points_json, projector_json, turret_json, DeviceEntryView,
};
use crate::instructions::{counting, lemma_lookup_at, ms_of};
use crate::json::{lookup, JsonView};
use crate::patterns::{is_name_index, pattern_names, PATTERN_COUNT};
use crate::rows::{
    LaserInputView, LaserKeyframeView, LaserPoint, LightEditInput, ProjectorKeyframe, ProjectorKeyframeInput, TurretKeyframe,
    TurretKeyframeInput,
};
use crate::seeder::{device_in, entry_devices, item_number, lemma_pattern_of, point_in, points_in, show_devices, DeviceView};
use crate::text::{begins, decimal, law_decimal_reads_back, replaced, unsigned_digits};
use vstd::prelude::*;

verus! {

broadcast use {vstd::seq::group_seq_axioms, vstd::string::group_string_axioms};

// ---- pattern names ----------------------------------------------------------

/// The character at a place, or the last one.
spec fn char_near(s: Seq<char>, k: int) -> char {
    if k < s.len() {
        s[k]
    } else {
        s.last()
    }
}

spec fn has_mark(s: Seq<char>, len: int, a: char, b: char, c: char) -> bool {
    s.len() == len && char_near(s, 0) == a && char_near(s, 9) == b && char_near(s, 17) == c
}

/// A name's length and three of its characters tell which it is.
spec fn index_by_mark(s: Seq<char>) -> int {
    if has_mark(s, 3, 'b', 't', 't') {
        0
    } else if has_mark(s, 3, 'b', 'w', 'w') {
        1
    } else if has_mark(s, 8, 'b', 'w', 'w') {
        2
    } else if has_mark(s, 5, 'c', 'y', 'y') {
        3
    } else if has_mark(s, 6, 'c', 'e', 'e') {
        4
    } else if has_mark(s, 11, 'c', 'o', 'w') {
        5
    } else if has_mark(s, 21, 'c', '_', 's') {
        6
    } else if has_mark(s, 28, 'c', 'o', 's') {
        7
    } else if has_mark(s, 8, 'c', 't', 't') {
        8
    } else if has_mark(s, 5, 'g', 't', 't') {
        9
    } else if has_mark(s, 16, 'g', 'e', 's') {
        10
    } else if has_mark(s, 7, 'h', 'n', 'n') {
        11
    } else if has_mark(s, 12, 'h', 'l', 'w') {
        12
    } else if has_mark(s, 35, 'h', 'l', 'l') {
        13
    } else if has_mark(s, 35, 'h', 'l', 'r') {
        14
    } else if has_mark(s, 14, 'l', '_', 't') {
        15
    } else if has_mark(s, 7, 'o', 'n', 'n') {
        16
    } else if has_mark(s, 12, 'o', 'l', 'w') {
        17
    } else if has_mark(s, 13, 'p', 'g', 'm') {
        18
    } else if has_mark(s, 18, 'p', 'g', 'w') {
        19
    } else if has_mark(s, 8, 'p', 'n', 'n') {
        20
    } else if has_mark(s, 13, 'p', 's', 'w') {
        21
    } else if has_mark(s, 9, 'p', 'm', 'm') {
        22
    } else if has_mark(s, 14, 'p', '_', 'w') {
        23
    } else if has_mark(s, 7, 'p', 'n', 'n') {
        24
    } else if has_mark(s, 13, 's', 's', 'w') {
        25
    } else if has_mark(s, 12, 's', 'r', 'e') {
        26
    } else if has_mark(s, 17, 's', 'r', 'w') {
        27
    } else if has_mark(s, 12, 's', 'a', 'l') {
        28
    } else if has_mark(s, 17, 's', 'a', 'w') {
        29
    } else if has_mark(s, 4, 's', 'r', 'r') {
        30
    } else if has_mark(s, 9, 's', 'w', 'w') {
        31
    } else if has_mark(s, 14, 't', 'l', 'e') {
        32
    } else if has_mark(s, 19, 't', 'l', 'o') {
        33
    } else if has_mark(s, 14, 't', 's', 'l') {
        34
    } else if has_mark(s, 19, 't', 's', 'o') {
        35
    } else if has_mark(s, 33, 'v', 'l', 't') {
        36
    } else if has_mark(s, 33, 'v', 'l', 'p') {
        37
    } else {
        -1
    }
}

/// None of the first `n` characters is a hyphen.
spec fn no_hyphen(s: Seq<char>, n: nat) -> bool
    decreases n,
{
    n == 0 || (s[n - 1] != '-' && no_hyphen(s, (n - 1) as nat))
}

proof fn lemma_no_hyphen(s: Seq<char>, n: nat, k: int)
    requires
        no_hyphen(s, n),
        0 <= k < n,
    ensures
        s[k] != '-',
    decreases n,
{
    if k < n - 1 {
        lemma_no_hyphen(s, (n - 1) as nat, k);
    }
}

#[verifier::rlimit(50)]
proof fn lemma_pattern_name(i: int)
    requires
        0 <= i < PATTERN_COUNT,
    ensures
        pattern_names().len() == PATTERN_COUNT,
        index_by_mark(pattern_names()[i]) == i,
        no_hyphen(pattern_names()[i], pattern_names()[i].len()),
{
    reveal_with_fuel(no_hyphen, 37);
    if i == 0 {
        reveal_strlit("bat");
        assert(pattern_names()[0] == "bat"@);
    } else if i == 1 {
        reveal_strlit("bow");
        assert(pattern_names()[1] == "bow"@);
    } else if i == 2 {
        reveal_strlit("bow_slow");
        assert(pattern_names()[2] == "bow_slow"@);
    } else if i == 3 {
        reveal_strlit("candy");
        assert(pattern_names()[3] == "candy"@);
    } else if i == 4 {
        reveal_strlit("circle");
        assert(pattern_names()[4] == "circle"@);
    } else if i == 5 {
        reveal_strlit("circle_slow");
        assert(pattern_names()[5] == "circle_slow"@);
    } else if i == 6 {
        reveal_strlit("clockwise_spiral_slow");
        assert(pattern_names()[6] == "clockwise_spiral_slow"@);
    } else if i == 7 {
        reveal_strlit("counterclockwise_spiral_slow");
        assert(pattern_names()[7] == "counterclockwise_spiral_slow"@);
    } else if i == 8 {
        reveal_strlit("crescent");
        assert(pattern_names()[8] == "crescent"@);
    } else if i == 9 {
        reveal_strlit("ghost");
        assert(pattern_names()[9] == "ghost"@);
    } else if i == 10 {
        reveal_strlit("gravestone_cross");
        assert(pattern_names()[10] == "gravestone_cross"@);
    } else if i == 11 {
        reveal_strlit("hexagon");
        assert(pattern_names()[11] == "hexagon"@);
    } else if i == 12 {
        reveal_strlit("hexagon_slow");
        assert(pattern_names()[12] == "hexagon_slow"@);
    } else if i == 13 {
        reveal_strlit("horizontal_lines_left_to_right_slow");
        assert(pattern_names()[13] == "horizontal_lines_left_to_right_slow"@);
    } else if i == 14 {
        reveal_strlit("horizontal_lines_right_to_left_slow");
        assert(pattern_names()[14] == "horizontal_lines_right_to_left_slow"@);
    } else if i == 15 {
        reveal_strlit("lightning_bolt");
        assert(pattern_names()[15] == "lightning_bolt"@);
    } else if i == 16 {
        reveal_strlit("octagon");
        assert(pattern_names()[16] == "octagon"@);
    } else if i == 17 {
        reveal_strlit("octagon_slow");
        assert(pattern_names()[17] == "octagon_slow"@);
    } else if i == 18 {
        reveal_strlit("parallelogram");
        assert(pattern_names()[18] == "parallelogram"@);
    } else if i == 19 {
        reveal_strlit("parallelogram_slow");
        assert(pattern_names()[19] == "parallelogram_slow"@);
    } else if i == 20 {
        reveal_strlit("pentagon");
        assert(pattern_names()[20] == "pentagon"@);
    } else if i == 21 {
        reveal_strlit("pentagon_slow");
        assert(pattern_names()[21] == "pentagon_slow"@);
    } else if i == 22 {
        reveal_strlit("pentagram");
        assert(pattern_names()[22] == "pentagram"@);
    } else if i == 23 {
        reveal_strlit("pentagram_slow");
        assert(pattern_names()[23] == "pentagram_slow"@);
    } else if i == 24 {
        reveal_strlit("pumpkin");
        assert(pattern_names()[24] == "pumpkin"@);
    } else if i == 25 {
        reveal_strlit("septagon_slow");
        assert(pattern_names()[25] == "septagon_slow"@);
    } else if i == 26 {
        reveal_strlit("square_large");
        assert(pattern_names()[26] == "square_large"@);
    } else if i == 27 {
        reveal_strlit("square_large_slow");
        assert(pattern_names()[27] == "square_large_slow"@);
    } else if i == 28 {
        reveal_strlit("square_small");
        assert(pattern_names()[28] == "square_small"@);
    } else if i == 29 {
        reveal_strlit("square_small_slow");
        assert(pattern_names()[29] == "square_small_slow"@);
    } else if i == 30 {
        reveal_strlit("star");
        assert(pattern_names()[30] == "star"@);
    } else if i == 31 {
        reveal_strlit("star_slow");
        assert(pattern_names()[31] == "star_slow"@);
    } else if i == 32 {
        reveal_strlit("triangle_large");
        assert(pattern_names()[32] == "triangle_large"@);
    } else if i == 33 {
        reveal_strlit("triangle_large_slow");
        assert(pattern_names()[33] == "triangle_large_slow"@);
    } else if i == 34 {
        reveal_strlit("triangle_small");
        assert(pattern_names()[34] == "triangle_small"@);
    } else if i == 35 {
        reveal_strlit("triangle_small_slow");
        assert(pattern_names()[35] == "triangle_small_slow"@);
    } else if i == 36 {
        reveal_strlit("vertical_lines_bottom_to_top_slow");
        assert(pattern_names()[36] == "vertical_lines_bottom_to_top_slow"@);
    } else if i == 37 {
        reveal_strlit("vertical_lines_top_to_bottom_slow");
        assert(pattern_names()[37] == "vertical_lines_top_to_bottom_slow"@);
    }
}

/// Every pattern is found again under its own name, spelled with underscores or
/// with hyphens.
pub proof fn law_pattern_names(i: int)
    requires
        0 <= i < PATTERN_COUNT,
    ensures
        is_name_index(pattern_names()[i], i),
        is_name_index(replaced(pattern_names()[i], '_', '-'), i),
{
    let name = pattern_names()[i];
    lemma_pattern_name(i);
    assert forall|k: int| 0 <= k < name.len() implies name[k] != '-' by {
        lemma_no_hyphen(name, name.len(), k);
    }
    assert(replaced(name, '-', '_') =~= name);
    assert(replaced(replaced(name, '_', '-'), '-', '_') =~= name);
    assert forall|j: int| 0 <= j < i implies #[trigger] pattern_names()[j] != name by {
        lemma_pattern_name(j);
    }
}

// ---- devices ----------------------------------------------------------------

/// A number in decimal notation has no sign.
pub proof fn lemma_decimal_digits(n: nat)
    ensures
        unsigned_digits(decimal(n)) == decimal(n),
        decimal(n).len() > 0,
        '0' <= decimal(n)[0] <= '9',
    decreases n,
{
    if n >= 10 {
        lemma_decimal_digits(n / 10);
        assert(decimal(n)[0] == decimal(n / 10)[0]);
    }
}

/// What stands behind the prefix of a device's name.
pub proof fn lemma_device_name(kind: Seq<char>, index: int)
    requires
        0 <= index,
    ensures
        begins(device_name(kind, index), kind),
        device_name(kind, index).skip(kind.len() as int) == decimal((index + 1) as nat),
{
    let name = device_name(kind, index);
    assert(name.take(kind.len() as int) =~= kind);
    assert(name.skip(kind.len() as int) =~= decimal((index + 1) as nat));
    lemma_decimal_digits((index + 1) as nat);
    law_decimal_reads_back((index + 1) as nat);
}

/// The second letters tell the prefixes apart.
pub proof fn lemma_prefixes(kind: Seq<char>, other: Seq<char>, index: int)
    requires
        kind.len() > 1,
        other.len() > 1,
        kind[0] != other[0] || kind[1] != other[1],
    ensures
        !begins(device_name(kind, index), other),
{
    let name = device_name(kind, index);
    if begins(name, other) {
        assert(name.take(other.len() as int)[0] == other[0]);
        assert(name.take(other.len() as int)[1] == other[1]);
    }
}

/// An exported light reads back.
pub proof fn law_light_reads_back(light: u32, on: bool, frame: u32)
    requires
        light < u32::MAX,
    ensures
        device_in(device_name("light-"@, light as int), JsonView::PosInt(if on { 1 } else { 0 }), frame) == DeviceView::Light(
            LightEditInput { light, frame, state: if on { 1 } else { 0 } },
        ),
{
    lemma_device_name("light-"@, light as int);
    lemma_decimal_digits((light + 1) as nat);
    law_decimal_reads_back((light + 1) as nat);
}

/// Looking up the entries of a short object.
proof fn lemma_lookup_four(a: (Seq<char>, JsonView), b: (Seq<char>, JsonView), c: (Seq<char>, JsonView), d: (Seq<char>, JsonView))
    requires
        a.0 != b.0,
        a.0 != c.0,
        a.0 != d.0,
        b.0 != c.0,
        b.0 != d.0,
        c.0 != d.0,
    ensures
        lookup(seq![a, b, c, d], a.0) == Some(a.1),
        lookup(seq![a, b, c, d], b.0) == Some(b.1),
        lookup(seq![a, b, c, d], c.0) == Some(c.1),
        lookup(seq![a, b, c, d], d.0) == Some(d.1),
{
    let es = seq![a, b, c, d];
    lemma_lookup_at(es, 0);
    lemma_lookup_at(es, 1);
    lemma_lookup_at(es, 2);
    lemma_lookup_at(es, 3);
}

proof fn lemma_lookup_three(a: (Seq<char>, JsonView), b: (Seq<char>, JsonView), c: (Seq<char>, JsonView))
    requires
        a.0 != b.0,
        a.0 != c.0,
        b.0 != c.0,
    ensures
        lookup(seq![a, b, c], a.0) == Some(a.1),
        lookup(seq![a, b, c], b.0) == Some(b.1),
        lookup(seq![a, b, c], c.0) == Some(c.1),
{
    let es = seq![a, b, c];
    lemma_lookup_at(es, 0);
    lemma_lookup_at(es, 1);
    lemma_lookup_at(es, 2);
}

/// An exported turret reads back.
pub proof fn law_turret_reads_back(k: TurretKeyframe, frame: u32)
    requires
        k.channel < u8::MAX,
    ensures
        device_in(device_name("turret-"@, k.channel as int), turret_json(k), frame) == DeviceView::Turret(
            TurretKeyframeInput { frame, channel: k.channel, state: k.state, pan: k.pan, tilt: k.tilt },
        ),
{
    reveal_strlit("light-");
    reveal_strlit("laser-");
    reveal_strlit("lp-");
    reveal_strlit("turret-");
    reveal_strlit("state");
    reveal_strlit("pan");
    reveal_strlit("tilt");
    lemma_prefixes("turret-"@, "light-"@, k.channel as int);
    lemma_prefixes("turret-"@, "laser-"@, k.channel as int);
    lemma_prefixes("turret-"@, "lp-"@, k.channel as int);
    lemma_device_name("turret-"@, k.channel as int);
    lemma_decimal_digits((k.channel + 1) as nat);
    law_decimal_reads_back((k.channel + 1) as nat);
    assert("state"@.len() == 5 && "pan"@.len() == 3 && "tilt"@.len() == 4);
    lemma_lookup_three(
        ("state"@, JsonView::PosInt(k.state as u64)),
        ("pan"@, JsonView::PosInt(k.pan as u64)),
        ("tilt"@, JsonView::PosInt(k.tilt as u64)),
    );
}

/// An exported projector reads back.
pub proof fn law_projector_reads_back(k: ProjectorKeyframe, frame: u32)
    requires
        k.channel == 0,
    ensures
        device_in("lp-1"@, projector_json(k), frame) == DeviceView::Projector(
            ProjectorKeyframeInput {
                frame,
                channel: 0,
                state: k.state,
                gallery: k.gallery,
                pattern: k.pattern,
                colour: k.colour,
            },
        ),
{
    reveal_strlit("light-");
    reveal_strlit("laser-");
    reveal_strlit("lp-");
    reveal_strlit("lp-1");
    reveal_strlit("state");
    reveal_strlit("gallery");
    reveal_strlit("pattern");
    reveal_strlit("colour");
    assert("lp-1"@ =~= device_name("lp-"@, 0)) by {
        assert(decimal(1) =~= seq!['1']);
    }
    lemma_prefixes("lp-"@, "light-"@, 0);
    lemma_prefixes("lp-"@, "laser-"@, 0);
    lemma_device_name("lp-"@, 0);
    lemma_decimal_digits(1);
    law_decimal_reads_back(1);
    assert("gallery"@[0] != "pattern"@[0]);
    assert("state"@.len() == 5 && "gallery"@.len() == 7 && "pattern"@.len() == 7 && "colour"@.len() == 6);
    lemma_lookup_four(
        ("state"@, JsonView::PosInt(k.state as u64)),
        ("gallery"@, JsonView::PosInt(k.gallery as u64)),
        ("pattern"@, JsonView::PosInt(k.pattern as u64)),
        ("colour"@, JsonView::PosInt(k.colour as u64)),
    );
}

proof fn lemma_points_read_back(points: Seq<LaserPoint>)
    ensures
        points_in(points_json(points)) == points,
    decreases points.len(),
{
    if points.len() > 0 {
        let js = points_json(points);
        lemma_points_read_back(points.drop_last());
        assert(js.drop_last() =~= points_json(points.drop_last()));
        let p = points.last();
        assert(js.last() == point_json(p));
        let items = point_json(p)->Array_0;
        assert(items.len() == 5);
        assert(item_number(items, 0) == p.x);
        assert(item_number(items, 1) == p.y);
        assert(item_number(items, 2) == p.r);
        assert(item_number(items, 3) == p.g);
        assert(item_number(items, 4) == p.b);
        assert(point_in(items) == p);
        assert(points_in(js) =~= points);
    } else {
        assert(points_in(points_json(points)) =~= points);
    }
}

/// An exported laser reads back: its shape and its points, where it is on; that it
/// is off, where it is not or has no points. A package keeps its tint only as a
/// letter, which is not read.
pub proof fn law_laser_reads_back(k: LaserKeyframeView, frame: u32)
    requires
        k.channel < u8::MAX,
        k.pattern < PATTERN_COUNT,
    ensures
        device_in(device_name("laser-"@, k.channel as int), laser_json(k), frame) == DeviceView::Laser(
            if k.enable && k.points.len() > 0 {
                LaserInputView {
                    frame,
                    channel: k.channel,
                    enable: true,
                    pattern: k.pattern,
                    cr: 0,
                    cg: 0,
                    cb: 0,
                    points: k.points,
                }
            } else {
                LaserInputView {
                    frame,
                    channel: k.channel,
                    enable: false,
                    pattern: 0,
                    cr: 0,
                    cg: 0,
                    cb: 0,
                    points: Seq::empty(),
                }
            },
        ),
{
    reveal_strlit("light-");
    reveal_strlit("laser-");
    reveal_strlit("config");
    reveal_strlit("points");
    reveal_strlit("hex");
    reveal_strlit("value");
    lemma_prefixes("laser-"@, "light-"@, k.channel as int);
    lemma_device_name("laser-"@, k.channel as int);
    lemma_decimal_digits((k.channel + 1) as nat);
    law_decimal_reads_back((k.channel + 1) as nat);
    if k.enable && k.points.len() > 0 {
        assert("config"@[0] != "points"@[0]);
        assert("config"@.len() == 6 && "points"@.len() == 6 && "hex"@.len() == 3 && "value"@.len() == 5);
        lemma_lookup_four(
            ("config"@, laser_json(k)->Object_0[0].1),
            ("points"@, JsonView::Array(points_json(k.points))),
            ("hex"@, JsonView::Text(hex_of(k.cr, k.cg, k.cb))),
            ("value"@, JsonView::Text(package_name(k.pattern))),
        );
        lemma_points_read_back(k.points);
        law_pattern_names(k.pattern as int);
        lemma_pattern_name(k.pattern as int);
        lemma_pattern_of(package_name(k.pattern), k.pattern as int);
    }
}

// ---- documents --------------------------------------------------------------

pub proof fn lemma_show_devices(entries: Seq<(Seq<char>, JsonView)>, frames: Seq<Option<u32>>, x: DeviceView)
    ensures
        show_devices(entries, frames).contains(x) <==> exists|i: int|
            0 <= i < entries.len() && #[trigger] entry_devices(entries[i], frames[i]).contains(x),
    decreases entries.len(),
{
    if entries.len() > 0 {
        let rest = entries.drop_last();
        let n = entries.len() - 1;
        lemma_show_devices(rest, frames, x);
        let a = show_devices(rest, frames);
        let b = entry_devices(entries[n], frames[n]);
        if show_devices(entries, frames).contains(x) {
            let k = choose|k: int| 0 <= k < (a + b).len() && (a + b)[k] == x;
            if k < a.len() {
                assert(a[k] == x);
                let i = choose|i: int| 0 <= i < rest.len() && #[trigger] entry_devices(rest[i], frames[i]).contains(x);
                assert(entry_devices(entries[i], frames[i]).contains(x));
            } else {
                assert(b[k - a.len()] == x);
                assert(entry_devices(entries[n], frames[n]).contains(x));
            }
        }
        if exists|i: int| 0 <= i < entries.len() && #[trigger] entry_devices(entries[i], frames[i]).contains(x) {
            let i = choose|i: int| 0 <= i < entries.len() && #[trigger] entry_devices(entries[i], frames[i]).contains(x);
            if i < n {
                assert(entry_devices(rest[i], frames[i]).contains(x));
                let k = choose|k: int| 0 <= k < a.len() && a[k] == x;
                assert((a + b)[k] == x);
            } else {
                let k = choose|k: int| 0 <= k < b.len() && b[k] == x;
                assert((a + b)[a.len() + k] == x);
            }
        }
    }
}

/// What the importer makes of the entry that counts for a device at a millisecond.
pub open spec fn imported<F: Fn(u32) -> i64>(
    es: Seq<DeviceEntryView>,
    f: F,
    back: spec_fn(u64) -> u32,
    ms: u64,
    device: Seq<char>,
    x: DeviceView,
) -> bool {
    counting(es, f, ms, device) matches Some(e) && x == device_in(device, e.value, back(ms))
}

/// The entry that counts is one of the entries, of that millisecond and device.
pub proof fn lemma_counting_is<F: Fn(u32) -> i64>(es: Seq<DeviceEntryView>, f: F, ms: u64, d: Seq<char>)
    ensures
        counting(es, f, ms, d) matches Some(e) ==> es.contains(e) && ms_of(f, e.frame) == ms && e.device == d,
    decreases es.len(),
{
    if es.len() > 0 {
        let rest = es.drop_last();
        lemma_counting_is(rest, f, ms, d);
        if let Some(e) = counting(rest, f, ms, d) {
            let i = choose|i: int| 0 <= i < rest.len() && rest[i] == e;
            assert(es[i] == e);
        }
        assert(es[es.len() - 1] == es.last());
    }
}

/// Times that can be told apart lose no entry: the last one of its frame and device
/// counts.
pub proof fn lemma_last_counts<F: Fn(u32) -> i64>(es: Seq<DeviceEntryView>, f: F, back: spec_fn(u64) -> u32, i: int, n: int)
    requires
        0 <= i < n <= es.len(),
        forall|j: int| 0 <= j < es.len() ==> back(ms_of(f, (#[trigger] es[j]).frame)) == es[j].frame,
        forall|j: int| i < j < es.len() ==> (#[trigger] es[j]).frame != es[i].frame || es[j].device != es[i].device,
    ensures
        counting(es.take(n), f, ms_of(f, es[i].frame), es[i].device) == Some(es[i]),
    decreases n,
{
    let ms = ms_of(f, es[i].frame);
    let d = es[i].device;
    let now = es.take(n);
    assert(now.drop_last() =~= es.take(n - 1));
    assert(now.last() == es[n - 1]);
    if n == i + 1 {
        lemma_counting_is(es.take(i), f, ms, d);
        if let Some(e) = counting(es.take(i), f, ms, d) {
            let j = choose|j: int| 0 <= j < es.take(i).len() && es.take(i)[j] == e;
            assert(es[j] == e);
            assert(back(ms_of(f, es[j].frame)) == es[j].frame);
            assert(back(ms_of(f, es[i].frame)) == es[i].frame);
        }
    } else {
        lemma_last_counts(es, f, back, i, n - 1);
        assert(back(ms_of(f, es[n - 1].frame)) == es[n - 1].frame);
        assert(back(ms_of(f, es[i].frame)) == es[i].frame);
    }
}

} // verus!
