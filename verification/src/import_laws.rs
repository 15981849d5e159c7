//! What an import keeps of a package: the length of the show, its beats and its
//! devices.
use crate::audio::at_most_zero;
use crate::audio_laws::law_piece;
use crate::chunking::piece;
use crate::export::device_name;
use crate::json::{is_number, is_positive, member, JsonView};
use crate::lists::{lemma_lists_next, lemma_pushed, lists};
use crate::package_laws::{lemma_decimal_digits, lemma_device_name, lemma_prefixes, lemma_show_devices};
use crate::patterns::{is_name_index, pattern_names};
use crate::rows::LightEditInput;
use crate::seeder::{
    beat_items, beats_in, byte_field, device_in, entry_devices, item_number, laser_in, last_frame, lasers_in, lights_in,
    point_in, points_in, pretty_name, projectors_in, is_name_order, named_before, precedes, seed_calls, show_devices, show_in, show_problem, turrets_in, CallView, ConvertedView, DeviceView,
};
use crate::songs::song_error;
use crate::store::{chunks_for, CHUNK_SIZE, MAX_SONG_BYTES};
use crate::text::{decimal, is_space, law_decimal_reads_back, replaced, trim_left, trim_right};
use crate::text_laws::{lemma_left, lemma_right};
use vstd::prelude::*;

verus! {

broadcast use vstd::seq::group_seq_axioms;

proof fn lemma_last_frame(entries: Seq<(Seq<char>, JsonView)>, frames: Seq<Option<u32>>)
    requires
        entries.len() <= frames.len(),
    ensures
        ({
            let m = last_frame(entries, frames);
            &&& forall|i: int| 0 <= i < entries.len() && (#[trigger] entries[i]).0 != "song"@ && frames[i] is Some ==> frames[i]->0 <= m
            &&& m == 0 || exists|i: int| 0 <= i < entries.len() && (#[trigger] entries[i]).0 != "song"@ && frames[i] == Some(m)
        }),
    decreases entries.len(),
{
    if entries.len() > 0 {
        let p = entries.drop_last();
        let n = entries.len() - 1;
        lemma_last_frame(p, frames);
        let m = last_frame(p, frames);
        assert forall|i: int| 0 <= i < n implies #[trigger] p[i] == entries[i] by {}
        assert forall|i: int| 0 <= i < entries.len() && (#[trigger] entries[i]).0 != "song"@ && frames[i] is Some implies frames[i]->0
            <= last_frame(entries, frames) by {
            if i < n {
                assert(p[i] == entries[i]);
            }
        }
        if last_frame(entries, frames) == m && m != 0 {
            let i = choose|i: int| 0 <= i < p.len() && (#[trigger] p[i]).0 != "song"@ && frames[i] == Some(m);
            assert(entries[i].0 != "song"@);
        } else if last_frame(entries, frames) != m {
            assert(entries[n].0 != "song"@);
        }
    }
}

/// An imported show is long enough: where neither the end of its audio nor any frame
/// that its instructions name reaches 100,000, its length is the least number past all
/// of them; else it is 100,000.
pub proof fn law_show_length(
    folder: Option<Seq<char>>,
    meta: JsonView,
    bpm_bits: u32,
    duration_ms: u32,
    dur_frame: u32,
    entries: Seq<(Seq<char>, JsonView)>,
    frames: Seq<Option<u32>>,
    beats: Seq<u32>,
)
    requires
        frames.len() == entries.len(),
    ensures
        ({
            let n = show_in(folder, meta, bpm_bits, duration_ms, dur_frame, entries, frames, beats).num_frames;
            let fits = dur_frame < 100_000 && forall|i: int|
                0 <= i < entries.len() && (#[trigger] entries[i]).0 != "song"@ && frames[i] is Some ==> frames[i]->0 < 100_000;
            if fits {
                &&& n > dur_frame
                &&& forall|i: int| 0 <= i < entries.len() && (#[trigger] entries[i]).0 != "song"@ && frames[i] is Some ==> n > frames[i]->0
                &&& n - 1 == dur_frame || exists|i: int|
                    0 <= i < entries.len() && (#[trigger] entries[i]).0 != "song"@ && frames[i] is Some && frames[i]->0 == n - 1
            } else {
                n == 100_000
            }
        }),
{
    lemma_last_frame(entries, frames);
    let m = last_frame(entries, frames);
    if m != 0 {
        let i = choose|i: int| 0 <= i < entries.len() && (#[trigger] entries[i]).0 != "song"@ && frames[i] == Some(m);
        assert(frames[i]->0 == m);
    }
}

proof fn lemma_beats_in(items: Seq<JsonView>, frames: Seq<u32>, n: u32) -> (at: Seq<int>)
    ensures
        lists(at, items.len() as int, |i: int| is_number(items[i]) && frames[i] < n),
        beats_in(items, frames, n).len() == at.len(),
        forall|k: int| 0 <= k < at.len() ==> #[trigger] beats_in(items, frames, n)[k] == frames[at[k]],
    decreases items.len(),
{
    let p = |i: int| is_number(items[i]) && frames[i] < n;
    if items.len() == 0 {
        let at: Seq<int> = Seq::empty();
        assert(lists(at, 0, p));
        at
    } else {
        let prev = items.drop_last();
        let z = items.len() - 1;
        let at = lemma_beats_in(prev, frames, n);
        let q = |i: int| is_number(prev[i]) && frames[i] < n;
        assert(lists(at, z, p)) by {
            assert forall|a: int| 0 <= a < at.len() implies 0 <= #[trigger] at[a] < z && p(at[a]) by {
                assert(q(at[a]));
                assert(prev[at[a]] == items[at[a]]);
            }
            assert forall|i: int| 0 <= i < z && #[trigger] p(i) implies at.contains(i) by {
                assert(prev[i] == items[i]);
                assert(q(i));
            }
        }
        lemma_lists_next(at, z, p);
        if p(z) {
            at.push(z)
        } else {
            at
        }
    }
}

/// An imported show keeps, in order, every beat of the metadata that is a number and
/// falls into the show, and no other; so none at or before the end of the audio is
/// lost.
pub proof fn law_beats_kept(
    folder: Option<Seq<char>>,
    meta: JsonView,
    bpm_bits: u32,
    duration_ms: u32,
    dur_frame: u32,
    entries: Seq<(Seq<char>, JsonView)>,
    frames: Seq<Option<u32>>,
    beats: Seq<u32>,
    items: Seq<JsonView>,
)
    requires
        frames.len() == entries.len(),
        member(meta, "beats"@) == Some(JsonView::Array(items)),
        beats.len() == items.len(),
    ensures
        ({
            let c = show_in(folder, meta, bpm_bits, duration_ms, dur_frame, entries, frames, beats);
            &&& exists|at: Seq<int>|
                #![trigger at.len()]
                {
                    &&& lists(at, items.len() as int, |i: int| is_number(items[i]) && beats[i] < c.num_frames)
                    &&& c.beats_frames == at.map_values(|i: int| beats[i])
                }
            &&& forall|i: int|
                0 <= i < items.len() && is_number(#[trigger] items[i]) && beats[i] <= dur_frame && beats[i] < 100_000
                    ==> c.beats_frames.contains(beats[i])
        }),
{
    let c = show_in(folder, meta, bpm_bits, duration_ms, dur_frame, entries, frames, beats);
    let n = c.num_frames;
    assert(beat_items(meta) == items);
    let at = lemma_beats_in(items, beats, n);
    assert(c.beats_frames =~= at.map_values(|i: int| beats[i]));
    law_show_length(folder, meta, bpm_bits, duration_ms, dur_frame, entries, frames, beats);
    let p = |i: int| is_number(items[i]) && beats[i] < n;
    assert forall|i: int|
        0 <= i < items.len() && is_number(#[trigger] items[i]) && beats[i] <= dur_frame && beats[i] < 100_000 implies c.beats_frames.contains(
        beats[i],
    ) by {
        assert(beats[i] < n);
        assert(p(i));
        let k = choose|k: int| 0 <= k < at.len() && at[k] == i;
        assert(c.beats_frames[k] == beats[i]);
    }
}

proof fn lemma_devices(entries: Seq<(Seq<char>, JsonView)>, frames: Seq<Option<u32>>, x: DeviceView)
    ensures
        show_devices(entries, frames).contains(x) <==> exists|i: int, k: int| #[trigger] sets(entries, frames, i, k, x),
{
    lemma_show_devices(entries, frames, x);
    if show_devices(entries, frames).contains(x) {
        let i = choose|i: int| 0 <= i < entries.len() && #[trigger] entry_devices(entries[i], frames[i]).contains(x);
        let xs = entry_devices(entries[i], frames[i]);
        let k = choose|k: int| 0 <= k < xs.len() && xs[k] == x;
        assert(sets(entries, frames, i, k, x));
    }
    if exists|i: int, k: int| #[trigger] sets(entries, frames, i, k, x) {
        let (i, k) = choose|i: int, k: int| #[trigger] sets(entries, frames, i, k, x);
        assert(entry_devices(entries[i], frames[i])[k] == x);
        assert(entry_devices(entries[i], frames[i]).contains(x));
    }
}

/// The `k`-th device of the entry `i` of the instructions says `x`, and the entry is at
/// a time.
pub open spec fn sets(entries: Seq<(Seq<char>, JsonView)>, frames: Seq<Option<u32>>, i: int, k: int, x: DeviceView) -> bool {
    &&& 0 <= i < entries.len() && entries[i].0 != "song"@ && frames[i] is Some && entries[i].1 is Object
    &&& 0 <= k < entries[i].1->Object_0.len()
    &&& x == device_in(entries[i].1->Object_0[k].0, entries[i].1->Object_0[k].1, frames[i]->0)
}

proof fn lemma_sorted_devices(ds: Seq<DeviceView>, x: DeviceView)
    ensures
        x matches DeviceView::Light(e) ==> (lights_in(ds).contains(e) <==> ds.contains(x)),
        x matches DeviceView::Laser(e) ==> (lasers_in(ds).contains(e) <==> ds.contains(x)),
        x matches DeviceView::Projector(e) ==> (projectors_in(ds).contains(e) <==> ds.contains(x)),
        x matches DeviceView::Turret(e) ==> (turrets_in(ds).contains(e) <==> ds.contains(x)),
    decreases ds.len(),
{
    if ds.len() > 0 {
        let p = ds.drop_last();
        lemma_sorted_devices(p, x);
        assert(ds =~= p.push(ds.last()));
        lemma_pushed(p, ds.last(), x);
        match (x, ds.last()) {
            (DeviceView::Light(e), DeviceView::Light(y)) => lemma_pushed(lights_in(p), y, e),
            (DeviceView::Laser(e), DeviceView::Laser(y)) => lemma_pushed(lasers_in(p), y, e),
            (DeviceView::Projector(e), DeviceView::Projector(y)) => lemma_pushed(projectors_in(p), y, e),
            (DeviceView::Turret(e), DeviceView::Turret(y)) => lemma_pushed(turrets_in(p), y, e),
            _ => {},
        }
    }
}

/// An imported show has a keyframe for every device that an entry at a time sets, at
/// that entry's frame, and has no others.
pub proof fn law_devices_kept(
    folder: Option<Seq<char>>,
    meta: JsonView,
    bpm_bits: u32,
    duration_ms: u32,
    dur_frame: u32,
    entries: Seq<(Seq<char>, JsonView)>,
    frames: Seq<Option<u32>>,
    beats: Seq<u32>,
    x: DeviceView,
)
    requires
        !(x is Other),
    ensures
        ({
            let c = show_in(folder, meta, bpm_bits, duration_ms, dur_frame, entries, frames, beats);
            match x {
                DeviceView::Light(e) => c.lights.contains(e),
                DeviceView::Laser(e) => c.lasers.contains(e),
                DeviceView::Projector(e) => c.projectors.contains(e),
                DeviceView::Turret(e) => c.turrets.contains(e),
                DeviceView::Other => true,
            }
        }) <==> exists|i: int, k: int| #[trigger] sets(entries, frames, i, k, x),
{
    lemma_devices(entries, frames, x);
    lemma_sorted_devices(show_devices(entries, frames), x);
}

/// Devices are numbered from one, so the light, laser, projector or turret `n` of a
/// package is the one at `n - 1`. A light is on where its value is above zero, and a
/// laser that is a number is off.
pub proof fn law_device_names(n: nat, val: JsonView, frame: u32)
    requires
        n >= 1,
    ensures
        n <= u32::MAX ==> device_in("light-"@ + decimal(n), val, frame) == DeviceView::Light(
            LightEditInput { light: (n - 1) as u32, frame, state: if is_positive(val) { 1 } else { 0 } },
        ),
        n <= u8::MAX ==> {
            &&& match device_in("laser-"@ + decimal(n), val, frame) {
                DeviceView::Laser(k) => {
                    &&& k.frame == frame
                    &&& k.channel == n - 1
                    &&& k.enable <==> !is_number(val)
                    &&& is_number(val) || member(val, "config"@) is Some
                },
                x => x is Other && !is_number(val) && member(val, "config"@) is None,
            }
            &&& match device_in("lp-"@ + decimal(n), val, frame) {
                DeviceView::Projector(k) => {
                    &&& k.frame == frame
                    &&& k.channel == n - 1
                    &&& k.state == byte_field(val, "state"@)
                    &&& k.gallery == byte_field(val, "gallery"@)
                    &&& k.pattern == byte_field(val, "pattern"@)
                    &&& k.colour == byte_field(val, "colour"@)
                },
                _ => false,
            }
            &&& match device_in("turret-"@ + decimal(n), val, frame) {
                DeviceView::Turret(k) => {
                    &&& k.frame == frame
                    &&& k.channel == n - 1
                    &&& k.state == byte_field(val, "state"@)
                    &&& k.pan == byte_field(val, "pan"@)
                    &&& k.tilt == byte_field(val, "tilt"@)
                },
                _ => false,
            }
        },
{
    reveal_strlit("light-");
    reveal_strlit("laser-");
    reveal_strlit("lp-");
    reveal_strlit("turret-");
    let i = n - 1;
    lemma_device_name("light-"@, i);
    lemma_device_name("laser-"@, i);
    lemma_device_name("lp-"@, i);
    lemma_device_name("turret-"@, i);
    lemma_prefixes("laser-"@, "light-"@, i);
    lemma_prefixes("lp-"@, "light-"@, i);
    lemma_prefixes("lp-"@, "laser-"@, i);
    lemma_prefixes("turret-"@, "light-"@, i);
    lemma_prefixes("turret-"@, "laser-"@, i);
    lemma_prefixes("turret-"@, "lp-"@, i);
    lemma_decimal_digits(n);
    law_decimal_reads_back(n);
    assert(device_name("light-"@, i) == "light-"@ + decimal(n));
    assert(device_name("laser-"@, i) == "laser-"@ + decimal(n));
    assert(device_name("lp-"@, i) == "lp-"@ + decimal(n));
    assert(device_name("turret-"@, i) == "turret-"@ + decimal(n));
}

/// A byte of a device is the number of its field, cut off at 255; nothing, or what is no
/// whole number that is not negative, reads as zero.
pub proof fn law_byte_field(val: JsonView, key: Seq<char>)
    ensures
        match member(val, key) {
            Some(JsonView::PosInt(n)) => {
                &&& n <= 255 ==> byte_field(val, key) == n
                &&& n > 255 ==> byte_field(val, key) == 255
            },
            _ => byte_field(val, key) == 0,
        },
{
}

/// A point keeps coordinates that fit into 16 bits and colours that fit into a byte;
/// other colours are cut off at the nearest end, and what is missing is zero.
pub proof fn law_point(items: Seq<JsonView>)
    ensures
        ({
            let p = point_in(items);
            let n = |i: int| item_number(items, i);
            &&& -0x8000 <= n(0) <= 0x7fff ==> p.x == n(0)
            &&& -0x8000 <= n(1) <= 0x7fff ==> p.y == n(1)
            &&& 0 <= n(2) <= 255 ==> p.r == n(2)
            &&& 0 <= n(3) <= 255 ==> p.g == n(3)
            &&& 0 <= n(4) <= 255 ==> p.b == n(4)
            &&& n(2) > 255 ==> p.r == 255
            &&& n(3) > 255 ==> p.g == 255
            &&& n(4) > 255 ==> p.b == 255
            &&& n(2) < 0 ==> p.r == 0
            &&& n(3) < 0 ==> p.g == 0
            &&& n(4) < 0 ==> p.b == 0
        }),
        forall|i: int| i >= items.len() ==> #[trigger] item_number(items, i) == 0,
        forall|i: int|
            0 <= i < items.len() && #[trigger] items[i] is PosInt && items[i]->PosInt_0 <= i64::MAX ==> item_number(items, i)
                == items[i]->PosInt_0,
        forall|i: int| 0 <= i < items.len() && #[trigger] items[i] is NegInt ==> item_number(items, i) == items[i]->NegInt_0,
{
}

/// Where every item of a laser's points is a list, each becomes a point, in order.
pub proof fn law_points(items: Seq<JsonView>)
    requires
        forall|i: int| 0 <= i < items.len() ==> #[trigger] items[i] is Array,
    ensures
        points_in(items).len() == items.len(),
        forall|i: int| 0 <= i < items.len() ==> #[trigger] points_in(items)[i] == point_in(items[i]->Array_0),
    decreases items.len(),
{
    if items.len() > 0 {
        let p = items.drop_last();
        assert forall|i: int| 0 <= i < p.len() implies #[trigger] p[i] is Array by {
            assert(p[i] == items[i]);
        }
        law_points(p);
        assert(items[items.len() - 1] == items.last());
    }
}

/// A project's name is its folder's with a space for each underscore, and without white
/// space at either end.
pub proof fn law_pretty_name(folder: Seq<char>) -> (ends: (int, int))
    ensures
        0 <= ends.0 <= ends.1 <= folder.len(),
        pretty_name(Some(folder)).len() == ends.1 - ends.0,
        forall|i: int|
            0 <= i < ends.1 - ends.0 ==> #[trigger] pretty_name(Some(folder))[i] == (if folder[ends.0 + i] == '_' {
                ' '
            } else {
                folder[ends.0 + i]
            }),
        forall|i: int| (0 <= i < ends.0 || ends.1 <= i < folder.len()) ==> (#[trigger] folder[i] == '_' || is_space(folder[i])),
        ends.0 < ends.1 ==> folder[ends.0] != '_' && !is_space(folder[ends.0]) && folder[ends.1 - 1] != '_' && !is_space(folder[ends.1 - 1]),
{
    let p = |c: char| is_space(c);
    let s = replaced(folder, '_', ' ');
    let a = lemma_left(s, p);
    let l = trim_left(s, p);
    let b = lemma_right(l, p);
    let r = (a, a + b);
    assert(pretty_name(Some(folder)) == trim_right(l, p));
    assert forall|i: int| (0 <= i < r.0 || r.1 <= i < folder.len()) implies (#[trigger] folder[i] == '_' || is_space(folder[i])) by {
        if i < a {
            assert(p(s[i]));
        } else {
            assert(p(l[i - a]));
            assert(l[i - a] == s[i]);
        }
    }
    if r.0 < r.1 {
        assert(l[0] == s[a]);
        assert(l[b - 1] == s[a + b - 1]);
    }
    r
}

// ---- seeding a show ---------------------------------------------------------

/// To seed a show is to create it with its size, then to send all its keyframes, then to
/// announce its song with its size and beats, then to send the song's bytes in order, chunk
/// by chunk. A song that is neither empty nor too large is announced so that it is taken.
pub proof fn law_seed_calls(show: ConvertedView, fps_bits: u32, file: Option<Seq<char>>, bytes: Seq<u8>, k: int, b: int)
    requires
        bytes.len() <= 0x3_ffff_ffff,
    ensures
        ({
            let calls = seed_calls(show, fps_bits, file, bytes);
            &&& calls.len() >= 6
            &&& calls[0] == (CallView::Project { num_lights: show.num_lights, num_frames: show.num_frames })
            &&& calls[1] == CallView::Lights(show.lights)
            &&& calls[2] == CallView::Lasers(show.lasers)
            &&& calls[3] == CallView::Projectors(show.projectors)
            &&& calls[4] == CallView::Turrets(show.turrets)
            &&& match calls[5] {
                CallView::Song { name, byte_len, num_chunks, duration_ms, fps_bits: fps, beats_frames, bpm_bits, first_beat_ms, .. } => {
                    &&& file is Some ==> name == file->0
                    &&& byte_len == bytes.len() && num_chunks == calls.len() - 6
                    &&& 0 < bytes.len() <= MAX_SONG_BYTES ==> song_error(byte_len, num_chunks) is None
                    &&& duration_ms == show.duration_ms && fps == fps_bits && beats_frames == show.beats_frames && bpm_bits == show.bpm_bits
                    &&& first_beat_ms == 0
                },
                _ => false,
            }
            &&& 0 <= k < calls.len() - 6 ==> match calls[6 + k] {
                CallView::Chunk { idx, data } => {
                    &&& idx == k
                    &&& 0 < data.len() <= CHUNK_SIZE
                    &&& k < calls.len() - 7 ==> data.len() == CHUNK_SIZE
                    &&& k == calls.len() - 7 ==> k * CHUNK_SIZE + data.len() == bytes.len()
                    &&& 0 <= b < data.len() ==> data[b] == bytes[k * CHUNK_SIZE + b]
                },
                _ => false,
            }
        }),
{
    let calls = seed_calls(show, fps_bits, file, bytes);
    let n = calls.len() - 6;
    assert(n == chunks_for(bytes.len() as int));
    if 0 <= k < n {
        assert(k * CHUNK_SIZE < bytes.len());
        law_piece(bytes, k, b);
        assert(calls[6 + k] == (CallView::Chunk { idx: k as u32, data: piece(bytes, k) }));
    }
}

/// Shows are seeded in the order of their names: of two names with a common start the one
/// whose next character is smaller comes first, and a name comes before every longer one that
/// starts with it.
pub proof fn law_name_order(start: Seq<char>, a: Seq<char>, b: Seq<char>)
    requires
        b.len() > 0,
    ensures
        a.len() > 0 && a[0] < b[0] ==> precedes(start + a, start + b) && !precedes(start + b, start + a),
        precedes(start, start + b) && !precedes(start + b, start),
        !precedes(start, start),
    decreases start.len(),
{
    if start.len() > 0 {
        let rest = start.drop_first();
        law_name_order(rest, a, b);
        assert((start + a).drop_first() =~= rest + a);
        assert((start + b).drop_first() =~= rest + b);
    } else {
        assert(start + a =~= a);
        assert(start + b =~= b);
    }
}

/// A laser of a package has the pattern of the name it gives, and the points it lists, and no
/// tint of its own.
pub proof fn law_laser_in(frame: u32, channel: u8, val: JsonView, i: int)
    requires
        !is_number(val),
        member(val, "config"@) is Some,
    ensures
        laser_in(frame, channel, val) matches Some(k) && k.frame == frame && k.channel == channel && k.enable && k.cr == 0 && k.cg == 0
            && k.cb == 0,
        member(val, "value"@) matches Some(JsonView::Text(name)) && is_name_index(name, i) && i < 256 ==> laser_in(frame, channel, val)->0.pattern
            == i,
        member(val, "points"@) matches Some(JsonView::Array(items)) ==> laser_in(frame, channel, val)->0.points == points_in(items),
        member(val, "points"@) is None ==> laser_in(frame, channel, val)->0.points.len() == 0,
{
    if let Some(JsonView::Text(name)) = member(val, "value"@) {
        if is_name_index(name, i) {
            let j = choose|j: int| is_name_index(name, j);
            assert(is_name_index(name, j));
            if i < j {
                assert(pattern_names()[i] != replaced(name, '-', '_'));
            }
            if j < i {
                assert(pattern_names()[j] != replaced(name, '-', '_'));
            }
        }
    }
}

/// The documents of a package are a show exactly where the metadata has a tempo above zero and
/// the instructions are an object.
pub proof fn law_show_problem(meta: JsonView, bpm_bits: u32, instructions: JsonView)
    ensures
        show_problem(meta, bpm_bits, instructions) is None <==> (member(meta, "tempo"@) matches Some(t) && is_number(t)) && !at_most_zero(
            bpm_bits,
        ) && instructions is Object,
{
}

proof fn lemma_precedes_one_way(a: Seq<char>, b: Seq<char>)
    ensures
        !(precedes(a, b) && precedes(b, a)),
        !precedes(a, a),
    decreases a.len(),
{
    if a.len() > 0 && b.len() > 0 {
        lemma_precedes_one_way(a.drop_first(), b.drop_first());
    } else if a.len() > 0 {
        lemma_precedes_one_way(a.drop_first(), b);
    }
}

/// Every show is seeded once, and none before one whose name comes first.
pub proof fn law_show_order(order: Seq<usize>, names: Seq<Seq<char>>, n: nat, j: int, k: int, i: usize)
    requires
        is_name_order(order, names, n),
        0 <= j < k < order.len(),
        i < n,
    ensures
        order.len() == n,
        order[j] != order[k],
        !precedes(names[order[k] as int], names[order[j] as int]),
        exists|p: int| 0 <= p < order.len() && #[trigger] order[p] == i,
{
    assert(named_before(names, order[j], order[k]));
    let a = names[order[j] as int];
    let b = names[order[k] as int];
    lemma_precedes_one_way(a, b);
    lemma_precedes_one_way(b, a);
    assert(order.contains(i));
}

} // verus!
