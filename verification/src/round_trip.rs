//! A packed show, read again: the importer finds what the exporter wrote.
use crate::export::{
    device_name, laser_entries, laser_json, light_entries, point_json, points_json, projector_entries, projector_json, show_entries,
    turret_entries, turret_json, DeviceEntryView, MAX_LIGHTS,
};
use crate::instructions::{counting, device_at, is_instructions, is_ms, lemma_lookup, lemma_lookup_at, ms_of, value_of};
use crate::json::{as_signed, distinct_keys, is_number, lookup, member, plain, same_document, JsonView, MAX_DEPTH};
use crate::logic::{in_order, key_before, key_of, keyframe_map, lemma_keyframe_at, overlaid, Keyframe};
use crate::package_laws::{
    imported, law_light_reads_back, lemma_counting_is, lemma_decimal_digits, lemma_device_name, lemma_last_counts, lemma_prefixes,
    lemma_show_devices,
};
use crate::rows::{LaserKeyframeView, LightEditInput, ProjectorKeyframe, TurretKeyframe};
use crate::seeder::{
    counts, device_in, devices_at, entry_devices, item_number, laser_in, lights_in, point_in, points_in, show_devices,
    DeviceView,
};
use crate::text::{begins, decimal, law_decimal_is_unique};
use vstd::prelude::*;

verus! {

broadcast use {vstd::seq::group_seq_axioms, vstd::string::group_string_axioms};

// ---- documents in another order ---------------------------------------------

/// A key is found in both forms of a document, with the same value, or in neither.
proof fn lemma_member(a: JsonView, b: JsonView, key: Seq<char>)
    requires
        same_document(a, b),
    ensures
        member(a, key) is Some <==> member(b, key) is Some,
        member(a, key) is Some ==> same_document(member(a, key)->0, member(b, key)->0),
{
    if let (JsonView::Object(x), JsonView::Object(y)) = (a, b) {
        lemma_lookup(x, key);
        lemma_lookup(y, key);
        if lookup(x, key) is Some {
            let i = choose|i: int| 0 <= i < x.len() && (#[trigger] x[i]).0 == key;
            lemma_lookup_at(x, i);
            assert(lookup(y, x[i].0) is Some);
        }
        if lookup(y, key) is Some {
            let j = choose|j: int| 0 <= j < y.len() && (#[trigger] y[j]).0 == key;
            assert(lookup(x, y[j].0) is Some);
        }
    }
}

proof fn lemma_points(x: Seq<JsonView>, y: Seq<JsonView>)
    requires
        x.len() == y.len(),
        forall|i: int| 0 <= i < x.len() ==> same_document(#[trigger] x[i], y[i]),
    ensures
        points_in(x) == points_in(y),
    decreases x.len(),
{
    if x.len() > 0 {
        let n = x.len() - 1;
        assert forall|i: int| 0 <= i < n implies same_document(#[trigger] x.drop_last()[i], y.drop_last()[i]) by {
            assert(same_document(x[i], y[i]));
        }
        lemma_points(x.drop_last(), y.drop_last());
        assert(same_document(x[n], y[n]));
        if let (JsonView::Array(p), JsonView::Array(q)) = (x[n], y[n]) {
            assert forall|i: int| 0 <= i < p.len() implies as_signed(#[trigger] p[i]) == as_signed(q[i]) by {
                assert(same_document(p[i], q[i]));
            }
            assert(forall|i: int| 0 <= i ==> item_number(p, i) == item_number(q, i));
            assert(point_in(p) == point_in(q));
        }
    }
}

/// The importer reads the same from both forms.
proof fn lemma_device(name: Seq<char>, a: JsonView, b: JsonView, frame: u32)
    requires
        same_document(a, b),
    ensures
        device_in(name, a, frame) == device_in(name, b, frame),
{
    lemma_member(a, b, "config"@);
    lemma_member(a, b, "value"@);
    lemma_member(a, b, "points"@);
    lemma_member(a, b, "state"@);
    lemma_member(a, b, "gallery"@);
    lemma_member(a, b, "pattern"@);
    lemma_member(a, b, "colour"@);
    lemma_member(a, b, "pan"@);
    lemma_member(a, b, "tilt"@);
    assert(is_number(a) == is_number(b));
    assert forall|channel: u8| #[trigger] laser_in(frame, channel, a) == laser_in(frame, channel, b) by {
        if let (Some(JsonView::Array(x)), Some(JsonView::Array(y))) = (member(a, "points"@), member(b, "points"@)) {
            lemma_points(x, y);
        }
    }
}

/// The document written for a show reads back as its keyframes, whatever order its
/// entries come in: where each key is given the frame of its millisecond, the
/// devices that are read are those of the entries that count, and no others.
pub proof fn law_written_show_reads_back<F: Fn(u32) -> i64>(
    doc: JsonView,
    read: JsonView,
    es: Seq<DeviceEntryView>,
    f: F,
    back: spec_fn(u64) -> u32,
    frames: Seq<Option<u32>>,
    x: DeviceView,
)
    requires
        is_instructions(doc, es, f),
        same_document(doc, read),
        frames.len() == read->Object_0.len(),
        forall|i: int, ms: u64|
            0 <= i < frames.len() && read->Object_0[i].0 == #[trigger] decimal(ms as nat) ==> #[trigger] frames[i] == Some(back(ms)),
    ensures
        read is Object,
        show_devices(read->Object_0, frames).contains(x) <==> exists|ms: u64, d: Seq<char>| #[trigger]
            imported(es, f, back, ms, d, x),
{
    let written = doc->Object_0;
    let outer = read->Object_0;
    lemma_show_devices(outer, frames, x);
    if show_devices(outer, frames).contains(x) {
        let i = choose|i: int| 0 <= i < outer.len() && #[trigger] entry_devices(outer[i], frames[i]).contains(x);
        lemma_lookup_at(outer, i);
        lemma_member(doc, read, outer[i].0);
        assert(lookup(written, outer[i].0) is Some);
        lemma_lookup(written, outer[i].0);
        let w = choose|w: int| 0 <= w < written.len() && (#[trigger] written[w]).0 == outer[i].0;
        lemma_lookup_at(written, w);
        assert(is_ms(written[w].0));
        let ms = choose|ms: u64| outer[i].0 == #[trigger] decimal(ms as nat);
        assert(frames[i] == Some(back(ms)));
        let devices = outer[i].1->Object_0;
        assert(same_document(written[w].1, outer[i].1));
        let xs = devices_at(devices, back(ms));
        let k = choose|k: int| 0 <= k < xs.len() && xs[k] == x;
        lemma_lookup_at(devices, k);
        let d = devices[k].0;
        lemma_member(written[w].1, outer[i].1, d);
        let v = member(written[w].1, d)->0;
        assert(device_at(doc, ms, d) == Some(v));
        assert(device_at(doc, ms, d) == value_of(counting(es, f, ms, d)));
        lemma_device(d, v, devices[k].1, back(ms));
        assert(imported(es, f, back, ms, d, x));
    }
    if exists|ms: u64, d: Seq<char>| #[trigger] imported(es, f, back, ms, d, x) {
        let (ms, d) = choose|ms: u64, d: Seq<char>| #[trigger] imported(es, f, back, ms, d, x);
        let e = counting(es, f, ms, d)->0;
        assert(device_at(doc, ms, d) == value_of(counting(es, f, ms, d)));
        let key = decimal(ms as nat);
        lemma_member(doc, read, key);
        lemma_lookup(outer, key);
        let i = choose|i: int| 0 <= i < outer.len() && (#[trigger] outer[i]).0 == key;
        lemma_lookup_at(outer, i);
        let written_devices = lookup(written, key)->0;
        assert(same_document(written_devices, outer[i].1));
        lemma_member(written_devices, outer[i].1, d);
        let devices = outer[i].1->Object_0;
        lemma_lookup(devices, d);
        let k = choose|k: int| 0 <= k < devices.len() && (#[trigger] devices[k]).0 == d;
        lemma_lookup_at(devices, k);
        lemma_device(d, e.value, devices[k].1, back(ms));
        assert(frames[i] == Some(back(ms)));
        lemma_decimal_digits(ms as nat);
        reveal_strlit("song");
        assert(key[0] != "song"@[0]);
        assert(counts(outer[i].0, frames[i]));
        let xs = devices_at(devices, back(ms));
        assert(xs[k] == x);
        assert(entry_devices(outer[i], frames[i]).contains(x));
    }
}

/// No keyframe of an exported show is lost: where the importer finds the frame of
/// every time that the export wrote, each entry that is the last of its frame and
/// device reads back at its frame.
pub proof fn law_keyframes_survive<F: Fn(u32) -> i64>(
    doc: JsonView,
    read: JsonView,
    es: Seq<DeviceEntryView>,
    f: F,
    back: spec_fn(u64) -> u32,
    frames: Seq<Option<u32>>,
    i: int,
)
    requires
        is_instructions(doc, es, f),
        same_document(doc, read),
        frames.len() == read->Object_0.len(),
        forall|k: int, ms: u64|
            0 <= k < frames.len() && read->Object_0[k].0 == #[trigger] decimal(ms as nat) ==> #[trigger] frames[k] == Some(back(ms)),
        forall|j: int| 0 <= j < es.len() ==> back(ms_of(f, (#[trigger] es[j]).frame)) == es[j].frame,
        0 <= i < es.len(),
        forall|j: int| i < j < es.len() ==> (#[trigger] es[j]).frame != es[i].frame || es[j].device != es[i].device,
    ensures
        show_devices(read->Object_0, frames).contains(device_in(es[i].device, es[i].value, es[i].frame)),
{
    let x = device_in(es[i].device, es[i].value, es[i].frame);
    let ms = ms_of(f, es[i].frame);
    lemma_last_counts(es, f, back, i, es.len() as int);
    assert(es.take(es.len() as int) =~= es);
    assert(back(ms_of(f, es[i].frame)) == es[i].frame);
    assert(imported(es, f, back, ms, es[i].device, x));
    law_written_show_reads_back(doc, read, es, f, back, frames, x);
}

// ---- what is written can be read --------------------------------------------

/// The values of the entries can be read.
pub open spec fn plain_entries(es: Seq<DeviceEntryView>, depth: nat) -> bool {
    forall|i: int| 0 <= i < es.len() ==> plain((#[trigger] es[i]).value, depth)
}

proof fn lemma_plain_instructions<F: Fn(u32) -> i64>(doc: JsonView, es: Seq<DeviceEntryView>, f: F, depth: nat)
    requires
        is_instructions(doc, es, f),
        plain_entries(es, depth),
    ensures
        plain(doc, depth + 2),
{
    let outer = doc->Object_0;
    assert forall|i: int| 0 <= i < outer.len() implies plain((#[trigger] outer[i]).1, depth + 1) by {
        let devices = outer[i].1->Object_0;
        assert(is_ms(outer[i].0));
        let ms = choose|ms: u64| outer[i].0 == #[trigger] decimal(ms as nat);
        lemma_lookup_at(outer, i);
        assert forall|k: int| 0 <= k < devices.len() implies plain((#[trigger] devices[k]).1, depth) by {
            let d = devices[k].0;
            lemma_lookup_at(devices, k);
            assert(device_at(doc, ms, d) == value_of(counting(es, f, ms, d)));
            lemma_counting_is(es, f, ms, d);
            let e = counting(es, f, ms, d)->0;
            let j = choose|j: int| 0 <= j < es.len() && es[j] == e;
            assert(plain(es[j].value, depth));
        }
    }
}

proof fn lemma_plain_laser(k: LaserKeyframeView, depth: nat)
    requires
        depth >= 3,
    ensures
        plain(laser_json(k), depth),
{
    reveal_with_fuel(plain, 4);
    reveal_strlit("config");
    reveal_strlit("points");
    reveal_strlit("hex");
    reveal_strlit("value");
    reveal_strlit("speed-profile");
    reveal_strlit("home");
    assert("config"@[0] != "points"@[0]);
    if k.enable && k.points.len() > 0 {
        let config = seq![("speed-profile"@, JsonView::PosInt(1)), ("home"@, JsonView::Bool(false))];
        assert(distinct_keys(config)) by {
            assert("speed-profile"@.len() == 13 && "home"@.len() == 4);
        }
        assert(plain(JsonView::Object(config), (depth - 1) as nat));
        let points = points_json(k.points);
        assert forall|i: int| 0 <= i < points.len() implies plain(#[trigger] points[i], (depth - 2) as nat) by {
            let p = k.points[i];
            assert(points[i] == point_json(p));
            let items = point_json(p)->Array_0;
            assert forall|j: int| 0 <= j < items.len() implies plain(#[trigger] items[j], (depth - 3) as nat) by {}
        }
        assert(plain(JsonView::Array(points), (depth - 1) as nat));
        let entries = laser_json(k)->Object_0;
        assert("config"@.len() == 6 && "points"@.len() == 6 && "hex"@.len() == 3 && "value"@.len() == 5);
        assert(distinct_keys(entries));
        assert forall|i: int| 0 <= i < entries.len() implies plain((#[trigger] entries[i]).1, (depth - 1) as nat) by {}
    }
}

proof fn lemma_plain_turret(k: TurretKeyframe, depth: nat)
    requires
        depth >= 1,
    ensures
        plain(turret_json(k), depth),
{
    reveal_strlit("state");
    reveal_strlit("pan");
    reveal_strlit("tilt");
    assert("state"@.len() == 5 && "pan"@.len() == 3 && "tilt"@.len() == 4);
    let entries = turret_json(k)->Object_0;
    assert(distinct_keys(entries));
    assert forall|i: int| 0 <= i < entries.len() implies plain((#[trigger] entries[i]).1, (depth - 1) as nat) by {}
}

proof fn lemma_plain_projector(k: ProjectorKeyframe, depth: nat)
    requires
        depth >= 1,
    ensures
        plain(projector_json(k), depth),
{
    reveal_strlit("state");
    reveal_strlit("gallery");
    reveal_strlit("pattern");
    reveal_strlit("colour");
    assert("state"@.len() == 5 && "colour"@.len() == 6);
    assert("gallery"@[0] != "pattern"@[0] && "gallery"@.len() == 7 && "pattern"@.len() == 7);
    let entries = projector_json(k)->Object_0;
    assert(distinct_keys(entries));
    assert forall|i: int| 0 <= i < entries.len() implies plain((#[trigger] entries[i]).1, (depth - 1) as nat) by {}
}

proof fn lemma_plain_lights(list: Seq<Keyframe>, depth: nat)
    ensures
        plain_entries(light_entries(list), depth),
    decreases list.len(),
{
    if list.len() > 0 {
        lemma_plain_lights(list.drop_last(), depth);
    }
}

proof fn lemma_plain_lasers(rows: Seq<LaserKeyframeView>, depth: nat)
    requires
        depth >= 3,
    ensures
        plain_entries(laser_entries(rows), depth),
    decreases rows.len(),
{
    if rows.len() > 0 {
        lemma_plain_lasers(rows.drop_last(), depth);
        lemma_plain_laser(rows.last(), depth);
    }
}

proof fn lemma_plain_projectors(rows: Seq<ProjectorKeyframe>, depth: nat)
    requires
        depth >= 1,
    ensures
        plain_entries(projector_entries(rows), depth),
    decreases rows.len(),
{
    if rows.len() > 0 {
        lemma_plain_projectors(rows.drop_last(), depth);
        lemma_plain_projector(rows.last(), depth);
    }
}

proof fn lemma_plain_turrets(rows: Seq<TurretKeyframe>, depth: nat)
    requires
        depth >= 1,
    ensures
        plain_entries(turret_entries(rows), depth),
    decreases rows.len(),
{
    if rows.len() > 0 {
        lemma_plain_turrets(rows.drop_last(), depth);
        lemma_plain_turret(rows.last(), depth);
    }
}

/// The document of any show can be written and read.
pub proof fn law_show_is_plain<F: Fn(u32) -> i64>(
    doc: JsonView,
    lights: Seq<Keyframe>,
    lasers: Seq<LaserKeyframeView>,
    projectors: Seq<ProjectorKeyframe>,
    turrets: Seq<TurretKeyframe>,
    f: F,
)
    requires
        is_instructions(doc, show_entries(lights, lasers, projectors, turrets), f),
    ensures
        plain(doc, MAX_DEPTH as nat),
{
    let depth = (MAX_DEPTH - 2) as nat;
    lemma_plain_lights(lights, depth);
    lemma_plain_lasers(lasers, depth);
    lemma_plain_projectors(projectors, depth);
    lemma_plain_turrets(turrets, depth);
    lemma_plain_instructions(doc, show_entries(lights, lasers, projectors, turrets), f, depth);
}

// ---- the lights of a show ---------------------------------------------------

spec fn light_entry(k: Keyframe) -> DeviceEntryView {
    DeviceEntryView {
        frame: k.frame,
        device: device_name("light-"@, k.light as int),
        value: JsonView::PosInt(if k.on { 1 } else { 0 }),
    }
}

proof fn lemma_light_entries(list: Seq<Keyframe>, e: DeviceEntryView)
    ensures
        light_entries(list).contains(e) <==> exists|i: int|
            0 <= i < list.len() && (#[trigger] list[i]).light < MAX_LIGHTS && e == light_entry(list[i]),
    decreases list.len(),
{
    if list.len() > 0 {
        let rest = list.drop_last();
        let n = list.len() - 1;
        lemma_light_entries(rest, e);
        let before = light_entries(rest);
        let after = light_entries(list);
        if after.contains(e) {
            let k = choose|k: int| 0 <= k < after.len() && after[k] == e;
            if k < before.len() {
                assert(before[k] == e);
                let i = choose|i: int| 0 <= i < rest.len() && (#[trigger] rest[i]).light < MAX_LIGHTS && e == light_entry(rest[i]);
                assert(list[i] == rest[i]);
            } else {
                assert(e == light_entry(list[n]));
            }
        }
        if exists|i: int| 0 <= i < list.len() && (#[trigger] list[i]).light < MAX_LIGHTS && e == light_entry(list[i]) {
            let i = choose|i: int| 0 <= i < list.len() && (#[trigger] list[i]).light < MAX_LIGHTS && e == light_entry(list[i]);
            if i < n {
                assert(rest[i] == list[i]);
                let k = choose|k: int| 0 <= k < before.len() && before[k] == e;
                assert(after[k] == e);
            } else {
                assert(after.last() == e);
            }
        }
    }
}

/// The entries of the other fixtures are not named like lights.
proof fn lemma_not_lights(
    lasers: Seq<LaserKeyframeView>,
    projectors: Seq<ProjectorKeyframe>,
    turrets: Seq<TurretKeyframe>,
    e: DeviceEntryView,
)
    requires
        laser_entries(lasers).contains(e) || projector_entries(projectors).contains(e) || turret_entries(turrets).contains(e),
    ensures
        !begins(e.device, "light-"@),
    decreases lasers.len() + projectors.len() + turrets.len(),
{
    reveal_strlit("light-");
    reveal_strlit("laser-");
    reveal_strlit("lp-1");
    reveal_strlit("turret-");
    if laser_entries(lasers).contains(e) {
        let rest = laser_entries(lasers.drop_last());
        let k = choose|k: int| 0 <= k < laser_entries(lasers).len() && laser_entries(lasers)[k] == e;
        if k < rest.len() {
            assert(rest[k] == e);
            lemma_not_lights(lasers.drop_last(), projectors, turrets, e);
        } else {
            lemma_prefixes("laser-"@, "light-"@, lasers.last().channel as int);
        }
    } else if projector_entries(projectors).contains(e) {
        let rest = projector_entries(projectors.drop_last());
        let k = choose|k: int| 0 <= k < projector_entries(projectors).len() && projector_entries(projectors)[k] == e;
        if k < rest.len() {
            assert(rest[k] == e);
            lemma_not_lights(lasers, projectors.drop_last(), turrets, e);
        } else {
            assert(e.device.len() == 4);
        }
    } else {
        let rest = turret_entries(turrets.drop_last());
        let k = choose|k: int| 0 <= k < turret_entries(turrets).len() && turret_entries(turrets)[k] == e;
        if k < rest.len() {
            assert(rest[k] == e);
            lemma_not_lights(lasers, projectors, turrets.drop_last(), e);
        } else {
            lemma_prefixes("turret-"@, "light-"@, turrets.last().channel as int);
        }
    }
}

/// An entry of a show is that of a light, or is not named like one.
proof fn lemma_show_entry(
    lights: Seq<Keyframe>,
    lasers: Seq<LaserKeyframeView>,
    projectors: Seq<ProjectorKeyframe>,
    turrets: Seq<TurretKeyframe>,
    e: DeviceEntryView,
)
    requires
        show_entries(lights, lasers, projectors, turrets).contains(e),
    ensures
        light_entries(lights).contains(e) || !begins(e.device, "light-"@),
{
    let a = light_entries(lights);
    let b = laser_entries(lasers);
    let c = projector_entries(projectors);
    let d = turret_entries(turrets);
    let es = a + b + c + d;
    let k = choose|k: int| 0 <= k < es.len() && es[k] == e;
    if k < a.len() {
        assert(a[k] == e);
    } else {
        if k < a.len() + b.len() {
            assert(b[k - a.len()] == e);
        } else if k < a.len() + b.len() + c.len() {
            assert(c[k - a.len() - b.len()] == e);
        } else {
            assert(d[k - a.len() - b.len() - c.len()] == e);
        }
        lemma_not_lights(lasers, projectors, turrets, e);
    }
}

/// Where an entry is at a millisecond, one counts there.
proof fn lemma_some_counts<F: Fn(u32) -> i64>(es: Seq<DeviceEntryView>, f: F, e: DeviceEntryView)
    requires
        es.contains(e),
    ensures
        counting(es, f, ms_of(f, e.frame), e.device) is Some,
    decreases es.len(),
{
    let k = choose|k: int| 0 <= k < es.len() && es[k] == e;
    if k < es.len() - 1 {
        assert(es.drop_last()[k] == e);
        lemma_some_counts(es.drop_last(), f, e);
    }
}

proof fn lemma_lights_in(ds: Seq<DeviceView>, e: LightEditInput)
    ensures
        lights_in(ds).contains(e) <==> ds.contains(DeviceView::Light(e)),
    decreases ds.len(),
{
    if ds.len() > 0 {
        let rest = ds.drop_last();
        lemma_lights_in(rest, e);
        let before = lights_in(rest);
        let after = lights_in(ds);
        let x = DeviceView::Light(e);
        if after.contains(e) {
            let k = choose|k: int| 0 <= k < after.len() && after[k] == e;
            if k < before.len() {
                assert(before[k] == e);
                let i = choose|i: int| 0 <= i < rest.len() && rest[i] == x;
                assert(ds[i] == x);
            } else {
                assert(ds[ds.len() - 1] == x);
            }
        }
        if ds.contains(x) {
            let i = choose|i: int| 0 <= i < ds.len() && ds[i] == x;
            if i < rest.len() {
                assert(rest[i] == x);
                let k = choose|k: int| 0 <= k < before.len() && before[k] == e;
                assert(after[k] == e);
            } else {
                assert(after[after.len() - 1] == e);
            }
        }
    }
}

/// Edits of which no two disagree leave exactly their keyframes.
proof fn lemma_overlay(edits: Seq<LightEditInput>, k: (u32, u32))
    requires
        forall|i: int| 0 <= i < edits.len() ==> (#[trigger] edits[i]).state <= 1,
    ensures
        overlaid(Map::empty(), edits).contains_key(k) <==> exists|i: int|
            0 <= i < edits.len() && (#[trigger] edits[i]).light == k.0 && edits[i].frame == k.1,
        overlaid(Map::empty(), edits).contains_key(k) ==> exists|i: int|
            0 <= i < edits.len() && (#[trigger] edits[i]).light == k.0 && edits[i].frame == k.1 && overlaid(Map::empty(), edits)[k]
                == (edits[i].state == 1),
    decreases edits.len(),
{
    if edits.len() > 0 {
        let rest = edits.drop_last();
        let n = edits.len() - 1;
        assert forall|i: int| 0 <= i < rest.len() implies (#[trigger] rest[i]).state <= 1 by {
            assert(edits[i].state <= 1);
        }
        lemma_overlay(rest, k);
        assert(edits[n].state <= 1);
        if edits[n].light == k.0 && edits[n].frame == k.1 {
            assert(overlaid(Map::empty(), edits)[k] == (edits[n].state == 1));
        } else {
            if exists|i: int| 0 <= i < edits.len() && (#[trigger] edits[i]).light == k.0 && edits[i].frame == k.1 {
                let i = choose|i: int| 0 <= i < edits.len() && (#[trigger] edits[i]).light == k.0 && edits[i].frame == k.1;
                assert(rest[i] == edits[i]);
            }
            if overlaid(Map::empty(), rest).contains_key(k) {
                let i = choose|i: int|
                    0 <= i < rest.len() && (#[trigger] rest[i]).light == k.0 && rest[i].frame == k.1 && overlaid(Map::empty(), rest)[k]
                        == (rest[i].state == 1);
                assert(edits[i] == rest[i]);
            }
        }
    }
}

/// The keyframes of the lights that the player has.
pub open spec fn player_lights(m: Map<(u32, u32), bool>) -> Map<(u32, u32), bool> {
    Map::new(|k: (u32, u32)| k.0 < MAX_LIGHTS && m.contains_key(k), |k: (u32, u32)| m[k])
}

/// A light that is read is a keyframe of the show.
proof fn lemma_light_imported<F: Fn(u32) -> i64>(
    lights: Seq<Keyframe>,
    lasers: Seq<LaserKeyframeView>,
    projectors: Seq<ProjectorKeyframe>,
    turrets: Seq<TurretKeyframe>,
    f: F,
    back: spec_fn(u64) -> u32,
    ms: u64,
    d: Seq<char>,
    x: LightEditInput,
)
    requires
        imported(show_entries(lights, lasers, projectors, turrets), f, back, ms, d, DeviceView::Light(x)),
        forall|j: int|
            0 <= j < show_entries(lights, lasers, projectors, turrets).len() ==> back(
                ms_of(f, (#[trigger] show_entries(lights, lasers, projectors, turrets)[j]).frame),
            ) == show_entries(lights, lasers, projectors, turrets)[j].frame,
    ensures
        exists|i: int|
            0 <= i < lights.len() && (#[trigger] lights[i]).light < MAX_LIGHTS && x == (LightEditInput {
                light: lights[i].light,
                frame: lights[i].frame,
                state: if lights[i].on { 1 } else { 0 },
            }),
{
    let es = show_entries(lights, lasers, projectors, turrets);
    let e = counting(es, f, ms, d)->0;
    lemma_counting_is(es, f, ms, d);
    lemma_show_entry(lights, lasers, projectors, turrets, e);
    let j = choose|j: int| 0 <= j < es.len() && es[j] == e;
    assert(back(ms_of(f, es[j].frame)) == es[j].frame);
    lemma_light_entries(lights, e);
    let i = choose|i: int| 0 <= i < lights.len() && (#[trigger] lights[i]).light < MAX_LIGHTS && e == light_entry(lights[i]);
    law_light_reads_back(lights[i].light, lights[i].on, lights[i].frame);
}

/// A keyframe of the show is read.
proof fn lemma_light_exported<F: Fn(u32) -> i64>(
    lights: Seq<Keyframe>,
    lasers: Seq<LaserKeyframeView>,
    projectors: Seq<ProjectorKeyframe>,
    turrets: Seq<TurretKeyframe>,
    f: F,
    back: spec_fn(u64) -> u32,
    i: int,
) -> (ms: u64)
    requires
        in_order(lights),
        0 <= i < lights.len(),
        lights[i].light < MAX_LIGHTS,
        forall|j: int|
            0 <= j < show_entries(lights, lasers, projectors, turrets).len() ==> back(
                ms_of(f, (#[trigger] show_entries(lights, lasers, projectors, turrets)[j]).frame),
            ) == show_entries(lights, lasers, projectors, turrets)[j].frame,
    ensures
        imported(
            show_entries(lights, lasers, projectors, turrets),
            f,
            back,
            ms,
            device_name("light-"@, lights[i].light as int),
            DeviceView::Light(
                LightEditInput {
                    light: lights[i].light,
                    frame: lights[i].frame,
                    state: if lights[i].on { 1 } else { 0 },
                },
            ),
        ),
{
    let es = show_entries(lights, lasers, projectors, turrets);
    let own = light_entry(lights[i]);
    let ms = ms_of(f, own.frame);
    let d = own.device;
    lemma_light_entries(lights, own);
    assert(light_entries(lights).contains(own));
    let k = choose|k: int| 0 <= k < light_entries(lights).len() && light_entries(lights)[k] == own;
    assert(es[k] == own);
    lemma_some_counts(es, f, own);
    lemma_counting_is(es, f, ms, d);
    let e = counting(es, f, ms, d)->0;
    let j = choose|j: int| 0 <= j < es.len() && es[j] == e;
    assert(back(ms_of(f, es[j].frame)) == es[j].frame);
    assert(back(ms_of(f, es[k].frame)) == es[k].frame);
    assert(e.frame == own.frame);
    lemma_device_name("light-"@, lights[i].light as int);
    lemma_show_entry(lights, lasers, projectors, turrets, e);
    lemma_light_entries(lights, e);
    let o = choose|o: int| 0 <= o < lights.len() && (#[trigger] lights[o]).light < MAX_LIGHTS && e == light_entry(lights[o]);
    lemma_device_name("light-"@, lights[o].light as int);
    law_decimal_is_unique((lights[o].light + 1) as nat, (lights[i].light + 1) as nat);
    assert(lights[o].light == lights[i].light);
    if o < i {
        assert(key_before(key_of(lights[o]), key_of(lights[i])));
    } else if i < o {
        assert(key_before(key_of(lights[i]), key_of(lights[o])));
    }
    law_light_reads_back(lights[i].light, lights[i].on, lights[i].frame);
    ms
}

/// An exported show keeps its lights: where the importer finds the frame of every
/// time that the export wrote, the lights that it reads fold to the show's keyframes
/// of the lights that the player has.
pub proof fn law_lights_survive<F: Fn(u32) -> i64>(
    doc: JsonView,
    read: JsonView,
    lights: Seq<Keyframe>,
    lasers: Seq<LaserKeyframeView>,
    projectors: Seq<ProjectorKeyframe>,
    turrets: Seq<TurretKeyframe>,
    f: F,
    back: spec_fn(u64) -> u32,
    frames: Seq<Option<u32>>,
)
    requires
        in_order(lights),
        is_instructions(doc, show_entries(lights, lasers, projectors, turrets), f),
        same_document(doc, read),
        frames.len() == read->Object_0.len(),
        forall|k: int, ms: u64|
            0 <= k < frames.len() && read->Object_0[k].0 == #[trigger] decimal(ms as nat) ==> #[trigger] frames[k] == Some(back(ms)),
        forall|j: int|
            0 <= j < show_entries(lights, lasers, projectors, turrets).len() ==> back(
                ms_of(f, (#[trigger] show_entries(lights, lasers, projectors, turrets)[j]).frame),
            ) == show_entries(lights, lasers, projectors, turrets)[j].frame,
    ensures
        overlaid(Map::empty(), lights_in(show_devices(read->Object_0, frames))) == player_lights(keyframe_map(lights)),
{
    let es = show_entries(lights, lasers, projectors, turrets);
    let ds = show_devices(read->Object_0, frames);
    let edits = lights_in(ds);
    let got = overlaid(Map::empty(), edits);
    let want = player_lights(keyframe_map(lights));
    assert forall|k: int| 0 <= k < edits.len() implies exists|i: int|
        0 <= i < lights.len() && (#[trigger] lights[i]).light < MAX_LIGHTS && #[trigger] edits[k] == (LightEditInput {
            light: lights[i].light,
            frame: lights[i].frame,
            state: if lights[i].on { 1 } else { 0 },
        }) by {
        let x = edits[k];
        lemma_lights_in(ds, x);
        law_written_show_reads_back(doc, read, es, f, back, frames, DeviceView::Light(x));
        let (ms, d) = choose|ms: u64, d: Seq<char>| #[trigger] imported(es, f, back, ms, d, DeviceView::Light(x));
        lemma_light_imported(lights, lasers, projectors, turrets, f, back, ms, d, x);
    }
    assert forall|q: (u32, u32)|
        #[trigger] got.dom().contains(q) == want.dom().contains(q) && (got.dom().contains(q) ==> got[q] == want[q]) by {
        lemma_overlay(edits, q);
        if got.contains_key(q) {
            let k = choose|k: int|
                0 <= k < edits.len() && (#[trigger] edits[k]).light == q.0 && edits[k].frame == q.1 && got[q] == (edits[k].state == 1);
            let i = choose|i: int|
                0 <= i < lights.len() && (#[trigger] lights[i]).light < MAX_LIGHTS && edits[k] == (LightEditInput {
                    light: lights[i].light,
                    frame: lights[i].frame,
                    state: if lights[i].on { 1 } else { 0 },
                });
            lemma_keyframe_at(lights, i);
            assert(key_of(lights[i]) == q);
        }
        if want.contains_key(q) {
            let i = choose|i: int| 0 <= i < lights.len() && key_of(#[trigger] lights[i]) == q;
            let ms = lemma_light_exported(lights, lasers, projectors, turrets, f, back, i);
            let x = LightEditInput {
                light: lights[i].light,
                frame: lights[i].frame,
                state: if lights[i].on { 1 } else { 0 },
            };
            law_written_show_reads_back(doc, read, es, f, back, frames, DeviceView::Light(x));
            lemma_lights_in(ds, x);
            let k = choose|k: int| 0 <= k < edits.len() && edits[k] == x;
            assert(edits[k].light == q.0 && edits[k].frame == q.1);
        }
    }
    assert(got.dom() =~= want.dom());
    assert(got =~= want);
}

} // verus!
