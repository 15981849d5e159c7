//! The instructions file of an exported show: one entry per millisecond that
//! carries a keyframe, with every device that changes there.
use crate::export::{device_views, list_entries, show_entries, DeviceEntry, DeviceEntryView};
use crate::json::{distinct_keys, entry_views, lemma_object_view, lookup, Json, JsonView};
use crate::logic::{in_order, keyframe_map, Keyframe, Keyframes};
use crate::rows::{LaserKeyframe, ProjectorKeyframe, TurretKeyframe};
use crate::store::row_views;
use crate::text::{decimal, decimal_of, law_decimal_is_unique, same_str};
use vstd::prelude::*;

verus! {

broadcast use {vstd::seq::group_seq_axioms, vstd::string::group_string_axioms};

// ---- which entry counts -----------------------------------------------------

/// `f` answers every frame with one number.
pub open spec fn times_frames<F: Fn(u32) -> i64>(f: F) -> bool {
    &&& forall|x: u32| #[trigger] call_requires(f, (x,))
    &&& forall|x: u32, a: i64, b: i64| #[trigger] call_ensures(f, (x,), a) && #[trigger] call_ensures(f, (x,), b) ==> a == b
}

/// What `f` answers for a frame.
pub open spec fn time_of<F: Fn(u32) -> i64>(f: F, x: u32) -> i64 {
    choose|v: i64| call_ensures(f, (x,), v)
}

/// The millisecond of a frame, not below zero.
pub open spec fn ms_of<F: Fn(u32) -> i64>(f: F, x: u32) -> u64 {
    if time_of(f, x) < 0 {
        0
    } else {
        time_of(f, x) as u64
    }
}

/// The entry that counts for a device at a millisecond: of those at it the one of
/// the latest frame, and of one frame the last.
pub open spec fn counting<F: Fn(u32) -> i64>(es: Seq<DeviceEntryView>, f: F, ms: u64, device: Seq<char>) -> Option<DeviceEntryView>
    decreases es.len(),
{
    if es.len() == 0 {
        None
    } else {
        let best = counting(es.drop_last(), f, ms, device);
        let e = es.last();
        if ms_of(f, e.frame) == ms && e.device == device && (best is None || best->0.frame <= e.frame) {
            Some(e)
        } else {
            best
        }
    }
}

/// Some entry is at this millisecond.
pub open spec fn occurs<F: Fn(u32) -> i64>(es: Seq<DeviceEntryView>, f: F, ms: u64) -> bool {
    exists|i: int| 0 <= i < es.len() && ms_of(f, (#[trigger] es[i]).frame) == ms
}

// ---- slots ------------------------------------------------------------------

/// The entry that counts so far for a device at a millisecond.
struct Slot {
    ms: u64,
    entry: DeviceEntry,
}

/// A slot's key.
spec fn is_slot(s: Slot, ms: u64, device: Seq<char>) -> bool {
    s.ms == ms && s.entry.device@ == device
}

spec fn has_slot(ss: Seq<Slot>, ms: u64, device: Seq<char>) -> bool {
    exists|k: int| 0 <= k < ss.len() && is_slot(#[trigger] ss[k], ms, device)
}

spec fn slot_index(ss: Seq<Slot>, ms: u64, device: Seq<char>) -> int {
    choose|k: int| 0 <= k < ss.len() && is_slot(#[trigger] ss[k], ms, device)
}

/// The entry in a slot.
spec fn slot_entry(ss: Seq<Slot>, ms: u64, device: Seq<char>) -> Option<DeviceEntryView> {
    if has_slot(ss, ms, device) {
        Some(ss[slot_index(ss, ms, device)].entry@)
    } else {
        None
    }
}

/// No two slots have the same key.
spec fn slots_ok(ss: Seq<Slot>) -> bool {
    forall|i: int, j: int|
        0 <= i < j < ss.len() ==> (#[trigger] ss[i]).ms != (#[trigger] ss[j]).ms || ss[i].entry.device@ != ss[j].entry.device@
}

proof fn lemma_slot_at(ss: Seq<Slot>, k: int)
    requires
        slots_ok(ss),
        0 <= k < ss.len(),
    ensures
        slot_entry(ss, ss[k].ms, ss[k].entry.device@) == Some(ss[k].entry@),
{
    let ms = ss[k].ms;
    let d = ss[k].entry.device@;
    assert(is_slot(ss[k], ms, d));
    let m = slot_index(ss, ms, d);
    if m < k {
        assert(ss[m].ms != ss[k].ms || ss[m].entry.device@ != ss[k].entry.device@);
    } else if k < m {
        assert(ss[k].ms != ss[m].ms || ss[k].entry.device@ != ss[m].entry.device@);
    }
}

/// Replacing a slot's entry changes what is found under its key alone.
proof fn lemma_slot_update(ss: Seq<Slot>, k: int, s: Slot, ms: u64, device: Seq<char>)
    requires
        slots_ok(ss),
        0 <= k < ss.len(),
        is_slot(s, ss[k].ms, ss[k].entry.device@),
    ensures
        slots_ok(ss.update(k, s)),
        slot_entry(ss.update(k, s), ms, device) == (if is_slot(s, ms, device) {
            Some(s.entry@)
        } else {
            slot_entry(ss, ms, device)
        }),
{
    let t = ss.update(k, s);
    assert forall|i: int, j: int| 0 <= i < j < t.len() implies (#[trigger] t[i]).ms != (#[trigger] t[j]).ms || t[i].entry.device@
        != t[j].entry.device@ by {
        assert(ss[i].ms != ss[j].ms || ss[i].entry.device@ != ss[j].entry.device@);
    }
    if is_slot(s, ms, device) {
        lemma_slot_at(t, k);
    } else {
        if has_slot(ss, ms, device) {
            let m = slot_index(ss, ms, device);
            assert(t[m] == ss[m]);
            lemma_slot_at(t, m);
        } else if has_slot(t, ms, device) {
            let m = slot_index(t, ms, device);
            assert(t[m] == ss[m]);
        }
    }
}

/// A new slot adds what is found under its key.
proof fn lemma_slot_push(ss: Seq<Slot>, s: Slot, ms: u64, device: Seq<char>)
    requires
        slots_ok(ss),
        !has_slot(ss, s.ms, s.entry.device@),
    ensures
        slots_ok(ss.push(s)),
        slot_entry(ss.push(s), ms, device) == (if is_slot(s, ms, device) {
            Some(s.entry@)
        } else {
            slot_entry(ss, ms, device)
        }),
{
    let t = ss.push(s);
    assert forall|i: int, j: int| 0 <= i < j < t.len() implies (#[trigger] t[i]).ms != (#[trigger] t[j]).ms || t[i].entry.device@
        != t[j].entry.device@ by {
        if j < ss.len() {
            assert(ss[i].ms != ss[j].ms || ss[i].entry.device@ != ss[j].entry.device@);
        } else if t[i].ms == s.ms && t[i].entry.device@ == s.entry.device@ {
            assert(is_slot(ss[i], s.ms, s.entry.device@));
        }
    }
    if is_slot(s, ms, device) {
        lemma_slot_at(t, ss.len() as int);
    } else {
        if has_slot(ss, ms, device) {
            let m = slot_index(ss, ms, device);
            assert(t[m] == ss[m]);
            lemma_slot_at(t, m);
        } else if has_slot(t, ms, device) {
            let m = slot_index(t, ms, device);
            assert(t[m] == ss[m]);
        }
    }
}

fn find_slot(ss: &Vec<Slot>, ms: u64, device: &String) -> (r: Option<usize>)
    ensures
        match r {
            Some(k) => k < ss@.len() && is_slot(ss@[k as int], ms, device@),
            None => !has_slot(ss@, ms, device@),
        },
{
    let mut i: usize = 0;
    while i < ss.len()
        invariant
            i <= ss@.len(),
            forall|j: int| 0 <= j < i ==> !is_slot(#[trigger] ss@[j], ms, device@),
        decreases ss@.len() - i,
    {
        if ss[i].ms == ms && same_str(ss[i].entry.device.as_str(), device.as_str()) {
            return Some(i);
        }
        i = i + 1;
    }
    None
}

/// The slots hold, for each millisecond and device, the entry that counts.
spec fn slots_count<F: Fn(u32) -> i64>(ss: Seq<Slot>, es: Seq<DeviceEntryView>, f: F) -> bool {
    forall|ms: u64, d: Seq<char>| #[trigger] slot_entry(ss, ms, d) == counting(es, f, ms, d)
}

/// The elements in reverse order.
fn reversed<T>(v: Vec<T>) -> (r: Vec<T>)
    ensures
        r@ == v@.reverse(),
{
    let ghost all = v@;
    let mut v: Vec<T> = v;
    let mut out: Vec<T> = Vec::new();
    while v.len() > 0
        invariant
            v@.len() <= all.len(),
            v@ == all.take(v@.len() as int),
            out@ == all.skip(v@.len() as int).reverse(),
        decreases v@.len(),
    {
        let ghost n = v@.len() as int;
        let e: Option<T> = v.pop();
        match e {
            Some(e) => {
                out.push(e);
                proof {
                    assert(e == all[n - 1]);
                    assert(v@ =~= all.take(n - 1));
                    assert(out@ =~= all.skip(n - 1).reverse());
                }
            },
            None => {},
        }
    }
    assert(out@ =~= all.reverse());
    out
}

/// Sorts the entries into slots.
fn fill_slots<F: Fn(u32) -> i64>(entries: Vec<DeviceEntry>, frame_to_ms: &F) -> (r: Vec<Slot>)
    requires
        times_frames(*frame_to_ms),
    ensures
        slots_ok(r@),
        slots_count(r@, device_views(entries@), *frame_to_ms),
        forall|i: int|
            0 <= i < entries@.len() ==> call_ensures(
                *frame_to_ms,
                ((#[trigger] entries@[i]).frame,),
                time_of(*frame_to_ms, entries@[i].frame),
            ),
{
    let ghost all = entries@;
    let ghost es = device_views(all);
    let n: usize = entries.len();
    let mut left: Vec<DeviceEntry> = reversed(entries);
    let mut ss: Vec<Slot> = Vec::new();
    let mut i: usize = 0;
    assert(all.skip(0) =~= all);
    while i < n
        invariant
            i <= n == all.len(),
            es == device_views(all),
            times_frames(*frame_to_ms),
            left@ == all.skip(i as int).reverse(),
            slots_ok(ss@),
            slots_count(ss@, es.take(i as int), *frame_to_ms),
            forall|j: int|
                0 <= j < i ==> call_ensures(*frame_to_ms, ((#[trigger] all[j]).frame,), time_of(*frame_to_ms, all[j].frame)),
        decreases n - i,
    {
        let ghost before = ss@;
        let last: Option<DeviceEntry> = left.pop();
        let e: DeviceEntry = match last {
            Some(e) => e,
            None => {
                return ss;
            },
        };
        let ghost v = e@;
        proof {
            assert(e == all[i as int]);
            assert(left@ =~= all.skip(i + 1).reverse());
            assert(es[i as int] == v);
            assert(es.take(i + 1).drop_last() =~= es.take(i as int));
        }
        let t: i64 = frame_to_ms(e.frame);
        assert(t == time_of(*frame_to_ms, e.frame));
        let ms: u64 = if t < 0 { 0 } else { t as u64 };
        assert(ms == ms_of(*frame_to_ms, e.frame));
        let k: Option<usize> = find_slot(&ss, ms, &e.device);
        match k {
            Some(k) => {
                proof {
                    lemma_slot_at(before, k as int);
                }
                if ss[k].entry.frame <= e.frame {
                    let s: Slot = Slot { ms, entry: e };
                    ss.set(k, s);
                    proof {
                        assert forall|m: u64, d: Seq<char>| #[trigger] slot_entry(ss@, m, d) == counting(es.take(i + 1), *frame_to_ms, m, d) by {
                            lemma_slot_update(before, k as int, s, m, d);
                            assert(slot_entry(before, m, d) == counting(es.take(i as int), *frame_to_ms, m, d));
                        }
                        lemma_slot_update(before, k as int, s, ms, v.device);
                    }
                } else {
                    proof {
                        assert forall|m: u64, d: Seq<char>| #[trigger] slot_entry(ss@, m, d) == counting(es.take(i + 1), *frame_to_ms, m, d) by {
                            assert(slot_entry(before, m, d) == counting(es.take(i as int), *frame_to_ms, m, d));
                        }
                    }
                }
            },
            None => {
                let s: Slot = Slot { ms, entry: e };
                ss.push(s);
                proof {
                    assert forall|m: u64, d: Seq<char>| #[trigger] slot_entry(ss@, m, d) == counting(es.take(i + 1), *frame_to_ms, m, d) by {
                        lemma_slot_push(before, s, m, d);
                        assert(slot_entry(before, m, d) == counting(es.take(i as int), *frame_to_ms, m, d));
                    }
                    lemma_slot_push(before, s, ms, v.device);
                }
            },
        }
        i = i + 1;
    }
    assert(es.take(es.len() as int) =~= es);
    ss
}

// ---- the document -----------------------------------------------------------

/// The value of a device at a millisecond of the document.
pub open spec fn device_at(doc: JsonView, ms: u64, device: Seq<char>) -> Option<JsonView> {
    match doc {
        JsonView::Object(outer) => match lookup(outer, decimal(ms as nat)) {
            Some(JsonView::Object(devices)) => lookup(devices, device),
            _ => None,
        },
        _ => None,
    }
}

/// The text is a millisecond.
pub open spec fn is_ms(t: Seq<char>) -> bool {
    exists|ms: u64| t == #[trigger] decimal(ms as nat)
}

/// The value of an entry.
pub open spec fn value_of(e: Option<DeviceEntryView>) -> Option<JsonView> {
    match e {
        Some(e) => Some(e.value),
        None => None,
    }
}

/// The document holds the entries: an object keyed by millisecond, with an object
/// of devices at each one that occurs, and for each device the entry that counts.
pub open spec fn is_instructions<F: Fn(u32) -> i64>(doc: JsonView, es: Seq<DeviceEntryView>, f: F) -> bool {
    &&& doc is Object
    &&& distinct_keys(doc->Object_0)
    &&& forall|i: int|
        0 <= i < doc->Object_0.len() ==> is_ms((#[trigger] doc->Object_0[i]).0) && doc->Object_0[i].1 is Object && distinct_keys(
            doc->Object_0[i].1->Object_0,
        )
    &&& forall|ms: u64| lookup(doc->Object_0, #[trigger] decimal(ms as nat)) is Some <==> occurs(es, f, ms)
    &&& forall|ms: u64, d: Seq<char>| #[trigger] device_at(doc, ms, d) == value_of(counting(es, f, ms, d))
}

pub proof fn lemma_lookup_push(entries: Seq<(Seq<char>, JsonView)>, e: (Seq<char>, JsonView), q: Seq<char>)
    ensures
        lookup(entries.push(e), q) == (match lookup(entries, q) {
            Some(v) => Some(v),
            None => if e.0 == q {
                Some(e.1)
            } else {
                None
            },
        }),
    decreases entries.len(),
{
    if entries.len() == 0 {
        assert(entries.push(e).drop_first() =~= Seq::<(Seq<char>, JsonView)>::empty());
    } else {
        assert(entries.push(e)[0] == entries[0]);
        assert(entries.push(e).drop_first() =~= entries.drop_first().push(e));
        lemma_lookup_push(entries.drop_first(), e, q);
    }
}

/// What is looked up is there.
pub proof fn lemma_lookup(entries: Seq<(Seq<char>, JsonView)>, q: Seq<char>)
    ensures
        lookup(entries, q) is Some <==> exists|i: int| 0 <= i < entries.len() && (#[trigger] entries[i]).0 == q,
    decreases entries.len(),
{
    if entries.len() > 0 {
        let rest = entries.drop_first();
        lemma_lookup(rest, q);
        if entries[0].0 != q {
            if lookup(rest, q) is Some {
                let i = choose|i: int| 0 <= i < rest.len() && (#[trigger] rest[i]).0 == q;
                assert(entries[i + 1].0 == q);
            }
            if exists|i: int| 0 <= i < entries.len() && (#[trigger] entries[i]).0 == q {
                let i = choose|i: int| 0 <= i < entries.len() && (#[trigger] entries[i]).0 == q;
                assert(rest[i - 1].0 == q);
            }
        }
    }
}

/// The devices of one millisecond.
struct Group {
    ms: u64,
    devices: Vec<(String, Json)>,
}

spec fn has_group(gs: Seq<Group>, ms: u64) -> bool {
    exists|k: int| 0 <= k < gs.len() && (#[trigger] gs[k]).ms == ms
}

spec fn group_index(gs: Seq<Group>, ms: u64) -> int {
    choose|k: int| 0 <= k < gs.len() && (#[trigger] gs[k]).ms == ms
}

spec fn group_value(gs: Seq<Group>, ms: u64, d: Seq<char>) -> Option<JsonView> {
    if has_group(gs, ms) {
        lookup(entry_views(gs[group_index(gs, ms)].devices@), d)
    } else {
        None
    }
}

/// Milliseconds are distinct, and so are the devices of each.
spec fn groups_ok(gs: Seq<Group>) -> bool {
    &&& forall|i: int, j: int| 0 <= i < j < gs.len() ==> (#[trigger] gs[i]).ms != (#[trigger] gs[j]).ms
    &&& forall|i: int| 0 <= i < gs.len() ==> distinct_keys(entry_views((#[trigger] gs[i]).devices@))
}

proof fn lemma_group_at(gs: Seq<Group>, k: int)
    requires
        groups_ok(gs),
        0 <= k < gs.len(),
    ensures
        has_group(gs, gs[k].ms),
        group_index(gs, gs[k].ms) == k,
{
    assert(has_group(gs, gs[k].ms));
    let m = group_index(gs, gs[k].ms);
    if m < k {
        assert(gs[m].ms != gs[k].ms);
    } else if k < m {
        assert(gs[k].ms != gs[m].ms);
    }
}

/// Some of the slots is at this millisecond.
spec fn slot_occurs(ss: Seq<Slot>, ms: u64) -> bool {
    exists|k: int| 0 <= k < ss.len() && (#[trigger] ss[k]).ms == ms
}

fn find_group(gs: &Vec<Group>, ms: u64) -> (r: Option<usize>)
    ensures
        match r {
            Some(k) => k < gs@.len() && gs@[k as int].ms == ms,
            None => !has_group(gs@, ms),
        },
{
    let mut i: usize = gs.len();
    while i > 0
        invariant
            i <= gs@.len(),
            forall|j: int| i <= j < gs@.len() ==> (#[trigger] gs@[j]).ms != ms,
        decreases i,
    {
        i = i - 1;
        if gs[i].ms == ms {
            return Some(i);
        }
    }
    None
}

/// The groups after the slot `s` was added to them.
proof fn lemma_group_push(gs: Seq<Group>, g: Group, ss: Seq<Slot>, s: Slot, ms: u64, d: Seq<char>)
    requires
        groups_ok(gs),
        !has_group(gs, s.ms),
        g.ms == s.ms,
        entry_views(g.devices@) == seq![(s.entry.device@, s.entry.value@)],
        slots_ok(ss),
        !has_slot(ss, s.ms, s.entry.device@),
        group_value(gs, ms, d) == value_of(slot_entry(ss, ms, d)),
        has_group(gs, ms) <==> slot_occurs(ss, ms),
    ensures
        groups_ok(gs.push(g)),
        group_value(gs.push(g), ms, d) == value_of(slot_entry(ss.push(s), ms, d)),
        has_group(gs.push(g), ms) <==> slot_occurs(ss.push(s), ms),
{
    let t = gs.push(g);
    let one = entry_views(g.devices@);
    assert(groups_ok(t)) by {
        assert forall|i: int, j: int| 0 <= i < j < t.len() implies (#[trigger] t[i]).ms != (#[trigger] t[j]).ms by {
            if j < gs.len() {
                assert(gs[i].ms != gs[j].ms);
            } else {
                assert(gs[i].ms != s.ms);
            }
        }
        assert forall|i: int| 0 <= i < t.len() implies distinct_keys(entry_views((#[trigger] t[i]).devices@)) by {
            if i < gs.len() {
                assert(t[i] == gs[i]);
            }
        }
    }
    lemma_slot_push(ss, s, ms, d);
    lemma_occurs_push(ss, s, ms);
    lemma_group_at(t, gs.len() as int);
    if ms == s.ms {
        assert(one.drop_first() =~= Seq::<(Seq<char>, JsonView)>::empty());
        assert(lookup(one.drop_first(), d) is None);
    } else if has_group(gs, ms) {
        let k = group_index(gs, ms);
        lemma_group_at(gs, k);
        assert(t[k] == gs[k]);
        lemma_group_at(t, k);
    } else if has_group(t, ms) {
        let k = group_index(t, ms);
        assert(t[k] == gs[k]);
    }
}

proof fn lemma_occurs_push(ss: Seq<Slot>, s: Slot, ms: u64)
    ensures
        slot_occurs(ss.push(s), ms) <==> slot_occurs(ss, ms) || s.ms == ms,
{
    let t = ss.push(s);
    if slot_occurs(t, ms) {
        let k = choose|k: int| 0 <= k < t.len() && (#[trigger] t[k]).ms == ms;
        if k < ss.len() {
            assert(ss[k].ms == ms);
        }
    }
    if slot_occurs(ss, ms) {
        let k = choose|k: int| 0 <= k < ss.len() && (#[trigger] ss[k]).ms == ms;
        assert(t[k].ms == ms);
    }
    assert(t[ss.len() as int] == s);
}

proof fn lemma_group_update(gs: Seq<Group>, k: int, g: Group, ss: Seq<Slot>, s: Slot, ms: u64, d: Seq<char>)
    requires
        groups_ok(gs),
        0 <= k < gs.len(),
        gs[k].ms == s.ms,
        g.ms == s.ms,
        entry_views(g.devices@) == entry_views(gs[k].devices@).push((s.entry.device@, s.entry.value@)),
        slots_ok(ss),
        !has_slot(ss, s.ms, s.entry.device@),
        forall|x: u64, y: Seq<char>| #[trigger] group_value(gs, x, y) == value_of(slot_entry(ss, x, y)),
        has_group(gs, ms) <==> slot_occurs(ss, ms),
    ensures
        groups_ok(gs.update(k, g)),
        group_value(gs.update(k, g), ms, d) == value_of(slot_entry(ss.push(s), ms, d)),
        has_group(gs.update(k, g), ms) <==> slot_occurs(ss.push(s), ms),
{
    let t = gs.update(k, g);
    let old_devices = entry_views(gs[k].devices@);
    let new_devices = entry_views(g.devices@);
    let e = (s.entry.device@, s.entry.value@);
    lemma_group_at(gs, k);
    assert(group_value(gs, s.ms, s.entry.device@) == value_of(slot_entry(ss, s.ms, s.entry.device@)));
    assert(lookup(old_devices, e.0) is None);
    lemma_lookup(old_devices, e.0);
    assert(groups_ok(t)) by {
        assert forall|i: int, j: int| 0 <= i < j < t.len() implies (#[trigger] t[i]).ms != (#[trigger] t[j]).ms by {
            assert(gs[i].ms != gs[j].ms);
        }
        assert forall|i: int| 0 <= i < t.len() implies distinct_keys(entry_views((#[trigger] t[i]).devices@)) by {
            assert(distinct_keys(entry_views(gs[i].devices@)));
            if i == k {
                assert forall|a: int, b: int| 0 <= a < b < new_devices.len() implies (#[trigger] new_devices[a]).0 != (#[trigger] new_devices[b]).0 by {
                    assert(new_devices[a] == old_devices[a]);
                    if b < old_devices.len() {
                        assert(new_devices[b] == old_devices[b]);
                    }
                }
            }
        }
    }
    lemma_slot_push(ss, s, ms, d);
    lemma_occurs_push(ss, s, ms);
    lemma_group_at(t, k);
    assert(group_value(gs, ms, d) == value_of(slot_entry(ss, ms, d)));
    if ms == s.ms {
        lemma_lookup_push(old_devices, e, d);
    } else if has_group(gs, ms) {
        let m = group_index(gs, ms);
        lemma_group_at(gs, m);
        assert(t[m] == gs[m]);
        lemma_group_at(t, m);
    } else if has_group(t, ms) {
        let m = group_index(t, ms);
        assert(t[m].ms == gs[m].ms);
    }
}

/// Gathers the slots by millisecond.
fn gather_groups(ss: Vec<Slot>) -> (r: Vec<Group>)
    requires
        slots_ok(ss@),
    ensures
        groups_ok(r@),
        forall|ms: u64, d: Seq<char>| #[trigger] group_value(r@, ms, d) == value_of(slot_entry(ss@, ms, d)),
        forall|ms: u64| #[trigger] has_group(r@, ms) <==> slot_occurs(ss@, ms),
{
    let ghost all = ss@;
    let n: usize = ss.len();
    let mut gs: Vec<Group> = Vec::new();
    let mut left: Vec<Slot> = reversed(ss);
    assert(all.skip(0) =~= all);
    let mut i: usize = 0;
    assert(all.take(0) =~= Seq::<Slot>::empty());
    while i < n
        invariant
            i <= n == all.len(),
            slots_ok(all),
            left@ == all.skip(i as int).reverse(),
            groups_ok(gs@),
            forall|ms: u64, d: Seq<char>| #[trigger] group_value(gs@, ms, d) == value_of(slot_entry(all.take(i as int), ms, d)),
            forall|ms: u64| #[trigger] has_group(gs@, ms) <==> slot_occurs(all.take(i as int), ms),
        decreases n - i,
    {
        let ghost before = gs@;
        let ghost done = all.take(i as int);
        let last: Option<Slot> = left.pop();
        let s: Slot = match last {
            Some(s) => s,
            None => {
                return gs;
            },
        };
        proof {
            assert(s == all[i as int]);
            assert(left@ =~= all.skip(i + 1).reverse());
            assert(all.take(i + 1) =~= done.push(s));
            assert(slots_ok(done)) by {
                assert forall|a: int, b: int| 0 <= a < b < done.len() implies (#[trigger] done[a]).ms != (#[trigger] done[b]).ms
                    || done[a].entry.device@ != done[b].entry.device@ by {
                    assert(all[a].ms != all[b].ms || all[a].entry.device@ != all[b].entry.device@);
                }
            }
            assert(!has_slot(done, s.ms, s.entry.device@)) by {
                if has_slot(done, s.ms, s.entry.device@) {
                    let z = slot_index(done, s.ms, s.entry.device@);
                    assert(all[z].ms != all[i as int].ms || all[z].entry.device@ != all[i as int].entry.device@);
                }
            }
        }
        let ghost slot = s;
        let k: Option<usize> = find_group(&gs, s.ms);
        let ms: u64 = s.ms;
        let device: String = s.entry.device;
        let value: Json = s.entry.value;
        match k {
            Some(k) => {
                let mut g: Group = gs.remove(k);
                let ghost dev = g.devices@;
                g.devices.push((device, value));
                proof {
                    before.remove_ensures(k as int);
                    assert(entry_views(g.devices@) =~= entry_views(dev).push((slot.entry.device@, slot.entry.value@)));
                }
                let ghost g0 = g;
                gs.insert(k, g);
                proof {
                    before.remove(k as int).insert_ensures(k as int, g0);
                    assert(gs@ =~= before.update(k as int, g0));
                    assert forall|m: u64, d: Seq<char>| #[trigger] group_value(gs@, m, d) == value_of(slot_entry(all.take(i + 1), m, d)) by {
                        lemma_group_update(before, k as int, g0, done, slot, m, d);
                    }
                    assert forall|m: u64| #[trigger] has_group(gs@, m) <==> slot_occurs(all.take(i + 1), m) by {
                        lemma_group_update(before, k as int, g0, done, slot, m, Seq::empty());
                    }
                    lemma_group_update(before, k as int, g0, done, slot, ms, Seq::empty());
                }
            },
            None => {
                let mut devices: Vec<(String, Json)> = Vec::new();
                devices.push((device, value));
                let g: Group = Group { ms, devices };
                let ghost g0 = g;
                gs.push(g);
                proof {
                    assert(entry_views(g0.devices@) =~= seq![(slot.entry.device@, slot.entry.value@)]);
                    assert forall|m: u64, d: Seq<char>| #[trigger] group_value(gs@, m, d) == value_of(slot_entry(all.take(i + 1), m, d)) by {
                        assert(group_value(before, m, d) == value_of(slot_entry(done, m, d)));
                        lemma_group_push(before, g0, done, slot, m, d);
                    }
                    assert forall|m: u64| #[trigger] has_group(gs@, m) <==> slot_occurs(all.take(i + 1), m) by {
                        assert(group_value(before, m, Seq::empty()) == value_of(slot_entry(done, m, Seq::empty())));
                        lemma_group_push(before, g0, done, slot, m, Seq::empty());
                    }
                    assert(group_value(before, ms, Seq::empty()) == value_of(slot_entry(done, ms, Seq::empty())));
                    lemma_group_push(before, g0, done, slot, ms, Seq::empty());
                }
            },
        }
        i = i + 1;
    }
    assert(all.take(all.len() as int) =~= all);
    gs
}

pub proof fn lemma_lookup_at(entries: Seq<(Seq<char>, JsonView)>, i: int)
    requires
        distinct_keys(entries),
        0 <= i < entries.len(),
    ensures
        lookup(entries, entries[i].0) == Some(entries[i].1),
    decreases entries.len(),
{
    if i > 0 {
        let rest = entries.drop_first();
        assert(entries[0].0 != entries[i].0);
        assert forall|a: int, b: int| 0 <= a < b < rest.len() implies (#[trigger] rest[a]).0 != (#[trigger] rest[b]).0 by {
            assert(entries[a + 1].0 != entries[b + 1].0);
        }
        lemma_lookup_at(rest, i - 1);
        assert(rest[i - 1] == entries[i]);
    }
}

/// The document of the groups.
spec fn group_entries(gs: Seq<Group>) -> Seq<(Seq<char>, JsonView)> {
    Seq::new(gs.len(), |i: int| (decimal(gs[i].ms as nat), JsonView::Object(entry_views(gs[i].devices@))))
}

proof fn lemma_group_entries(gs: Seq<Group>)
    requires
        groups_ok(gs),
    ensures
        distinct_keys(group_entries(gs)),
        forall|ms: u64| lookup(group_entries(gs), #[trigger] decimal(ms as nat)) is Some <==> has_group(gs, ms),
        forall|ms: u64, d: Seq<char>| #[trigger] device_at(JsonView::Object(group_entries(gs)), ms, d) == group_value(gs, ms, d),
{
    let es = group_entries(gs);
    assert forall|i: int, j: int| 0 <= i < j < es.len() implies (#[trigger] es[i]).0 != (#[trigger] es[j]).0 by {
        assert(gs[i].ms != gs[j].ms);
        if es[i].0 == es[j].0 {
            law_decimal_is_unique(gs[i].ms as nat, gs[j].ms as nat);
        }
    }
    assert forall|ms: u64| lookup(es, #[trigger] decimal(ms as nat)) is Some <==> has_group(gs, ms) by {
        lemma_lookup(es, decimal(ms as nat));
        if has_group(gs, ms) {
            assert(es[group_index(gs, ms)].0 == decimal(ms as nat));
        }
        if lookup(es, decimal(ms as nat)) is Some {
            let i = choose|i: int| 0 <= i < es.len() && (#[trigger] es[i]).0 == decimal(ms as nat);
            law_decimal_is_unique(gs[i].ms as nat, ms as nat);
            assert(gs[i].ms == ms);
        }
    }
    assert forall|ms: u64, d: Seq<char>| #[trigger] device_at(JsonView::Object(es), ms, d) == group_value(gs, ms, d) by {
        assert(lookup(es, decimal(ms as nat)) is Some <==> has_group(gs, ms));
        if has_group(gs, ms) {
            let k = group_index(gs, ms);
            lemma_lookup_at(es, k);
            assert(es[k].0 == decimal(ms as nat));
        }
    }
}

/// Writes the groups down as a document.
fn document(gs: Vec<Group>) -> (r: Json)
    ensures
        r@ == JsonView::Object(group_entries(gs@)),
{
    let ghost all = gs@;
    let n: usize = gs.len();
    let mut left: Vec<Group> = reversed(gs);
    let mut out: Vec<(String, Json)> = Vec::new();
    assert(all.skip(0) =~= all);
    let mut i: usize = 0;
    while i < n
        invariant
            i <= n == all.len(),
            left@ == all.skip(i as int).reverse(),
            entry_views(out@) == group_entries(all.take(i as int)),
        decreases n - i,
    {
        let last: Option<Group> = left.pop();
        match last {
            Some(g) => {
                let ghost before = out@;
                proof {
                    assert(g == all[i as int]);
                    assert(left@ =~= all.skip(i + 1).reverse());
                    lemma_object_view(g.devices);
                }
                out.push((decimal_of(g.ms), Json::Object(g.devices)));
                assert(entry_views(out@) =~= entry_views(before).push(
                    (decimal(g.ms as nat), JsonView::Object(entry_views(g.devices@))),
                ));
                assert(group_entries(all.take(i + 1)) =~= group_entries(all.take(i as int)).push(
                    (decimal(g.ms as nat), JsonView::Object(entry_views(g.devices@))),
                ));
            },
            None => {},
        }
        i = i + 1;
    }
    assert(all.take(all.len() as int) =~= all);
    proof {
        lemma_object_view(out);
    }
    Json::Object(out)
}

/// Whether a millisecond occurs shows in which entries count at it.
proof fn lemma_occurs<F: Fn(u32) -> i64>(es: Seq<DeviceEntryView>, f: F, ms: u64)
    ensures
        occurs(es, f, ms) <==> exists|d: Seq<char>| #[trigger] counting(es, f, ms, d) is Some,
    decreases es.len(),
{
    if es.len() > 0 {
        let rest = es.drop_last();
        lemma_occurs(rest, f, ms);
        if occurs(es, f, ms) {
            let i = choose|i: int| 0 <= i < es.len() && ms_of(f, (#[trigger] es[i]).frame) == ms;
            if i < rest.len() {
                assert(rest[i] == es[i]);
                assert(occurs(rest, f, ms));
                let d = choose|d: Seq<char>| #[trigger] counting(rest, f, ms, d) is Some;
                assert(counting(es, f, ms, d) is Some);
            } else {
                assert(counting(es, f, ms, es.last().device) is Some);
            }
        }
        if exists|d: Seq<char>| #[trigger] counting(es, f, ms, d) is Some {
            let d = choose|d: Seq<char>| #[trigger] counting(es, f, ms, d) is Some;
            if counting(rest, f, ms, d) is Some {
                let i = choose|i: int| 0 <= i < rest.len() && ms_of(f, (#[trigger] rest[i]).frame) == ms;
                assert(es[i] == rest[i]);
            } else {
                assert(es[es.len() - 1] == es.last());
            }
        }
    }
}

/// The instructions of a show: every light, laser, projector and turret keyframe,
/// merged under the millisecond of its frame. `frame_to_ms` gives the millisecond
/// of a frame.
pub fn build_instructions<F: Fn(u32) -> i64>(
    light_kf: &Keyframes,
    lasers: &Vec<LaserKeyframe>,
    projectors: &Vec<ProjectorKeyframe>,
    turrets: &Vec<TurretKeyframe>,
    frame_to_ms: F,
) -> (r: Json)
    requires
        times_frames(frame_to_ms),
    ensures
        in_order(light_kf.list()),
        keyframe_map(light_kf.list()) == light_kf@,
        is_instructions(r@, show_entries(light_kf.list(), row_views(lasers@), projectors@, turrets@), frame_to_ms),
        forall|i: int|
            0 <= i < show_entries(light_kf.list(), row_views(lasers@), projectors@, turrets@).len() ==> call_ensures(
                frame_to_ms,
                ((#[trigger] show_entries(light_kf.list(), row_views(lasers@), projectors@, turrets@)[i]).frame,),
                time_of(frame_to_ms, show_entries(light_kf.list(), row_views(lasers@), projectors@, turrets@)[i].frame),
            ),
{
    let lights: &Vec<Keyframe> = light_kf.entries();
    let entries: Vec<DeviceEntry> = list_entries(lights, lasers, projectors, turrets);
    let ghost es = device_views(entries@);
    let ss: Vec<Slot> = fill_slots(entries, &frame_to_ms);
    assert forall|i: int| 0 <= i < es.len() implies call_ensures(
        frame_to_ms,
        ((#[trigger] es[i]).frame,),
        time_of(frame_to_ms, es[i].frame),
    ) by {
        assert(es[i].frame == entries@[i].frame);
    }
    let gs: Vec<Group> = gather_groups(ss);
    proof {
        lemma_group_entries(gs@);
        let doc = JsonView::Object(group_entries(gs@));
        assert forall|ms: u64| lookup(doc->Object_0, #[trigger] decimal(ms as nat)) is Some <==> occurs(es, frame_to_ms, ms) by {
            assert(has_group(gs@, ms) <==> slot_occurs(ss@, ms));
            lemma_occurs(es, frame_to_ms, ms);
            if slot_occurs(ss@, ms) {
                let k = choose|k: int| 0 <= k < ss@.len() && (#[trigger] ss@[k]).ms == ms;
                lemma_slot_at(ss@, k);
                assert(counting(es, frame_to_ms, ms, ss@[k].entry.device@) is Some);
            }
            if occurs(es, frame_to_ms, ms) {
                let d = choose|d: Seq<char>| #[trigger] counting(es, frame_to_ms, ms, d) is Some;
                assert(slot_entry(ss@, ms, d) is Some);
                let k = slot_index(ss@, ms, d);
                assert(ss@[k].ms == ms);
            }
        }
        assert forall|ms: u64, d: Seq<char>| #[trigger] device_at(doc, ms, d) == value_of(counting(es, frame_to_ms, ms, d)) by {
            assert(group_value(gs@, ms, d) == value_of(slot_entry(ss@, ms, d)));
            assert(slot_entry(ss@, ms, d) == counting(es, frame_to_ms, ms, d));
        }
        assert forall|i: int| 0 <= i < doc->Object_0.len() implies is_ms((#[trigger] doc->Object_0[i]).0) && doc->Object_0[i].1 is Object
            && distinct_keys(doc->Object_0[i].1->Object_0) by {
            assert(distinct_keys(entry_views(gs@[i].devices@)));
        }
    }
    document(gs)
}

} // verus!
