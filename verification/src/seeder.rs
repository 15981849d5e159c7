//! Importing packaged shows as sample projects: what a package's documents hold,
//! and the calls that store it.
use crate::audio::at_most_zero;
use crate::chunking::{buffers, pieces, split_chunks};
use crate::json::{
    as_signed, as_unsigned, entry_views, is_number, is_positive, item_views, lemma_array_view, lemma_object_view, member,
    parse_json, parsed_json, Json, JsonView,
};
use crate::package::{extension, find_extension};
use crate::patterns::{is_name_index, name_to_id, pattern_names, PATTERN_COUNT};
use crate::rows::{
    LaserInputView, LaserKeyframeInput, LaserPoint, LightEditInput, ProjectorKeyframeInput, TurretKeyframeInput,
};
use crate::store::{chunks_for, lemma_views_push, row_views, CHUNK_SIZE};
use crate::text::{
    begins, chars_of, parse_unsigned, replace_char, replaced, same_str, strip_prefix, text_of, trim, trimmed, unsigned_value,
};
use vstd::prelude::*;

verus! {

broadcast use {vstd::seq::group_seq_axioms, vstd::string::group_string_axioms};

/// Reads a document of a package.
pub fn read_document(text: &str) -> (r: Result<Json, String>)
    ensures
        match r {
            Ok(j) => parsed_json(text@) == Ok::<JsonView, Seq<char>>(j@),
            Err(e) => parsed_json(text@) == Err::<JsonView, Seq<char>>(e@),
        },
{
    parse_json(text)
}

// ---- devices ----------------------------------------------------------------

/// What one entry of the instructions sets.
#[derive(Debug)]
pub enum Device {
    Light(LightEditInput),
    Laser(LaserKeyframeInput),
    Projector(ProjectorKeyframeInput),
    Turret(TurretKeyframeInput),
    /// Nothing that is known.
    Other,
}

/// What a [`Device`] holds.
pub enum DeviceView {
    Light(LightEditInput),
    Laser(LaserInputView),
    Projector(ProjectorKeyframeInput),
    Turret(TurretKeyframeInput),
    Other,
}

impl View for Device {
    type V = DeviceView;

    open spec fn view(&self) -> DeviceView {
        match self {
            Device::Light(x) => DeviceView::Light(*x),
            Device::Laser(x) => DeviceView::Laser(x@),
            Device::Projector(x) => DeviceView::Projector(*x),
            Device::Turret(x) => DeviceView::Turret(*x),
            Device::Other => DeviceView::Other,
        }
    }
}

/// The number behind a prefix, where it is one that is at most `max`.
pub open spec fn number_after(name: Seq<char>, prefix: Seq<char>, max: nat) -> Option<nat> {
    unsigned_value(name.skip(prefix.len() as int), 10, max)
}

/// A field as a byte: zero where it is missing, 255 where it is larger.
pub open spec fn byte_field(val: JsonView, key: Seq<char>) -> u8 {
    match member(val, key) {
        Some(v) => match as_unsigned(v) {
            Some(n) => if n > 255 {
                255
            } else {
                n as u8
            },
            None => 0,
        },
        None => 0,
    }
}

fn u8field(val: &Json, key: &str) -> (r: u8)
    ensures
        r == byte_field(val@, key@),
{
    match val.get(key) {
        Some(v) => match v.as_u64() {
            Some(n) => if n > 255 {
                255
            } else {
                n as u8
            },
            None => 0,
        },
        None => 0,
    }
}

/// The number at a place of a list, or zero.
pub open spec fn item_number(items: Seq<JsonView>, i: int) -> i64 {
    if i < items.len() {
        match as_signed(items[i]) {
            Some(n) => n,
            None => 0,
        }
    } else {
        0
    }
}

/// A number as a byte, cut off at both ends.
pub open spec fn clamped(n: i64) -> u8 {
    if n < 0 {
        0
    } else if n > 255 {
        255
    } else {
        n as u8
    }
}

/// A list of five numbers as a point; coordinates keep their lower 16 bits.
pub open spec fn point_in(items: Seq<JsonView>) -> LaserPoint {
    LaserPoint {
        x: item_number(items, 0) as i16,
        y: item_number(items, 1) as i16,
        r: clamped(item_number(items, 2)),
        g: clamped(item_number(items, 3)),
        b: clamped(item_number(items, 4)),
    }
}

/// The points in a list of lists; what is no list is left out.
pub open spec fn points_in(items: Seq<JsonView>) -> Seq<LaserPoint>
    decreases items.len(),
{
    if items.len() == 0 {
        Seq::empty()
    } else {
        let rest = points_in(items.drop_last());
        match items.last() {
            JsonView::Array(p) => rest.push(point_in(p)),
            _ => rest,
        }
    }
}

/// The pattern of this name, hyphens read as underscores; the first one where
/// there is none.
pub open spec fn pattern_of(name: Seq<char>) -> u8 {
    if exists|i: int| is_name_index(name, i) {
        (choose|i: int| is_name_index(name, i)) as u8
    } else {
        0
    }
}

/// The laser that an entry sets: a number blanks it, and an object without
/// `config` says nothing.
pub open spec fn laser_in(frame: u32, channel: u8, val: JsonView) -> Option<LaserInputView> {
    if is_number(val) {
        Some(LaserInputView { frame, channel, enable: false, pattern: 0, cr: 0, cg: 0, cb: 0, points: Seq::empty() })
    } else if member(val, "config"@) is None {
        None
    } else {
        Some(
            LaserInputView {
                frame,
                channel,
                enable: true,
                pattern: match member(val, "value"@) {
                    Some(JsonView::Text(name)) => pattern_of(name),
                    _ => 0,
                },
                cr: 0,
                cg: 0,
                cb: 0,
                points: match member(val, "points"@) {
                    Some(JsonView::Array(items)) => points_in(items),
                    _ => Seq::empty(),
                },
            },
        )
    }
}

fn number_at(items: &Vec<Json>, i: usize) -> (r: i64)
    ensures
        r == item_number(item_views(items@), i as int),
{
    if i < items.len() {
        match items[i].as_i64() {
            Some(n) => n,
            None => 0,
        }
    } else {
        0
    }
}

fn clamp_byte(n: i64) -> (r: u8)
    ensures
        r == clamped(n),
{
    if n < 0 {
        0
    } else if n > 255 {
        255
    } else {
        n as u8
    }
}

fn read_points(items: &Vec<Json>) -> (r: Vec<LaserPoint>)
    ensures
        r@ == points_in(item_views(items@)),
{
    let ghost all = item_views(items@);
    let mut out: Vec<LaserPoint> = Vec::new();
    let mut i: usize = 0;
    while i < items.len()
        invariant
            i <= items@.len(),
            all == item_views(items@),
            out@ == points_in(all.take(i as int)),
        decreases items@.len() - i,
    {
        assert(all.take(i + 1).drop_last() =~= all.take(i as int));
        assert(all.take(i + 1).last() == items@[i as int]@);
        match &items[i] {
            Json::Array(p) => {
                proof {
                    lemma_array_view(*p);
                }
                let x: i64 = number_at(p, 0);
                let y: i64 = number_at(p, 1);
                out.push(
                    LaserPoint {
                        x: #[verifier::truncate]
                        (x as i16),
                        y: #[verifier::truncate]
                        (y as i16),
                        r: clamp_byte(number_at(p, 2)),
                        g: clamp_byte(number_at(p, 3)),
                        b: clamp_byte(number_at(p, 4)),
                    },
                );
            },
            _ => {},
        }
        i = i + 1;
    }
    assert(all.take(all.len() as int) =~= all);
    out
}

/// Only one index is that of a name.
pub proof fn lemma_pattern_of(name: Seq<char>, i: int)
    requires
        is_name_index(name, i),
        pattern_names().len() == PATTERN_COUNT,
    ensures
        pattern_of(name) == i,
{
    let j = choose|j: int| is_name_index(name, j);
    assert(is_name_index(name, j));
    if i < j {
        assert(pattern_names()[i] != replaced(name, '-', '_'));
    } else if j < i {
        assert(pattern_names()[j] != replaced(name, '-', '_'));
    }
}

fn read_pattern(name: &str) -> (r: u8)
    ensures
        r == pattern_of(name@),
{
    let found: Option<u8> = name_to_id(name);
    match found {
        Some(i) => {
            proof {
                assert(pattern_names().len() == PATTERN_COUNT);
                lemma_pattern_of(name@, i as int);
            }
            i
        },
        None => {
            proof {
                if exists|i: int| is_name_index(name@, i) {
                    let i = choose|i: int| is_name_index(name@, i);
                    assert(pattern_names()[i] == replaced(name@, '-', '_'));
                }
            }
            0
        },
    }
}

/// The laser that an entry sets: see [`laser_in`].
pub fn parse_laser(frame: u32, channel: u8, val: &Json) -> (r: Option<LaserKeyframeInput>)
    ensures
        match r {
            Some(k) => laser_in(frame, channel, val@) == Some(k@),
            None => laser_in(frame, channel, val@) is None,
        },
{
    if val.number() {
        return Some(LaserKeyframeInput { frame, channel, enable: false, pattern: 0, cr: 0, cg: 0, cb: 0, points: Vec::new() });
    }
    if val.get("config").is_none() {
        return None;
    }
    let points: Vec<LaserPoint> = match val.get("points") {
        Some(Json::Array(items)) => {
            proof {
                lemma_array_view(*items);
            }
            read_points(items)
        },
        _ => Vec::new(),
    };
    let pattern: u8 = match val.get("value") {
        Some(Json::Text(name)) => read_pattern(name.as_str()),
        _ => 0,
    };
    Some(LaserKeyframeInput { frame, channel, enable: true, pattern, cr: 0, cg: 0, cb: 0, points })
}

/// What an entry of the instructions sets. Devices are numbered from one.
pub open spec fn device_in(name: Seq<char>, val: JsonView, frame: u32) -> DeviceView {
    if begins(name, "light-"@) {
        match number_after(name, "light-"@, u32::MAX as nat) {
            Some(n) => DeviceView::Light(
                LightEditInput {
                    light: (n - 1) as u32,
                    frame,
                    state: if is_positive(val) {
                        1
                    } else {
                        0
                    },
                },
            ),
            None => DeviceView::Other,
        }
    } else if begins(name, "laser-"@) {
        match number_after(name, "laser-"@, u8::MAX as nat) {
            Some(n) => match laser_in(frame, (n - 1) as u8, val) {
                Some(k) => DeviceView::Laser(k),
                None => DeviceView::Other,
            },
            None => DeviceView::Other,
        }
    } else if begins(name, "lp-"@) {
        match number_after(name, "lp-"@, u8::MAX as nat) {
            Some(n) => DeviceView::Projector(
                ProjectorKeyframeInput {
                    frame,
                    channel: (n - 1) as u8,
                    state: byte_field(val, "state"@),
                    gallery: byte_field(val, "gallery"@),
                    pattern: byte_field(val, "pattern"@),
                    colour: byte_field(val, "colour"@),
                },
            ),
            None => DeviceView::Other,
        }
    } else if begins(name, "turret-"@) {
        match number_after(name, "turret-"@, u8::MAX as nat) {
            Some(n) => DeviceView::Turret(
                TurretKeyframeInput {
                    frame,
                    channel: (n - 1) as u8,
                    state: byte_field(val, "state"@),
                    pan: byte_field(val, "pan"@),
                    tilt: byte_field(val, "tilt"@),
                },
            ),
            None => DeviceView::Other,
        }
    } else {
        DeviceView::Other
    }
}

/// The number of a device, where its name is that of one.
pub open spec fn device_number(name: Seq<char>) -> Option<nat> {
    if begins(name, "light-"@) {
        number_after(name, "light-"@, u32::MAX as nat)
    } else if begins(name, "laser-"@) {
        number_after(name, "laser-"@, u8::MAX as nat)
    } else if begins(name, "lp-"@) {
        number_after(name, "lp-"@, u8::MAX as nat)
    } else if begins(name, "turret-"@) {
        number_after(name, "turret-"@, u8::MAX as nat)
    } else {
        None
    }
}

fn read_number(name: &Vec<char>, prefix: &str, max: u64) -> (r: Option<u64>)
    requires
        begins(name@, prefix@),
        max <= 0xffff_ffff_ffff,
    ensures
        match number_after(name@, prefix@, max as nat) {
            Some(n) => r == Some(n as u64) && n <= max,
            None => r is None,
        },
{
    match strip_prefix(name, prefix) {
        Some(rest) => parse_unsigned(&rest, 10, max),
        None => None,
    }
}

fn has_prefix(name: &Vec<char>, prefix: &str) -> (r: bool)
    ensures
        r == begins(name@, prefix@),
{
    strip_prefix(name, prefix).is_some()
}

/// The number of a device, where its name is that of one.
fn find_number(name: &str) -> (r: Option<u64>)
    ensures
        match device_number(name@) {
            Some(n) => r == Some(n as u64) && n <= u32::MAX,
            None => r is None,
        },
{
    let v: Vec<char> = chars_of(name);
    if has_prefix(&v, "light-") {
        read_number(&v, "light-", 0xffff_ffff)
    } else if has_prefix(&v, "laser-") {
        read_number(&v, "laser-", 255)
    } else if has_prefix(&v, "lp-") {
        read_number(&v, "lp-", 255)
    } else if has_prefix(&v, "turret-") {
        read_number(&v, "turret-", 255)
    } else {
        None
    }
}

/// What an entry of the instructions sets: see [`device_in`].
pub fn read_device(name: &str, val: &Json, frame: u32) -> (r: Device)
    requires
        device_number(name@) != Some(0nat),
    ensures
        r@ == device_in(name@, val@, frame),
{
    let v: Vec<char> = chars_of(name);
    if has_prefix(&v, "light-") {
        match read_number(&v, "light-", 0xffff_ffff) {
            Some(n) => Device::Light(
                LightEditInput {
                    light: (n - 1) as u32,
                    frame,
                    state: if val.positive() {
                        1
                    } else {
                        0
                    },
                },
            ),
            None => Device::Other,
        }
    } else if has_prefix(&v, "laser-") {
        match read_number(&v, "laser-", 255) {
            Some(n) => match parse_laser(frame, (n - 1) as u8, val) {
                Some(k) => Device::Laser(k),
                None => Device::Other,
            },
            None => Device::Other,
        }
    } else if has_prefix(&v, "lp-") {
        match read_number(&v, "lp-", 255) {
            Some(n) => Device::Projector(
                ProjectorKeyframeInput {
                    frame,
                    channel: (n - 1) as u8,
                    state: u8field(val, "state"),
                    gallery: u8field(val, "gallery"),
                    pattern: u8field(val, "pattern"),
                    colour: u8field(val, "colour"),
                },
            ),
            None => Device::Other,
        }
    } else if has_prefix(&v, "turret-") {
        match read_number(&v, "turret-", 255) {
            Some(n) => Device::Turret(
                TurretKeyframeInput {
                    frame,
                    channel: (n - 1) as u8,
                    state: u8field(val, "state"),
                    pan: u8field(val, "pan"),
                    tilt: u8field(val, "tilt"),
                },
            ),
            None => Device::Other,
        }
    } else {
        Device::Other
    }
}

// ---- a show -----------------------------------------------------------------

/// A show of a package, ready to be stored. The name is also its key.
#[derive(Debug)]
pub struct Converted {
    pub name: String,
    pub num_lights: u32,
    pub num_frames: u32,
    /// Tempo, as bits.
    pub bpm_bits: u32,
    pub duration_ms: u32,
    pub beats_frames: Vec<u32>,
    pub lights: Vec<LightEditInput>,
    pub lasers: Vec<LaserKeyframeInput>,
    pub projectors: Vec<ProjectorKeyframeInput>,
    pub turrets: Vec<TurretKeyframeInput>,
}

/// What a [`Converted`] holds.
pub struct ConvertedView {
    pub name: Seq<char>,
    pub num_lights: u32,
    pub num_frames: u32,
    pub bpm_bits: u32,
    pub duration_ms: u32,
    pub beats_frames: Seq<u32>,
    pub lights: Seq<LightEditInput>,
    pub lasers: Seq<LaserInputView>,
    pub projectors: Seq<ProjectorKeyframeInput>,
    pub turrets: Seq<TurretKeyframeInput>,
}

impl View for Converted {
    type V = ConvertedView;

    open spec fn view(&self) -> ConvertedView {
        ConvertedView {
            name: self.name@,
            num_lights: self.num_lights,
            num_frames: self.num_frames,
            bpm_bits: self.bpm_bits,
            duration_ms: self.duration_ms,
            beats_frames: self.beats_frames@,
            lights: self.lights@,
            lasers: row_views(self.lasers@),
            projectors: self.projectors@,
            turrets: self.turrets@,
        }
    }
}

/// An entry of the instructions counts: its key is a time, not `song`.
pub open spec fn counts(key: Seq<char>, frame: Option<u32>) -> bool {
    key != "song"@ && frame is Some
}

/// The devices set at one time.
pub open spec fn devices_at(devices: Seq<(Seq<char>, JsonView)>, frame: u32) -> Seq<DeviceView> {
    devices.map_values(|d: (Seq<char>, JsonView)| device_in(d.0, d.1, frame))
}

/// The devices that one entry of the instructions sets.
pub open spec fn entry_devices(entry: (Seq<char>, JsonView), frame: Option<u32>) -> Seq<DeviceView> {
    if counts(entry.0, frame) {
        match entry.1 {
            JsonView::Object(devices) => devices_at(devices, frame->0),
            _ => Seq::empty(),
        }
    } else {
        Seq::empty()
    }
}

/// The devices that the instructions set, in order; `frames` are the frames of the
/// keys.
pub open spec fn show_devices(entries: Seq<(Seq<char>, JsonView)>, frames: Seq<Option<u32>>) -> Seq<DeviceView>
    decreases entries.len(),
{
    if entries.len() == 0 {
        Seq::empty()
    } else {
        show_devices(entries.drop_last(), frames) + entry_devices(entries.last(), frames[entries.len() - 1])
    }
}

/// The latest frame that the instructions speak of.
pub open spec fn last_frame(entries: Seq<(Seq<char>, JsonView)>, frames: Seq<Option<u32>>) -> u32
    decreases entries.len(),
{
    if entries.len() == 0 {
        0
    } else {
        let before = last_frame(entries.drop_last(), frames);
        let f = frames[entries.len() - 1];
        if counts(entries.last().0, f) && f->0 > before {
            f->0
        } else {
            before
        }
    }
}

/// The lights among the devices.
pub open spec fn lights_in(ds: Seq<DeviceView>) -> Seq<LightEditInput>
    decreases ds.len(),
{
    if ds.len() == 0 {
        Seq::empty()
    } else {
        match ds.last() {
            DeviceView::Light(x) => lights_in(ds.drop_last()).push(x),
            _ => lights_in(ds.drop_last()),
        }
    }
}

/// The lasers among the devices.
pub open spec fn lasers_in(ds: Seq<DeviceView>) -> Seq<LaserInputView>
    decreases ds.len(),
{
    if ds.len() == 0 {
        Seq::empty()
    } else {
        match ds.last() {
            DeviceView::Laser(x) => lasers_in(ds.drop_last()).push(x),
            _ => lasers_in(ds.drop_last()),
        }
    }
}

/// The projectors among the devices.
pub open spec fn projectors_in(ds: Seq<DeviceView>) -> Seq<ProjectorKeyframeInput>
    decreases ds.len(),
{
    if ds.len() == 0 {
        Seq::empty()
    } else {
        match ds.last() {
            DeviceView::Projector(x) => projectors_in(ds.drop_last()).push(x),
            _ => projectors_in(ds.drop_last()),
        }
    }
}

/// The turrets among the devices.
pub open spec fn turrets_in(ds: Seq<DeviceView>) -> Seq<TurretKeyframeInput>
    decreases ds.len(),
{
    if ds.len() == 0 {
        Seq::empty()
    } else {
        match ds.last() {
            DeviceView::Turret(x) => turrets_in(ds.drop_last()).push(x),
            _ => turrets_in(ds.drop_last()),
        }
    }
}

/// The frames of the beats that are numbers and fall into the show.
pub open spec fn beats_in(items: Seq<JsonView>, frames: Seq<u32>, num_frames: u32) -> Seq<u32>
    decreases items.len(),
{
    if items.len() == 0 {
        Seq::empty()
    } else {
        let before = beats_in(items.drop_last(), frames, num_frames);
        let f = frames[items.len() - 1];
        if is_number(items.last()) && f < num_frames {
            before.push(f)
        } else {
            before
        }
    }
}

/// The length of a show: past its audio and past its last keyframe, and within
/// what a project takes.
pub open spec fn show_length(dur_frame: u32, max_frame: u32) -> u32 {
    let n = if dur_frame > max_frame {
        dur_frame + 1
    } else {
        max_frame + 1
    };
    if n > 100_000 {
        100_000
    } else {
        n as u32
    }
}

/// The beats of the metadata.
pub open spec fn beat_items(meta: JsonView) -> Seq<JsonView> {
    match member(meta, "beats"@) {
        Some(JsonView::Array(items)) => items,
        _ => Seq::empty(),
    }
}

/// A folder's name as a project's name.
pub open spec fn pretty_name(folder: Option<Seq<char>>) -> Seq<char> {
    trimmed(
        replaced(
            match folder {
                Some(f) => f,
                None => "show"@,
            },
            '_',
            ' ',
        ),
    )
}

/// Why the documents of a package are no show.
pub open spec fn show_problem(meta: JsonView, bpm_bits: u32, instructions: JsonView) -> Option<Seq<char>> {
    if !(member(meta, "tempo"@) matches Some(t) && is_number(t)) {
        Some("metadata.json: missing tempo"@)
    } else if at_most_zero(bpm_bits) {
        Some("non-positive tempo"@)
    } else if !(instructions is Object) {
        Some("instructions-exported.json: not an object"@)
    } else {
        None
    }
}

/// The devices of an entry are numbered from one.
pub open spec fn numbered(entry: (Seq<char>, JsonView), frame: Option<u32>) -> bool {
    counts(entry.0, frame) && entry.1 is Object ==> forall|k: int|
        0 <= k < entry.1->Object_0.len() ==> device_number((#[trigger] entry.1->Object_0[k]).0) != Some(0nat)
}

/// There is a frame for every key and every beat, none is the last that a number
/// can hold, and devices are numbered from one.
pub open spec fn convertible(
    meta: JsonView,
    entries: Seq<(Seq<char>, JsonView)>,
    frames: Seq<Option<u32>>,
    beats: Seq<u32>,
    dur_frame: u32,
) -> bool {
    &&& frames.len() == entries.len()
    &&& beats.len() == beat_items(meta).len()
    &&& dur_frame < u32::MAX
    &&& forall|i: int|
        0 <= i < entries.len() ==> numbered(#[trigger] entries[i], frames[i]) && (counts(entries[i].0, frames[i]) ==> frames[i]->0
            < u32::MAX)
}

/// The show that the documents of a package hold.
pub open spec fn show_in(
    folder: Option<Seq<char>>,
    meta: JsonView,
    bpm_bits: u32,
    duration_ms: u32,
    dur_frame: u32,
    entries: Seq<(Seq<char>, JsonView)>,
    frames: Seq<Option<u32>>,
    beats: Seq<u32>,
) -> ConvertedView {
    let ds = show_devices(entries, frames);
    let n = show_length(dur_frame, last_frame(entries, frames));
    ConvertedView {
        name: pretty_name(folder),
        num_lights: 7,
        num_frames: n,
        bpm_bits,
        duration_ms,
        beats_frames: beats_in(beat_items(meta), beats, n),
        lights: lights_in(ds),
        lasers: lasers_in(ds),
        projectors: projectors_in(ds),
        turrets: turrets_in(ds),
    }
}

/// A folder's name as a project's name.
pub fn prettify(folder: Option<&str>) -> (r: String)
    ensures
        r@ == pretty_name(
            match folder {
                Some(f) => Some(f@),
                None => None,
            },
        ),
{
    let name: Vec<char> = match folder {
        Some(f) => chars_of(f),
        None => chars_of("show"),
    };
    text_of(&trim(&replace_char(&name, '_', ' ')))
}

/// The devices that were read so far, by kind.
struct Sorted {
    lights: Vec<LightEditInput>,
    lasers: Vec<LaserKeyframeInput>,
    projectors: Vec<ProjectorKeyframeInput>,
    turrets: Vec<TurretKeyframeInput>,
}

spec fn holds(s: Sorted, ds: Seq<DeviceView>) -> bool {
    &&& s.lights@ == lights_in(ds)
    &&& row_views(s.lasers@) == lasers_in(ds)
    &&& s.projectors@ == projectors_in(ds)
    &&& s.turrets@ == turrets_in(ds)
}

fn add_device(s: &mut Sorted, d: Device, Ghost(ds): Ghost<Seq<DeviceView>>)
    requires
        holds(*old(s), ds),
    ensures
        holds(*final(s), ds.push(d@)),
{
    proof {
        assert(ds.push(d@).drop_last() =~= ds);
    }
    match d {
        Device::Light(x) => s.lights.push(x),
        Device::Laser(x) => {
            let ghost before = s.lasers@;
            s.lasers.push(x);
            proof {
                lemma_views_push(before, x);
            }
        },
        Device::Projector(x) => s.projectors.push(x),
        Device::Turret(x) => s.turrets.push(x),
        Device::Other => {},
    }
}

fn add_devices(s: &mut Sorted, devices: &Vec<(String, Json)>, frame: u32, Ghost(ds): Ghost<Seq<DeviceView>>)
    requires
        holds(*old(s), ds),
        forall|k: int| 0 <= k < devices@.len() ==> device_number((#[trigger] devices@[k]).0@) != Some(0nat),
    ensures
        holds(*final(s), ds + devices_at(entry_views(devices@), frame)),
{
    let ghost all = devices_at(entry_views(devices@), frame);
    let mut j: usize = 0;
    assert(ds + all.take(0) =~= ds);
    while j < devices.len()
        invariant
            j <= devices@.len(),
            all == devices_at(entry_views(devices@), frame),
            holds(*s, ds + all.take(j as int)),
            forall|k: int| 0 <= k < devices@.len() ==> device_number((#[trigger] devices@[k]).0@) != Some(0nat),
        decreases devices@.len() - j,
    {
        let entry: &(String, Json) = &devices[j];
        let d: Device = read_device(entry.0.as_str(), &entry.1, frame);
        proof {
            assert(all[j as int] == d@);
            assert(ds + all.take(j + 1) =~= (ds + all.take(j as int)).push(d@));
        }
        add_device(s, d, Ghost(ds + all.take(j as int)));
        j = j + 1;
    }
    assert(all.take(all.len() as int) =~= all);
}

fn read_devices(entries: &Vec<(String, Json)>, frames: &Vec<Option<u32>>) -> (r: (Sorted, u32))
    requires
        frames@.len() == entries@.len(),
        forall|i: int| 0 <= i < entries@.len() ==> numbered(#[trigger] entry_views(entries@)[i], frames@[i]),
    ensures
        holds(r.0, show_devices(entry_views(entries@), frames@)),
        r.1 == last_frame(entry_views(entries@), frames@),
{
    let ghost all = entry_views(entries@);
    let mut s: Sorted = Sorted { lights: Vec::new(), lasers: Vec::new(), projectors: Vec::new(), turrets: Vec::new() };
    let mut max_frame: u32 = 0;
    let mut i: usize = 0;
    assert(row_views(s.lasers@) =~= Seq::<LaserInputView>::empty());
    while i < entries.len()
        invariant
            i <= entries@.len(),
            frames@.len() == entries@.len(),
            all == entry_views(entries@),
            forall|i: int| 0 <= i < entries@.len() ==> numbered(#[trigger] entry_views(entries@)[i], frames@[i]),
            holds(s, show_devices(all.take(i as int), frames@)),
            max_frame == last_frame(all.take(i as int), frames@),
        decreases entries@.len() - i,
    {
        let ghost ds = show_devices(all.take(i as int), frames@);
        let entry: &(String, Json) = &entries[i];
        proof {
            assert(all.take(i + 1).drop_last() =~= all.take(i as int));
            assert(all.take(i + 1).last() == (entry.0@, entry.1@));
            assert(all[i as int] == (entry.0@, entry.1@));
            assert(ds + Seq::<DeviceView>::empty() =~= ds);
        }
        if !same_str(entry.0.as_str(), "song") {
            match frames[i] {
                Some(f) => {
                    if f > max_frame {
                        max_frame = f;
                    }
                    match &entry.1 {
                        Json::Object(devices) => {
                            proof {
                                lemma_object_view(*devices);
                                assert forall|k: int| 0 <= k < devices@.len() implies device_number((#[trigger] devices@[k]).0@) != Some(
                                    0nat,
                                ) by {
                                    assert(entry_views(devices@)[k].0 == devices@[k].0@);
                                }
                            }
                            add_devices(&mut s, devices, f, Ghost(ds));
                        },
                        _ => {},
                    }
                },
                None => {},
            }
        }
        i = i + 1;
    }
    assert(all.take(all.len() as int) =~= all);
    (s, max_frame)
}

fn read_beats(items: &Vec<Json>, frames: &Vec<u32>, num_frames: u32) -> (r: Vec<u32>)
    requires
        frames@.len() == items@.len(),
    ensures
        r@ == beats_in(item_views(items@), frames@, num_frames),
{
    let ghost all = item_views(items@);
    let mut out: Vec<u32> = Vec::new();
    let mut i: usize = 0;
    while i < items.len()
        invariant
            i <= items@.len(),
            frames@.len() == items@.len(),
            all == item_views(items@),
            out@ == beats_in(all.take(i as int), frames@, num_frames),
        decreases items@.len() - i,
    {
        assert(all.take(i + 1).drop_last() =~= all.take(i as int));
        assert(all.take(i + 1).last() == items@[i as int]@);
        if items[i].number() && frames[i] < num_frames {
            out.push(frames[i]);
        }
        i = i + 1;
    }
    assert(all.take(all.len() as int) =~= all);
    out
}

/// Reads the show of a package from its two documents. What the tempo makes of a
/// time is the caller's: its bits, the audio's length and last frame, the frame of
/// each key of the instructions that is a time, and the frame of each beat.
pub fn convert_show(
    folder: Option<&str>,
    meta: &Json,
    bpm_bits: u32,
    duration_ms: u32,
    dur_frame: u32,
    instructions: &Json,
    frames: &Vec<Option<u32>>,
    beats: &Vec<u32>,
) -> (r: Result<Converted, String>)
    requires
        show_problem(meta@, bpm_bits, instructions@) is None ==> convertible(
            meta@,
            instructions@->Object_0,
            frames@,
            beats@,
            dur_frame,
        ),
    ensures
        r is Err <==> show_problem(meta@, bpm_bits, instructions@) is Some,
        r matches Err(e) ==> show_problem(meta@, bpm_bits, instructions@) == Some(e@),
        r matches Ok(c) ==> c@ == show_in(
            match folder {
                Some(f) => Some(f@),
                None => None,
            },
            meta@,
            bpm_bits,
            duration_ms,
            dur_frame,
            instructions@->Object_0,
            frames@,
            beats@,
        ),
{
    let tempo: bool = match meta.get("tempo") {
        Some(t) => t.number(),
        None => false,
    };
    if !tempo {
        return Err("metadata.json: missing tempo".to_owned());
    }
    if bpm_bits == 0 || (bpm_bits >= 0x8000_0000 && bpm_bits <= 0xff80_0000) {
        return Err("non-positive tempo".to_owned());
    }
    match instructions {
        Json::Object(entries) => {
            proof {
                lemma_object_view(*entries);
            }
            let read: (Sorted, u32) = read_devices(entries, frames);
            let max_frame: u32 = read.1;
            proof {
                lemma_last_frame(entry_views(entries@), frames@);
            }
            let longer: u32 = if dur_frame > max_frame {
                dur_frame
            } else {
                max_frame
            };
            let num_frames: u32 = if longer >= 100_000 {
                100_000
            } else {
                longer + 1
            };
            let beats_frames: Vec<u32> = match meta.get("beats") {
                Some(Json::Array(items)) => {
                    proof {
                        lemma_array_view(*items);
                    }
                    read_beats(items, beats, num_frames)
                },
                _ => Vec::new(),
            };
            let sorted: Sorted = read.0;
            Ok(
                Converted {
                    name: prettify(folder),
                    num_lights: 7,
                    num_frames,
                    bpm_bits,
                    duration_ms,
                    beats_frames,
                    lights: sorted.lights,
                    lasers: sorted.lasers,
                    projectors: sorted.projectors,
                    turrets: sorted.turrets,
                },
            )
        },
        _ => {
            proof {
                reveal_with_fuel(<Json as View>::view, 2);
            }
            Err("instructions-exported.json: not an object".to_owned())
        },
    }
}

proof fn lemma_last_frame(entries: Seq<(Seq<char>, JsonView)>, frames: Seq<Option<u32>>)
    requires
        forall|i: int| 0 <= i < entries.len() ==> (counts((#[trigger] entries[i]).0, frames[i]) ==> frames[i]->0 < u32::MAX),
    ensures
        last_frame(entries, frames) < u32::MAX,
    decreases entries.len(),
{
    if entries.len() > 0 {
        assert(entries.last() == entries[entries.len() - 1]);
        assert forall|i: int| 0 <= i < entries.drop_last().len() && counts((#[trigger] entries.drop_last()[i]).0, frames[i]) implies frames[i]->0
            < u32::MAX by {
            assert(entries.drop_last()[i] == entries[i]);
        }
        lemma_last_frame(entries.drop_last(), frames);
    }
}

fn entry_ready(entry: &(String, Json), frame: Option<u32>) -> (r: bool)
    ensures
        r == (numbered((entry.0@, entry.1@), frame) && (counts(entry.0@, frame) ==> frame->0 < u32::MAX)),
{
    let f: u32 = match frame {
        None => {
            return true;
        },
        Some(f) => f,
    };
    if same_str(entry.0.as_str(), "song") {
        return true;
    }
    if f == u32::MAX {
        return false;
    }
    match &entry.1 {
        Json::Object(devices) => {
            proof {
                lemma_object_view(*devices);
            }
            let ghost all = entry_views(devices@);
            let mut k: usize = 0;
            while k < devices.len()
                invariant
                    k <= devices@.len(),
                    all == entry_views(devices@),
                    entry.1@ == JsonView::Object(all),
                    frame == Some(f),
                    counts(entry.0@, frame),
                    forall|j: int| 0 <= j < k ==> device_number((#[trigger] all[j]).0) != Some(0nat),
                decreases devices@.len() - k,
            {
                let n: Option<u64> = find_number(devices[k].0.as_str());
                assert(all[k as int].0 == devices@[k as int].0@);
                if let Some(n) = n {
                    if n == 0 {
                        return false;
                    }
                }
                k = k + 1;
            }
            true
        },
        _ => {
            proof {
                reveal_with_fuel(<Json as View>::view, 2);
            }
            true
        },
    }
}

/// Whether [`convert_show`] takes these documents and frames.
pub fn can_convert(
    meta: &Json,
    bpm_bits: u32,
    dur_frame: u32,
    instructions: &Json,
    frames: &Vec<Option<u32>>,
    beats: &Vec<u32>,
) -> (r: bool)
    ensures
        r == (show_problem(meta@, bpm_bits, instructions@) is None ==> convertible(
            meta@,
            instructions@->Object_0,
            frames@,
            beats@,
            dur_frame,
        )),
{
    let tempo: bool = match meta.get("tempo") {
        Some(t) => t.number(),
        None => false,
    };
    if !tempo || bpm_bits == 0 || (bpm_bits >= 0x8000_0000 && bpm_bits <= 0xff80_0000) {
        return true;
    }
    match instructions {
        Json::Object(entries) => {
            proof {
                lemma_object_view(*entries);
            }
            let ghost all = entry_views(entries@);
            let heard: usize = match meta.get("beats") {
                Some(Json::Array(items)) => {
                    proof {
                        lemma_array_view(*items);
                    }
                    items.len()
                },
                _ => 0,
            };
            if frames.len() != entries.len() || beats.len() != heard || dur_frame == u32::MAX {
                return false;
            }
            let mut i: usize = 0;
            while i < entries.len()
                invariant
                    i <= entries@.len(),
                    frames@.len() == entries@.len(),
                    all == entry_views(entries@),
                    instructions@ == JsonView::Object(all),
                    show_problem(meta@, bpm_bits, instructions@) is None,
                    forall|j: int|
                        0 <= j < i ==> numbered(#[trigger] all[j], frames@[j]) && (counts(all[j].0, frames@[j]) ==> frames@[j]->0
                            < u32::MAX),
                decreases entries@.len() - i,
            {
                assert(all[i as int] == (entries@[i as int].0@, entries@[i as int].1@));
                if !entry_ready(&entries[i], frames[i]) {
                    return false;
                }
                i = i + 1;
            }
            true
        },
        _ => {
            proof {
                reveal_with_fuel(<Json as View>::view, 2);
            }
            true
        },
    }
}

/// Whether a file is the audio of a package.
pub fn is_mp3(name: &str) -> (r: bool)
    ensures
        r == (extension(name@) == Some("mp3"@)),
{
    match find_extension(name) {
        Some(e) => same_str(text_of(&e).as_str(), "mp3"),
        None => false,
    }
}

// ---- the order of shows -----------------------------------------------------

/// The text comes before another, character by character.
pub open spec fn precedes(a: Seq<char>, b: Seq<char>) -> bool
    decreases a.len(),
{
    if b.len() == 0 {
        false
    } else if a.len() == 0 {
        true
    } else if a[0] != b[0] {
        a[0] < b[0]
    } else {
        precedes(a.drop_first(), b.drop_first())
    }
}

fn text_precedes(a: &Vec<char>, b: &Vec<char>) -> (r: bool)
    ensures
        r == precedes(a@, b@),
{
    let mut i: usize = 0;
    assert(a@.skip(0) =~= a@);
    assert(b@.skip(0) =~= b@);
    while i < a.len() && i < b.len()
        invariant
            i <= a@.len(),
            i <= b@.len(),
            precedes(a@, b@) == precedes(a@.skip(i as int), b@.skip(i as int)),
        decreases a@.len() - i,
    {
        assert(a@.skip(i as int)[0] == a@[i as int]);
        assert(b@.skip(i as int)[0] == b@[i as int]);
        assert(a@.skip(i as int).drop_first() =~= a@.skip(i + 1));
        assert(b@.skip(i as int).drop_first() =~= b@.skip(i + 1));
        if a[i] != b[i] {
            return a[i] < b[i];
        }
        i = i + 1;
    }
    i < b.len()
}

/// The texts of several strings.
pub open spec fn texts(v: Seq<String>) -> Seq<Seq<char>> {
    v.map_values(|s: String| s@)
}

/// The name at one place comes before that at another; equal ones keep their order.
pub open spec fn named_before(names: Seq<Seq<char>>, a: usize, b: usize) -> bool {
    precedes(names[a as int], names[b as int]) || (names[a as int] == names[b as int] && a < b)
}

/// The first `n` places, each once, in order of their names.
pub open spec fn is_name_order(order: Seq<usize>, names: Seq<Seq<char>>, n: nat) -> bool {
    &&& order.len() == n
    &&& forall|j: int| 0 <= j < order.len() ==> (#[trigger] order[j]) < n
    &&& forall|i: usize| i < n ==> #[trigger] order.contains(i)
    &&& forall|j: int, k: int| 0 <= j < k < order.len() ==> named_before(names, #[trigger] order[j], #[trigger] order[k])
}

/// Of two different texts one comes first.
proof fn lemma_precedes_total(a: Seq<char>, b: Seq<char>)
    ensures
        precedes(a, b) || precedes(b, a) || a == b,
    decreases a.len(),
{
    if a.len() > 0 && b.len() > 0 && a[0] == b[0] {
        lemma_precedes_total(a.drop_first(), b.drop_first());
        if a.drop_first() == b.drop_first() {
            assert(a =~= seq![a[0]] + a.drop_first());
            assert(b =~= seq![b[0]] + b.drop_first());
        }
    } else if a.len() == 0 && b.len() == 0 {
        assert(a =~= b);
    }
}

proof fn lemma_precedes_through(a: Seq<char>, b: Seq<char>, c: Seq<char>)
    requires
        precedes(a, b),
        precedes(b, c),
    ensures
        precedes(a, c),
    decreases a.len(),
{
    if a.len() > 0 && a[0] == b[0] && b[0] == c[0] {
        lemma_precedes_through(a.drop_first(), b.drop_first(), c.drop_first());
    }
}

/// A new place is put behind those whose name does not come after its own.
proof fn lemma_placed(order: Seq<usize>, names: Seq<Seq<char>>, i: usize, k: int)
    requires
        is_name_order(order, names, i as nat),
        0 <= k <= order.len(),
        k > 0 ==> !precedes(names[i as int], names[order[k - 1] as int]),
        forall|j: int| k <= j < order.len() ==> precedes(names[i as int], names[(#[trigger] order[j]) as int]),
    ensures
        is_name_order(order.insert(k, i), names, (i + 1) as nat),
{
    let now = order.insert(k, i);
    order.insert_ensures(k, i);
    assert forall|j: int| 0 <= j < k implies named_before(names, #[trigger] order[j], i) by {
        let last = order[k - 1];
        lemma_precedes_total(names[i as int], names[last as int]);
        if j < k - 1 {
            assert(named_before(names, order[j], last));
            if precedes(names[order[j] as int], names[last as int]) && precedes(names[last as int], names[i as int]) {
                lemma_precedes_through(names[order[j] as int], names[last as int], names[i as int]);
            }
        }
    }
    assert forall|p: usize| p < i + 1 implies #[trigger] now.contains(p) by {
        if p == i {
            assert(now[k] == p);
        } else {
            assert(order.contains(p));
            let j = choose|j: int| 0 <= j < order.len() && order[j] == p;
            assert(now[if j < k { j } else { j + 1 }] == p);
        }
    }
    assert forall|a: int, b: int| 0 <= a < b < now.len() implies named_before(names, #[trigger] now[a], #[trigger] now[b]) by {
        let x = if a < k { a } else { a - 1 };
        let y = if b < k { b } else { b - 1 };
        if a == k {
            assert(now[b] == order[y]);
        } else if b == k {
            assert(now[a] == order[x]);
        } else {
            assert(now[a] == order[x] && now[b] == order[y]);
        }
    }
}

/// The places of the shows in order of their names.
pub fn show_order(names: &Vec<String>) -> (r: Vec<usize>)
    ensures
        is_name_order(r@, texts(names@), names@.len()),
{
    let ghost all = texts(names@);
    let mut order: Vec<usize> = Vec::new();
    let mut i: usize = 0;
    while i < names.len()
        invariant
            i <= names@.len(),
            all == texts(names@),
            is_name_order(order@, all, i as nat),
        decreases names@.len() - i,
    {
        let ghost was = order@;
        let name: Vec<char> = chars_of(names[i].as_str());
        let mut k: usize = order.len();
        let mut stop: bool = false;
        while k > 0 && !stop
            invariant
                k <= order@.len(),
                i < names@.len(),
                all == texts(names@),
                order@ == was,
                is_name_order(was, all, i as nat),
                name@ == all[i as int],
                forall|j: int| k <= j < was.len() ==> precedes(all[i as int], all[(#[trigger] was[j]) as int]),
                stop ==> k > 0 && !precedes(all[i as int], all[was[k - 1] as int]),
            decreases k + (if stop { 0int } else { 1int }),
        {
            let other: Vec<char> = chars_of(names[order[k - 1]].as_str());
            assert(other@ == all[was[k - 1] as int]);
            if text_precedes(&name, &other) {
                k = k - 1;
            } else {
                stop = true;
            }
        }
        proof {
            lemma_placed(was, all, i, k as int);
        }
        order.insert(k, i);
        i = i + 1;
    }
    order
}

// ---- storing ----------------------------------------------------------------

/// One call that stores a part of a show. Each waits for the one before.
#[derive(Debug)]
pub enum SeedCall {
    Project { num_lights: u32, num_frames: u32 },
    Lights(Vec<LightEditInput>),
    Lasers(Vec<LaserKeyframeInput>),
    Projectors(Vec<ProjectorKeyframeInput>),
    Turrets(Vec<TurretKeyframeInput>),
    Song {
        name: String,
        mime: String,
        byte_len: u64,
        num_chunks: u32,
        duration_ms: u32,
        fps_bits: u32,
        beats_frames: Vec<u32>,
        bpm_bits: u32,
        first_beat_ms: u32,
    },
    Chunk { idx: u32, data: Vec<u8> },
}

/// What a [`SeedCall`] holds.
pub enum CallView {
    Project { num_lights: u32, num_frames: u32 },
    Lights(Seq<LightEditInput>),
    Lasers(Seq<LaserInputView>),
    Projectors(Seq<ProjectorKeyframeInput>),
    Turrets(Seq<TurretKeyframeInput>),
    Song {
        name: Seq<char>,
        mime: Seq<char>,
        byte_len: u64,
        num_chunks: u32,
        duration_ms: u32,
        fps_bits: u32,
        beats_frames: Seq<u32>,
        bpm_bits: u32,
        first_beat_ms: u32,
    },
    Chunk { idx: u32, data: Seq<u8> },
}

impl View for SeedCall {
    type V = CallView;

    open spec fn view(&self) -> CallView {
        match self {
            SeedCall::Project { num_lights, num_frames } => CallView::Project { num_lights: *num_lights, num_frames: *num_frames },
            SeedCall::Lights(v) => CallView::Lights(v@),
            SeedCall::Lasers(v) => CallView::Lasers(row_views(v@)),
            SeedCall::Projectors(v) => CallView::Projectors(v@),
            SeedCall::Turrets(v) => CallView::Turrets(v@),
            SeedCall::Song {
                name,
                mime,
                byte_len,
                num_chunks,
                duration_ms,
                fps_bits,
                beats_frames,
                bpm_bits,
                first_beat_ms,
            } => CallView::Song {
                name: name@,
                mime: mime@,
                byte_len: *byte_len,
                num_chunks: *num_chunks,
                duration_ms: *duration_ms,
                fps_bits: *fps_bits,
                beats_frames: beats_frames@,
                bpm_bits: *bpm_bits,
                first_beat_ms: *first_beat_ms,
            },
            SeedCall::Chunk { idx, data } => CallView::Chunk { idx: *idx, data: data@ },
        }
    }
}

/// The calls that store a show with this audio: the project, its keyframes, its
/// song, and the chunks in order.
pub open spec fn seed_calls(show: ConvertedView, fps_bits: u32, file: Option<Seq<char>>, bytes: Seq<u8>) -> Seq<CallView> {
    let n = chunks_for(bytes.len() as int);
    seq![
        CallView::Project { num_lights: show.num_lights, num_frames: show.num_frames },
        CallView::Lights(show.lights),
        CallView::Lasers(show.lasers),
        CallView::Projectors(show.projectors),
        CallView::Turrets(show.turrets),
        CallView::Song {
            name: match file {
                Some(f) => f,
                None => "audio.mp3"@,
            },
            mime: "audio/mpeg"@,
            byte_len: bytes.len() as u64,
            num_chunks: n as u32,
            duration_ms: show.duration_ms,
            fps_bits,
            beats_frames: show.beats_frames,
            bpm_bits: show.bpm_bits,
            first_beat_ms: 0,
        },
    ] + Seq::new(n as nat, |k: int| CallView::Chunk { idx: k as u32, data: pieces(bytes, n as nat)[k] })
}

/// The text of an optional string.
pub open spec fn text_in(s: Option<String>) -> Option<Seq<char>> {
    match s {
        Some(s) => Some(s@),
        None => None,
    }
}

/// The calls that store a show with this audio: see [`seed_calls`].
pub fn seed_show(show: Converted, fps_bits: u32, file: Option<String>, bytes: &Vec<u8>) -> (r: Vec<SeedCall>)
    requires
        chunks_for(bytes@.len() as int) <= u32::MAX,
    ensures
        row_views(r@) == seed_calls(show@, fps_bits, text_in(file), bytes@),
{
    let ghost want = seed_calls(show@, fps_bits, text_in(file), bytes@);
    let size: usize = CHUNK_SIZE as usize;
    let len: usize = bytes.len();
    let whole: usize = len / size;
    let n: u32 = if len % size == 0 {
        assert(chunks_for(len as int) == whole);
        whole as u32
    } else {
        assert(chunks_for(len as int) == whole + 1);
        (whole + 1) as u32
    };
    let mut chunks: Vec<Vec<u8>> = split_chunks(bytes, n);
    let ghost parts = pieces(bytes@, n as nat);
    let name: String = match file {
        Some(f) => f,
        None => "audio.mp3".to_owned(),
    };
    let mut out: Vec<SeedCall> = Vec::new();
    out.push(SeedCall::Project { num_lights: show.num_lights, num_frames: show.num_frames });
    out.push(SeedCall::Lights(show.lights));
    out.push(SeedCall::Lasers(show.lasers));
    out.push(SeedCall::Projectors(show.projectors));
    out.push(SeedCall::Turrets(show.turrets));
    out.push(
        SeedCall::Song {
            name,
            mime: "audio/mpeg".to_owned(),
            byte_len: len as u64,
            num_chunks: n,
            duration_ms: show.duration_ms,
            fps_bits,
            beats_frames: show.beats_frames,
            bpm_bits: show.bpm_bits,
            first_beat_ms: 0,
        },
    );
    assert(row_views(out@) =~= want.take(6));
    let mut left: Vec<Vec<u8>> = Vec::new();
    while chunks.len() > 0
        invariant
            chunks@.len() <= parts.len(),
            buffers(chunks@) == parts.take(chunks@.len() as int),
            buffers(left@) == parts.skip(chunks@.len() as int).reverse(),
        decreases chunks@.len(),
    {
        let ghost m = chunks@.len() as int;
        let ghost was = chunks@;
        let c: Option<Vec<u8>> = chunks.pop();
        if let Some(c) = c {
            proof {
                assert(buffers(was)[m - 1] == c@);
                assert(buffers(chunks@) =~= buffers(was).take(m - 1));
                assert(parts.take(m).take(m - 1) =~= parts.take(m - 1));
            }
            let ghost before = left@;
            left.push(c);
            proof {
                assert(buffers(left@) =~= buffers(before).push(c@));
                assert(parts.skip(m - 1).reverse() =~= parts.skip(m).reverse().push(parts[m - 1]));
            }
        }
    }
    let mut k: u32 = 0;
    assert(parts.skip(0) =~= parts);
    while k < n
        invariant
            k <= n,
            n == chunks_for(bytes@.len() as int),
            parts == pieces(bytes@, n as nat),
            want.len() == 6 + n,
            forall|j: int| 0 <= j < n ==> want[6 + j] == (CallView::Chunk { idx: j as u32, data: #[trigger] parts[j] }),
            buffers(left@) == parts.skip(k as int).reverse(),
            row_views(out@) == want.take(6 + k),
        decreases n - k,
    {
        let ghost was = left@;
        let c: Option<Vec<u8>> = left.pop();
        match c {
            Some(data) => {
                proof {
                    assert(buffers(was).last() == data@);
                    assert(parts.skip(k as int).reverse().last() == parts[k as int]);
                    assert(buffers(left@) =~= buffers(was).drop_last());
                    assert(parts.skip(k as int).reverse().drop_last() =~= parts.skip(k + 1).reverse());
                }
                let ghost before = out@;
                out.push(SeedCall::Chunk { idx: k, data });
                proof {
                    lemma_views_push(before, out@.last());
                    assert(want.take(6 + k + 1) =~= want.take(6 + k).push(want[6 + k]));
                }
            },
            None => {
                proof {
                    assert(buffers(was).len() == was.len());
                    assert(parts.skip(k as int).reverse().len() == n - k);
                }
            },
        }
        k = k + 1;
    }
    assert(want.take(want.len() as int) =~= want);
    out
}

/// The name of a call in messages.
pub fn call_name(call: &SeedCall) -> (r: &'static str)
    ensures
        r@ == (match call@ {
            CallView::Project { .. } => "seed_project"@,
            CallView::Lights(_) => "seed_light_edits"@,
            CallView::Lasers(_) => "seed_laser_keyframes"@,
            CallView::Projectors(_) => "seed_projector_keyframes"@,
            CallView::Turrets(_) => "seed_turret_keyframes"@,
            CallView::Song { .. } => "seed_song"@,
            CallView::Chunk { .. } => "seed_song_chunk"@,
        }),
{
    match call {
        SeedCall::Project { .. } => "seed_project",
        SeedCall::Lights(_) => "seed_light_edits",
        SeedCall::Lasers(_) => "seed_laser_keyframes",
        SeedCall::Projectors(_) => "seed_projector_keyframes",
        SeedCall::Turrets(_) => "seed_turret_keyframes",
        SeedCall::Song { .. } => "seed_song",
        SeedCall::Chunk { .. } => "seed_song_chunk",
    }
}

} // verus!
