//! Exporting a show as a package of three files: the instructions, keyed by
//! milliseconds; the metadata; and the audio.
use crate::json::{entry_views, item_views, lemma_array_view, lemma_object_view, Json, JsonView};
use crate::logic::Keyframe;
use crate::patterns::{pattern_name, pattern_names, PATTERN_COUNT};
use crate::rows::{LaserKeyframe, LaserKeyframeView, LaserPoint, ProjectorKeyframe, TurretKeyframe};
use crate::store::row_views;
use crate::text::{chars_of, decimal, push_decimal, replace_char, replaced, text_of};
use vstd::prelude::*;

verus! {

broadcast use {vstd::seq::group_seq_axioms, vstd::string::group_string_axioms};

/// The player's number of lights.
pub const MAX_LIGHTS: u32 = 7;

/// The player's number of lasers.
pub const MAX_LASERS: u8 = 5;

/// The player's number of turrets.
pub const MAX_TURRETS: u8 = 4;

// ---- devices ----------------------------------------------------------------

/// A tint as three characters with exactly one `f`: the dominant channel, red
/// before green before blue; no tint at all is red.
pub open spec fn hex_of(cr: u8, cg: u8, cb: u8) -> Seq<char> {
    if cr >= cg && cr >= cb {
        seq!['f', '0', '0']
    } else if cg >= cb {
        seq!['0', 'f', '0']
    } else {
        seq!['0', '0', 'f']
    }
}

/// A tint as three characters with exactly one `f`, which the player demands.
pub fn collapse_hex(cr: u8, cg: u8, cb: u8) -> (r: String)
    ensures
        r@ == hex_of(cr, cg, cb),
{
    let mut v: Vec<char> = Vec::new();
    if cr >= cg && cr >= cb {
        v.push('f');
        v.push('0');
        v.push('0');
    } else if cg >= cb {
        v.push('0');
        v.push('f');
        v.push('0');
    } else {
        v.push('0');
        v.push('0');
        v.push('f');
    }
    assert(v@ =~= hex_of(cr, cg, cb));
    text_of(&v)
}

/// A tint's text has three characters, exactly one of them `f` and the others `0`.
pub proof fn law_hex_has_one_f(cr: u8, cg: u8, cb: u8)
    ensures
        ({
            let h = hex_of(cr, cg, cb);
            &&& h.len() == 3
            &&& exists|i: int|
                0 <= i < 3 && #[trigger] h[i] == 'f' && forall|j: int| 0 <= j < 3 && j != i ==> #[trigger] h[j] == '0'
        }),
{
    let h = hex_of(cr, cg, cb);
    let i: int = if cr >= cg && cr >= cb {
        0
    } else if cg >= cb {
        1
    } else {
        2
    };
    assert(h[i] == 'f');
}

/// A whole number.
pub open spec fn int_json(n: int) -> JsonView {
    if n < 0 {
        JsonView::NegInt(n as i64)
    } else {
        JsonView::PosInt(n as u64)
    }
}

fn number(n: i64) -> (r: Json)
    ensures
        r@ == int_json(n as int),
{
    if n < 0 {
        Json::NegInt(n)
    } else {
        Json::PosInt(n as u64)
    }
}

/// A point as a list of its five numbers.
pub open spec fn point_json(p: LaserPoint) -> JsonView {
    JsonView::Array(
        seq![int_json(p.x as int), int_json(p.y as int), int_json(p.r as int), int_json(p.g as int), int_json(p.b as int)],
    )
}

/// The points as lists.
pub open spec fn points_json(points: Seq<LaserPoint>) -> Seq<JsonView> {
    points.map_values(|p: LaserPoint| point_json(p))
}

/// The name of a pattern as packages spell it; an unknown one is a circle.
pub open spec fn package_name(pattern: u8) -> Seq<char> {
    replaced(
        if pattern < PATTERN_COUNT {
            pattern_names()[pattern as int]
        } else {
            "circle"@
        },
        '_',
        '-',
    )
}

/// The entry of a laser keyframe: zero where it is off or has no points, else an
/// object with its points, colour and shape.
pub open spec fn laser_json(k: LaserKeyframeView) -> JsonView {
    if !k.enable || k.points.len() == 0 {
        JsonView::PosInt(0)
    } else {
        JsonView::Object(
            seq![
                ("config"@, JsonView::Object(seq![("speed-profile"@, JsonView::PosInt(1)), ("home"@, JsonView::Bool(false))])),
                ("points"@, JsonView::Array(points_json(k.points))),
                ("hex"@, JsonView::Text(hex_of(k.cr, k.cg, k.cb))),
                ("value"@, JsonView::Text(package_name(k.pattern))),
            ],
        )
    }
}

fn point_value(p: LaserPoint) -> (r: Json)
    ensures
        r@ == point_json(p),
{
    let mut v: Vec<Json> = Vec::new();
    v.push(number(p.x as i64));
    v.push(number(p.y as i64));
    v.push(number(p.r as i64));
    v.push(number(p.g as i64));
    v.push(number(p.b as i64));
    proof {
        lemma_array_view(v);
        assert(item_views(v@) =~= point_json(p)->Array_0);
    }
    Json::Array(v)
}

/// The entry of a laser keyframe.
pub fn laser_value(kf: &LaserKeyframe) -> (r: Json)
    ensures
        r@ == laser_json(kf@),
{
    if !kf.enable || kf.points.len() == 0 {
        return Json::PosInt(0);
    }
    let mut points: Vec<Json> = Vec::new();
    let mut i: usize = 0;
    assert(item_views(points@) =~= points_json(kf.points@).take(0));
    while i < kf.points.len()
        invariant
            i <= kf.points@.len(),
            item_views(points@) == points_json(kf.points@).take(i as int),
        decreases kf.points@.len() - i,
    {
        let ghost before = points@;
        points.push(point_value(kf.points[i]));
        i = i + 1;
        assert(item_views(points@) =~= item_views(before).push(points@.last()@));
        assert(item_views(points@) =~= points_json(kf.points@).take(i as int));
    }
    assert(item_views(points@) =~= points_json(kf.points@));
    let name: Option<&'static str> = pattern_name(kf.pattern as usize);
    let spelled: Vec<char> = match name {
        Some(n) => replace_char(&chars_of(n), '_', '-'),
        None => replace_char(&chars_of("circle"), '_', '-'),
    };
    let mut config: Vec<(String, Json)> = Vec::new();
    config.push(("speed-profile".to_owned(), Json::PosInt(1)));
    config.push(("home".to_owned(), Json::Bool(false)));
    proof {
        lemma_object_view(config);
        assert(entry_views(config@) =~= seq![("speed-profile"@, JsonView::PosInt(1)), ("home"@, JsonView::Bool(false))]);
        lemma_array_view(points);
    }
    let mut v: Vec<(String, Json)> = Vec::new();
    v.push(("config".to_owned(), Json::Object(config)));
    v.push(("points".to_owned(), Json::Array(points)));
    v.push(("hex".to_owned(), Json::Text(collapse_hex(kf.cr, kf.cg, kf.cb))));
    v.push(("value".to_owned(), Json::Text(text_of(&spelled))));
    proof {
        lemma_object_view(v);
        assert(entry_views(v@) =~= laser_json(kf@)->Object_0);
    }
    Json::Object(v)
}

/// The entry of a projector keyframe.
pub open spec fn projector_json(k: ProjectorKeyframe) -> JsonView {
    JsonView::Object(
        seq![
            ("state"@, JsonView::PosInt(k.state as u64)),
            ("gallery"@, JsonView::PosInt(k.gallery as u64)),
            ("pattern"@, JsonView::PosInt(k.pattern as u64)),
            ("colour"@, JsonView::PosInt(k.colour as u64)),
        ],
    )
}

fn projector_value(k: ProjectorKeyframe) -> (r: Json)
    ensures
        r@ == projector_json(k),
{
    let mut v: Vec<(String, Json)> = Vec::new();
    v.push(("state".to_owned(), Json::PosInt(k.state as u64)));
    v.push(("gallery".to_owned(), Json::PosInt(k.gallery as u64)));
    v.push(("pattern".to_owned(), Json::PosInt(k.pattern as u64)));
    v.push(("colour".to_owned(), Json::PosInt(k.colour as u64)));
    proof {
        lemma_object_view(v);
        assert(entry_views(v@) =~= projector_json(k)->Object_0);
    }
    Json::Object(v)
}

/// The entry of a turret keyframe.
pub open spec fn turret_json(k: TurretKeyframe) -> JsonView {
    JsonView::Object(
        seq![
            ("state"@, JsonView::PosInt(k.state as u64)),
            ("pan"@, JsonView::PosInt(k.pan as u64)),
            ("tilt"@, JsonView::PosInt(k.tilt as u64)),
        ],
    )
}

fn turret_value(k: TurretKeyframe) -> (r: Json)
    ensures
        r@ == turret_json(k),
{
    let mut v: Vec<(String, Json)> = Vec::new();
    v.push(("state".to_owned(), Json::PosInt(k.state as u64)));
    v.push(("pan".to_owned(), Json::PosInt(k.pan as u64)));
    v.push(("tilt".to_owned(), Json::PosInt(k.tilt as u64)));
    proof {
        lemma_object_view(v);
        assert(entry_views(v@) =~= turret_json(k)->Object_0);
    }
    Json::Object(v)
}

// ---- entries ----------------------------------------------------------------

/// What one keyframe says: from this frame on, the device has this value.
#[derive(Debug)]
pub struct DeviceEntry {
    pub frame: u32,
    pub device: String,
    pub value: Json,
}

/// What a [`DeviceEntry`] holds.
pub struct DeviceEntryView {
    pub frame: u32,
    pub device: Seq<char>,
    pub value: JsonView,
}

impl View for DeviceEntry {
    type V = DeviceEntryView;

    open spec fn view(&self) -> DeviceEntryView {
        DeviceEntryView { frame: self.frame, device: self.device@, value: self.value@ }
    }
}

/// Values of entries.
pub open spec fn device_views(s: Seq<DeviceEntry>) -> Seq<DeviceEntryView> {
    s.map_values(|e: DeviceEntry| e@)
}

/// A device's name: its kind, a hyphen, and its number from one.
pub open spec fn device_name(kind: Seq<char>, index: int) -> Seq<char> {
    kind + decimal((index + 1) as nat)
}

fn name_of(kind: &str, index: u32) -> (r: String)
    ensures
        r@ == device_name(kind@, index as int),
{
    let mut v: Vec<char> = chars_of(kind);
    push_decimal(&mut v, index as u64 + 1);
    text_of(&v)
}

/// The entries of the lights that the player has.
pub open spec fn light_entries(list: Seq<Keyframe>) -> Seq<DeviceEntryView>
    decreases list.len(),
{
    if list.len() == 0 {
        Seq::empty()
    } else {
        let rest = light_entries(list.drop_last());
        let k = list.last();
        if k.light < MAX_LIGHTS {
            rest.push(
                DeviceEntryView {
                    frame: k.frame,
                    device: device_name("light-"@, k.light as int),
                    value: JsonView::PosInt(if k.on { 1 } else { 0 }),
                },
            )
        } else {
            rest
        }
    }
}

/// The entries of the lasers that the player has.
pub open spec fn laser_entries(rows: Seq<LaserKeyframeView>) -> Seq<DeviceEntryView>
    decreases rows.len(),
{
    if rows.len() == 0 {
        Seq::empty()
    } else {
        let rest = laser_entries(rows.drop_last());
        let k = rows.last();
        if k.channel < MAX_LASERS {
            rest.push(DeviceEntryView { frame: k.frame, device: device_name("laser-"@, k.channel as int), value: laser_json(k) })
        } else {
            rest
        }
    }
}

/// The entries of the one projector that the player has.
pub open spec fn projector_entries(rows: Seq<ProjectorKeyframe>) -> Seq<DeviceEntryView>
    decreases rows.len(),
{
    if rows.len() == 0 {
        Seq::empty()
    } else {
        let rest = projector_entries(rows.drop_last());
        let k = rows.last();
        if k.channel == 0 {
            rest.push(DeviceEntryView { frame: k.frame, device: "lp-1"@, value: projector_json(k) })
        } else {
            rest
        }
    }
}

/// The entries of the turrets that the player has.
pub open spec fn turret_entries(rows: Seq<TurretKeyframe>) -> Seq<DeviceEntryView>
    decreases rows.len(),
{
    if rows.len() == 0 {
        Seq::empty()
    } else {
        let rest = turret_entries(rows.drop_last());
        let k = rows.last();
        if k.channel < MAX_TURRETS {
            rest.push(DeviceEntryView { frame: k.frame, device: device_name("turret-"@, k.channel as int), value: turret_json(k) })
        } else {
            rest
        }
    }
}

/// Every entry of a show: lights, lasers, projector, turrets.
pub open spec fn show_entries(
    lights: Seq<Keyframe>,
    lasers: Seq<LaserKeyframeView>,
    projectors: Seq<ProjectorKeyframe>,
    turrets: Seq<TurretKeyframe>,
) -> Seq<DeviceEntryView> {
    light_entries(lights) + laser_entries(lasers) + projector_entries(projectors) + turret_entries(turrets)
}

proof fn lemma_device_push(s: Seq<DeviceEntry>, e: DeviceEntry)
    ensures
        device_views(s.push(e)) == device_views(s).push(e@),
{
    assert(device_views(s.push(e)) =~= device_views(s).push(e@));
}

pub(crate) fn list_entries(
    lights: &Vec<Keyframe>,
    lasers: &[LaserKeyframe],
    projectors: &[ProjectorKeyframe],
    turrets: &[TurretKeyframe],
) -> (r: Vec<DeviceEntry>)
    ensures
        device_views(r@) == show_entries(lights@, row_views(lasers@), projectors@, turrets@),
{
    let mut out: Vec<DeviceEntry> = Vec::new();
    let mut i: usize = 0;
    assert(device_views(out@) =~= light_entries(lights@.take(0)));
    while i < lights.len()
        invariant
            i <= lights@.len(),
            device_views(out@) == light_entries(lights@.take(i as int)),
        decreases lights@.len() - i,
    {
        let k: Keyframe = lights[i];
        assert(lights@.take(i + 1).drop_last() =~= lights@.take(i as int));
        if k.light < MAX_LIGHTS {
            let ghost before = out@;
            let value: Json = Json::PosInt(if k.on { 1 } else { 0 });
            out.push(DeviceEntry { frame: k.frame, device: name_of("light-", k.light), value });
            proof {
                lemma_device_push(before, out@.last());
            }
        }
        i = i + 1;
    }
    assert(lights@.take(lights@.len() as int) =~= lights@);
    let ghost a = device_views(out@);
    let ghost beams = row_views(lasers@);
    let mut i: usize = 0;
    assert(device_views(out@) =~= a + laser_entries(beams.take(0)));
    while i < lasers.len()
        invariant
            i <= lasers@.len(),
            beams == row_views(lasers@),
            device_views(out@) == a + laser_entries(beams.take(i as int)),
        decreases lasers@.len() - i,
    {
        let k: &LaserKeyframe = &lasers[i];
        assert(beams.take(i + 1).drop_last() =~= beams.take(i as int));
        if k.channel < MAX_LASERS {
            let ghost before = out@;
            out.push(DeviceEntry { frame: k.frame, device: name_of("laser-", k.channel as u32), value: laser_value(k) });
            proof {
                lemma_device_push(before, out@.last());
                assert(device_views(out@) =~= a + laser_entries(beams.take(i + 1)));
            }
        }
        i = i + 1;
    }
    assert(beams.take(beams.len() as int) =~= beams);
    let ghost b = device_views(out@);
    let mut i: usize = 0;
    assert(device_views(out@) =~= b + projector_entries(projectors@.take(0)));
    while i < projectors.len()
        invariant
            i <= projectors@.len(),
            device_views(out@) == b + projector_entries(projectors@.take(i as int)),
        decreases projectors@.len() - i,
    {
        let k: ProjectorKeyframe = projectors[i];
        assert(projectors@.take(i + 1).drop_last() =~= projectors@.take(i as int));
        if k.channel == 0 {
            let ghost before = out@;
            out.push(DeviceEntry { frame: k.frame, device: "lp-1".to_owned(), value: projector_value(k) });
            proof {
                lemma_device_push(before, out@.last());
                assert(device_views(out@) =~= b + projector_entries(projectors@.take(i + 1)));
            }
        }
        i = i + 1;
    }
    assert(projectors@.take(projectors@.len() as int) =~= projectors@);
    let ghost c = device_views(out@);
    let mut i: usize = 0;
    assert(device_views(out@) =~= c + turret_entries(turrets@.take(0)));
    while i < turrets.len()
        invariant
            i <= turrets@.len(),
            device_views(out@) == c + turret_entries(turrets@.take(i as int)),
        decreases turrets@.len() - i,
    {
        let k: TurretKeyframe = turrets[i];
        assert(turrets@.take(i + 1).drop_last() =~= turrets@.take(i as int));
        if k.channel < MAX_TURRETS {
            let ghost before = out@;
            out.push(DeviceEntry { frame: k.frame, device: name_of("turret-", k.channel as u32), value: turret_value(k) });
            proof {
                lemma_device_push(before, out@.last());
                assert(device_views(out@) =~= c + turret_entries(turrets@.take(i + 1)));
            }
        }
        i = i + 1;
    }
    assert(turrets@.take(turrets@.len() as int) =~= turrets@);
    out
}

} // verus!
