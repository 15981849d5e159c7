//! What an exported package holds.
use crate::audio::{at_most_zero, first_song, is_song_of};
use crate::audio_laws::law_first_song;
use crate::export::{
    hex_of, laser_entries, laser_json, light_entries, package_name, projector_entries, projector_json, show_entries, turret_entries,
    turret_json, DeviceEntryView,
};
use crate::instructions::{counting, device_at, is_instructions, lemma_lookup_at, ms_of, time_of};
use crate::json::{lookup, member, JsonView};
use crate::lists::{lemma_joined, lemma_pushed};
use crate::logic::{folded, keyframe_map, Keyframe};
use crate::package::{
    audio_ending, audio_name, audio_problem, cleaned, file_part, folder_name, instructions_name, is_log_of, is_show, is_timeline, last_at, metadata_json,
    metadata_name, name_taken, package_files,
};
use crate::patterns::pattern_names;
use crate::rows::{Edit, LaserKeyframe, LaserKeyframeView, ProjectorKeyframe, SongChunk, SongChunkView, SongView, TurretKeyframe};
use crate::seeder::beat_items;
use crate::store::{row_views, rows_of};
use crate::text::{decimal, is_space, lowered, parts, trimmed};
use crate::text_laws::{law_parts, law_trim_nothing};
use vstd::prelude::*;

verus! {

broadcast use vstd::seq::group_seq_axioms;

/// A tint is written by its strongest channel: the `f` stands for one that no other exceeds,
/// and that none before it equals.
pub proof fn law_tint(c: Seq<u8>, i: int)
    requires
        c.len() == 3,
        0 <= i < 3,
    ensures
        hex_of(c[0], c[1], c[2])[i] == 'f' <==> (forall|j: int| 0 <= j < 3 ==> #[trigger] c[j] <= c[i]) && (forall|j: int|
            0 <= j < i ==> #[trigger] c[j] < c[i]),
        hex_of(c[0], c[1], c[2])[i] != 'f' ==> hex_of(c[0], c[1], c[2])[i] == '0',
{
    assert(c[0] == c[0] && c[1] == c[1] && c[2] == c[2]);
    if (forall|j: int| 0 <= j < 3 ==> #[trigger] c[j] <= c[i]) && (forall|j: int| 0 <= j < i ==> #[trigger] c[j] < c[i]) {
        assert(c[0] <= c[i] && c[1] <= c[i] && c[2] <= c[i]);
        assert(0 < i ==> c[0] < c[i]);
        assert(1 < i ==> c[1] < c[i]);
    }
}

// ---- the entries of a show --------------------------------------------------

/// The entry is that of this light keyframe.
pub open spec fn writes_light(k: Keyframe, e: DeviceEntryView) -> bool {
    &&& k.light < 7
    &&& e.frame == k.frame
    &&& e.device == "light-"@ + decimal((k.light + 1) as nat)
    &&& e.value == JsonView::PosInt(if k.on { 1 } else { 0 })
}

/// The entry is that of this laser keyframe.
pub open spec fn writes_laser(k: LaserKeyframeView, e: DeviceEntryView) -> bool {
    &&& k.channel < 5
    &&& e.frame == k.frame
    &&& e.device == "laser-"@ + decimal((k.channel + 1) as nat)
    &&& e.value == laser_json(k)
}

/// The entry is that of this projector keyframe.
pub open spec fn writes_projector(k: ProjectorKeyframe, e: DeviceEntryView) -> bool {
    &&& k.channel == 0
    &&& e.frame == k.frame
    &&& e.device == "lp-1"@
    &&& e.value == projector_json(k)
}

/// The entry is that of this turret keyframe.
pub open spec fn writes_turret(k: TurretKeyframe, e: DeviceEntryView) -> bool {
    &&& k.channel < 4
    &&& e.frame == k.frame
    &&& e.device == "turret-"@ + decimal((k.channel + 1) as nat)
    &&& e.value == turret_json(k)
}

proof fn lemma_lights(list: Seq<Keyframe>, e: DeviceEntryView)
    ensures
        light_entries(list).contains(e) <==> exists|i: int| 0 <= i < list.len() && writes_light(#[trigger] list[i], e),
    decreases list.len(),
{
    if list.len() > 0 {
        let p = list.drop_last();
        let z = list.len() - 1;
        lemma_lights(p, e);
        if list[z].light < 7 {
            lemma_pushed(light_entries(p), light_entries(list).last(), e);
        }
        assert(list[z].light < 7 ==> (writes_light(list[z], e) <==> e == light_entries(list).last()));
        if exists|i: int| 0 <= i < p.len() && writes_light(#[trigger] p[i], e) {
            let i = choose|i: int| 0 <= i < p.len() && writes_light(#[trigger] p[i], e);
            assert(list[i] == p[i]);
        }
        if exists|i: int| 0 <= i < list.len() && writes_light(#[trigger] list[i], e) {
            let i = choose|i: int| 0 <= i < list.len() && writes_light(#[trigger] list[i], e);
            if i < z {
                assert(p[i] == list[i]);
            }
        }
    }
}

proof fn lemma_lasers(list: Seq<LaserKeyframeView>, e: DeviceEntryView)
    ensures
        laser_entries(list).contains(e) <==> exists|i: int| 0 <= i < list.len() && writes_laser(#[trigger] list[i], e),
    decreases list.len(),
{
    if list.len() > 0 {
        let p = list.drop_last();
        let z = list.len() - 1;
        lemma_lasers(p, e);
        if list[z].channel < 5 {
            lemma_pushed(laser_entries(p), laser_entries(list).last(), e);
        }
        assert(list[z].channel < 5 ==> (writes_laser(list[z], e) <==> e == laser_entries(list).last()));
        if exists|i: int| 0 <= i < p.len() && writes_laser(#[trigger] p[i], e) {
            let i = choose|i: int| 0 <= i < p.len() && writes_laser(#[trigger] p[i], e);
            assert(list[i] == p[i]);
        }
        if exists|i: int| 0 <= i < list.len() && writes_laser(#[trigger] list[i], e) {
            let i = choose|i: int| 0 <= i < list.len() && writes_laser(#[trigger] list[i], e);
            if i < z {
                assert(p[i] == list[i]);
            }
        }
    }
}

proof fn lemma_projectors(list: Seq<ProjectorKeyframe>, e: DeviceEntryView)
    ensures
        projector_entries(list).contains(e) <==> exists|i: int| 0 <= i < list.len() && writes_projector(#[trigger] list[i], e),
    decreases list.len(),
{
    if list.len() > 0 {
        let p = list.drop_last();
        let z = list.len() - 1;
        lemma_projectors(p, e);
        if list[z].channel == 0 {
            lemma_pushed(projector_entries(p), projector_entries(list).last(), e);
        }
        assert(list[z].channel == 0 ==> (writes_projector(list[z], e) <==> e == projector_entries(list).last()));
        if exists|i: int| 0 <= i < p.len() && writes_projector(#[trigger] p[i], e) {
            let i = choose|i: int| 0 <= i < p.len() && writes_projector(#[trigger] p[i], e);
            assert(list[i] == p[i]);
        }
        if exists|i: int| 0 <= i < list.len() && writes_projector(#[trigger] list[i], e) {
            let i = choose|i: int| 0 <= i < list.len() && writes_projector(#[trigger] list[i], e);
            if i < z {
                assert(p[i] == list[i]);
            }
        }
    }
}

proof fn lemma_turrets(list: Seq<TurretKeyframe>, e: DeviceEntryView)
    ensures
        turret_entries(list).contains(e) <==> exists|i: int| 0 <= i < list.len() && writes_turret(#[trigger] list[i], e),
    decreases list.len(),
{
    if list.len() > 0 {
        let p = list.drop_last();
        let z = list.len() - 1;
        lemma_turrets(p, e);
        if list[z].channel < 4 {
            lemma_pushed(turret_entries(p), turret_entries(list).last(), e);
        }
        assert(list[z].channel < 4 ==> (writes_turret(list[z], e) <==> e == turret_entries(list).last()));
        if exists|i: int| 0 <= i < p.len() && writes_turret(#[trigger] p[i], e) {
            let i = choose|i: int| 0 <= i < p.len() && writes_turret(#[trigger] p[i], e);
            assert(list[i] == p[i]);
        }
        if exists|i: int| 0 <= i < list.len() && writes_turret(#[trigger] list[i], e) {
            let i = choose|i: int| 0 <= i < list.len() && writes_turret(#[trigger] list[i], e);
            if i < z {
                assert(p[i] == list[i]);
            }
        }
    }
}

/// A package has an entry for every keyframe of the seven lights, five lasers, four turrets
/// and the one projector that the player has, at its frame and under its device's number
/// from one, and has no others.
pub proof fn law_show_entries(
    lights: Seq<Keyframe>,
    lasers: Seq<LaserKeyframeView>,
    projectors: Seq<ProjectorKeyframe>,
    turrets: Seq<TurretKeyframe>,
    e: DeviceEntryView,
)
    ensures
        show_entries(lights, lasers, projectors, turrets).contains(e) <==> {
            ||| exists|i: int| 0 <= i < lights.len() && writes_light(#[trigger] lights[i], e)
            ||| exists|i: int| 0 <= i < lasers.len() && writes_laser(#[trigger] lasers[i], e)
            ||| exists|i: int| 0 <= i < projectors.len() && writes_projector(#[trigger] projectors[i], e)
            ||| exists|i: int| 0 <= i < turrets.len() && writes_turret(#[trigger] turrets[i], e)
        },
{
    lemma_lights(lights, e);
    lemma_lasers(lasers, e);
    lemma_projectors(projectors, e);
    lemma_turrets(turrets, e);
    let a = light_entries(lights);
    let b = laser_entries(lasers);
    let c = projector_entries(projectors);
    lemma_joined(a, b, e);
    lemma_joined(a + b, c, e);
    lemma_joined(a + b + c, turret_entries(turrets), e);
}

/// A pattern is named in a package as in the library, with hyphens for underscores; one that
/// the library does not have is a circle.
pub proof fn law_package_name(pattern: u8, k: int)
    ensures
        pattern < 38 ==> {
            let name = pattern_names()[pattern as int];
            &&& package_name(pattern).len() == name.len()
            &&& 0 <= k < name.len() ==> package_name(pattern)[k] == (if name[k] == '_' {
                '-'
            } else {
                name[k]
            })
        },
        pattern >= 38 ==> package_name(pattern) == "circle"@,
{
    reveal_strlit("circle");
    if pattern >= 38 {
        assert(package_name(pattern) =~= "circle"@);
    }
}

// ---- metadata ---------------------------------------------------------------

/// The metadata of a package reads back: the importer finds the title, the tempo, the beats
/// and the whole seconds that were written.
pub proof fn law_metadata_reads_back(show: Seq<char>, title: Seq<char>, duration_ms: u32, tempo: JsonView, beats: Seq<JsonView>)
    ensures
        ({
            let doc = metadata_json(show, title, duration_ms, tempo, beats);
            &&& member(doc, "title"@) == Some(JsonView::Text(title))
            &&& member(doc, "tempo"@) == Some(tempo)
            &&& beat_items(doc) == beats
            &&& member(doc, "duration"@) matches Some(JsonView::PosInt(n)) && n * 1000 <= duration_ms < (n + 1) * 1000
            &&& member(doc, "filename"@) == Some(JsonView::Text("songs/"@ + show + "/"@ + show + ".mp3"@))
        }),
{
    reveal_strlit("filename");
    reveal_strlit("title");
    reveal_strlit("channel");
    reveal_strlit("duration");
    reveal_strlit("tempo");
    reveal_strlit("beats");
    let es = metadata_json(show, title, duration_ms, tempo, beats)->Object_0;
    assert("filename"@.len() == 8 && "title"@.len() == 5 && "channel"@.len() == 7 && "duration"@.len() == 8 && "tempo"@.len() == 5
        && "beats"@.len() == 5);
    assert("filename"@[0] == 'f' && "duration"@[0] == 'd' && "title"@[1] == 'i' && "tempo"@[1] == 'e' && "beats"@[0] == 'b' && "tempo"@[0]
        == 't' && "title"@[0] == 't');
    assert forall|a: int, b: int| 0 <= a < b < es.len() implies (#[trigger] es[a]).0 != (#[trigger] es[b]).0 by {}
    lemma_found(es, 0);
    lemma_found(es, 1);
    lemma_found(es, 3);
    lemma_found(es, 4);
    lemma_found(es, 5);
}

proof fn lemma_found(es: Seq<(Seq<char>, JsonView)>, i: int)
    requires
        0 <= i < es.len(),
        forall|a: int, b: int| 0 <= a < b < es.len() ==> (#[trigger] es[a]).0 != (#[trigger] es[b]).0,
    ensures
        lookup(es, es[i].0) == Some(es[i].1),
{
    lemma_lookup_at(es, i);
}

// ---- names ------------------------------------------------------------------

/// A folder is named like its project as far as that can be: a name of letters, digits, `-`,
/// `_` and `.` that does not begin or end with `_` stays as it is.
pub proof fn law_folder_name_stays(name: Seq<char>)
    requires
        name.len() > 0,
        name[0] != '_' && name.last() != '_',
        forall|i: int|
            0 <= i < name.len() ==> {
                let c = #[trigger] name[i];
                'a' <= c <= 'z' || 'A' <= c <= 'Z' || '0' <= c <= '9' || c == '-' || c == '_' || c == '.'
            },
    ensures
        folder_name(name) == name,
{
    assert(name[0] == name[0] && name[name.len() - 1] == name.last());
    let p = |c: char| is_space(c);
    assert(!p(name[0]) && !p(name.last()));
    law_trim_nothing(name, p);
    assert(trimmed(name) == name);
    assert(cleaned(name) =~= name);
    law_trim_nothing(name, |c: char| c == '_');
}

/// Each character that a folder's name cannot hold becomes `_` in its place, and no other
/// character changes.
pub proof fn law_cleaned(name: Seq<char>, i: int)
    requires
        0 <= i < name.len(),
    ensures
        cleaned(name).len() == name.len(),
        ({
            let c = name[i];
            if 'a' <= c <= 'z' || 'A' <= c <= 'Z' || '0' <= c <= '9' || c == '-' || c == '_' || c == '.' {
                cleaned(name)[i] == c
            } else {
                cleaned(name)[i] == '_'
            }
        }),
{
}

proof fn lemma_last_dot(stem: Seq<char>, ext: Seq<char>)
    requires
        forall|i: int| 0 <= i < ext.len() ==> #[trigger] ext[i] != '.',
    ensures
        last_at(stem.push('.') + ext, '.') == Some(stem.len() as int),
    decreases ext.len(),
{
    let s = stem.push('.') + ext;
    if ext.len() == 0 {
        assert(s.last() == '.');
    } else {
        let less = ext.drop_last();
        assert forall|i: int| 0 <= i < less.len() implies #[trigger] less[i] != '.' by {
            assert(less[i] == ext[i]);
        }
        lemma_last_dot(stem, less);
        assert(s.drop_last() =~= stem.push('.') + less);
        assert(s.last() == ext[ext.len() - 1]);
    }
}

/// A text without the separator is one part.
pub proof fn lemma_one_part(s: Seq<char>, c: char)
    requires
        forall|i: int| 0 <= i < s.len() ==> #[trigger] s[i] != c,
    ensures
        parts(s, c) == seq![s],
    decreases s.len(),
{
    if s.len() == 0 {
        assert(seq![Seq::<char>::empty()] =~= seq![s]) by {
            assert(s =~= Seq::<char>::empty());
        }
    } else {
        let p = s.drop_last();
        assert forall|i: int| 0 <= i < p.len() implies #[trigger] p[i] != c by {
            assert(p[i] == s[i]);
        }
        lemma_one_part(p, c);
        assert(s[s.len() - 1] != c);
        assert(seq![p].drop_last() =~= Seq::<Seq<char>>::empty());
        assert(p.push(s.last()) =~= s);
        assert(parts(s, c) =~= seq![s]);
    }
}

/// The audio keeps the ending of the uploaded file, in lower case: what follows the last dot
/// of a name that does not begin with that dot.
pub proof fn law_audio_ending(stem: Seq<char>, ext: Seq<char>, mime: Seq<char>)
    requires
        stem.len() > 0,
        ext.len() > 0,
        forall|i: int| 0 <= i < ext.len() ==> #[trigger] ext[i] != '.' && ext[i] != '/',
        forall|i: int| 0 <= i < stem.len() ==> #[trigger] stem[i] != '/',
    ensures
        audio_ending(stem.push('.') + ext, mime) == lowered(ext),
{
    let name = stem.push('.') + ext;
    assert forall|i: int| 0 <= i < name.len() implies #[trigger] name[i] != '/' by {
        if i < stem.len() {
            assert(name[i] == stem[i]);
        } else if i > stem.len() {
            assert(name[i] == ext[i - stem.len() - 1]);
        }
    }
    lemma_one_part(name, '/');
    lemma_last_dot(stem, ext);
    reveal_strlit(".");
    reveal_strlit("..");
    assert(seq![name].last() == name);
    assert(name.last() == ext[ext.len() - 1]);
    assert("."@[0] == '.' && ".."@[1] == '.');
    assert(name != ".."@) by {
        if name == ".."@ {
            assert(name.last() == '.');
        }
    }
    assert(name.skip(stem.len() as int + 1) =~= ext);
}

/// A file without an ending gets one by its kind.
pub proof fn law_audio_ending_by_kind(name: Seq<char>, mime: Seq<char>)
    requires
        forall|i: int| 0 <= i < name.len() ==> #[trigger] name[i] != '.',
    ensures
        mime == "audio/wav"@ || mime == "audio/x-wav"@ ==> audio_ending(name, mime) == "wav"@,
        mime == "audio/ogg"@ ==> audio_ending(name, mime) == "ogg"@,
        mime == "audio/flac"@ ==> audio_ending(name, mime) == "flac"@,
        mime == "audio/aac"@ || mime == "audio/mp4"@ ==> audio_ending(name, mime) == "m4a"@,
        mime == "audio/mpeg"@ ==> audio_ending(name, mime) == "mp3"@,
{
    reveal_strlit("audio/wav");
    reveal_strlit("audio/x-wav");
    reveal_strlit("audio/ogg");
    reveal_strlit("audio/flac");
    reveal_strlit("audio/aac");
    reveal_strlit("audio/mp4");
    reveal_strlit("audio/mpeg");
    assert("audio/wav"@.len() == 9 && "audio/x-wav"@.len() == 11 && "audio/ogg"@.len() == 9 && "audio/flac"@.len() == 10 && "audio/aac"@.len()
        == 9 && "audio/mp4"@.len() == 9 && "audio/mpeg"@.len() == 10);
    assert("audio/wav"@[6] == 'w' && "audio/ogg"@[6] == 'o' && "audio/aac"@[6] == 'a' && "audio/mp4"@[6] == 'm' && "audio/flac"@[6] == 'f'
        && "audio/mpeg"@[6] == 'm');
    law_parts(name, '/');
    let ps = parts(name, '/');
    assert forall|i: int, j: int| 0 <= i < ps.len() && 0 <= j < ps[i].len() implies #[trigger] ps[i][j] != '.' by {
        lemma_part_chars(name, '/', i, j);
    }
    lemma_no_dot(ps);
}

proof fn lemma_part_chars(s: Seq<char>, c: char, i: int, j: int)
    requires
        0 <= i < parts(s, c).len(),
        0 <= j < parts(s, c)[i].len(),
    ensures
        s.contains(parts(s, c)[i][j]),
    decreases s.len(),
{
    if s.len() > 0 {
        let p = s.drop_last();
        let before = parts(p, c);
        law_parts(p, c);
        let x = parts(s, c)[i][j];
        if s.last() != c && i == before.len() - 1 && j == before.last().len() {
            assert(s[s.len() - 1] == x);
        } else {
            assert(before[i][j] == x);
            lemma_part_chars(p, c, i, j);
            let k = choose|k: int| 0 <= k < p.len() && p[k] == x;
            assert(s[k] == x);
        }
    }
}

proof fn lemma_no_dot(ps: Seq<Seq<char>>)
    requires
        forall|i: int, j: int| 0 <= i < ps.len() && 0 <= j < ps[i].len() ==> #[trigger] ps[i][j] != '.',
    ensures
        file_part(ps) matches Some(f) ==> last_at(f, '.') is None,
    decreases ps.len(),
{
    reveal_strlit(".");
    if ps.len() > 0 {
        let z = ps.len() - 1;
        if ps[z].len() > 0 {
            assert(ps[z][0] != '.');
            lemma_none_last(ps[z]);
        }
        let p = ps.drop_last();
        assert forall|i: int, j: int| 0 <= i < p.len() && 0 <= j < p[i].len() implies #[trigger] p[i][j] != '.' by {
            assert(ps[i][j] == p[i][j]);
        }
        lemma_no_dot(p);
    }
}

proof fn lemma_none_last(f: Seq<char>)
    requires
        forall|j: int| 0 <= j < f.len() ==> #[trigger] f[j] != '.',
    ensures
        last_at(f, '.') is None,
    decreases f.len(),
{
    if f.len() > 0 {
        let p = f.drop_last();
        assert forall|j: int| 0 <= j < p.len() implies #[trigger] p[j] != '.' by {
            assert(f[j] == p[j]);
        }
        assert(f[f.len() - 1] != '.');
        lemma_none_last(p);
    }
}

/// The files of a package lie in its folder, and the two documents have different names.
pub proof fn law_file_names(show: Seq<char>, ext: Seq<char>)
    ensures
        instructions_name(show) == show + "/instructions-exported.json"@,
        metadata_name(show) == show + "/metadata.json"@,
        audio_name(show, ext) == show + "/"@ + show + "."@ + ext,
        instructions_name(show) != metadata_name(show),
{
    reveal_strlit("/instructions-exported.json");
    reveal_strlit("/metadata.json");
    assert(instructions_name(show).len() != metadata_name(show).len());
}

// ---- the song ---------------------------------------------------------------

/// A project's song can be exported exactly where it is complete, all of it was received and
/// is here, and it has a tempo.
pub proof fn law_song_exported(songs: Seq<SongView>, chunks: Seq<SongChunkView>, project: u64, i: int)
    requires
        0 <= i < songs.len(),
        songs[i].project_id == project,
        forall|j: int| 0 <= j < i ==> (#[trigger] songs[j]).project_id != project,
    ensures
        audio_problem(songs, chunks, project) is None <==> songs[i].complete && songs[i].chunks_received >= songs[i].num_chunks
            && !at_most_zero(songs[i].bpm_bits) && rows_of::<SongChunk>(chunks, songs[i].id).len() as u32 == songs[i].num_chunks,
{
    let p = is_song_of(project);
    law_first_song(songs, p);
    assert(p(songs[i]));
    let k = first_song(songs, p)->0;
    if k < i {
        assert(songs[k].project_id != project);
    }
}

/// A project without a song cannot be exported.
pub proof fn law_no_song_no_export(songs: Seq<SongView>, chunks: Seq<SongChunkView>, project: u64)
    requires
        forall|j: int| 0 <= j < songs.len() ==> (#[trigger] songs[j]).project_id != project,
    ensures
        audio_problem(songs, chunks, project) is Some,
{
    law_first_song(songs, is_song_of(project));
}

// ---- the instructions -------------------------------------------------------

/// The entry is one of this device at this millisecond: its frame's time is that, or is below
/// zero and the millisecond is 0.
pub open spec fn at_ms<F: Fn(u32) -> i64>(e: DeviceEntryView, f: F, ms: u64, device: Seq<char>) -> bool {
    &&& e.device == device
    &&& time_of(f, e.frame) == ms || time_of(f, e.frame) < 0 && ms == 0
}

/// Of the entries of a device that fall on one millisecond, the last of the latest frame
/// counts; where none falls there, none does.
pub proof fn law_counting<F: Fn(u32) -> i64>(es: Seq<DeviceEntryView>, f: F, ms: u64, device: Seq<char>)
    ensures
        match counting(es, f, ms, device) {
            Some(e) => exists|i: int|
                {
                    &&& 0 <= i < es.len() && #[trigger] es[i] == e && at_ms(e, f, ms, device)
                    &&& forall|j: int|
                        0 <= j < es.len() && at_ms(#[trigger] es[j], f, ms, device) ==> es[j].frame < e.frame || es[j].frame == e.frame && j <= i
                },
            None => forall|j: int| 0 <= j < es.len() ==> !at_ms(#[trigger] es[j], f, ms, device),
        },
    decreases es.len(),
{
    if es.len() > 0 {
        let p = es.drop_last();
        let z = es.len() - 1;
        law_counting(p, f, ms, device);
        let last = es[z];
        assert(at_ms(last, f, ms, device) <==> ms_of(f, last.frame) == ms && last.device == device);
        match counting(p, f, ms, device) {
            Some(b) => {
                let i = choose|i: int|
                    {
                        &&& 0 <= i < p.len() && #[trigger] p[i] == b && at_ms(b, f, ms, device)
                        &&& forall|j: int|
                            0 <= j < p.len() && at_ms(#[trigger] p[j], f, ms, device) ==> p[j].frame < b.frame || p[j].frame == b.frame && j
                                <= i
                    };
                let w = if at_ms(last, f, ms, device) && b.frame <= last.frame {
                    z
                } else {
                    i
                };
                assert(es[i] == p[i]);
                assert(counting(es, f, ms, device) == Some(es[w]));
                assert forall|j: int| 0 <= j < es.len() && at_ms(#[trigger] es[j], f, ms, device) implies es[j].frame < es[w].frame
                    || es[j].frame == es[w].frame && j <= w by {
                    if j < z {
                        assert(p[j] == es[j]);
                    }
                }
            },
            None => {
                assert forall|j: int| 0 <= j < z implies !at_ms(#[trigger] es[j], f, ms, device) by {
                    assert(p[j] == es[j]);
                }
                if at_ms(last, f, ms, device) {
                    assert(counting(es, f, ms, device) == Some(es[z]));
                }
            },
        }
    }
}

/// What an exported package shows at a time is what the project's keyframes say: the value of
/// a device at a millisecond is that of an entry of the show that falls on it, and every entry
/// of the show falls on a millisecond of the document.
pub proof fn law_exported_show<F: Fn(u32) -> i64>(
    doc: JsonView,
    project: u64,
    head: u64,
    edits: Seq<Edit>,
    lasers: Seq<LaserKeyframe>,
    projectors: Seq<ProjectorKeyframe>,
    turrets: Seq<TurretKeyframe>,
    f: F,
) -> (show: (Seq<Edit>, Seq<Keyframe>))
    requires
        is_show(doc, project, head, edits, lasers, projectors, turrets, f),
    ensures
        is_log_of(show.0, edits, project),
        keyframe_map(show.1) == folded(show.0, head),
        ({
            let es = show_entries(
                show.1,
                rows_of::<LaserKeyframe>(row_views(lasers), project),
                rows_of::<ProjectorKeyframe>(projectors, project),
                rows_of::<TurretKeyframe>(turrets, project),
            );
            &&& forall|ms: u64, d: Seq<char>| #[trigger]
                device_at(doc, ms, d) matches Some(v) ==> exists|i: int|
                    0 <= i < es.len() && at_ms(#[trigger] es[i], f, ms, d) && es[i].value == v
            &&& forall|ms: u64, d: Seq<char>, i: int|
                #![trigger device_at(doc, ms, d), es[i]]
                0 <= i < es.len() && at_ms(es[i], f, ms, d) ==> device_at(doc, ms, d) is Some
        }),
{
    let (log, lights) = choose|log: Seq<Edit>, lights: Seq<Keyframe>|
        is_log_of(log, edits, project) && #[trigger] is_timeline(lights, log, head) && is_instructions(
            doc,
            show_entries(
                lights,
                rows_of::<LaserKeyframe>(row_views(lasers), project),
                rows_of::<ProjectorKeyframe>(projectors, project),
                rows_of::<TurretKeyframe>(turrets, project),
            ),
            f,
        );
    let es = show_entries(
        lights,
        rows_of::<LaserKeyframe>(row_views(lasers), project),
        rows_of::<ProjectorKeyframe>(projectors, project),
        rows_of::<TurretKeyframe>(turrets, project),
    );
    assert forall|ms: u64, d: Seq<char>| #[trigger] device_at(doc, ms, d) matches Some(v) implies exists|i: int|
        0 <= i < es.len() && at_ms(#[trigger] es[i], f, ms, d) && es[i].value == device_at(doc, ms, d)->0 by {
        law_counting(es, f, ms, d);
        let e = counting(es, f, ms, d)->0;
        let i = choose|i: int|
            {
                &&& 0 <= i < es.len() && #[trigger] es[i] == e && at_ms(e, f, ms, d)
                &&& forall|j: int|
                    0 <= j < es.len() && at_ms(#[trigger] es[j], f, ms, d) ==> es[j].frame < e.frame || es[j].frame == e.frame && j <= i
            };
        assert(at_ms(es[i], f, ms, d));
    }
    assert forall|ms: u64, d: Seq<char>, i: int|
        #![trigger device_at(doc, ms, d), es[i]]
        0 <= i < es.len() && at_ms(es[i], f, ms, d) implies device_at(doc, ms, d) is Some by {
        law_counting(es, f, ms, d);
    }
    (log, lights)
}

/// A package is the instructions, the metadata and the audio, each under its own name in the
/// show's folder; they are told apart by their names unless the audio's is taken.
pub proof fn law_package_files(show: Seq<char>, ext: Seq<char>, instructions: Seq<u8>, metadata: Seq<u8>, audio: Seq<u8>)
    ensures
        ({
            let files = package_files(show, ext, instructions, metadata, audio);
            &&& files.len() == 3
            &&& files[0] == (show + "/instructions-exported.json"@, instructions)
            &&& files[1] == (show + "/metadata.json"@, metadata)
            &&& files[2] == (show + "/"@ + show + "."@ + ext, audio)
            &&& name_taken(show, ext) <==> exists|i: int, j: int| 0 <= i < j < 3 && (#[trigger] files[i]).0 == (#[trigger] files[j]).0
        }),
{
    law_file_names(show, ext);
    let files = package_files(show, ext, instructions, metadata, audio);
    if audio_name(show, ext) == instructions_name(show) {
        assert(files[0].0 == files[2].0);
    }
    if audio_name(show, ext) == metadata_name(show) {
        assert(files[1].0 == files[2].0);
    }
}

} // verus!
