//! The package of an exported show: its name, its metadata, its audio, and the
//! archive that holds them with the instructions.
use crate::archive::{
    archive_bytes, archive_finish, archive_new, archive_start, archive_write, archived, extended, file_bytes, has_file, intact, Archive,
    MAX_NAME_BYTES,
};
use crate::audio::{at_most_zero, first_song, is_song_of, song_of};
use crate::chunking::{assemble, audio_of, count_chunks};
use crate::export::show_entries;
use crate::instructions::{build_instructions, is_instructions, times_frames};
use crate::json::{
    entry_views, item_views, lemma_array_view, lemma_object_view, plain, pretty_json, reads_back, write_json, Json, JsonView,
    MAX_DEPTH,
};
use crate::logic::{fold_keyframes, folded, in_order, keyframe_map, Keyframe, Keyframes};
use crate::rows::{
    Edit, LaserKeyframe, Project, ProjectorKeyframe, Song, SongChunk, SongChunkView, SongView, TurretKeyframe,
};
use crate::session::{by_seq, edits_of, project_log};
use crate::stage_rows::own_rows;
use crate::store::{row_views, rows_of};
use crate::text::{
    chars_of, lower, lowered, parts, push_str, same, same_str, slice_of, split, text_of, trim, trim_char, trim_left, trim_right, trim_where, trimmed, views,
};
use vstd::prelude::*;
use vstd::utf8::encode_utf8;

verus! {

broadcast use {vstd::seq::group_seq_axioms, vstd::string::group_string_axioms};

// ---- names ------------------------------------------------------------------

/// A character that a folder's name keeps: an ASCII letter or digit, or one of `-`,
/// `_` and `.`.
pub open spec fn is_safe(c: char) -> bool {
    ||| 'a' <= c <= 'z'
    ||| 'A' <= c <= 'Z'
    ||| '0' <= c <= '9'
    ||| c == '-'
    ||| c == '_'
    ||| c == '.'
}

/// The text with every other character replaced by `_`.
pub open spec fn cleaned(s: Seq<char>) -> Seq<char> {
    s.map_values(
        |c: char|
            if is_safe(c) {
                c
            } else {
                '_'
            },
    )
}

/// A project's name as a folder's name: without white space at the ends, cleaned,
/// and without `_` at the ends; `show` where nothing is left.
pub open spec fn folder_name(name: Seq<char>) -> Seq<char> {
    let s = trim_where(cleaned(trimmed(name)), |c: char| c == '_');
    if s.len() == 0 {
        "show"@
    } else {
        s
    }
}

/// A project's name as a folder's name: see [`folder_name`].
pub fn sanitize_name(name: &str) -> (r: String)
    ensures
        r@ == folder_name(name@),
{
    let v: Vec<char> = trim(&chars_of(name));
    let mut out: Vec<char> = Vec::new();
    let mut i: usize = 0;
    while i < v.len()
        invariant
            i <= v@.len(),
            out@ == cleaned(v@.take(i as int)),
        decreases v@.len() - i,
    {
        let c: char = v[i];
        let keep: bool = ('a' <= c && c <= 'z') || ('A' <= c && c <= 'Z') || ('0' <= c && c <= '9') || c == '-' || c == '_' || c
            == '.';
        out.push(
            if keep {
                c
            } else {
                '_'
            },
        );
        i = i + 1;
        assert(out@ =~= cleaned(v@.take(i as int)));
    }
    assert(v@.take(v@.len() as int) =~= v@);
    let s: Vec<char> = trim_char(&out, '_');
    if s.len() == 0 {
        "show".to_owned()
    } else {
        text_of(&s)
    }
}

/// The last component of a path that names a file: empty components and `.` do
/// not count, and `..` names none.
pub open spec fn file_part(ps: Seq<Seq<char>>) -> Option<Seq<char>>
    decreases ps.len(),
{
    if ps.len() == 0 {
        None
    } else if ps.last().len() == 0 || ps.last() == "."@ {
        file_part(ps.drop_last())
    } else if ps.last() == ".."@ {
        None
    } else {
        Some(ps.last())
    }
}

/// The place of the last character of this kind.
pub open spec fn last_at(s: Seq<char>, c: char) -> Option<int>
    decreases s.len(),
{
    if s.len() == 0 {
        None
    } else if s.last() == c {
        Some(s.len() - 1)
    } else {
        last_at(s.drop_last(), c)
    }
}

/// What follows the last dot of a file's name, unless that dot comes first.
pub open spec fn extension(name: Seq<char>) -> Option<Seq<char>> {
    match file_part(parts(name, '/')) {
        None => None,
        Some(file) => match last_at(file, '.') {
            None => None,
            Some(d) => if d == 0 {
                None
            } else {
                Some(file.skip(d + 1))
            },
        },
    }
}

/// The ending of the audio's file: that of the uploaded file in lower case, or one
/// by its MIME type.
pub open spec fn audio_ending(name: Seq<char>, mime: Seq<char>) -> Seq<char> {
    match extension(name) {
        Some(e) => if e.len() > 0 {
            lowered(e)
        } else {
            mime_ending(mime)
        },
        None => mime_ending(mime),
    }
}

/// The ending of files of a MIME type.
pub open spec fn mime_ending(mime: Seq<char>) -> Seq<char> {
    if mime == "audio/wav"@ || mime == "audio/x-wav"@ {
        "wav"@
    } else if mime == "audio/ogg"@ {
        "ogg"@
    } else if mime == "audio/flac"@ {
        "flac"@
    } else if mime == "audio/aac"@ || mime == "audio/mp4"@ {
        "m4a"@
    } else {
        "mp3"@
    }
}

/// What follows the last dot of a file's name: see [`extension`].
pub fn find_extension(name: &str) -> (r: Option<Vec<char>>)
    ensures
        match r {
            Some(e) => extension(name@) == Some(e@),
            None => extension(name@) is None,
        },
{
    let all: Vec<Vec<char>> = split(&chars_of(name), '/');
    let ghost ps = views(all@);
    let dot: Vec<char> = chars_of(".");
    let dots: Vec<char> = chars_of("..");
    let mut i: usize = all.len();
    assert(ps.take(ps.len() as int) =~= ps);
    while i > 0
        invariant
            i <= all@.len(),
            ps == views(all@),
            dot@ == "."@,
            dots@ == ".."@,
            ps == parts(name@, '/'),
            file_part(ps) == file_part(ps.take(i as int)),
        decreases i,
    {
        let file: &Vec<char> = &all[i - 1];
        assert(ps.take(i as int).last() == file@);
        assert(ps.take(i as int).drop_last() =~= ps.take(i - 1));
        if file.len() == 0 || same(file, &dot) {
            i = i - 1;
        } else if same(file, &dots) {
            return None;
        } else {
            let mut k: usize = file.len();
            assert(file@.take(file@.len() as int) =~= file@);
            while k > 0
                invariant
                    k <= file@.len(),
                    file_part(parts(name@, '/')) == Some(file@),
                    last_at(file@, '.') == last_at(file@.take(k as int), '.'),
                decreases k,
            {
                assert(file@.take(k as int).drop_last() =~= file@.take(k - 1));
                if file[k - 1] == '.' {
                    if k == 1 {
                        return None;
                    }
                    let e: Vec<char> = slice_of(file, k, file.len());
                    assert(e@ =~= file@.skip(k as int));
                    return Some(e);
                }
                k = k - 1;
            }
            return None;
        }
    }
    None
}

/// The ending of the audio's file: see [`audio_ending`].
pub fn audio_ext(name: &str, mime: &str) -> (r: String)
    ensures
        r@ == audio_ending(name@, mime@),
{
    match find_extension(name) {
        Some(e) => {
            if e.len() > 0 {
                return text_of(&lower(&e));
            }
        },
        None => {},
    }
    if same_str(mime, "audio/wav") || same_str(mime, "audio/x-wav") {
        "wav".to_owned()
    } else if same_str(mime, "audio/ogg") {
        "ogg".to_owned()
    } else if same_str(mime, "audio/flac") {
        "flac".to_owned()
    } else if same_str(mime, "audio/aac") || same_str(mime, "audio/mp4") {
        "m4a".to_owned()
    } else {
        "mp3".to_owned()
    }
}

/// Trimming leaves only what was there.
proof fn lemma_trim_keeps(s: Seq<char>, p: spec_fn(char) -> bool, q: spec_fn(char) -> bool)
    requires
        forall|i: int| 0 <= i < s.len() ==> q(#[trigger] s[i]),
    ensures
        forall|i: int| 0 <= i < trim_where(s, p).len() ==> q(#[trigger] trim_where(s, p)[i]),
        trim_where(s, p).len() > 0 ==> !p(trim_where(s, p)[0]) && !p(trim_where(s, p).last()),
{
    lemma_left_keeps(s, p, q);
    lemma_right_keeps(trim_left(s, p), p, q);
}

proof fn lemma_left_keeps(s: Seq<char>, p: spec_fn(char) -> bool, q: spec_fn(char) -> bool)
    requires
        forall|i: int| 0 <= i < s.len() ==> q(#[trigger] s[i]),
    ensures
        forall|i: int| 0 <= i < trim_left(s, p).len() ==> q(#[trigger] trim_left(s, p)[i]),
        trim_left(s, p).len() > 0 ==> !p(trim_left(s, p)[0]),
    decreases s.len(),
{
    if s.len() > 0 && p(s[0]) {
        assert forall|i: int| 0 <= i < s.drop_first().len() implies q(#[trigger] s.drop_first()[i]) by {
            assert(q(s[i + 1]));
        }
        lemma_left_keeps(s.drop_first(), p, q);
    }
}

proof fn lemma_right_keeps(s: Seq<char>, p: spec_fn(char) -> bool, q: spec_fn(char) -> bool)
    requires
        forall|i: int| 0 <= i < s.len() ==> q(#[trigger] s[i]),
        s.len() > 0 ==> !p(s[0]),
    ensures
        forall|i: int| 0 <= i < trim_right(s, p).len() ==> q(#[trigger] trim_right(s, p)[i]),
        trim_right(s, p).len() > 0 ==> !p(trim_right(s, p)[0]) && !p(trim_right(s, p).last()),
    decreases s.len(),
{
    if s.len() > 0 && p(s.last()) {
        assert forall|i: int| 0 <= i < s.drop_last().len() implies q(#[trigger] s.drop_last()[i]) by {
            assert(q(s[i]));
        }
        lemma_right_keeps(s.drop_last(), p, q);
    }
}

/// A folder's name is never empty, holds safe characters only, and neither begins
/// nor ends with `_`.
pub proof fn law_folder_name_is_safe(name: Seq<char>)
    ensures
        folder_name(name).len() > 0,
        forall|i: int| 0 <= i < folder_name(name).len() ==> is_safe(#[trigger] folder_name(name)[i]),
        folder_name(name)[0] != '_',
        folder_name(name).last() != '_',
{
    reveal_strlit("show");
    let s = cleaned(trimmed(name));
    lemma_trim_keeps(s, |c: char| c == '_', |c: char| is_safe(c));
    let t = trim_where(s, |c: char| c == '_');
    let q = |c: char| is_safe(c);
    assert forall|i: int| 0 <= i < t.len() implies is_safe(#[trigger] t[i]) by {
        assert(q(t[i]));
    }
}

// ---- metadata ---------------------------------------------------------------

/// The metadata of a show.
pub open spec fn metadata_json(show: Seq<char>, title: Seq<char>, duration_ms: u32, tempo: JsonView, beats: Seq<JsonView>) -> JsonView {
    JsonView::Object(
        seq![
            ("filename"@, JsonView::Text("songs/"@ + show + "/"@ + show + ".mp3"@)),
            ("title"@, JsonView::Text(title)),
            ("channel"@, JsonView::Text(""@)),
            ("duration"@, JsonView::PosInt((duration_ms / 1000) as u64)),
            ("tempo"@, tempo),
            ("beats"@, JsonView::Array(beats)),
        ],
    )
}

/// The metadata of a show. The tempo and the beats, in seconds, are numbers of the
/// caller's.
pub fn build_metadata(show_name: &str, title: &str, duration_ms: u32, tempo: Json, beats: Vec<Json>) -> (r: Json)
    ensures
        r@ == metadata_json(show_name@, title@, duration_ms, tempo@, item_views(beats@)),
{
    let mut name: Vec<char> = chars_of("songs/");
    push_str(&mut name, show_name);
    push_str(&mut name, "/");
    push_str(&mut name, show_name);
    push_str(&mut name, ".mp3");
    proof {
        lemma_array_view(beats);
    }
    let ghost heard = item_views(beats@);
    let mut e: Vec<(String, Json)> = Vec::new();
    e.push(("filename".to_owned(), Json::Text(text_of(&name))));
    e.push(("title".to_owned(), Json::Text(title.to_owned())));
    e.push(("channel".to_owned(), Json::Text("".to_owned())));
    e.push(("duration".to_owned(), Json::PosInt((duration_ms / 1000) as u64)));
    e.push(("tempo".to_owned(), tempo));
    e.push(("beats".to_owned(), Json::Array(beats)));
    proof {
        lemma_object_view(e);
        reveal_with_fuel(<Json as View>::view, 2);
        assert(entry_views(e@) =~= metadata_json(show_name@, title@, duration_ms, tempo@, heard)->Object_0);
    }
    Json::Object(e)
}

// ---- audio ------------------------------------------------------------------

/// Why a project's audio cannot be exported.
pub open spec fn audio_problem(songs: Seq<SongView>, chunks: Seq<SongChunkView>, project: u64) -> Option<Seq<char>> {
    match first_song(songs, is_song_of(project)) {
        None => Some("This project has no song yet. Upload audio before exporting."@),
        Some(i) => {
            let song = songs[i];
            if !song.complete || song.chunks_received < song.num_chunks {
                Some("Audio is still uploading — wait until it finishes, then export."@)
            } else if at_most_zero(song.bpm_bits) {
                Some("Song has no tempo, so timing can't be computed."@)
            } else if rows_of::<SongChunk>(chunks, song.id).len() as u32 != song.num_chunks {
                Some("Audio is still downloading to this client. Try again in a moment."@)
            } else {
                None
            }
        },
    }
}

/// The song of a project that is ready for export, by its place in the table, and
/// its audio.
pub fn export_audio(songs: &Vec<Song>, chunks: &Vec<SongChunk>, project: u64) -> (r: Result<(usize, Vec<u8>), String>)
    ensures
        r is Err <==> audio_problem(row_views(songs@), row_views(chunks@), project) is Some,
        r matches Err(e) ==> audio_problem(row_views(songs@), row_views(chunks@), project) == Some(e@),
        r matches Ok(a) ==> a.0 < songs@.len() && first_song(row_views(songs@), is_song_of(project)) == Some(a.0 as int) && a.1@
            == audio_of(row_views(chunks@), songs@[a.0 as int].id),
{
    let i: usize = match song_of(songs, project) {
        None => {
            return Err("This project has no song yet. Upload audio before exporting.".to_owned());
        },
        Some(i) => i,
    };
    let song: &Song = &songs[i];
    assert(row_views(songs@)[i as int] == song@);
    if !song.complete || song.chunks_received < song.num_chunks {
        return Err("Audio is still uploading — wait until it finishes, then export.".to_owned());
    }
    if song.bpm_bits == 0 || (song.bpm_bits >= 0x8000_0000 && song.bpm_bits <= 0xff80_0000) {
        return Err("Song has no tempo, so timing can't be computed.".to_owned());
    }
    let n: usize = count_chunks(chunks, song.id);
    if n as u32 != song.num_chunks {
        return Err("Audio is still downloading to this client. Try again in a moment.".to_owned());
    }
    Ok((i, assemble(chunks, song.id)))
}

// ---- gathering --------------------------------------------------------------

/// A show that is ready to be packed.
#[derive(Debug)]
pub struct ExportData {
    /// The name of the folder and of the archive.
    pub show_name: String,
    /// The ending of the audio's file.
    pub audio_ext: String,
    pub audio_bytes: Vec<u8>,
    pub instructions: Json,
    pub metadata: Json,
}

/// The log holds the edits of a project in the order of its history.
pub open spec fn is_log_of(log: Seq<Edit>, edits: Seq<Edit>, project: u64) -> bool {
    by_seq(log) && log.to_multiset() == edits_of(edits, project).to_multiset()
}

/// The keyframes of the show that a log makes up to an edit.
pub open spec fn is_timeline(lights: Seq<Keyframe>, log: Seq<Edit>, head: u64) -> bool {
    in_order(lights) && keyframe_map(lights) == folded(log, head)
}

/// The document holds the project's show as of its newest edit: the keyframes of
/// its log and of its fixtures.
pub open spec fn is_show<F: Fn(u32) -> i64>(
    doc: JsonView,
    project: u64,
    head: u64,
    edits: Seq<Edit>,
    lasers: Seq<LaserKeyframe>,
    projectors: Seq<ProjectorKeyframe>,
    turrets: Seq<TurretKeyframe>,
    f: F,
) -> bool {
    exists|log: Seq<Edit>, lights: Seq<Keyframe>|
        is_log_of(log, edits, project) && #[trigger] is_timeline(lights, log, head) && is_instructions(
            doc,
            show_entries(
                lights,
                rows_of::<LaserKeyframe>(row_views(lasers), project),
                rows_of::<ProjectorKeyframe>(projectors, project),
                rows_of::<TurretKeyframe>(turrets, project),
            ),
            f,
        )
}

/// Gathers a project for export. The song and its audio are those that
/// [`export_audio`] gives; what the song's tempo makes of a frame, the tempo itself
/// and the beats in seconds are the caller's.
pub fn gather<F: Fn(u32) -> i64>(
    project: &Project,
    song: &Song,
    audio_bytes: Vec<u8>,
    edits: &Vec<Edit>,
    lasers: &Vec<LaserKeyframe>,
    projectors: &Vec<ProjectorKeyframe>,
    turrets: &Vec<TurretKeyframe>,
    tempo: Json,
    beats: Vec<Json>,
    frame_to_ms: F,
) -> (r: ExportData)
    requires
        times_frames(frame_to_ms),
    ensures
        r.show_name@ == folder_name(project.name@),
        r.audio_ext@ == audio_ending(song.name@, song.mime@),
        r.audio_bytes@ == audio_bytes@,
        is_show(r.instructions@, project.id, project.head_seq, edits@, lasers@, projectors@, turrets@, frame_to_ms),
        r.metadata@ == metadata_json(folder_name(project.name@), project.name@, song.duration_ms, tempo@, item_views(beats@)),
{
    let log: Vec<Edit> = project_log(edits.as_slice(), project.id);
    let light_kf: Keyframes = fold_keyframes(log.as_slice(), project.head_seq);
    let own_lasers: Vec<LaserKeyframe> = own_rows(lasers, project.id);
    let own_projectors: Vec<ProjectorKeyframe> = own_rows(projectors, project.id);
    let own_turrets: Vec<TurretKeyframe> = own_rows(turrets, project.id);
    proof {
        assert(row_views(own_projectors@) =~= own_projectors@);
        assert(row_views(own_turrets@) =~= own_turrets@);
        assert(row_views(projectors@) =~= projectors@);
        assert(row_views(turrets@) =~= turrets@);
    }
    let instructions: Json = build_instructions(&light_kf, &own_lasers, &own_projectors, &own_turrets, frame_to_ms);
    proof {
        assert(is_log_of(log@, edits@, project.id));
        assert(is_timeline(light_kf.list(), log@, project.head_seq));
    }
    let show_name: String = sanitize_name(project.name.as_str());
    let audio_ext: String = audio_ext(song.name.as_str(), song.mime.as_str());
    let metadata: Json = build_metadata(show_name.as_str(), project.name.as_str(), song.duration_ms, tempo, beats);
    ExportData { show_name, audio_ext, audio_bytes, instructions, metadata }
}

// ---- packing ----------------------------------------------------------------

/// The name of the instructions in the archive.
pub open spec fn instructions_name(show: Seq<char>) -> Seq<char> {
    show + "/instructions-exported.json"@
}

/// The name of the metadata in the archive.
pub open spec fn metadata_name(show: Seq<char>) -> Seq<char> {
    show + "/metadata.json"@
}

/// The name of the audio in the archive.
pub open spec fn audio_name(show: Seq<char>, ext: Seq<char>) -> Seq<char> {
    show + "/"@ + show + "."@ + ext
}

/// The name is short enough for an archive.
pub open spec fn fits(name: Seq<char>) -> bool {
    encode_utf8(name).len() <= MAX_NAME_BYTES
}

/// The names of the three files fit an archive.
pub open spec fn names_fit(data: ExportData) -> bool {
    &&& fits(instructions_name(data.show_name@))
    &&& fits(metadata_name(data.show_name@))
    &&& fits(audio_name(data.show_name@, data.audio_ext@))
}

/// The files of a package.
pub open spec fn package_files(show: Seq<char>, ext: Seq<char>, instructions: Seq<u8>, metadata: Seq<u8>, audio: Seq<u8>) -> Seq<
    (Seq<char>, Seq<u8>),
> {
    seq![(instructions_name(show), instructions), (metadata_name(show), metadata), (audio_name(show, ext), audio)]
}

/// The audio's name is that of another file of the package.
pub open spec fn name_taken(show: Seq<char>, ext: Seq<char>) -> bool {
    audio_name(show, ext) == instructions_name(show) || audio_name(show, ext) == metadata_name(show)
}

fn file_name(show: &str, rest: &str) -> (r: String)
    ensures
        r@ == show@ + rest@,
{
    let mut v: Vec<char> = chars_of(show);
    push_str(&mut v, rest);
    text_of(&v)
}

fn audio_file(show: &str, ext: &str) -> (r: String)
    ensures
        r@ == audio_name(show@, ext@),
{
    let mut v: Vec<char> = chars_of(show);
    push_str(&mut v, "/");
    push_str(&mut v, show);
    push_str(&mut v, ".");
    push_str(&mut v, ext);
    text_of(&v)
}

/// Whether the names of the three files fit an archive.
pub fn can_pack(data: &ExportData) -> (r: bool)
    ensures
        r == names_fit(*data),
{
    let show: &str = data.show_name.as_str();
    let a: String = file_name(show, "/instructions-exported.json");
    let b: String = file_name(show, "/metadata.json");
    let c: String = audio_file(show, data.audio_ext.as_str());
    a.as_str().as_bytes().len() <= MAX_NAME_BYTES && b.as_str().as_bytes().len() <= MAX_NAME_BYTES && c.as_str().as_bytes().len()
        <= MAX_NAME_BYTES
}

/// Why the documents of a package cannot be written.
pub open spec fn document_problem(data: ExportData) -> Option<Seq<char>> {
    match (pretty_json(data.instructions@), pretty_json(data.metadata@)) {
        (Err(e), _) => Some(e),
        (_, Err(e)) => Some(e),
        _ => None,
    }
}

/// The files of the package of a show whose documents can be written.
pub open spec fn files_of(data: ExportData) -> Seq<(Seq<char>, Seq<u8>)> {
    package_files(
        data.show_name@,
        data.audio_ext@,
        pretty_json(data.instructions@)->Ok_0,
        pretty_json(data.metadata@)->Ok_0,
        data.audio_bytes@,
    )
}

/// Which of the names collide.
proof fn lemma_names(show: Seq<char>, ext: Seq<char>, a: Seq<u8>, b: Seq<u8>, c: Seq<u8>)
    ensures
        instructions_name(show) != metadata_name(show),
        !has_file(package_files(show, ext, a, b, c).take(0), instructions_name(show)),
        !has_file(package_files(show, ext, a, b, c).take(1), metadata_name(show)),
        has_file(package_files(show, ext, a, b, c).take(2), audio_name(show, ext)) <==> name_taken(show, ext),
        file_bytes(package_files(show, ext, a, b, c).take(0)) == 0,
        file_bytes(package_files(show, ext, a, b, c).take(1)) == a.len(),
        file_bytes(package_files(show, ext, a, b, c).take(2)) == a.len() + b.len(),
        file_bytes(package_files(show, ext, a, b, c)) == a.len() + b.len() + c.len(),
{
    let fs = package_files(show, ext, a, b, c);
    reveal_strlit("/instructions-exported.json");
    reveal_strlit("/metadata.json");
    assert(instructions_name(show).len() == show.len() + 27);
    assert(metadata_name(show).len() == show.len() + 14);
    assert(fs.take(1)[0] == fs[0]);
    assert(fs.take(2)[0] == fs[0]);
    assert(fs.take(2)[1] == fs[1]);
    assert(fs.take(1).drop_last() =~= fs.take(0));
    assert(fs.take(2).drop_last() =~= fs.take(1));
    assert(fs.drop_last() =~= fs.take(2));
    assert(file_bytes(fs.take(1)) == file_bytes(fs.take(0)) + a.len());
    assert(file_bytes(fs.take(2)) == file_bytes(fs.take(1)) + b.len());
}

/// Adds a file to the archive.
fn add_file(archive: &mut Archive, name: &str, data: &Vec<u8>) -> (r: Result<(), String>)
    requires
        intact(*old(archive)),
        fits(name@),
    ensures
        has_file(archived(*old(archive)), name@) ==> r is Err,
        !has_file(archived(*old(archive)), name@) && file_bytes(archived(*old(archive))) + data@.len() <= 0x7fff_ffff ==> r is Ok,
        r is Ok ==> intact(*final(archive)) && archived(*final(archive)) == archived(*old(archive)).push((name@, data@)),
{
    let ghost before = archived(*archive);
    let started: Result<(), String> = archive_start(archive, name);
    match started {
        Err(e) => Err(e),
        Ok(_) => {
            let ghost begun = archived(*archive);
            proof {
                assert(begun == before.push((name@, Seq::<u8>::empty())));
                assert(begun.drop_last() =~= before);
                assert(file_bytes(begun) == file_bytes(before));
            }
            let written: Result<(), String> = archive_write(archive, data);
            proof {
                assert(Seq::<u8>::empty() + data@ =~= data@);
                assert(extended(begun, data@) =~= before.push((name@, data@)));
            }
            written
        },
    }
}

/// Packs a show into an archive of three files: the instructions, the metadata and
/// the audio. The instructions can be read again.
pub fn build_zip(data: &ExportData) -> (r: Result<Vec<u8>, String>)
    requires
        names_fit(*data),
    ensures
        document_problem(*data) matches Some(e) ==> (r matches Err(m) && m@ == e),
        name_taken(data.show_name@, data.audio_ext@) ==> r is Err,
        document_problem(*data) is None && !name_taken(data.show_name@, data.audio_ext@) && file_bytes(files_of(*data))
            <= 0x7fff_ffff ==> r is Ok,
        r matches Ok(b) ==> b@ == archive_bytes(files_of(*data)),
        r is Ok && plain(data.instructions@, MAX_DEPTH as nat) ==> reads_back(
            pretty_json(data.instructions@)->Ok_0,
            data.instructions@,
        ),
{
    let show: &str = data.show_name.as_str();
    let ghost name = show@;
    let ghost ext = data.audio_ext@;
    let instructions: Vec<u8> = match write_json(&data.instructions) {
        Ok(b) => b,
        Err(e) => {
            return Err(e);
        },
    };
    let metadata: Vec<u8> = match write_json(&data.metadata) {
        Ok(b) => b,
        Err(e) => {
            return Err(e);
        },
    };
    let ghost fs = files_of(*data);
    proof {
        lemma_names(name, ext, instructions@, metadata@, data.audio_bytes@);
        assert(fs.take(0) =~= Seq::<(Seq<char>, Seq<u8>)>::empty());
        assert(fs.take(1) =~= fs.take(0).push(fs[0]));
        assert(fs.take(2) =~= fs.take(1).push(fs[1]));
        assert(fs =~= fs.take(2).push(fs[2]));
    }
    let mut archive: Archive = archive_new();
    let first: String = file_name(show, "/instructions-exported.json");
    let added: Result<(), String> = add_file(&mut archive, first.as_str(), &instructions);
    if let Err(e) = added {
        return Err(e);
    }
    let second: String = file_name(show, "/metadata.json");
    let added: Result<(), String> = add_file(&mut archive, second.as_str(), &metadata);
    if let Err(e) = added {
        return Err(e);
    }
    let third: String = audio_file(show, data.audio_ext.as_str());
    let added: Result<(), String> = add_file(&mut archive, third.as_str(), &data.audio_bytes);
    if let Err(e) = added {
        return Err(e);
    }
    archive_finish(archive)
}

/// Packs a show for download: the archive's file name and its bytes.
pub fn export_open_project(data: &ExportData) -> (r: Result<(String, Vec<u8>), String>)
    requires
        names_fit(*data),
    ensures
        document_problem(*data) matches Some(e) ==> (r matches Err(m) && m@ == e),
        name_taken(data.show_name@, data.audio_ext@) ==> r is Err,
        document_problem(*data) is None && !name_taken(data.show_name@, data.audio_ext@) && file_bytes(files_of(*data))
            <= 0x7fff_ffff ==> r is Ok,
        r matches Ok(z) ==> z.0@ == data.show_name@ + ".zip"@ && z.1@ == archive_bytes(files_of(*data)),
        r is Ok && plain(data.instructions@, MAX_DEPTH as nat) ==> reads_back(
            pretty_json(data.instructions@)->Ok_0,
            data.instructions@,
        ),
{
    match build_zip(data) {
        Ok(bytes) => Ok((file_name(data.show_name.as_str(), ".zip"), bytes)),
        Err(e) => Err(e),
    }
}

} // verus!
