//! Zip archives in memory, built file by file with the `zip` crate.
use vstd::prelude::*;
use vstd::utf8::encode_utf8;

verus! {

broadcast use {vstd::seq::group_seq_axioms, vstd::string::group_string_axioms};

/// The longest name of a file in an archive, in bytes.
pub const MAX_NAME_BYTES: usize = 0xffff;

/// An archive that is being written: a `zip::ZipWriter` over bytes in memory. The
/// declaration of that type asks for two traits of the standard library's I/O,
/// so it is held in here.
#[verifier::external_body]
pub struct Archive {
    writer: zip::ZipWriter<std::io::Cursor<Vec<u8>>>,
}

/// The files in an archive: their names and contents, in the order they were added.
pub uninterp spec fn archived(a: Archive) -> Seq<(Seq<char>, Seq<u8>)>;

/// No call on the archive has failed so far.
pub uninterp spec fn intact(a: Archive) -> bool;

/// The bytes of the finished archive of these files, stored without compression.
pub uninterp spec fn archive_bytes(files: Seq<(Seq<char>, Seq<u8>)>) -> Seq<u8>;

/// A file of this name is among the files.
pub open spec fn has_file(files: Seq<(Seq<char>, Seq<u8>)>, name: Seq<char>) -> bool {
    exists|i: int| 0 <= i < files.len() && (#[trigger] files[i]).0 == name
}

/// The bytes in all the files.
pub open spec fn file_bytes(files: Seq<(Seq<char>, Seq<u8>)>) -> nat
    decreases files.len(),
{
    if files.len() == 0 {
        0
    } else {
        file_bytes(files.drop_last()) + files.last().1.len()
    }
}

/// The files with more bytes at the end of the last of them.
pub open spec fn extended(files: Seq<(Seq<char>, Seq<u8>)>, data: Seq<u8>) -> Seq<(Seq<char>, Seq<u8>)> {
    files.drop_last().push((files.last().0, files.last().1 + data))
}

/// An empty archive, by `zip::ZipWriter::new`.
#[verifier::external_body]
pub(crate) fn archive_new() -> (r: Archive)
    ensures
        archived(r) == Seq::<(Seq<char>, Seq<u8>)>::empty(),
        intact(r),
{
    Archive { writer: zip::ZipWriter::new(std::io::Cursor::new(Vec::new())) }
}

/// Begins a file, by `zip::ZipWriter::start_file` with the default options and
/// without compression. A name that is taken is refused; the call panics on one
/// that does not fit a 16-bit length. What a refusal says is left open.
#[verifier::external_body]
pub(crate) fn archive_start(a: &mut Archive, name: &str) -> (r: Result<(), String>)
    requires
        encode_utf8(name@).len() <= MAX_NAME_BYTES,
    ensures
        intact(*old(a)) && has_file(archived(*old(a)), name@) ==> r is Err,
        intact(*old(a)) && !has_file(archived(*old(a)), name@) && file_bytes(archived(*old(a))) <= 0x7fff_ffff ==> r is Ok,
        intact(*old(a)) && r is Ok ==> intact(*final(a)) && archived(*final(a)) == archived(*old(a)).push((name@, Seq::empty())),
{
    let options = zip::write::SimpleFileOptions::default().compression_method(zip::CompressionMethod::Stored);
    a.writer.start_file(name, options).map_err(|e| e.to_string())
}

/// Appends to the file that was begun last, by `std::io::Write::write_all` on the
/// `zip::ZipWriter`. Only a file of 4 GiB or more is refused; what the refusal says
/// is left open.
#[verifier::external_body]
pub(crate) fn archive_write(a: &mut Archive, data: &Vec<u8>) -> (r: Result<(), String>)
    requires
        archived(*old(a)).len() > 0,
    ensures
        intact(*old(a)) && file_bytes(archived(*old(a))) + data@.len() <= 0x7fff_ffff ==> r is Ok,
        intact(*old(a)) && r is Ok ==> intact(*final(a)) && archived(*final(a)) == extended(archived(*old(a)), data@),
{
    std::io::Write::write_all(&mut a.writer, data).map_err(|e| e.to_string())
}

/// Finishes the archive, by `zip::ZipWriter::finish`. Its bytes depend on the files
/// alone: without its clock feature the crate writes a fixed date.
#[verifier::external_body]
pub(crate) fn archive_finish(a: Archive) -> (r: Result<Vec<u8>, String>)
    ensures
        intact(a) && file_bytes(archived(a)) <= 0x7fff_ffff ==> r is Ok,
        intact(a) ==> (r matches Ok(b) ==> b@ == archive_bytes(archived(a))),
{
    match a.writer.finish() {
        Ok(cursor) => Ok(cursor.into_inner()),
        Err(e) => Err(e.to_string()),
    }
}

} // verus!
