//! The zip container, read and written by the `zip` crate.
//!
//! To this library a container is a list of entries, each a name and the
//! bytes that stand under it. How those lie in a zip file is the business
//! of the `zip` crate, whose work is named here, not proved: see the items
//! marked `external_body`. What is proved is the walk over the entries.

use crate::error::Error;
use std::io::Read;
use std::io::Write;
use vstd::prelude::*;

verus! {

/// `std::io::Cursor`: a buffer with a place in it, which the `zip` crate
/// reads from and writes to.
#[verifier::external_type_specification]
#[verifier::external_body]
#[verifier::reject_recursive_types(T)]
pub struct ExCursor<T>(std::io::Cursor<T>);

/// `zip::ZipArchive`: an open container. Nothing is known of one but
/// through the items below.
#[verifier::external_type_specification]
#[verifier::external_body]
#[verifier::reject_recursive_types(R)]
pub struct ExZipArchive<R>(zip::ZipArchive<R>);

/// A container that is being written, a `zip::ZipWriter` over a buffer,
/// and the compression level that its entries are written with.
#[verifier::external_body]
pub struct ArchiveWriter {
    inner: zip::ZipWriter<std::io::Cursor<Vec<u8>>>,
    level: Option<i64>,
}

/// The entries of an open container, in the order of their index: of each
/// its name, and its content where that can be read.
pub uninterp spec fn archive_entries(archive: zip::ZipArchive<std::io::Cursor<Vec<u8>>>) -> Seq<
    (Seq<char>, Option<Seq<u8>>),
>;

/// The entries that `zip::ZipArchive::new` finds in `bytes`, or `None`
/// where it refuses them.
pub uninterp spec fn opened(bytes: Seq<u8>) -> Option<Seq<(Seq<char>, Option<Seq<u8>>)>>;

/// The entries written to a container so far: of each its name and its
/// content.
pub uninterp spec fn written(writer: ArchiveWriter) -> Seq<(Seq<char>, Seq<u8>)>;

/// The compression level that a container is written with.
pub uninterp spec fn writer_level(writer: ArchiveWriter) -> Option<i64>;

/// Whether `ZipWriter::start_file` takes one more entry under `name`, to
/// be deflated at `level`, into a container that holds `before`.
pub uninterp spec fn entry_started(
    before: Seq<(Seq<char>, Seq<u8>)>,
    name: Seq<char>,
    level: Option<i64>,
) -> bool;

/// Whether `Write::write_all` takes `content` for the last entry of a
/// container that holds `before`, whose last entry is still empty and is
/// deflated at `level`.
pub uninterp spec fn content_taken(
    before: Seq<(Seq<char>, Seq<u8>)>,
    content: Seq<u8>,
    level: Option<i64>,
) -> bool;

/// Whether `ZipWriter::finish` finishes a container into which `entries`
/// were written, each in one piece and deflated at `level`.
pub uninterp spec fn archive_finished(entries: Seq<(Seq<char>, Seq<u8>)>, level: Option<i64>) -> bool;

/// The bytes of a finished container into which `entries` were written, in
/// this order, each in one piece and deflated at `level`.
pub uninterp spec fn archive_image(entries: Seq<(Seq<char>, Seq<u8>)>, level: Option<i64>) -> Seq<
    u8,
>;

/// Whether the `zip` crate takes `entries` one after the other, each
/// started and then written in one piece, deflated at `level`.
pub open spec fn entries_taken(entries: Seq<(Seq<char>, Seq<u8>)>, level: Option<i64>) -> bool
    decreases entries.len(),
{
    entries.len() > 0 ==> {
        let before = entries.drop_last();
        &&& entries_taken(before, level)
        &&& entry_started(before, entries.last().0, level)
        &&& content_taken(before.push((entries.last().0, Seq::empty())), entries.last().1, level)
    }
}

/// Whether the `zip` crate writes a container that holds `entries`,
/// deflated at `level`: it takes every entry, and finishes the container.
pub open spec fn writable(entries: Seq<(Seq<char>, Seq<u8>)>, level: Option<i64>) -> bool {
    entries_taken(entries, level) && archive_finished(entries, level)
}

/// Entries of which the first `n` are not taken are not taken.
pub proof fn lemma_entries_not_taken(
    entries: Seq<(Seq<char>, Seq<u8>)>,
    level: Option<i64>,
    n: int,
)
    requires
        0 <= n <= entries.len(),
        !entries_taken(entries.take(n), level),
    ensures
        !entries_taken(entries, level),
    decreases entries.len() - n,
{
    if n == entries.len() {
        assert(entries.take(n) =~= entries);
    } else {
        assert(entries.take(n + 1).drop_last() =~= entries.take(n));
        lemma_entries_not_taken(entries, level, n + 1);
    }
}

/// The lowest compression level that deflate takes: the fastest.
pub const MIN_LEVEL: i64 = 1;

/// The highest compression level that deflate takes. The usual encoder
/// ends at 9; each level above that has Zopfli go over the data once more.
pub const MAX_LEVEL: i64 = 264;

/// Whether entries can be deflated at `level`: at the default level, or at
/// one from [`MIN_LEVEL`] to [`MAX_LEVEL`].
pub open spec fn level_supported(level: Option<i64>) -> bool {
    match level {
        None => true,
        Some(l) => MIN_LEVEL <= l <= MAX_LEVEL,
    }
}

/// Whether entries can be deflated at `level`.
pub fn is_level_supported(level: Option<i64>) -> (r: bool)
    ensures
        r == level_supported(level),
{
    match level {
        Some(l) => MIN_LEVEL <= l && l <= MAX_LEVEL,
        None => true,
    }
}

/// `zip::ZipArchive::new` on a cursor over `bytes`: it opens the container
/// exactly where `opened(bytes)` is not `None`, and the container then
/// holds those entries.
#[verifier::external_body]
fn open_archive(bytes: Vec<u8>) -> (r: Option<zip::ZipArchive<std::io::Cursor<Vec<u8>>>>)
    ensures
        match r {
            Some(archive) => opened(bytes@) == Some(archive_entries(archive)),
            None => opened(bytes@) is None,
        },
{
    zip::ZipArchive::new(std::io::Cursor::new(bytes)).ok()
}

/// `ZipArchive::len`: the number of entries.
#[verifier::external_body]
fn entry_count(archive: &zip::ZipArchive<std::io::Cursor<Vec<u8>>>) -> (n: usize)
    ensures
        n == archive_entries(*archive).len(),
{
    archive.len()
}

/// `ZipArchive::name_for_index`: the name of the entry at index `i`.
#[verifier::external_body]
fn entry_name(archive: &zip::ZipArchive<std::io::Cursor<Vec<u8>>>, i: usize) -> (r: String)
    requires
        i < archive_entries(*archive).len(),
    ensures
        r@ == archive_entries(*archive)[i as int].0,
{
    archive.name_for_index(i).unwrap_or_default().to_string()
}

/// `ZipArchive::by_index`, and the entry read to its end: the content of
/// the entry at index `i`, or `None` where the entry cannot be read. The
/// container holds afterwards what it held before.
#[verifier::external_body]
fn entry_content(archive: &mut zip::ZipArchive<std::io::Cursor<Vec<u8>>>, i: usize) -> (r: Option<
    Vec<u8>,
>)
    requires
        i < archive_entries(*old(archive)).len(),
    ensures
        archive_entries(*final(archive)) == archive_entries(*old(archive)),
        match r {
            Some(content) => archive_entries(*old(archive))[i as int].1 == Some(content@),
            None => archive_entries(*old(archive))[i as int].1 is None,
        },
{
    let mut content = Vec::new();
    match archive.by_index(i) {
        Ok(mut file) => match file.read_to_end(&mut content) {
            Ok(_) => Some(content),
            Err(_) => None,
        },
        Err(_) => None,
    }
}

/// `zip::ZipWriter::new` on a cursor over an empty buffer: a container
/// without an entry.
#[verifier::external_body]
fn new_writer(level: Option<i64>) -> (writer: ArchiveWriter)
    ensures
        written(writer) == Seq::<(Seq<char>, Seq<u8>)>::empty(),
        writer_level(writer) == level,
{
    ArchiveWriter { inner: zip::ZipWriter::new(std::io::Cursor::new(Vec::new())), level }
}

/// `ZipWriter::start_file` with the default options, the method deflate
/// and the writer's level: it succeeds exactly where `entry_started` says
/// so of what the container holds, and the container then has one more
/// entry, under `name` and still empty.
#[verifier::external_body]
fn start_entry(writer: &mut ArchiveWriter, name: &str) -> (done: bool)
    ensures
        writer_level(*final(writer)) == writer_level(*old(writer)),
        done == entry_started(written(*old(writer)), name@, writer_level(*old(writer))),
        done ==> written(*final(writer)) == written(*old(writer)).push((name@, Seq::empty())),
{
    let options = zip::write::SimpleFileOptions::default().compression_method(
        zip::CompressionMethod::Deflated,
    ).compression_level(writer.level);
    writer.inner.start_file(name, options).is_ok()
}

/// `Write::write_all` on a `ZipWriter` into which an entry was started
/// and nothing written yet: it succeeds exactly where `content_taken` says
/// so of what the container holds, and the last entry then holds
/// `content`. An entry is written in one piece: how the bytes of the
/// container come out may depend on the pieces.
#[verifier::external_body]
fn write_content(writer: &mut ArchiveWriter, content: &[u8]) -> (done: bool)
    requires
        written(*old(writer)).len() > 0,
        written(*old(writer)).last().1.len() == 0,
    ensures
        writer_level(*final(writer)) == writer_level(*old(writer)),
        done == content_taken(written(*old(writer)), content@, writer_level(*old(writer))),
        done ==> written(*final(writer)) == written(*old(writer)).drop_last().push(
            (written(*old(writer)).last().0, content@),
        ),
{
    writer.inner.write_all(content).is_ok()
}

/// `ZipWriter::finish`: it succeeds exactly where `archive_finished` says
/// so of what was written and of the level, and the bytes of the container
/// are then those named `archive_image` of the same.
#[verifier::external_body]
fn finish_archive(writer: ArchiveWriter) -> (r: Option<Vec<u8>>)
    ensures
        r is Some == archive_finished(written(writer), writer_level(writer)),
        r matches Some(bytes) ==> bytes@ == archive_image(written(writer), writer_level(writer)),
{
    match writer.inner.finish() {
        Ok(cursor) => Some(cursor.into_inner()),
        Err(_) => None,
    }
}

/// What contracts say of a list of entries: each with its name and content.
pub open spec fn entries_view(entries: Seq<(String, Vec<u8>)>) -> Seq<(Seq<char>, Seq<u8>)> {
    Seq::new(entries.len(), |i: int| (entries[i].0@, entries[i].1@))
}

/// Whether every one of `found` can be read.
pub open spec fn all_readable(found: Seq<(Seq<char>, Option<Seq<u8>>)>) -> bool {
    forall|i: int| 0 <= i < found.len() ==> (#[trigger] found[i]).1 is Some
}

/// The entries `found`, each with its content.
pub open spec fn contents(found: Seq<(Seq<char>, Option<Seq<u8>>)>) -> Seq<(Seq<char>, Seq<u8>)> {
    Seq::new(found.len(), |i: int| (found[i].0, found[i].1->0))
}

/// The entries of the container that `bytes` are: all of them, or
/// [`Error::ArchiveOpen`] where the bytes are no container or one of its
/// entries cannot be read.
pub open spec fn entries_of(bytes: Seq<u8>) -> Result<Seq<(Seq<char>, Seq<u8>)>, Error> {
    match opened(bytes) {
        Some(found) => if all_readable(found) {
            Ok(contents(found))
        } else {
            Err(Error::ArchiveOpen)
        },
        None => Err(Error::ArchiveOpen),
    }
}

/// Reads the entries of a container, in the order of their index.
pub fn read_archive(bytes: Vec<u8>) -> (r: Result<Vec<(String, Vec<u8>)>, Error>)
    ensures
        match entries_of(bytes@) {
            Ok(entries) => r matches Ok(read) && entries_view(read@) == entries,
            Err(e) => r == Err::<Vec<(String, Vec<u8>)>, Error>(e),
        },
{
    let mut archive = match open_archive(bytes) {
        Some(archive) => archive,
        None => {
            return Err(Error::ArchiveOpen);
        },
    };
    let ghost found = archive_entries(archive);
    let n: usize = entry_count(&archive);
    let mut out: Vec<(String, Vec<u8>)> = Vec::new();
    let mut i: usize = 0;
    while i < n
        invariant
            i <= n,
            n == found.len(),
            archive_entries(archive) == found,
            opened(bytes@) == Some(found),
            out.len() == i,
            forall|j: int| 0 <= j < i ==> (#[trigger] found[j]).1 == Some(out[j].1@),
            forall|j: int| 0 <= j < i ==> (#[trigger] out[j]).0@ == found[j].0,
        decreases n - i,
    {
        let name = entry_name(&archive, i);
        match entry_content(&mut archive, i) {
            Some(content) => {
                out.push((name, content));
            },
            None => {
                assert(!all_readable(found));
                return Err(Error::ArchiveOpen);
            },
        }
        i += 1;
    }
    assert(entries_view(out@) =~= contents(found));
    Ok(out)
}

/// Writes a container that holds `entries`, in this order, deflated at
/// `level`.
///
/// A level outside the supported range gives [`Error::CompressionLevel`].
/// At a supported level the container is written exactly where the `zip`
/// crate takes every entry and finishes the container; where it refuses,
/// the result is [`Error::ArchiveWrite`].
pub fn write_archive(entries: &Vec<(String, Vec<u8>)>, level: Option<i64>) -> (r: Result<
    Vec<u8>,
    Error,
>)
    ensures
        !level_supported(level) ==> r == Err::<Vec<u8>, Error>(Error::CompressionLevel),
        level_supported(level) ==> if writable(entries_view(entries@), level) {
            r matches Ok(bytes) && bytes@ == archive_image(entries_view(entries@), level)
        } else {
            r == Err::<Vec<u8>, Error>(Error::ArchiveWrite)
        },
{
    if !is_level_supported(level) {
        return Err(Error::CompressionLevel);
    }
    let ghost all = entries_view(entries@);
    let mut writer = new_writer(level);
    let mut i: usize = 0;
    assert(all.take(0) =~= Seq::empty());
    while i < entries.len()
        invariant
            i <= entries.len(),
            level_supported(level),
            all == entries_view(entries@),
            writer_level(writer) == level,
            written(writer) == all.take(i as int),
            entries_taken(all.take(i as int), level),
        decreases entries.len() - i,
    {
        let ghost before = written(writer);
        let ghost next = all.take(i + 1);
        assert(next.drop_last() =~= before);
        assert(next.last() == (entries[i as int].0@, entries[i as int].1@));
        if !start_entry(&mut writer, entries[i].0.as_str()) {
            proof {
                lemma_entries_not_taken(all, level, i + 1);
            }
            return Err(Error::ArchiveWrite);
        }
        if !write_content(&mut writer, entries[i].1.as_slice()) {
            proof {
                lemma_entries_not_taken(all, level, i + 1);
            }
            return Err(Error::ArchiveWrite);
        }
        assert(written(writer) =~= next);
        i += 1;
    }
    assert(all.take(i as int) =~= all);
    match finish_archive(writer) {
        Some(bytes) => Ok(bytes),
        None => Err(Error::ArchiveWrite),
    }
}

} // verus!
