//! A pack as the entries of a container, and back.
//!
//! The manifest lies under a fixed name, with or without `./` before it.
//! What lies under `overrides/` is a literal file of the pack, what lies
//! under `client-overrides/` or `server-overrides/` one for that side alone;
//! directory entries carry nothing and are passed over, as is every entry
//! elsewhere.

use crate::container::{
    archive_image, entries_of, entries_view, is_level_supported, level_supported, read_archive,
    writable, write_archive,
};
use crate::error::Error;
use crate::json_text::rendered;
use crate::manifest::{FileView, Modpack, ModpackView};
use crate::manifest_json::{manifest_json, manifest_of_text};
use crate::overrides::{holds_path, with_file, Overrides};
use crate::path::{
    chars_are_directory_name, chars_have_prefix, contained, directory_name, file_path,
    has_pack_extension, has_prefix, is_contained, pack_extension,
};
use crate::text::{chars_of, copy_bytes, join_text, slice_text};
use vstd::prelude::*;

verus! {

/// The name under which the manifest lies.
pub open spec fn manifest_name() -> Seq<char> {
    "modrinth.index.json"@
}

/// Whom a literal file is for.
#[derive(Clone, Copy, Debug, PartialEq, Eq, Structural)]
pub enum Side {
    /// The client and the server.
    Both,
    Client,
    Server,
}

/// What stands before the path of a literal file for `side` in the name of
/// its entry.
pub open spec fn side_prefix(side: Side) -> Seq<char> {
    match side {
        Side::Both => "overrides/"@,
        Side::Client => "client-overrides/"@,
        Side::Server => "server-overrides/"@,
    }
}

/// The name of an entry without `./` before it.
pub open spec fn logical_name(name: Seq<char>) -> Seq<char> {
    if has_prefix(name, "./"@) {
        name.skip(2)
    } else {
        name
    }
}

/// Whether `name` is the name of the manifest.
pub open spec fn names_manifest(name: Seq<char>) -> bool {
    logical_name(name) == manifest_name()
}

/// Whether `name` is the name of a directory that stands where the
/// manifest should.
pub open spec fn names_manifest_directory(name: Seq<char>) -> bool {
    &&& directory_name(name)
    &&& logical_name(name).len() > 0
    &&& logical_name(name).drop_last() == manifest_name()
}

/// Whether the entry at `i` is the first that carries the manifest's name.
pub open spec fn manifest_at(entries: Seq<(Seq<char>, Seq<u8>)>, i: int) -> bool {
    &&& 0 <= i < entries.len()
    &&& names_manifest(entries[i].0)
    &&& forall|j: int| 0 <= j < i ==> !names_manifest(#[trigger] entries[j].0)
}

/// Whether one of `entries` carries the manifest's name.
pub open spec fn has_manifest(entries: Seq<(Seq<char>, Seq<u8>)>) -> bool {
    exists|i: int| 0 <= i < entries.len() && names_manifest(#[trigger] entries[i].0)
}

/// Whether one of `entries` is a directory where the manifest should be.
pub open spec fn has_manifest_directory(entries: Seq<(Seq<char>, Seq<u8>)>) -> bool {
    exists|i: int| 0 <= i < entries.len() && names_manifest_directory(#[trigger] entries[i].0)
}

/// The text of the manifest: the content of the first entry that carries
/// its name.
pub open spec fn manifest_text(entries: Seq<(Seq<char>, Seq<u8>)>) -> Seq<u8> {
    entries[choose|i: int| manifest_at(entries, i)].1
}

/// The path of the literal file for `side` that an entry under `name`
/// holds, if it holds one: what follows the prefix of `side`, where the
/// entry is no directory.
pub open spec fn override_path(name: Seq<char>, side: Side) -> Option<Seq<char>> {
    if has_prefix(logical_name(name), side_prefix(side)) && !directory_name(name) {
        Some(logical_name(name).skip(side_prefix(side).len() as int))
    } else {
        None
    }
}

/// The literal files `tree` and, where an entry holds one under `found`,
/// that one with them; or what is wrong: [`Error::PathEscape`] where the
/// path does not name a file below the install root, and
/// [`Error::DuplicateOverride`] where the tree holds the path already.
pub open spec fn with_entry(
    tree: Result<Seq<(Seq<char>, Seq<u8>)>, Error>,
    found: Option<Seq<char>>,
    content: Seq<u8>,
) -> Result<Seq<(Seq<char>, Seq<u8>)>, Error> {
    match tree {
        Err(e) => Err(e),
        Ok(tree) => match found {
            None => Ok(tree),
            Some(path) => if !file_path(path) {
                Err(Error::PathEscape)
            } else if holds_path(tree, path) {
                Err(Error::DuplicateOverride)
            } else {
                Ok(with_file(tree, path, content))
            },
        },
    }
}

/// The literal files for `side` among `entries`, or what is wrong with the
/// first entry that cannot be one.
pub open spec fn overrides_of(entries: Seq<(Seq<char>, Seq<u8>)>, side: Side) -> Result<
    Seq<(Seq<char>, Seq<u8>)>,
    Error,
>
    decreases entries.len(),
{
    if entries.len() == 0 {
        Ok(Seq::empty())
    } else {
        with_entry(
            overrides_of(entries.drop_last(), side),
            override_path(entries.last().0, side),
            entries.last().1,
        )
    }
}

/// Whether the path of every one of `files` stays below the install root.
pub open spec fn paths_contained(files: Seq<FileView>) -> bool {
    forall|i: int| 0 <= i < files.len() ==> contained((#[trigger] files[i]).path)
}

/// The pack that `entries` hold, or the first thing that is wrong with
/// them.
pub open spec fn pack_of(entries: Seq<(Seq<char>, Seq<u8>)>) -> Result<ModpackView, Error> {
    if entries.len() == 0 {
        Err(Error::EmptyArchive)
    } else if !has_manifest(entries) {
        if has_manifest_directory(entries) {
            Err(Error::ManifestIsDirectory)
        } else {
            Err(Error::ManifestNotFound)
        }
    } else {
        match manifest_of_text(manifest_text(entries)) {
            Err(e) => Err(Error::ManifestDecode(e)),
            Ok(pack) => if !paths_contained(pack.files) {
                Err(Error::PathEscape)
            } else {
                match overrides_of(entries, Side::Both) {
                    Err(e) => Err(e),
                    Ok(both) => match overrides_of(entries, Side::Client) {
                        Err(e) => Err(e),
                        Ok(client) => match overrides_of(entries, Side::Server) {
                            Err(e) => Err(e),
                            Ok(server) => Ok(
                                ModpackView {
                                    filesystem: both,
                                    client_filesystem: client,
                                    server_filesystem: server,
                                    ..pack
                                },
                            ),
                        },
                    },
                }
            },
        }
    }
}

/// The pack that the bytes of a container hold.
pub open spec fn archive_pack(bytes: Seq<u8>) -> Result<ModpackView, Error> {
    match entries_of(bytes) {
        Err(e) => Err(e),
        Ok(entries) => pack_of(entries),
    }
}

/// The entries that stand for the literal files `tree` for `side`.
pub open spec fn override_entries(tree: Seq<(Seq<char>, Seq<u8>)>, side: Side) -> Seq<
    (Seq<char>, Seq<u8>),
> {
    Seq::new(tree.len(), |i: int| (side_prefix(side) + tree[i].0, tree[i].1))
}

/// The entries of a container that holds `pack`: the manifest, whose text
/// is `text`, then the literal files for both sides, for the client and
/// for the server.
pub open spec fn pack_entries(pack: ModpackView, text: Seq<u8>) -> Seq<(Seq<char>, Seq<u8>)> {
    seq![(manifest_name(), text)] + override_entries(pack.filesystem, Side::Both)
        + override_entries(pack.client_filesystem, Side::Client) + override_entries(
        pack.server_filesystem,
        Side::Server,
    )
}

/// What stands before the path of a literal file for `side` in the name of
/// its entry.
pub fn prefix_of(side: Side) -> (r: &'static str)
    ensures
        r@ == side_prefix(side),
{
    match side {
        Side::Both => "overrides/",
        Side::Client => "client-overrides/",
        Side::Server => "server-overrides/",
    }
}

/// The name of an entry, read.
struct Reading {
    manifest: bool,
    manifest_directory: bool,
    both: Option<String>,
    client: Option<String>,
    server: Option<String>,
}

/// What contracts say of a path that may be missing.
spec fn path_view(path: Option<String>) -> Option<Seq<char>> {
    match path {
        Some(p) => Some(p@),
        None => None,
    }
}

/// The path of the literal file for `side` in the name `name` of `n`
/// characters, of which those behind the place `start` are `logical`.
fn read_path(
    name: &str,
    n: usize,
    start: usize,
    logical: &Vec<char>,
    directory: bool,
    side: Side,
) -> (r: Option<String>)
    requires
        n == name@.len(),
        start <= n,
        logical@ == name@.skip(start as int),
        logical@ == logical_name(name@),
        directory == directory_name(name@),
    ensures
        path_view(r) == override_path(name@, side),
{
    let prefix = chars_of(prefix_of(side));
    if chars_have_prefix(logical, &prefix) && !directory {
        let path = slice_text(name, start + prefix.len(), n);
        assert(path@ =~= logical_name(name@).skip(side_prefix(side).len() as int));
        Some(path)
    } else {
        None
    }
}

/// Reads the name of an entry: whether it is the manifest's, or that of a
/// directory in its place, and the path of the literal file under it.
fn read_name(name: &str) -> (r: Reading)
    ensures
        r.manifest == names_manifest(name@),
        r.manifest_directory == names_manifest_directory(name@),
        path_view(r.both) == override_path(name@, Side::Both),
        path_view(r.client) == override_path(name@, Side::Client),
        path_view(r.server) == override_path(name@, Side::Server),
{
    let chars = chars_of(name);
    let n: usize = chars.len();
    let dot_slash = chars_of("./");
    let wanted = chars_of("modrinth.index.json");
    proof {
        reveal_strlit("./");
    }
    let start: usize = if chars_have_prefix(&chars, &dot_slash) {
        2
    } else {
        0
    };
    let mut logical: Vec<char> = Vec::new();
    let mut i: usize = start;
    while i < n
        invariant
            start <= i <= n,
            n == chars.len(),
            logical@ == chars@.subrange(start as int, i as int),
        decreases n - i,
    {
        logical.push(chars[i]);
        i += 1;
    }
    assert(logical@ =~= logical_name(name@));
    assert(logical@ =~= name@.skip(start as int));
    let directory = chars_are_directory_name(&chars);
    let manifest = same_chars(&logical, &wanted);
    assert(logical@.len() > 0 ==> logical@.take(logical@.len() - 1) =~= logical@.drop_last());
    let manifest_directory = directory && logical.len() > 0 && same_prefix(
        &logical,
        logical.len() - 1,
        &wanted,
    );
    Reading {
        manifest,
        manifest_directory,
        both: read_path(name, n, start, &logical, directory, Side::Both),
        client: read_path(name, n, start, &logical, directory, Side::Client),
        server: read_path(name, n, start, &logical, directory, Side::Server),
    }
}

/// Whether `a` and `b` hold the same characters.
fn same_chars(a: &Vec<char>, b: &Vec<char>) -> (r: bool)
    ensures
        r == (a@ == b@),
{
    assert(a@.take(a.len() as int) =~= a@);
    a.len() == b.len() && same_prefix(a, a.len(), b)
}

/// Whether the first `n` characters of `a` are exactly `b`.
fn same_prefix(a: &Vec<char>, n: usize, b: &Vec<char>) -> (r: bool)
    requires
        n <= a.len(),
    ensures
        r == (a@.take(n as int) == b@),
{
    if n != b.len() {
        return false;
    }
    let mut i: usize = 0;
    while i < n
        invariant
            i <= n,
            n == b.len(),
            n <= a.len(),
            forall|j: int| 0 <= j < i ==> a@[j] == b@[j],
        decreases n - i,
    {
        if a[i] != b[i] {
            assert(a@.take(n as int)[i as int] != b@[i as int]);
            return false;
        }
        i += 1;
    }
    assert(a@.take(n as int) =~= b@);
    true
}

/// Whether a file under `path` may hold a pack: `Ok` where the name ends in
/// `.mrpack`, and [`Error::InvalidExtension`] where it does not.
///
/// The path is judged as it is written: `foo.mrpack/`, which ends in a
/// separator, is refused, though `std::path::Path::extension` finds the
/// extension in it.
pub fn check_extension(path: &str) -> (r: Result<(), Error>)
    ensures
        r == if pack_extension(path@) {
            Ok::<(), Error>(())
        } else {
            Err::<(), Error>(Error::InvalidExtension)
        },
{
    if has_pack_extension(path) {
        Ok(())
    } else {
        Err(Error::InvalidExtension)
    }
}

/// What contracts say of the literal files gathered so far.
spec fn gathered(tree: Result<Overrides, Error>) -> Result<Seq<(Seq<char>, Seq<u8>)>, Error> {
    match tree {
        Ok(tree) => Ok(tree@),
        Err(e) => Err(e),
    }
}

/// The literal files `tree` and, where an entry holds one under `found`,
/// that one with them.
fn gather(tree: Result<Overrides, Error>, found: Option<String>, content: &Vec<u8>) -> (r: Result<
    Overrides,
    Error,
>)
    ensures
        gathered(r) == with_entry(gathered(tree), path_view(found), content@),
{
    match (tree, found) {
        (Ok(mut files), Some(path)) => match files.insert(path, copy_bytes(content)) {
            Ok(()) => Ok(files),
            Err(e) => Err(e),
        },
        (tree, _) => tree,
    }
}

/// Puts the entries that stand for the literal files `tree` for `side`
/// behind `entries`.
fn push_overrides(entries: &mut Vec<(String, Vec<u8>)>, tree: &Overrides, side: Side)
    ensures
        entries_view(final(entries)@) == entries_view(old(entries)@) + override_entries(
            tree@,
            side,
        ),
{
    let ghost before = entries_view(entries@);
    let ghost more = override_entries(tree@, side);
    let n: usize = tree.len();
    let mut i: usize = 0;
    assert(entries_view(entries@) =~= before + more.take(0));
    while i < n
        invariant
            i <= n,
            n == tree@.len(),
            more == override_entries(tree@, side),
            entries_view(entries@) == before + more.take(i as int),
        decreases n - i,
    {
        let ghost held = entries_view(entries@);
        let name = join_text(prefix_of(side), tree.path(i).as_str());
        entries.push((name, copy_bytes(tree.content(i))));
        assert(entries_view(entries@) =~= held.push(more[i as int]));
        assert(before + more.take(i + 1) =~= (before + more.take(i as int)).push(more[i as int]));
        i += 1;
    }
    assert(more.take(n as int) =~= more);
}

impl Modpack {
    /// Whether the path of every file of the manifest stays below the
    /// install root.
    pub fn files_contained(&self) -> (r: bool)
        ensures
            r == paths_contained(self@.files),
    {
        let mut i: usize = 0;
        while i < self.files.len()
            invariant
                i <= self.files.len(),
                forall|j: int| 0 <= j < i ==> contained((#[trigger] self@.files[j]).path),
            decreases self.files.len() - i,
        {
            assert(self@.files[i as int] == self.files[i as int]@);
            if !is_contained(self.files[i].path.as_str()) {
                return false;
            }
            i += 1;
        }
        true
    }

    /// Reads a pack from the entries of a container.
    ///
    /// The result is the pack that the entries hold, or the first thing
    /// that is wrong with them: that there is none, that none is the
    /// manifest, that the manifest cannot be decoded, that a path leaves
    /// the install root, or that two entries hold the same literal file.
    pub fn from_entries(entries: &Vec<(String, Vec<u8>)>) -> (r: Result<Modpack, Error>)
        ensures
            match pack_of(entries_view(entries@)) {
                Ok(pack) => r matches Ok(read) && read@ == pack,
                Err(e) => r == Err::<Modpack, Error>(e),
            },
    {
        let ghost all = entries_view(entries@);
        if entries.len() == 0 {
            return Err(Error::EmptyArchive);
        }
        let mut manifest: Option<usize> = None;
        let mut directory: bool = false;
        let mut both: Result<Overrides, Error> = Ok(Overrides::new());
        let mut client: Result<Overrides, Error> = Ok(Overrides::new());
        let mut server: Result<Overrides, Error> = Ok(Overrides::new());
        let mut i: usize = 0;
        assert(all.take(0) =~= Seq::empty());
        while i < entries.len()
            invariant
                i <= entries.len(),
                all == entries_view(entries@),
                match manifest {
                    Some(m) => m < i && manifest_at(all, m as int),
                    None => forall|j: int| 0 <= j < i ==> !names_manifest(#[trigger] all[j].0),
                },
                directory <==> exists|j: int|
                    0 <= j < i && names_manifest_directory(#[trigger] all[j].0),
                gathered(both) == overrides_of(all.take(i as int), Side::Both),
                gathered(client) == overrides_of(all.take(i as int), Side::Client),
                gathered(server) == overrides_of(all.take(i as int), Side::Server),
            decreases entries.len() - i,
        {
            let ghost head = all.take(i + 1);
            assert(head.drop_last() =~= all.take(i as int));
            assert(head.last() == all[i as int]);
            assert(all[i as int] == (entries[i as int].0@, entries[i as int].1@));
            let reading = read_name(entries[i].0.as_str());
            if reading.manifest && manifest.is_none() {
                manifest = Some(i);
            }
            if reading.manifest_directory {
                directory = true;
            }
            both = gather(both, reading.both, &entries[i].1);
            client = gather(client, reading.client, &entries[i].1);
            server = gather(server, reading.server, &entries[i].1);
            i += 1;
        }
        assert(all.take(i as int) =~= all);
        let at = match manifest {
            Some(at) => at,
            None => {
                if directory {
                    return Err(Error::ManifestIsDirectory);
                }
                return Err(Error::ManifestNotFound);
            },
        };
        proof {
            let chosen = choose|j: int| manifest_at(all, j);
            assert(chosen == at);
        }
        let mut pack = match Modpack::from_json_text(entries[at].1.as_slice()) {
            Ok(pack) => pack,
            Err(e) => {
                return Err(Error::ManifestDecode(e));
            },
        };
        if !pack.files_contained() {
            return Err(Error::PathEscape);
        }
        pack.filesystem = match both {
            Ok(files) => files,
            Err(e) => {
                return Err(e);
            },
        };
        pack.client_filesystem = match client {
            Ok(files) => files,
            Err(e) => {
                return Err(e);
            },
        };
        pack.server_filesystem = match server {
            Ok(files) => files,
            Err(e) => {
                return Err(e);
            },
        };
        Ok(pack)
    }

    /// Reads a pack from the bytes of a container.
    ///
    /// Bytes that are no container give [`Error::ArchiveOpen`]. So does a
    /// container with an entry that cannot be read, whichever entry it is:
    /// every entry is read before any is judged, also one that holds no
    /// part of the pack. What else can be wrong is said of
    /// [`Modpack::from_entries`].
    pub fn from_reader(source: Vec<u8>) -> (r: Result<Modpack, Error>)
        ensures
            match archive_pack(source@) {
                Ok(pack) => r matches Ok(read) && read@ == pack,
                Err(e) => r == Err::<Modpack, Error>(e),
            },
    {
        match read_archive(source) {
            Ok(entries) => Modpack::from_entries(&entries),
            Err(e) => Err(e),
        }
    }

    /// The entries of a container that holds this pack: the manifest, then
    /// the literal files, each under the prefix of its side and its path.
    ///
    /// A file of the manifest whose path leaves the install root gives
    /// [`Error::PathEscape`]. Whether the manifest can be written is for
    /// the encoder to say: where it fails, the result is
    /// [`Error::ArchiveWrite`].
    pub fn to_entries(&self, pretty: bool) -> (r: Result<Vec<(String, Vec<u8>)>, Error>)
        ensures
            !paths_contained(self@.files) ==> r == Err::<Vec<(String, Vec<u8>)>, Error>(
                Error::PathEscape,
            ),
            paths_contained(self@.files) ==> match rendered(manifest_json(self@), pretty) {
                Some(text) => r matches Ok(entries) && entries_view(entries@) == pack_entries(
                    self@,
                    text,
                ),
                None => r == Err::<Vec<(String, Vec<u8>)>, Error>(Error::ArchiveWrite),
            },
    {
        if !self.files_contained() {
            return Err(Error::PathEscape);
        }
        let text = match self.to_json_text(pretty) {
            Ok(text) => text,
            Err(e) => {
                return Err(e);
            },
        };
        let ghost written = text@;
        let mut entries: Vec<(String, Vec<u8>)> = Vec::new();
        entries.push(("modrinth.index.json".to_owned(), text));
        assert(entries_view(entries@) =~= seq![(manifest_name(), written)]);
        push_overrides(&mut entries, &self.filesystem, Side::Both);
        push_overrides(&mut entries, &self.client_filesystem, Side::Client);
        push_overrides(&mut entries, &self.server_filesystem, Side::Server);
        Ok(entries)
    }

    /// Writes this pack as the bytes of a container, with its entries
    /// deflated at `compression_level`, or at the default level where that
    /// is `None`.
    ///
    /// A file of the manifest whose path leaves the install root gives
    /// [`Error::PathEscape`], and a level outside the supported range
    /// [`Error::CompressionLevel`]. The container is then written exactly
    /// where the encoder writes the text of the manifest and the `zip`
    /// crate takes the entries of the pack; where one of them refuses, the
    /// result is [`Error::ArchiveWrite`].
    pub fn to_bytes(&self, pretty: bool, compression_level: Option<i64>) -> (r: Result<
        Vec<u8>,
        Error,
    >)
        ensures
            !paths_contained(self@.files) ==> r == Err::<Vec<u8>, Error>(Error::PathEscape),
            paths_contained(self@.files) && !level_supported(compression_level) ==> r == Err::<
                Vec<u8>,
                Error,
            >(Error::CompressionLevel),
            paths_contained(self@.files) && level_supported(compression_level) ==> match rendered(
                manifest_json(self@),
                pretty,
            ) {
                Some(text) => if writable(pack_entries(self@, text), compression_level) {
                    r matches Ok(bytes) && bytes@ == archive_image(
                        pack_entries(self@, text),
                        compression_level,
                    )
                } else {
                    r == Err::<Vec<u8>, Error>(Error::ArchiveWrite)
                },
                None => r == Err::<Vec<u8>, Error>(Error::ArchiveWrite),
            },
    {
        if !self.files_contained() {
            return Err(Error::PathEscape);
        }
        if !is_level_supported(compression_level) {
            return Err(Error::CompressionLevel);
        }
        match self.to_entries(pretty) {
            Ok(entries) => write_archive(&entries, compression_level),
            Err(e) => Err(e),
        }
    }
}

} // verus!
