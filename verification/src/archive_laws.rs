//! What holds of a pack and the entries of its container.

use crate::archive::{
    archive_pack, has_manifest, logical_name, manifest_at, manifest_name, manifest_text,
    names_manifest, override_entries, override_path, overrides_of, pack_entries, pack_of,
    paths_contained, side_prefix, Side,
};
use crate::container::{archive_image, entries_of};
use crate::error::Error;
use crate::json_text::{parsed, rendered};
use crate::manifest::ModpackView;
use crate::manifest_json::manifest_json;
use crate::manifest_laws::{hashes_well_formed, law_manifest_round_trip};
use crate::overrides::{holds_path, lemma_paths_differ, path_at, tree_well_formed, with_file};
use crate::text::{keeps_order, keys_in_order, lemma_one_place, lemma_place_exists, precedes};
use crate::path::{contained, file_path, has_parent_segment, has_prefix};
use vstd::prelude::*;

verus! {

/// The length and the first character of the names that a container
/// holds.
proof fn lemma_names()
    ensures
        manifest_name().len() == 19,
        manifest_name()[0] == 'm',
        side_prefix(Side::Both).len() == 10,
        side_prefix(Side::Both)[0] == 'o',
        side_prefix(Side::Client).len() == 17,
        side_prefix(Side::Client)[0] == 'c',
        side_prefix(Side::Server).len() == 17,
        side_prefix(Side::Server)[0] == 's',
        "./"@.len() == 2,
        "./"@[0] == '.',
{
    reveal_strlit("modrinth.index.json");
    reveal_strlit("overrides/");
    reveal_strlit("client-overrides/");
    reveal_strlit("server-overrides/");
    reveal_strlit("./");
}

/// A name that begins with another character than a prefix does not begin
/// with the prefix.
proof fn lemma_other_start(name: Seq<char>, prefix: Seq<char>)
    requires
        name.len() > 0,
        prefix.len() > 0,
        name[0] != prefix[0],
    ensures
        !has_prefix(name, prefix),
{
    if has_prefix(name, prefix) {
        assert(name.subrange(0, prefix.len() as int)[0] == prefix[0]);
    }
}

/// A path with a part `..` in it neither stays below the install root nor
/// names a file below it.
pub proof fn law_parent_segment_escapes(path: Seq<char>)
    requires
        has_parent_segment(path),
    ensures
        !contained(path),
        !file_path(path),
{
}

/// The entry of a literal file holds that file, for its side and for no
/// other: the name that is written for a path below the install root is
/// read as that path.
pub proof fn law_override_name_round_trip(path: Seq<char>, side: Side, other: Side)
    requires
        file_path(path),
    ensures
        override_path(side_prefix(side) + path, side) == Some(path),
        other != side ==> override_path(side_prefix(side) + path, other) is None,
        !names_manifest(side_prefix(side) + path),
{
    lemma_names();
    let prefix = side_prefix(side);
    let name = prefix + path;
    assert(name[0] == prefix[0]);
    lemma_other_start(name, "./"@);
    assert(logical_name(name) == name);
    assert(name.subrange(0, prefix.len() as int) =~= prefix);
    assert(name.last() == path.last());
    assert(name.skip(prefix.len() as int) =~= path);
    assert(name != manifest_name()) by {
        if name == manifest_name() {
            assert(name[0] == manifest_name()[0]);
        }
    }
    if other != side {
        lemma_other_start(name, side_prefix(other));
    }
}

/// The entry of the manifest holds no literal file.
pub proof fn law_manifest_is_no_override(side: Side)
    ensures
        names_manifest(manifest_name()),
        override_path(manifest_name(), side) is None,
{
    lemma_names();
    lemma_other_start(manifest_name(), "./"@);
    lemma_other_start(manifest_name(), side_prefix(side));
}

/// Entries none of which holds a literal file for `side` hold none.
proof fn lemma_no_overrides(entries: Seq<(Seq<char>, Seq<u8>)>, side: Side)
    requires
        forall|i: int|
            0 <= i < entries.len() ==> override_path((#[trigger] entries[i]).0, side) is None,
    ensures
        overrides_of(entries, side) == Ok::<Seq<(Seq<char>, Seq<u8>)>, Error>(Seq::empty()),
    decreases entries.len(),
{
    if entries.len() > 0 {
        assert forall|i: int| 0 <= i < entries.len() - 1 implies override_path(
            (#[trigger] entries.drop_last()[i]).0,
            side,
        ) is None by {
            assert(entries.drop_last()[i] == entries[i]);
        }
        lemma_no_overrides(entries.drop_last(), side);
        assert(entries.last() == entries[entries.len() - 1]);
    }
}

/// Entries behind others that hold no literal file for `side` add nothing
/// to those.
proof fn lemma_overrides_before(
    entries: Seq<(Seq<char>, Seq<u8>)>,
    more: Seq<(Seq<char>, Seq<u8>)>,
    side: Side,
)
    requires
        forall|i: int| 0 <= i < more.len() ==> override_path((#[trigger] more[i]).0, side) is None,
    ensures
        overrides_of(entries + more, side) == overrides_of(entries, side),
    decreases more.len(),
{
    if more.len() == 0 {
        assert(entries + more =~= entries);
    } else {
        let whole = entries + more;
        assert(whole.drop_last() =~= entries + more.drop_last());
        assert(whole.last() == more[more.len() - 1]);
        assert forall|i: int| 0 <= i < more.len() - 1 implies override_path(
            (#[trigger] more.drop_last()[i]).0,
            side,
        ) is None by {
            assert(more.drop_last()[i] == more[i]);
        }
        lemma_overrides_before(entries, more.drop_last(), side);
    }
}

/// Literal files that are written as entries, behind entries that hold
/// none for their side, are read again as they were.
proof fn lemma_overrides_written(
    before: Seq<(Seq<char>, Seq<u8>)>,
    tree: Seq<(Seq<char>, Seq<u8>)>,
    side: Side,
)
    requires
        tree_well_formed(tree),
        forall|i: int|
            0 <= i < before.len() ==> override_path((#[trigger] before[i]).0, side) is None,
    ensures
        overrides_of(before + override_entries(tree, side), side) == Ok::<
            Seq<(Seq<char>, Seq<u8>)>,
            Error,
        >(tree),
    decreases tree.len(),
{
    let entries = before + override_entries(tree, side);
    if tree.len() == 0 {
        assert(entries =~= before);
        lemma_no_overrides(before, side);
        assert(tree =~= Seq::empty());
    } else {
        let held = tree.drop_last();
        let last = tree.last();
        lemma_overrides_written(before, held, side);
        assert(entries.drop_last() =~= before + override_entries(held, side));
        assert(entries.last() == (side_prefix(side) + last.0, last.1));
        law_override_name_round_trip(last.0, side, side);
        lemma_paths_differ(tree);
        assert forall|i: int| !#[trigger] path_at(held, last.0, i) by {
            if 0 <= i < held.len() {
                assert(held[i] == tree[i]);
            }
        }
        assert(keeps_order(held, last.0, held.len() as int)) by {
            assert forall|j: int| 0 <= j < held.len() implies precedes(
                (#[trigger] held[j]).0,
                last.0,
            ) by {
                assert(held[j] == tree[j]);
            }
        }
        lemma_one_place(held, last.0, held.len() as int, choose|k: int| keeps_order(held, last.0, k));
        assert(with_file(held, last.0, last.1) =~= tree);
    }
}

/// The entries written for the literal files of one side hold none for
/// another.
proof fn lemma_other_side(tree: Seq<(Seq<char>, Seq<u8>)>, side: Side, other: Side)
    requires
        tree_well_formed(tree),
        other != side,
    ensures
        forall|i: int|
            0 <= i < override_entries(tree, side).len() ==> override_path(
                (#[trigger] override_entries(tree, side)[i]).0,
                other,
            ) is None,
{
    assert forall|i: int| 0 <= i < override_entries(tree, side).len() implies override_path(
        (#[trigger] override_entries(tree, side)[i]).0,
        other,
    ) is None by {
        law_override_name_round_trip(tree[i].0, side, other);
    }
}

/// Whether the literal files of `pack` are well formed, as those of every
/// [`crate::Modpack`] are.
pub open spec fn trees_well_formed(pack: ModpackView) -> bool {
    &&& tree_well_formed(pack.filesystem)
    &&& tree_well_formed(pack.client_filesystem)
    &&& tree_well_formed(pack.server_filesystem)
}

/// Literal files that are written as entries and read again are the same,
/// in the same order and for the same side.
pub proof fn law_overrides_round_trip(pack: ModpackView, text: Seq<u8>)
    requires
        trees_well_formed(pack),
    ensures
        overrides_of(pack_entries(pack, text), Side::Both) == Ok::<
            Seq<(Seq<char>, Seq<u8>)>,
            Error,
        >(pack.filesystem),
        overrides_of(pack_entries(pack, text), Side::Client) == Ok::<
            Seq<(Seq<char>, Seq<u8>)>,
            Error,
        >(pack.client_filesystem),
        overrides_of(pack_entries(pack, text), Side::Server) == Ok::<
            Seq<(Seq<char>, Seq<u8>)>,
            Error,
        >(pack.server_filesystem),
{
    let first = seq![(manifest_name(), text)];
    let both = override_entries(pack.filesystem, Side::Both);
    let client = override_entries(pack.client_filesystem, Side::Client);
    let server = override_entries(pack.server_filesystem, Side::Server);
    let entries = pack_entries(pack, text);
    law_manifest_is_no_override(Side::Both);
    law_manifest_is_no_override(Side::Client);
    law_manifest_is_no_override(Side::Server);
    lemma_other_side(pack.filesystem, Side::Both, Side::Client);
    lemma_other_side(pack.filesystem, Side::Both, Side::Server);
    lemma_other_side(pack.client_filesystem, Side::Client, Side::Both);
    lemma_other_side(pack.client_filesystem, Side::Client, Side::Server);
    lemma_other_side(pack.server_filesystem, Side::Server, Side::Both);
    lemma_other_side(pack.server_filesystem, Side::Server, Side::Client);
    assert(entries == first + both + client + server);
    // For both sides: the files stand behind the manifest, before the others.
    lemma_overrides_written(first, pack.filesystem, Side::Both);
    lemma_overrides_before(first + both, client, Side::Both);
    lemma_overrides_before(first + both + client, server, Side::Both);
    // For the client: behind the manifest and the files for both sides.
    assert forall|i: int| 0 <= i < (first + both).len() implies override_path(
        (#[trigger] (first + both)[i]).0,
        Side::Client,
    ) is None by {
        if i >= 1 {
            assert((first + both)[i] == both[i - 1]);
        }
    }
    lemma_overrides_written(first + both, pack.client_filesystem, Side::Client);
    lemma_overrides_before(first + both + client, server, Side::Client);
    // For the server: behind all the others.
    assert forall|i: int| 0 <= i < (first + both + client).len() implies override_path(
        (#[trigger] (first + both + client)[i]).0,
        Side::Server,
    ) is None by {
        if i >= 1 + both.len() {
            assert((first + both + client)[i] == client[i - 1 - both.len()]);
        } else if i >= 1 {
            assert((first + both + client)[i] == both[i - 1]);
        }
    }
    lemma_overrides_written(first + both + client, pack.server_filesystem, Side::Server);
}

/// The literal files of a pack that could be read are well formed: each
/// path names a file below the install root, and none stands twice.
pub proof fn law_overrides_well_formed(entries: Seq<(Seq<char>, Seq<u8>)>, side: Side)
    ensures
        overrides_of(entries, side) matches Ok(tree) ==> tree_well_formed(tree),
    decreases entries.len(),
{
    if entries.len() > 0 {
        law_overrides_well_formed(entries.drop_last(), side);
        match overrides_of(entries.drop_last(), side) {
            Ok(before) => match override_path(entries.last().0, side) {
                Some(path) => {
                    if file_path(path) && !holds_path(before, path) {
                        lemma_with_file_well_formed(before, path, entries.last().1);
                    }
                },
                None => {},
            },
            Err(_) => {},
        }
    }
}

/// A well-formed tree with one more file, under a path that names a file
/// and that it does not hold, is well formed.
pub proof fn lemma_with_file_well_formed(
    tree: Seq<(Seq<char>, Seq<u8>)>,
    path: Seq<char>,
    content: Seq<u8>,
)
    requires
        tree_well_formed(tree),
        file_path(path),
        !holds_path(tree, path),
    ensures
        tree_well_formed(with_file(tree, path, content)),
{
    assert(keys_in_order(tree));
    assert forall|j: int| 0 <= j < tree.len() implies (#[trigger] tree[j]).0 != path by {
        assert(!path_at(tree, path, j));
    }
    lemma_place_exists(tree, path);
    let i = choose|i: int| keeps_order(tree, path, i);
    let after = tree.insert(i, (path, content));
    assert forall|a: int| 0 <= a < after.len() implies file_path(#[trigger] after[a].0) by {
        if a < i {
            assert(after[a] == tree[a]);
        } else if a > i {
            assert(after[a] == tree[a - 1]);
        }
    }
    assert forall|a: int, b: int| 0 <= a < b < after.len() implies precedes(
        #[trigger] after[a].0,
        #[trigger] after[b].0,
    ) by {
        if a < i {
            assert(after[a] == tree[a]);
        } else if a > i {
            assert(after[a] == tree[a - 1]);
        }
        if b < i {
            assert(after[b] == tree[b]);
        } else if b > i {
            assert(after[b] == tree[b - 1]);
        }
    }
}

/// The manifest of a pack that is written as entries is the first of
/// them, and its text is found again.
pub proof fn law_manifest_found(pack: ModpackView, text: Seq<u8>)
    ensures
        has_manifest(pack_entries(pack, text)),
        manifest_text(pack_entries(pack, text)) == text,
{
    law_manifest_is_no_override(Side::Both);
    let entries = pack_entries(pack, text);
    assert(entries[0] == (manifest_name(), text));
    assert(manifest_at(entries, 0));
    let chosen = choose|i: int| manifest_at(entries, i);
    assert(chosen == 0);
}

/// A pack that is written as entries and read again is the same pack,
/// provided that the text of its manifest is read as the document that it
/// was written from.
pub proof fn law_pack_round_trip(pack: ModpackView, text: Seq<u8>)
    requires
        hashes_well_formed(pack),
        trees_well_formed(pack),
        paths_contained(pack.files),
    ensures
        parsed(text) == Some(manifest_json(pack)) ==> pack_of(pack_entries(pack, text)) == Ok::<
            ModpackView,
            Error,
        >(pack),
{
    law_manifest_found(pack, text);
    law_manifest_round_trip(pack);
    law_overrides_round_trip(pack, text);
}

/// A pack that is written as a container and read again is the same pack,
/// whatever the layout of the text and the level of compression, provided
/// that the container gives back the entries that were put into it, and
/// that the text of the manifest is read as the document that it was
/// written from.
pub proof fn law_archive_round_trip(
    pack: ModpackView,
    pretty: bool,
    level: Option<i64>,
    text: Seq<u8>,
)
    requires
        hashes_well_formed(pack),
        trees_well_formed(pack),
        paths_contained(pack.files),
    ensures
        ({
            let bytes = archive_image(pack_entries(pack, text), level);
            &&& rendered(manifest_json(pack), pretty) == Some(text)
            &&& parsed(text) == Some(manifest_json(pack))
            &&& entries_of(bytes) == Ok::<Seq<(Seq<char>, Seq<u8>)>, Error>(
                pack_entries(pack, text),
            )
        }) ==> archive_pack(archive_image(pack_entries(pack, text), level)) == Ok::<
            ModpackView,
            Error,
        >(pack),
{
    law_pack_round_trip(pack, text);
}

/// The paths of a pack that could be read stay below the install root:
/// those of the files of its manifest, and those of its literal files.
pub proof fn law_read_paths_contained(entries: Seq<(Seq<char>, Seq<u8>)>)
    ensures
        pack_of(entries) matches Ok(pack) ==> paths_contained(pack.files) && trees_well_formed(
            pack,
        ),
{
    law_overrides_well_formed(entries, Side::Both);
    law_overrides_well_formed(entries, Side::Client);
    law_overrides_well_formed(entries, Side::Server);
}

/// Entries among which a literal file lies under a path that does not
/// name a file below the install root hold no pack.
pub proof fn law_escaping_override_refused(
    entries: Seq<(Seq<char>, Seq<u8>)>,
    i: int,
    side: Side,
)
    requires
        0 <= i < entries.len(),
        override_path(entries[i].0, side) matches Some(path) && !file_path(path),
    ensures
        overrides_of(entries, side) is Err,
        pack_of(entries) is Err,
    decreases entries.len(),
{
    if i == entries.len() - 1 {
    } else {
        assert(entries.drop_last()[i] == entries[i]);
        law_escaping_override_refused(entries.drop_last(), i, side);
    }
}

/// Entries without one are no pack, and so are entries none of which
/// carries the manifest's name.
pub proof fn law_manifest_needed(entries: Seq<(Seq<char>, Seq<u8>)>)
    ensures
        entries.len() == 0 ==> pack_of(entries) == Err::<ModpackView, Error>(Error::EmptyArchive),
        entries.len() > 0 && !has_manifest(entries) ==> pack_of(entries) == Err::<
            ModpackView,
            Error,
        >(Error::ManifestNotFound) || pack_of(entries) == Err::<ModpackView, Error>(
            Error::ManifestIsDirectory,
        ),
{
}

} // verus!
