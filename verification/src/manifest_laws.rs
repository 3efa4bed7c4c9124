//! What holds of the manifest and its documents.

use crate::error::{DecodeError, Field};
use crate::json::{last_index_of, member, JsonView};
use crate::json_text::{distinct_keys, renderable};
use crate::manifest::{
    mandatory_hash, named_at, upsert, Dependency, Env, Environment, FileView, GameType, HashesView,
    ModpackView,
};
use crate::manifest_json::{
    dependencies_of, dependency_member, dependency_members, dependency_of_tag, dependency_tag,
    env_of_tag, env_tag, environment_json, environment_of, extra_hashes, file_json, file_of,
    files_json, files_of, game_of_tag, game_tag, hash_members, hashes_json, hashes_of,
    manifest_json, manifest_of, summary_member, text_items, texts_of,
};
use crate::text::{
    keeps_order, keys_in_order, lemma_insert_in_order, lemma_one_place, lemma_place_exists,
    precedes,
};
use vstd::prelude::*;

verus! {

/// The length and the first character of each name that the format writes.
spec fn names_known() -> bool {
    &&& "formatVersion"@.len() == 13 && "formatVersion"@[0] == 'f'
    &&& "game"@.len() == 4 && "game"@[0] == 'g'
    &&& "versionId"@.len() == 9 && "versionId"@[0] == 'v'
    &&& "name"@.len() == 4 && "name"@[0] == 'n'
    &&& "summary"@.len() == 7 && "summary"@[0] == 's'
    &&& "files"@.len() == 5 && "files"@[0] == 'f'
    &&& "dependencies"@.len() == 12 && "dependencies"@[0] == 'd'
    &&& "path"@.len() == 4 && "path"@[0] == 'p'
    &&& "hashes"@.len() == 6 && "hashes"@[0] == 'h'
    &&& "env"@.len() == 3 && "env"@[0] == 'e'
    &&& "downloads"@.len() == 9 && "downloads"@[0] == 'd'
    &&& "fileSize"@.len() == 8 && "fileSize"@[0] == 'f'
    &&& "client"@.len() == 6 && "client"@[0] == 'c'
    &&& "server"@.len() == 6 && "server"@[0] == 's'
    &&& "sha1"@.len() == 4 && "sha1"@[0] == 's'
    &&& "sha512"@.len() == 6 && "sha512"@[0] == 's'
    &&& "required"@.len() == 8 && "required"@[0] == 'r'
    &&& "optional"@.len() == 8 && "optional"@[0] == 'o'
    &&& "unsupported"@.len() == 11 && "unsupported"@[0] == 'u'
    &&& "minecraft"@.len() == 9 && "minecraft"@[0] == 'm'
    &&& "forge"@.len() == 5 && "forge"@[0] == 'f'
    &&& "neoforge"@.len() == 8 && "neoforge"@[0] == 'n'
    &&& "fabric-loader"@.len() == 13 && "fabric-loader"@[0] == 'f'
    &&& "quilt-loader"@.len() == 12 && "quilt-loader"@[0] == 'q'
}

/// The names that the format writes are known by their length and their
/// first character, by which each differs from the others of its object.
proof fn lemma_names_known()
    ensures
        names_known(),
{
    reveal_strlit("formatVersion");
    reveal_strlit("game");
    reveal_strlit("versionId");
    reveal_strlit("name");
    reveal_strlit("summary");
    reveal_strlit("files");
    reveal_strlit("dependencies");
    reveal_strlit("path");
    reveal_strlit("hashes");
    reveal_strlit("env");
    reveal_strlit("downloads");
    reveal_strlit("fileSize");
    reveal_strlit("client");
    reveal_strlit("server");
    reveal_strlit("sha1");
    reveal_strlit("sha512");
    reveal_strlit("required");
    reveal_strlit("optional");
    reveal_strlit("unsupported");
    reveal_strlit("minecraft");
    reveal_strlit("forge");
    reveal_strlit("neoforge");
    reveal_strlit("fabric-loader");
    reveal_strlit("quilt-loader");
}

/// Each tag stands for the value that it was written for.
pub proof fn law_tags_round_trip(game: GameType, env: Env, kind: Dependency)
    ensures
        game_of_tag(game_tag(game)) == Some(game),
        env_of_tag(env_tag(env)) == Some(env),
        dependency_of_tag(dependency_tag(kind)) == Some(kind),
{
    lemma_names_known();
}

/// The sides of a file that are written as a document and read again are
/// the same.
pub proof fn law_environment_round_trip(env: Option<Environment>)
    ensures
        environment_of(Some(environment_json(env))) == Ok::<Option<Environment>, DecodeError>(env),
{
    lemma_names_known();
    match env {
        None => {},
        Some(e) => {
            law_tags_round_trip(GameType::Minecraft, e.client, Dependency::Forge);
            law_tags_round_trip(GameType::Minecraft, e.server, Dependency::Forge);
            let members = environment_json(env)->Object_0;
            reveal_with_fuel(last_index_of, 3);
            assert(members.len() == 2);
            assert(members.last() == members[1]);
            assert(members.drop_last().last() == members[0]);
            assert(member(members, "server"@) == Some(members[1].1));
            assert(member(members, "client"@) == Some(members[0].1));
        },
    }
}

/// Where `members` holds `key`, the place that counts is one of its
/// places, and holds `key`.
pub proof fn lemma_last_index_of(members: Seq<(Seq<char>, JsonView)>, key: Seq<char>)
    ensures
        match last_index_of(members, key) {
            Some(i) => 0 <= i < members.len() && members[i].0 == key && forall|j: int|
                i < j < members.len() ==> (#[trigger] members[j]).0 != key,
            None => forall|j: int| 0 <= j < members.len() ==> (#[trigger] members[j]).0 != key,
        },
    decreases members.len(),
{
    if members.len() > 0 && members.last().0 != key {
        lemma_last_index_of(members.drop_last(), key);
        assert forall|j: int| 0 <= j < members.len() - 1 implies members[j]
            == members.drop_last()[j] by {}
    }
}

/// A key that no member of `more` carries is looked up in `base + more` as
/// in `base`.
pub proof fn lemma_member_of_prefix(
    base: Seq<(Seq<char>, JsonView)>,
    more: Seq<(Seq<char>, JsonView)>,
    key: Seq<char>,
)
    requires
        forall|i: int| 0 <= i < more.len() ==> (#[trigger] more[i]).0 != key,
    ensures
        member(base + more, key) == member(base, key),
    decreases more.len(),
{
    if more.len() == 0 {
        assert(base + more =~= base);
    } else {
        let whole = base + more;
        assert(whole.last() == more.last());
        assert(whole.drop_last() =~= base + more.drop_last());
        lemma_member_of_prefix(base, more.drop_last(), key);
        lemma_last_index_of(base, key);
        lemma_last_index_of(base + more.drop_last(), key);
    }
}

/// The further hashes that are written as members and read again are the
/// same.
proof fn lemma_extra_hashes_round_trip(hashes: HashesView, n: int)
    requires
        hashes.well_formed(),
        0 <= n <= hashes.optional.len(),
    ensures
        extra_hashes(
            seq![
                ("sha1"@, JsonView::Text(hashes.sha1)),
                ("sha512"@, JsonView::Text(hashes.sha512)),
            ] + hash_members(hashes.optional.take(n)),
        ) == Ok::<Seq<(Seq<char>, Seq<char>)>, DecodeError>(hashes.optional.take(n)),
    decreases n,
{
    let base = seq![
        ("sha1"@, JsonView::Text(hashes.sha1)),
        ("sha512"@, JsonView::Text(hashes.sha512)),
    ];
    let whole = base + hash_members(hashes.optional.take(n));
    if n == 0 {
        assert(whole =~= base);
        reveal_with_fuel(extra_hashes, 3);
        assert(base.last() == base[1]);
        assert(base.drop_last().last() == base[0]);
        assert(base.drop_last().drop_last().len() == 0);
        assert(hashes.optional.take(0) =~= Seq::empty());
    } else {
        let before = hashes.optional.take(n - 1);
        lemma_extra_hashes_round_trip(hashes, n - 1);
        assert(whole.drop_last() =~= base + hash_members(before));
        assert(whole.last() == (hashes.optional[n - 1].0, JsonView::Text(hashes.optional[n - 1].1)));
        assert(!mandatory_hash(hashes.optional[n - 1].0));
        assert forall|i: int| !#[trigger] named_at(before, hashes.optional[n - 1].0, i) by {
            if 0 <= i < before.len() {
                assert(before[i].0 == hashes.optional[i].0);
            }
        }
        let name = hashes.optional[n - 1].0;
        assert(keeps_order(before, name, before.len() as int)) by {
            assert forall|j: int| 0 <= j < before.len() implies precedes(
                (#[trigger] before[j]).0,
                name,
            ) by {
                assert(before[j] == hashes.optional[j]);
            }
        }
        lemma_one_place(before, name, before.len() as int, choose|k: int| keeps_order(before, name, k));
        assert(upsert(before, name, hashes.optional[n - 1].1) =~= hashes.optional.take(n));
    }
}

/// Hashes that are written as a document and read again are the same.
pub proof fn law_hashes_round_trip(hashes: HashesView)
    requires
        hashes.well_formed(),
    ensures
        hashes_of(Some(hashes_json(hashes))) == Ok::<HashesView, DecodeError>(hashes),
{
    lemma_names_known();
    let base = seq![
        ("sha1"@, JsonView::Text(hashes.sha1)),
        ("sha512"@, JsonView::Text(hashes.sha512)),
    ];
    let more = hash_members(hashes.optional);
    lemma_member_of_prefix(base, more, "sha1"@);
    lemma_member_of_prefix(base, more, "sha512"@);
    reveal_with_fuel(last_index_of, 3);
    assert(base.last() == base[1]);
    assert(base.drop_last().last() == base[0]);
    assert(member(base, "sha1"@) == Some(base[0].1));
    assert(member(base, "sha512"@) == Some(base[1].1));
    lemma_extra_hashes_round_trip(hashes, hashes.optional.len() as int);
    assert(hashes.optional.take(hashes.optional.len() as int) =~= hashes.optional);
}

/// Strings that are written as an array and read again are the same.
pub proof fn law_texts_round_trip(texts: Seq<Seq<char>>, field: Field)
    ensures
        texts_of(Some(JsonView::Array(text_items(texts))), field) == Ok::<
            Seq<Seq<char>>,
            DecodeError,
        >(texts),
{
    let items = text_items(texts);
    assert(Seq::new(items.len(), |i: int| items[i]->Text_0) =~= texts);
}

/// A file that is written as a document and read again is the same.
pub proof fn law_file_round_trip(file: FileView)
    requires
        file.hashes.well_formed(),
    ensures
        file_of(file_json(file)) == Ok::<FileView, DecodeError>(file),
{
    lemma_names_known();
    law_hashes_round_trip(file.hashes);
    law_environment_round_trip(file.env);
    law_texts_round_trip(file.downloads, Field::Downloads);
    let members = file_json(file)->Object_0;
    reveal_with_fuel(last_index_of, 6);
    let m4 = members.drop_last();
    let m3 = m4.drop_last();
    let m2 = m3.drop_last();
    let m1 = m2.drop_last();
    assert(members.last() == members[4]);
    assert(m4.last() == members[3]);
    assert(m3.last() == members[2]);
    assert(m2.last() == members[1]);
    assert(m1.last() == members[0]);
    assert(member(members, "path"@) == Some(members[0].1));
    assert(member(members, "hashes"@) == Some(members[1].1));
    assert(member(members, "env"@) == Some(members[2].1));
    assert(member(members, "downloads"@) == Some(members[3].1));
    assert(member(members, "fileSize"@) == Some(members[4].1));
}

/// Files that are written as documents and read again are the same.
pub proof fn law_files_round_trip(files: Seq<FileView>)
    requires
        forall|i: int| 0 <= i < files.len() ==> (#[trigger] files[i]).hashes.well_formed(),
    ensures
        files_of(files_json(files)) == Ok::<Seq<FileView>, DecodeError>(files),
    decreases files.len(),
{
    if files.len() == 0 {
        assert(files =~= Seq::empty());
    } else {
        let items = files_json(files);
        assert(items.drop_last() =~= files_json(files.drop_last()));
        assert(items.last() == file_json(files.last()));
        law_files_round_trip(files.drop_last());
        law_file_round_trip(files.last());
        assert(files.drop_last().push(files.last()) =~= files);
    }
}

/// What `dependencies` holds of the first `n` components, in the order in
/// which [`Dependency`] declares them.
spec fn first_dependencies(dependencies: Map<Dependency, Seq<char>>, n: int) -> Map<
    Dependency,
    Seq<char>,
> {
    dependencies.restrict(Set::new(|kind: Dependency| rank(kind) < n))
}

/// The place of `kind` in the order in which [`Dependency`] declares the
/// components.
spec fn rank(kind: Dependency) -> int {
    match kind {
        Dependency::Minecraft => 0,
        Dependency::Forge => 1,
        Dependency::Neoforge => 2,
        Dependency::FabricLoader => 3,
        Dependency::QuiltLoader => 4,
    }
}

/// What is known of the members written for the components before `kind`
/// is known, with `kind` added, of those written up to it.
proof fn lemma_dependency_step(
    members: Seq<(Seq<char>, JsonView)>,
    dependencies: Map<Dependency, Seq<char>>,
    kind: Dependency,
)
    requires
        dependencies_of(members) == Ok::<Map<Dependency, Seq<char>>, DecodeError>(
            first_dependencies(dependencies, rank(kind)),
        ),
        distinct_keys(members),
        forall|i: int|
            0 <= i < members.len() ==> (#[trigger] members[i]).1 is Text && exists|k: Dependency|
                rank(k) < rank(kind) && members[i].0 == dependency_tag(k),
    ensures
        ({
            let next = members + dependency_member(dependencies, kind);
            &&& dependencies_of(next) == Ok::<Map<Dependency, Seq<char>>, DecodeError>(
                first_dependencies(dependencies, rank(kind) + 1),
            )
            &&& distinct_keys(next)
            &&& forall|i: int|
                0 <= i < next.len() ==> (#[trigger] next[i]).1 is Text && exists|k: Dependency|
                    rank(k) < rank(kind) + 1 && next[i].0 == dependency_tag(k)
        }),
{
    lemma_names_known();
    let next = members + dependency_member(dependencies, kind);
    law_tags_round_trip(GameType::Minecraft, Env::Required, kind);
    if dependencies.contains_key(kind) {
        assert(next.drop_last() =~= members);
        assert(next.last() == (dependency_tag(kind), JsonView::Text(dependencies[kind])));
        assert(first_dependencies(dependencies, rank(kind)).insert(kind, dependencies[kind])
            =~= first_dependencies(dependencies, rank(kind) + 1));
        assert forall|i: int| 0 <= i < next.len() implies (#[trigger] next[i]).1 is Text
            && exists|k: Dependency| rank(k) < rank(kind) + 1 && next[i].0 == dependency_tag(k) by {
            if i < members.len() {
                assert(next[i] == members[i]);
                let k = choose|k: Dependency|
                    rank(k) < rank(kind) && members[i].0 == dependency_tag(k);
                assert(rank(k) < rank(kind) + 1 && next[i].0 == dependency_tag(k));
            } else {
                assert(rank(kind) < rank(kind) + 1 && next[i].0 == dependency_tag(kind));
            }
        }
        assert forall|i: int, j: int| 0 <= i < j < next.len() implies #[trigger] next[i].0
            != #[trigger] next[j].0 by {
            if j < members.len() {
                assert(next[i] == members[i] && next[j] == members[j]);
            } else {
                assert(next[i] == members[i]);
                let k = choose|k: Dependency|
                    rank(k) < rank(kind) && members[i].0 == dependency_tag(k);
                assert(k != kind);
            }
        }
    } else {
        assert(next =~= members);
        assert(first_dependencies(dependencies, rank(kind)) =~= first_dependencies(
            dependencies,
            rank(kind) + 1,
        ));
        assert forall|i: int| 0 <= i < next.len() implies (#[trigger] next[i]).1 is Text
            && exists|k: Dependency| rank(k) < rank(kind) + 1 && next[i].0 == dependency_tag(k) by {
            let k = choose|k: Dependency| rank(k) < rank(kind) && members[i].0 == dependency_tag(k);
            assert(rank(k) < rank(kind) + 1 && next[i].0 == dependency_tag(k));
        }
    }
}

/// Components that are written as members and read again are the same, and
/// no two of the members have the same key.
pub proof fn law_dependencies_round_trip(dependencies: Map<Dependency, Seq<char>>)
    ensures
        dependencies_of(dependency_members(dependencies)) == Ok::<
            Map<Dependency, Seq<char>>,
            DecodeError,
        >(dependencies),
        distinct_keys(dependency_members(dependencies)),
        forall|i: int|
            0 <= i < dependency_members(dependencies).len() ==> (#[trigger] dependency_members(
                dependencies,
            )[i]).1 is Text,
{
    let m0 = Seq::<(Seq<char>, JsonView)>::empty();
    assert(first_dependencies(dependencies, 0) =~= Map::empty());
    lemma_dependency_step(m0, dependencies, Dependency::Minecraft);
    let m1 = m0 + dependency_member(dependencies, Dependency::Minecraft);
    assert(m1 =~= dependency_member(dependencies, Dependency::Minecraft));
    lemma_dependency_step(m1, dependencies, Dependency::Forge);
    let m2 = m1 + dependency_member(dependencies, Dependency::Forge);
    lemma_dependency_step(m2, dependencies, Dependency::Neoforge);
    let m3 = m2 + dependency_member(dependencies, Dependency::Neoforge);
    lemma_dependency_step(m3, dependencies, Dependency::FabricLoader);
    let m4 = m3 + dependency_member(dependencies, Dependency::FabricLoader);
    lemma_dependency_step(m4, dependencies, Dependency::QuiltLoader);
    assert(first_dependencies(dependencies, 5) =~= dependencies);
}

/// Whether the hashes of every file of `pack` are well formed, as those of
/// every [`Modpack`] are.
pub open spec fn hashes_well_formed(pack: ModpackView) -> bool {
    forall|i: int| 0 <= i < pack.files.len() ==> (#[trigger] pack.files[i]).hashes.well_formed()
}

/// A manifest that is written as a document and read again is the same:
/// every field comes back as it was, and the literal files, which are no
/// part of the document, are none.
pub proof fn law_manifest_round_trip(pack: ModpackView)
    requires
        hashes_well_formed(pack),
    ensures
        manifest_of(manifest_json(pack)) == Ok::<ModpackView, DecodeError>(
            ModpackView {
                filesystem: Seq::empty(),
                client_filesystem: Seq::empty(),
                server_filesystem: Seq::empty(),
                ..pack
            },
        ),
{
    lemma_names_known();
    law_tags_round_trip(pack.game, Env::Required, Dependency::Forge);
    law_files_round_trip(pack.files);
    law_dependencies_round_trip(pack.dependencies);
    let head = seq![
        ("formatVersion"@, JsonView::Unsigned(pack.format_version)),
        ("game"@, JsonView::Text(game_tag(pack.game))),
        ("versionId"@, JsonView::Text(pack.version_id)),
        ("name"@, JsonView::Text(pack.name)),
    ];
    let tail = seq![
        ("files"@, JsonView::Array(files_json(pack.files))),
        ("dependencies"@, JsonView::Object(dependency_members(pack.dependencies))),
    ];
    let members = manifest_json(pack)->Object_0;
    assert(members == head + summary_member(pack.summary) + tail);
    reveal_with_fuel(last_index_of, 8);
    let n = members.len() as int;
    let m1 = members.drop_last();
    let m2 = m1.drop_last();
    let m3 = m2.drop_last();
    let m4 = m3.drop_last();
    let m5 = m4.drop_last();
    assert(members.last() == members[n - 1]);
    assert(m1.last() == members[n - 2]);
    assert(m2.last() == members[n - 3]);
    assert(m3.last() == members[n - 4]);
    assert(m4.last() == members[n - 5]);
    assert(m5.last() == members[n - 6]);
    match pack.summary {
        Some(s) => {
            assert(n == 7);
            let m6 = m5.drop_last();
            assert(m6.last() == members[0]);
            assert(member(members, "summary"@) == Some(members[4].1));
        },
        None => {
            assert(n == 6);
            assert(member(members, "summary"@) is None);
        },
    }
    assert(member(members, "formatVersion"@) == Some(members[0].1));
    assert(member(members, "game"@) == Some(members[1].1));
    assert(member(members, "versionId"@) == Some(members[2].1));
    assert(member(members, "name"@) == Some(members[3].1));
    assert(member(members, "files"@) == Some(members[n - 2].1));
    assert(member(members, "dependencies"@) == Some(members[n - 1].1));
}

/// The document of a file can be written down without loss.
proof fn lemma_file_json_renderable(file: FileView)
    requires
        file.hashes.well_formed(),
    ensures
        renderable(file_json(file)),
{
    lemma_names_known();
    let hashes = hashes_json(file.hashes)->Object_0;
    assert(distinct_keys(hashes)) by {
        assert forall|i: int, j: int| 0 <= i < j < hashes.len() implies #[trigger] hashes[i].0
            != #[trigger] hashes[j].0 by {
            if i >= 2 {
                assert(hashes[i].0 == file.hashes.optional[i - 2].0);
            }
            assert(hashes[j].0 == file.hashes.optional[j - 2].0 || j < 2);
        }
    }
    assert(renderable(hashes_json(file.hashes))) by {
        assert forall|i: int| 0 <= i < hashes.len() implies renderable((#[trigger] hashes[i]).1) by {
            assert(hashes[i].1 is Text);
        }
    }
    assert(renderable(environment_json(file.env))) by {
        match file.env {
            None => {},
            Some(env) => {
                let sides = environment_json(file.env)->Object_0;
                assert(sides.len() == 2);
                assert forall|i: int| 0 <= i < sides.len() implies renderable(
                    (#[trigger] sides[i]).1,
                ) by {
                    assert(sides[i].1 is Text);
                }
            },
        }
    }
    let downloads = text_items(file.downloads);
    assert(renderable(JsonView::Array(downloads))) by {
        assert forall|i: int| 0 <= i < downloads.len() implies renderable(
            #[trigger] downloads[i],
        ) by {
            assert(downloads[i] is Text);
        }
    }
    let members = file_json(file)->Object_0;
    assert(members.len() == 5);
    assert forall|i: int| 0 <= i < members.len() implies renderable((#[trigger] members[i]).1) by {
        if i == 0 {
        } else if i == 1 {
        } else if i == 2 {
        } else if i == 3 {
        } else {
        }
    }
}

/// The document of a manifest can be written down without loss.
pub proof fn lemma_manifest_json_renderable(pack: ModpackView)
    requires
        hashes_well_formed(pack),
    ensures
        renderable(manifest_json(pack)),
{
    lemma_names_known();
    law_dependencies_round_trip(pack.dependencies);
    let files = files_json(pack.files);
    assert(renderable(JsonView::Array(files))) by {
        assert forall|i: int| 0 <= i < files.len() implies renderable(#[trigger] files[i]) by {
            lemma_file_json_renderable(pack.files[i]);
        }
    }
    let components = dependency_members(pack.dependencies);
    assert(renderable(JsonView::Object(components))) by {
        assert forall|i: int| 0 <= i < components.len() implies renderable(
            (#[trigger] components[i]).1,
        ) by {
            assert(components[i].1 is Text);
        }
    }
    let members = manifest_json(pack)->Object_0;
    let n = members.len() as int;
    match pack.summary {
        Some(s) => {
            assert(n == 7);
        },
        None => {
            assert(n == 6);
        },
    }
    assert forall|i: int| 0 <= i < members.len() implies renderable((#[trigger] members[i]).1) by {
        if i == 0 {
        } else if i == 1 {
        } else if i == 2 {
        } else if i == 3 {
        } else if i == n - 2 {
        } else if i == n - 1 {
        } else {
        }
    }
    assert(distinct_keys(members));
}

/// Hashes without SHA-1, or without SHA-512, cannot be read.
pub proof fn law_hashes_need_both(members: Seq<(Seq<char>, JsonView)>)
    ensures
        member(members, "sha1"@) is None ==> hashes_of(Some(JsonView::Object(members))) == Err::<
            HashesView,
            DecodeError,
        >(DecodeError::Missing(Field::Sha1)),
        member(members, "sha1"@) matches Some(JsonView::Text(_)) && member(members, "sha512"@)
            is None ==> hashes_of(Some(JsonView::Object(members))) == Err::<
            HashesView,
            DecodeError,
        >(DecodeError::Missing(Field::Sha512)),
{
}

/// A list of files with one in it that cannot be read cannot be read.
pub proof fn law_file_error_fails_list(items: Seq<JsonView>, i: int)
    requires
        0 <= i < items.len(),
        file_of(items[i]) is Err,
    ensures
        files_of(items) is Err,
    decreases items.len(),
{
    if i < items.len() - 1 {
        assert(items.drop_last()[i] == items[i]);
        law_file_error_fails_list(items.drop_last(), i);
    }
}

/// A manifest with a file in it that cannot be read, as one whose hashes
/// lack SHA-1 or SHA-512, cannot be read.
pub proof fn law_file_error_fails_manifest(
    members: Seq<(Seq<char>, JsonView)>,
    items: Seq<JsonView>,
    i: int,
)
    requires
        member(members, "files"@) == Some(JsonView::Array(items)),
        0 <= i < items.len(),
        file_of(items[i]) is Err,
    ensures
        manifest_of(JsonView::Object(members)) is Err,
{
    law_file_error_fails_list(items, i);
}

/// The further hashes that are read stand in the order of their names.
pub proof fn law_extra_hashes_in_order(members: Seq<(Seq<char>, JsonView)>)
    ensures
        extra_hashes(members) matches Ok(kept) ==> keys_in_order(kept),
    decreases members.len(),
{
    if members.len() > 0 {
        law_extra_hashes_in_order(members.drop_last());
        if let Ok(before) = extra_hashes(members.drop_last()) {
            if !mandatory_hash(members.last().0) {
                if let JsonView::Text(value) = members.last().1 {
                    lemma_upsert_in_order(before, members.last().0, value);
                }
            }
        }
    }
}

/// A hash under a name that the format does not know is kept: where the
/// further hashes among `members` can be read, the value that `members`
/// gives to `name` stands among them under `name`.
pub proof fn law_extra_hash_kept(
    members: Seq<(Seq<char>, JsonView)>,
    name: Seq<char>,
    value: Seq<char>,
)
    requires
        !mandatory_hash(name),
        member(members, name) == Some(JsonView::Text(value)),
    ensures
        extra_hashes(members) matches Ok(kept) ==> exists|i: int|
            0 <= i < kept.len() && #[trigger] kept[i] == (name, value),
    decreases members.len(),
{
    lemma_last_index_of(members, name);
    if let Ok(kept) = extra_hashes(members) {
        let before = extra_hashes(members.drop_last())->Ok_0;
        let last = members.last();
        law_extra_hashes_in_order(members.drop_last());
        if last.0 == name {
            lemma_upsert_in_order(before, name, value);
        } else {
            assert(member(members.drop_last(), name) == Some(JsonView::Text(value))) by {
                lemma_last_index_of(members.drop_last(), name);
            }
            law_extra_hash_kept(members.drop_last(), name, value);
            let i = choose|i: int| 0 <= i < before.len() && #[trigger] before[i] == (name, value);
            if !mandatory_hash(last.0) {
                lemma_upsert_keeps(before, last.0, last.1->Text_0, i);
            }
        }
    }
}

/// What is put under `name` among pairs in order stands under `name`, and
/// the pairs are in order as before.
proof fn lemma_upsert_in_order(
    pairs: Seq<(Seq<char>, Seq<char>)>,
    name: Seq<char>,
    value: Seq<char>,
)
    requires
        keys_in_order(pairs),
    ensures
        keys_in_order(upsert(pairs, name, value)),
        exists|i: int|
            0 <= i < upsert(pairs, name, value).len() && #[trigger] upsert(pairs, name, value)[i]
                == (name, value),
{
    let after = upsert(pairs, name, value);
    if exists|i: int| named_at(pairs, name, i) {
        let i = choose|i: int| named_at(pairs, name, i);
        assert(after[i] == (name, value));
        assert forall|a: int, b: int| 0 <= a < b < after.len() implies precedes(
            #[trigger] after[a].0,
            #[trigger] after[b].0,
        ) by {
            assert(after[a].0 == pairs[a].0 && after[b].0 == pairs[b].0);
        }
    } else {
        assert forall|j: int| 0 <= j < pairs.len() implies (#[trigger] pairs[j]).0 != name by {
            assert(!named_at(pairs, name, j));
        }
        lemma_place_exists(pairs, name);
        let i = choose|i: int| keeps_order(pairs, name, i);
        lemma_insert_in_order(pairs, name, value, i);
        assert(after[i] == (name, value));
    }
}

/// What stands under another name among pairs in order stays among them.
proof fn lemma_upsert_keeps(
    pairs: Seq<(Seq<char>, Seq<char>)>,
    name: Seq<char>,
    value: Seq<char>,
    i: int,
)
    requires
        keys_in_order(pairs),
        0 <= i < pairs.len(),
        pairs[i].0 != name,
    ensures
        exists|j: int|
            0 <= j < upsert(pairs, name, value).len() && #[trigger] upsert(pairs, name, value)[j]
                == pairs[i],
{
    let after = upsert(pairs, name, value);
    if exists|k: int| named_at(pairs, name, k) {
        let k = choose|k: int| named_at(pairs, name, k);
        assert(k != i);
        assert(after[i] == pairs[i]);
    } else {
        assert forall|j: int| 0 <= j < pairs.len() implies (#[trigger] pairs[j]).0 != name by {
            assert(!named_at(pairs, name, j));
        }
        lemma_place_exists(pairs, name);
        let k = choose|k: int| keeps_order(pairs, name, k);
        if i < k {
            assert(after[i] == pairs[i]);
        } else {
            assert(after[i + 1] == pairs[i]);
        }
    }
}

/// A component that is named twice has the version that is given last: a
/// member behind the others sets the version of its component, whatever
/// the others gave it.
pub proof fn law_later_dependency_wins(
    members: Seq<(Seq<char>, JsonView)>,
    kind: Dependency,
    version: Seq<char>,
)
    ensures
        dependencies_of(members) matches Ok(before) ==> dependencies_of(
            members.push((dependency_tag(kind), JsonView::Text(version))),
        ) == Ok::<Map<Dependency, Seq<char>>, DecodeError>(before.insert(kind, version)),
{
    law_tags_round_trip(GameType::Minecraft, Env::Required, kind);
    let next = members.push((dependency_tag(kind), JsonView::Text(version)));
    assert(next.drop_last() =~= members);
}

} // verus!
