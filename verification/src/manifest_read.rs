//! Reading the manifest from its JSON document.

use crate::error::{DecodeError, Field};
use crate::json::{
    find_member, items_view, lemma_array_view, lemma_object_view, member, members_view, Json,
    JsonView,
};
use crate::manifest::{
    file_views, mandatory_hash, optional_text, texts_view, Dependencies, Dependency, Env,
    Environment, File, FileView, GameType, Hashes, Modpack,
};
use crate::manifest_json::{
    dependencies_of, dependency_map_of, dependency_of_tag, env_of_tag, environment_of,
    extra_hashes, file_list_of, file_of, files_of, game_of, game_of_tag, hashes_of, manifest_of,
    manifest_of_text, optional_text_of, side_of, text_of, texts_of, unsigned_of,
};
use crate::overrides::Overrides;
use crate::text::same_text;
use vstd::prelude::*;

verus! {

/// What contracts say of a document that may be missing.
pub open spec fn found_view(found: Option<&Json>) -> Option<JsonView> {
    match found {
        Some(json) => Some(json@),
        None => None,
    }
}

/// The string that the field `field` holds.
fn read_text(found: Option<&Json>, field: Field) -> (r: Result<String, DecodeError>)
    ensures
        match text_of(found_view(found), field) {
            Ok(s) => r matches Ok(t) && t@ == s,
            Err(e) => r == Err::<String, DecodeError>(e),
        },
{
    match found {
        None => Err(DecodeError::Missing(field)),
        Some(Json::Text(s)) => Ok(s.clone()),
        Some(_) => Err(DecodeError::Mistyped(field)),
    }
}

/// The number that the field `field` holds.
fn read_unsigned(found: Option<&Json>, field: Field) -> (r: Result<u64, DecodeError>)
    ensures
        r == unsigned_of(found_view(found), field),
{
    match found {
        None => Err(DecodeError::Missing(field)),
        Some(Json::Unsigned(n)) => Ok(*n),
        Some(_) => Err(DecodeError::Mistyped(field)),
    }
}

/// The string that the field `field` holds, if it holds one.
fn read_optional_text(found: Option<&Json>, field: Field) -> (r: Result<
    Option<String>,
    DecodeError,
>)
    ensures
        match optional_text_of(found_view(found), field) {
            Ok(s) => r matches Ok(t) && optional_text(t) == s,
            Err(e) => r == Err::<Option<String>, DecodeError>(e),
        },
{
    match found {
        None => Ok(None),
        Some(Json::Null) => Ok(None),
        Some(Json::Text(s)) => Ok(Some(s.clone())),
        Some(_) => Err(DecodeError::Mistyped(field)),
    }
}

/// The strings that the field `field` holds.
fn read_texts(found: Option<&Json>, field: Field) -> (r: Result<Vec<String>, DecodeError>)
    ensures
        match texts_of(found_view(found), field) {
            Ok(s) => r matches Ok(t) && texts_view(t@) == s,
            Err(e) => r == Err::<Vec<String>, DecodeError>(e),
        },
{
    match found {
        None => Err(DecodeError::Missing(field)),
        Some(Json::Array(items)) => {
            proof {
                lemma_array_view(*items);
            }
            let ghost below = items_view(items@);
            let mut out: Vec<String> = Vec::new();
            let mut i: usize = 0;
            while i < items.len()
                invariant
                    i <= items.len(),
                    out.len() == i,
                    below == items_view(items@),
                    found_view(found) == Some(JsonView::Array(below)),
                    forall|j: int| 0 <= j < i ==> #[trigger] below[j] is Text,
                    forall|j: int| 0 <= j < i ==> out[j]@ == below[j]->Text_0,
                decreases items.len() - i,
            {
                assert(below[i as int] == items[i as int]@);
                match &items[i] {
                    Json::Text(s) => {
                        out.push(s.clone());
                    },
                    _ => {
                        assert(!(below[i as int] is Text));
                        return Err(DecodeError::Mistyped(field));
                    },
                }
                i += 1;
            }
            assert(texts_view(out@) =~= Seq::new(below.len(), |i: int| below[i]->Text_0));
            Ok(out)
        },
        Some(_) => Err(DecodeError::Mistyped(field)),
    }
}

/// The value that `tag` stands for, if it stands for one.
pub fn env_from_tag(tag: &str) -> (r: Option<Env>)
    ensures
        r == env_of_tag(tag@),
{
    if same_text(tag, "required") {
        Some(Env::Required)
    } else if same_text(tag, "optional") {
        Some(Env::Optional)
    } else if same_text(tag, "unsupported") {
        Some(Env::Unsupported)
    } else {
        None
    }
}

/// The game that `tag` stands for, if it stands for one.
pub fn game_from_tag(tag: &str) -> (r: Option<GameType>)
    ensures
        r == game_of_tag(tag@),
{
    if same_text(tag, "minecraft") {
        Some(GameType::Minecraft)
    } else {
        None
    }
}

/// The component that `tag` stands for, if it stands for one.
pub fn dependency_from_tag(tag: &str) -> (r: Option<Dependency>)
    ensures
        r == dependency_of_tag(tag@),
{
    if same_text(tag, "minecraft") {
        Some(Dependency::Minecraft)
    } else if same_text(tag, "forge") {
        Some(Dependency::Forge)
    } else if same_text(tag, "neoforge") {
        Some(Dependency::Neoforge)
    } else if same_text(tag, "fabric-loader") {
        Some(Dependency::FabricLoader)
    } else if same_text(tag, "quilt-loader") {
        Some(Dependency::QuiltLoader)
    } else {
        None
    }
}

/// How a file stands to one side.
fn read_side(found: Option<&Json>, field: Field) -> (r: Result<Env, DecodeError>)
    ensures
        r == side_of(found_view(found), field),
{
    let tag = match read_text(found, field) {
        Ok(tag) => tag,
        Err(e) => {
            return Err(e);
        },
    };
    match env_from_tag(tag.as_str()) {
        Some(env) => Ok(env),
        None => Err(DecodeError::Mistyped(field)),
    }
}

/// The sides that a file is for.
fn read_environment(found: Option<&Json>) -> (r: Result<Option<Environment>, DecodeError>)
    ensures
        r == environment_of(found_view(found)),
{
    match found {
        None => Ok(None),
        Some(Json::Null) => Ok(None),
        Some(Json::Object(members)) => {
            proof {
                lemma_object_view(*members);
            }
            let client = match read_side(find_member(members, "client"), Field::Client) {
                Ok(env) => env,
                Err(e) => {
                    return Err(e);
                },
            };
            let server = match read_side(find_member(members, "server"), Field::Server) {
                Ok(env) => env,
                Err(e) => {
                    return Err(e);
                },
            };
            Ok(Some(Environment { client, server }))
        },
        Some(_) => Err(DecodeError::Mistyped(Field::Env)),
    }
}

/// The hashes of a file.
fn read_hashes(found: Option<&Json>) -> (r: Result<Hashes, DecodeError>)
    ensures
        match hashes_of(found_view(found)) {
            Ok(h) => r matches Ok(t) && t@ == h,
            Err(e) => r == Err::<Hashes, DecodeError>(e),
        },
{
    match found {
        None => Err(DecodeError::Missing(Field::Hashes)),
        Some(Json::Object(members)) => {
            proof {
                lemma_object_view(*members);
            }
            let sha1 = match read_text(find_member(members, "sha1"), Field::Sha1) {
                Ok(s) => s,
                Err(e) => {
                    return Err(e);
                },
            };
            let sha512 = match read_text(find_member(members, "sha512"), Field::Sha512) {
                Ok(s) => s,
                Err(e) => {
                    return Err(e);
                },
            };
            let ghost all = members_view(members@);
            let mut hashes = Hashes::new(sha1, sha512);
            let ghost start = hashes@;
            let mut i: usize = 0;
            while i < members.len()
                invariant
                    i <= members.len(),
                    all == members_view(members@),
                    found_view(found) == Some(JsonView::Object(all)),
                    text_of(member(all, "sha1"@), Field::Sha1) == Ok::<Seq<char>, DecodeError>(
                        start.sha1,
                    ),
                    text_of(member(all, "sha512"@), Field::Sha512) == Ok::<Seq<char>, DecodeError>(
                        start.sha512,
                    ),
                    extra_hashes(all.take(i as int)) == Ok::<
                        Seq<(Seq<char>, Seq<char>)>,
                        DecodeError,
                    >(hashes@.optional),
                    hashes@.sha1 == start.sha1,
                    hashes@.sha512 == start.sha512,
                decreases members.len() - i,
            {
                let ghost head = all.take(i + 1);
                assert(head.drop_last() =~= all.take(i as int));
                assert(head.last() == all[i as int]);
                assert(all[i as int] == (members[i as int].0@, members[i as int].1@));
                match &members[i].1 {
                    Json::Text(value) => {
                        hashes.insert(members[i].0.clone(), value.clone());
                    },
                    _ => {
                        if !(same_text(members[i].0.as_str(), "sha1") || same_text(
                            members[i].0.as_str(),
                            "sha512",
                        )) {
                            proof {
                                assert(!mandatory_hash(head.last().0));
                                assert(extra_hashes(head) == Err::<
                                    Seq<(Seq<char>, Seq<char>)>,
                                    DecodeError,
                                >(DecodeError::Mistyped(Field::ExtraHash)));
                                lemma_extra_hashes_error(all, i + 1);
                            }
                            return Err(DecodeError::Mistyped(Field::ExtraHash));
                        }
                    },
                }
                i += 1;
            }
            assert(all.take(i as int) =~= all);
            Ok(hashes)
        },
        Some(_) => Err(DecodeError::Mistyped(Field::Hashes)),
    }
}

/// What is wrong with the first `n` of `members` as further hashes is
/// wrong with all of them.
proof fn lemma_extra_hashes_error(members: Seq<(Seq<char>, JsonView)>, n: int)
    requires
        0 <= n <= members.len(),
        extra_hashes(members.take(n)) is Err,
    ensures
        extra_hashes(members) == extra_hashes(members.take(n)),
    decreases members.len() - n,
{
    if n == members.len() {
        assert(members.take(n) =~= members);
    } else {
        assert(members.take(n + 1).drop_last() =~= members.take(n));
        lemma_extra_hashes_error(members, n + 1);
    }
}

/// What is wrong with the first `n` of `items` as files is wrong with all
/// of them.
proof fn lemma_files_error(items: Seq<JsonView>, n: int)
    requires
        0 <= n <= items.len(),
        files_of(items.take(n)) is Err,
    ensures
        files_of(items) == files_of(items.take(n)),
    decreases items.len() - n,
{
    if n == items.len() {
        assert(items.take(n) =~= items);
    } else {
        assert(items.take(n + 1).drop_last() =~= items.take(n));
        lemma_files_error(items, n + 1);
    }
}

/// What is wrong with the first `n` of `members` as components is wrong
/// with all of them.
proof fn lemma_dependencies_error(members: Seq<(Seq<char>, JsonView)>, n: int)
    requires
        0 <= n <= members.len(),
        dependencies_of(members.take(n)) is Err,
    ensures
        dependencies_of(members) == dependencies_of(members.take(n)),
    decreases members.len() - n,
{
    if n == members.len() {
        assert(members.take(n) =~= members);
    } else {
        assert(members.take(n + 1).drop_last() =~= members.take(n));
        lemma_dependencies_error(members, n + 1);
    }
}

impl File {
    /// Reads a file from the document that describes it.
    pub fn from_json(json: &Json) -> (r: Result<File, DecodeError>)
        ensures
            match file_of(json@) {
                Ok(f) => r matches Ok(t) && t@ == f,
                Err(e) => r == Err::<File, DecodeError>(e),
            },
    {
        match json {
            Json::Object(members) => {
                proof {
                    lemma_object_view(*members);
                }
                let path = match read_text(find_member(members, "path"), Field::Path) {
                    Ok(s) => s,
                    Err(e) => {
                        return Err(e);
                    },
                };
                let hashes = match read_hashes(find_member(members, "hashes")) {
                    Ok(h) => h,
                    Err(e) => {
                        return Err(e);
                    },
                };
                let env = match read_environment(find_member(members, "env")) {
                    Ok(e) => e,
                    Err(e) => {
                        return Err(e);
                    },
                };
                let downloads = match read_texts(
                    find_member(members, "downloads"),
                    Field::Downloads,
                ) {
                    Ok(d) => d,
                    Err(e) => {
                        return Err(e);
                    },
                };
                let file_size = match read_unsigned(
                    find_member(members, "fileSize"),
                    Field::FileSize,
                ) {
                    Ok(n) => n,
                    Err(e) => {
                        return Err(e);
                    },
                };
                Ok(File { path, hashes, env, downloads, file_size })
            },
            _ => Err(DecodeError::Mistyped(Field::File)),
        }
    }
}

/// The files that the field `files` holds.
fn read_files(found: Option<&Json>) -> (r: Result<Vec<File>, DecodeError>)
    ensures
        match file_list_of(found_view(found)) {
            Ok(f) => r matches Ok(t) && file_views(t@) == f,
            Err(e) => r == Err::<Vec<File>, DecodeError>(e),
        },
{
    match found {
        None => Err(DecodeError::Missing(Field::Files)),
        Some(Json::Array(items)) => {
            proof {
                lemma_array_view(*items);
            }
            let ghost all = items_view(items@);
            let mut out: Vec<File> = Vec::new();
            let mut i: usize = 0;
            assert(file_views(out@) =~= Seq::empty());
            while i < items.len()
                invariant
                    i <= items.len(),
                    all == items_view(items@),
                    found_view(found) == Some(JsonView::Array(all)),
                    files_of(all.take(i as int)) == Ok::<Seq<FileView>, DecodeError>(
                        file_views(out@),
                    ),
                decreases items.len() - i,
            {
                let ghost head = all.take(i + 1);
                let ghost before = file_views(out@);
                assert(head.drop_last() =~= all.take(i as int));
                assert(head.last() == items[i as int]@);
                match File::from_json(&items[i]) {
                    Ok(file) => {
                        let ghost one = file@;
                        out.push(file);
                        assert(file_views(out@) =~= before.push(one));
                    },
                    Err(e) => {
                        proof {
                            lemma_files_error(all, i + 1);
                        }
                        return Err(e);
                    },
                }
                i += 1;
            }
            assert(all.take(i as int) =~= all);
            Ok(out)
        },
        Some(_) => Err(DecodeError::Mistyped(Field::Files)),
    }
}

/// The components that the field `dependencies` holds.
fn read_dependencies(found: Option<&Json>) -> (r: Result<Dependencies, DecodeError>)
    ensures
        match dependency_map_of(found_view(found)) {
            Ok(d) => r matches Ok(t) && t@ == d,
            Err(e) => r == Err::<Dependencies, DecodeError>(e),
        },
{
    match found {
        None => Err(DecodeError::Missing(Field::Dependencies)),
        Some(Json::Object(members)) => {
            proof {
                lemma_object_view(*members);
            }
            let ghost all = members_view(members@);
            let mut out = Dependencies::new();
            let mut i: usize = 0;
            while i < members.len()
                invariant
                    i <= members.len(),
                    all == members_view(members@),
                    found_view(found) == Some(JsonView::Object(all)),
                    dependencies_of(all.take(i as int)) == Ok::<
                        Map<Dependency, Seq<char>>,
                        DecodeError,
                    >(out@),
                decreases members.len() - i,
            {
                let ghost head = all.take(i + 1);
                assert(head.drop_last() =~= all.take(i as int));
                assert(head.last() == (members[i as int].0@, members[i as int].1@));
                match (dependency_from_tag(members[i].0.as_str()), &members[i].1) {
                    (Some(kind), Json::Text(version)) => {
                        out.insert(kind, version.clone());
                    },
                    _ => {
                        proof {
                            lemma_dependencies_error(all, i + 1);
                        }
                        return Err(DecodeError::Mistyped(Field::Dependencies));
                    },
                }
                i += 1;
            }
            assert(all.take(i as int) =~= all);
            Ok(out)
        },
        Some(_) => Err(DecodeError::Mistyped(Field::Dependencies)),
    }
}

/// The game that the field `game` names.
fn read_game(found: Option<&Json>) -> (r: Result<GameType, DecodeError>)
    ensures
        r == game_of(found_view(found)),
{
    let tag = match read_text(found, Field::Game) {
        Ok(tag) => tag,
        Err(e) => {
            return Err(e);
        },
    };
    match game_from_tag(tag.as_str()) {
        Some(game) => Ok(game),
        None => Err(DecodeError::Mistyped(Field::Game)),
    }
}

impl Modpack {
    /// Reads a pack from the document of its manifest. The pack comes
    /// without literal files.
    pub fn from_json(json: &Json) -> (r: Result<Modpack, DecodeError>)
        ensures
            match manifest_of(json@) {
                Ok(m) => r matches Ok(t) && t@ == m,
                Err(e) => r == Err::<Modpack, DecodeError>(e),
            },
    {
        match json {
            Json::Object(members) => {
                proof {
                    lemma_object_view(*members);
                }
                let format_version = match read_unsigned(
                    find_member(members, "formatVersion"),
                    Field::FormatVersion,
                ) {
                    Ok(n) => n,
                    Err(e) => {
                        return Err(e);
                    },
                };
                let game = match read_game(find_member(members, "game")) {
                    Ok(g) => g,
                    Err(e) => {
                        return Err(e);
                    },
                };
                let version_id = match read_text(
                    find_member(members, "versionId"),
                    Field::VersionId,
                ) {
                    Ok(s) => s,
                    Err(e) => {
                        return Err(e);
                    },
                };
                let name = match read_text(find_member(members, "name"), Field::Name) {
                    Ok(s) => s,
                    Err(e) => {
                        return Err(e);
                    },
                };
                let summary = match read_optional_text(
                    find_member(members, "summary"),
                    Field::Summary,
                ) {
                    Ok(s) => s,
                    Err(e) => {
                        return Err(e);
                    },
                };
                let files = match read_files(find_member(members, "files")) {
                    Ok(f) => f,
                    Err(e) => {
                        return Err(e);
                    },
                };
                let dependencies = match read_dependencies(find_member(members, "dependencies")) {
                    Ok(d) => d,
                    Err(e) => {
                        return Err(e);
                    },
                };
                Ok(
                    Modpack {
                        format_version,
                        game,
                        version_id,
                        name,
                        summary,
                        files,
                        dependencies,
                        filesystem: Overrides::new(),
                        client_filesystem: Overrides::new(),
                        server_filesystem: Overrides::new(),
                    },
                )
            },
            _ => Err(DecodeError::Mistyped(Field::Root)),
        }
    }

    /// Reads a pack from the text of its manifest. The pack comes without
    /// literal files.
    ///
    /// Text that is no JSON document gives [`DecodeError::Syntax`].
    pub fn from_json_text(text: &[u8]) -> (r: Result<Modpack, DecodeError>)
        ensures
            match manifest_of_text(text@) {
                Ok(m) => r matches Ok(t) && t@ == m,
                Err(e) => r == Err::<Modpack, DecodeError>(e),
            },
    {
        match Json::parse(text) {
            Some(json) => Modpack::from_json(&json),
            None => Err(DecodeError::Syntax),
        }
    }
}

} // verus!
