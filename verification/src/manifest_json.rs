//! The manifest as a JSON document: what stands for what.
//!
//! Field names are in lower camel case, the tags of [`Dependency`] in kebab
//! case, those of [`Env`] and [`GameType`] in lower case. A member under a
//! name that the format does not know is passed over, but among the hashes,
//! where it is kept as a further hash. A key that stands twice in an object
//! counts where it stands last.

use crate::error::{DecodeError, Field};
use crate::json::{member, JsonView};
use crate::json_text::parsed;
use crate::manifest::{
    mandatory_hash, upsert, Dependency, Env, Environment, FileView, GameType, HashesView,
    ModpackView,
};
use vstd::prelude::*;

verus! {

/// The tag that stands for `game`.
pub open spec fn game_tag(game: GameType) -> Seq<char> {
    match game {
        GameType::Minecraft => "minecraft"@,
    }
}

/// The game that `tag` stands for, if it stands for one.
pub open spec fn game_of_tag(tag: Seq<char>) -> Option<GameType> {
    if tag == "minecraft"@ {
        Some(GameType::Minecraft)
    } else {
        None
    }
}

/// The tag that stands for `env`.
pub open spec fn env_tag(env: Env) -> Seq<char> {
    match env {
        Env::Required => "required"@,
        Env::Optional => "optional"@,
        Env::Unsupported => "unsupported"@,
    }
}

/// The value that `tag` stands for, if it stands for one.
pub open spec fn env_of_tag(tag: Seq<char>) -> Option<Env> {
    if tag == "required"@ {
        Some(Env::Required)
    } else if tag == "optional"@ {
        Some(Env::Optional)
    } else if tag == "unsupported"@ {
        Some(Env::Unsupported)
    } else {
        None
    }
}

/// The tag that stands for `kind`.
pub open spec fn dependency_tag(kind: Dependency) -> Seq<char> {
    match kind {
        Dependency::Minecraft => "minecraft"@,
        Dependency::Forge => "forge"@,
        Dependency::Neoforge => "neoforge"@,
        Dependency::FabricLoader => "fabric-loader"@,
        Dependency::QuiltLoader => "quilt-loader"@,
    }
}

/// The component that `tag` stands for, if it stands for one.
pub open spec fn dependency_of_tag(tag: Seq<char>) -> Option<Dependency> {
    if tag == "minecraft"@ {
        Some(Dependency::Minecraft)
    } else if tag == "forge"@ {
        Some(Dependency::Forge)
    } else if tag == "neoforge"@ {
        Some(Dependency::Neoforge)
    } else if tag == "fabric-loader"@ {
        Some(Dependency::FabricLoader)
    } else if tag == "quilt-loader"@ {
        Some(Dependency::QuiltLoader)
    } else {
        None
    }
}

/// The string that the field `field` holds, where `found` is what stands
/// under its name.
pub open spec fn text_of(found: Option<JsonView>, field: Field) -> Result<Seq<char>, DecodeError> {
    match found {
        None => Err(DecodeError::Missing(field)),
        Some(JsonView::Text(s)) => Ok(s),
        Some(_) => Err(DecodeError::Mistyped(field)),
    }
}

/// The number that the field `field` holds.
pub open spec fn unsigned_of(found: Option<JsonView>, field: Field) -> Result<u64, DecodeError> {
    match found {
        None => Err(DecodeError::Missing(field)),
        Some(JsonView::Unsigned(n)) => Ok(n),
        Some(_) => Err(DecodeError::Mistyped(field)),
    }
}

/// The string that the field `field` holds, if it holds one: the field may
/// be missing, or hold `null`.
pub open spec fn optional_text_of(found: Option<JsonView>, field: Field) -> Result<
    Option<Seq<char>>,
    DecodeError,
> {
    match found {
        None => Ok(None),
        Some(JsonView::Null) => Ok(None),
        Some(JsonView::Text(s)) => Ok(Some(s)),
        Some(_) => Err(DecodeError::Mistyped(field)),
    }
}

/// The strings that the field `field` holds, which must be an array of
/// strings.
pub open spec fn texts_of(found: Option<JsonView>, field: Field) -> Result<
    Seq<Seq<char>>,
    DecodeError,
> {
    match found {
        None => Err(DecodeError::Missing(field)),
        Some(JsonView::Array(items)) => if forall|i: int|
            0 <= i < items.len() ==> #[trigger] items[i] is Text {
            Ok(Seq::new(items.len(), |i: int| items[i]->Text_0))
        } else {
            Err(DecodeError::Mistyped(field))
        },
        Some(_) => Err(DecodeError::Mistyped(field)),
    }
}

/// How a file stands to one side.
pub open spec fn side_of(found: Option<JsonView>, field: Field) -> Result<Env, DecodeError> {
    match text_of(found, field) {
        Err(e) => Err(e),
        Ok(tag) => match env_of_tag(tag) {
            Some(env) => Ok(env),
            None => Err(DecodeError::Mistyped(field)),
        },
    }
}

/// The sides that a file is for: the field may be missing, or hold `null`.
pub open spec fn environment_of(found: Option<JsonView>) -> Result<
    Option<Environment>,
    DecodeError,
> {
    match found {
        None => Ok(None),
        Some(JsonView::Null) => Ok(None),
        Some(JsonView::Object(members)) => match side_of(
            member(members, "client"@),
            Field::Client,
        ) {
            Err(e) => Err(e),
            Ok(client) => match side_of(member(members, "server"@), Field::Server) {
                Err(e) => Err(e),
                Ok(server) => Ok(Some(Environment { client, server })),
            },
        },
        Some(_) => Err(DecodeError::Mistyped(Field::Env)),
    }
}

/// The further hashes among `members`: every member under another name
/// than the two mandatory ones, which must hold a string.
pub open spec fn extra_hashes(members: Seq<(Seq<char>, JsonView)>) -> Result<
    Seq<(Seq<char>, Seq<char>)>,
    DecodeError,
>
    decreases members.len(),
{
    if members.len() == 0 {
        Ok(Seq::empty())
    } else {
        match extra_hashes(members.drop_last()) {
            Err(e) => Err(e),
            Ok(found) => if mandatory_hash(members.last().0) {
                Ok(found)
            } else {
                match members.last().1 {
                    JsonView::Text(value) => Ok(upsert(found, members.last().0, value)),
                    _ => Err(DecodeError::Mistyped(Field::ExtraHash)),
                }
            },
        }
    }
}

/// The hashes of a file.
pub open spec fn hashes_of(found: Option<JsonView>) -> Result<HashesView, DecodeError> {
    match found {
        None => Err(DecodeError::Missing(Field::Hashes)),
        Some(JsonView::Object(members)) => match text_of(member(members, "sha1"@), Field::Sha1) {
            Err(e) => Err(e),
            Ok(sha1) => match text_of(member(members, "sha512"@), Field::Sha512) {
                Err(e) => Err(e),
                Ok(sha512) => match extra_hashes(members) {
                    Err(e) => Err(e),
                    Ok(optional) => Ok(HashesView { sha1, sha512, optional }),
                },
            },
        },
        Some(_) => Err(DecodeError::Mistyped(Field::Hashes)),
    }
}

/// The file that `json` describes.
pub open spec fn file_of(json: JsonView) -> Result<FileView, DecodeError> {
    match json {
        JsonView::Object(members) => match text_of(member(members, "path"@), Field::Path) {
            Err(e) => Err(e),
            Ok(path) => match hashes_of(member(members, "hashes"@)) {
                Err(e) => Err(e),
                Ok(hashes) => match environment_of(member(members, "env"@)) {
                    Err(e) => Err(e),
                    Ok(env) => match texts_of(member(members, "downloads"@), Field::Downloads) {
                        Err(e) => Err(e),
                        Ok(downloads) => match unsigned_of(
                            member(members, "fileSize"@),
                            Field::FileSize,
                        ) {
                            Err(e) => Err(e),
                            Ok(file_size) => Ok(
                                FileView { path, hashes, env, downloads, file_size },
                            ),
                        },
                    },
                },
            },
        },
        _ => Err(DecodeError::Mistyped(Field::File)),
    }
}

/// The files that `items` describe, or what is wrong with the first of
/// them that is not a file.
pub open spec fn files_of(items: Seq<JsonView>) -> Result<Seq<FileView>, DecodeError>
    decreases items.len(),
{
    if items.len() == 0 {
        Ok(Seq::empty())
    } else {
        match files_of(items.drop_last()) {
            Err(e) => Err(e),
            Ok(files) => match file_of(items.last()) {
                Err(e) => Err(e),
                Ok(file) => Ok(files.push(file)),
            },
        }
    }
}

/// The components that `members` name, each with its version.
pub open spec fn dependencies_of(members: Seq<(Seq<char>, JsonView)>) -> Result<
    Map<Dependency, Seq<char>>,
    DecodeError,
>
    decreases members.len(),
{
    if members.len() == 0 {
        Ok(Map::empty())
    } else {
        match dependencies_of(members.drop_last()) {
            Err(e) => Err(e),
            Ok(found) => match (dependency_of_tag(members.last().0), members.last().1) {
                (Some(kind), JsonView::Text(version)) => Ok(found.insert(kind, version)),
                _ => Err(DecodeError::Mistyped(Field::Dependencies)),
            },
        }
    }
}

/// The game that the field `game` names.
pub open spec fn game_of(found: Option<JsonView>) -> Result<GameType, DecodeError> {
    match text_of(found, Field::Game) {
        Err(e) => Err(e),
        Ok(tag) => match game_of_tag(tag) {
            Some(game) => Ok(game),
            None => Err(DecodeError::Mistyped(Field::Game)),
        },
    }
}

/// The files that the field `files` holds.
pub open spec fn file_list_of(found: Option<JsonView>) -> Result<Seq<FileView>, DecodeError> {
    match found {
        None => Err(DecodeError::Missing(Field::Files)),
        Some(JsonView::Array(items)) => files_of(items),
        Some(_) => Err(DecodeError::Mistyped(Field::Files)),
    }
}

/// The components that the field `dependencies` holds.
pub open spec fn dependency_map_of(found: Option<JsonView>) -> Result<
    Map<Dependency, Seq<char>>,
    DecodeError,
> {
    match found {
        None => Err(DecodeError::Missing(Field::Dependencies)),
        Some(JsonView::Object(members)) => dependencies_of(members),
        Some(_) => Err(DecodeError::Mistyped(Field::Dependencies)),
    }
}

/// The pack that the document `json` describes, without literal files: as
/// far as the format goes, or what is wrong with the first field that does
/// not fit it. The fields are taken in the order in which [`Modpack`] and
/// [`File`] declare them.
pub open spec fn manifest_of(json: JsonView) -> Result<ModpackView, DecodeError> {
    match json {
        JsonView::Object(members) => match unsigned_of(
            member(members, "formatVersion"@),
            Field::FormatVersion,
        ) {
            Err(e) => Err(e),
            Ok(format_version) => match game_of(member(members, "game"@)) {
                Err(e) => Err(e),
                Ok(game) => match text_of(member(members, "versionId"@), Field::VersionId) {
                    Err(e) => Err(e),
                    Ok(version_id) => match text_of(member(members, "name"@), Field::Name) {
                        Err(e) => Err(e),
                        Ok(name) => match optional_text_of(
                            member(members, "summary"@),
                            Field::Summary,
                        ) {
                            Err(e) => Err(e),
                            Ok(summary) => match file_list_of(member(members, "files"@)) {
                                Err(e) => Err(e),
                                Ok(files) => match dependency_map_of(
                                    member(members, "dependencies"@),
                                ) {
                                    Err(e) => Err(e),
                                    Ok(dependencies) => Ok(
                                        ModpackView {
                                            format_version,
                                            game,
                                            version_id,
                                            name,
                                            summary,
                                            files,
                                            dependencies,
                                            filesystem: Seq::empty(),
                                            client_filesystem: Seq::empty(),
                                            server_filesystem: Seq::empty(),
                                        },
                                    ),
                                },
                            },
                        },
                    },
                },
            },
        },
        _ => Err(DecodeError::Mistyped(Field::Root)),
    }
}

/// The pack that the text of a manifest describes.
pub open spec fn manifest_of_text(text: Seq<u8>) -> Result<ModpackView, DecodeError> {
    match parsed(text) {
        None => Err(DecodeError::Syntax),
        Some(json) => manifest_of(json),
    }
}

/// The array of the strings `texts`.
pub open spec fn text_items(texts: Seq<Seq<char>>) -> Seq<JsonView> {
    Seq::new(texts.len(), |i: int| JsonView::Text(texts[i]))
}

/// The document that stands for the sides of a file: `null` where the file
/// is for both.
pub open spec fn environment_json(env: Option<Environment>) -> JsonView {
    match env {
        None => JsonView::Null,
        Some(env) => JsonView::Object(
            seq![
                ("client"@, JsonView::Text(env_tag(env.client))),
                ("server"@, JsonView::Text(env_tag(env.server))),
            ],
        ),
    }
}

/// The members that stand for the further hashes `optional`.
pub open spec fn hash_members(optional: Seq<(Seq<char>, Seq<char>)>) -> Seq<
    (Seq<char>, JsonView),
> {
    Seq::new(optional.len(), |i: int| (optional[i].0, JsonView::Text(optional[i].1)))
}

/// The document that stands for the hashes of a file: the two mandatory
/// ones, then the others.
pub open spec fn hashes_json(hashes: HashesView) -> JsonView {
    JsonView::Object(
        seq![
            ("sha1"@, JsonView::Text(hashes.sha1)),
            ("sha512"@, JsonView::Text(hashes.sha512)),
        ] + hash_members(hashes.optional),
    )
}

/// The document that stands for a file.
pub open spec fn file_json(file: FileView) -> JsonView {
    JsonView::Object(
        seq![
            ("path"@, JsonView::Text(file.path)),
            ("hashes"@, hashes_json(file.hashes)),
            ("env"@, environment_json(file.env)),
            ("downloads"@, JsonView::Array(text_items(file.downloads))),
            ("fileSize"@, JsonView::Unsigned(file.file_size)),
        ],
    )
}

/// The documents that stand for `files`.
pub open spec fn files_json(files: Seq<FileView>) -> Seq<JsonView> {
    Seq::new(files.len(), |i: int| file_json(files[i]))
}

/// The member that stands for `kind` with its version, where `dependencies`
/// holds it.
pub open spec fn dependency_member(
    dependencies: Map<Dependency, Seq<char>>,
    kind: Dependency,
) -> Seq<(Seq<char>, JsonView)> {
    if dependencies.contains_key(kind) {
        seq![(dependency_tag(kind), JsonView::Text(dependencies[kind]))]
    } else {
        Seq::empty()
    }
}

/// The members that stand for `dependencies`, in the order in which
/// [`Dependency`] declares the components.
pub open spec fn dependency_members(dependencies: Map<Dependency, Seq<char>>) -> Seq<
    (Seq<char>, JsonView),
> {
    dependency_member(dependencies, Dependency::Minecraft) + dependency_member(
        dependencies,
        Dependency::Forge,
    ) + dependency_member(dependencies, Dependency::Neoforge) + dependency_member(
        dependencies,
        Dependency::FabricLoader,
    ) + dependency_member(dependencies, Dependency::QuiltLoader)
}

/// The member that stands for the summary, where the pack has one.
pub open spec fn summary_member(summary: Option<Seq<char>>) -> Seq<(Seq<char>, JsonView)> {
    match summary {
        Some(s) => seq![("summary"@, JsonView::Text(s))],
        None => Seq::empty(),
    }
}

/// The document that stands for the manifest of `pack`.
pub open spec fn manifest_json(pack: ModpackView) -> JsonView {
    JsonView::Object(
        seq![
            ("formatVersion"@, JsonView::Unsigned(pack.format_version)),
            ("game"@, JsonView::Text(game_tag(pack.game))),
            ("versionId"@, JsonView::Text(pack.version_id)),
            ("name"@, JsonView::Text(pack.name)),
        ] + summary_member(pack.summary) + seq![
            ("files"@, JsonView::Array(files_json(pack.files))),
            ("dependencies"@, JsonView::Object(dependency_members(pack.dependencies))),
        ],
    )
}

} // verus!
