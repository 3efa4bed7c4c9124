//! Writing the manifest as its JSON document.

use crate::error::Error;
use crate::json::{items_view, lemma_array_view, lemma_object_view, members_view, Json, JsonView};
use crate::json_text::{renderable, rendered};
use crate::manifest::{
    texts_view, Dependencies, Dependency, Env, Environment, File, GameType, Hashes, Modpack,
};
use crate::manifest_json::{
    dependency_member, dependency_members, dependency_tag, env_tag, environment_json, file_json,
    files_json, game_tag, hash_members, hashes_json, manifest_json, text_items,
};
use crate::manifest_laws::lemma_manifest_json_renderable;
use vstd::prelude::*;

verus! {

/// The tag that stands for `env`.
pub fn env_to_tag(env: Env) -> (r: &'static str)
    ensures
        r@ == env_tag(env),
{
    match env {
        Env::Required => "required",
        Env::Optional => "optional",
        Env::Unsupported => "unsupported",
    }
}

/// The tag that stands for `game`.
pub fn game_to_tag(game: GameType) -> (r: &'static str)
    ensures
        r@ == game_tag(game),
{
    match game {
        GameType::Minecraft => "minecraft",
    }
}

/// The tag that stands for `kind`.
pub fn dependency_to_tag(kind: Dependency) -> (r: &'static str)
    ensures
        r@ == dependency_tag(kind),
{
    match kind {
        Dependency::Minecraft => "minecraft",
        Dependency::Forge => "forge",
        Dependency::Neoforge => "neoforge",
        Dependency::FabricLoader => "fabric-loader",
        Dependency::QuiltLoader => "quilt-loader",
    }
}

/// The member that holds the string `value` under `key`.
fn text_member(key: &str, value: &str) -> (r: (String, Json))
    ensures
        r.0@ == key@,
        r.1@ == JsonView::Text(value@),
{
    (key.to_owned(), Json::Text(value.to_owned()))
}

/// The member that holds `value` under `key`.
fn member_of(key: &str, value: Json) -> (r: (String, Json))
    ensures
        r.0@ == key@,
        r.1 == value,
{
    (key.to_owned(), value)
}

/// The document that stands for the sides of a file.
fn environment_to_json(env: &Option<Environment>) -> (r: Json)
    ensures
        r@ == environment_json(*env),
{
    match env {
        None => Json::Null,
        Some(env) => {
            let mut members: Vec<(String, Json)> = Vec::new();
            members.push(text_member("client", env_to_tag(env.client)));
            members.push(text_member("server", env_to_tag(env.server)));
            proof {
                lemma_object_view(members);
                assert(members_view(members@) =~= environment_json(Some(*env))->Object_0);
            }
            Json::Object(members)
        },
    }
}

/// The array of the strings `texts`.
fn texts_to_json(texts: &Vec<String>) -> (r: Json)
    ensures
        r@ == JsonView::Array(text_items(texts_view(texts@))),
{
    let mut items: Vec<Json> = Vec::new();
    let mut i: usize = 0;
    while i < texts.len()
        invariant
            i <= texts.len(),
            items.len() == i,
            forall|j: int| 0 <= j < i ==> items[j]@ == JsonView::Text(texts[j]@),
        decreases texts.len() - i,
    {
        items.push(Json::Text(texts[i].clone()));
        i += 1;
    }
    proof {
        lemma_array_view(items);
        assert(items_view(items@) =~= text_items(texts_view(texts@)));
    }
    Json::Array(items)
}

impl Hashes {
    /// The document that stands for these hashes.
    pub fn to_json(&self) -> (r: Json)
        ensures
            r@ == hashes_json(self@),
    {
        let mut members: Vec<(String, Json)> = Vec::new();
        members.push(text_member("sha1", self.sha1().as_str()));
        members.push(text_member("sha512", self.sha512().as_str()));
        let n: usize = self.optional_len();
        let mut i: usize = 0;
        while i < n
            invariant
                i <= n,
                n == self@.optional.len(),
                members.len() == 2 + i,
                members[0].0@ == "sha1"@,
                members[0].1@ == JsonView::Text(self@.sha1),
                members[1].0@ == "sha512"@,
                members[1].1@ == JsonView::Text(self@.sha512),
                forall|j: int|
                    0 <= j < i ==> (members[2 + j].0@, members[2 + j].1@) == hash_members(
                        self@.optional,
                    )[j],
            decreases n - i,
        {
            let (name, value) = self.optional_at(i);
            members.push(text_member(name.as_str(), value.as_str()));
            i += 1;
        }
        proof {
            lemma_object_view(members);
            assert(members_view(members@) =~= hashes_json(self@)->Object_0);
        }
        Json::Object(members)
    }
}

impl File {
    /// The document that stands for this file.
    pub fn to_json(&self) -> (r: Json)
        ensures
            r@ == file_json(self@),
    {
        let mut members: Vec<(String, Json)> = Vec::new();
        members.push(text_member("path", self.path.as_str()));
        members.push(member_of("hashes", self.hashes.to_json()));
        members.push(member_of("env", environment_to_json(&self.env)));
        members.push(member_of("downloads", texts_to_json(&self.downloads)));
        members.push(member_of("fileSize", Json::Unsigned(self.file_size)));
        proof {
            lemma_object_view(members);
            assert(members_view(members@) =~= file_json(self@)->Object_0);
        }
        Json::Object(members)
    }
}

/// Puts the member that stands for `kind` behind `members`, where
/// `dependencies` holds it.
fn push_dependency(members: &mut Vec<(String, Json)>, dependencies: &Dependencies, kind: Dependency)
    ensures
        members_view(final(members)@) == members_view(old(members)@) + dependency_member(
            dependencies@,
            kind,
        ),
{
    let ghost before = members_view(members@);
    match dependencies.get(kind) {
        Some(version) => {
            members.push(text_member(dependency_to_tag(kind), version.as_str()));
        },
        None => {},
    }
    assert(members_view(members@) =~= before + dependency_member(dependencies@, kind));
}

impl Dependencies {
    /// The document that stands for these components.
    pub fn to_json(&self) -> (r: Json)
        ensures
            r@ == JsonView::Object(dependency_members(self@)),
    {
        let mut members: Vec<(String, Json)> = Vec::new();
        assert(members_view(members@) =~= Seq::empty());
        push_dependency(&mut members, self, Dependency::Minecraft);
        push_dependency(&mut members, self, Dependency::Forge);
        push_dependency(&mut members, self, Dependency::Neoforge);
        push_dependency(&mut members, self, Dependency::FabricLoader);
        push_dependency(&mut members, self, Dependency::QuiltLoader);
        proof {
            lemma_object_view(members);
            assert(members_view(members@) =~= dependency_members(self@));
        }
        Json::Object(members)
    }
}

impl Modpack {
    /// The document that stands for the manifest of this pack. The literal
    /// files are no part of it. It can be written down without loss.
    pub fn to_json(&self) -> (r: Json)
        ensures
            r@ == manifest_json(self@),
            renderable(r@),
    {
        let mut files: Vec<Json> = Vec::new();
        let mut i: usize = 0;
        while i < self.files.len()
            invariant
                i <= self.files.len(),
                files.len() == i,
                forall|j: int| 0 <= j < i ==> files[j]@ == file_json(self.files[j]@),
                forall|j: int| 0 <= j < i ==> (#[trigger] self.files[j])@.hashes.well_formed(),
            decreases self.files.len() - i,
        {
            let file = &self.files[i];
            proof {
                use_type_invariant(&file.hashes);
            }
            files.push(file.to_json());
            i += 1;
        }
        proof {
            lemma_array_view(files);
            assert(items_view(files@) =~= files_json(self@.files));
        }
        let mut members: Vec<(String, Json)> = Vec::new();
        members.push(member_of("formatVersion", Json::Unsigned(self.format_version)));
        members.push(text_member("game", game_to_tag(self.game)));
        members.push(text_member("versionId", self.version_id.as_str()));
        members.push(text_member("name", self.name.as_str()));
        match &self.summary {
            Some(summary) => {
                members.push(text_member("summary", summary.as_str()));
            },
            None => {},
        }
        members.push(member_of("files", Json::Array(files)));
        members.push(member_of("dependencies", self.dependencies.to_json()));
        proof {
            lemma_object_view(members);
            assert(members_view(members@) =~= manifest_json(self@)->Object_0);
            assert forall|j: int| 0 <= j < self@.files.len() implies (#[trigger] self@.files[
                j
            ]).hashes.well_formed() by {
                assert(self@.files[j] == self.files[j]@);
            }
            lemma_manifest_json_renderable(self@);
        }
        Json::Object(members)
    }

    /// The text of the manifest of this pack: on one line, or spread over
    /// lines with an indent of four spaces.
    ///
    /// Whether the text can be written is for the encoder to say: where it
    /// fails, the result is [`Error::ArchiveWrite`].
    pub fn to_json_text(&self, pretty: bool) -> (r: Result<Vec<u8>, Error>)
        ensures
            match rendered(manifest_json(self@), pretty) {
                Some(text) => r matches Ok(written) && written@ == text,
                None => r == Err::<Vec<u8>, Error>(Error::ArchiveWrite),
            },
    {
        match self.to_json().render(pretty) {
            Some(text) => Ok(text),
            None => Err(Error::ArchiveWrite),
        }
    }
}

} // verus!
