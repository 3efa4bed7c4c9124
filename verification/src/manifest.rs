//! The manifest of a pack: what `modrinth.index.json` holds.

use crate::error::Error;
use crate::overrides::Overrides;
use crate::text::{
    keeps_order, keys_in_order, lemma_insert_in_order, lemma_one_place,
    lemma_precedes_irreflexive, lemma_precedes_total, lemma_precedes_transitive, precedes,
    same_text, text_precedes,
};
use vstd::prelude::*;

verus! {

/// The game that a pack is for.
#[derive(Clone, Copy, Debug, PartialEq, Eq, Structural)]
pub enum GameType {
    Minecraft,
}

/// How a file stands to one side, the client or the server.
#[derive(Clone, Copy, Debug, PartialEq, Eq, Structural)]
pub enum Env {
    Required,
    Optional,
    Unsupported,
}

/// How a file stands to the client and to the server.
#[derive(Clone, Copy, Debug, PartialEq, Eq, Structural)]
pub struct Environment {
    pub client: Env,
    pub server: Env,
}

/// A component that a pack depends on, with the game itself among them.
#[derive(Clone, Copy, Debug, PartialEq, Eq, PartialOrd, Ord, Structural)]
pub enum Dependency {
    Minecraft,
    Forge,
    Neoforge,
    FabricLoader,
    QuiltLoader,
}

/// What contracts say of a [`Hashes`].
pub struct HashesView {
    pub sha1: Seq<char>,
    pub sha512: Seq<char>,
    /// Further hashes, each under the name of its algorithm.
    pub optional: Seq<(Seq<char>, Seq<char>)>,
}

/// Whether `name` is one of the two hashes that every file carries.
pub open spec fn mandatory_hash(name: Seq<char>) -> bool {
    name == "sha1"@ || name == "sha512"@
}

/// Whether `i` is a place in `pairs` that holds `name`.
pub open spec fn named_at(pairs: Seq<(Seq<char>, Seq<char>)>, name: Seq<char>, i: int) -> bool {
    0 <= i < pairs.len() && pairs[i].0 == name
}

/// `pairs` with `value` under `name`: in the place where `name` stood
/// before, or in the place that keeps the order of the names where it did
/// not.
pub open spec fn upsert(
    pairs: Seq<(Seq<char>, Seq<char>)>,
    name: Seq<char>,
    value: Seq<char>,
) -> Seq<(Seq<char>, Seq<char>)> {
    if exists|i: int| named_at(pairs, name, i) {
        pairs.update(choose|i: int| named_at(pairs, name, i), (name, value))
    } else {
        pairs.insert(choose|i: int| keeps_order(pairs, name, i), (name, value))
    }
}

impl HashesView {
    /// No further hash stands under a mandatory name, and the names stand
    /// in the order of the dictionary, so that none stands twice.
    pub open spec fn well_formed(self) -> bool {
        &&& forall|i: int|
            0 <= i < self.optional.len() ==> !mandatory_hash(#[trigger] self.optional[i].0)
        &&& keys_in_order(self.optional)
    }
}

/// What contracts say of a list of pairs of strings.
pub open spec fn pairs_view(pairs: Seq<(String, String)>) -> Seq<(Seq<char>, Seq<char>)> {
    Seq::new(pairs.len(), |i: int| (pairs[i].0@, pairs[i].1@))
}

/// The hashes of a file: SHA-1 and SHA-512 always, others as the producer
/// chose to add them, kept in the order of their names.
#[derive(Debug, PartialEq, Eq)]
pub struct Hashes {
    sha1: String,
    sha512: String,
    optional: Vec<(String, String)>,
}

impl View for Hashes {
    type V = HashesView;

    closed spec fn view(&self) -> HashesView {
        HashesView {
            sha1: self.sha1@,
            sha512: self.sha512@,
            optional: pairs_view(self.optional@),
        }
    }
}

impl Hashes {
    /// What holds of every value of this type.
    #[verifier::type_invariant]
    pub open spec fn valid(&self) -> bool {
        self@.well_formed()
    }

    /// The two mandatory hashes, and no other.
    pub fn new(sha1: String, sha512: String) -> (r: Hashes)
        ensures
            r@ == (HashesView { sha1: sha1@, sha512: sha512@, optional: Seq::empty() }),
    {
        let r = Hashes { sha1, sha512, optional: Vec::new() };
        assert(r@.optional =~= Seq::empty());
        r
    }

    pub fn sha1(&self) -> (r: &String)
        ensures
            r@ == self@.sha1,
    {
        &self.sha1
    }

    pub fn sha512(&self) -> (r: &String)
        ensures
            r@ == self@.sha512,
    {
        &self.sha512
    }

    /// The number of further hashes.
    pub fn optional_len(&self) -> (n: usize)
        ensures
            n == self@.optional.len(),
    {
        self.optional.len()
    }

    /// The further hash at place `i`: its name and its value.
    pub fn optional_at(&self, i: usize) -> (r: (&String, &String))
        requires
            i < self@.optional.len(),
        ensures
            r.0@ == self@.optional[i as int].0,
            r.1@ == self@.optional[i as int].1,
    {
        (&self.optional[i].0, &self.optional[i].1)
    }

    /// Puts `value` under `name` among the further hashes and says `true`;
    /// a mandatory name is refused with `false`, and nothing changes.
    pub fn insert(&mut self, name: String, value: String) -> (done: bool)
        ensures
            done == !mandatory_hash(name@),
            done ==> final(self)@ == (HashesView {
                optional: upsert(old(self)@.optional, name@, value@),
                ..old(self)@
            }),
            !done ==> final(self)@ == old(self)@,
    {
        proof {
            use_type_invariant(&*self);
        }
        if same_text(name.as_str(), "sha1") || same_text(name.as_str(), "sha512") {
            return false;
        }
        let ghost before = self@.optional;
        let mut pairs: Vec<(String, String)> = Vec::new();
        std::mem::swap(&mut self.optional, &mut pairs);
        let mut i: usize = pairs.len();
        while i > 0 && text_precedes(name.as_str(), pairs[i - 1].0.as_str())
            invariant
                i <= pairs.len(),
                pairs_view(pairs@) == before,
                forall|j: int| i <= j < before.len() ==> precedes(name@, (#[trigger] before[j]).0),
            decreases i,
        {
            i -= 1;
        }
        if i > 0 && same_text(pairs[i - 1].0.as_str(), name.as_str()) {
            proof {
                assert(named_at(before, name@, i - 1));
                let c = choose|k: int| named_at(before, name@, k);
                lemma_precedes_irreflexive(name@);
                assert(c == i - 1);
            }
            pairs.set(i - 1, (name, value));
            proof {
                let after = pairs_view(pairs@);
                assert(after =~= upsert(before, name@, value@));
                assert forall|a: int| 0 <= a < after.len() implies !mandatory_hash(
                    #[trigger] after[a].0,
                ) by {
                    assert(after[a].0 == before[a].0);
                }
                assert forall|a: int, b: int| 0 <= a < b < after.len() implies precedes(
                    #[trigger] after[a].0,
                    #[trigger] after[b].0,
                ) by {
                    assert(after[a].0 == before[a].0 && after[b].0 == before[b].0);
                }
            }
        } else {
            proof {
                lemma_precedes_irreflexive(name@);
                assert forall|j: int| 0 <= j < i implies precedes(
                    (#[trigger] before[j]).0,
                    name@,
                ) by {
                    lemma_precedes_total(before[i - 1].0, name@);
                    if j < i - 1 {
                        lemma_precedes_transitive(before[j].0, before[i - 1].0, name@);
                    }
                }
                assert(keeps_order(before, name@, i as int));
                assert forall|j: int| !#[trigger] named_at(before, name@, j) by {
                    if named_at(before, name@, j) {
                        assert(precedes(before[j].0, name@) || precedes(name@, before[j].0));
                    }
                }
                lemma_one_place(
                    before,
                    name@,
                    i as int,
                    choose|k: int| keeps_order(before, name@, k),
                );
                lemma_insert_in_order(before, name@, value@, i as int);
            }
            pairs.insert(i, (name, value));
            proof {
                let after = pairs_view(pairs@);
                assert(after =~= before.insert(i as int, (name@, value@)));
                assert forall|a: int| 0 <= a < after.len() implies !mandatory_hash(
                    #[trigger] after[a].0,
                ) by {
                    if a < i {
                        assert(after[a] == before[a]);
                    } else if a > i {
                        assert(after[a] == before[a - 1]);
                    }
                }
            }
        }
        std::mem::swap(&mut self.optional, &mut pairs);
        true
    }
}

/// The components that a pack depends on, each with its version: at most
/// one version of a component.
#[derive(Debug, PartialEq, Eq)]
pub struct Dependencies {
    minecraft: Option<String>,
    forge: Option<String>,
    neoforge: Option<String>,
    fabric_loader: Option<String>,
    quilt_loader: Option<String>,
}

/// What contracts say of a string that may be missing.
pub open spec fn optional_text(s: Option<String>) -> Option<Seq<char>> {
    match s {
        Some(s) => Some(s@),
        None => None,
    }
}

impl Dependencies {
    closed spec fn slot(&self, kind: Dependency) -> Option<Seq<char>> {
        match kind {
            Dependency::Minecraft => optional_text(self.minecraft),
            Dependency::Forge => optional_text(self.forge),
            Dependency::Neoforge => optional_text(self.neoforge),
            Dependency::FabricLoader => optional_text(self.fabric_loader),
            Dependency::QuiltLoader => optional_text(self.quilt_loader),
        }
    }

    /// No component at all.
    pub fn new() -> (r: Dependencies)
        ensures
            r@ == Map::<Dependency, Seq<char>>::empty(),
    {
        let r = Dependencies {
            minecraft: None,
            forge: None,
            neoforge: None,
            fabric_loader: None,
            quilt_loader: None,
        };
        assert(r@ =~= Map::empty());
        r
    }

    /// The version of `kind`, if the pack depends on it.
    pub fn get(&self, kind: Dependency) -> (r: Option<&String>)
        ensures
            match r {
                Some(v) => self@.contains_key(kind) && self@[kind] == v@,
                None => !self@.contains_key(kind),
            },
    {
        match kind {
            Dependency::Minecraft => self.minecraft.as_ref(),
            Dependency::Forge => self.forge.as_ref(),
            Dependency::Neoforge => self.neoforge.as_ref(),
            Dependency::FabricLoader => self.fabric_loader.as_ref(),
            Dependency::QuiltLoader => self.quilt_loader.as_ref(),
        }
    }

    /// Sets the version of `kind`, in place of the one it had, if any.
    pub fn insert(&mut self, kind: Dependency, version: String)
        ensures
            final(self)@ == old(self)@.insert(kind, version@),
    {
        let ghost before = self@;
        let ghost text = version@;
        match kind {
            Dependency::Minecraft => {
                self.minecraft = Some(version);
            },
            Dependency::Forge => {
                self.forge = Some(version);
            },
            Dependency::Neoforge => {
                self.neoforge = Some(version);
            },
            Dependency::FabricLoader => {
                self.fabric_loader = Some(version);
            },
            Dependency::QuiltLoader => {
                self.quilt_loader = Some(version);
            },
        }
        assert(self@ =~= before.insert(kind, text));
    }
}

impl View for Dependencies {
    type V = Map<Dependency, Seq<char>>;

    closed spec fn view(&self) -> Map<Dependency, Seq<char>> {
        Map::new(|kind: Dependency| self.slot(kind) is Some, |kind: Dependency| self.slot(kind)->0)
    }
}

/// What contracts say of a list of strings.
pub open spec fn texts_view(texts: Seq<String>) -> Seq<Seq<char>> {
    Seq::new(texts.len(), |i: int| texts[i]@)
}

/// What contracts say of a [`File`].
pub struct FileView {
    pub path: Seq<char>,
    pub hashes: HashesView,
    pub env: Option<Environment>,
    pub downloads: Seq<Seq<char>>,
    pub file_size: u64,
}

/// A file that a launcher downloads when it installs the pack.
#[derive(Debug, PartialEq, Eq)]
pub struct File {
    /// Where the file goes, from the install root: `mods/MyMod.jar`.
    pub path: String,
    /// The hashes of the file.
    pub hashes: Hashes,
    /// The sides that the file is for; `None` where it is for both.
    pub env: Option<Environment>,
    /// The addresses from which the file can be had.
    pub downloads: Vec<String>,
    /// The size of the file in bytes.
    pub file_size: u64,
}

impl View for File {
    type V = FileView;

    open spec fn view(&self) -> FileView {
        FileView {
            path: self.path@,
            hashes: self.hashes@,
            env: self.env,
            downloads: texts_view(self.downloads@),
            file_size: self.file_size,
        }
    }
}

/// What contracts say of a list of files.
pub open spec fn file_views(files: Seq<File>) -> Seq<FileView> {
    Seq::new(files.len(), |i: int| files[i]@)
}

/// What contracts say of a [`Modpack`].
pub struct ModpackView {
    pub format_version: u64,
    pub game: GameType,
    pub version_id: Seq<char>,
    pub name: Seq<char>,
    pub summary: Option<Seq<char>>,
    pub files: Seq<FileView>,
    pub dependencies: Map<Dependency, Seq<char>>,
    pub filesystem: Seq<(Seq<char>, Seq<u8>)>,
    pub client_filesystem: Seq<(Seq<char>, Seq<u8>)>,
    pub server_filesystem: Seq<(Seq<char>, Seq<u8>)>,
}

/// A pack: its manifest, and the literal files that come with it.
#[derive(Debug, PartialEq, Eq)]
pub struct Modpack {
    /// The version of the format; 1 at the time of writing.
    pub format_version: u64,
    /// The game that the pack is for.
    pub game: GameType,
    /// What tells this version of the pack from its others.
    pub version_id: String,
    /// The name of the pack, for people to read.
    pub name: String,
    /// A short description of the pack.
    pub summary: Option<String>,
    /// The files to download.
    pub files: Vec<File>,
    /// What a launcher has to install for the pack to run.
    pub dependencies: Dependencies,
    /// The files to unpack as they are, on the client and on the server.
    pub filesystem: Overrides,
    /// The files to unpack as they are on the client alone.
    pub client_filesystem: Overrides,
    /// The files to unpack as they are on the server alone.
    pub server_filesystem: Overrides,
}

impl View for Modpack {
    type V = ModpackView;

    open spec fn view(&self) -> ModpackView {
        ModpackView {
            format_version: self.format_version,
            game: self.game,
            version_id: self.version_id@,
            name: self.name@,
            summary: optional_text(self.summary),
            files: file_views(self.files@),
            dependencies: self.dependencies@,
            filesystem: self.filesystem@,
            client_filesystem: self.client_filesystem@,
            server_filesystem: self.server_filesystem@,
        }
    }
}

impl Modpack {
    /// Whether a resolver stands behind this pack. To fetch what a manifest
    /// names is the work of a launcher, which this library is not: none
    /// ever does.
    pub open spec fn resolvable(&self) -> bool {
        false
    }

    /// Would fetch the files of the pack into the directory `path`. No
    /// pack meets what this asks of it, so no verified caller can reach
    /// it; an unverified one stops here.
    pub fn resolve(&self, path: &str) -> (r: Result<(), Error>)
        requires
            self.resolvable(),
    {
        vstd::pervasive::unreached()
    }
}

} // verus!
