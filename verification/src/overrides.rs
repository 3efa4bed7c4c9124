//! The literal files of a pack: what lies under `overrides/`.

use crate::error::Error;
use crate::path::{file_path, is_file_path};
use crate::text::{
    chars_of, chars_precede, keeps_order, lemma_one_place, lemma_precedes_irreflexive,
    lemma_precedes_total, lemma_precedes_transitive, precedes, same_text,
};
use vstd::prelude::*;

verus! {

/// What contracts say of a list of files: each with its path and content.
pub open spec fn files_view(files: Seq<(String, Vec<u8>)>) -> Seq<(Seq<char>, Seq<u8>)> {
    Seq::new(files.len(), |i: int| (files[i].0@, files[i].1@))
}

/// Whether `i` is a place in `files` that holds `path`.
pub open spec fn path_at(files: Seq<(Seq<char>, Seq<u8>)>, path: Seq<char>, i: int) -> bool {
    0 <= i < files.len() && files[i].0 == path
}

/// Whether `files` holds a file under `path`.
pub open spec fn holds_path(files: Seq<(Seq<char>, Seq<u8>)>, path: Seq<char>) -> bool {
    exists|i: int| path_at(files, path, i)
}

/// The content under `path` in `files`, if there is one.
pub open spec fn content_of(files: Seq<(Seq<char>, Seq<u8>)>, path: Seq<char>) -> Option<Seq<u8>> {
    if holds_path(files, path) {
        Some(files[choose|i: int| path_at(files, path, i)].1)
    } else {
        None
    }
}

/// `files` with one more file, in the place that keeps their order.
pub open spec fn with_file(
    files: Seq<(Seq<char>, Seq<u8>)>,
    path: Seq<char>,
    content: Seq<u8>,
) -> Seq<(Seq<char>, Seq<u8>)> {
    files.insert(choose|i: int| keeps_order(files, path, i), (path, content))
}

/// Every path names a file below the install root, and the paths stand in
/// the order of the dictionary, so that none stands twice.
pub open spec fn tree_well_formed(files: Seq<(Seq<char>, Seq<u8>)>) -> bool {
    &&& forall|i: int| 0 <= i < files.len() ==> file_path(#[trigger] files[i].0)
    &&& forall|i: int, j: int|
        0 <= i < j < files.len() ==> precedes(#[trigger] files[i].0, #[trigger] files[j].0)
}

/// In a well-formed tree no path stands twice.
pub proof fn lemma_paths_differ(files: Seq<(Seq<char>, Seq<u8>)>)
    requires
        tree_well_formed(files),
    ensures
        forall|i: int, j: int|
            0 <= i < j < files.len() ==> #[trigger] files[i].0 != #[trigger] files[j].0,
{
    assert forall|i: int, j: int| 0 <= i < j < files.len() implies #[trigger] files[i].0
        != #[trigger] files[j].0 by {
        lemma_precedes_irreflexive(files[i].0);
    }
}

/// The files that a pack carries itself, each under its path below the
/// install root, in the order of the dictionary by their paths.
#[derive(Debug, PartialEq, Eq)]
pub struct Overrides {
    files: Vec<(String, Vec<u8>)>,
}

impl View for Overrides {
    type V = Seq<(Seq<char>, Seq<u8>)>;

    closed spec fn view(&self) -> Seq<(Seq<char>, Seq<u8>)> {
        files_view(self.files@)
    }
}

impl Overrides {
    /// What holds of every value of this type.
    #[verifier::type_invariant]
    pub open spec fn valid(&self) -> bool {
        tree_well_formed(self@)
    }

    /// The tree without a file.
    pub fn new() -> (r: Overrides)
        ensures
            r@ == Seq::<(Seq<char>, Seq<u8>)>::empty(),
    {
        let r = Overrides { files: Vec::new() };
        assert(r@ =~= Seq::empty());
        r
    }

    /// The number of files.
    pub fn len(&self) -> (n: usize)
        ensures
            n == self@.len(),
    {
        self.files.len()
    }

    /// The path of the file at place `i`.
    pub fn path(&self, i: usize) -> (r: &String)
        requires
            i < self@.len(),
        ensures
            r@ == self@[i as int].0,
            file_path(r@),
    {
        proof {
            use_type_invariant(self);
        }
        &self.files[i].0
    }

    /// The content of the file at place `i`.
    pub fn content(&self, i: usize) -> (r: &Vec<u8>)
        requires
            i < self@.len(),
        ensures
            r@ == self@[i as int].1,
    {
        &self.files[i].1
    }

    /// The place of the file under `path`, if the tree holds one.
    pub fn position(&self, path: &str) -> (r: Option<usize>)
        ensures
            match r {
                Some(i) => path_at(self@, path@, i as int),
                None => !holds_path(self@, path@),
            },
    {
        let mut i: usize = 0;
        while i < self.files.len()
            invariant
                i <= self.files.len(),
                forall|j: int| 0 <= j < i ==> !path_at(self@, path@, j),
            decreases self.files.len() - i,
        {
            if same_text(self.files[i].0.as_str(), path) {
                return Some(i);
            }
            i += 1;
        }
        None
    }

    /// The content of the file under `path`, if the tree holds one.
    pub fn get(&self, path: &str) -> (r: Option<&Vec<u8>>)
        ensures
            match r {
                Some(c) => content_of(self@, path@) == Some(c@),
                None => content_of(self@, path@) is None,
            },
    {
        proof {
            use_type_invariant(self);
            lemma_paths_differ(self@);
        }
        match self.position(path) {
            Some(i) => {
                proof {
                    let c = choose|k: int| path_at(self@, path@, k);
                    assert(c == i);
                }
                Some(&self.files[i].1)
            },
            None => None,
        }
    }

    /// Puts a file into the tree, in the place that keeps the order of the
    /// paths.
    ///
    /// A path that does not name a file below the install root is refused
    /// with [`Error::PathEscape`], and one that the tree holds already with
    /// [`Error::DuplicateOverride`]; the tree then stays as it was.
    pub fn insert(&mut self, path: String, content: Vec<u8>) -> (r: Result<(), Error>)
        ensures
            !file_path(path@) ==> r == Err::<(), Error>(Error::PathEscape),
            file_path(path@) && holds_path(old(self)@, path@) ==> r == Err::<(), Error>(
                Error::DuplicateOverride,
            ),
            file_path(path@) && !holds_path(old(self)@, path@) ==> r == Ok::<(), Error>(()),
            r is Ok ==> final(self)@ == with_file(old(self)@, path@, content@),
            r is Err ==> final(self)@ == old(self)@,
    {
        proof {
            use_type_invariant(&*self);
        }
        if !is_file_path(path.as_str()) {
            return Err(Error::PathEscape);
        }
        let ghost before = self@;
        let wanted = chars_of(path.as_str());
        let mut i: usize = self.files.len();
        let mut found: bool = false;
        while i > 0 && !found
            invariant
                i <= self.files.len(),
                self@ == before,
                wanted@ == path@,
                forall|j: int| i <= j < before.len() ==> precedes(path@, (#[trigger] before[j]).0),
                found ==> i > 0 && !precedes(path@, before[i - 1].0),
            decreases i + if found { 0int } else { 1int },
        {
            let here = chars_of(self.files[i - 1].0.as_str());
            if chars_precede(&wanted, &here) {
                i -= 1;
            } else {
                found = true;
            }
        }
        if i > 0 && same_text(self.files[i - 1].0.as_str(), path.as_str()) {
            assert(path_at(before, path@, i - 1));
            return Err(Error::DuplicateOverride);
        }
        proof {
            lemma_precedes_irreflexive(path@);
            assert forall|j: int| 0 <= j < i implies precedes((#[trigger] before[j]).0, path@) by {
                lemma_precedes_total(before[i - 1].0, path@);
                if j < i - 1 {
                    lemma_precedes_transitive(before[j].0, before[i - 1].0, path@);
                }
            }
            assert(keeps_order(before, path@, i as int));
            lemma_one_place(before, path@, i as int, choose|k: int| keeps_order(before, path@, k));
            assert forall|j: int| !path_at(before, path@, j) by {
                if path_at(before, path@, j) {
                    assert(precedes(before[j].0, path@) || precedes(path@, before[j].0));
                }
            }
        }
        let mut files: Vec<(String, Vec<u8>)> = Vec::new();
        std::mem::swap(&mut self.files, &mut files);
        files.insert(i, (path, content));
        proof {
            let after = files_view(files@);
            assert(after =~= before.insert(i as int, (path@, content@)));
            assert forall|a: int| 0 <= a < after.len() implies file_path(#[trigger] after[a].0) by {
                if a < i {
                    assert(after[a] == before[a]);
                } else if a > i {
                    assert(after[a] == before[a - 1]);
                }
            }
            assert forall|a: int, b: int| 0 <= a < b < after.len() implies precedes(
                #[trigger] after[a].0,
                #[trigger] after[b].0,
            ) by {
                if a < i {
                    assert(after[a] == before[a]);
                } else if a > i {
                    assert(after[a] == before[a - 1]);
                }
                if b < i {
                    assert(after[b] == before[b]);
                } else if b > i {
                    assert(after[b] == before[b - 1]);
                }
            }
        }
        std::mem::swap(&mut self.files, &mut files);
        Ok(())
    }
}

} // verus!
