//! A project held in memory, and the walk through it.

use crate::laws::{lemma_reaches_what_is_referenced, lemma_visits_what_is_referenced};
use crate::machine::{lemma_fed_reads, lemma_one_less};
use crate::reach::{extends, is_read, is_referenced, unambiguous, Files};
use crate::walker::Walker;
use vstd::prelude::*;

verus! {

/// A file with its contents.
#[derive(Debug)]
pub struct SourceFile {
    pub path: String,
    pub contents: String,
}

/// The files of a project that can be read, each path once.
pub struct SourceTree {
    files: Vec<SourceFile>,
    held: Ghost<Files>,
}

impl View for SourceTree {
    type V = Files;

    closed spec fn view(&self) -> Files {
        self.held@
    }
}

/// Why a walk stopped early.
#[derive(Debug, PartialEq, Eq)]
pub enum WalkError {
    /// A file that the walk has to read cannot be read.
    Unreadable(String),
}

impl SourceTree {
    /// The tree is in order. Every tree that this module hands out is, and
    /// stays so.
    pub closed spec fn wf(&self) -> bool {
        &&& self.held@.dom().finite()
        &&& forall|i: int, j: int|
            0 <= i < j < self.files@.len() ==> (#[trigger] self.files@[i]).path@
                != (#[trigger] self.files@[j]).path@
        &&& forall|i: int|
            0 <= i < self.files@.len() ==> self.held@.dom().contains(
                (#[trigger] self.files@[i]).path@,
            ) && self.held@[self.files@[i].path@] == self.files@[i].contents@
        &&& forall|path: Seq<char>| #[trigger]
            self.held@.dom().contains(path) ==> exists|i: int|
                0 <= i < self.files@.len() && (#[trigger] self.files@[i]).path@ == path
    }

    /// A tree is finite.
    pub proof fn lemma_finite(&self)
        requires
            self.wf(),
        ensures
            self@.dom().finite(),
    {
    }

    /// A tree without files.
    pub fn new() -> (tree: SourceTree)
        ensures
            tree.wf(),
            tree@ == Files::empty(),
    {
        SourceTree { files: Vec::new(), held: Ghost(Map::empty()) }
    }

    fn position(&self, path: &String) -> (found: Option<usize>)
        requires
            self.wf(),
        ensures
            match found {
                Some(i) => i < self.files@.len() && self.files@[i as int].path@ == path@,
                None => !self@.dom().contains(path@),
            },
    {
        let mut i: usize = 0;
        while i < self.files.len()
            invariant
                i <= self.files@.len(),
                forall|k: int| 0 <= k < i ==> (#[trigger] self.files@[k]).path@ != path@,
            decreases self.files@.len() - i,
        {
            if self.files[i].path == *path {
                return Some(i);
            }
            i += 1;
        }
        None
    }

    /// Puts a file into the tree, in place of the one of the same path if
    /// there is one.
    pub fn insert(&mut self, path: String, contents: String)
        requires
            old(self).wf(),
        ensures
            final(self).wf(),
            final(self)@ == old(self)@.insert(path@, contents@),
    {
        let ghost before = self.files@;
        match self.position(&path) {
            Some(i) => {
                self.files.set(i, SourceFile { path, contents });
            },
            None => {
                self.files.push(SourceFile { path, contents });
            },
        }
        proof {
            self.held@ = self.held@.insert(path@, contents@);
            assert forall|p: Seq<char>| #[trigger] self.held@.dom().contains(p) implies exists|
                i: int,
            |
                0 <= i < self.files@.len() && (#[trigger] self.files@[i]).path@ == p by {
                if p != path@ {
                    let i = choose|i: int|
                        0 <= i < before.len() && (#[trigger] before[i]).path@ == p;
                    assert(self.files@[i].path@ == p);
                } else {
                    if before.len() < self.files@.len() {
                        assert(self.files@[before.len() as int].path@ == p);
                    } else {
                        let i = choose|i: int|
                            0 <= i < before.len() && (#[trigger] before[i]).path@ == p;
                        assert(self.files@[i].path@ == p);
                    }
                }
            }
        }
    }

    /// The contents of a file, if the tree holds it.
    pub fn get(&self, path: &String) -> (contents: Option<&String>)
        requires
            self.wf(),
        ensures
            match contents {
                Some(contents) => self@.dom().contains(path@) && self@[path@] == contents@,
                None => !self@.dom().contains(path@),
            },
    {
        match self.position(path) {
            Some(i) => Some(&self.files[i].contents),
            None => None,
        }
    }
}

/// Walks on through the project `tree` until the walk is over or asks for a
/// file that the tree does not hold.
///
/// Every file that the walk has met is referenced in the project. When the
/// walk is over and the project is unambiguous, the files met are all that
/// are referenced, and the files read are all that imports reach.
pub fn walk(walker: &mut Walker, tree: &SourceTree) -> (r: Result<(), WalkError>)
    requires
        old(walker).wf(),
        tree.wf(),
        extends(tree@, old(walker)@.read),
    ensures
        final(walker).wf(),
        final(walker)@ == old(walker)@.walked(tree@),
        extends(tree@, final(walker)@.read),
        match r {
            Ok(()) => final(walker)@.done(),
            Err(WalkError::Unreadable(path)) => final(walker)@.awaited == Some(path@)
                && !tree@.dom().contains(path@),
        },
        forall|file: Seq<char>| #[trigger]
            final(walker)@.visited.contains(file) ==> is_referenced(
                tree@,
                final(walker)@.project,
                final(walker)@.entry,
                file,
            ),
        r is Ok && unambiguous(tree@, final(walker)@.project, final(walker)@.entry) ==> forall|
            file: Seq<char>,
        |
            #![trigger final(walker)@.visited.contains(file)]
            #![trigger final(walker)@.read.dom().contains(file)]
            {
                &&& final(walker)@.visited.contains(file) <==> is_referenced(
                    tree@,
                    final(walker)@.project,
                    final(walker)@.entry,
                    file,
                )
                &&& final(walker)@.read.dom().contains(file) <==> is_read(
                    tree@,
                    final(walker)@.project,
                    final(walker)@.entry,
                    file,
                )
            },
{
    proof {
        tree.lemma_finite();
    }
    loop
        invariant
            walker.wf(),
            tree.wf(),
            tree@.dom().finite(),
            old(walker)@.walked(tree@) == walker@.walked(tree@),
            extends(tree@, walker@.read),
        decreases tree@.dom().difference(walker@.read.dom()).len(),
    {
        proof {
            walker.lemma_wf();
            lemma_visits_what_is_referenced(walker@, tree@);
        }
        let path = match walker.awaited() {
            Some(path) => path.clone(),
            None => {
                proof {
                    if unambiguous(tree@, walker@.project, walker@.entry) {
                        lemma_reaches_what_is_referenced(walker@, tree@);
                    }
                }
                return Ok(());
            },
        };
        match tree.get(&path) {
            Some(contents) => {
                let ghost before = walker@;
                walker.feed(contents.as_str());
                proof {
                    lemma_fed_reads(before, contents@);
                    lemma_one_less(tree@, before.read, path@, contents@);
                }
            },
            None => {
                return Err(WalkError::Unreadable(path));
            },
        }
    }
}

} // verus!
