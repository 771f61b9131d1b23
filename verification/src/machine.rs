//! How a walk goes on: the state after each step, as a function of the state
//! before.
//!
//! A walk rests when it asks for a file or is over. Between two rests it
//! reads on: line by line in the file on top of the stack, and once the last
//! line of that file is read, in the file below.

use crate::locator::events;
use crate::model::{
    labels_of, lacks, lacks_asset, lemma_advanced, lemma_entered, lemma_finished, lemma_imported,
    lemma_met_fragment, lemma_met_source, lemma_statement_ahead, next_line, not_among, other_than,
    statement_at, Model,
};
use crate::parser::lemma_package_name_stands;
use crate::reach::{line_end, Files};
use crate::registry::{lemma_record_all, record_all};
use crate::resolver::Resolution;
use crate::text::lemma_contains_part;
use vstd::prelude::*;

verus! {

/// Two states belong to the same walk: they have the project, the entry file,
/// the settings and the candidates of the start in common.
pub open spec fn same_walk(a: Model, b: Model) -> bool {
    &&& a.project == b.project
    &&& a.entry == b.entry
    &&& a.class_name == b.class_name
    &&& a.locators_enabled == b.locators_enabled
    &&& a.all_deps == b.all_deps
    &&& a.all_assets == b.all_assets
    &&& a.all_labels == b.all_labels
}

impl Model {
    /// The walk rests: it asks for a file, or nothing is left to read.
    pub open spec fn resting(self) -> bool {
        self.awaited is Some || self.frames.len() == 0
    }

    /// The state after the file on top was finished: the candidates are
    /// pruned by what the file holds, its uses of the locator are recorded,
    /// and the file leaves the stack.
    pub open spec fn finished(self) -> Model {
        let contents = self.frames.last().contents;
        self.finished_with(
            self.deps.filter(lacks(contents)),
            self.assets.filter(lacks_asset(contents)),
            match self.class_name {
                Some(class_name) => self.labels.filter(not_among(labels_of(contents, class_name))),
                None => self.labels,
            },
            if self.locators_enabled {
                record_all(self.locators, events(contents))
            } else {
                self.locators
            },
        )
    }

    /// The state after an import of the package `name` was met.
    pub open spec fn without_dependency(self, name: Seq<char>) -> Model {
        Model { deps: self.deps.filter(other_than(name)), imported: self.imported.insert(name), ..self }
    }

    /// The state after one step: the next line of the file on top is read,
    /// or, when no line is left, the file is finished. A line that names a
    /// file which has not been met makes the file met; if the file is to be
    /// read, it is asked for. A line that imports another package drops the
    /// package from the candidates.
    pub open spec fn step(self) -> Model {
        let top = self.frames.last();
        if 0 <= top.line < top.contents.len() {
            let next = next_line(top);
            match statement_at(top, self.project) {
                Some(Resolution::Source(file)) => if self.visited.contains(file) {
                    self.advanced(next)
                } else {
                    (Model { awaited: Some(file), ..self.met(file) }).advanced(next)
                },
                Some(Resolution::Fragment(file)) => if self.visited.contains(file) {
                    self.advanced(next)
                } else {
                    self.met(file).advanced(next)
                },
                Some(Resolution::Dependency(name)) => self.without_dependency(name).advanced(next),
                _ => self.advanced(next),
            }
        } else {
            self.finished()
        }
    }

    /// How much is left to read in the file on top.
    pub open spec fn remaining(self) -> int {
        let top = self.frames.last();
        if self.frames.len() > 0 && 0 <= top.line < top.contents.len() {
            top.contents.len() - top.line
        } else {
            0
        }
    }

    /// The state at the next rest.
    pub open spec fn settled(self) -> Model
        decreases self.frames.len(), self.remaining(),
    {
        if self.resting() {
            self
        } else {
            proof {
                lemma_step_shrinks(self);
            }
            self.step().settled()
        }
    }

    /// The state after `contents` were handed in: if a file is asked for,
    /// they are taken for its contents and the walk goes on to its next rest.
    pub open spec fn fed(self, contents: Seq<char>) -> Model {
        if self.awaited is Some {
            self.entered(contents).settled()
        } else {
            self
        }
    }

    /// The state in which a walk through the project `files` ends: that in
    /// which it is over, or asks for a file that the project does not hold.
    pub open spec fn walked(self, files: Files) -> Model
        decreases files.dom().difference(self.read.dom()).len(),
    {
        match self.awaited {
            Some(path) => if files.dom().finite() && files.dom().contains(path)
                && !self.read.dom().contains(path) {
                proof {
                    lemma_fed_reads(self, files[path]);
                    lemma_one_less(files, self.read, path, files[path]);
                }
                self.fed(files[path]).walked(files)
            } else {
                self
            },
            None => self,
        }
    }
}

/// One more file handed in leaves one less to hand in.
pub proof fn lemma_one_less(files: Files, read: Files, path: Seq<char>, contents: Seq<char>)
    requires
        files.dom().finite(),
        files.dom().contains(path),
        !read.dom().contains(path),
    ensures
        files.dom().difference(read.insert(path, contents).dom()).len() < files.dom().difference(
            read.dom(),
        ).len(),
{
    let before = files.dom().difference(read.dom());
    let after = files.dom().difference(read.insert(path, contents).dom());
    assert(after =~= before.remove(path));
}

/// A step leaves less to do: a shorter stack, or as long a stack and less
/// to read in the file on top.
pub proof fn lemma_step_shrinks(m: Model)
    requires
        !m.resting(),
    ensures
        m.step().frames.len() < m.frames.len() || (m.step().frames.len() == m.frames.len()
            && m.step().remaining() < m.remaining()),
        m.step().read == m.read,
        same_walk(m.step(), m),
{
    let top = m.frames.last();
    if 0 <= top.line < top.contents.len() {
        lemma_statement_ahead(top, m.project);
    }
}

/// Reading on changes nothing of what was handed in or of what the walk
/// started with.
pub proof fn lemma_settled_keeps(m: Model)
    ensures
        m.settled().read == m.read,
        same_walk(m.settled(), m),
        m.settled().resting(),
    decreases m.frames.len(), m.remaining(),
{
    if !m.resting() {
        lemma_step_shrinks(m);
        lemma_settled_keeps(m.step());
    }
}

/// The contents handed in are recorded under the path that was asked for.
pub proof fn lemma_fed_reads(m: Model, contents: Seq<char>)
    ensures
        m.fed(contents).read == match m.awaited {
            Some(path) => m.read.insert(path, contents),
            None => m.read,
        },
        same_walk(m.fed(contents), m),
        m.awaited is Some ==> m.fed(contents).resting(),
{
    if m.awaited is Some {
        lemma_settled_keeps(m.entered(contents));
    }
}

/// A step keeps a walk in order.
pub proof fn lemma_step(m: Model)
    requires
        m.inv(),
        !m.resting(),
    ensures
        m.step().inv(),
{
    let top = m.frames.last();
    if 0 <= top.line < top.contents.len() {
        lemma_statement_ahead(top, m.project);
        match statement_at(top, m.project) {
            Some(Resolution::Source(file)) => {
                if m.visited.contains(file) {
                    lemma_advanced(m);
                } else {
                    lemma_met_source(m, file);
                    let met = Model { awaited: Some(file), ..m.met(file) };
                    lemma_advanced(met);
                }
            },
            Some(Resolution::Fragment(file)) => {
                if m.visited.contains(file) {
                    lemma_advanced(m);
                } else {
                    lemma_met_fragment(m, file);
                    assert(m.met(file).visited[m.visited.len() as int] == file);
                    lemma_advanced(m.met(file));
                }
            },
            Some(Resolution::Dependency(name)) => {
                let end = line_end(top.contents, top.line);
                let line = top.contents.subrange(top.line, end);
                lemma_package_name_stands(line);
                lemma_contains_part(top.contents, top.line, end, name);
                lemma_imported(m, name, m.deps.filter(other_than(name)));
                lemma_advanced(m.without_dependency(name));
            },
            _ => {
                lemma_advanced(m);
            },
        }
    } else {
        if m.locators_enabled {
            lemma_record_all(m.locators, events(top.contents));
        }
        let n = m.finished();
        lemma_finished(m, n.deps, n.assets, n.labels, n.locators);
    }
}

/// Reading on to the next rest keeps a walk in order.
pub proof fn lemma_settled(m: Model)
    requires
        m.inv(),
    ensures
        m.settled().inv(),
    decreases m.frames.len(), m.remaining(),
{
    if !m.resting() {
        lemma_step_shrinks(m);
        lemma_step(m);
        lemma_settled(m.step());
    }
}

/// Handing in contents keeps a walk in order.
pub proof fn lemma_fed(m: Model, contents: Seq<char>)
    requires
        m.inv(),
    ensures
        m.fed(contents).inv(),
{
    if m.awaited is Some {
        lemma_entered(m, contents);
        lemma_settled(m.entered(contents));
    }
}

} // verus!
