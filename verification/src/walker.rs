//! The walk through a project, from its entry file along the imports.
//!
//! The walker reads no file itself. It asks for one file at a time, by its
//! path, and goes on as far as it can once the contents are handed in: to the
//! next file it has to ask for, or to the end of the walk.

use crate::assets::{asset_views, Asset, AssetView};
use crate::cli::Options;
use crate::localisation::{labels_found, ClassName, ConfigError};
use crate::locator::{event_views, locator_in, Locator};
use crate::machine::lemma_step;
use crate::model::{
    lacks, lacks_asset, lemma_entered, lemma_start, not_among, other_than, FrameView, Model,
};
use crate::parser::statement_in;
use crate::paths::PathSet;
use crate::reach::Files;
use crate::registry::{distinct_names, lemma_note_one, note_one, record_all, registered};
use crate::resolver::{
    normal_of, normalise, resolve_statement, text_of, Project, Resolution, Target,
};
use crate::sequences::lemma_filter_push;
use crate::text::{has_text, includes, position, scan, texts, to_chars, CharClass, Text};
use vstd::prelude::*;

verus! {

/// A file that is being read.
struct Frame {
    path: String,
    contents: Text,
    line: usize,
}

impl View for Frame {
    type V = FrameView;

    closed spec fn view(&self) -> FrameView {
        FrameView { path: self.path@, contents: self.contents@, line: self.line as int }
    }
}

impl Frame {
    spec fn consistent(&self) -> bool {
        self.line <= self.contents@.len()
    }
}

spec fn frame_views(stack: Seq<Frame>) -> Seq<FrameView> {
    stack.map_values(|frame: Frame| frame@)
}

/// The entries of a registry as mathematical values.
pub open spec fn registry(list: Seq<(String, bool)>) -> Seq<(Seq<char>, bool)> {
    list.map_values(|entry: (String, bool)| (entry.0@, entry.1))
}

/// What a walk keeps in mind of its past without using it.
struct Ledger {
    entry: Seq<char>,
    read: Files,
    finished: Set<Seq<char>>,
    all_deps: Seq<Seq<char>>,
    all_assets: Seq<AssetView>,
    all_labels: Seq<Seq<char>>,
    imported: Set<Seq<char>>,
}

/// A walk through a project.
pub struct Walker {
    project: Project,
    class_name: Option<String>,
    locators_enabled: bool,
    visited: PathSet,
    stack: Vec<Frame>,
    awaited: Option<String>,
    deps: Vec<String>,
    assets: Vec<Asset>,
    labels: Vec<String>,
    locators: Vec<(String, bool)>,
    ledger: Ghost<Ledger>,
}

impl View for Walker {
    type V = Model;

    closed spec fn view(&self) -> Model {
        self.model(frame_views(self.stack@))
    }
}

/// The names of a list without `name`, in their order.
fn without(list: &Vec<String>, name: &String) -> (rest: Vec<String>)
    ensures
        texts(rest@) == texts(list@).filter(other_than(name@)),
{
    let mut rest: Vec<String> = Vec::new();
    let mut i: usize = 0;
    while i < list.len()
        invariant
            i <= list@.len(),
            texts(rest@) == texts(list@).take(i as int).filter(other_than(name@)),
        decreases list@.len() - i,
    {
        proof {
            let seen = texts(list@).take(i as int);
            assert(texts(list@).take(i + 1) =~= seen.push(list@[i as int]@));
            lemma_filter_push(seen, list@[i as int]@, other_than(name@));
        }
        if list[i] != *name {
            rest.push(list[i].clone());
        }
        i += 1;
    }
    assert(texts(list@).take(i as int) =~= texts(list@));
    rest
}

/// The names of a list that do not stand in `contents`, in their order.
fn unmentioned(list: &Vec<String>, contents: &[char]) -> (rest: Vec<String>)
    ensures
        texts(rest@) == texts(list@).filter(lacks(contents@)),
{
    let mut rest: Vec<String> = Vec::new();
    let mut i: usize = 0;
    while i < list.len()
        invariant
            i <= list@.len(),
            texts(rest@) == texts(list@).take(i as int).filter(lacks(contents@)),
        decreases list@.len() - i,
    {
        proof {
            let seen = texts(list@).take(i as int);
            assert(texts(list@).take(i + 1) =~= seen.push(list@[i as int]@));
            lemma_filter_push(seen, list@[i as int]@, lacks(contents@));
        }
        let name = to_chars(list[i].as_str());
        if !includes(contents, name.as_slice()) {
            rest.push(list[i].clone());
        }
        i += 1;
    }
    assert(texts(list@).take(i as int) =~= texts(list@));
    rest
}

/// The assets of a list whose file names do not stand in `contents`, in
/// their order.
fn unmentioned_assets(list: &Vec<Asset>, contents: &[char]) -> (rest: Vec<Asset>)
    ensures
        asset_views(rest@) == asset_views(list@).filter(lacks_asset(contents@)),
{
    let mut rest: Vec<Asset> = Vec::new();
    let mut i: usize = 0;
    while i < list.len()
        invariant
            i <= list@.len(),
            asset_views(rest@) == asset_views(list@).take(i as int).filter(lacks_asset(contents@)),
        decreases list@.len() - i,
    {
        proof {
            let seen = asset_views(list@).take(i as int);
            assert(asset_views(list@).take(i + 1) =~= seen.push(list@[i as int]@));
            lemma_filter_push(seen, list@[i as int]@, lacks_asset(contents@));
        }
        let name = to_chars(list[i].file_name.as_str());
        if !includes(contents, name.as_slice()) {
            rest.push(list[i].clone());
        }
        i += 1;
    }
    assert(asset_views(list@).take(i as int) =~= asset_views(list@));
    rest
}

/// The labels of a list that are not among those found, in their order.
fn unlabelled(list: &Vec<String>, found: &Vec<String>) -> (rest: Vec<String>)
    ensures
        texts(rest@) == texts(list@).filter(not_among(texts(found@))),
{
    let mut rest: Vec<String> = Vec::new();
    let mut i: usize = 0;
    while i < list.len()
        invariant
            i <= list@.len(),
            texts(rest@) == texts(list@).take(i as int).filter(not_among(texts(found@))),
        decreases list@.len() - i,
    {
        proof {
            let seen = texts(list@).take(i as int);
            assert(texts(list@).take(i + 1) =~= seen.push(list@[i as int]@));
            lemma_filter_push(seen, list@[i as int]@, not_among(texts(found@)));
        }
        if !has_text(found, &list[i]) {
            rest.push(list[i].clone());
        }
        i += 1;
    }
    assert(texts(list@).take(i as int) =~= texts(list@));
    rest
}

/// Finds the entry of a name in a registry.
fn entry_of(locators: &Vec<(String, bool)>, name: &String) -> (found: Option<usize>)
    requires
        distinct_names(registry(locators@)),
    ensures
        position(found) == crate::registry::entry_of(registry(locators@), name@),
        found matches Some(i) ==> i < locators@.len(),
{
    let mut i: usize = 0;
    while i < locators.len()
        invariant
            i <= locators@.len(),
            distinct_names(registry(locators@)),
            forall|k: int| 0 <= k < i ==> (#[trigger] registry(locators@)[k]).0 != name@,
        decreases locators@.len() - i,
    {
        if locators[i].0 == *name {
            proof {
                let all = registry(locators@);
                assert(all[i as int].0 == name@);
                let chosen = crate::registry::entry_of(all, name@)->0;
                if chosen < i {
                    assert(all[chosen].0 != all[i as int].0);
                } else if i < chosen {
                    assert(all[i as int].0 != all[chosen].0);
                }
            }
            return Some(i);
        }
        i += 1;
    }
    None
}

/// Notes one event in a registry.
fn note(locators: &mut Vec<(String, bool)>, event: &Locator)
    requires
        distinct_names(registry(old(locators)@)),
    ensures
        registry(final(locators)@) == note_one(registry(old(locators)@), event@),
        distinct_names(registry(final(locators)@)),
{
    let ghost before = registry(locators@);
    proof {
        lemma_note_one(before, event@);
    }
    match event {
        Locator::Register(name) => {
            if entry_of(locators, name).is_none() {
                locators.push((name.clone(), false));
                assert(registry(locators@) =~= before.push((name@, false)));
            }
        },
        Locator::Get(name) => {
            match entry_of(locators, name) {
                Some(i) => {
                    locators.set(i, (name.clone(), true));
                    proof {
                        assert(registered(before, name@));
                        assert(registry(locators@) =~= before.update(i as int, (name@, true)));
                    }
                },
                None => {
                    locators.push((name.clone(), true));
                    assert(registry(locators@) =~= before.push((name@, true)));
                },
            }
        },
        Locator::Import => {},
    }
}

/// Records the events of a file in a registry, one after the other.
fn record(locators: &mut Vec<(String, bool)>, found: &Vec<Locator>)
    requires
        distinct_names(registry(old(locators)@)),
    ensures
        registry(final(locators)@) == record_all(registry(old(locators)@), event_views(found@)),
{
    let ghost start = registry(locators@);
    let mut i: usize = 0;
    while i < found.len()
        invariant
            i <= found@.len(),
            distinct_names(registry(locators@)),
            registry(locators@) == record_all(start, event_views(found@).take(i as int)),
        decreases found@.len() - i,
    {
        note(locators, &found[i]);
        proof {
            let more = event_views(found@).take(i + 1);
            assert(more.drop_last() =~= event_views(found@).take(i as int));
        }
        i += 1;
    }
    assert(event_views(found@).take(i as int) =~= event_views(found@));
}

/// Takes in what a statement names. A file that has not been met is added to
/// the files met; if it is to be read in turn, it is returned, to be asked
/// for. A file that has been met changes nothing. A package from outside the
/// project is taken out of the candidate dependencies.
pub fn absorb(target: Target, visited: &mut PathSet, deps: &mut Vec<String>) -> (asked: Option<
    String,
>)
    requires
        old(visited).wf(),
    ensures
        final(visited).wf(),
        match target@ {
            Resolution::Source(file) => {
                &&& texts(final(deps)@) == texts(old(deps)@)
                &&& if old(visited)@.contains(file) {
                    final(visited)@ == old(visited)@ && asked is None
                } else {
                    final(visited)@ == old(visited)@.push(file) && text_of(asked) == Some(file)
                }
            },
            Resolution::Fragment(file) => {
                &&& texts(final(deps)@) == texts(old(deps)@)
                &&& asked is None
                &&& final(visited)@ == if old(visited)@.contains(file) {
                    old(visited)@
                } else {
                    old(visited)@.push(file)
                }
            },
            Resolution::Dependency(name) => {
                &&& texts(final(deps)@) == texts(old(deps)@).filter(other_than(name))
                &&& asked is None
                &&& final(visited)@ == old(visited)@
            },
        },
{
    match target {
        Target::Source(file) => {
            if visited.contains(&file) {
                None
            } else {
                visited.push(file.clone());
                Some(file)
            }
        },
        Target::Fragment(file) => {
            if !visited.contains(&file) {
                visited.push(file);
            }
            None
        },
        Target::Dependency(name) => {
            let rest = without(deps, &name);
            *deps = rest;
            None
        },
    }
}

impl Walker {
    /// The state of the walk when `frames` are the files that are being read.
    spec fn model(&self, frames: Seq<FrameView>) -> Model {
        Model {
            project: self.project@,
            class_name: text_of(self.class_name),
            locators_enabled: self.locators_enabled,
            entry: self.ledger@.entry,
            visited: self.visited@,
            frames,
            awaited: text_of(self.awaited),
            read: self.ledger@.read,
            finished: self.ledger@.finished,
            deps: texts(self.deps@),
            assets: asset_views(self.assets@),
            labels: texts(self.labels@),
            locators: registry(self.locators@),
            all_deps: self.ledger@.all_deps,
            all_assets: self.ledger@.all_assets,
            all_labels: self.ledger@.all_labels,
            imported: self.ledger@.imported,
        }
    }

    spec fn stack_consistent(&self) -> bool {
        forall|i: int| 0 <= i < self.stack@.len() ==> (#[trigger] self.stack@[i]).consistent()
    }

    /// The walker is in order. Every walker that this module hands out is,
    /// and stays so.
    pub closed spec fn wf(&self) -> bool {
        &&& self@.inv()
        &&& self.visited.wf()
        &&& self.stack_consistent()
        &&& self@.awaited is None ==> self@.frames.len() == 0
    }

    /// A walker that is in order is in a state that is.
    pub proof fn lemma_wf(&self)
        requires
            self.wf(),
        ensures
            self@.inv(),
            self@.awaited is None ==> self@.done(),
    {
    }

    /// Starts a walk at the file `entry`, taken in its normal form. The
    /// candidates of a kind that is not looked for are dropped. Where labels are looked for, the name of
    /// the accessor class has to be set.
    pub fn new(
        project: Project,
        entry: String,
        options: &Options,
        class_name: &ClassName,
        deps: Vec<String>,
        assets: Vec<Asset>,
        labels: Vec<String>,
    ) -> (r: Result<Walker, ConfigError>)
        ensures
            match r {
                Ok(walker) => {
                    &&& walker.wf()
                    &&& !(options.labels && class_name.value() is None)
                    &&& walker@ == Model::start(
                        project@,
                        normal_of(entry@, project@.root),
                        if options.labels {
                            class_name.value()
                        } else {
                            None
                        },
                        options.loc,
                        if options.deps {
                            texts(deps@)
                        } else {
                            seq![]
                        },
                        if options.assets {
                            asset_views(assets@)
                        } else {
                            seq![]
                        },
                        if options.labels {
                            texts(labels@)
                        } else {
                            seq![]
                        },
                    )
                },
                Err(e) => options.labels && class_name.value() is None && e
                    == ConfigError::NotConfigured,
            },
    {
        let class_name = if options.labels {
            match class_name.get() {
                Ok(name) => Some(name.to_owned()),
                Err(e) => { return Err(e); },
            }
        } else {
            None
        };
        let deps = if options.deps {
            deps
        } else {
            Vec::new()
        };
        let assets = if options.assets {
            assets
        } else {
            Vec::new()
        };
        let labels = if options.labels {
            labels
        } else {
            Vec::new()
        };
        let entry = normalise(entry, project.root.as_str());
        let mut visited = PathSet::new();
        visited.push(entry.clone());
        let ghost ledger = Ledger {
            entry: entry@,
            read: Map::empty(),
            finished: Set::empty(),
            all_deps: texts(deps@),
            all_assets: asset_views(assets@),
            all_labels: texts(labels@),
            imported: Set::empty(),
        };
        let walker = Walker {
            project,
            class_name,
            locators_enabled: options.loc,
            visited,
            stack: Vec::new(),
            awaited: Some(entry),
            deps,
            assets,
            labels,
            locators: Vec::new(),
            ledger: Ghost(ledger),
        };
        proof {
            assert(frame_views(walker.stack@) =~= seq![]);
            assert(registry(walker.locators@) =~= seq![]);
            assert(texts(Seq::<String>::empty()) =~= seq![]);
            assert(asset_views(Seq::<Asset>::empty()) =~= seq![]);
            lemma_start(walker@);
        }
        Ok(walker)
    }

    /// The file whose contents the walker asks for; none when the walk is
    /// over.
    pub fn awaited(&self) -> (path: Option<&String>)
        ensures
            match path {
                Some(path) => self@.awaited == Some(path@),
                None => self@.awaited is None,
            },
    {
        self.awaited.as_ref()
    }

    /// The project that is walked through.
    pub fn project(&self) -> (project: &Project)
        ensures
            project@ == self@.project,
    {
        &self.project
    }

    /// The files met so far, in the order in which they were met.
    pub fn visited(&self) -> (files: &Vec<String>)
        ensures
            texts(files@) == self@.visited,
    {
        self.visited.items()
    }

    /// The dependencies that no file read to its end has used.
    pub fn dependencies(&self) -> (names: &Vec<String>)
        ensures
            texts(names@) == self@.deps,
    {
        &self.deps
    }

    /// The assets that no file read to its end has referred to.
    pub fn assets(&self) -> (assets: &Vec<Asset>)
        ensures
            asset_views(assets@) == self@.assets,
    {
        &self.assets
    }

    /// The labels that no file read to its end has referred to.
    pub fn labels(&self) -> (labels: &Vec<String>)
        ensures
            texts(labels@) == self@.labels,
    {
        &self.labels
    }

    /// The registry of the locator: each type with the mark that tells
    /// whether it was retrieved.
    pub fn locators(&self) -> (locators: &Vec<(String, bool)>)
        ensures
            registry(locators@) == self@.locators,
    {
        &self.locators
    }

    /// Finishes the file `frame`, which has been read to its end.
    fn finish(&mut self, frame: &Frame, Ghost(below): Ghost<Seq<FrameView>>)
        requires
            old(self).model(below.push(frame@)).inv(),
            frame.consistent(),
            frame.line == frame.contents@.len(),
        ensures
            final(self).model(below) == old(self).model(below.push(frame@)).finished(),
            final(self).stack == old(self).stack,
            final(self).awaited == old(self).awaited,
            final(self).visited == old(self).visited,
    {
        let ghost before = self.model(below.push(frame@));
        proof {
            assert(before.frames.drop_last() =~= below);
        }
        self.deps = unmentioned(&self.deps, frame.contents.chars());
        self.assets = unmentioned_assets(&self.assets, frame.contents.chars());
        if self.class_name.is_some() {
            let class_name = to_chars(self.class_name.as_ref().unwrap().as_str());
            let found = labels_found(&frame.contents, class_name.as_slice());
            self.labels = unlabelled(&self.labels, &found);
        }
        if self.locators_enabled {
            let (_, found) = locator_in(&frame.contents);
            record(&mut self.locators, &found);
        }
        proof {
            let ledger = self.ledger@;
            self.ledger@ = Ledger { finished: ledger.finished.insert(frame@.path), ..ledger };
        }
    }

    /// Hands in the contents of the file that the walker asks for. The
    /// walker reads on, in that file and in those it had put aside, up to the
    /// next file that it has not met before, which it returns, or to the end
    /// of the walk. Where it asks for no file, nothing happens.
    pub fn feed(&mut self, contents: &str) -> (next: Option<String>)
        requires
            old(self).wf(),
        ensures
            final(self).wf(),
            final(self)@ == old(self)@.fed(contents@),
            text_of(next) == final(self)@.awaited,
    {
        if self.awaited.is_none() {
            return None;
        }
        let path = self.awaited.take().unwrap();
        let mut frame = Frame { path, contents: Text::new(contents.to_owned()), line: 0 };
        proof {
            let before = old(self)@;
            let ledger = self.ledger@;
            self.ledger@ = Ledger { read: ledger.read.insert(frame@.path, contents@), ..ledger };
            lemma_entered(before, contents@);
        }
        loop
            invariant
                self.model(frame_views(self.stack@).push(frame@)).inv(),
                self.visited.wf(),
                self.stack_consistent(),
                frame.consistent(),
                self.awaited is None,
                old(self)@.fed(contents@) == self.model(
                    frame_views(self.stack@).push(frame@),
                ).settled(),
            decreases self.stack@.len(), frame.contents@.len() - frame.line,
        {
            let ghost below = frame_views(self.stack@);
            let ghost before = self.model(below.push(frame@));
            proof {
                lemma_step(before);
            }
            if frame.line >= frame.contents.len() {
                self.finish(&frame, Ghost(below));
                match self.stack.pop() {
                    Some(suspended) => {
                        proof {
                            assert(frame_views(self.stack@).push(suspended@) =~= below);
                        }
                        frame = suspended;
                    },
                    None => {
                        return None;
                    },
                }
            } else {
                let end = scan(frame.contents.chars(), frame.line, CharClass::Except('\n'));
                let next = if end < frame.contents.len() {
                    end + 1
                } else {
                    end
                };
                let parsed = statement_in(&frame.contents, frame.line, end);
                let asked = match parsed {
                    Ok((_, statement)) => {
                        let target = resolve_statement(
                            &statement,
                            frame.path.as_str(),
                            &self.project,
                        );
                        let ghost named = target@;
                        let asked = absorb(target, &mut self.visited, &mut self.deps);
                        proof {
                            if let Resolution::Dependency(name) = named {
                                let ledger = self.ledger@;
                                self.ledger@ = Ledger {
                                    imported: ledger.imported.insert(name),
                                    ..ledger
                                };
                            }
                        }
                        asked
                    },
                    Err(_) => None,
                };
                if asked.is_some() {
                    self.awaited = asked.clone();
                }
                let ghost read = self.model(below.push(frame@));
                frame.line = next;
                proof {
                    assert(below.push(frame@) =~= read.advanced(next as int).frames);
                }
                if asked.is_some() {
                    let ghost top = frame@;
                    self.stack.push(frame);
                    proof {
                        assert(frame_views(self.stack@) =~= below.push(top));
                        assert(before.settled() == before.step().settled());
                    }
                    return asked;
                }
            }
        }
    }
}

} // verus!
