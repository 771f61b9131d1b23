//! The state of a walk as a mathematical value, and what holds of it at
//! every moment.
//!
//! A walk reads the entry file, and whenever a statement names a file that
//! has not been met before, it puts the file it is reading aside and reads
//! the new one first. The files put aside form a stack. A file is finished
//! when its last line has been read; only then are the lists of candidates
//! pruned by what the file holds.

use crate::assets::AssetView;
use crate::localisation::{label_texts, labels_from};
use crate::locator::{events, Event};
use crate::parser::parse_statement;
use crate::reach::{
    imports, includes, is_read, lemma_is_read_extends, lemma_is_read_step, lemma_targets_step,
    line_end, targets, targets_from, extends, Files,
};
use crate::registry::{distinct_names, recorded, registered, retrieved, Registry};
use crate::resolver::{resolve, ProjectView, Resolution};
use crate::sequences::{lemma_filter_agree, lemma_filter_all, lemma_filter_twice};
use crate::text::{contains, lemma_run_end, CharClass};
use vstd::prelude::*;

verus! {

/// A file that is being read: its path, its contents and the start of the
/// next line to read.
pub struct FrameView {
    pub path: Seq<char>,
    pub contents: Seq<char>,
    pub line: int,
}

/// The state of a walk.
pub struct Model {
    pub project: ProjectView,
    /// The name of the accessor class, where labels are looked for.
    pub class_name: Option<Seq<char>>,
    /// Whether uses of the locator are looked for.
    pub locators_enabled: bool,
    pub entry: Seq<char>,
    /// The files met so far, in the order in which they were met.
    pub visited: Seq<Seq<char>>,
    /// The files that are being read, the one on top last.
    pub frames: Seq<FrameView>,
    /// The file whose contents are asked for.
    pub awaited: Option<Seq<char>>,
    /// The contents handed in so far, by path.
    pub read: Files,
    /// The files that have been read to their end.
    pub finished: Set<Seq<char>>,
    pub deps: Seq<Seq<char>>,
    pub assets: Seq<AssetView>,
    pub labels: Seq<Seq<char>>,
    pub locators: Registry,
    /// The candidates that the walk started with.
    pub all_deps: Seq<Seq<char>>,
    pub all_assets: Seq<AssetView>,
    pub all_labels: Seq<Seq<char>>,
    /// The dependencies that were dropped on meeting an import of theirs.
    pub imported: Set<Seq<char>>,
}

/// A statement has been dealt with: the file it names, if it names one, has
/// been met.
pub open spec fn handled(r: Resolution, visited: Seq<Seq<char>>) -> bool {
    match r {
        Resolution::Source(file) => visited.contains(file),
        Resolution::Fragment(file) => visited.contains(file),
        _ => true,
    }
}

/// A file whose contents were handed in declares the file as a part.
pub open spec fn is_part(read: Files, project: ProjectView, file: Seq<char>) -> bool {
    exists|whole: Seq<char>| #[trigger] includes(read, project, whole, file)
}

/// One of the files `among` holds the text `needle`.
pub open spec fn mentioned(read: Files, among: Set<Seq<char>>, needle: Seq<char>) -> bool {
    exists|file: Seq<char>| among.contains(file) && #[trigger] contains(read[file], needle)
}

/// The labels that a text refers to.
pub open spec fn labels_of(contents: Seq<char>, class_name: Seq<char>) -> Seq<Seq<char>> {
    label_texts(contents, labels_from(contents, class_name, 0))
}

/// One of the files `among` refers to the label.
pub open spec fn labelled(
    read: Files,
    among: Set<Seq<char>>,
    class_name: Seq<char>,
    label: Seq<char>,
) -> bool {
    exists|file: Seq<char>|
        among.contains(file) && (#[trigger] labels_of(read[file], class_name)).contains(label)
}

/// One of the files `among` holds the event.
pub open spec fn signalled(read: Files, among: Set<Seq<char>>, event: Event) -> bool {
    exists|file: Seq<char>| among.contains(file) && (#[trigger] events(read[file])).contains(event)
}

/// The test that a text does not hold a name.
pub open spec fn lacks(contents: Seq<char>) -> spec_fn(Seq<char>) -> bool {
    |name: Seq<char>| !contains(contents, name)
}

/// The test that a text does not hold the file name of an asset.
pub open spec fn lacks_asset(contents: Seq<char>) -> spec_fn(AssetView) -> bool {
    |asset: AssetView| !contains(contents, asset.file_name)
}

/// The test that a label is not among those found.
pub open spec fn not_among(found: Seq<Seq<char>>) -> spec_fn(Seq<char>) -> bool {
    |label: Seq<char>| !found.contains(label)
}

/// The test that a name is another than the given one.
pub open spec fn other_than(name: Seq<char>) -> spec_fn(Seq<char>) -> bool {
    |other: Seq<char>| other != name
}

/// The test that a dependency is still a candidate: no import of it was met
/// and no finished file holds its name.
pub open spec fn unused_dep(read: Files, finished: Set<Seq<char>>, imported: Set<Seq<char>>)
    -> spec_fn(Seq<char>) -> bool {
    |name: Seq<char>| !imported.contains(name) && !mentioned(read, finished, name)
}

/// The test that an asset is still a candidate: no finished file holds its
/// file name.
pub open spec fn unused_asset(read: Files, finished: Set<Seq<char>>) -> spec_fn(AssetView) -> bool {
    |asset: AssetView| !mentioned(read, finished, asset.file_name)
}

/// The test that a label is still a candidate: no finished file refers to
/// it.
pub open spec fn unused_label(read: Files, finished: Set<Seq<char>>, class_name: Seq<char>)
    -> spec_fn(Seq<char>) -> bool {
    |label: Seq<char>| !labelled(read, finished, class_name, label)
}

impl Model {
    /// The file is on the stack.
    pub open spec fn on_stack(self, file: Seq<char>) -> bool {
        exists|i: int| 0 <= i < self.frames.len() && (#[trigger] self.frames[i]).path == file
    }

    /// The walk is over: nothing is being read and nothing is asked for.
    pub open spec fn done(self) -> bool {
        self.frames.len() == 0 && self.awaited is None
    }

    /// What holds of a file that is being read: its contents are those
    /// handed in, and each statement of it either has been dealt with or
    /// stands in a line that is still to be read.
    pub open spec fn frame_ok(self, frame: FrameView) -> bool {
        &&& self.read.dom().contains(frame.path)
        &&& self.read[frame.path] == frame.contents
        &&& !self.finished.contains(frame.path)
        &&& 0 <= frame.line <= frame.contents.len()
        &&& forall|r: Resolution| #[trigger]
            targets_from(frame.contents, frame.path, self.project, 0).contains(r) ==> handled(
                r,
                self.visited,
            ) || targets_from(frame.contents, frame.path, self.project, frame.line).contains(r)
        &&& forall|r: Resolution| #[trigger]
            targets_from(frame.contents, frame.path, self.project, frame.line).contains(r)
                ==> targets_from(frame.contents, frame.path, self.project, 0).contains(r)
    }

    /// Every file on the stack is in order, and no file is there twice.
    pub open spec fn frames_ok(self) -> bool {
        &&& forall|i: int| 0 <= i < self.frames.len() ==> self.frame_ok(#[trigger] self.frames[i])
        &&& forall|i: int, j: int|
            0 <= i < j < self.frames.len() ==> (#[trigger] self.frames[i]).path
                != (#[trigger] self.frames[j]).path
    }

    /// No file is met twice; the entry file is met first of all and is read
    /// or asked for.
    pub open spec fn visited_ok(self) -> bool {
        &&& self.visited.no_duplicates()
        &&& self.visited.contains(self.entry)
        &&& self.read.dom().contains(self.entry) || self.awaited == Some(self.entry)
        &&& self.awaited matches Some(file) ==> self.visited.contains(file)
            && !self.read.dom().contains(file)
    }

    /// The files whose contents were handed in are those that are finished
    /// and those on the stack, and all of them have been met.
    pub open spec fn read_ok(self) -> bool {
        &&& self.read.dom().finite()
        &&& forall|file: Seq<char>| #[trigger]
            self.read.dom().contains(file) ==> self.visited.contains(file) && (
            self.finished.contains(file) || self.on_stack(file))
        &&& forall|file: Seq<char>| #[trigger]
            self.finished.contains(file) ==> self.read.dom().contains(file)
    }

    /// Every file that a finished file names has been met.
    pub open spec fn closed(self) -> bool {
        forall|file: Seq<char>, r: Resolution|
            self.finished.contains(file) && #[trigger] targets(self.read, self.project, file).contains(
                r,
            ) ==> handled(r, self.visited)
    }

    /// Every file that has been met is read, asked for, or a part of a file
    /// that is read.
    pub open spec fn justified(self) -> bool {
        forall|file: Seq<char>| #[trigger]
            self.visited.contains(file) ==> self.read.dom().contains(file) || self.awaited == Some(
                file,
            ) || is_part(self.read, self.project, file)
    }

    /// Every file that is read or asked for is reached from the entry file.
    pub open spec fn sound(self) -> bool {
        forall|file: Seq<char>|
            self.read.dom().contains(file) || self.awaited == Some(file) ==> #[trigger] is_read(
                self.read,
                self.project,
                self.entry,
                file,
            )
    }

    /// The dependencies that are still candidates are those of the start
    /// that are unused so far, in their order. A dependency is dropped on an
    /// import only if a file that was handed in holds its name.
    pub open spec fn deps_ok(self) -> bool {
        &&& self.deps == self.all_deps.filter(
            unused_dep(self.read, self.finished, self.imported),
        )
        &&& forall|name: Seq<char>| #[trigger]
            self.imported.contains(name) ==> mentioned(self.read, self.read.dom(), name)
    }

    /// The assets that are still candidates are those of the start that are
    /// unused so far, in their order.
    pub open spec fn assets_ok(self) -> bool {
        self.assets == self.all_assets.filter(unused_asset(self.read, self.finished))
    }

    /// The labels that are still candidates are those of the start that are
    /// unused so far, in their order. Where labels are not looked for, the
    /// candidates stay as they are.
    pub open spec fn labels_ok(self) -> bool {
        match self.class_name {
            Some(class_name) => self.labels == self.all_labels.filter(
                unused_label(self.read, self.finished, class_name),
            ),
            None => self.labels == self.all_labels,
        }
    }

    /// The registry has an entry for each type that a finished file
    /// registers or retrieves, marked as retrieved if a finished file
    /// retrieves it. Where the locator is not looked for, it is empty.
    pub open spec fn locators_ok(self) -> bool {
        &&& distinct_names(self.locators)
        &&& if self.locators_enabled {
            forall|name: Seq<char>|
                #![trigger registered(self.locators, name)]
                #![trigger retrieved(self.locators, name)]
                {
                    &&& registered(self.locators, name) <==> signalled(
                        self.read,
                        self.finished,
                        Event::Register(name),
                    ) || signalled(self.read, self.finished, Event::Get(name))
                    &&& retrieved(self.locators, name) <==> signalled(
                        self.read,
                        self.finished,
                        Event::Get(name),
                    )
                }
        } else {
            self.locators.len() == 0
        }
    }

    /// What holds of a walk at every moment.
    pub open spec fn inv(self) -> bool {
        &&& self.frames_ok()
        &&& self.visited_ok()
        &&& self.read_ok()
        &&& self.closed()
        &&& self.justified()
        &&& self.sound()
        &&& self.deps_ok()
        &&& self.assets_ok()
        &&& self.labels_ok()
        &&& self.locators_ok()
    }

    /// The state at the start of a walk.
    pub open spec fn start(
        project: ProjectView,
        entry: Seq<char>,
        class_name: Option<Seq<char>>,
        locators_enabled: bool,
        deps: Seq<Seq<char>>,
        assets: Seq<AssetView>,
        labels: Seq<Seq<char>>,
    ) -> Model {
        Model {
            project,
            class_name,
            locators_enabled,
            entry,
            visited: seq![entry],
            frames: seq![],
            awaited: Some(entry),
            read: Map::empty(),
            finished: Set::empty(),
            deps,
            assets,
            labels,
            locators: seq![],
            all_deps: deps,
            all_assets: assets,
            all_labels: labels,
            imported: Set::empty(),
        }
    }

    /// The state after the contents of the awaited file were handed in.
    pub open spec fn entered(self, contents: Seq<char>) -> Model {
        let path = self.awaited->0;
        Model {
            frames: self.frames.push(FrameView { path, contents, line: 0 }),
            awaited: None,
            read: self.read.insert(path, contents),
            ..self
        }
    }

    /// The state after a new file was met.
    pub open spec fn met(self, file: Seq<char>) -> Model {
        Model { visited: self.visited.push(file), ..self }
    }

    /// The state after the file on top was read up to `line`.
    pub open spec fn advanced(self, line: int) -> Model {
        Model {
            frames: self.frames.update(
                self.frames.len() - 1,
                FrameView { line, ..self.frames.last() },
            ),
            ..self
        }
    }
}

/// The start of a walk is in order.
pub proof fn lemma_start(m: Model)
    requires
        m == Model::start(
            m.project,
            m.entry,
            m.class_name,
            m.locators_enabled,
            m.deps,
            m.assets,
            m.labels,
        ),
    ensures
        m.inv(),
{
    assert(m.visited[0] == m.entry);
    assert(is_read(m.read, m.project, m.entry, m.entry)) by {
        assert(crate::reach::reached_in(m.read, m.project, m.entry, 0, m.entry));
    }
    lemma_filter_all(m.all_deps, unused_dep(m.read, m.finished, m.imported));
    lemma_filter_all(m.all_assets, unused_asset(m.read, m.finished));
    if let Some(class_name) = m.class_name {
        lemma_filter_all(m.all_labels, unused_label(m.read, m.finished, class_name));
    }
}

/// Handing in the contents of the awaited file keeps the walk in order.
pub proof fn lemma_entered(m: Model, contents: Seq<char>)
    requires
        m.inv(),
        m.awaited is Some,
    ensures
        m.entered(contents).inv(),
{
    let path = m.awaited->0;
    let n = m.entered(contents);
    assert forall|i: int, j: int| 0 <= i < j < n.frames.len() implies (#[trigger] n.frames[i]).path
        != (#[trigger] n.frames[j]).path by {}
    assert forall|file: Seq<char>| #[trigger] n.read.dom().contains(file) implies n.visited.contains(
        file,
    ) && (n.finished.contains(file) || n.on_stack(file)) by {
        if file == path {
            assert(n.frames[m.frames.len() as int].path == file);
        } else {
            if m.on_stack(file) {
                let i = choose|i: int| 0 <= i < m.frames.len() && (#[trigger] m.frames[i]).path
                    == file;
                assert(n.frames[i].path == file);
            }
        }
    }
    assert forall|file: Seq<char>, r: Resolution|
        n.finished.contains(file) && #[trigger] targets(n.read, n.project, file).contains(
            r,
        ) implies handled(r, n.visited) by {
        assert(targets(m.read, m.project, file).contains(r));
    }
    assert forall|file: Seq<char>| #[trigger] n.visited.contains(file) implies n.read.dom().contains(
        file,
    ) || n.awaited == Some(file) || is_part(n.read, n.project, file) by {
        if !m.read.dom().contains(file) && m.awaited != Some(file) {
            let whole = choose|whole: Seq<char>| #[trigger]
                includes(m.read, m.project, whole, file);
            assert(includes(n.read, n.project, whole, file));
        }
    }
    assert forall|file: Seq<char>|
        n.read.dom().contains(file) || n.awaited == Some(file) implies #[trigger] is_read(
        n.read,
        n.project,
        n.entry,
        file,
    ) by {
        lemma_is_read_extends(n.read, m.read, m.project, m.entry, file);
    }
    lemma_candidates_entered(m, contents);
}

/// The files among `among` hold the same in a project that extends the one
/// they were handed in to.
pub proof fn lemma_among_extends(larger: Files, smaller: Files, among: Set<Seq<char>>)
    requires
        extends(larger, smaller),
        forall|file: Seq<char>| #[trigger] among.contains(file) ==> smaller.dom().contains(file),
    ensures
        forall|needle: Seq<char>|
            mentioned(larger, among, needle) <==> mentioned(smaller, among, needle),
        forall|class_name: Seq<char>, label: Seq<char>|
            labelled(larger, among, class_name, label) <==> labelled(
                smaller,
                among,
                class_name,
                label,
            ),
        forall|event: Event| signalled(larger, among, event) <==> signalled(smaller, among, event),
{
}

/// Handing in the contents of a file leaves the candidates as they are.
proof fn lemma_candidates_entered(m: Model, contents: Seq<char>)
    requires
        m.inv(),
        m.awaited is Some,
    ensures
        m.entered(contents).deps_ok(),
        m.entered(contents).assets_ok(),
        m.entered(contents).labels_ok(),
        m.entered(contents).locators_ok(),
{
    let n = m.entered(contents);
    lemma_among_extends(n.read, m.read, m.finished);
    assert forall|name: Seq<char>| #[trigger] n.imported.contains(name) implies mentioned(
        n.read,
        n.read.dom(),
        name,
    ) by {
        let file = choose|file: Seq<char>|
            m.read.dom().contains(file) && #[trigger] contains(m.read[file], name);
        assert(contains(n.read[file], name));
    }
    lemma_filter_agree(
        m.all_deps,
        unused_dep(m.read, m.finished, m.imported),
        unused_dep(n.read, n.finished, n.imported),
    );
    lemma_filter_agree(
        m.all_assets,
        unused_asset(m.read, m.finished),
        unused_asset(n.read, n.finished),
    );
    if let Some(class_name) = m.class_name {
        lemma_filter_agree(
            m.all_labels,
            unused_label(m.read, m.finished, class_name),
            unused_label(n.read, n.finished, class_name),
        );
    }
}

/// The statement of the line that starts at `line`, if the line is one.
pub open spec fn statement_at(frame: FrameView, project: ProjectView) -> Option<Resolution> {
    match parse_statement(
        frame.contents.subrange(frame.line, line_end(frame.contents, frame.line)),
    ) {
        Ok((_, statement)) => Some(resolve(statement, frame.path, project)),
        Err(_) => None,
    }
}

/// Where the line behind the one that starts at `line` starts.
pub open spec fn next_line(frame: FrameView) -> int {
    let end = line_end(frame.contents, frame.line);
    if end < frame.contents.len() {
        end + 1
    } else {
        end
    }
}

/// What a line names is among what the lines from it on name.
pub proof fn lemma_statement_ahead(frame: FrameView, project: ProjectView)
    requires
        0 <= frame.line < frame.contents.len(),
    ensures
        statement_at(frame, project) matches Some(r) ==> targets_from(
            frame.contents,
            frame.path,
            project,
            frame.line,
        ).contains(r),
        frame.line < next_line(frame) <= frame.contents.len(),
{
    lemma_run_end(frame.contents, frame.line, CharClass::Except('\n'));
    if let Some(r) = statement_at(frame, project) {
        let ahead = targets_from(frame.contents, frame.path, project, frame.line);
        assert(ahead[0] == r);
    }
}

/// Meeting a part of the file on top keeps the walk in order.
pub proof fn lemma_met_fragment(m: Model, file: Seq<char>)
    requires
        m.inv(),
        m.frames.len() > 0,
        !m.visited.contains(file),
        targets_from(
            m.frames.last().contents,
            m.frames.last().path,
            m.project,
            m.frames.last().line,
        ).contains(Resolution::Fragment(file)),
    ensures
        m.met(file).inv(),
{
    let n = m.met(file);
    let top = m.frames.last();
    lemma_met(m, file, m.awaited);
    assert(includes(m.read, m.project, top.path, file));
    assert forall|other: Seq<char>| #[trigger] n.visited.contains(other) implies n.read.dom().contains(
        other,
    ) || n.awaited == Some(other) || is_part(n.read, n.project, other) by {
        if other != file {
            assert(m.visited.contains(other));
        }
    }
}

/// Meeting a file that the file on top imports, and asking for it, keeps
/// the walk in order.
pub proof fn lemma_met_source(m: Model, file: Seq<char>)
    requires
        m.inv(),
        m.frames.len() > 0,
        m.awaited is None,
        !m.visited.contains(file),
        targets_from(
            m.frames.last().contents,
            m.frames.last().path,
            m.project,
            m.frames.last().line,
        ).contains(Resolution::Source(file)),
    ensures
        (Model { awaited: Some(file), ..m.met(file) }).inv(),
{
    let n = Model { awaited: Some(file), ..m.met(file) };
    let top = m.frames.last();
    lemma_met(m, file, Some(file));
    lemma_is_read_step(m.read, m.project, m.entry, top.path, file);
    assert forall|other: Seq<char>| #[trigger] n.visited.contains(other) implies n.read.dom().contains(
        other,
    ) || n.awaited == Some(other) || is_part(n.read, n.project, other) by {
        if other != file {
            assert(m.visited.contains(other));
        }
    }
}

/// What meeting a file leaves as it is, whatever is asked for afterwards.
proof fn lemma_met(m: Model, file: Seq<char>, awaited: Option<Seq<char>>)
    requires
        m.inv(),
        !m.visited.contains(file),
    ensures
        (Model { awaited, ..m.met(file) }).frames_ok(),
        (Model { awaited, ..m.met(file) }).read_ok(),
        (Model { awaited, ..m.met(file) }).closed(),
        (Model { awaited, ..m.met(file) }).deps_ok(),
        (Model { awaited, ..m.met(file) }).assets_ok(),
        (Model { awaited, ..m.met(file) }).labels_ok(),
        (Model { awaited, ..m.met(file) }).locators_ok(),
        m.met(file).visited.no_duplicates(),
        m.met(file).visited.contains(file),
        forall|other: Seq<char>| m.visited.contains(other) ==> m.met(file).visited.contains(other),
        forall|other: Seq<char>|
            m.met(file).visited.contains(other) ==> other == file || m.visited.contains(other),
{
    let n = Model { awaited, ..m.met(file) };
    assert(n.visited[m.visited.len() as int] == file);
    assert forall|other: Seq<char>| m.visited.contains(other) implies n.visited.contains(other) by {
        let i = choose|i: int| 0 <= i < m.visited.len() && m.visited[i] == other;
        assert(n.visited[i] == other);
    }
    assert forall|i: int| 0 <= i < n.frames.len() implies n.frame_ok(#[trigger] n.frames[i]) by {}
}

/// Going on to the next line, when the line before names nothing that is
/// still to be met, keeps the walk in order.
pub proof fn lemma_advanced(m: Model)
    requires
        m.inv(),
        m.frames.len() > 0,
        m.frames.last().line < m.frames.last().contents.len(),
        statement_at(m.frames.last(), m.project) matches Some(r) ==> handled(r, m.visited),
    ensures
        m.advanced(next_line(m.frames.last())).inv(),
{
    let top = m.frames.last();
    let n = m.advanced(next_line(top));
    let last = m.frames.len() - 1;
    let after = n.frames[last];
    lemma_statement_ahead(top, m.project);
    lemma_run_end(top.contents, top.line, CharClass::Except('\n'));
    assert(m.frame_ok(top));
    let all = targets_from(top.contents, top.path, m.project, 0);
    let ahead = targets_from(top.contents, top.path, m.project, top.line);
    let end = line_end(top.contents, top.line);
    let rest = targets_from(top.contents, top.path, m.project, end + 1);
    let behind = targets_from(top.contents, top.path, m.project, after.line);
    assert(behind == rest) by {
        if end >= top.contents.len() {
            assert(rest.len() == 0);
            assert(behind.len() == 0);
        }
    }
    assert forall|r: Resolution| #[trigger] behind.contains(r) implies all.contains(r) by {
        lemma_targets_step(top.contents, top.path, m.project, top.line, r);
    }
    assert forall|r: Resolution| #[trigger] all.contains(r) implies handled(r, n.visited)
        || behind.contains(r) by {
        if !handled(r, m.visited) {
            assert(ahead.contains(r));
            let i = choose|i: int| 0 <= i < ahead.len() && ahead[i] == r;
            match statement_at(top, m.project) {
                Some(first) => {
                    assert(ahead == seq![first] + rest);
                    assert(i > 0);
                    assert(rest[i - 1] == r);
                },
                None => {},
            }
        }
    }
    assert(n.frame_ok(after));
    assert forall|i: int| 0 <= i < n.frames.len() implies n.frame_ok(#[trigger] n.frames[i]) by {
        if i < last {
            assert(m.frame_ok(m.frames[i]));
        }
    }
    assert forall|i: int, j: int| 0 <= i < j < n.frames.len() implies (#[trigger] n.frames[i]).path
        != (#[trigger] n.frames[j]).path by {
        assert(m.frames[i].path != m.frames[j].path);
    }
    assert forall|other: Seq<char>| #[trigger] n.read.dom().contains(other) implies n.visited.contains(
        other,
    ) && (n.finished.contains(other) || n.on_stack(other)) by {
        if m.on_stack(other) {
            let i = choose|i: int| 0 <= i < m.frames.len() && (#[trigger] m.frames[i]).path
                == other;
            assert(n.frames[i].path == other);
        }
    }
}

/// Dropping a dependency whose import stands in the file on top keeps the
/// walk in order.
pub proof fn lemma_imported(m: Model, name: Seq<char>, deps: Seq<Seq<char>>)
    requires
        m.inv(),
        m.frames.len() > 0,
        contains(m.frames.last().contents, name),
        deps == m.deps.filter(other_than(name)),
    ensures
        (Model { deps, imported: m.imported.insert(name), ..m }).inv(),
{
    let n = Model { deps, imported: m.imported.insert(name), ..m };
    assert(n.frames_ok());
    assert(n.read_ok()) by {
        assert forall|other: Seq<char>| #[trigger] n.read.dom().contains(other) implies (
        n.finished.contains(other) || n.on_stack(other)) by {
            if m.on_stack(other) {
                let i = choose|i: int| 0 <= i < m.frames.len() && (#[trigger] m.frames[i]).path
                    == other;
                assert(n.frames[i].path == other);
            }
        }
    }
    lemma_filter_twice(
        m.all_deps,
        unused_dep(m.read, m.finished, m.imported),
        other_than(name),
        unused_dep(n.read, n.finished, n.imported),
    );
}

/// What the candidates have to be once the file on top is finished, given
/// what they were before.
pub open spec fn pruned(
    m: Model,
    deps: Seq<Seq<char>>,
    assets: Seq<AssetView>,
    labels: Seq<Seq<char>>,
    locators: Registry,
) -> bool {
    let contents = m.frames.last().contents;
    &&& deps == m.deps.filter(lacks(contents))
    &&& assets == m.assets.filter(lacks_asset(contents))
    &&& match m.class_name {
        Some(class_name) => labels == m.labels.filter(not_among(labels_of(contents, class_name))),
        None => labels == m.labels,
    }
    &&& if m.locators_enabled {
        recorded(m.locators, events(contents), locators)
    } else {
        locators == m.locators
    }
}

impl Model {
    /// The state after the file on top was finished.
    pub open spec fn finished_with(
        self,
        deps: Seq<Seq<char>>,
        assets: Seq<AssetView>,
        labels: Seq<Seq<char>>,
        locators: Registry,
    ) -> Model {
        Model {
            frames: self.frames.drop_last(),
            finished: self.finished.insert(self.frames.last().path),
            deps,
            assets,
            labels,
            locators,
            ..self
        }
    }
}

/// Finishing the file on top, once its last line was read and the
/// candidates were pruned by what it holds, keeps the walk in order.
pub proof fn lemma_finished(
    m: Model,
    deps: Seq<Seq<char>>,
    assets: Seq<AssetView>,
    labels: Seq<Seq<char>>,
    locators: Registry,
)
    requires
        m.inv(),
        m.frames.len() > 0,
        m.frames.last().line == m.frames.last().contents.len(),
        pruned(m, deps, assets, labels, locators),
    ensures
        m.finished_with(deps, assets, labels, locators).inv(),
{
    let n = m.finished_with(deps, assets, labels, locators);
    let top = m.frames.last();
    assert(n.read_ok()) by {
        assert forall|other: Seq<char>| #[trigger] n.read.dom().contains(other) implies (
        n.finished.contains(other) || n.on_stack(other)) by {
            if m.on_stack(other) && other != top.path {
                let i = choose|i: int| 0 <= i < m.frames.len() && (#[trigger] m.frames[i]).path
                    == other;
                assert(n.frames[i].path == other);
            }
        }
    }
    lemma_filter_twice(
        m.all_deps,
        unused_dep(m.read, m.finished, m.imported),
        lacks(top.contents),
        unused_dep(n.read, n.finished, n.imported),
    );
    lemma_filter_twice(
        m.all_assets,
        unused_asset(m.read, m.finished),
        lacks_asset(top.contents),
        unused_asset(n.read, n.finished),
    );
    if let Some(class_name) = m.class_name {
        lemma_filter_twice(
            m.all_labels,
            unused_label(m.read, m.finished, class_name),
            not_among(labels_of(top.contents, class_name)),
            unused_label(n.read, n.finished, class_name),
        );
    }
}

} // verus!
