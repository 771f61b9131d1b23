//! What a walk comes to.
//!
//! The laws speak of the state of a walk and of a project that holds, under
//! the same paths, every file whose contents were handed in to the walk.

use crate::locator::Event;
use crate::machine::{lemma_fed, lemma_fed_reads, lemma_one_less, same_walk};
use crate::model::{
    other_than, signalled, statement_at, unused_asset, unused_dep, unused_label, Model,
};
use crate::parser::Statement;
use crate::reach::{
    extends, imports, includes, is_read, is_referenced, lemma_is_read_extends, reached_in, targets,
    unambiguous, Files,
};
use crate::registry::{registered, retrieved};
use crate::resolver::{resolve, ProjectView, Resolution};
use crate::sequences::lemma_filter_agree;
use vstd::prelude::*;

verus! {

/// The files of a project that a walk from `entry` reads.
pub open spec fn read_set(files: Files, project: ProjectView, entry: Seq<char>) -> Set<Seq<char>> {
    Set::new(|file: Seq<char>| is_read(files, project, entry, file))
}

/// A file that the walk asks for or has been handed is reached from the
/// entry file by imports and exports: a file that is only ever declared as a
/// part is not read.
pub proof fn lemma_asked_is_read(m: Model, world: Files)
    requires
        m.inv(),
        extends(world, m.read),
    ensures
        forall|file: Seq<char>|
            m.read.dom().contains(file) || m.awaited == Some(file) ==> #[trigger] is_read(
                world,
                m.project,
                m.entry,
                file,
            ),
{
    assert forall|file: Seq<char>|
        m.read.dom().contains(file) || m.awaited == Some(file) implies #[trigger] is_read(
        world,
        m.project,
        m.entry,
        file,
    ) by {
        lemma_is_read_extends(world, m.read, m.project, m.entry, file);
    }
}

/// Every file that a walk has met is referenced in the project, at every
/// moment of the walk.
pub proof fn lemma_visits_what_is_referenced(m: Model, world: Files)
    requires
        m.inv(),
        extends(world, m.read),
    ensures
        forall|file: Seq<char>| #[trigger]
            m.visited.contains(file) ==> is_referenced(world, m.project, m.entry, file),
{
    lemma_asked_is_read(m, world);
    assert forall|file: Seq<char>| #[trigger] m.visited.contains(file) implies is_referenced(
        world,
        m.project,
        m.entry,
        file,
    ) by {
        if !m.read.dom().contains(file) && m.awaited != Some(file) {
            let whole = choose|whole: Seq<char>| #[trigger]
                includes(m.read, m.project, whole, file);
            assert(includes(world, m.project, whole, file));
        }
    }
}

/// When a walk through an unambiguous project is over, every file that
/// imports reach within `steps` steps has been read.
proof fn lemma_reached_is_read(m: Model, world: Files, steps: nat, file: Seq<char>)
    requires
        m.inv(),
        m.done(),
        extends(world, m.read),
        unambiguous(world, m.project, m.entry),
        reached_in(world, m.project, m.entry, steps, file),
    ensures
        m.read.dom().contains(file),
    decreases steps,
{
    if steps > 0 {
        let from = choose|from: Seq<char>|
            reached_in(world, m.project, m.entry, (steps - 1) as nat, from) && #[trigger] imports(
                world,
                m.project,
                from,
                file,
            );
        lemma_reached_is_read(m, world, (steps - 1) as nat, from);
        assert(targets(m.read, m.project, from).contains(Resolution::Source(file)));
        if !m.read.dom().contains(file) {
            let whole = choose|whole: Seq<char>| #[trigger]
                includes(m.read, m.project, whole, file);
            lemma_asked_is_read(m, world);
            assert(includes(world, m.project, whole, file));
        }
    }
}

/// When a walk through an unambiguous project is over, the files it has met
/// are those that the project references from the entry file, and the files
/// it has read are those that imports and exports reach. This holds whatever
/// the order in which the statements were met, and whether or not the imports
/// form cycles.
pub proof fn lemma_reaches_what_is_referenced(m: Model, world: Files)
    requires
        m.inv(),
        m.done(),
        extends(world, m.read),
        unambiguous(world, m.project, m.entry),
    ensures
        forall|file: Seq<char>|
            #![trigger m.visited.contains(file)]
            #![trigger m.read.dom().contains(file)]
            {
                &&& m.visited.contains(file) <==> is_referenced(world, m.project, m.entry, file)
                &&& m.read.dom().contains(file) <==> is_read(world, m.project, m.entry, file)
            },
        m.finished == read_set(world, m.project, m.entry),
        m.read.dom() == read_set(world, m.project, m.entry),
{
    lemma_asked_is_read(m, world);
    lemma_visits_what_is_referenced(m, world);
    assert forall|file: Seq<char>| is_read(world, m.project, m.entry, file) implies m.read.dom().contains(
        file,
    ) by {
        let steps = choose|steps: nat| reached_in(world, m.project, m.entry, steps, file);
        lemma_reached_is_read(m, world, steps, file);
    }
    assert forall|file: Seq<char>| is_referenced(world, m.project, m.entry, file) implies m.visited.contains(
        file,
    ) by {
        if !is_read(world, m.project, m.entry, file) {
            let whole = choose|whole: Seq<char>|
                is_read(world, m.project, m.entry, whole) && #[trigger] includes(
                    world,
                    m.project,
                    whole,
                    file,
                );
            assert(m.read.dom().contains(whole));
            assert(targets(m.read, m.project, whole).contains(Resolution::Fragment(file)));
        } else {
            assert(m.read.dom().contains(file));
        }
    }
    assert forall|file: Seq<char>| m.read.dom().contains(file) implies m.finished.contains(
        file,
    ) by {}
}

/// An import of a package other than the project's own names no file: it
/// marks the package as used, and nothing else.
pub proof fn lemma_foreign_package_is_no_file(
    name: Seq<char>,
    path: Seq<char>,
    declaring: Seq<char>,
    project: ProjectView,
)
    requires
        name != project.package_name,
    ensures
        resolve(Statement::Package(name, path), declaring, project) == Resolution::Dependency(name),
{
}

/// When a walk through an unambiguous project is over, the candidates that
/// are left are those of the start that no file that was read uses, in the
/// order of the start: a dependency or an asset whose name stands in no such
/// file, a label that no such file refers to. The registry holds the types
/// that such a file registers or retrieves, marked if one retrieves them.
pub proof fn lemma_leaves_what_is_unused(m: Model, world: Files)
    requires
        m.inv(),
        m.done(),
        extends(world, m.read),
        unambiguous(world, m.project, m.entry),
    ensures
        m.deps == m.all_deps.filter(
            unused_dep(world, read_set(world, m.project, m.entry), Set::empty()),
        ),
        m.assets == m.all_assets.filter(
            unused_asset(world, read_set(world, m.project, m.entry)),
        ),
        match m.class_name {
            Some(class_name) => m.labels == m.all_labels.filter(
                unused_label(world, read_set(world, m.project, m.entry), class_name),
            ),
            None => m.labels == m.all_labels,
        },
        m.locators_enabled ==> forall|name: Seq<char>|
            #![trigger registered(m.locators, name)]
            #![trigger retrieved(m.locators, name)]
            {
                let among = read_set(world, m.project, m.entry);
                &&& registered(m.locators, name) <==> signalled(
                    world,
                    among,
                    Event::Register(name),
                ) || signalled(world, among, Event::Get(name))
                &&& retrieved(m.locators, name) <==> signalled(world, among, Event::Get(name))
            },
        !m.locators_enabled ==> m.locators.len() == 0,
{
    lemma_reaches_what_is_referenced(m, world);
    let among = read_set(world, m.project, m.entry);
    lemma_filter_agree(
        m.all_deps,
        unused_dep(m.read, m.finished, m.imported),
        unused_dep(world, among, Set::empty()),
    );
    lemma_filter_agree(m.all_assets, unused_asset(m.read, m.finished), unused_asset(world, among));
    if let Some(class_name) = m.class_name {
        lemma_filter_agree(
            m.all_labels,
            unused_label(m.read, m.finished, class_name),
            unused_label(world, among, class_name),
        );
    }
}

/// It does not matter in which order the statements of an unambiguous
/// project are met: two walks that have the start in common and are over
/// have met the same files and are left with the same candidates and the same
/// registry.
pub proof fn lemma_order_does_not_matter(a: Model, b: Model, world: Files)
    requires
        a.inv(),
        b.inv(),
        a.done(),
        b.done(),
        same_walk(a, b),
        extends(world, a.read),
        extends(world, b.read),
        unambiguous(world, a.project, a.entry),
    ensures
        forall|file: Seq<char>| a.visited.contains(file) <==> b.visited.contains(file),
        a.read.dom() == b.read.dom(),
        a.deps == b.deps,
        a.assets == b.assets,
        a.labels == b.labels,
        forall|name: Seq<char>|
            #![trigger registered(a.locators, name)]
            #![trigger retrieved(a.locators, name)]
            {
                &&& registered(a.locators, name) <==> registered(b.locators, name)
                &&& retrieved(a.locators, name) <==> retrieved(b.locators, name)
            },
{
    lemma_reaches_what_is_referenced(a, world);
    lemma_reaches_what_is_referenced(b, world);
    lemma_leaves_what_is_unused(a, world);
    lemma_leaves_what_is_unused(b, world);
    assert forall|name: Seq<char>|
        #![trigger registered(a.locators, name)]
        #![trigger retrieved(a.locators, name)]
        {
            &&& registered(a.locators, name) <==> registered(b.locators, name)
            &&& retrieved(a.locators, name) <==> retrieved(b.locators, name)
        } by {}
}

/// Walking twice through a project that has not changed gives the same:
/// the end of a walk is determined by its start and by the project, with
/// every file that was met and every candidate that was left, each in its
/// place.
pub proof fn lemma_walk_again(start: Model, files: Files, first: Model, second: Model)
    requires
        first == start.walked(files),
        second == start.walked(files),
    ensures
        first == second,
{
}

/// No file is met twice, and no file is asked for twice: a file that is
/// asked for has been met and has not been handed in before. So a cycle of
/// imports is gone through once.
pub proof fn lemma_no_file_twice(m: Model)
    requires
        m.inv(),
    ensures
        m.visited.no_duplicates(),
        m.awaited matches Some(file) ==> m.visited.contains(file) && !m.read.dom().contains(
            file,
        ),
{
}

/// A line that imports a package other than the project's own changes
/// nothing but the candidate dependencies, of which it drops the package: no
/// file is met, and none is asked for.
pub proof fn lemma_foreign_package_only_prunes(m: Model, name: Seq<char>)
    requires
        !m.resting(),
        0 <= m.frames.last().line < m.frames.last().contents.len(),
        statement_at(m.frames.last(), m.project) == Some(Resolution::Dependency(name)),
    ensures
        m.step().visited == m.visited,
        m.step().awaited == m.awaited,
        m.step().deps == m.deps.filter(other_than(name)),
        m.step().assets == m.assets,
        m.step().labels == m.labels,
        m.step().locators == m.locators,
{
}

/// A walk through a project comes to an end, whether or not the imports form
/// cycles: it is over then, or it asks for a file that the project does not
/// hold. It stays in order and within the project.
pub proof fn lemma_walk_ends(m: Model, files: Files)
    requires
        m.inv(),
        m.awaited is None ==> m.frames.len() == 0,
        files.dom().finite(),
        extends(files, m.read),
    ensures
        m.walked(files).inv(),
        extends(files, m.walked(files).read),
        same_walk(m.walked(files), m),
        match m.walked(files).awaited {
            Some(path) => !files.dom().contains(path),
            None => m.walked(files).done(),
        },
    decreases files.dom().difference(m.read.dom()).len(),
{
    if let Some(path) = m.awaited {
        if files.dom().contains(path) {
            let next = m.fed(files[path]);
            lemma_fed(m, files[path]);
            lemma_fed_reads(m, files[path]);
            lemma_one_less(files, m.read, path, files[path]);
            lemma_walk_ends(next, files);
        }
    }
}

} // verus!
