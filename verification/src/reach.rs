//! Which files a project reaches from its entry file.
//!
//! A project is a map from paths to the contents of the files that can be
//! read. A file that is read names other files by its statements: those that
//! it imports or exports are read in turn, those that it declares as parts
//! are not.

use crate::parser::parse_statement;
use crate::resolver::{resolve, ProjectView, Resolution};
use crate::text::{lemma_run_end, run_end, CharClass};
use vstd::prelude::*;

verus! {

/// The contents of the files that can be read, by path.
pub type Files = Map<Seq<char>, Seq<char>>;

/// Where the line that starts at `from` ends: at the next line feed, or at
/// the end of the text.
pub open spec fn line_end(s: Seq<char>, from: int) -> int {
    run_end(s, from, CharClass::Except('\n'))
}

/// What the statements of `s` name, line by line from the line that starts at
/// `from`, when `s` is the contents of the file `declaring`. A line that is
/// no statement names nothing and is passed over.
pub open spec fn targets_from(s: Seq<char>, declaring: Seq<char>, project: ProjectView, from: int)
    -> Seq<Resolution>
    decreases s.len() + 1 - from,
    when 0 <= from
{
    if from < s.len() {
        proof {
            lemma_run_end(s, from, CharClass::Except('\n'));
        }
        let end = line_end(s, from);
        let rest = targets_from(s, declaring, project, end + 1);
        match parse_statement(s.subrange(from, end)) {
            Ok((_, statement)) => seq![resolve(statement, declaring, project)] + rest,
            Err(_) => rest,
        }
    } else {
        seq![]
    }
}

/// What the statements of the file `file` name.
pub open spec fn targets(files: Files, project: ProjectView, file: Seq<char>) -> Seq<Resolution> {
    targets_from(files[file], file, project, 0)
}

/// The file `from` can be read and imports or exports the file `to`.
pub open spec fn imports(files: Files, project: ProjectView, from: Seq<char>, to: Seq<char>)
    -> bool {
    files.dom().contains(from) && targets(files, project, from).contains(Resolution::Source(to))
}

/// The file `from` can be read and declares the file `to` as a part.
pub open spec fn includes(files: Files, project: ProjectView, from: Seq<char>, to: Seq<char>)
    -> bool {
    files.dom().contains(from) && targets(files, project, from).contains(Resolution::Fragment(to))
}

/// The file `file` is reached from `entry` by a chain of `steps` imports or
/// exports.
pub open spec fn reached_in(
    files: Files,
    project: ProjectView,
    entry: Seq<char>,
    steps: nat,
    file: Seq<char>,
) -> bool
    decreases steps,
{
    if steps == 0 {
        file == entry
    } else {
        exists|from: Seq<char>|
            reached_in(files, project, entry, (steps - 1) as nat, from) && #[trigger] imports(
                files,
                project,
                from,
                file,
            )
    }
}

/// The file is read when the project is walked from `entry`: it is the entry
/// file or is reached from it by imports and exports.
pub open spec fn is_read(files: Files, project: ProjectView, entry: Seq<char>, file: Seq<char>)
    -> bool {
    exists|steps: nat| reached_in(files, project, entry, steps, file)
}

/// The file is referenced when the project is walked from `entry`: it is
/// read, or a file that is read declares it as a part.
pub open spec fn is_referenced(
    files: Files,
    project: ProjectView,
    entry: Seq<char>,
    file: Seq<char>,
) -> bool {
    is_read(files, project, entry, file) || exists|from: Seq<char>|
        is_read(files, project, entry, from) && #[trigger] includes(files, project, from, file)
}

/// No file is both a part of a file that is read and imported or exported by
/// a file that is read. Where this fails, it depends on the order in which
/// the statements are met whether the file is read.
pub open spec fn unambiguous(files: Files, project: ProjectView, entry: Seq<char>) -> bool {
    forall|whole: Seq<char>, importer: Seq<char>, file: Seq<char>|
        is_read(files, project, entry, whole) && is_read(files, project, entry, importer)
            && #[trigger] includes(files, project, whole, file) ==> !#[trigger] imports(
            files,
            project,
            importer,
            file,
        )
}

/// One project holds all that another holds, with the same contents.
pub open spec fn extends(larger: Files, smaller: Files) -> bool {
    forall|file: Seq<char>| #[trigger]
        smaller.dom().contains(file) ==> larger.dom().contains(file) && larger[file]
            == smaller[file]
}

/// A chain of imports in a project is one in every project that extends it.
pub proof fn lemma_reached_in_extends(
    larger: Files,
    smaller: Files,
    project: ProjectView,
    entry: Seq<char>,
    steps: nat,
    file: Seq<char>,
)
    requires
        extends(larger, smaller),
        reached_in(smaller, project, entry, steps, file),
    ensures
        reached_in(larger, project, entry, steps, file),
    decreases steps,
{
    if steps > 0 {
        let from = choose|from: Seq<char>|
            reached_in(smaller, project, entry, (steps - 1) as nat, from) && #[trigger] imports(
                smaller,
                project,
                from,
                file,
            );
        lemma_reached_in_extends(larger, smaller, project, entry, (steps - 1) as nat, from);
        assert(imports(larger, project, from, file));
    }
}

/// What is read in a project is read in every project that extends it.
pub proof fn lemma_is_read_extends(
    larger: Files,
    smaller: Files,
    project: ProjectView,
    entry: Seq<char>,
    file: Seq<char>,
)
    requires
        extends(larger, smaller),
        is_read(smaller, project, entry, file),
    ensures
        is_read(larger, project, entry, file),
{
    let steps = choose|steps: nat| reached_in(smaller, project, entry, steps, file);
    lemma_reached_in_extends(larger, smaller, project, entry, steps, file);
}

/// What a file that is read imports is read.
pub proof fn lemma_is_read_step(
    files: Files,
    project: ProjectView,
    entry: Seq<char>,
    from: Seq<char>,
    to: Seq<char>,
)
    requires
        is_read(files, project, entry, from),
        imports(files, project, from, to),
    ensures
        is_read(files, project, entry, to),
{
    let steps = choose|steps: nat| reached_in(files, project, entry, steps, from);
    assert(reached_in(files, project, entry, steps + 1, to));
}

/// The lines from one line on are lines of the text read from any earlier
/// line start.
pub proof fn lemma_targets_step(
    s: Seq<char>,
    declaring: Seq<char>,
    project: ProjectView,
    from: int,
    r: Resolution,
)
    requires
        0 <= from < s.len(),
        targets_from(s, declaring, project, line_end(s, from) + 1).contains(r),
    ensures
        targets_from(s, declaring, project, from).contains(r),
{
    lemma_run_end(s, from, CharClass::Except('\n'));
    let end = line_end(s, from);
    let rest = targets_from(s, declaring, project, end + 1);
    let i = choose|i: int| 0 <= i < rest.len() && rest[i] == r;
    match parse_statement(s.subrange(from, end)) {
        Ok((_, statement)) => {
            let all = seq![resolve(statement, declaring, project)] + rest;
            assert(all[i + 1] == r);
        },
        Err(_) => {},
    }
}

} // verus!
