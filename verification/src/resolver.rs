//! From a statement to the file it names.
//!
//! Paths are kept as strings. The arithmetic on them is that of
//! `std::path` and of the `path_dedot` crate, reached through the few
//! functions at the end of this file whose contracts are taken on trust.
//! Every path that a statement names is brought into one normal form, so
//! that two spellings of one file are met as one file.

use crate::parser::{DartFile, Statement};
use crate::sequences::lemma_filter_push;
use crate::text::{find, has_text, lemma_find, search, texts, to_chars};
use path_dedot::ParseDot;
use std::path::Path;
use vstd::prelude::*;

verus! {

/// What `Path::parent` returns for `path`, on the platform that the library is
/// built for.
pub uninterp spec fn parent_of(path: Seq<char>) -> Option<Seq<char>>;

/// What `Path::join` returns for `base` and `path`, on the platform that the
/// library is built for.
pub uninterp spec fn join_of(base: Seq<char>, path: Seq<char>) -> Seq<char>;

/// What `Path::file_name` returns for `path`, on the platform that the
/// library is built for.
pub uninterp spec fn file_name_of(path: Seq<char>) -> Option<Seq<char>>;

/// What `Path::with_file_name` returns for `path` and `name`, on the platform
/// that the library is built for.
pub uninterp spec fn with_file_name_of(path: Seq<char>, name: Seq<char>) -> Seq<char>;

/// What `ParseDot::parse_dot_from` returns for `path`, with `cwd` as the
/// directory that a leading `.` or `..` stands for, on the platform that the
/// library is built for.
pub uninterp spec fn dedot_of(path: Seq<char>, cwd: Seq<char>) -> Option<Seq<char>>;

/// The view of an optional string.
pub open spec fn text_of(s: Option<String>) -> Option<Seq<char>> {
    match s {
        Some(s) => Some(s@),
        None => None,
    }
}

/// The project that a statement is read in.
#[derive(Debug)]
pub struct Project {
    /// The name under which the project's own files are imported.
    pub package_name: String,
    /// The directory against which a path that starts with `.` or `..` is
    /// resolved: the project's root.
    pub root: String,
}

/// The mathematical value of a [`Project`].
pub struct ProjectView {
    pub package_name: Seq<char>,
    pub root: Seq<char>,
}

impl View for Project {
    type V = ProjectView;

    open spec fn view(&self) -> ProjectView {
        ProjectView { package_name: self.package_name@, root: self.root@ }
    }
}

/// What a statement names.
#[derive(Debug, PartialEq, Eq)]
pub enum Target {
    /// A file of the project that is to be read in turn.
    Source(String),
    /// A file of the project that belongs to the declaring file and is not
    /// read for statements of its own.
    Fragment(String),
    /// A package from outside the project.
    Dependency(String),
}

/// The mathematical value of a [`Target`].
pub enum Resolution {
    Source(Seq<char>),
    Fragment(Seq<char>),
    Dependency(Seq<char>),
}

impl View for Target {
    type V = Resolution;

    open spec fn view(&self) -> Resolution {
        match self {
            Target::Source(path) => Resolution::Source(path@),
            Target::Fragment(path) => Resolution::Fragment(path@),
            Target::Dependency(name) => Resolution::Dependency(name@),
        }
    }
}

/// The three characters that stand for a space in a path.
pub open spec fn escaped_space() -> Seq<char> {
    seq!['%', '2', '0']
}

/// The directory of the project's own sources.
pub open spec fn source_root() -> Seq<char> {
    "lib"@
}

/// `s` from `from` on, with each `%20` replaced by a space, read from left
/// to right.
pub open spec fn decoded_from(s: Seq<char>, from: int) -> Seq<char>
    decreases s.len() - from,
    when 0 <= from <= s.len()
{
    match find(s, escaped_space(), from) {
        Some(at) => {
            proof {
                lemma_find(s, escaped_space(), from);
            }
            s.subrange(from, at) + seq![' '] + decoded_from(s, at + 3)
        },
        None => s.subrange(from, s.len() as int),
    }
}

/// `s` with each `%20` replaced by a space.
pub open spec fn decoded(s: Seq<char>) -> Seq<char> {
    decoded_from(s, 0)
}

/// The one form in which a path is met and compared: the path freed of
/// `.`, `..` and doubled separators. A path that does not end in a file name
/// has no such form and stands as it is.
pub open spec fn normal_of(path: Seq<char>, root: Seq<char>) -> Seq<char> {
    if file_name_of(path) is Some {
        match dedot_of(path, root) {
            Some(clean) => clean,
            None => path,
        }
    } else {
        path
    }
}

/// The directory of a file, the empty one where the path has none.
pub open spec fn directory_of(file: Seq<char>) -> Seq<char> {
    match parent_of(file) {
        Some(directory) => directory,
        None => Seq::empty(),
    }
}

/// The file that a relative path names when it stands in the file
/// `declaring`: the path is decoded, joined to the directory of the
/// declaring file and brought into the normal form. A path that names no
/// file, such as `..`, is handed on as it is joined, so that the attempt to
/// read it fails.
pub open spec fn relative_target(path: Seq<char>, declaring: Seq<char>, root: Seq<char>) -> Seq<
    char,
> {
    normal_of(join_of(directory_of(declaring), decoded(path)), root)
}

/// The file of the project that a package path names: the decoded path
/// under the directory of the project's own sources, in the normal form.
pub open spec fn package_target(path: Seq<char>, root: Seq<char>) -> Seq<char> {
    normal_of(source_root() + decoded(path), root)
}

/// The file that a part names when it is declared in the file `declaring`:
/// the path of the declaring file with the name in the place of its file
/// name, in the normal form.
pub open spec fn part_target(name: Seq<char>, declaring: Seq<char>, root: Seq<char>) -> Seq<char> {
    normal_of(with_file_name_of(declaring, name), root)
}

/// What a statement names when it stands in the file `declaring`.
pub open spec fn resolve(statement: Statement, declaring: Seq<char>, project: ProjectView)
    -> Resolution {
    match statement {
        Statement::Import(path) | Statement::Export(path) => Resolution::Source(
            relative_target(path, declaring, project.root),
        ),
        Statement::Package(name, path) => if name == project.package_name {
            Resolution::Source(package_target(path, project.root))
        } else {
            Resolution::Dependency(name)
        },
        Statement::Part(name) => Resolution::Fragment(part_target(name, declaring, project.root)),
    }
}

/// Replaces each `%20` of `path` by a space.
pub fn decode(path: &str) -> (clean: String)
    ensures
        clean@ == decoded(path@),
{
    let chars = to_chars(path);
    let escape = to_chars("%20");
    proof {
        reveal_strlit("%20");
    }
    let mut clean = String::new();
    let mut from: usize = 0;
    loop
        invariant
            from <= chars@.len(),
            chars@ == path@,
            escape@ == escaped_space(),
            decoded(path@) == clean@ + decoded_from(path@, from as int),
        decreases chars@.len() - from,
    {
        match search(chars.as_slice(), escape.as_slice(), from) {
            Some(at) => {
                proof {
                    reveal_strlit(" ");
                }
                clean.append(path.substring_char(from, at));
                clean.append(" ");
                from = at + 3;
            },
            None => {
                clean.append(path.substring_char(from, chars.len()));
                return clean;
            },
        }
    }
}

/// Brings a path into the normal form, given what `Path::file_name` and
/// `ParseDot::parse_dot_from` return for it: the second result where the path
/// has a file name and the result is there, and the path itself otherwise.
pub fn normal_form(path: String, file_name: Option<String>, clean: Option<String>) -> (normal:
    String)
    ensures
        normal@ == if file_name is Some && clean is Some {
            clean->0@
        } else {
            path@
        },
{
    match (file_name, clean) {
        (Some(_), Some(clean)) => clean,
        _ => path,
    }
}

/// Brings a path into the normal form.
pub fn normalise(path: String, root: &str) -> (normal: String)
    ensures
        normal@ == normal_of(path@, root@),
{
    let file_name = path_file_name(path.as_str());
    let clean = if file_name.is_some() {
        dedot(path.as_str(), root)
    } else {
        None
    };
    normal_form(path, file_name, clean)
}

/// The normal form of each path of a list.
pub open spec fn normals(paths: Seq<Seq<char>>, root: Seq<char>) -> Seq<Seq<char>> {
    paths.map_values(|path: Seq<char>| normal_of(path, root))
}

/// The test that a path is none of `others`, each taken in its normal form.
pub open spec fn unmatched(others: Seq<Seq<char>>, root: Seq<char>) -> spec_fn(Seq<char>) -> bool {
    |path: Seq<char>| !normals(others, root).contains(normal_of(path, root))
}

/// Brings each path of a list into the normal form.
pub fn normalise_all(paths: &Vec<String>, root: &str) -> (normal: Vec<String>)
    ensures
        texts(normal@) == normals(texts(paths@), root@),
{
    let mut normal: Vec<String> = Vec::new();
    let mut i: usize = 0;
    while i < paths.len()
        invariant
            i <= paths@.len(),
            normal@.len() == i,
            forall|k: int| 0 <= k < i ==> (#[trigger] normal@[k])@ == normal_of(paths@[k]@, root@),
        decreases paths@.len() - i,
    {
        normal.push(normalise(paths[i].clone(), root));
        i += 1;
    }
    assert(texts(normal@) =~= normals(texts(paths@), root@));
    normal
}

/// The paths of `all` that are none of `others`, in the order of `all`. Two
/// paths are the same if their normal forms are.
pub fn without_matches(all: Vec<String>, others: &Vec<String>, root: &str) -> (rest: Vec<String>)
    ensures
        texts(rest@) == texts(all@).filter(unmatched(texts(others@), root@)),
{
    let known = normalise_all(others, root);
    let ghost keep = unmatched(texts(others@), root@);
    let mut rest: Vec<String> = Vec::new();
    let mut i: usize = 0;
    while i < all.len()
        invariant
            i <= all@.len(),
            keep == unmatched(texts(others@), root@),
            texts(known@) == normals(texts(others@), root@),
            texts(rest@) == texts(all@).take(i as int).filter(keep),
        decreases all@.len() - i,
    {
        proof {
            let seen = texts(all@).take(i as int);
            assert(texts(all@).take(i + 1) =~= seen.push(all@[i as int]@));
            lemma_filter_push(seen, all@[i as int]@, keep);
        }
        let normal = normalise(all[i].clone(), root);
        if !has_text(&known, &normal) {
            let ghost before = texts(rest@);
            rest.push(all[i].clone());
            assert(texts(rest@) =~= before.push(all@[i as int]@));
        }
        i += 1;
    }
    assert(texts(all@).take(i as int) =~= texts(all@));
    rest
}

/// Resolves a relative path that stands in the file `declaring`.
pub fn resolve_relative(path: &str, declaring: &str, root: &str) -> (file: String)
    ensures
        file@ == relative_target(path@, declaring@, root@),
{
    let directory = match path_parent(declaring) {
        Some(directory) => directory,
        None => String::new(),
    };
    let clean = decode(path);
    normalise(path_join(directory.as_str(), clean.as_str()), root)
}

/// Resolves a package path to the file of the project's own sources.
pub fn resolve_package(path: &str, root: &str) -> (file: String)
    ensures
        file@ == package_target(path@, root@),
{
    let clean = decode(path);
    normalise(String::from_str("lib").concat(clean.as_str()), root)
}

/// Resolves a part that is declared in the file `declaring`.
pub fn resolve_part(name: &str, declaring: &str, root: &str) -> (file: String)
    ensures
        file@ == part_target(name@, declaring@, root@),
{
    normalise(path_with_file_name(declaring, name), root)
}

/// Resolves a statement that stands in the file `declaring`.
pub fn resolve_statement(statement: &DartFile, declaring: &str, project: &Project) -> (target:
    Target)
    ensures
        target@ == resolve(statement@, declaring@, project@),
{
    let root = project.root.as_str();
    match statement {
        DartFile::Import(path) => Target::Source(resolve_relative(path.as_str(), declaring, root)),
        DartFile::Export(path) => Target::Source(resolve_relative(path.as_str(), declaring, root)),
        DartFile::Package(name, path) => if *name == project.package_name {
            Target::Source(resolve_package(path.as_str(), root))
        } else {
            Target::Dependency(name.clone())
        },
        DartFile::Part(name) => Target::Fragment(resolve_part(name.as_str(), declaring, root)),
    }
}

/// `Path::parent` of `std::path`: the path without its last component, or
/// nothing where the path is empty or a root. The method only takes the path
/// apart, so the result depends on the path alone; [`parent_of`] names it.
#[verifier::external_body]
pub(crate) fn path_parent(path: &str) -> (parent: Option<String>)
    ensures
        text_of(parent) == parent_of(path@),
{
    match Path::new(path).parent() {
        Some(parent) => Some(parent.to_string_lossy().into_owned()),
        None => None,
    }
}

/// `Path::join` of `std::path`: `path` adjoined to `base`, or `path` alone
/// where it is absolute. The method only puts the two paths together, so the
/// result depends on them alone; [`join_of`] names it.
#[verifier::external_body]
fn path_join(base: &str, path: &str) -> (joined: String)
    ensures
        joined@ == join_of(base@, path@),
{
    Path::new(base).join(path).to_string_lossy().into_owned()
}

/// `Path::file_name` of `std::path`: the last component of the path, or
/// nothing where the path ends in `..` or has no component that is a name.
/// The result depends on the path alone; [`file_name_of`] names it.
#[verifier::external_body]
pub(crate) fn path_file_name(path: &str) -> (name: Option<String>)
    ensures
        text_of(name) == file_name_of(path@),
{
    match Path::new(path).file_name() {
        Some(name) => Some(name.to_string_lossy().into_owned()),
        None => None,
    }
}

/// `Path::with_file_name` of `std::path`: the path with `name` in the place
/// of its last component. The result depends on the two arguments alone;
/// [`with_file_name_of`] names it.
#[verifier::external_body]
fn path_with_file_name(path: &str, name: &str) -> (replaced: String)
    ensures
        replaced@ == with_file_name_of(path@, name@),
{
    Path::new(path).with_file_name(name).to_string_lossy().into_owned()
}

/// `ParseDot::parse_dot_from` of `path_dedot`: the path without its `.` and
/// `..` components, a leading one of them replaced by `cwd` or by the parent
/// of `cwd`. The method reads neither the environment nor the disk, so the
/// result depends on the two arguments alone; [`dedot_of`] names it.
///
/// The method keeps a list of the components that are left and takes one off
/// for every `..`. It cannot make a path of an empty list. A path that ends in
/// a file name always leaves that name in the list, so this function asks for
/// such a path.
#[verifier::external_body]
fn dedot(path: &str, cwd: &str) -> (clean: Option<String>)
    requires
        file_name_of(path@) is Some,
    ensures
        text_of(clean) == dedot_of(path@, cwd@),
{
    match Path::new(path).parse_dot_from(cwd) {
        Ok(clean) => Some(clean.to_string_lossy().into_owned()),
        Err(_) => None,
    }
}

} // verus!
