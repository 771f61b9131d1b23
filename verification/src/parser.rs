//! The statements of a Dart source line that tie one file to another:
//! `import`, `export` and `part`.
//!
//! A statement is recognised only at the very start of a line. It is made of
//! a keyword, at least one blank, an opening quote of either style and a
//! literal that runs up to the next quote of either style and is not empty.
//! What lies behind the literal, the closing quote included, is left unread.

use crate::text::{
    contains, is_quote, lemma_contains_part, lemma_run_end, occurs_at, run_end, scan,
    starts_with_at, to_chars, CharClass, Text,
};
use vstd::prelude::*;
use vstd::slice::slice_subrange;

verus! {

/// A statement that names another file or package.
#[derive(Debug, PartialEq, Eq, PartialOrd, Ord)]
pub enum DartFile {
    /// `import` of a path relative to the importing file.
    Import(String),
    /// `import` of `package:<name><path>`; the path starts with its `/`.
    Package(String, String),
    /// `part` of a file beside the declaring file.
    Part(String),
    /// `export` of a path relative to the exporting file.
    Export(String),
}

/// The mathematical value of a [`DartFile`].
pub enum Statement {
    Import(Seq<char>),
    Package(Seq<char>, Seq<char>),
    Part(Seq<char>),
    Export(Seq<char>),
}

impl View for DartFile {
    type V = Statement;

    open spec fn view(&self) -> Statement {
        match self {
            DartFile::Import(path) => Statement::Import(path@),
            DartFile::Package(name, path) => Statement::Package(name@, path@),
            DartFile::Part(name) => Statement::Part(name@),
            DartFile::Export(path) => Statement::Export(path@),
        }
    }
}

impl Clone for DartFile {
    fn clone(&self) -> (copy: Self)
        ensures
            copy@ == self@,
    {
        match self {
            DartFile::Import(path) => DartFile::Import(path.clone()),
            DartFile::Package(name, path) => DartFile::Package(name.clone(), path.clone()),
            DartFile::Part(name) => DartFile::Part(name.clone()),
            DartFile::Export(path) => DartFile::Export(path.clone()),
        }
    }
}

/// Why a line yields no statement.
#[derive(Debug, PartialEq, Eq, Clone, Copy)]
pub enum ParseError {
    /// The line does not have the shape of a statement.
    NoMatch,
    /// The line is an `import` or `export` whose literal holds a colon and is
    /// no package import: a library of the platform, which is no file.
    Unsupported,
}

impl ParseError {
    /// A sentence for the user.
    pub fn message(&self) -> (sentence: &'static str)
        ensures
            sentence@ == match self {
                ParseError::NoMatch => "Failed to parse dart file"@,
                ParseError::Unsupported => "Package imports are not supported"@,
            },
    {
        match self {
            ParseError::NoMatch => "Failed to parse dart file",
            ParseError::Unsupported => "Package imports are not supported",
        }
    }
}

/// The keyword of an import.
pub open spec fn import_keyword() -> Seq<char> {
    "import"@
}

/// The keyword of a part.
pub open spec fn part_keyword() -> Seq<char> {
    "part"@
}

/// The keyword of an export.
pub open spec fn export_keyword() -> Seq<char> {
    "export"@
}

/// What the literal of a package import starts with.
pub open spec fn package_scheme() -> Seq<char> {
    "package:"@
}

/// Where the literal that follows `keyword` lies in `line`: the position
/// behind the opening quote and the position of the closing quote.
pub open spec fn literal(line: Seq<char>, keyword: Seq<char>) -> Option<(int, int)> {
    let gap = keyword.len() as int;
    let open = run_end(line, gap, CharClass::Space);
    let end = run_end(line, open + 1, CharClass::Unquoted);
    if occurs_at(line, keyword, 0) && gap < open < line.len() && is_quote(line[open]) && open + 1
        < end < line.len() {
        Some((open + 1, end))
    } else {
        None
    }
}

/// Where the package name ends in the literal of a package import: at the
/// first `/` behind the scheme.
pub open spec fn package_name_end(body: Seq<char>) -> int {
    run_end(body, package_scheme().len() as int, CharClass::Except('/'))
}

/// Whether a literal is that of a package import: the scheme, a name that is
/// not empty, and a path that starts with `/`.
pub open spec fn is_package_literal(body: Seq<char>) -> bool {
    occurs_at(body, package_scheme(), 0) && package_scheme().len() < package_name_end(body)
        < body.len()
}

/// What a parser hands back: the position at which the unread rest of the
/// line starts, and the statement.
pub type Parsed = Result<(int, Statement), ParseError>;

/// A package import: an import whose literal is that of a package.
pub open spec fn parse_package(line: Seq<char>) -> Parsed {
    match literal(line, import_keyword()) {
        Some((start, end)) => {
            let body = line.subrange(start, end);
            let slash = package_name_end(body);
            if is_package_literal(body) {
                Ok(
                    (
                        end,
                        Statement::Package(
                            body.subrange(package_scheme().len() as int, slash),
                            body.subrange(slash, body.len() as int),
                        ),
                    ),
                )
            } else {
                Err(ParseError::NoMatch)
            }
        },
        None => Err(ParseError::NoMatch),
    }
}

/// An import of a relative path: an import whose literal holds no colon.
pub open spec fn parse_import(line: Seq<char>) -> Parsed {
    match literal(line, import_keyword()) {
        Some((start, end)) => {
            let body = line.subrange(start, end);
            if body.contains(':') {
                Err(ParseError::Unsupported)
            } else {
                Ok((end, Statement::Import(body)))
            }
        },
        None => Err(ParseError::NoMatch),
    }
}

/// A part, whatever its literal holds.
pub open spec fn parse_part(line: Seq<char>) -> Parsed {
    match literal(line, part_keyword()) {
        Some((start, end)) => Ok((end, Statement::Part(line.subrange(start, end)))),
        None => Err(ParseError::NoMatch),
    }
}

/// An export of a relative path: an export whose literal holds no colon.
pub open spec fn parse_export(line: Seq<char>) -> Parsed {
    match literal(line, export_keyword()) {
        Some((start, end)) => {
            let body = line.subrange(start, end);
            if body.contains(':') {
                Err(ParseError::Unsupported)
            } else {
                Ok((end, Statement::Export(body)))
            }
        },
        None => Err(ParseError::NoMatch),
    }
}

/// The statement of a line: the first of package import, import, part and
/// export that the line is. A line that is none of them is unsupported if it
/// is an import or export but for the colon in its literal.
pub open spec fn parse_statement(line: Seq<char>) -> Parsed {
    if parse_package(line) is Ok {
        parse_package(line)
    } else if parse_import(line) is Ok {
        parse_import(line)
    } else if parse_part(line) is Ok {
        parse_part(line)
    } else if parse_export(line) is Ok {
        parse_export(line)
    } else if parse_import(line) == Parsed::Err(ParseError::Unsupported) || parse_export(line)
        == Parsed::Err(ParseError::Unsupported) {
        Err(ParseError::Unsupported)
    } else {
        Err(ParseError::NoMatch)
    }
}

/// The name of the package stands in the line of a package import.
pub proof fn lemma_package_name_stands(line: Seq<char>)
    ensures
        parse_statement(line) matches Ok((_, Statement::Package(name, _))) ==> contains(line, name),
{
    if let Ok((_, Statement::Package(name, _))) = parse_statement(line) {
        let (start, end) = literal(line, import_keyword())->0;
        let body = line.subrange(start, end);
        let from = package_scheme().len() as int;
        assert(occurs_at(body, name, from));
        lemma_contains_part(line, start, end, name);
    }
}

/// Whether a result is the given mathematical one: the same statement with
/// what is left of `input` from the position at which reading stopped, or the
/// same error.
pub open spec fn agrees(
    r: Result<(&str, DartFile), ParseError>,
    input: Seq<char>,
    parsed: Parsed,
) -> bool {
    match r {
        Ok((rest, statement)) => parsed matches Ok((at, s)) && s == statement@ && 0 <= at
            <= input.len() && rest@ == input.subrange(at, input.len() as int),
        Err(e) => parsed == Parsed::Err(e),
    }
}

/// Whether a result, which counts its position in a whole text, is the given
/// one of the line that starts at `base`.
pub open spec fn agrees_at(
    r: Result<(usize, DartFile), ParseError>,
    base: int,
    parsed: Parsed,
) -> bool {
    match r {
        Ok((rest, statement)) => parsed == Parsed::Ok((rest - base, statement@)),
        Err(e) => parsed == Parsed::Err(e),
    }
}

/// Tests whether `c` is one of the two quotes.
pub fn quote(c: char) -> (b: bool)
    ensures
        b == is_quote(c),
{
    c == '\'' || c == '"'
}

/// Finds the end of a literal that starts at `from`: the next quote, if there
/// is one and the literal is not empty.
pub fn take_until_quote(line: &[char], from: usize) -> (end: Option<usize>)
    requires
        from <= line@.len(),
    ensures
        match end {
            Some(end) => end == run_end(line@, from as int, CharClass::Unquoted) && from < end
                < line@.len(),
            None => !(from < run_end(line@, from as int, CharClass::Unquoted) < line@.len()),
        },
{
    let end = scan(line, from, CharClass::Unquoted);
    if from < end && end < line.len() {
        Some(end)
    } else {
        None
    }
}

/// Tests that a literal holds no colon.
pub fn no_colons_in_input(body: &[char]) -> (b: bool)
    ensures
        b == !body@.contains(':'),
{
    proof {
        lemma_run_end(body@, 0, CharClass::Except(':'));
    }
    scan(body, 0, CharClass::Except(':')) == body.len()
}

/// Finds the literal that follows `keyword` at the start of `line`.
pub fn find_literal(line: &[char], keyword: &str) -> (found: Option<(usize, usize)>)
    ensures
        match found {
            Some((start, end)) => literal(line@, keyword@) == Some((start as int, end as int))
                && start < end < line@.len(),
            None => literal(line@, keyword@) is None,
        },
{
    let keyword_chars = to_chars(keyword);
    if !starts_with_at(line, keyword_chars.as_slice(), 0) {
        return None;
    }
    let gap = keyword_chars.len();
    let open = scan(line, gap, CharClass::Space);
    if open == gap || open >= line.len() || !quote(line[open]) {
        return None;
    }
    match take_until_quote(line, open + 1) {
        Some(end) => Some((open + 1, end)),
        None => None,
    }
}

/// Parses the line `from..to` of `text` as a package import. Positions in the
/// result count from the start of the text.
pub fn package_in(text: &Text, from: usize, to: usize) -> (r: Result<(usize, DartFile), ParseError>)
    requires
        from <= to <= text@.len(),
    ensures
        agrees_at(r, from as int, parse_package(text@.subrange(from as int, to as int))),
{
    let line = slice_subrange(text.chars(), from, to);
    match find_literal(line, "import") {
        Some((start, end)) => {
            let body = slice_subrange(line, start, end);
            let scheme = to_chars("package:");
            if !starts_with_at(body, scheme.as_slice(), 0) {
                return Err(ParseError::NoMatch);
            }
            let slash = scan(body, scheme.len(), CharClass::Except('/'));
            if slash == scheme.len() || slash >= body.len() {
                return Err(ParseError::NoMatch);
            }
            let base = from + start;
            proof {
                let l = text@.subrange(from as int, to as int);
                let b = l.subrange(start as int, end as int);
                assert(b.subrange(scheme@.len() as int, slash as int) =~= text@.subrange(
                    base + scheme@.len(),
                    base + slash,
                ));
                assert(b.subrange(slash as int, b.len() as int) =~= text@.subrange(
                    base + slash,
                    from + end,
                ));
            }
            let name = text.cut(base + scheme.len(), base + slash);
            let path = text.cut(base + slash, from + end);
            Ok((from + end, DartFile::Package(name, path)))
        },
        None => Err(ParseError::NoMatch),
    }
}

/// The kinds of statement whose literal is taken whole.
#[derive(Clone, Copy, Debug)]
pub enum Plain {
    Import,
    Part,
    Export,
}

impl Plain {
    /// What a line is when it is read as a statement of this kind.
    pub open spec fn parse(self, line: Seq<char>) -> Parsed {
        match self {
            Plain::Import => parse_import(line),
            Plain::Part => parse_part(line),
            Plain::Export => parse_export(line),
        }
    }
}

/// Parses the line `from..to` of `text` as a statement of the given kind.
/// Positions in the result count from the start of the text.
pub fn plain_in(kind: Plain, text: &Text, from: usize, to: usize) -> (r: Result<
    (usize, DartFile),
    ParseError,
>)
    requires
        from <= to <= text@.len(),
    ensures
        agrees_at(r, from as int, kind.parse(text@.subrange(from as int, to as int))),
{
    let line = slice_subrange(text.chars(), from, to);
    let keyword = match kind {
        Plain::Import => "import",
        Plain::Part => "part",
        Plain::Export => "export",
    };
    match find_literal(line, keyword) {
        Some((start, end)) => {
            let body = slice_subrange(line, start, end);
            let colon_free = no_colons_in_input(body);
            proof {
                let l = text@.subrange(from as int, to as int);
                assert(l.subrange(start as int, end as int) =~= text@.subrange(
                    from + start,
                    from + end,
                ));
            }
            match kind {
                Plain::Part => Ok((from + end, DartFile::Part(text.cut(from + start, from + end)))),
                Plain::Import => if colon_free {
                    Ok((from + end, DartFile::Import(text.cut(from + start, from + end))))
                } else {
                    Err(ParseError::Unsupported)
                },
                Plain::Export => if colon_free {
                    Ok((from + end, DartFile::Export(text.cut(from + start, from + end))))
                } else {
                    Err(ParseError::Unsupported)
                },
            }
        },
        None => Err(ParseError::NoMatch),
    }
}

/// Parses the line `from..to` of `text`. Positions in the result count from
/// the start of the text.
pub fn statement_in(text: &Text, from: usize, to: usize) -> (r: Result<
    (usize, DartFile),
    ParseError,
>)
    requires
        from <= to <= text@.len(),
    ensures
        agrees_at(r, from as int, parse_statement(text@.subrange(from as int, to as int))),
{
    let package = package_in(text, from, to);
    if package.is_ok() {
        return package;
    }
    let import = plain_in(Plain::Import, text, from, to);
    if import.is_ok() {
        return import;
    }
    let part = plain_in(Plain::Part, text, from, to);
    if part.is_ok() {
        return part;
    }
    let export = plain_in(Plain::Export, text, from, to);
    if export.is_ok() {
        return export;
    }
    match (import, export) {
        (Err(ParseError::Unsupported), _) => Err(ParseError::Unsupported),
        (_, Err(ParseError::Unsupported)) => Err(ParseError::Unsupported),
        _ => Err(ParseError::NoMatch),
    }
}

/// Hands the rest of `input` out as a slice of it.
fn with_rest<'a>(
    input: &'a str,
    len: usize,
    r: Result<(usize, DartFile), ParseError>,
    Ghost(parsed): Ghost<Parsed>,
) -> (out: Result<(&'a str, DartFile), ParseError>)
    requires
        len == input@.len(),
        agrees_at(r, 0, parsed),
        r matches Ok((at, _)) ==> at <= len,
    ensures
        agrees(out, input@, parsed),
{
    match r {
        Ok((at, statement)) => Ok((input.substring_char(at, len), statement)),
        Err(e) => Err(e),
    }
}

/// Parses a package import: `import 'package:<name><path>'`.
pub fn package(input: &str) -> (r: Result<(&str, DartFile), ParseError>)
    ensures
        agrees(r, input@, parse_package(input@)),
{
    let text = Text::new(input.to_owned());
    assert(text@.subrange(0, text@.len() as int) =~= input@);
    let r = package_in(&text, 0, text.len());
    with_rest(input, text.len(), r, Ghost(parse_package(input@)))
}

/// Parses an `import` of a relative path. A literal with a colon is refused.
pub fn import_parser(input: &str) -> (r: Result<(&str, DartFile), ParseError>)
    ensures
        agrees(r, input@, parse_import(input@)),
{
    let text = Text::new(input.to_owned());
    assert(text@.subrange(0, text@.len() as int) =~= input@);
    let r = plain_in(Plain::Import, &text, 0, text.len());
    with_rest(input, text.len(), r, Ghost(parse_import(input@)))
}

/// Parses an `import` of a relative path and holds the statement to
/// [`DartFile::supported`].
pub fn import(input: &str) -> (r: Result<(&str, DartFile), ParseError>)
    ensures
        agrees(r, input@, parse_import(input@)),
{
    match import_parser(input) {
        Ok((rest, statement)) => match DartFile::supported(&statement) {
            Ok(statement) => Ok((rest, statement)),
            Err(e) => Err(e),
        },
        Err(e) => Err(e),
    }
}

/// Parses an `export` of a relative path. A literal with a colon is refused.
pub fn export_parser(input: &str) -> (r: Result<(&str, DartFile), ParseError>)
    ensures
        agrees(r, input@, parse_export(input@)),
{
    let text = Text::new(input.to_owned());
    assert(text@.subrange(0, text@.len() as int) =~= input@);
    let r = plain_in(Plain::Export, &text, 0, text.len());
    with_rest(input, text.len(), r, Ghost(parse_export(input@)))
}

/// Parses an `export` of a relative path.
pub fn export(input: &str) -> (r: Result<(&str, DartFile), ParseError>)
    ensures
        agrees(r, input@, parse_export(input@)),
{
    export_parser(input)
}

/// Parses a `part` statement.
pub fn part(input: &str) -> (r: Result<(&str, DartFile), ParseError>)
    ensures
        agrees(r, input@, parse_part(input@)),
{
    let text = Text::new(input.to_owned());
    assert(text@.subrange(0, text@.len() as int) =~= input@);
    let r = plain_in(Plain::Part, &text, 0, text.len());
    with_rest(input, text.len(), r, Ghost(parse_part(input@)))
}

/// Parses one line: a package import, an import, a part or an export,
/// whichever the line is.
pub fn dart_file(input: &str) -> (r: Result<(&str, DartFile), ParseError>)
    ensures
        agrees(r, input@, parse_statement(input@)),
{
    let text = Text::new(input.to_owned());
    assert(text@.subrange(0, text@.len() as int) =~= input@);
    let r = statement_in(&text, 0, text.len());
    with_rest(input, text.len(), r, Ghost(parse_statement(input@)))
}

impl DartFile {
    /// Whether a statement names something that can be a file of the
    /// project: anything but an `import` whose path holds a colon.
    pub open spec fn is_supported(statement: Statement) -> bool {
        !(statement matches Statement::Import(path) && path.contains(':'))
    }

    /// Copies a statement, refusing an `import` whose path holds a colon.
    pub fn supported(value: &DartFile) -> (r: Result<DartFile, ParseError>)
        ensures
            match r {
                Ok(statement) => Self::is_supported(value@) && statement@ == value@,
                Err(e) => !Self::is_supported(value@) && e == ParseError::Unsupported,
            },
    {
        match value {
            DartFile::Import(path) => {
                let chars = to_chars(path.as_str());
                if no_colons_in_input(chars.as_slice()) {
                    Ok(value.clone())
                } else {
                    Err(ParseError::Unsupported)
                }
            },
            _ => Ok(value.clone()),
        }
    }

    /// Parses one line into the statement it is.
    pub fn try_from(value: &str) -> (r: Result<DartFile, ParseError>)
        ensures
            match r {
                Ok(statement) => parse_statement(value@) matches Ok((_, s)) && s == statement@,
                Err(e) => parse_statement(value@) == Parsed::Err(e),
            },
    {
        match dart_file(value) {
            Ok((_, statement)) => Ok(statement),
            Err(e) => Err(e),
        }
    }
}

} // verus!
