//! What the front end decides before and around a run.

use crate::assets::PathKind;
use crate::reach::line_end;
use crate::resolver::{parent_of, path_parent, text_of};
use crate::text::{lemma_run_end, scan, CharClass, Text};
use vstd::prelude::*;

verus! {

/// The directory in which a run takes place, given the path that the user
/// names: the path itself where it is a directory, and the directory of the
/// path where it is a file. There is none where nothing stands under the
/// path, or the file has no directory.
pub open spec fn working_directory_of(path: Seq<char>, kind: PathKind) -> Option<Seq<char>> {
    match kind {
        PathKind::Directory => Some(path),
        PathKind::File => parent_of(path),
        PathKind::Neither => None,
    }
}

/// Decides in which directory a run takes place.
pub fn working_directory(path: &str, kind: PathKind) -> (directory: Option<String>)
    ensures
        text_of(directory) == working_directory_of(path@, kind),
{
    match kind {
        PathKind::Directory => Some(path.to_owned()),
        PathKind::File => path_parent(path),
        PathKind::Neither => None,
    }
}

/// Where the text of the line that starts at `from` ends: at the end of the
/// line, or before a carriage return that stands directly before the line
/// feed.
pub open spec fn line_text_end(s: Seq<char>, from: int) -> int {
    let end = line_end(s, from);
    if from < end < s.len() && s[end - 1] == '\r' {
        end - 1
    } else {
        end
    }
}

/// The last line, from the line that starts at `from` on, that is not empty:
/// where its text starts and ends.
pub open spec fn last_line_from(s: Seq<char>, from: int) -> Option<(int, int)>
    decreases s.len() + 1 - from,
    when 0 <= from
{
    if from < s.len() {
        proof {
            lemma_run_end(s, from, CharClass::Except('\n'));
        }
        let later = last_line_from(s, line_end(s, from) + 1);
        if later is Some {
            later
        } else if from < line_text_end(s, from) {
            Some((from, line_text_end(s, from)))
        } else {
            None
        }
    } else {
        None
    }
}

/// The text of the last line of `s` that is not empty.
pub open spec fn last_line_of(s: Seq<char>) -> Option<Seq<char>> {
    match last_line_from(s, 0) {
        Some((start, end)) => Some(s.subrange(start, end)),
        None => None,
    }
}

/// Finds the last line of the output of a command that is not empty.
pub fn last_line(output: &str) -> (line: Option<String>)
    ensures
        text_of(line) == last_line_of(output@),
{
    let text = Text::new(output.to_owned());
    let chars = text.chars();
    let mut best: Option<(usize, usize)> = None;
    let mut from: usize = 0;
    while from < chars.len()
        invariant
            from <= chars@.len() + 1,
            chars@ == output@,
            text@ == output@,
            best matches Some((start, end)) ==> start <= end <= chars@.len(),
            last_line_from(output@, 0) == match last_line_from(output@, from as int) {
                Some(later) => Some(later),
                None => match best {
                    Some((start, end)) => Some((start as int, end as int)),
                    None => None,
                },
            },
        decreases chars@.len() + 1 - from,
    {
        let end = scan(chars, from, CharClass::Except('\n'));
        let stop = if from < end && end < chars.len() && chars[end - 1] == '\r' {
            end - 1
        } else {
            end
        };
        if from < stop {
            best = Some((from, stop));
        }
        if end == chars.len() {
            assert(last_line_from(output@, end + 1) is None);
            from = end;
        } else {
            from = end + 1;
        }
    }
    match best {
        Some((start, end)) => Some(text.cut(start, end)),
        None => None,
    }
}

} // verus!
