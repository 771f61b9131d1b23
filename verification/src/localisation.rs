//! References to localised labels.
//!
//! A label is read through the accessor class that the localisation tooling
//! generates, in one of three ways: `S.of(context).label`, `S.current.label`
//! or `S.maybeOf(context)?.label`, where `S` is the name of the class. Blanks
//! and line breaks may stand around either dot. All the references of a text
//! are found: the class name may well occur where no reference follows it.

use crate::parser::ParseError;
use crate::text::{
    find, has_char_at, lemma_find, lemma_run_end, occurs_at, position, run_end, scan, search,
    slices, span, spans, starts_with_at, texts, to_chars, CharClass, Text,
};
use vstd::prelude::*;

verus! {

/// Why the accessor class cannot be set or read.
#[derive(Debug, PartialEq, Eq, Clone, Copy)]
pub enum ConfigError {
    /// The class name is read before it was set.
    NotConfigured,
    /// The class name is set a second time.
    AlreadyConfigured,
}

/// The name of the accessor class of one run. It is set once and never
/// changed.
#[derive(Debug)]
pub struct ClassName {
    name: Option<String>,
}

impl ClassName {
    /// The name, if it has been set.
    pub closed spec fn value(&self) -> Option<Seq<char>> {
        match self.name {
            Some(name) => Some(name@),
            None => None,
        }
    }

    /// A class name that has not been set yet.
    pub fn new() -> (slot: ClassName)
        ensures
            slot.value() is None,
    {
        ClassName { name: None }
    }

    /// Reads the name.
    pub fn get(&self) -> (r: Result<&str, ConfigError>)
        ensures
            match r {
                Ok(name) => self.value() == Some(name@),
                Err(e) => self.value() is None && e == ConfigError::NotConfigured,
            },
    {
        match &self.name {
            Some(name) => Ok(name.as_str()),
            None => Err(ConfigError::NotConfigured),
        }
    }
}

/// Sets the name of the accessor class. It can be set once.
pub fn set_class_name(slot: &mut ClassName, class_name: &str) -> (r: Result<(), ConfigError>)
    ensures
        match r {
            Ok(()) => old(slot).value() is None && final(slot).value() == Some(class_name@),
            Err(e) => old(slot).value() is Some && e == ConfigError::AlreadyConfigured
                && *final(slot) == *old(slot),
        },
{
    if slot.name.is_some() {
        return Err(ConfigError::AlreadyConfigured);
    }
    slot.name = Some(class_name.to_owned());
    Ok(())
}

/// The start of the call that takes the context.
pub open spec fn of_opener() -> Seq<char> {
    "of("@
}

/// The start of the call that takes the context and may give nothing.
pub open spec fn maybe_of_opener() -> Seq<char> {
    "maybeOf("@
}

/// The member that needs no context.
pub open spec fn current_keyword() -> Seq<char> {
    "current"@
}

/// Where a call with one argument ends that starts at or behind `from`:
/// blanks, the opener, an argument of ASCII letters and digits that is not
/// empty, and `)`.
pub open spec fn call_end(s: Seq<char>, from: int, opener: Seq<char>) -> Option<int> {
    let start = run_end(s, from, CharClass::Space);
    let argument = start + opener.len();
    let close = run_end(s, argument, CharClass::AsciiAlphanumeric);
    if occurs_at(s, opener, start) && argument < close < s.len() && s[close] == ')' {
        Some(close + 1)
    } else {
        None
    }
}

/// Where `of(<argument>)` ends.
pub open spec fn of_context_end(s: Seq<char>, from: int) -> Option<int> {
    call_end(s, from, of_opener())
}

/// Where `maybeOf(<argument>)?` ends; blanks may stand before the `?`.
pub open spec fn maybe_of_end(s: Seq<char>, from: int) -> Option<int> {
    match call_end(s, from, maybe_of_opener()) {
        Some(close) => {
            let mark = run_end(s, close, CharClass::Space);
            if mark < s.len() && s[mark] == '?' {
                Some(mark + 1)
            } else {
                None
            }
        },
        None => None,
    }
}

/// Where the part between the two dots ends: the first that fits of
/// `of(..)`, `current` and `maybeOf(..)?`.
pub open spec fn binding_end(s: Seq<char>, from: int) -> Option<int> {
    if of_context_end(s, from) is Some {
        of_context_end(s, from)
    } else if occurs_at(s, current_keyword(), from) {
        Some(from + current_keyword().len())
    } else {
        maybe_of_end(s, from)
    }
}

/// Where blanks and then a dot end, read from `from`.
pub open spec fn dot_end(s: Seq<char>, from: int) -> Option<int> {
    let dot = run_end(s, from, CharClass::Space);
    if dot < s.len() && s[dot] == '.' {
        Some(dot + 1)
    } else {
        None
    }
}

/// The label that a reference leads to whose class name ends at `behind`:
/// where the label starts and where it ends. Behind the class name stand a
/// dot, one of the three bindings and a second dot, with blanks wherever they
/// please; the label is the run of identifier characters behind the second
/// dot and may be empty. There is none if what stands there is no reference.
pub open spec fn label_behind(s: Seq<char>, behind: int) -> Option<(int, int)> {
    match dot_end(s, behind) {
        Some(first) => match binding_end(s, run_end(s, first, CharClass::Space)) {
            Some(bound) => match dot_end(s, bound) {
                Some(start) => Some((start, run_end(s, start, CharClass::Identifier))),
                None => None,
            },
            None => None,
        },
        None => None,
    }
}

/// The label of the first reference at or behind `from`: that of the first
/// occurrence of the class name which a reference follows. An occurrence of
/// the class name which no reference follows is passed over, and the search
/// goes on one character behind its start. There is no label if the class
/// name occurs no more.
pub open spec fn label_at(s: Seq<char>, class_name: Seq<char>, from: int) -> Option<(int, int)>
    decreases s.len() + 1 - from,
    when 0 <= from
{
    match find(s, class_name, from) {
        Some(at) => match label_behind(s, at + class_name.len()) {
            Some(label) => Some(label),
            None => {
                proof {
                    lemma_find(s, class_name, from);
                }
                label_at(s, class_name, at + 1)
            },
        },
        None => None,
    }
}

/// The labels of all the references from `from` on that do not overlap, in
/// the order in which they stand: each search starts where the label before
/// ended, and the last one finds no reference any more.
pub open spec fn labels_from(s: Seq<char>, class_name: Seq<char>, from: int) -> Seq<(int, int)>
    decreases s.len() - from,
    when 0 <= from <= s.len()
{
    match label_at(s, class_name, from) {
        Some((start, end)) => {
            proof {
                lemma_label_at(s, class_name, from);
            }
            seq![(start, end)] + labels_from(s, class_name, end)
        },
        None => seq![],
    }
}

/// Where reading stopped: behind the last label, or at `from` if there is
/// none.
pub open spec fn labels_rest(s: Seq<char>, class_name: Seq<char>, from: int) -> int {
    let labels = labels_from(s, class_name, from);
    if labels.len() == 0 {
        from
    } else {
        labels.last().1
    }
}

/// The text of each label.
pub open spec fn label_texts(s: Seq<char>, labels: Seq<(int, int)>) -> Seq<Seq<char>> {
    labels.map_values(|l: (int, int)| s.subrange(l.0, l.1))
}

/// A label lies in the text, behind the class name that leads to it.
pub proof fn lemma_label_behind(s: Seq<char>, behind: int)
    requires
        0 <= behind <= s.len(),
    ensures
        label_behind(s, behind) matches Some((start, end)) ==> behind < start <= end <= s.len(),
{
    if let Some(first) = dot_end(s, behind) {
        lemma_run_end(s, behind, CharClass::Space);
        let inner = run_end(s, first, CharClass::Space);
        lemma_run_end(s, first, CharClass::Space);
        if let Some(bound) = binding_end(s, inner) {
            lemma_binding_end(s, inner);
            if let Some(start) = dot_end(s, bound) {
                lemma_run_end(s, bound, CharClass::Space);
                lemma_run_end(s, start, CharClass::Identifier);
            }
        }
    }
}

/// A label lies in the text, behind the position the search started from.
pub proof fn lemma_label_at(s: Seq<char>, class_name: Seq<char>, from: int)
    requires
        0 <= from <= s.len(),
    ensures
        label_at(s, class_name, from) matches Some((start, end)) ==> from < start <= end
            <= s.len(),
    decreases s.len() + 1 - from,
{
    if let Some(at) = find(s, class_name, from) {
        lemma_find(s, class_name, from);
        lemma_label_behind(s, at + class_name.len());
        if label_behind(s, at + class_name.len()) is None && at < s.len() {
            lemma_label_at(s, class_name, at + 1);
        }
    }
}

/// A binding lies in the text, behind the position it was read from.
pub proof fn lemma_binding_end(s: Seq<char>, from: int)
    requires
        0 <= from <= s.len(),
    ensures
        binding_end(s, from) matches Some(end) ==> from < end <= s.len(),
{
    reveal_strlit("current");
    lemma_call_end(s, from, of_opener());
    lemma_call_end(s, from, maybe_of_opener());
    if let Some(close) = call_end(s, from, maybe_of_opener()) {
        lemma_run_end(s, close, CharClass::Space);
    }
}

/// A call lies in the text, behind the position it was read from.
pub proof fn lemma_call_end(s: Seq<char>, from: int, opener: Seq<char>)
    requires
        0 <= from <= s.len(),
    ensures
        call_end(s, from, opener) matches Some(end) ==> from < end <= s.len(),
{
    lemma_run_end(s, from, CharClass::Space);
}

/// Reads `of(<argument>)`, after blanks.
pub fn of_context(s: &[char], from: usize) -> (end: Option<usize>)
    requires
        from <= s@.len(),
    ensures
        position(end) == of_context_end(s@, from as int),
        end matches Some(end) ==> from < end <= s@.len(),
{
    call(s, from, "of(")
}

/// Reads `maybeOf(<argument>)?`, after blanks.
pub fn maybe_of(s: &[char], from: usize) -> (end: Option<usize>)
    requires
        from <= s@.len(),
    ensures
        position(end) == maybe_of_end(s@, from as int),
        end matches Some(end) ==> from < end <= s@.len(),
{
    match call(s, from, "maybeOf(") {
        Some(close) => {
            let mark = scan(s, close, CharClass::Space);
            if has_char_at(s, mark, '?') {
                Some(mark + 1)
            } else {
                None
            }
        },
        None => None,
    }
}

/// Reads a call with one argument, after blanks.
fn call(s: &[char], from: usize, opener: &str) -> (end: Option<usize>)
    requires
        from <= s@.len(),
    ensures
        position(end) == call_end(s@, from as int, opener@),
        end matches Some(end) ==> from < end <= s@.len(),
{
    let opener_chars = to_chars(opener);
    let start = scan(s, from, CharClass::Space);
    if !starts_with_at(s, opener_chars.as_slice(), start) {
        return None;
    }
    let argument = start + opener_chars.len();
    let close = scan(s, argument, CharClass::AsciiAlphanumeric);
    if argument < close && has_char_at(s, close, ')') {
        Some(close + 1)
    } else {
        None
    }
}

/// Reads the run of identifier characters that starts at `from`.
pub fn is_alphanumeric_or_underscore(s: &[char], from: usize) -> (end: usize)
    requires
        from <= s@.len(),
    ensures
        end == run_end(s@, from as int, CharClass::Identifier),
        from <= end <= s@.len(),
{
    scan(s, from, CharClass::Identifier)
}

/// Reads blanks and a dot.
fn dot(s: &[char], from: usize) -> (end: Option<usize>)
    requires
        from <= s@.len(),
    ensures
        position(end) == dot_end(s@, from as int),
        end matches Some(end) ==> from < end <= s@.len(),
{
    let at = scan(s, from, CharClass::Space);
    if has_char_at(s, at, '.') {
        Some(at + 1)
    } else {
        None
    }
}

/// Reads the part between the two dots.
fn binding(s: &[char], from: usize) -> (end: Option<usize>)
    requires
        from <= s@.len(),
    ensures
        position(end) == binding_end(s@, from as int),
        end matches Some(end) ==> from < end <= s@.len(),
{
    let of = of_context(s, from);
    if of.is_some() {
        return of;
    }
    let current = to_chars("current");
    if starts_with_at(s, current.as_slice(), from) {
        proof {
            lemma_binding_end(s@, from as int);
        }
        return Some(from + current.len());
    }
    maybe_of(s, from)
}

/// Reads the reference whose class name ends at `behind`.
pub fn label_behind_in(s: &[char], behind: usize) -> (found: Option<(usize, usize)>)
    requires
        behind <= s@.len(),
    ensures
        match found {
            Some(label) => label_behind(s@, behind as int) == Some(span(label)) && behind
                < label.0 <= label.1 <= s@.len(),
            None => label_behind(s@, behind as int) is None,
        },
{
    let first = match dot(s, behind) {
        Some(first) => first,
        None => { return None; },
    };
    let bound = match binding(s, scan(s, first, CharClass::Space)) {
        Some(bound) => bound,
        None => { return None; },
    };
    let start = match dot(s, bound) {
        Some(start) => start,
        None => { return None; },
    };
    Some((start, is_alphanumeric_or_underscore(s, start)))
}

/// Finds the label of the first reference at or behind `from`.
pub fn label_in(s: &[char], class_name: &[char], from: usize) -> (found: Option<(usize, usize)>)
    requires
        from <= s@.len(),
    ensures
        match found {
            Some(label) => label_at(s@, class_name@, from as int) == Some(span(label)) && from
                < label.0 <= label.1 <= s@.len(),
            None => label_at(s@, class_name@, from as int) is None,
        },
{
    let mut next: usize = from;
    loop
        invariant
            from <= next <= s@.len(),
            label_at(s@, class_name@, from as int) == label_at(s@, class_name@, next as int),
        decreases s@.len() - next,
    {
        let at = match search(s, class_name, next) {
            Some(at) => at,
            None => { return None; },
        };
        match label_behind_in(s, at + class_name.len()) {
            Some(label) => { return Some(label); },
            None => {},
        }
        if at >= s.len() {
            assert(label_at(s@, class_name@, at + 1) is None);
            return None;
        }
        next = at + 1;
    }
}

/// Finds every label of `s`, one reference after the other.
pub fn labels_in(s: &[char], class_name: &[char]) -> (labels: Vec<(usize, usize)>)
    ensures
        spans(labels@) == labels_from(s@, class_name@, 0),
        forall|i: int| 0 <= i < labels@.len() ==> (#[trigger] labels@[i]).0 <= labels@[i].1 <= s@.len(),
{
    let mut labels: Vec<(usize, usize)> = Vec::new();
    let mut from: usize = 0;
    loop
        invariant
            from <= s@.len(),
            labels_from(s@, class_name@, 0) == spans(labels@)
                + labels_from(s@, class_name@, from as int),
            forall|i: int| 0 <= i < labels@.len() ==> (#[trigger] labels@[i]).0 <= labels@[i].1 <= s@.len(),
        decreases s@.len() - from,
    {
        match label_in(s, class_name, from) {
            Some(label) => {
                labels.push(label);
                from = label.1;
            },
            None => {
                return labels;
            },
        }
    }
}

/// Finds every label of a text and copies each.
pub fn labels_found(text: &Text, class_name: &[char]) -> (found: Vec<String>)
    ensures
        texts(found@) == label_texts(text@, labels_from(text@, class_name@, 0)),
{
    let spans = labels_in(text.chars(), class_name);
    let ghost labels = labels_from(text@, class_name@, 0);
    let mut found: Vec<String> = Vec::new();
    let mut i: usize = 0;
    while i < spans.len()
        invariant
            i <= spans@.len(),
            found@.len() == i,
            crate::text::spans(spans@) == labels,
            forall|k: int| 0 <= k < spans@.len() ==> (#[trigger] spans@[k]).0 <= spans@[k].1 <= text@.len(),
            forall|k: int| 0 <= k < i ==> (#[trigger] found@[k])@ == text@.subrange(
                labels[k].0,
                labels[k].1,
            ),
        decreases spans@.len() - i,
    {
        let (start, end) = spans[i];
        found.push(text.cut(start, end));
        i += 1;
    }
    found
}

/// Finds the first reference to a label in `input`, passing over every
/// occurrence of the class name which no reference follows. The result is
/// what is left of the input behind the label, and the label.
pub fn localisation<'a>(class_name: &str, input: &'a str) -> (r: Result<(&'a str, &'a str), ParseError>)
    ensures
        match r {
            Ok((rest, label)) => label_at(input@, class_name@, 0) matches Some((start, end))
                && label@ == input@.subrange(start, end) && rest@ == input@.subrange(
                end,
                input@.len() as int,
            ),
            Err(e) => label_at(input@, class_name@, 0) is None && e == ParseError::NoMatch,
        },
{
    let chars = to_chars(input);
    let name = to_chars(class_name);
    match label_in(chars.as_slice(), name.as_slice(), 0) {
        Some((start, end)) => Ok(
            (input.substring_char(end, chars.len()), input.substring_char(start, end)),
        ),
        None => Err(ParseError::NoMatch),
    }
}

/// Finds every reference to a label in `input`. The result is what is left
/// of the input behind the last label, and the labels in the order in which
/// they stand.
pub fn all_localisation<'a>(class_name: &str, input: &'a str) -> (r: (&'a str, Vec<&'a str>))
    ensures
        r.0@ == input@.subrange(labels_rest(input@, class_name@, 0), input@.len() as int),
        slices(r.1@) == label_texts(
            input@,
            labels_from(input@, class_name@, 0),
        ),
{
    let chars = to_chars(input);
    let name = to_chars(class_name);
    let spans = labels_in(chars.as_slice(), name.as_slice());
    let ghost labels = labels_from(input@, class_name@, 0);
    let mut texts: Vec<&str> = Vec::new();
    let mut i: usize = 0;
    while i < spans.len()
        invariant
            i <= spans@.len(),
            texts@.len() == i,
            chars@ == input@,
            crate::text::spans(spans@) == labels,
            forall|k: int| 0 <= k < spans@.len() ==> (#[trigger] spans@[k]).0 <= spans@[k].1 <= chars@.len(),
            slices(texts@) == label_texts(input@, labels.take(i as int)),
        decreases spans@.len() - i,
    {
        let (start, end) = spans[i];
        let text = input.substring_char(start, end);
        proof {
            let before = slices(texts@);
            let after = slices(texts@.push(text));
            assert forall|k: int| 0 <= k < after.len() implies after[k] == label_texts(
                input@,
                labels.take(i + 1),
            )[k] by {
                if k < i {
                    assert(after[k] == before[k]);
                }
            }
        }
        texts.push(text);
        i += 1;
    }
    let rest = if spans.len() == 0 {
        0
    } else {
        spans[spans.len() - 1].1
    };
    (input.substring_char(rest, chars.len()), texts)
}

} // verus!
