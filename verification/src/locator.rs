//! Uses of the service locator.
//!
//! A type is registered with `locator.register...<T>(..)` and retrieved with
//! `locator.get...<T>()` or `locator<T>()`. The text is read twice, once
//! for each of the two anchors `locator.` and `locator<`, and the events of
//! the first reading come before those of the second.

use crate::parser::ParseError;
use crate::text::{
    find, has_char_at, lemma_find, lemma_run_end, occurs_at, position, run_end, scan, search,
    starts_with_at, to_chars, CharClass, Text,
};
use vstd::prelude::*;

verus! {

/// One use of the locator.
#[derive(Debug, PartialEq)]
pub enum Locator {
    /// A type is registered.
    Register(String),
    /// A type is retrieved.
    Get(String),
    /// The anchor is part of the name of an imported file, and no use.
    Import,
}

/// The mathematical value of a [`Locator`].
pub enum Event {
    Register(Seq<char>),
    Get(Seq<char>),
    Import,
}

impl View for Locator {
    type V = Event;

    open spec fn view(&self) -> Event {
        match self {
            Locator::Register(name) => Event::Register(name@),
            Locator::Get(name) => Event::Get(name@),
            Locator::Import => Event::Import,
        }
    }
}

/// What a use of the locator is.
#[derive(Clone, Copy, Debug)]
pub enum Kind {
    Register,
    Get,
    Import,
}

/// Where a use of the locator lies in a text: the span of the type name,
/// which is empty for an import, and the position behind what was read.
pub struct Occurrence {
    pub kind: Kind,
    pub start: int,
    pub end: int,
    pub rest: int,
}

/// An [`Occurrence`] with machine integers.
#[derive(Clone, Copy, Debug)]
pub struct Mark {
    pub kind: Kind,
    pub start: usize,
    pub end: usize,
    pub rest: usize,
}

impl View for Mark {
    type V = Occurrence;

    open spec fn view(&self) -> Occurrence {
        Occurrence {
            kind: self.kind,
            start: self.start as int,
            end: self.end as int,
            rest: self.rest as int,
        }
    }
}

impl Occurrence {
    /// The event that the occurrence stands for in the text `s`.
    pub open spec fn event(self, s: Seq<char>) -> Event {
        match self.kind {
            Kind::Register => Event::Register(s.subrange(self.start, self.end)),
            Kind::Get => Event::Get(s.subrange(self.start, self.end)),
            Kind::Import => Event::Import,
        }
    }

    /// The occurrence lies in the text `s`, behind `from`.
    pub open spec fn within(self, s: Seq<char>, from: int) -> bool {
        from <= self.start <= self.end <= self.rest <= s.len()
    }
}

/// A found occurrence, as a mathematical value.
pub open spec fn occurrence(found: Option<Mark>) -> Option<Occurrence> {
    match found {
        Some(mark) => Some(mark@),
        None => None,
    }
}

/// The anchor of a call of a method of the locator.
pub open spec fn member_anchor() -> Seq<char> {
    "locator."@
}

/// The anchor of a call of the locator itself.
pub open spec fn generic_anchor() -> Seq<char> {
    "locator<"@
}

/// What the name of a registering method starts with.
pub open spec fn register_keyword() -> Seq<char> {
    "register"@
}

/// What the name of a retrieving method starts with.
pub open spec fn get_keyword() -> Seq<char> {
    "get"@
}

/// What follows the anchor in the name of a source file.
pub open spec fn import_suffix() -> Seq<char> {
    "dart"@
}

/// A call with a type argument, read from `from`: blanks, a method name that
/// starts with `keyword`, anything up to the next `<`, a type name of
/// identifier characters, and `>`.
pub open spec fn generic_call(s: Seq<char>, from: int, keyword: Seq<char>, kind: Kind) -> Option<
    Occurrence,
> {
    let at = run_end(s, from, CharClass::Space);
    let open = run_end(s, at + keyword.len(), CharClass::Except('<'));
    let close = run_end(s, open + 1, CharClass::Identifier);
    if occurs_at(s, keyword, at) && open < s.len() && close < s.len() && s[close] == '>' {
        Some(Occurrence { kind, start: open + 1, end: close, rest: close + 1 })
    } else {
        None
    }
}

/// A registration: a call of a method whose name starts with `register`.
pub open spec fn registration(s: Seq<char>, from: int) -> Option<Occurrence> {
    generic_call(s, from, register_keyword(), Kind::Register)
}

/// A retrieval by method: a call of a method whose name starts with `get`.
pub open spec fn retrieval(s: Seq<char>, from: int) -> Option<Occurrence> {
    generic_call(s, from, get_keyword(), Kind::Get)
}

/// A retrieval without a method: after blanks, all that stands before the
/// next `>` is the type name. The `>` is left unread.
pub open spec fn bare_retrieval(s: Seq<char>, from: int) -> Option<Occurrence> {
    let at = run_end(s, from, CharClass::Space);
    let close = run_end(s, at, CharClass::Except('>'));
    if close < s.len() {
        Some(Occurrence { kind: Kind::Get, start: at, end: close, rest: close })
    } else {
        None
    }
}

/// The anchor ends the name of an imported file: `dart` follows it.
pub open spec fn import_mark(s: Seq<char>, from: int) -> Option<Occurrence> {
    if occurs_at(s, import_suffix(), from) {
        Some(Occurrence { kind: Kind::Import, start: from, end: from, rest: from + import_suffix().len() })
    } else {
        None
    }
}

/// What stands behind an anchor: the first that fits of import, registration,
/// retrieval by method and retrieval without a method.
pub open spec fn after_anchor(s: Seq<char>, from: int) -> Option<Occurrence> {
    if import_mark(s, from) is Some {
        import_mark(s, from)
    } else if registration(s, from) is Some {
        registration(s, from)
    } else if retrieval(s, from) is Some {
        retrieval(s, from)
    } else {
        bare_retrieval(s, from)
    }
}

/// The position behind the first occurrence of `anchor` at or behind `from`.
pub open spec fn anchor_end(s: Seq<char>, anchor: Seq<char>, from: int) -> Option<int> {
    match find(s, anchor, from) {
        Some(at) => Some(at + anchor.len()),
        None => None,
    }
}

/// The use of the locator at the first occurrence of `anchor` at or behind
/// `from`. There is none if the anchor does not occur or nothing that fits
/// stands behind its first occurrence.
pub open spec fn next_occurrence(s: Seq<char>, anchor: Seq<char>, from: int) -> Option<Occurrence> {
    match anchor_end(s, anchor, from) {
        Some(behind) => after_anchor(s, behind),
        None => None,
    }
}

/// The uses read from `from` on, each search starting where the reading
/// before stopped, up to the first search that finds none.
pub open spec fn occurrences_from(s: Seq<char>, anchor: Seq<char>, from: int) -> Seq<Occurrence>
    decreases s.len() - from,
    when 0 <= from <= s.len() && anchor.len() > 0
{
    match next_occurrence(s, anchor, from) {
        Some(found) => {
            proof {
                lemma_next_occurrence(s, anchor, from);
            }
            seq![found] + occurrences_from(s, anchor, found.rest)
        },
        None => seq![],
    }
}

/// Where a reading stopped: behind its last occurrence, or at `from`.
pub open spec fn reading_rest(found: Seq<Occurrence>, from: int) -> int {
    if found.len() == 0 {
        from
    } else {
        found.last().rest
    }
}

/// The events of a text: those of the reading by `locator.`, then those of
/// the reading by `locator<`.
pub open spec fn events(s: Seq<char>) -> Seq<Event> {
    (occurrences_from(s, member_anchor(), 0) + occurrences_from(s, generic_anchor(), 0)).map_values(
        |o: Occurrence| o.event(s),
    )
}

/// The views of a list of events.
pub open spec fn event_views(list: Seq<Locator>) -> Seq<Event> {
    list.map_values(|l: Locator| l@)
}

/// Where the unread rest of a text starts: at the stop of the reading that
/// went further, so that the shorter of the two rests is left.
pub open spec fn events_rest(s: Seq<char>) -> int {
    let member = reading_rest(occurrences_from(s, member_anchor(), 0), 0);
    let generic = reading_rest(occurrences_from(s, generic_anchor(), 0), 0);
    if member < generic {
        generic
    } else {
        member
    }
}

/// A use of the locator lies in the text, behind the anchor that leads to it.
pub proof fn lemma_next_occurrence(s: Seq<char>, anchor: Seq<char>, from: int)
    requires
        0 <= from <= s.len(),
    ensures
        next_occurrence(s, anchor, from) matches Some(found) ==> found.within(
            s,
            from + anchor.len(),
        ),
{
    if let Some(at) = find(s, anchor, from) {
        lemma_find(s, anchor, from);
        lemma_after_anchor(s, at + anchor.len());
    }
}

/// What stands behind an anchor lies in the text behind it.
pub proof fn lemma_after_anchor(s: Seq<char>, from: int)
    requires
        0 <= from <= s.len(),
    ensures
        after_anchor(s, from) matches Some(found) ==> found.within(s, from),
{
    lemma_run_end(s, from, CharClass::Space);
    let at = run_end(s, from, CharClass::Space);
    lemma_run_end(s, at, CharClass::Except('>'));
    if occurs_at(s, register_keyword(), at) {
        let open = run_end(s, at + register_keyword().len(), CharClass::Except('<'));
        lemma_run_end(s, at + register_keyword().len(), CharClass::Except('<'));
        if open < s.len() {
            lemma_run_end(s, open + 1, CharClass::Identifier);
        }
    }
    if occurs_at(s, get_keyword(), at) {
        let open = run_end(s, at + get_keyword().len(), CharClass::Except('<'));
        lemma_run_end(s, at + get_keyword().len(), CharClass::Except('<'));
        if open < s.len() {
            lemma_run_end(s, open + 1, CharClass::Identifier);
        }
    }
}

/// Reads `dart` behind an anchor.
pub fn import(s: &[char], from: usize) -> (found: Option<Mark>)
    requires
        from <= s@.len(),
    ensures
        occurrence(found) == import_mark(s@, from as int),
{
    let suffix = to_chars("dart");
    if starts_with_at(s, suffix.as_slice(), from) {
        Some(Mark { kind: Kind::Import, start: from, end: from, rest: from + suffix.len() })
    } else {
        None
    }
}

/// Reads a call with a type argument.
fn call(s: &[char], from: usize, keyword: &str, kind: Kind) -> (found: Option<Mark>)
    requires
        from <= s@.len(),
    ensures
        occurrence(found) == generic_call(s@, from as int, keyword@, kind),
{
    let keyword_chars = to_chars(keyword);
    let at = scan(s, from, CharClass::Space);
    if !starts_with_at(s, keyword_chars.as_slice(), at) {
        return None;
    }
    let open = scan(s, at + keyword_chars.len(), CharClass::Except('<'));
    if open >= s.len() {
        return None;
    }
    let close = scan(s, open + 1, CharClass::Identifier);
    if has_char_at(s, close, '>') {
        Some(Mark { kind, start: open + 1, end: close, rest: close + 1 })
    } else {
        None
    }
}

/// Reads a registration.
pub fn register(s: &[char], from: usize) -> (found: Option<Mark>)
    requires
        from <= s@.len(),
    ensures
        occurrence(found) == registration(s@, from as int),
{
    call(s, from, "register", Kind::Register)
}

/// Reads a retrieval by method.
pub fn get(s: &[char], from: usize) -> (found: Option<Mark>)
    requires
        from <= s@.len(),
    ensures
        occurrence(found) == retrieval(s@, from as int),
{
    call(s, from, "get", Kind::Get)
}

/// Reads a retrieval without a method.
pub fn get_alt(s: &[char], from: usize) -> (found: Option<Mark>)
    requires
        from <= s@.len(),
    ensures
        occurrence(found) == bare_retrieval(s@, from as int),
{
    let at = scan(s, from, CharClass::Space);
    let close = scan(s, at, CharClass::Except('>'));
    if close < s.len() {
        Some(Mark { kind: Kind::Get, start: at, end: close, rest: close })
    } else {
        None
    }
}

/// Reads what stands behind an anchor.
fn use_at(s: &[char], from: usize) -> (found: Option<Mark>)
    requires
        from <= s@.len(),
    ensures
        occurrence(found) == after_anchor(s@, from as int),
        found matches Some(mark) ==> mark@.within(s@, from as int),
{
    proof {
        lemma_after_anchor(s@, from as int);
    }
    let imported = import(s, from);
    if imported.is_some() {
        return imported;
    }
    let registered = register(s, from);
    if registered.is_some() {
        return registered;
    }
    let retrieved = get(s, from);
    if retrieved.is_some() {
        return retrieved;
    }
    get_alt(s, from)
}

/// Finds the next anchor and returns the position behind it.
fn find_anchor(s: &[char], anchor: &[char], from: usize) -> (behind: Option<usize>)
    ensures
        position(behind) == anchor_end(s@, anchor@, from as int),
        behind matches Some(behind) ==> from + anchor@.len() <= behind <= s@.len(),
{
    match search(s, anchor, from) {
        Some(at) => Some(at + anchor.len()),
        None => None,
    }
}

/// Finds the next `locator.` and returns the position behind it.
pub fn find_locator(s: &[char], from: usize) -> (behind: Option<usize>)
    ensures
        position(behind) == anchor_end(s@, member_anchor(), from as int),
        behind matches Some(behind) ==> from <= behind <= s@.len(),
{
    let anchor = to_chars("locator.");
    find_anchor(s, anchor.as_slice(), from)
}

/// Finds the next `locator<` and returns the position behind it.
pub fn find_locator_alt(s: &[char], from: usize) -> (behind: Option<usize>)
    ensures
        position(behind) == anchor_end(s@, generic_anchor(), from as int),
        behind matches Some(behind) ==> from <= behind <= s@.len(),
{
    let anchor = to_chars("locator<");
    find_anchor(s, anchor.as_slice(), from)
}

/// Finds the next anchor and reads the use behind it.
fn next_use(s: &[char], anchor: &[char], from: usize) -> (found: Option<Mark>)
    requires
        from <= s@.len(),
    ensures
        occurrence(found) == next_occurrence(s@, anchor@, from as int),
        found matches Some(mark) ==> mark@.within(s@, from + anchor@.len()),
{
    match find_anchor(s, anchor, from) {
        Some(behind) => use_at(s, behind),
        None => None,
    }
}

/// Reads a text by one anchor from start to stop.
fn reading(s: &[char], anchor: &str) -> (marks: Vec<Mark>)
    requires
        anchor@.len() > 0,
    ensures
        marks@.map_values(|m: Mark| m@) == occurrences_from(s@, anchor@, 0),
        forall|i: int| 0 <= i < marks@.len() ==> (#[trigger] marks@[i])@.within(s@, 0),
{
    let anchor_chars = to_chars(anchor);
    let mut marks: Vec<Mark> = Vec::new();
    let mut from: usize = 0;
    loop
        invariant
            from <= s@.len(),
            anchor_chars@ == anchor@,
            anchor@.len() > 0,
            occurrences_from(s@, anchor@, 0) == marks@.map_values(|m: Mark| m@) + occurrences_from(
                s@,
                anchor@,
                from as int,
            ),
            forall|i: int| 0 <= i < marks@.len() ==> (#[trigger] marks@[i])@.within(s@, 0),
        decreases s@.len() - from,
    {
        match next_use(s, anchor_chars.as_slice(), from) {
            Some(mark) => {
                marks.push(mark);
                from = mark.rest;
            },
            None => {
                return marks;
            },
        }
    }
}

/// The event of a mark, with its type name cut from `text`.
fn event_of(text: &Text, mark: Mark) -> (event: Locator)
    requires
        mark.start <= mark.end <= text@.len(),
    ensures
        event@ == mark@.event(text@),
{
    match mark.kind {
        Kind::Register => Locator::Register(text.cut(mark.start, mark.end)),
        Kind::Get => Locator::Get(text.cut(mark.start, mark.end)),
        Kind::Import => Locator::Import,
    }
}

/// Hands a single use out with the rest of the input behind it.
fn single<'a>(
    input: &'a str,
    text: &Text,
    found: Option<Mark>,
    Ghost(expected): Ghost<Option<Occurrence>>,
) -> (r: Result<(&'a str, Locator), ParseError>)
    requires
        text@ == input@,
        occurrence(found) == expected,
        found matches Some(mark) ==> mark@.within(input@, 0),
    ensures
        agrees(r, input@, expected),
{
    match found {
        Some(mark) => Ok((input.substring_char(mark.rest, text.len()), event_of(text, mark))),
        None => Err(ParseError::NoMatch),
    }
}

/// Whether an executable result is the given mathematical one.
pub open spec fn agrees(
    r: Result<(&str, Locator), ParseError>,
    input: Seq<char>,
    expected: Option<Occurrence>,
) -> bool {
    match r {
        Ok((rest, event)) => expected matches Some(found) && event@ == found.event(input)
            && 0 <= found.rest <= input.len() && rest@ == input.subrange(
            found.rest,
            input.len() as int,
        ),
        Err(e) => expected is None && e == ParseError::NoMatch,
    }
}

/// Parses a registration at the start of `input`.
pub fn register_locator(input: &str) -> (r: Result<(&str, Locator), ParseError>)
    ensures
        agrees(r, input@, registration(input@, 0)),
{
    let text = Text::new(input.to_owned());
    let found = register(text.chars(), 0);
    proof {
        lemma_generic_call(input@, 0, register_keyword(), Kind::Register);
    }
    single(input, &text, found, Ghost(registration(input@, 0)))
}

/// A call with a type argument lies in the text.
pub proof fn lemma_generic_call(s: Seq<char>, from: int, keyword: Seq<char>, kind: Kind)
    requires
        0 <= from <= s.len(),
    ensures
        generic_call(s, from, keyword, kind) matches Some(found) ==> found.within(s, from),
{
    lemma_run_end(s, from, CharClass::Space);
    let at = run_end(s, from, CharClass::Space);
    if occurs_at(s, keyword, at) {
        let open = run_end(s, at + keyword.len(), CharClass::Except('<'));
        lemma_run_end(s, at + keyword.len(), CharClass::Except('<'));
        if open < s.len() {
            lemma_run_end(s, open + 1, CharClass::Identifier);
        }
    }
}

/// Parses the first use of the locator by `locator.` in `input`.
pub fn get_locator(input: &str) -> (r: Result<(&str, Locator), ParseError>)
    ensures
        agrees(r, input@, next_occurrence(input@, member_anchor(), 0)),
{
    let text = Text::new(input.to_owned());
    let found = match find_locator(text.chars(), 0) {
        Some(behind) => use_at(text.chars(), behind),
        None => None,
    };
    single(input, &text, found, Ghost(next_occurrence(input@, member_anchor(), 0)))
}

/// Parses the first use of the locator by `locator<` in `input`.
pub fn get_locator_alt(input: &str) -> (r: Result<(&str, Locator), ParseError>)
    ensures
        agrees(r, input@, next_occurrence(input@, generic_anchor(), 0)),
{
    let text = Text::new(input.to_owned());
    let found = match find_locator_alt(text.chars(), 0) {
        Some(behind) => use_at(text.chars(), behind),
        None => None,
    };
    single(input, &text, found, Ghost(next_occurrence(input@, generic_anchor(), 0)))
}

/// Reads every use of the locator in a text. The result is the position at
/// which the unread rest starts, and the events.
pub fn locator_in(text: &Text) -> (r: (usize, Vec<Locator>))
    ensures
        r.0 == events_rest(text@),
        r.0 <= text@.len(),
        event_views(r.1@) == events(text@),
{
    proof {
        reveal_strlit("locator.");
        reveal_strlit("locator<");
    }
    let member = reading(text.chars(), "locator.");
    let generic = reading(text.chars(), "locator<");
    let mut found: Vec<Locator> = Vec::new();
    let mut i: usize = 0;
    while i < member.len()
        invariant
            i <= member@.len(),
            found@.len() == i,
            member@.map_values(|m: Mark| m@) == occurrences_from(text@, member_anchor(), 0),
            forall|k: int| 0 <= k < member@.len() ==> (#[trigger] member@[k])@.within(text@, 0),
            forall|k: int| 0 <= k < i ==> (#[trigger] found@[k])@ == member@[k]@.event(text@),
        decreases member@.len() - i,
    {
        found.push(event_of(text, member[i]));
        i += 1;
    }
    let mut j: usize = 0;
    while j < generic.len()
        invariant
            j <= generic@.len(),
            found@.len() == member@.len() + j,
            forall|k: int| 0 <= k < generic@.len() ==> (#[trigger] generic@[k])@.within(text@, 0),
            forall|k: int| 0 <= k < member@.len() ==> (#[trigger] found@[k])@ == member@[k]@.event(text@),
            forall|k: int| 0 <= k < j ==> (#[trigger] found@[member@.len() + k])@ == generic@[k]@.event(text@),
        decreases generic@.len() - j,
    {
        found.push(event_of(text, generic[j]));
        j += 1;
    }
    let member_rest = if member.len() == 0 {
        0
    } else {
        member[member.len() - 1].rest
    };
    let generic_rest = if generic.len() == 0 {
        0
    } else {
        generic[generic.len() - 1].rest
    };
    proof {
        assert forall|k: int| 0 <= k < found@.len() implies event_views(found@)[k] == events(
            text@,
        )[k] by {
            if k >= member@.len() {
                assert(found@[member@.len() + (k - member@.len())]@ == generic@[k
                    - member@.len()]@.event(text@));
            }
        }
    }
    (if member_rest < generic_rest { generic_rest } else { member_rest }, found)
}

/// Reads every use of the locator in `input`. The result is what is left of
/// the input, and the events.
pub fn locator(input: &str) -> (r: (&str, Vec<Locator>))
    ensures
        r.0@ == input@.subrange(events_rest(input@), input@.len() as int),
        event_views(r.1@) == events(input@),
{
    let text = Text::new(input.to_owned());
    let (rest, found) = locator_in(&text);
    (input.substring_char(rest, text.len()), found)
}

} // verus!
