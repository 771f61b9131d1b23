//! Scanning primitives over sequences of characters.
//!
//! All parsers of this crate work on a text that has been decoded into its
//! characters once. Positions are character indices, so every result can be
//! stated over `Seq<char>` without reference to an encoding.

use vstd::prelude::*;

verus! {

/// What `char::is_alphanumeric` answers for `c`: whether Unicode classes the
/// character as alphabetic or numeric.
pub uninterp spec fn is_alphanumeric(c: char) -> bool;

/// `char::is_alphanumeric` depends on nothing but the character; its answer is
/// named by [`is_alphanumeric`].
pub assume_specification[ char::is_alphanumeric ](c: char) -> (b: bool)
    ensures
        b == is_alphanumeric(c),
;

/// The sets of characters that the grammars of this crate are made of.
#[derive(Clone, Copy, Debug)]
pub enum CharClass {
    /// Space, tab, carriage return and line feed.
    Space,
    /// The ASCII letters and digits.
    AsciiAlphanumeric,
    /// What an identifier is made of: alphanumeric characters, `_` and `.`.
    Identifier,
    /// Every character but the two quotes `'` and `"`.
    Unquoted,
    /// Every character but the given one.
    Except(char),
}

/// The blanks: space, tab, carriage return and line feed.
pub open spec fn is_space(c: char) -> bool {
    c == ' ' || c == '\t' || c == '\r' || c == '\n'
}

/// The ASCII letters and digits.
pub open spec fn is_ascii_alphanumeric(c: char) -> bool {
    ('a' <= c && c <= 'z') || ('A' <= c && c <= 'Z') || ('0' <= c && c <= '9')
}

/// The characters of an identifier: alphanumeric ones, `_` and `.`.
pub open spec fn is_identifier_char(c: char) -> bool {
    is_alphanumeric(c) || c == '_' || c == '.'
}

/// The two quotes, `'` and `"`.
pub open spec fn is_quote(c: char) -> bool {
    c == '\'' || c == '"'
}

/// Tests whether a character may stand in an identifier, given what
/// `char::is_alphanumeric` answers for it.
pub fn identifier_char(c: char, alphanumeric: bool) -> (b: bool)
    ensures
        b == (alphanumeric || c == '_' || c == '.'),
{
    alphanumeric || c == '_' || c == '.'
}

impl CharClass {
    /// Membership of `c` in the class.
    pub open spec fn has(self, c: char) -> bool {
        match self {
            CharClass::Space => is_space(c),
            CharClass::AsciiAlphanumeric => is_ascii_alphanumeric(c),
            CharClass::Identifier => is_identifier_char(c),
            CharClass::Unquoted => !is_quote(c),
            CharClass::Except(x) => c != x,
        }
    }

    /// Tests whether `c` belongs to the class.
    pub fn contains(self, c: char) -> (b: bool)
        ensures
            b == self.has(c),
    {
        match self {
            CharClass::Space => c == ' ' || c == '\t' || c == '\r' || c == '\n',
            CharClass::AsciiAlphanumeric => {
                ('a' <= c && c <= 'z') || ('A' <= c && c <= 'Z') || ('0' <= c && c <= '9')
            },
            CharClass::Identifier => identifier_char(c, c.is_alphanumeric()),
            CharClass::Unquoted => !(c == '\'' || c == '"'),
            CharClass::Except(x) => c != x,
        }
    }
}

/// The end of the longest run of characters of `class` that starts at `from`:
/// the first position at or after `from` that holds a character outside the
/// class, or the length of `s` if there is none.
pub open spec fn run_end(s: Seq<char>, from: int, class: CharClass) -> int
    decreases s.len() - from,
{
    if 0 <= from < s.len() && class.has(s[from]) {
        run_end(s, from + 1, class)
    } else {
        from
    }
}

/// `run_end` ends a run of `class` that starts at `from`, and the run cannot
/// be longer.
pub proof fn lemma_run_end(s: Seq<char>, from: int, class: CharClass)
    requires
        0 <= from <= s.len(),
    ensures
        from <= run_end(s, from, class) <= s.len(),
        forall|i: int| from <= i < run_end(s, from, class) ==> class.has(#[trigger] s[i]),
        run_end(s, from, class) < s.len() ==> !class.has(s[run_end(s, from, class)]),
    decreases s.len() - from,
{
    if from < s.len() && class.has(s[from]) {
        lemma_run_end(s, from + 1, class);
    }
}

/// Whether `pat` stands in `s` at position `at`.
pub open spec fn occurs_at(s: Seq<char>, pat: Seq<char>, at: int) -> bool {
    0 <= at && at + pat.len() <= s.len() && s.subrange(at, at + pat.len()) == pat
}

/// The first position at or after `from` at which `pat` stands in `s`.
pub open spec fn find(s: Seq<char>, pat: Seq<char>, from: int) -> Option<int>
    decreases s.len() + 1 - from,
{
    if from < 0 || from + pat.len() > s.len() {
        None
    } else if occurs_at(s, pat, from) {
        Some(from)
    } else {
        find(s, pat, from + 1)
    }
}

/// Whether `pat` stands anywhere in `s`.
pub open spec fn contains(s: Seq<char>, pat: Seq<char>) -> bool {
    exists|at: int| occurs_at(s, pat, at)
}

/// What stands in a part of a text stands in the text.
pub proof fn lemma_contains_part(s: Seq<char>, from: int, to: int, pat: Seq<char>)
    requires
        0 <= from <= to <= s.len(),
        contains(s.subrange(from, to), pat),
    ensures
        contains(s, pat),
{
    let part = s.subrange(from, to);
    let at = choose|at: int| occurs_at(part, pat, at);
    assert(s.subrange(from + at, from + at + pat.len()) =~= part.subrange(at, at + pat.len()));
    assert(occurs_at(s, pat, from + at));
}

/// What `find` returns is the first occurrence, and it returns one whenever
/// there is any.
pub proof fn lemma_find(s: Seq<char>, pat: Seq<char>, from: int)
    requires
        0 <= from,
    ensures
        match find(s, pat, from) {
            Some(at) => from <= at && occurs_at(s, pat, at) && forall|i: int|
                from <= i < at ==> !occurs_at(s, pat, i),
            None => forall|i: int| from <= i ==> !occurs_at(s, pat, i),
        },
    decreases s.len() + 1 - from,
{
    if from + pat.len() <= s.len() && !occurs_at(s, pat, from) {
        lemma_find(s, pat, from + 1);
    }
}

/// Searching from the start decides containment.
pub proof fn lemma_find_contains(s: Seq<char>, pat: Seq<char>)
    ensures
        contains(s, pat) <==> find(s, pat, 0) is Some,
{
    lemma_find(s, pat, 0);
}

/// A position that an executable search found, as a mathematical integer.
pub open spec fn position(found: Option<usize>) -> Option<int> {
    match found {
        Some(at) => Some(at as int),
        None => None,
    }
}

/// A pair of positions, as mathematical integers.
pub open spec fn span(found: (usize, usize)) -> (int, int) {
    (found.0 as int, found.1 as int)
}

/// A list of pairs of positions, as mathematical integers.
pub open spec fn spans(found: Seq<(usize, usize)>) -> Seq<(int, int)> {
    found.map_values(|pair: (usize, usize)| span(pair))
}

/// The views of a list of string slices.
pub open spec fn slices(list: Seq<&str>) -> Seq<Seq<char>> {
    list.map_values(|s: &str| s@)
}

/// The views of a list of strings.
pub open spec fn texts(list: Seq<String>) -> Seq<Seq<char>> {
    list.map_values(|s: String| s@)
}

/// Tests whether a string stands in a list.
pub fn has_text(list: &Vec<String>, s: &String) -> (b: bool)
    ensures
        b == texts(list@).contains(s@),
{
    let mut i: usize = 0;
    while i < list.len()
        invariant
            i <= list@.len(),
            forall|k: int| 0 <= k < i ==> texts(list@)[k] != s@,
        decreases list@.len() - i,
    {
        if list[i] == *s {
            assert(texts(list@)[i as int] == s@);
            return true;
        }
        i += 1;
    }
    false
}

/// Decodes a string slice into its characters.
pub fn to_chars(s: &str) -> (chars: Vec<char>)
    ensures
        chars@ == s@,
{
    let mut chars: Vec<char> = Vec::new();
    for c in it: s.chars()
        invariant
            it.seq() == s@,
            chars@ == it.seq().take(it.index() as int),
    {
        chars.push(c);
    }
    chars
}

/// A text together with its characters, decoded once for all the readings
/// of it.
pub struct Text {
    source: String,
    chars: Vec<char>,
}

impl View for Text {
    type V = Seq<char>;

    closed spec fn view(&self) -> Seq<char> {
        self.source@
    }
}

impl Text {
    #[verifier::type_invariant]
    spec fn decoded(self) -> bool {
        self.chars@ == self.source@
    }

    /// Decodes a string.
    pub fn new(source: String) -> (text: Text)
        ensures
            text@ == source@,
    {
        let chars = to_chars(source.as_str());
        Text { source, chars }
    }

    /// The text as a string.
    pub fn as_str(&self) -> (source: &str)
        ensures
            source@ == self@,
    {
        self.source.as_str()
    }

    /// The characters of the text.
    pub fn chars(&self) -> (chars: &[char])
        ensures
            chars@ == self@,
    {
        proof {
            use_type_invariant(self);
        }
        self.chars.as_slice()
    }

    /// The number of characters of the text.
    pub fn len(&self) -> (n: usize)
        ensures
            n == self@.len(),
    {
        proof {
            use_type_invariant(self);
        }
        self.chars.len()
    }

    /// Copies the characters `from..to` into a string of their own.
    pub fn cut(&self, from: usize, to: usize) -> (piece: String)
        requires
            from <= to <= self@.len(),
        ensures
            piece@ == self@.subrange(from as int, to as int),
    {
        self.source.as_str().substring_char(from, to).to_owned()
    }
}

/// Skips the run of characters of `class` that starts at `from`.
pub fn scan(s: &[char], from: usize, class: CharClass) -> (end: usize)
    requires
        from <= s@.len(),
    ensures
        end == run_end(s@, from as int, class),
        from <= end <= s@.len() <= usize::MAX,
{
    let mut end: usize = from;
    while end < s.len() && class.contains(s[end])
        invariant
            from <= end <= s@.len(),
            run_end(s@, from as int, class) == run_end(s@, end as int, class),
        decreases s@.len() - end,
    {
        end += 1;
    }
    end
}

/// Tests whether `pat` stands in `s` at position `at`.
pub fn starts_with_at(s: &[char], pat: &[char], at: usize) -> (b: bool)
    ensures
        b == occurs_at(s@, pat@, at as int),
        b ==> at + pat@.len() <= s@.len() <= usize::MAX,
{
    if pat.len() > s.len() || at > s.len() - pat.len() {
        return false;
    }
    let mut k: usize = 0;
    while k < pat.len()
        invariant
            k <= pat@.len(),
            at + pat@.len() <= s@.len() <= usize::MAX,
            forall|j: int| 0 <= j < k ==> s@[at + j] == pat@[j],
        decreases pat@.len() - k,
    {
        if s[at + k] != pat[k] {
            return false;
        }
        k += 1;
    }
    assert(s@.subrange(at as int, at + pat@.len()) =~= pat@);
    true
}

/// Tests whether the character at position `at` of `s` is `c`.
pub fn has_char_at(s: &[char], at: usize, c: char) -> (b: bool)
    ensures
        b == (at < s@.len() && s@[at as int] == c),
        b ==> at < s@.len() <= usize::MAX,
{
    at < s.len() && s[at] == c
}

/// Searches `s` for the first occurrence of `pat` at or after `from`.
pub fn search(s: &[char], pat: &[char], from: usize) -> (found: Option<usize>)
    ensures
        position(found) == find(s@, pat@, from as int),
        found matches Some(at) ==> from <= at && at + pat@.len() <= s@.len() <= usize::MAX,
{
    if pat.len() > s.len() || from > s.len() - pat.len() {
        return None;
    }
    let last: usize = s.len() - pat.len();
    let mut at: usize = from;
    loop
        invariant
            from <= at <= last,
            last == s@.len() - pat@.len(),
            find(s@, pat@, from as int) == find(s@, pat@, at as int),
        decreases last - at,
    {
        if starts_with_at(s, pat, at) {
            return Some(at);
        }
        if at == last {
            assert(find(s@, pat@, at + 1) is None);
            return None;
        }
        at += 1;
    }
}

/// Tests whether `pat` stands anywhere in `s`.
pub fn includes(s: &[char], pat: &[char]) -> (b: bool)
    ensures
        b == contains(s@, pat@),
{
    proof {
        lemma_find_contains(s@, pat@);
    }
    search(s, pat, 0).is_some()
}

} // verus!
