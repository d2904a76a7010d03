//! Matching of token patterns against the tokens of a source.

use std::ops::Range;
use vstd::prelude::*;
use vstd::utf8::*;

use crate::js_tokens::{tok_text, token_string_eq, tokens_of, Kind, Tokens};
use crate::text::{byte_offset, str_eq, texts, Text};

verus! {

pub const ID_SLOTS: usize = 16;

pub const SPAN_SLOTS: usize = 4;

pub const BOOL_SLOTS: usize = 4;

/// One step of a pattern.
#[derive(Clone, Copy)]
pub enum Atom {
    /// Tokens with these texts, written with whitespace between them.
    ExactRun(&'static str),
    /// A token with one of these texts.
    OneOf(&'static [&'static str]),
    /// An identifier.
    AnyIdent,
    /// An identifier that is the same at each atom of its slot.
    Ident(usize),
    /// A literal that stands for this text.
    Str(&'static str),
    /// `true` or `!0`, `false` or `!1`.
    Bool(bool),
    /// A boolean that is the same at each atom of its slot.
    CaptureBool(usize),
    /// A property access, optional or not.
    Member(&'static str),
    /// `== null` or `=== null`.
    NullEq,
    /// `!= null` or `!== null`.
    NullNe,
    /// `undefined` or `void 0`.
    Undefined,
    /// A following token on the same line as the one before it.
    NoLineBreak,
    /// Start of a span.
    Begin(usize),
    /// End of a span that has started and is not empty.
    End(usize),
}

// ---------------------------------------------------------------------------
// What a pattern matches

/// Tokens that a pattern has matched, and what it has bound, by token index.
#[verifier::ext_equal]
pub struct Matched {
    pub start: int,
    pub end: int,
    pub ids: Seq<Option<int>>,
    pub spans: Seq<Option<(int, int)>>,
    pub bools: Seq<Option<bool>>,
}

pub open spec fn token_text(s: Seq<char>, i: int) -> Seq<char> {
    tok_text(s, tokens_of(s)[i])
}

pub open spec fn token_is(s: Seq<char>, i: int, text: Seq<char>) -> bool {
    0 <= i < tokens_of(s).len() && token_text(s, i) == text
}

pub open spec fn token_is_ident(s: Seq<char>, i: int) -> bool {
    0 <= i < tokens_of(s).len() && tokens_of(s)[i].kind == Kind::Ident
}

pub open spec fn is_ascii_space(c: char) -> bool {
    c == ' ' || c == '\t' || c == '\n' || c == '\u{c}' || c == '\r'
}

pub open spec fn word_end(s: Seq<char>, i: int) -> int
    decreases s.len() - i,
{
    if 0 <= i < s.len() && !is_ascii_space(s[i]) {
        word_end(s, i + 1)
    } else {
        i
    }
}

proof fn lemma_word_end(s: Seq<char>, i: int)
    requires
        0 <= i <= s.len(),
    ensures
        i <= word_end(s, i) <= s.len(),
    decreases s.len() - i,
{
    if i < s.len() && !is_ascii_space(s[i]) {
        lemma_word_end(s, i + 1);
    }
}

/// The pieces of `s` from `i` on that whitespace separates.
pub open spec fn words_from(s: Seq<char>, i: int) -> Seq<Seq<char>>
    decreases s.len() - i,
{
    if !(0 <= i < s.len()) {
        Seq::empty()
    } else if is_ascii_space(s[i]) {
        words_from(s, i + 1)
    } else {
        let end = word_end(s, i);
        if i < end <= s.len() {
            seq![s.subrange(i, end)] + words_from(s, end)
        } else {
            Seq::empty()
        }
    }
}

pub open spec fn words(s: Seq<char>) -> Seq<Seq<char>> {
    words_from(s, 0)
}

/// The tokens from `i` on have these texts.
pub open spec fn run_at(s: Seq<char>, i: int, run: Seq<Seq<char>>) -> bool {
    forall|k: int| 0 <= k < run.len() ==> token_is(s, i + k, #[trigger] run[k])
}

pub open spec fn one_of(options: Seq<&'static str>, text: Seq<char>) -> bool {
    exists|k: int| 0 <= k < options.len() && (#[trigger] options[k])@ == text
}

/// A boolean at `i`, and the position after it.
pub open spec fn bool_at(s: Seq<char>, i: int) -> Option<(bool, int)> {
    if token_is(s, i, "true"@) {
        Some((true, i + 1))
    } else if token_is(s, i, "false"@) {
        Some((false, i + 1))
    } else if token_is(s, i, "!"@) && token_is(s, i + 1, "0"@) {
        Some((true, i + 2))
    } else if token_is(s, i, "!"@) && token_is(s, i + 1, "1"@) {
        Some((false, i + 2))
    } else {
        None
    }
}

pub open spec fn advanced(m: Matched, count: int) -> Option<Matched> {
    Some(Matched { end: m.end + count, ..m })
}

pub open spec fn advanced_if(yes: bool, m: Matched, count: int) -> Option<Matched> {
    if yes {
        advanced(m, count)
    } else {
        None
    }
}

pub open spec fn after_ident(s: Seq<char>, m: Matched, slot: int) -> Option<Matched> {
    if !token_is_ident(s, m.end) || slot >= m.ids.len() {
        None
    } else {
        match m.ids[slot] {
            Some(bound) => advanced_if(token_text(s, bound) == token_text(s, m.end), m, 1),
            None => advanced(Matched { ids: m.ids.update(slot, Some(m.end)), ..m }, 1),
        }
    }
}

pub open spec fn after_captured_bool(s: Seq<char>, m: Matched, slot: int) -> Option<Matched> {
    match bool_at(s, m.end) {
        Some((value, next)) => if slot >= m.bools.len() {
            None
        } else {
            match m.bools[slot] {
                Some(bound) => advanced_if(bound == value, m, next - m.end),
                None => advanced(
                    Matched { bools: m.bools.update(slot, Some(value)), ..m },
                    next - m.end,
                ),
            }
        },
        None => None,
    }
}

pub open spec fn after_begin(m: Matched, slot: int) -> Option<Matched> {
    if slot < m.spans.len() && m.spans[slot] is None {
        Some(Matched { spans: m.spans.update(slot, Some((m.end, m.end))), ..m })
    } else {
        None
    }
}

pub open spec fn after_end(m: Matched, slot: int) -> Option<Matched> {
    if slot >= m.spans.len() {
        None
    } else {
        match m.spans[slot] {
            Some((start, end)) => if start < m.end && end == start {
                Some(Matched { spans: m.spans.update(slot, Some((start, m.end))), ..m })
            } else {
                None
            },
            None => None,
        }
    }
}

/// What is matched after one more atom.
pub open spec fn after_atom(s: Seq<char>, m: Matched, atom: Atom) -> Option<Matched> {
    match atom {
        Atom::ExactRun(expected) => advanced_if(
            run_at(s, m.end, words(expected@)),
            m,
            words(expected@).len() as int,
        ),
        Atom::OneOf(expected) => advanced_if(
            m.end < tokens_of(s).len() && one_of(expected@, token_text(s, m.end)),
            m,
            1,
        ),
        Atom::AnyIdent => advanced_if(token_is_ident(s, m.end), m, 1),
        Atom::Ident(slot) => after_ident(s, m, slot as int),
        Atom::Str(expected) => advanced_if(
            m.end < tokens_of(s).len() && token_string_eq(s, tokens_of(s)[m.end], expected@),
            m,
            1,
        ),
        Atom::Bool(expected) => match bool_at(s, m.end) {
            Some((value, next)) => advanced_if(value == expected, m, next - m.end),
            None => None,
        },
        Atom::CaptureBool(slot) => after_captured_bool(s, m, slot as int),
        Atom::Member(property) => advanced_if(
            (token_is(s, m.end, "."@) || token_is(s, m.end, "?."@)) && token_is(
                s,
                m.end + 1,
                property@,
            ),
            m,
            2,
        ),
        Atom::NullEq => advanced_if(
            (token_is(s, m.end, "=="@) || token_is(s, m.end, "==="@)) && token_is(
                s,
                m.end + 1,
                "null"@,
            ),
            m,
            2,
        ),
        Atom::NullNe => advanced_if(
            (token_is(s, m.end, "!="@) || token_is(s, m.end, "!=="@)) && token_is(
                s,
                m.end + 1,
                "null"@,
            ),
            m,
            2,
        ),
        Atom::Undefined => if token_is(s, m.end, "undefined"@) {
            advanced(m, 1)
        } else {
            advanced_if(token_is(s, m.end, "void"@) && token_is(s, m.end + 1, "0"@), m, 2)
        },
        Atom::NoLineBreak => advanced_if(
            m.end < tokens_of(s).len() && !tokens_of(s)[m.end].line_break_before,
            m,
            0,
        ),
        Atom::Begin(slot) => after_begin(m, slot as int),
        Atom::End(slot) => after_end(m, slot as int),
    }
}

/// What is matched after the first `k` atoms.
pub open spec fn after_atoms(s: Seq<char>, pattern: Seq<Atom>, k: int, m: Matched) -> Option<
    Matched,
>
    decreases k,
{
    if k <= 0 {
        Some(m)
    } else {
        match after_atoms(s, pattern, k - 1, m) {
            Some(next) => after_atom(s, next, pattern[k - 1]),
            None => None,
        }
    }
}

/// Nothing matched yet at `start`, with some identifiers bound.
pub open spec fn unmatched(start: int, ids: Seq<Option<int>>) -> Matched {
    Matched {
        start,
        end: start,
        ids,
        spans: Seq::new(SPAN_SLOTS as nat, |k: int| None),
        bools: Seq::new(BOOL_SLOTS as nat, |k: int| None),
    }
}

pub open spec fn unbound() -> Seq<Option<int>> {
    Seq::new(ID_SLOTS as nat, |k: int| None)
}

/// What a pattern matches at `start`.
pub open spec fn matched_at(
    s: Seq<char>,
    start: int,
    pattern: Seq<Atom>,
    ids: Seq<Option<int>>,
) -> Option<Matched> {
    after_atoms(s, pattern, pattern.len() as int, unmatched(start, ids))
}

/// What a pattern matches at the first `count` tokens, in order.
pub open spec fn matches_before(s: Seq<char>, pattern: Seq<Atom>, count: int) -> Seq<Matched>
    decreases count,
{
    if count <= 0 {
        Seq::empty()
    } else {
        let before = matches_before(s, pattern, count - 1);
        match matched_at(s, count - 1, pattern, unbound()) {
            Some(m) => before.push(m),
            None => before,
        }
    }
}

/// What a pattern matches in a source, in order.
pub open spec fn matches_of(s: Seq<char>, pattern: Seq<Atom>) -> Seq<Matched> {
    matches_before(s, pattern, tokens_of(s).len() as int)
}

/// A pattern matches at one of the tokens from `start` to before `end`.
pub open spec fn any_match(
    s: Seq<char>,
    start: int,
    end: int,
    pattern: Seq<Atom>,
    ids: Seq<Option<int>>,
) -> bool {
    exists|i: int| start <= i < end && (#[trigger] matched_at(s, i, pattern, ids)) is Some
}

/// Bytes from the start of token `start` to the end of the token before `end`.
pub open spec fn token_bytes(s: Seq<char>, start: int, end: int) -> Option<(int, int)> {
    if start < end <= tokens_of(s).len() {
        Some(
            (
                byte_offset(s, tokens_of(s)[start].start),
                byte_offset(s, tokens_of(s)[end - 1].end),
            ),
        )
    } else {
        None
    }
}

pub open spec fn range_view(range: Option<Range<usize>>) -> Option<(int, int)> {
    match range {
        Some(range) => Some((range.start as int, range.end as int)),
        None => None,
    }
}

/// Every bound identifier is a token of the source.
pub open spec fn ids_inside(s: Seq<char>, ids: Seq<Option<int>>) -> bool {
    forall|k: int|
        0 <= k < ids.len() ==> (#[trigger] ids[k] matches Some(i) ==> 0 <= i < tokens_of(s).len())
}

// ---------------------------------------------------------------------------
// Facts about matches

proof fn lemma_atoms_failed(s: Seq<char>, pattern: Seq<Atom>, k: int, n: int, m: Matched)
    requires
        0 <= k <= n,
        after_atoms(s, pattern, k, m) is None,
    ensures
        after_atoms(s, pattern, n, m) is None,
    decreases n - k,
{
    if k < n {
        lemma_atoms_failed(s, pattern, k + 1, n, m);
    }
}

/// A match keeps its start and its slots, never moves back, and keeps what was bound.
pub proof fn lemma_after_atoms(s: Seq<char>, pattern: Seq<Atom>, k: int, m: Matched)
    requires
        0 <= k <= pattern.len(),
        0 <= m.start <= m.end,
        ids_inside(s, m.ids),
    ensures
        after_atoms(s, pattern, k, m) matches Some(next) ==> {
            &&& next.start == m.start
            &&& m.end <= next.end
            &&& next.ids.len() == m.ids.len()
            &&& next.spans.len() == m.spans.len()
            &&& next.bools.len() == m.bools.len()
            &&& ids_inside(s, next.ids)
            &&& next.end <= m.end || next.end <= tokens_of(s).len()
            &&& forall|j: int|
                0 <= j < m.ids.len() && m.ids[j] is Some ==> #[trigger] next.ids[j] == m.ids[j]
            &&& forall|j: int|
                0 <= j < m.bools.len() && m.bools[j] is Some ==> #[trigger] next.bools[j]
                    == m.bools[j]
        },
    decreases k,
{
    if k > 0 {
        lemma_after_atoms(s, pattern, k - 1, m);
        if let Some(before) = after_atoms(s, pattern, k - 1, m) {
            if let Atom::ExactRun(expected) = pattern[k - 1] {
                let run = words(expected@);
                if run_at(s, before.end, run) && run.len() > 0 {
                    assert(token_is(s, before.end + (run.len() - 1), run[run.len() - 1]));
                }
            }
        }
    }
}

/// Each identifier atom of a pattern that matches leaves its slot bound to a token.
pub proof fn lemma_ident_bound(
    s: Seq<char>,
    pattern: Seq<Atom>,
    start: int,
    ids: Seq<Option<int>>,
    j: int,
)
    requires
        0 <= start,
        0 <= j < pattern.len(),
        ids_inside(s, ids),
        pattern[j] is Ident,
        matched_at(s, start, pattern, ids) is Some,
    ensures
        ({
            let slot = pattern[j]->Ident_0 as int;
            let m = matched_at(s, start, pattern, ids)->0;
            &&& slot < m.ids.len()
            &&& m.ids[slot] matches Some(i)
            &&& 0 <= i < tokens_of(s).len()
        }),
{
    let m = unmatched(start, ids);
    lemma_after_atoms(s, pattern, pattern.len() as int, m);
    lemma_bound_stays(s, pattern, j + 1, pattern.len() as int, m);
    lemma_after_atoms(s, pattern, j, m);
}

/// Each captured boolean of a pattern that matches is bound.
pub proof fn lemma_bool_bound(
    s: Seq<char>,
    pattern: Seq<Atom>,
    start: int,
    ids: Seq<Option<int>>,
    j: int,
)
    requires
        0 <= start,
        0 <= j < pattern.len(),
        ids_inside(s, ids),
        pattern[j] is CaptureBool,
        matched_at(s, start, pattern, ids) is Some,
    ensures
        ({
            let slot = pattern[j]->CaptureBool_0 as int;
            let m = matched_at(s, start, pattern, ids)->0;
            slot < m.bools.len() && m.bools[slot] is Some
        }),
{
    let m = unmatched(start, ids);
    lemma_bound_stays(s, pattern, j + 1, pattern.len() as int, m);
    lemma_after_atoms(s, pattern, j, m);
}

proof fn lemma_bound_stays(s: Seq<char>, pattern: Seq<Atom>, k: int, n: int, m: Matched)
    requires
        0 <= k <= n <= pattern.len(),
        0 <= m.start <= m.end,
        ids_inside(s, m.ids),
        after_atoms(s, pattern, n, m) is Some,
    ensures
        after_atoms(s, pattern, k, m) is Some,
        ({
            let early = after_atoms(s, pattern, k, m)->0;
            let late = after_atoms(s, pattern, n, m)->0;
            &&& early.ids.len() == late.ids.len()
            &&& early.bools.len() == late.bools.len()
            &&& forall|j: int|
                0 <= j < early.ids.len() && early.ids[j] is Some ==> #[trigger] late.ids[j]
                    == early.ids[j]
            &&& forall|j: int|
                0 <= j < early.bools.len() && early.bools[j] is Some ==> #[trigger] late.bools[j]
                    == early.bools[j]
        }),
    decreases n - k,
{
    lemma_after_atoms(s, pattern, k, m);
    if k < n {
        lemma_bound_stays(s, pattern, k + 1, n, m);
    }
}

/// A pattern finds exactly the tokens at which it matches, each once, in order.
pub proof fn lemma_matches_before(s: Seq<char>, pattern: Seq<Atom>, count: int)
    requires
        0 <= count <= tokens_of(s).len(),
    ensures
        forall|k: int|
            0 <= k < matches_before(s, pattern, count).len() ==> {
                let m = #[trigger] matches_before(s, pattern, count)[k];
                0 <= m.start < count && matched_at(s, m.start, pattern, unbound()) == Some(m)
            },
        forall|j: int, k: int|
            0 <= j < k < matches_before(s, pattern, count).len() ==> (
            #[trigger] matches_before(s, pattern, count)[j]).start < (#[trigger] matches_before(
                s,
                pattern,
                count,
            )[k]).start,
        forall|start: int|
            0 <= start < count ==> (#[trigger] matched_at(s, start, pattern, unbound()) matches Some(
                m,
            ) ==> matches_before(s, pattern, count).contains(m)),
    decreases count,
{
    if count > 0 {
        lemma_matches_before(s, pattern, count - 1);
        lemma_after_atoms(s, pattern, pattern.len() as int, unmatched(count - 1, unbound()));
        let before = matches_before(s, pattern, count - 1);
        let all = matches_before(s, pattern, count);
        assert forall|start: int| 0 <= start < count implies (#[trigger] matched_at(
            s,
            start,
            pattern,
            unbound(),
        ) matches Some(m) ==> all.contains(m)) by {
            if let Some(m) = matched_at(s, start, pattern, unbound()) {
                if start == count - 1 {
                    assert(all[all.len() - 1] == m);
                } else {
                    let k = choose|k: int| 0 <= k < before.len() && before[k] == m;
                    assert(all[k] == m);
                }
            }
        }
    }
}

// ---------------------------------------------------------------------------
// The matcher

/// Tokens that a pattern has matched, and what it has bound, by token index.
pub struct Hit {
    pub start: usize,
    pub end: usize,
    pub ids: Vec<Option<usize>>,
    pub spans: Vec<Option<(usize, usize)>>,
    pub bools: Vec<Option<bool>>,
}

pub open spec fn id_view(id: Option<usize>) -> Option<int> {
    match id {
        Some(i) => Some(i as int),
        None => None,
    }
}

pub open spec fn span_view(span: Option<(usize, usize)>) -> Option<(int, int)> {
    match span {
        Some((start, end)) => Some((start as int, end as int)),
        None => None,
    }
}

impl View for Hit {
    type V = Matched;

    open spec fn view(&self) -> Matched {
        Matched {
            start: self.start as int,
            end: self.end as int,
            ids: self.ids@.map_values(|id: Option<usize>| id_view(id)),
            spans: self.spans@.map_values(|span: Option<(usize, usize)>| span_view(span)),
            bools: self.bools@,
        }
    }
}

pub open spec fn hits_view(hits: Seq<Hit>) -> Seq<Matched> {
    hits.map_values(|hit: Hit| hit@)
}

/// Identifiers that an earlier match has bound.
pub open spec fn seed_ids(seed: Option<&Hit>) -> Seq<Option<int>> {
    match seed {
        Some(hit) => hit@.ids,
        None => unbound(),
    }
}

impl Hit {
    /// Token that an identifier slot is bound to.
    pub fn ident(&self, slot: usize) -> (index: usize)
        requires
            slot < self@.ids.len(),
            self@.ids[slot as int] is Some,
        ensures
            self@.ids[slot as int] == Some(index as int),
    {
        match self.ids[slot] {
            Some(index) => index,
            None => 0,
        }
    }

    /// Bytes of a span, if it is bound and not empty.
    pub fn span(&self, tokens: &Tokens<'_>, slot: usize) -> (range: Option<Range<usize>>)
        requires
            slot < self@.spans.len(),
        ensures
            range_view(range) == (match self@.spans[slot as int] {
                Some((start, end)) => token_bytes(tokens.source(), start, end),
                None => None,
            }),
    {
        match self.spans[slot] {
            Some((start, end)) => token_range(tokens, start, end),
            None => None,
        }
    }

    /// Boolean that a slot is bound to.
    pub fn boolean(&self, slot: usize) -> (value: bool)
        requires
            slot < self@.bools.len(),
            self@.bools[slot as int] is Some,
        ensures
            self@.bools[slot as int] == Some(value),
    {
        match self.bools[slot] {
            Some(value) => value,
            None => false,
        }
    }
}

/// Bytes from the start of token `start` to the end of the token before `end`.
pub fn token_range(tokens: &Tokens<'_>, start: usize, end: usize) -> (range: Option<Range<usize>>)
    ensures
        range_view(range) == token_bytes(tokens.source(), start as int, end as int),
{
    if start < end && end <= tokens.len() {
        Some(tokens.span(start).start..tokens.span(end - 1).end)
    } else {
        None
    }
}

fn ascii_space(c: char) -> (yes: bool)
    ensures
        yes == is_ascii_space(c),
{
    c == ' ' || c == '\t' || c == '\n' || c == '\u{c}' || c == '\r'
}

/// The pieces of `text` that ASCII whitespace separates.
pub fn split_words<'s>(text: &'s str) -> (parts: Vec<&'s str>)
    ensures
        texts(parts@) == words(text@),
{
    let chars = Text::new(text);
    let n = chars.len();
    let mut parts: Vec<&'s str> = Vec::new();
    let mut i: usize = 0;
    assert(texts(parts@) + words_from(text@, 0) =~= words(text@));
    while i < n
        invariant
            chars@ == text@,
            i <= n == text@.len(),
            words(text@) == texts(parts@) + words_from(text@, i as int),
        decreases n - i,
    {
        if ascii_space(chars.at(i)) {
            i += 1;
            continue;
        }
        let start = i;
        while i < n && !ascii_space(chars.at(i))
            invariant
                chars@ == text@,
                start <= i <= n == text@.len(),
                word_end(text@, start as int) == word_end(text@, i as int),
            decreases n - i,
        {
            i += 1;
        }
        let ghost kept = parts@;
        let part = chars.slice(start, i);
        parts.push(part);
        proof {
            let rest = words_from(text@, i as int);
            assert(texts(parts@) =~= texts(kept).push(part@));
            assert(texts(kept) + (seq![part@] + rest) =~= texts(parts@) + rest);
        }
    }
    assert(texts(parts@) =~= words(text@));
    parts
}

fn take(tokens: &Tokens<'_>, position: usize, expected: &str) -> (yes: bool)
    ensures
        yes == token_is(tokens.source(), position as int, expected@),
        yes ==> position < usize::MAX,
{
    position < tokens.len() && str_eq(tokens.text(position), expected)
}

fn take_next(tokens: &Tokens<'_>, position: usize, expected: &str) -> (yes: bool)
    requires
        position < tokens@.len(),
    ensures
        yes == token_is(tokens.source(), position + 1, expected@),
        yes ==> position + 2 <= usize::MAX,
{
    let n = tokens.len();
    position + 1 < n && str_eq(tokens.text(position + 1), expected)
}

fn take_run(tokens: &Tokens<'_>, position: usize, run: &Vec<&'static str>) -> (end: Option<usize>)
    ensures
        match end {
            Some(end) => run_at(tokens.source(), position as int, texts(run@)) && end == position
                + run@.len(),
            None => !run_at(tokens.source(), position as int, texts(run@)),
        },
{
    let mut k: usize = 0;
    let ghost want = texts(run@);
    let mut end: usize = position;
    while k < run.len()
        invariant
            k <= run@.len(),
            want == texts(run@),
            end == position + k,
            forall|j: int| 0 <= j < k ==> token_is(tokens.source(), position + j, #[trigger] want[j]),
        decreases run.len() - k,
    {
        if !take(tokens, end, run[k]) {
            assert(!token_is(tokens.source(), position + k, want[k as int]));
            return None;
        }
        k += 1;
        end += 1;
    }
    Some(end)
}

fn take_one(tokens: &Tokens<'_>, position: usize, expected: &[&'static str]) -> (yes: bool)
    ensures
        yes == (position < tokens@.len() && one_of(
            expected@,
            token_text(tokens.source(), position as int),
        )),
        yes ==> position < usize::MAX,
{
    if position >= tokens.len() {
        return false;
    }
    let text = tokens.text(position);
    let mut k: usize = 0;
    while k < expected.len()
        invariant
            k <= expected@.len(),
            position < tokens@.len(),
            position < usize::MAX,
            text@ == token_text(tokens.source(), position as int),
            forall|j: int| 0 <= j < k ==> (#[trigger] expected@[j])@ != text@,
        decreases expected.len() - k,
    {
        if str_eq(expected[k], text) {
            assert(expected@[k as int]@ == text@);
            return true;
        }
        k += 1;
    }
    false
}

fn take_ident(tokens: &Tokens<'_>, position: usize) -> (yes: bool)
    ensures
        yes == token_is_ident(tokens.source(), position as int),
        yes ==> position < usize::MAX,
{
    position < tokens.len() && tokens.kind(position) == Kind::Ident
}

/// Reads a boolean and moves `position` after it. Without one, `position` moves past a
/// leading `!`.
pub fn take_bool_value(tokens: &Tokens<'_>, position: &mut usize) -> (value: Option<bool>)
    ensures
        match bool_at(tokens.source(), *old(position) as int) {
            Some((read, next)) => value == Some(read) && *final(position) == next,
            None => {
                &&& value is None
                &&& *final(position) == *old(position) + (if token_is(
                    tokens.source(),
                    *old(position) as int,
                    "!"@,
                ) {
                    1int
                } else {
                    0
                })
            },
        },
{
    proof {
        reveal_strlit("true");
        reveal_strlit("false");
        reveal_strlit("!");
        reveal_strlit("0");
        reveal_strlit("1");
        assert("0"@[0] != "1"@[0]);
        assert("true"@[0] == 't' && "false"@[0] == 'f' && "!"@[0] == '!');
    }
    if take(tokens, *position, "true") {
        *position += 1;
        Some(true)
    } else if take(tokens, *position, "false") {
        *position += 1;
        Some(false)
    } else if take(tokens, *position, "!") {
        *position += 1;
        if take(tokens, *position, "0") {
            *position += 1;
            Some(true)
        } else if take(tokens, *position, "1") {
            *position += 1;
            Some(false)
        } else {
            None
        }
    } else {
        None
    }
}

fn no_ids() -> (ids: Vec<Option<usize>>)
    ensures
        ids@.map_values(|id: Option<usize>| id_view(id)) == unbound(),
        ids@.len() == ID_SLOTS,
{
    let ids: Vec<Option<usize>> = vec![
        None, None, None, None, None, None, None, None, None, None, None, None, None, None, None,
        None,
    ];
    assert(ids@.map_values(|id: Option<usize>| id_view(id)) =~= unbound());
    ids
}

fn copied_ids(ids: &Vec<Option<usize>>) -> (copied: Vec<Option<usize>>)
    ensures
        copied@ == ids@,
{
    let mut copied: Vec<Option<usize>> = Vec::new();
    let mut k: usize = 0;
    while k < ids.len()
        invariant
            k <= ids@.len(),
            copied@ == ids@.take(k as int),
        decreases ids.len() - k,
    {
        copied.push(ids[k]);
        k += 1;
        assert(ids@.take(k as int) =~= ids@.take(k - 1).push(ids@[k - 1]));
    }
    assert(copied@ =~= ids@);
    copied
}

impl Hit {
    fn unmatched(start: usize, seed: Option<&Hit>) -> (hit: Hit)
        ensures
            hit@ == unmatched(start as int, seed_ids(seed)),
    {
        let ids = match seed {
            Some(earlier) => copied_ids(&earlier.ids),
            None => no_ids(),
        };
        let hit = Hit {
            start,
            end: start,
            ids,
            spans: vec![None, None, None, None],
            bools: vec![None, None, None, None],
        };
        assert(hit@ =~= unmatched(start as int, seed_ids(seed)));
        hit
    }

    fn take_bound_ident(&mut self, tokens: &Tokens<'_>, slot: usize) -> (yes: bool)
        requires
            ids_inside(tokens.source(), old(self)@.ids),
        ensures
            match after_ident(tokens.source(), old(self)@, slot as int) {
                Some(next) => yes && final(self)@ == next,
                None => !yes,
            },
    {
        if !take_ident(tokens, self.end) || slot >= self.ids.len() {
            return false;
        }
        let ghost before = self@;
        assert(before.ids[slot as int] == id_view(self.ids@[slot as int]));
        match self.ids[slot] {
            Some(bound) => {
                if !str_eq(tokens.text(bound), tokens.text(self.end)) {
                    return false;
                }
            },
            None => {
                let end = self.end;
                self.ids.set(slot, Some(end));
                assert(self@.ids =~= before.ids.update(slot as int, Some(end as int)));
            },
        }
        self.end += 1;
        true
    }

    fn take_captured_bool(&mut self, tokens: &Tokens<'_>, slot: usize) -> (yes: bool)
        ensures
            match after_captured_bool(tokens.source(), old(self)@, slot as int) {
                Some(next) => yes && final(self)@ == next,
                None => !yes,
            },
    {
        let ghost before = self@;
        let mut position = self.end;
        match take_bool_value(tokens, &mut position) {
            None => {
                return false;
            },
            Some(value) => {
                if slot >= self.bools.len() {
                    return false;
                }
                match self.bools[slot] {
                    Some(bound) => {
                        if bound != value {
                            return false;
                        }
                    },
                    None => {
                        self.bools.set(slot, Some(value));
                    },
                }
            },
        }
        self.end = position;
        true
    }

    fn begin_span(&mut self, slot: usize) -> (yes: bool)
        ensures
            match after_begin(old(self)@, slot as int) {
                Some(next) => yes && final(self)@ == next,
                None => !yes,
            },
    {
        if slot >= self.spans.len() {
            return false;
        }
        let ghost before = self@;
        assert(before.spans[slot as int] == span_view(self.spans@[slot as int]));
        match self.spans[slot] {
            Some(_) => {
                return false;
            },
            None => {},
        }
        let end = self.end;
        self.spans.set(slot, Some((end, end)));
        assert(self@.spans =~= before.spans.update(slot as int, Some((end as int, end as int))));
        true
    }

    fn end_span(&mut self, slot: usize) -> (yes: bool)
        ensures
            match after_end(old(self)@, slot as int) {
                Some(next) => yes && final(self)@ == next,
                None => !yes,
            },
    {
        if slot >= self.spans.len() {
            return false;
        }
        let ghost before = self@;
        assert(before.spans[slot as int] == span_view(self.spans@[slot as int]));
        match self.spans[slot] {
            None => false,
            Some((start, end)) => {
                if start < self.end && end == start {
                    let now = self.end;
                    self.spans.set(slot, Some((start, now)));
                    assert(self@.spans =~= before.spans.update(
                        slot as int,
                        Some((start as int, now as int)),
                    ));
                    true
                } else {
                    false
                }
            },
        }
    }

    /// Moves past `count` tokens when they match.
    fn take_if(&mut self, yes: bool, count: usize) -> (moved: bool)
        requires
            yes ==> old(self).end + count <= usize::MAX,
        ensures
            moved == yes,
            final(self)@ == (if yes {
                advanced(old(self)@, count as int)->0
            } else {
                old(self)@
            }),
    {
        if yes {
            self.end += count;
        }
        yes
    }

    fn take_atom(&mut self, tokens: &Tokens<'_>, atom: Atom) -> (yes: bool)
        requires
            ids_inside(tokens.source(), old(self)@.ids),
        ensures
            match after_atom(tokens.source(), old(self)@, atom) {
                Some(next) => yes && final(self)@ == next,
                None => !yes,
            },
    {
        let end = self.end;
        match atom {
            Atom::ExactRun(expected) => {
                let run = split_words(expected);
                match take_run(tokens, end, &run) {
                    Some(after) => {
                        self.end = after;
                        true
                    },
                    None => false,
                }
            },
            Atom::OneOf(expected) => {
                let yes = take_one(tokens, end, expected);
                self.take_if(yes, 1)
            },
            Atom::AnyIdent => {
                let yes = take_ident(tokens, end);
                self.take_if(yes, 1)
            },
            Atom::Ident(slot) => self.take_bound_ident(tokens, slot),
            Atom::Str(expected) => {
                let yes = end < tokens.len() && tokens.string_eq(end, expected);
                self.take_if(yes, 1)
            },
            Atom::Bool(expected) => {
                let mut position = end;
                let value = take_bool_value(tokens, &mut position);
                match value {
                    Some(value) => {
                        self.end = position;
                        value == expected
                    },
                    None => false,
                }
            },
            Atom::CaptureBool(slot) => self.take_captured_bool(tokens, slot),
            Atom::Member(property) => {
                let yes = (take(tokens, end, ".") || take(tokens, end, "?.")) && take_next(
                    tokens,
                    end,
                    property,
                );
                self.take_if(yes, 2)
            },
            Atom::NullEq => {
                let yes = (take(tokens, end, "==") || take(tokens, end, "===")) && take_next(
                    tokens,
                    end,
                    "null",
                );
                self.take_if(yes, 2)
            },
            Atom::NullNe => {
                let yes = (take(tokens, end, "!=") || take(tokens, end, "!==")) && take_next(
                    tokens,
                    end,
                    "null",
                );
                self.take_if(yes, 2)
            },
            Atom::Undefined => if take(tokens, end, "undefined") {
                self.take_if(true, 1)
            } else {
                let yes = take(tokens, end, "void") && take_next(tokens, end, "0");
                self.take_if(yes, 2)
            },
            Atom::NoLineBreak => end < tokens.len() && !tokens.has_line_break_before(end),
            Atom::Begin(slot) => self.begin_span(slot),
            Atom::End(slot) => self.end_span(slot),
        }
    }
}

pub open spec fn hit_view(hit: Option<Hit>) -> Option<Matched> {
    match hit {
        Some(hit) => Some(hit@),
        None => None,
    }
}

/// What a pattern matches at `start`.
pub fn match_at(tokens: &Tokens<'_>, start: usize, pattern: &[Atom]) -> (hit: Option<Hit>)
    ensures
        hit_view(hit) == matched_at(tokens.source(), start as int, pattern@, unbound()),
{
    match_at_with(tokens, start, pattern, None)
}

/// What a pattern matches at `start` with the identifiers of `seed` bound.
pub fn match_at_with(
    tokens: &Tokens<'_>,
    start: usize,
    pattern: &[Atom],
    seed: Option<&Hit>,
) -> (hit: Option<Hit>)
    requires
        ids_inside(tokens.source(), seed_ids(seed)),
    ensures
        hit_view(hit) == matched_at(tokens.source(), start as int, pattern@, seed_ids(seed)),
{
    let mut hit = Hit::unmatched(start, seed);
    let ghost first = hit@;
    let ghost s = tokens.source();
    let mut k: usize = 0;
    while k < pattern.len()
        invariant
            k <= pattern@.len(),
            s == tokens.source(),
            first == unmatched(start as int, seed_ids(seed)),
            ids_inside(s, first.ids),
            after_atoms(s, pattern@, k as int, first) == Some(hit@),
        decreases pattern.len() - k,
    {
        proof {
            lemma_after_atoms(s, pattern@, k as int, first);
        }
        let atom = pattern[k];
        if !hit.take_atom(tokens, atom) {
            proof {
                lemma_atoms_failed(s, pattern@, k + 1, pattern@.len() as int, first);
            }
            return None;
        }
        k += 1;
    }
    Some(hit)
}

// ---------------------------------------------------------------------------
// Search

/// A text that stands at a fixed distance from the start of every match.
#[derive(Clone, Copy)]
struct Pivot {
    offset: usize,
    text: &'static str,
}

impl Pivot {
    spec fn needed(self, s: Seq<char>, start: int) -> bool {
        token_is(s, start + self.offset, self.text@)
    }

    fn matches(self, tokens: &Tokens<'_>, start: usize) -> (yes: bool)
        ensures
            yes == self.needed(tokens.source(), start as int),
    {
        self.offset < tokens.len() && start < tokens.len() - self.offset && str_eq(
            tokens.text(start + self.offset),
            self.text,
        )
    }
}

/// Every match of the first `k` atoms has the pivot.
spec fn pivot_holds(pattern: Seq<Atom>, k: int, pivot: Option<Pivot>) -> bool {
    pivot matches Some(pivot) ==> forall|s: Seq<char>, m: Matched|
        (#[trigger] after_atoms(s, pattern, k, m)) is Some ==> pivot.needed(s, m.end)
}

/// The first `k` atoms cover exactly `offset` tokens.
spec fn covers(pattern: Seq<Atom>, k: int, offset: int) -> bool {
    forall|s: Seq<char>, m: Matched|
        (#[trigger] after_atoms(s, pattern, k, m)) matches Some(next) ==> next.end == m.end + offset
}

proof fn lemma_pivot_stays(pattern: Seq<Atom>, k: int, n: int, pivot: Option<Pivot>)
    requires
        0 <= k <= n,
        pivot_holds(pattern, k, pivot),
    ensures
        pivot_holds(pattern, n, pivot),
{
    if let Some(p) = pivot {
        assert forall|s: Seq<char>, m: Matched| (#[trigger] after_atoms(
            s,
            pattern,
            n,
            m,
        )) is Some implies p.needed(s, m.end) by {
            if after_atoms(s, pattern, k, m) is None {
                lemma_atoms_failed(s, pattern, k, n, m);
            }
        }
    }
}

/// A word of a run after the first `k` atoms can be the pivot.
proof fn lemma_run_pivot(pattern: Seq<Atom>, k: int, offset: int, j: int, pivot: Pivot)
    requires
        0 <= k < pattern.len(),
        covers(pattern, k, offset),
        pattern[k] is ExactRun,
        0 <= j < words(pattern[k]->ExactRun_0@).len(),
        pivot.offset == offset + j,
        pivot.text@ == words(pattern[k]->ExactRun_0@)[j],
    ensures
        pivot_holds(pattern, k + 1, Some(pivot)),
{
    assert forall|s: Seq<char>, m: Matched| (#[trigger] after_atoms(
        s,
        pattern,
        k + 1,
        m,
    )) is Some implies pivot.needed(s, m.end) by {
        let before = after_atoms(s, pattern, k, m)->0;
        let run = words(pattern[k]->ExactRun_0@);
        assert(token_is(s, before.end + j, run[j]));
    }
}

/// The second token of a two-token atom can be the pivot.
proof fn lemma_pair_pivot(pattern: Seq<Atom>, k: int, offset: int, pivot: Pivot)
    requires
        0 <= k < pattern.len(),
        covers(pattern, k, offset),
        match pattern[k] {
            Atom::Member(property) => pivot.text@ == property@,
            Atom::NullEq | Atom::NullNe => pivot.text@ == "null"@,
            _ => false,
        },
        pivot.offset == offset + 1,
    ensures
        pivot_holds(pattern, k + 1, Some(pivot)),
{
    assert forall|s: Seq<char>, m: Matched| (#[trigger] after_atoms(
        s,
        pattern,
        k + 1,
        m,
    )) is Some implies pivot.needed(s, m.end) by {
        assert(after_atoms(s, pattern, k, m) is Some);
    }
}

/// Tokens that an atom covers, where that does not depend on the tokens.
spec fn atom_width(atom: Atom) -> Option<int> {
    match atom {
        Atom::ExactRun(expected) => Some(words(expected@).len() as int),
        Atom::Member(_) | Atom::NullEq | Atom::NullNe => Some(2),
        Atom::OneOf(_) | Atom::AnyIdent | Atom::Ident(_) | Atom::Str(_) => Some(1),
        Atom::Bool(_) | Atom::CaptureBool(_) | Atom::Undefined => None,
        Atom::NoLineBreak | Atom::Begin(_) | Atom::End(_) => Some(0),
    }
}

proof fn lemma_covers(pattern: Seq<Atom>, k: int, offset: int)
    requires
        0 <= k < pattern.len(),
        covers(pattern, k, offset),
        atom_width(pattern[k]) is Some,
    ensures
        covers(pattern, k + 1, offset + atom_width(pattern[k])->0),
{
    assert forall|s: Seq<char>, m: Matched| (#[trigger] after_atoms(
        s,
        pattern,
        k + 1,
        m,
    )) matches Some(next) ==> next.end == m.end + (offset + atom_width(pattern[k])->0) by {
        assert(after_atoms(s, pattern, k, m) is Some || after_atoms(s, pattern, k + 1, m) is None);
    }
}

/// How many tokens the first `k` atoms cover, where that does not depend on the tokens and a
/// machine word holds it.
spec fn fixed_width(pattern: Seq<Atom>, k: int) -> Option<int>
    decreases k,
{
    if k <= 0 {
        Some(0)
    } else {
        match (fixed_width(pattern, k - 1), atom_width(pattern[k - 1])) {
            (Some(offset), Some(width)) => if offset + width <= usize::MAX {
                Some(offset + width)
            } else {
                None
            },
            _ => None,
        }
    }
}

/// The texts that an atom asks for, each with its place, for an atom that starts at `offset`.
spec fn atom_literals(atom: Atom, offset: int) -> Seq<(int, Seq<char>)> {
    match atom {
        Atom::ExactRun(expected) => Seq::new(
            words(expected@).len(),
            |j: int| (offset + j, words(expected@)[j]),
        ),
        Atom::Member(property) => seq![(offset + 1, property@)],
        Atom::NullEq | Atom::NullNe => seq![(offset + 1, "null"@)],
        _ => Seq::empty(),
    }
}

/// The texts that the first `k` atoms ask for at a fixed place, each with its place.
spec fn literals(pattern: Seq<Atom>, k: int) -> Seq<(int, Seq<char>)>
    decreases k,
{
    if k <= 0 {
        Seq::empty()
    } else if fixed_width(pattern, k) is Some {
        literals(pattern, k - 1) + atom_literals(
            pattern[k - 1],
            fixed_width(pattern, k - 1)->0,
        )
    } else {
        literals(pattern, k - 1)
    }
}

spec fn byte_len(text: Seq<char>) -> nat {
    encode_utf8(text).len()
}

/// The `i`-th text is the first of the longest.
spec fn is_first_longest(found: Seq<(int, Seq<char>)>, i: int) -> bool {
    &&& 0 <= i < found.len()
    &&& forall|j: int|
        0 <= j < found.len() ==> byte_len((#[trigger] found[j]).1) <= byte_len(found[i].1)
    &&& forall|j: int| 0 <= j < i ==> byte_len((#[trigger] found[j]).1) < byte_len(found[i].1)
}

/// The pivot is the first of the longest texts, and there is one where there are texts.
spec fn picks(found: Seq<(int, Seq<char>)>, pivot: Option<Pivot>) -> bool {
    match pivot {
        None => found.len() == 0,
        Some(pivot) => exists|i: int|
            #[trigger] is_first_longest(found, i) && found[i] == (
                pivot.offset as int,
                pivot.text@,
            ),
    }
}

/// A text takes the place of a shorter one, or of none.
spec fn is_better(best: Option<Pivot>, text: Seq<char>) -> bool {
    match best {
        Some(pivot) => byte_len(text) > byte_len(pivot.text@),
        None => true,
    }
}

proof fn lemma_picks(found: Seq<(int, Seq<char>)>, best: Option<Pivot>, next: Pivot)
    requires
        picks(found, best),
    ensures
        picks(
            found.push((next.offset as int, next.text@)),
            if is_better(best, next.text@) {
                Some(next)
            } else {
                best
            },
        ),
{
    let more = found.push((next.offset as int, next.text@));
    if let Some(pivot) = best {
        let i = choose|i: int|
            #[trigger] is_first_longest(found, i) && found[i] == (
                pivot.offset as int,
                pivot.text@,
            );
        assert forall|j: int| 0 <= j < found.len() implies byte_len((#[trigger] more[j]).1)
            <= byte_len(found[i].1) by {
            assert(more[j] == found[j]);
        }
        if is_better(best, next.text@) {
            assert(is_first_longest(more, found.len() as int));
        } else {
            assert forall|j: int| 0 <= j < i implies byte_len((#[trigger] more[j]).1) < byte_len(
                more[i].1,
            ) by {
                assert(more[j] == found[j]);
            }
            assert(is_first_longest(more, i));
        }
    } else {
        assert(is_first_longest(more, found.len() as int));
    }
}

/// Nothing has a fixed place behind what has no fixed width.
proof fn lemma_literals_end(pattern: Seq<Atom>, k: int, n: int)
    requires
        0 <= k <= n,
        fixed_width(pattern, k) is None,
    ensures
        fixed_width(pattern, n) is None,
        literals(pattern, n) == literals(pattern, k),
    decreases n - k,
{
    if k < n {
        lemma_literals_end(pattern, k, n - 1);
    }
}

/// Whether a text is better to look for than what was found so far.
fn better_pivot(best: Option<Pivot>, text: &'static str) -> (yes: bool)
    ensures
        yes == is_better(best, text@),
{
    match best {
        Some(pivot) => text.as_bytes().len() > pivot.text.as_bytes().len(),
        None => true,
    }
}

/// A text that every match of the pattern has at a fixed place, if there is one: the first of
/// the longest.
fn literal_pivot(pattern: &[Atom]) -> (best: Option<Pivot>)
    ensures
        picks(literals(pattern@, pattern@.len() as int), best),
        pivot_holds(pattern@, pattern@.len() as int, best),
{
    let mut offset: usize = 0;
    let mut best: Option<Pivot> = None;
    let mut k: usize = 0;
    while k < pattern.len()
        invariant
            k <= pattern@.len(),
            fixed_width(pattern@, k as int) == Some(offset as int),
            picks(literals(pattern@, k as int), best),
            covers(pattern@, k as int, offset as int),
            pivot_holds(pattern@, k as int, best),
        decreases pattern.len() - k,
    {
        let ghost n = pattern@.len() as int;
        let ghost found = literals(pattern@, k as int);
        let ghost added = atom_literals(pattern@[k as int], offset as int);
        proof {
            if fixed_width(pattern@, k + 1) is None {
                lemma_literals_end(pattern@, k + 1, n);
            }
            lemma_pivot_stays(pattern@, k as int, n, best);
            lemma_pivot_stays(pattern@, k as int, k + 1, best);
            if atom_width(pattern@[k as int]) is Some {
                lemma_covers(pattern@, k as int, offset as int);
            }
        }
        let pair: Option<&'static str> = match pattern[k] {
            Atom::Member(property) => Some(property),
            Atom::NullEq | Atom::NullNe => Some("null"),
            _ => None,
        };
        let width: usize = match pattern[k] {
            Atom::ExactRun(expected) => {
                let run = split_words(expected);
                assert(texts(run@).len() == run@.len());
                if run.len() > usize::MAX - offset {
                    return best;
                }
                let mut j: usize = 0;
                assert(found + added.take(0) =~= found);
                while j < run.len()
                    invariant
                        k < pattern@.len(),
                        j <= run@.len(),
                        offset + run@.len() <= usize::MAX,
                        pattern@[k as int] == Atom::ExactRun(expected),
                        texts(run@) == words(expected@),
                        added == atom_literals(pattern@[k as int], offset as int),
                        picks(found + added.take(j as int), best),
                        covers(pattern@, k as int, offset as int),
                        pivot_holds(pattern@, k + 1, best),
                    decreases run.len() - j,
                {
                    let pivot = Pivot { offset: offset + j, text: run[j] };
                    proof {
                        assert(texts(run@)[j as int] == run@[j as int]@);
                        assert(added[j as int] == (pivot.offset as int, pivot.text@));
                        assert(found + added.take(j + 1) =~= (found + added.take(j as int)).push(
                            added[j as int],
                        ));
                        lemma_picks(found + added.take(j as int), best, pivot);
                    }
                    if better_pivot(best, run[j]) {
                        proof {
                            lemma_run_pivot(pattern@, k as int, offset as int, j as int, pivot);
                        }
                        best = Some(pivot);
                    }
                    j += 1;
                }
                assert(added.take(j as int) =~= added);
                run.len()
            },
            Atom::Member(_) | Atom::NullEq | Atom::NullNe => 2,
            Atom::OneOf(_) | Atom::AnyIdent | Atom::Ident(_) | Atom::Str(_) => 1,
            Atom::Bool(_) | Atom::CaptureBool(_) | Atom::Undefined => {
                return best;
            },
            Atom::NoLineBreak | Atom::Begin(_) | Atom::End(_) => 0,
        };
        if width > usize::MAX - offset {
            return best;
        }
        if let Some(text) = pair {
            let pivot = Pivot { offset: offset + 1, text };
            proof {
                assert(found + added =~= found.push((pivot.offset as int, pivot.text@)));
                lemma_picks(found, best, pivot);
            }
            if better_pivot(best, text) {
                proof {
                    lemma_pair_pivot(pattern@, k as int, offset as int, pivot);
                }
                best = Some(pivot);
            }
        }
        offset += width;
        k += 1;
    }
    best
}

fn may_match(tokens: &Tokens<'_>, start: usize, pivot: Option<Pivot>) -> (yes: bool)
    ensures
        yes == (pivot matches Some(pivot) ==> pivot.needed(tokens.source(), start as int)),
{
    match pivot {
        Some(pivot) => pivot.matches(tokens, start),
        None => true,
    }
}

/// What a pattern matches in a source, in order.
pub fn find(tokens: &Tokens<'_>, pattern: &[Atom]) -> (hits: Vec<Hit>)
    ensures
        hits_view(hits@) == matches_of(tokens.source(), pattern@),
{
    let pivot = literal_pivot(pattern);
    let mut hits: Vec<Hit> = Vec::new();
    let ghost s = tokens.source();
    let mut start: usize = 0;
    assert(hits_view(hits@) =~= matches_before(s, pattern@, 0));
    while start < tokens.len()
        invariant
            s == tokens.source(),
            start <= tokens@.len(),
            pivot_holds(pattern@, pattern@.len() as int, pivot),
            hits_view(hits@) == matches_before(s, pattern@, start as int),
        decreases tokens@.len() - start,
    {
        if may_match(tokens, start, pivot) {
            let ghost kept = hits@;
            if let Some(hit) = match_at_with(tokens, start, pattern, None) {
                hits.push(hit);
                assert(hits_view(hits@) =~= hits_view(kept).push(hit@));
            }
        } else {
            assert(matched_at(s, start as int, pattern@, unbound()) is None);
        }
        start += 1;
    }
    hits
}

/// Whether a pattern matches at a token of the range, with the identifiers of `seed` bound.
pub fn any_in(
    tokens: &Tokens<'_>,
    range: Range<usize>,
    pattern: &[Atom],
    seed: Option<&Hit>,
) -> (yes: bool)
    requires
        ids_inside(tokens.source(), seed_ids(seed)),
    ensures
        yes == any_match(
            tokens.source(),
            range.start as int,
            range.end as int,
            pattern@,
            seed_ids(seed),
        ),
{
    let pivot = literal_pivot(pattern);
    let ghost s = tokens.source();
    let ghost ids = seed_ids(seed);
    let mut start: usize = range.start;
    while start < range.end
        invariant
            s == tokens.source(),
            ids == seed_ids(seed),
            ids_inside(s, ids),
            range.start <= start,
            pivot_holds(pattern@, pattern@.len() as int, pivot),
            forall|i: int|
                range.start <= i < start ==> (#[trigger] matched_at(s, i, pattern@, ids)) is None,
        decreases range.end - start,
    {
        if may_match(tokens, start, pivot) {
            if match_at_with(tokens, start, pattern, seed).is_some() {
                assert(matched_at(s, start as int, pattern@, ids) is Some);
                return true;
            }
        }
        assert(matched_at(s, start as int, pattern@, ids) is None);
        start += 1;
    }
    false
}

} // verus!
