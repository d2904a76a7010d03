//! Object literals among the tokens of a source.

use std::ops::Range;
use vstd::prelude::*;

use crate::js_tokens::{tokens_of, Kind, Tokens};
use crate::text::{str_eq, texts};
use crate::token_match::{
    bool_at, range_view, take_bool_value, token_is_ident, token_text,
};

verus! {

// ---------------------------------------------------------------------------
// Brackets

pub open spec fn is_opening(text: Seq<char>) -> bool {
    text == "("@ || text == "["@ || text == "{"@
}

/// The bracket that a closing bracket closes.
pub open spec fn opening_of(text: Seq<char>) -> Option<Seq<char>> {
    if text == ")"@ {
        Some("("@)
    } else if text == "]"@ {
        Some("["@)
    } else if text == "}"@ {
        Some("{"@)
    } else {
        None
    }
}

fn is_open(text: &str) -> (yes: bool)
    ensures
        yes == is_opening(text@),
{
    str_eq(text, "(") || str_eq(text, "[") || str_eq(text, "{")
}

fn opening_for(text: &str) -> (open: Option<&'static str>)
    ensures
        match open {
            Some(open) => opening_of(text@) == Some(open@),
            None => opening_of(text@) is None,
        },
{
    if str_eq(text, ")") {
        Some("(")
    } else if str_eq(text, "]") {
        Some("[")
    } else if str_eq(text, "}") {
        Some("{")
    } else {
        None
    }
}

/// The open brackets after one more token, none where brackets do not match.
pub open spec fn after_bracket(stack: Seq<Seq<char>>, text: Seq<char>) -> Option<Seq<Seq<char>>> {
    if is_opening(text) {
        Some(stack.push(text))
    } else {
        match opening_of(text) {
            Some(open) => if stack.len() > 0 && stack.last() == open {
                Some(stack.drop_last())
            } else {
                None
            },
            None => Some(stack),
        }
    }
}

fn update_stack<'a>(stack: &mut Vec<&'a str>, text: &'a str) -> (balanced: bool)
    ensures
        match after_bracket(texts(old(stack)@), text@) {
            Some(next) => balanced && texts(final(stack)@) == next,
            None => !balanced,
        },
{
    let ghost before = stack@;
    if is_open(text) {
        stack.push(text);
        assert(texts(stack@) =~= texts(before).push(text@));
        true
    } else {
        match opening_for(text) {
            None => true,
            Some(open) => match stack.pop() {
                None => false,
                Some(last) => {
                    assert(texts(stack@) =~= texts(before).drop_last());
                    str_eq(last, open)
                },
            },
        }
    }
}

/// Where the brackets that are open before token `i` are all closed.
pub open spec fn close_from(s: Seq<char>, i: int, stack: Seq<Seq<char>>) -> Option<int>
    decreases tokens_of(s).len() - i,
{
    if i >= tokens_of(s).len() {
        None
    } else {
        match after_bracket(stack, token_text(s, i)) {
            Some(next) => if next.len() == 0 {
                Some(i)
            } else {
                close_from(s, i + 1, next)
            },
            None => None,
        }
    }
}

fn matching_close(tokens: &Tokens<'_>, open: usize) -> (close: Option<usize>)
    requires
        open < tokens@.len(),
    ensures
        match close {
            Some(close) => {
                &&& close_from(tokens.source(), open as int, Seq::empty()) == Some(close as int)
                &&& open <= close < tokens@.len()
            },
            None => close_from(tokens.source(), open as int, Seq::empty()) is None,
        },
{
    let ghost s = tokens.source();
    let mut stack: Vec<&str> = Vec::new();
    assert(texts(stack@) =~= Seq::empty());
    let mut index: usize = open;
    while index < tokens.len()
        invariant
            s == tokens.source(),
            open <= index <= tokens@.len(),
            close_from(s, open as int, Seq::empty()) == close_from(s, index as int, texts(stack@)),
        decreases tokens@.len() - index,
    {
        if !update_stack(&mut stack, tokens.text(index)) {
            return None;
        }
        if stack.len() == 0 {
            return Some(index);
        }
        index += 1;
    }
    None
}

/// The brace around token `i`, with some brackets closed after it.
pub open spec fn brace_before(s: Seq<char>, i: int, stack: Seq<Seq<char>>) -> Option<int>
    decreases i + 1,
{
    if i < 0 {
        None
    } else {
        let text = token_text(s, i);
        match opening_of(text) {
            Some(open) => brace_before(s, i - 1, stack.push(open)),
            None => if !is_opening(text) {
                brace_before(s, i - 1, stack)
            } else if stack.len() == 0 {
                if text == "{"@ {
                    Some(i)
                } else {
                    brace_before(s, i - 1, stack)
                }
            } else if stack.last() == text {
                brace_before(s, i - 1, stack.drop_last())
            } else {
                None
            },
        }
    }
}

pub fn enclosing_brace(tokens: &Tokens<'_>, index: usize) -> (open: Option<usize>)
    requires
        index < tokens@.len(),
    ensures
        match open {
            Some(open) => {
                &&& brace_before(tokens.source(), index as int, Seq::empty()) == Some(open as int)
                &&& open <= index
            },
            None => brace_before(tokens.source(), index as int, Seq::empty()) is None,
        },
{
    let ghost s = tokens.source();
    let n = tokens.len();
    let mut stack: Vec<&str> = Vec::new();
    assert(texts(stack@) =~= Seq::empty());
    let mut next: usize = index + 1;
    while next > 0
        invariant
            s == tokens.source(),
            next <= index + 1 <= tokens@.len(),
            brace_before(s, index as int, Seq::empty()) == brace_before(s, next - 1, texts(stack@)),
        decreases next,
    {
        let ghost before = stack@;
        let current = next - 1;
        let text = tokens.text(current);
        match opening_for(text) {
            Some(open) => {
                stack.push(open);
                assert(texts(stack@) =~= texts(before).push(open@));
            },
            None => if is_open(text) {
                let open = stack.len();
                if open == 0 {
                    if str_eq(text, "{") {
                        return Some(current);
                    }
                } else {
                    let last = stack[open - 1];
                    assert(texts(stack@).last() == last@);
                    if !str_eq(last, text) {
                        return None;
                    }
                    let _ = stack.pop();
                    assert(texts(stack@) =~= texts(before).drop_last());
                }
            },
        }
        next = current;
    }
    None
}

// ---------------------------------------------------------------------------
// Objects

/// The braces of an object literal, by token index.
#[derive(Clone, Copy)]
pub struct ObjectView {
    pub open: usize,
    pub close: usize,
}

/// The braces around token `i`.
pub open spec fn object_around(s: Seq<char>, i: int) -> Option<(int, int)> {
    match brace_before(s, i, Seq::empty()) {
        Some(open) => match close_from(s, open, Seq::empty()) {
            Some(close) => Some((open, close)),
            None => None,
        },
        None => None,
    }
}

/// A field of an object, from token `index` of entry `start` on: the tokens of its value,
/// none where the key occurs twice or brackets do not match.
pub open spec fn field_from(
    s: Seq<char>,
    close: int,
    key: Seq<char>,
    index: int,
    start: int,
    stack: Seq<Seq<char>>,
    found: Option<(int, int)>,
) -> Option<(int, int)>
    decreases close + 1 - index,
{
    if index > close {
        found
    } else {
        let text = token_text(s, index);
        if index == close || (text == ","@ && stack.len() == 0) {
            let is_key = start + 2 < index && token_text(s, start) == key && token_text(
                s,
                start + 1,
            ) == ":"@;
            if is_key && found is Some {
                None
            } else {
                field_from(
                    s,
                    close,
                    key,
                    index + 1,
                    index + 1,
                    stack,
                    if is_key {
                        Some((start + 2, index))
                    } else {
                        found
                    },
                )
            }
        } else {
            match after_bracket(stack, text) {
                Some(next) => field_from(s, close, key, index + 1, start, next, found),
                None => None,
            }
        }
    }
}

/// The tokens of the value that an object has for a key.
pub open spec fn field_of(s: Seq<char>, object: (int, int), key: Seq<char>) -> Option<(int, int)> {
    field_from(s, object.1, key, object.0 + 1, object.0 + 1, Seq::empty(), None)
}

impl ObjectView {
    pub open spec fn braces(self) -> (int, int) {
        (self.open as int, self.close as int)
    }

    /// The object around a token.
    pub fn enclosing(tokens: &Tokens<'_>, index: usize) -> (object: Option<ObjectView>)
        requires
            index < tokens@.len(),
        ensures
            match object {
                Some(object) => {
                    &&& object_around(tokens.source(), index as int) == Some(object.braces())
                    &&& object.open <= object.close < tokens@.len()
                },
                None => object_around(tokens.source(), index as int) is None,
            },
    {
        match enclosing_brace(tokens, index) {
            None => None,
            Some(open) => match matching_close(tokens, open) {
                None => None,
                Some(close) => Some(ObjectView { open, close }),
            },
        }
    }

    /// The tokens of the value for a key.
    pub fn field(self, tokens: &Tokens<'_>, key: &str) -> (value: Option<Range<usize>>)
        requires
            self.open <= self.close < tokens@.len(),
        ensures
            range_view(value) == field_of(tokens.source(), self.braces(), key@),
            value matches Some(value) ==> self.open < value.start < value.end <= self.close,
    {
        let ghost s = tokens.source();
        let n = tokens.len();
        let mut found: Option<Range<usize>> = None;
        let mut start: usize = self.open + 1;
        let mut stack: Vec<&str> = Vec::new();
        assert(texts(stack@) =~= Seq::empty());
        let mut index: usize = self.open + 1;
        while index <= self.close
            invariant
                s == tokens.source(),
                self.open < start <= index <= self.close + 1 <= n == tokens@.len(),
                field_of(s, self.braces(), key@) == field_from(
                    s,
                    self.close as int,
                    key@,
                    index as int,
                    start as int,
                    texts(stack@),
                    range_view(found),
                ),
                found matches Some(value) ==> self.open < value.start < value.end <= self.close,
            decreases self.close + 1 - index,
        {
            let text = tokens.text(index);
            if index == self.close || (str_eq(text, ",") && stack.len() == 0) {
                if index - start > 2 && str_eq(tokens.text(start), key) && str_eq(
                    tokens.text(start + 1),
                    ":",
                ) {
                    if found.is_some() {
                        return None;
                    }
                    found = Some(start + 2..index);
                }
                start = index + 1;
            } else if !update_stack(&mut stack, text) {
                return None;
            }
            index += 1;
        }
        found
    }
}

/// The only token of a range, where it is an identifier.
pub open spec fn single_ident_of(s: Seq<char>, range: Option<(int, int)>) -> Option<int> {
    match range {
        Some((start, end)) => if end == start + 1 && token_is_ident(s, start) {
            Some(start)
        } else {
            None
        },
        None => None,
    }
}

pub fn single_ident(tokens: &Tokens<'_>, range: &Range<usize>) -> (index: Option<usize>)
    requires
        range.start < range.end <= tokens@.len(),
    ensures
        match index {
            Some(index) => {
                &&& single_ident_of(tokens.source(), Some((range.start as int, range.end as int)))
                    == Some(index as int)
                &&& index < tokens@.len()
            },
            None => single_ident_of(
                tokens.source(),
                Some((range.start as int, range.end as int)),
            ) is None,
        },
{
    if range.end - range.start == 1 && tokens.kind(range.start) == Kind::Ident {
        Some(range.start)
    } else {
        None
    }
}

/// The boolean that the tokens of a range are.
pub open spec fn bool_of(s: Seq<char>, range: Option<(int, int)>) -> Option<bool> {
    match range {
        Some((start, end)) => match bool_at(s, start) {
            Some((value, next)) => if next == end {
                Some(value)
            } else {
                None
            },
            None => None,
        },
        None => None,
    }
}

pub fn bool_value(tokens: &Tokens<'_>, range: &Range<usize>) -> (value: Option<bool>)
    ensures
        value == bool_of(tokens.source(), Some((range.start as int, range.end as int))),
{
    let mut position = range.start;
    match take_bool_value(tokens, &mut position) {
        Some(value) => if position == range.end {
            Some(value)
        } else {
            None
        },
        None => None,
    }
}

/// An object has the identifier that token `binding` is as the value for a key.
pub open spec fn maps_to(s: Seq<char>, object: (int, int), key: Seq<char>, binding: int) -> bool {
    match single_ident_of(s, field_of(s, object, key)) {
        Some(value) => token_text(s, value) == token_text(s, binding),
        None => false,
    }
}

/// Token `i` is the first key of an object that maps each of the keys to its binding.
pub open spec fn mapping_at(s: Seq<char>, i: int, expected: Seq<(Seq<char>, int)>) -> bool {
    &&& token_text(s, i) == expected[0].0
    &&& object_around(s, i) matches Some(object)
    &&& forall|k: int|
        0 <= k < expected.len() ==> maps_to(
            s,
            object,
            (#[trigger] expected[k]).0,
            expected[k].1,
        )
}

/// One of the `limit` tokens from `start` on is the first key of such an object.
pub open spec fn has_mapping(
    s: Seq<char>,
    start: int,
    limit: int,
    expected: Seq<(Seq<char>, int)>,
) -> bool {
    exists|i: int|
        start <= i < start + limit && i < tokens_of(s).len() && #[trigger] mapping_at(
            s,
            i,
            expected,
        )
}

pub open spec fn mappings_view(expected: Seq<(&str, usize)>) -> Seq<(Seq<char>, int)> {
    expected.map_values(|pair: (&str, usize)| (pair.0@, pair.1 as int))
}

fn maps_all(tokens: &Tokens<'_>, object: ObjectView, expected: &[(&str, usize)]) -> (yes: bool)
    requires
        object.open <= object.close < tokens@.len(),
        forall|k: int| 0 <= k < expected@.len() ==> (#[trigger] expected@[k]).1 < tokens@.len(),
    ensures
        yes == forall|k: int|
            0 <= k < expected@.len() ==> maps_to(
                tokens.source(),
                object.braces(),
                (#[trigger] mappings_view(expected@)[k]).0,
                mappings_view(expected@)[k].1,
            ),
{
    let ghost s = tokens.source();
    let ghost want = mappings_view(expected@);
    let mut k: usize = 0;
    while k < expected.len()
        invariant
            s == tokens.source(),
            want == mappings_view(expected@),
            k <= expected@.len(),
            object.open <= object.close < tokens@.len(),
            forall|j: int|
                0 <= j < expected@.len() ==> (#[trigger] expected@[j]).1 < tokens@.len(),
            forall|j: int|
                0 <= j < k ==> maps_to(s, object.braces(), (#[trigger] want[j]).0, want[j].1),
        decreases expected.len() - k,
    {
        let (key, binding) = expected[k];
        assert(want[k as int] == (key@, binding as int));
        let same = match object.field(tokens, key) {
            Some(range) => match single_ident(tokens, &range) {
                Some(value) => str_eq(tokens.text(value), tokens.text(binding)),
                None => false,
            },
            None => false,
        };
        if !same {
            assert(!maps_to(s, object.braces(), want[k as int].0, want[k as int].1));
            return false;
        }
        k += 1;
    }
    true
}

pub fn has_object_mapping(
    tokens: &Tokens<'_>,
    start: usize,
    limit: usize,
    expected: &[(&str, usize)],
) -> (yes: bool)
    requires
        expected@.len() > 0,
        forall|k: int| 0 <= k < expected@.len() ==> (#[trigger] expected@[k]).1 < tokens@.len(),
    ensures
        yes == has_mapping(
            tokens.source(),
            start as int,
            limit as int,
            mappings_view(expected@),
        ),
{
    let ghost s = tokens.source();
    let ghost want = mappings_view(expected@);
    let n = tokens.len();
    if start >= n {
        return false;
    }
    let end = if limit < n - start {
        start + limit
    } else {
        n
    };
    let mut index: usize = start;
    while index < end
        invariant
            s == tokens.source(),
            want == mappings_view(expected@),
            start <= index <= end <= n == tokens@.len(),
            end == start + limit || (end == n && start + limit >= n),
            expected@.len() > 0,
            forall|j: int|
                0 <= j < expected@.len() ==> (#[trigger] expected@[j]).1 < tokens@.len(),
            forall|i: int| start <= i < index ==> !#[trigger] mapping_at(s, i, want),
        decreases end - index,
    {
        assert(want[0] == (expected@[0].0@, expected@[0].1 as int));
        if str_eq(tokens.text(index), expected[0].0) {
            if let Some(object) = ObjectView::enclosing(tokens, index) {
                if maps_all(tokens, object, expected) {
                    assert(mapping_at(s, index as int, want));
                    return true;
                }
            }
        }
        assert(!mapping_at(s, index as int, want));
        index += 1;
    }
    false
}

} // verus!
