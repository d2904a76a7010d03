//! What stands inside brackets, and where the objects and fields of a source are.

use vstd::prelude::*;

use crate::js_tokens::tokens_of;
use crate::patch::objects::{
    after_bracket, brace_before, close_from, field_from, field_of, is_opening, object_around,
    opening_of,
};
use crate::token_match::token_text;

verus! {

/// A token is an opening bracket.
pub open spec fn opens(text: Seq<char>) -> bool {
    text == "("@ || text == "["@ || text == "{"@
}

/// A token is a closing bracket.
pub open spec fn closes(text: Seq<char>) -> bool {
    text == ")"@ || text == "]"@ || text == "}"@
}

/// Two brackets belong together.
pub open spec fn pair(open: Seq<char>, close: Seq<char>) -> bool {
    ||| open == "("@ && close == ")"@
    ||| open == "["@ && close == "]"@
    ||| open == "{"@ && close == "}"@
}

proof fn lemma_brackets()
    ensures
        forall|open: Seq<char>, close: Seq<char>| #[trigger]
            pair(open, close) ==> opens(open) && closes(close) && opening_of(close) == Some(open),
        forall|text: Seq<char>| #[trigger] opens(text) ==> opening_of(text) is None,
        forall|text: Seq<char>| #[trigger] closes(text) ==> !opens(text) && opening_of(text) is Some,
        forall|text: Seq<char>|
            !opens(text) && !closes(text) ==> #[trigger] opening_of(text) is None,
        forall|text: Seq<char>| #[trigger] is_opening(text) == opens(text),
{
    reveal_strlit("(");
    reveal_strlit("[");
    reveal_strlit("{");
    reveal_strlit(")");
    reveal_strlit("]");
    reveal_strlit("}");
    assert("("@[0] == '(' && "["@[0] == '[' && "{"@[0] == '{');
    assert(")"@[0] == ')' && "]"@[0] == ']' && "}"@[0] == '}');
}

/// The brackets of the tokens from `i` to before `j` belong together, each opening one with the
/// closing one of its kind.
pub open spec fn is_balanced(s: Seq<char>, i: int, j: int) -> bool
    decreases j - i,
{
    ||| i == j
    ||| {
        &&& i < j
        &&& !opens(token_text(s, j - 1)) && !closes(token_text(s, j - 1))
        &&& is_balanced(s, i, j - 1)
    }
    ||| {
        &&& i < j
        &&& exists|k: int|
            i <= k < j - 1 && #[trigger] pair(token_text(s, k), token_text(s, j - 1))
                && is_balanced(s, k + 1, j - 1) && is_balanced(s, i, k)
    }
}

proof fn lemma_balanced_is_passed(s: Seq<char>, i: int, j: int, stack: Seq<Seq<char>>)
    requires
        0 <= i <= j <= tokens_of(s).len(),
        is_balanced(s, i, j),
    ensures
        brace_before(s, j - 1, stack) == brace_before(s, i - 1, stack),
    decreases j - i,
{
    if i < j {
        lemma_brackets();
        let text = token_text(s, j - 1);
        if !opens(text) && !closes(text) {
            lemma_balanced_is_passed(s, i, j - 1, stack);
        } else {
            let k = choose|k: int|
                i <= k < j - 1 && #[trigger] pair(token_text(s, k), token_text(s, j - 1))
                    && is_balanced(s, k + 1, j - 1) && is_balanced(s, i, k);
            let open = token_text(s, k);
            lemma_balanced_is_passed(s, k + 1, j - 1, stack.push(open));
            assert(stack.push(open).drop_last() =~= stack);
            lemma_balanced_is_passed(s, i, k, stack);
        }
    }
}

/// The brace around a token is the nearest opening brace before it from which on all brackets
/// belong together, but for parentheses and square brackets that are open there too.
pub proof fn lemma_brace_around(s: Seq<char>, open: int, i: int)
    requires
        0 <= open <= i < tokens_of(s).len(),
        is_balanced(s, open + 1, i + 1),
    ensures
        token_text(s, open) == "{"@ ==> brace_before(s, i, Seq::empty()) == Some(open),
        token_text(s, open) == "("@ || token_text(s, open) == "["@ ==> brace_before(
            s,
            i,
            Seq::empty(),
        ) == brace_before(s, open - 1, Seq::empty()),
{
    lemma_brackets();
    reveal_strlit("(");
    reveal_strlit("[");
    reveal_strlit("{");
    assert("("@[0] == '(' && "["@[0] == '[' && "{"@[0] == '{');
    lemma_balanced_is_passed(s, open + 1, i + 1, Seq::empty());
    assert(opens(token_text(s, open)) || token_text(s, open) != "{"@);
}

/// A token that nothing encloses has no brace around it.
pub proof fn lemma_nothing_around(s: Seq<char>, i: int)
    requires
        0 <= i < tokens_of(s).len(),
        is_balanced(s, 0, i + 1),
    ensures
        brace_before(s, i, Seq::empty()) is None,
{
    lemma_balanced_is_passed(s, 0, i + 1, Seq::empty());
}

// ---------------------------------------------------------------------------
// From the left

proof fn lemma_balanced_keeps_stack(s: Seq<char>, i: int, j: int, stack: Seq<Seq<char>>)
    requires
        0 <= i <= j <= tokens_of(s).len(),
        is_balanced(s, i, j),
        stack.len() > 0,
    ensures
        close_from(s, i, stack) == close_from(s, j, stack),
    decreases j - i,
{
    if i < j {
        lemma_brackets();
        let text = token_text(s, j - 1);
        if !opens(text) && !closes(text) {
            lemma_balanced_keeps_stack(s, i, j - 1, stack);
        } else {
            let k = choose|k: int|
                i <= k < j - 1 && #[trigger] pair(token_text(s, k), token_text(s, j - 1))
                    && is_balanced(s, k + 1, j - 1) && is_balanced(s, i, k);
            let open = token_text(s, k);
            lemma_balanced_keeps_stack(s, i, k, stack);
            lemma_balanced_keeps_stack(s, k + 1, j - 1, stack.push(open));
            assert(stack.push(open).drop_last() =~= stack);
        }
    }
}

/// An opening bracket ends at the closing one of its kind up to which all others belong
/// together.
pub proof fn lemma_bracket_is_closed(s: Seq<char>, open: int, close: int)
    requires
        0 <= open < close < tokens_of(s).len(),
        pair(token_text(s, open), token_text(s, close)),
        is_balanced(s, open + 1, close),
    ensures
        close_from(s, open, Seq::empty()) == Some(close),
{
    lemma_brackets();
    let text = token_text(s, open);
    let none = Seq::<Seq<char>>::empty();
    assert(after_bracket(none, text) == Some(none.push(text)));
    lemma_balanced_keeps_stack(s, open + 1, close, none.push(text));
    assert(none.push(text).drop_last() =~= none);
    assert(after_bracket(none.push(text), token_text(s, close)) == Some(none));
}

/// A bracket that is closed by one of another kind has no end.
pub proof fn lemma_wrong_bracket_closes_nothing(s: Seq<char>, open: int, close: int)
    requires
        0 <= open < close < tokens_of(s).len(),
        opens(token_text(s, open)),
        closes(token_text(s, close)),
        !pair(token_text(s, open), token_text(s, close)),
        is_balanced(s, open + 1, close),
    ensures
        close_from(s, open, Seq::empty()) is None,
{
    lemma_brackets();
    let text = token_text(s, open);
    let none = Seq::<Seq<char>>::empty();
    assert(after_bracket(none, text) == Some(none.push(text)));
    lemma_balanced_keeps_stack(s, open + 1, close, none.push(text));
}

/// The object around a token is the pair of braces nearest to it.
pub proof fn lemma_object_around(s: Seq<char>, open: int, i: int, close: int)
    requires
        0 <= open <= i < close < tokens_of(s).len(),
        token_text(s, open) == "{"@,
        token_text(s, close) == "}"@,
        is_balanced(s, open + 1, i + 1),
        is_balanced(s, open + 1, close),
    ensures
        object_around(s, i) == Some((open, close)),
{
    lemma_brace_around(s, open, i);
    assert(pair(token_text(s, open), token_text(s, close)));
    lemma_bracket_is_closed(s, open, close);
}

// ---------------------------------------------------------------------------
// Fields

/// The tokens from `from` to before `to` are what stands between two commas of an object, or
/// between a comma and a brace of it.
pub open spec fn is_entry(s: Seq<char>, object: (int, int), from: int, to: int) -> bool {
    &&& object.0 < from <= to <= object.1
    &&& from == object.0 + 1 || token_text(s, from - 1) == ","@ && is_balanced(
        s,
        object.0 + 1,
        from,
    )
    &&& to == object.1 || token_text(s, to) == ","@
    &&& is_balanced(s, from, to)
    &&& forall|i: int|
        from <= i < to && #[trigger] token_text(s, i) == ","@ ==> !is_balanced(s, from, i)
}

proof fn lemma_field_in_brackets(
    s: Seq<char>,
    close: int,
    key: Seq<char>,
    i: int,
    j: int,
    start: int,
    stack: Seq<Seq<char>>,
    found: Option<(int, int)>,
)
    requires
        0 <= i <= j <= close < tokens_of(s).len(),
        is_balanced(s, i, j),
        stack.len() > 0,
    ensures
        field_from(s, close, key, i, start, stack, found) == field_from(
            s,
            close,
            key,
            j,
            start,
            stack,
            found,
        ),
    decreases j - i,
{
    if i < j {
        lemma_brackets();
        let text = token_text(s, j - 1);
        if !opens(text) && !closes(text) {
            lemma_field_in_brackets(s, close, key, i, j - 1, start, stack, found);
        } else {
            let k = choose|k: int|
                i <= k < j - 1 && #[trigger] pair(token_text(s, k), token_text(s, j - 1))
                    && is_balanced(s, k + 1, j - 1) && is_balanced(s, i, k);
            let open = token_text(s, k);
            lemma_field_in_brackets(s, close, key, i, k, start, stack, found);
            lemma_field_in_brackets(s, close, key, k + 1, j - 1, start, stack.push(open), found);
            assert(stack.push(open).drop_last() =~= stack);
        }
    }
}

proof fn lemma_not_comma(text: Seq<char>)
    ensures
        opens(text) || closes(text) ==> text != ","@,
{
    reveal_strlit("(");
    reveal_strlit("[");
    reveal_strlit("{");
    reveal_strlit(")");
    reveal_strlit("]");
    reveal_strlit("}");
    reveal_strlit(",");
    assert("("@[0] == '(' && "["@[0] == '[' && "{"@[0] == '{');
    assert(")"@[0] == ')' && "]"@[0] == ']' && "}"@[0] == '}');
    assert(","@[0] == ',');
}

proof fn lemma_entry_part(
    s: Seq<char>,
    close: int,
    key: Seq<char>,
    from: int,
    to: int,
    found: Option<(int, int)>,
)
    requires
        0 <= from <= to <= close < tokens_of(s).len(),
        is_balanced(s, from, to),
        forall|i: int|
            from <= i < to && #[trigger] token_text(s, i) == ","@ ==> !is_balanced(s, from, i),
    ensures
        field_from(s, close, key, from, from, Seq::empty(), found) == field_from(
            s,
            close,
            key,
            to,
            from,
            Seq::empty(),
            found,
        ),
    decreases to - from,
{
    if from < to {
        lemma_brackets();
        let none = Seq::<Seq<char>>::empty();
        let text = token_text(s, to - 1);
        if !opens(text) && !closes(text) {
            lemma_entry_part(s, close, key, from, to - 1, found);
            assert(text != ","@);
            assert(after_bracket(none, text) == Some(none));
        } else {
            let k = choose|k: int|
                from <= k < to - 1 && #[trigger] pair(token_text(s, k), token_text(s, to - 1))
                    && is_balanced(s, k + 1, to - 1) && is_balanced(s, from, k);
            let open = token_text(s, k);
            lemma_entry_part(s, close, key, from, k, found);
            lemma_not_comma(open);
            lemma_not_comma(text);
            assert(after_bracket(none, open) == Some(none.push(open)));
            lemma_field_in_brackets(s, close, key, k + 1, to - 1, from, none.push(open), found);
            assert(none.push(open).drop_last() =~= none);
            assert(after_bracket(none.push(open), text) == Some(none));
        }
    }
}

/// The entry gives a value to a key.
pub open spec fn is_entry_of(s: Seq<char>, from: int, to: int, key: Seq<char>) -> bool {
    from + 2 < to && token_text(s, from) == key && token_text(s, from + 1) == ":"@
}

/// What an object has for a key is told entry by entry: the first entry of an object, and what
/// the others hold.
pub proof fn lemma_field_of_entries(
    s: Seq<char>,
    object: (int, int),
    key: Seq<char>,
    from: int,
    to: int,
    found: Option<(int, int)>,
)
    requires
        0 <= object.0 < object.1 < tokens_of(s).len(),
        is_entry(s, object, from, to),
    ensures
        ({
            let seen = field_from(s, object.1, key, from, from, Seq::empty(), found);
            let next = if is_entry_of(s, from, to, key) {
                Some((from + 2, to))
            } else {
                found
            };
            if is_entry_of(s, from, to, key) && found is Some {
                seen is None
            } else if to == object.1 {
                seen == next
            } else {
                seen == field_from(s, object.1, key, to + 1, to + 1, Seq::empty(), next)
            }
        }),
{
    lemma_entry_part(s, object.1, key, from, to, found);
}

/// An object with one entry has a value for its key and none for another.
pub proof fn lemma_only_field(s: Seq<char>, object: (int, int), key: Seq<char>)
    requires
        0 <= object.0 < object.1 < tokens_of(s).len(),
        is_entry(s, object, object.0 + 1, object.1),
    ensures
        is_entry_of(s, object.0 + 1, object.1, key) ==> field_of(s, object, key) == Some(
            (object.0 + 3, object.1),
        ),
        !is_entry_of(s, object.0 + 1, object.1, key) ==> field_of(s, object, key) is None,
{
    lemma_field_of_entries(s, object, key, object.0 + 1, object.1, None);
}

/// An object with two entries has what either has for a key, and nothing where both have the
/// key.
pub proof fn lemma_one_of_two_fields(s: Seq<char>, object: (int, int), key: Seq<char>, comma: int)
    requires
        0 <= object.0 < comma < object.1 < tokens_of(s).len(),
        is_entry(s, object, object.0 + 1, comma),
        is_entry(s, object, comma + 1, object.1),
    ensures
        ({
            let first = is_entry_of(s, object.0 + 1, comma, key);
            let second = is_entry_of(s, comma + 1, object.1, key);
            &&& first && !second ==> field_of(s, object, key) == Some((object.0 + 3, comma))
            &&& !first && second ==> field_of(s, object, key) == Some((comma + 3, object.1))
            &&& first == second ==> field_of(s, object, key) is None
        }),
{
    lemma_field_of_entries(s, object, key, object.0 + 1, comma, None);
    let next = if is_entry_of(s, object.0 + 1, comma, key) {
        Some((object.0 + 3, comma))
    } else {
        None
    };
    lemma_field_of_entries(s, object, key, comma + 1, object.1, next);
}

} // verus!
