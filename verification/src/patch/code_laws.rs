//! How the code looks that the patterns of the fast unlock features find, token by token.

use vstd::prelude::*;

use crate::js_tokens::{literal_value, tokens_of, Kind};
use crate::match_laws::{
    lemma_bool_takes_its_spellings, lemma_bool_takes_nothing_else,
    lemma_choice_takes_one_of_its_texts, lemma_null_takes_both_comparisons,
    lemma_property_takes_point_and_name, lemma_run_is_its_pieces,
    lemma_text_takes_a_literal,
    lemma_undefined_takes_both_spellings, lemma_word_takes_the_same_again, reads, reads_all,
    writes_bool,
};
use crate::patch::patterns::{
    allowance_guarded_atoms, allowance_patched_atoms, allowed_binding_atoms, auth_chatgpt_atoms,
    conversation_guarded_atoms, conversation_patched_atoms, intelligence_anchor_atoms,
    intelligence_guarded_atoms, intelligence_patched_atoms, nullable_auth_atoms,
    request_state_atoms, speed_guarded_atoms, speed_patched_atoms,
};
use crate::patch::run_laws::{
    is_run, lemma_run_above_1_comma, lemma_run_and, lemma_run_and_not, lemma_run_and_open,
    lemma_run_async_function, lemma_run_at_most_1_close_return_null_semicolon,
    lemma_run_brace_data_colon, lemma_run_choice, lemma_run_choice_null_colon, lemma_run_close,
    lemma_run_close_brace, lemma_run_close_choice, lemma_run_close_colon, lemma_run_close_comma,
    lemma_run_close_return, lemma_run_close_semicolon_if_open, lemma_run_colon,
    lemma_run_colon_null_colon, lemma_run_comma, lemma_run_comma_brace_auth_method_colon,
    lemma_run_comma_brace_priority_colon, lemma_run_comma_host_id_colon,
    lemma_run_comma_is_pending_colon, lemma_run_comma_set_service_tier_colon,
    lemma_run_else_null, lemma_run_is, lemma_run_is_await, lemma_run_is_not,
    lemma_run_is_not_not, lemma_run_is_service_tier_allowed_colon, lemma_run_not,
    lemma_run_not_same, lemma_run_open,
    lemma_run_open_close_comma_brace_service_tier_settings_colon,
    lemma_run_open_close_semicolon_if_open, lemma_run_or, lemma_run_semicolon, lemma_run_unbrace,
    lemma_run_unbrace_close_semicolon_return, lemma_run_unbrace_comma, lemma_run_unbrace_is,
};
use crate::token_match::{after_atoms, matched_at, token_text, unmatched, Atom, Matched};

verus! {

// ---------------------------------------------------------------------------
// Tokens

/// A word stands at a token.
pub open spec fn ident_at(s: Seq<char>, i: int) -> bool {
    0 <= i < tokens_of(s).len() && tokens_of(s)[i].kind == Kind::Ident
}

/// This word stands at a token.
pub open spec fn word_at(s: Seq<char>, i: int, word: Seq<char>) -> bool {
    ident_at(s, i) && token_text(s, i) == word
}

/// A property is read at two tokens.
pub open spec fn member_at(s: Seq<char>, i: int, name: Seq<char>) -> bool {
    (reads(s, i, "."@) || reads(s, i, "?."@)) && reads(s, i + 1, name)
}

/// Something is compared with null at two tokens.
pub open spec fn null_at(s: Seq<char>, i: int, equal: bool) -> bool {
    &&& reads(s, i + 1, "null"@)
    &&& if equal {
        reads(s, i, "=="@) || reads(s, i, "==="@)
    } else {
        reads(s, i, "!="@) || reads(s, i, "!=="@)
    }
}

/// The undefined value is written at a token, or at two.
pub open spec fn undefined_at(s: Seq<char>, i: int, count: int) -> bool {
    count == 1 && reads(s, i, "undefined"@) || count == 2 && reads(s, i, "void"@) && reads(
        s,
        i + 1,
        "0"@,
    )
}

/// A declaration starts at a token.
pub open spec fn declares_at(s: Seq<char>, i: int) -> bool {
    reads(s, i, "let"@) || reads(s, i, "const"@) || reads(s, i, "var"@)
}

/// No line break stands before a token.
pub open spec fn same_line_at(s: Seq<char>, i: int) -> bool {
    0 <= i < tokens_of(s).len() && !tokens_of(s)[i].line_break_before
}

/// A literal that stands for a text is a token.
pub open spec fn text_at(s: Seq<char>, i: int, text: Seq<char>) -> bool {
    &&& 0 <= i < tokens_of(s).len()
    &&& tokens_of(s)[i].kind == Kind::String || tokens_of(s)[i].kind == Kind::Template
    &&& literal_value(token_text(s, i)) == Some(text)
}

// ---------------------------------------------------------------------------
// Steps

/// What is matched so far: these tokens, these spans and booleans, and words that are those of
/// their slots.
pub open spec fn so_far(
    s: Seq<char>,
    m: Matched,
    start: int,
    end: int,
    w: Seq<Seq<char>>,
    spans: Seq<Option<(int, int)>>,
    bools: Seq<Option<bool>>,
) -> bool {
    &&& m.start == start
    &&& m.end == end
    &&& m.ids.len() == 16
    &&& m.spans == spans
    &&& m.bools == bools
    &&& forall|slot: int|
        0 <= slot < 16 ==> (#[trigger] m.ids[slot] matches Some(i) ==> token_text(s, i) == w[slot])
}

/// The first `k` steps of a pattern come this far.
#[verifier::opaque]
spec fn reaches(
    s: Seq<char>,
    pattern: Seq<Atom>,
    k: int,
    from: Matched,
    end: int,
    w: Seq<Seq<char>>,
    spans: Seq<Option<(int, int)>>,
    bools: Seq<Option<bool>>,
) -> bool {
    after_atoms(s, pattern, k, from) matches Some(m) && so_far(
        s,
        m,
        from.start,
        end,
        w,
        spans,
        bools,
    )
}

/// The words that are bound.
pub open spec fn words_of(s: Seq<char>, m: Matched) -> Seq<Seq<char>> {
    Seq::new(
        16,
        |slot: int|
            match m.ids[slot] {
                Some(i) => token_text(s, i),
                None => Seq::empty(),
            },
    )
}

/// A whole pattern gives a match, its first `k` steps come this far, and what they bind stays.
#[verifier::opaque]
spec fn came(
    s: Seq<char>,
    pattern: Seq<Atom>,
    k: int,
    from: Matched,
    end: int,
    last: Matched,
) -> bool {
    &&& after_atoms(s, pattern, pattern.len() as int, from) == Some(last)
    &&& from.ids.len() == 16
    &&& from.bools.len() == 4
    &&& 0 <= end
    &&& after_atoms(s, pattern, k, from) matches Some(m) && m.end == end
}

proof fn lemma_what_is_bound_stays(
    s: Seq<char>,
    pattern: Seq<Atom>,
    k: int,
    n: int,
    from: Matched,
)
    requires
        0 <= k <= n,
        from.ids.len() == 16,
        after_atoms(s, pattern, n, from) is Some,
    ensures
        ({
            let last = after_atoms(s, pattern, n, from)->0;
            &&& after_atoms(s, pattern, k, from) matches Some(m)
            &&& m.ids.len() == 16
            &&& last.ids.len() == 16
            &&& m.bools.len() == from.bools.len()
            &&& last.bools.len() == from.bools.len()
            &&& forall|slot: int|
                0 <= slot < 16 ==> (#[trigger] m.ids[slot] matches Some(i) ==> last.ids[slot] == Some(
                    i,
                ))
        }),
    decreases n,
{
    if n > 0 {
        let step = after_atoms(s, pattern, n - 1, from);
        if k < n {
            lemma_what_is_bound_stays(s, pattern, k, n - 1, from);
        } else {
            lemma_what_is_bound_stays(s, pattern, n - 1, n - 1, from);
        }
        match pattern[n - 1] {
            Atom::Ident(slot) => {
                if slot < 16 {
                    assert(step->0.ids[slot as int] is Some || step->0.ids[slot as int] is None);
                }
            },
            _ => {},
        }
    }
}

proof fn lemma_run_step(
    s: Seq<char>,
    pattern: Seq<Atom>,
    k: int,
    from: Matched,
    end: int,
    w: Seq<Seq<char>>,
    spans: Seq<Option<(int, int)>>,
    bools: Seq<Option<bool>>,
    run: &'static str,
    pieces: Seq<Seq<char>>,
)
    requires
        0 <= k < pattern.len(),
        0 <= end,
        reaches(s, pattern, k, from, end, w, spans, bools),
        pattern[k] == Atom::ExactRun(run),
        is_run(run, pieces),
        reads_all(s, end, pieces),
    ensures
        reaches(s, pattern, k + 1, from, end + pieces.len(), w, spans, bools),
{
    reveal(reaches);
    let m = after_atoms(s, pattern, k, from)->0;
    lemma_run_is_its_pieces(s, m, run, pieces);
}

proof fn lemma_run_came(
    s: Seq<char>,
    pattern: Seq<Atom>,
    k: int,
    from: Matched,
    end: int,
    last: Matched,
    run: &'static str,
    pieces: Seq<Seq<char>>,
)
    requires
        0 <= k < pattern.len(),
        came(s, pattern, k, from, end, last),
        pattern[k] == Atom::ExactRun(run),
        is_run(run, pieces),
    ensures
        reads_all(s, end, pieces),
        came(s, pattern, k + 1, from, end + pieces.len(), last),
{
    reveal(came);
    let m = after_atoms(s, pattern, k, from)->0;
    lemma_what_is_bound_stays(s, pattern, k + 1, pattern.len() as int, from);
    lemma_run_is_its_pieces(s, m, run, pieces);
}

proof fn lemma_one_of_step(
    s: Seq<char>,
    pattern: Seq<Atom>,
    k: int,
    from: Matched,
    end: int,
    w: Seq<Seq<char>>,
    spans: Seq<Option<(int, int)>>,
    bools: Seq<Option<bool>>,
    options: &'static [&'static str],
    j: int,
)
    requires
        0 <= k < pattern.len(),
        0 <= end,
        reaches(s, pattern, k, from, end, w, spans, bools),
        pattern[k] == Atom::OneOf(options),
        0 <= j < options@.len(),
        reads(s, end, options@[j]@),
    ensures
        reaches(s, pattern, k + 1, from, end + 1, w, spans, bools),
{
    reveal(reaches);
    let m = after_atoms(s, pattern, k, from)->0;
    lemma_choice_takes_one_of_its_texts(s, m, options);
}

proof fn lemma_one_of_came(
    s: Seq<char>,
    pattern: Seq<Atom>,
    k: int,
    from: Matched,
    end: int,
    last: Matched,
    options: &'static [&'static str],
) -> (j: int)
    requires
        0 <= k < pattern.len(),
        came(s, pattern, k, from, end, last),
        pattern[k] == Atom::OneOf(options),
    ensures
        0 <= j < options@.len(),
        reads(s, end, options@[j]@),
        came(s, pattern, k + 1, from, end + 1, last),
{
    reveal(came);
    let m = after_atoms(s, pattern, k, from)->0;
    lemma_what_is_bound_stays(s, pattern, k + 1, pattern.len() as int, from);
    lemma_choice_takes_one_of_its_texts(s, m, options);
    choose|j: int| 0 <= j < options@.len() && #[trigger] reads(s, m.end, options@[j]@)
}

proof fn lemma_any_step(
    s: Seq<char>,
    pattern: Seq<Atom>,
    k: int,
    from: Matched,
    end: int,
    w: Seq<Seq<char>>,
    spans: Seq<Option<(int, int)>>,
    bools: Seq<Option<bool>>,
)
    requires
        0 <= k < pattern.len(),
        0 <= end,
        reaches(s, pattern, k, from, end, w, spans, bools),
        pattern[k] == Atom::AnyIdent,
        ident_at(s, end),
    ensures
        reaches(s, pattern, k + 1, from, end + 1, w, spans, bools),
{
    reveal(reaches);
}

proof fn lemma_any_came(
    s: Seq<char>,
    pattern: Seq<Atom>,
    k: int,
    from: Matched,
    end: int,
    last: Matched,
)
    requires
        0 <= k < pattern.len(),
        came(s, pattern, k, from, end, last),
        pattern[k] == Atom::AnyIdent,
    ensures
        ident_at(s, end),
        came(s, pattern, k + 1, from, end + 1, last),
{
    reveal(came);
    let m = after_atoms(s, pattern, k, from)->0;
    lemma_what_is_bound_stays(s, pattern, k + 1, pattern.len() as int, from);
}

proof fn lemma_word_step(
    s: Seq<char>,
    pattern: Seq<Atom>,
    k: int,
    from: Matched,
    end: int,
    w: Seq<Seq<char>>,
    spans: Seq<Option<(int, int)>>,
    bools: Seq<Option<bool>>,
    slot: usize,
)
    requires
        0 <= k < pattern.len(),
        0 <= end,
        reaches(s, pattern, k, from, end, w, spans, bools),
        pattern[k] == Atom::Ident(slot),
        slot < 16,
        word_at(s, end, w[slot as int]),
    ensures
        reaches(s, pattern, k + 1, from, end + 1, w, spans, bools),
{
    reveal(reaches);
    let m = after_atoms(s, pattern, k, from)->0;
    lemma_word_takes_the_same_again(s, m, slot);
}

proof fn lemma_word_came(
    s: Seq<char>,
    pattern: Seq<Atom>,
    k: int,
    from: Matched,
    end: int,
    last: Matched,
    slot: usize,
)
    requires
        0 <= k < pattern.len(),
        came(s, pattern, k, from, end, last),
        pattern[k] == Atom::Ident(slot),
        slot < 16,
    ensures
        word_at(s, end, words_of(s, last)[slot as int]),
        came(s, pattern, k + 1, from, end + 1, last),
{
    reveal(came);
    let m = after_atoms(s, pattern, k, from)->0;
    lemma_what_is_bound_stays(s, pattern, k + 1, pattern.len() as int, from);
    lemma_what_is_bound_stays(s, pattern, k, pattern.len() as int, from);
    lemma_word_takes_the_same_again(s, m, slot);
    let next = after_atoms(s, pattern, k + 1, from)->0;
    assert(next.ids[slot as int] is Some);
    assert(m.ids[slot as int] is Some || m.ids[slot as int] is None);
    assert(last.ids[slot as int] == next.ids[slot as int]);
}

proof fn lemma_str_step(
    s: Seq<char>,
    pattern: Seq<Atom>,
    k: int,
    from: Matched,
    end: int,
    w: Seq<Seq<char>>,
    spans: Seq<Option<(int, int)>>,
    bools: Seq<Option<bool>>,
    text: &'static str,
)
    requires
        0 <= k < pattern.len(),
        0 <= end,
        reaches(s, pattern, k, from, end, w, spans, bools),
        pattern[k] == Atom::Str(text),
        text_at(s, end, text@),
    ensures
        reaches(s, pattern, k + 1, from, end + 1, w, spans, bools),
{
    reveal(reaches);
    let m = after_atoms(s, pattern, k, from)->0;
    lemma_text_takes_a_literal(s, m, text);
}

proof fn lemma_str_came(
    s: Seq<char>,
    pattern: Seq<Atom>,
    k: int,
    from: Matched,
    end: int,
    last: Matched,
    text: &'static str,
)
    requires
        0 <= k < pattern.len(),
        came(s, pattern, k, from, end, last),
        pattern[k] == Atom::Str(text),
    ensures
        text_at(s, end, text@),
        came(s, pattern, k + 1, from, end + 1, last),
{
    reveal(came);
    let m = after_atoms(s, pattern, k, from)->0;
    lemma_what_is_bound_stays(s, pattern, k + 1, pattern.len() as int, from);
    lemma_text_takes_a_literal(s, m, text);
}

proof fn lemma_bool_step(
    s: Seq<char>,
    pattern: Seq<Atom>,
    k: int,
    from: Matched,
    end: int,
    w: Seq<Seq<char>>,
    spans: Seq<Option<(int, int)>>,
    bools: Seq<Option<bool>>,
    value: bool,
    count: int,
)
    requires
        0 <= k < pattern.len(),
        0 <= end,
        reaches(s, pattern, k, from, end, w, spans, bools),
        pattern[k] == Atom::Bool(value),
        bools.len() == 4,
        writes_bool(s, end, value, count),
    ensures
        reaches(s, pattern, k + 1, from, end + count, w, spans, bools),
{
    reveal(reaches);
    let m = after_atoms(s, pattern, k, from)->0;
    lemma_bool_takes_its_spellings(s, m, value, count, 0);
}

proof fn lemma_bool_came(
    s: Seq<char>,
    pattern: Seq<Atom>,
    k: int,
    from: Matched,
    end: int,
    last: Matched,
    value: bool,
) -> (count: int)
    requires
        0 <= k < pattern.len(),
        came(s, pattern, k, from, end, last),
        pattern[k] == Atom::Bool(value),
    ensures
        writes_bool(s, end, value, count),
        came(s, pattern, k + 1, from, end + count, last),
{
    reveal(came);
    let m = after_atoms(s, pattern, k, from)->0;
    lemma_what_is_bound_stays(s, pattern, k + 1, pattern.len() as int, from);
    if !writes_bool(s, end, value, 1) && !writes_bool(s, end, value, 2) {
        lemma_bool_takes_nothing_else(s, m, value, 0);
    }
    let count: int = if writes_bool(s, end, value, 1) {
        1
    } else {
        2
    };
    count
}

proof fn lemma_capture_step(
    s: Seq<char>,
    pattern: Seq<Atom>,
    k: int,
    from: Matched,
    end: int,
    w: Seq<Seq<char>>,
    spans: Seq<Option<(int, int)>>,
    bools: Seq<Option<bool>>,
    value: bool,
    count: int,
)
    requires
        0 <= k < pattern.len(),
        0 <= end,
        reaches(s, pattern, k, from, end, w, spans, bools),
        pattern[k] == Atom::CaptureBool(0),
        bools.len() == 4,
        bools[0] is None,
        writes_bool(s, end, value, count),
    ensures
        reaches(s, pattern, k + 1, from, end + count, w, spans, bools.update(0, Some(value))),
{
    reveal(reaches);
    let m = after_atoms(s, pattern, k, from)->0;
    lemma_bool_takes_its_spellings(s, m, value, count, 0);
}

proof fn lemma_capture_came(
    s: Seq<char>,
    pattern: Seq<Atom>,
    k: int,
    from: Matched,
    end: int,
    last: Matched,
) -> (written: (bool, int))
    requires
        0 <= k < pattern.len(),
        came(s, pattern, k, from, end, last),
        pattern[k] == Atom::CaptureBool(0),
    ensures
        writes_bool(s, end, written.0, written.1),
        came(s, pattern, k + 1, from, end + written.1, last),
{
    reveal(came);
    let m = after_atoms(s, pattern, k, from)->0;
    lemma_what_is_bound_stays(s, pattern, k + 1, pattern.len() as int, from);
    let value = writes_bool(s, end, true, 1) || writes_bool(s, end, true, 2);
    if !writes_bool(s, end, value, 1) && !writes_bool(s, end, value, 2) {
        lemma_bool_takes_nothing_else(s, m, value, 0);
    }
    let count: int = if writes_bool(s, end, value, 1) {
        1
    } else {
        2
    };
    lemma_what_is_bound_stays(s, pattern, k, pattern.len() as int, from);
    lemma_bool_takes_its_spellings(s, m, value, count, 0);
    (value, count)
}

proof fn lemma_member_step(
    s: Seq<char>,
    pattern: Seq<Atom>,
    k: int,
    from: Matched,
    end: int,
    w: Seq<Seq<char>>,
    spans: Seq<Option<(int, int)>>,
    bools: Seq<Option<bool>>,
    name: &'static str,
)
    requires
        0 <= k < pattern.len(),
        0 <= end,
        reaches(s, pattern, k, from, end, w, spans, bools),
        pattern[k] == Atom::Member(name),
        member_at(s, end, name@),
    ensures
        reaches(s, pattern, k + 1, from, end + 2, w, spans, bools),
{
    reveal(reaches);
    let m = after_atoms(s, pattern, k, from)->0;
    lemma_property_takes_point_and_name(s, m, name);
}

proof fn lemma_member_came(
    s: Seq<char>,
    pattern: Seq<Atom>,
    k: int,
    from: Matched,
    end: int,
    last: Matched,
    name: &'static str,
)
    requires
        0 <= k < pattern.len(),
        came(s, pattern, k, from, end, last),
        pattern[k] == Atom::Member(name),
    ensures
        member_at(s, end, name@),
        came(s, pattern, k + 1, from, end + 2, last),
{
    reveal(came);
    let m = after_atoms(s, pattern, k, from)->0;
    lemma_what_is_bound_stays(s, pattern, k + 1, pattern.len() as int, from);
    lemma_property_takes_point_and_name(s, m, name);
}

proof fn lemma_null_step(
    s: Seq<char>,
    pattern: Seq<Atom>,
    k: int,
    from: Matched,
    end: int,
    w: Seq<Seq<char>>,
    spans: Seq<Option<(int, int)>>,
    bools: Seq<Option<bool>>,
    equal: bool,
)
    requires
        0 <= k < pattern.len(),
        0 <= end,
        reaches(s, pattern, k, from, end, w, spans, bools),
        pattern[k] == if equal {
            Atom::NullEq
        } else {
            Atom::NullNe
        },
        null_at(s, end, equal),
    ensures
        reaches(s, pattern, k + 1, from, end + 2, w, spans, bools),
{
    reveal(reaches);
    let m = after_atoms(s, pattern, k, from)->0;
    lemma_null_takes_both_comparisons(s, m);
}

proof fn lemma_null_came(
    s: Seq<char>,
    pattern: Seq<Atom>,
    k: int,
    from: Matched,
    end: int,
    last: Matched,
    equal: bool,
)
    requires
        0 <= k < pattern.len(),
        came(s, pattern, k, from, end, last),
        pattern[k] == if equal {
            Atom::NullEq
        } else {
            Atom::NullNe
        },
    ensures
        null_at(s, end, equal),
        came(s, pattern, k + 1, from, end + 2, last),
{
    reveal(came);
    let m = after_atoms(s, pattern, k, from)->0;
    lemma_what_is_bound_stays(s, pattern, k + 1, pattern.len() as int, from);
    lemma_null_takes_both_comparisons(s, m);
}

proof fn lemma_undefined_step(
    s: Seq<char>,
    pattern: Seq<Atom>,
    k: int,
    from: Matched,
    end: int,
    w: Seq<Seq<char>>,
    spans: Seq<Option<(int, int)>>,
    bools: Seq<Option<bool>>,
    count: int,
)
    requires
        0 <= k < pattern.len(),
        0 <= end,
        reaches(s, pattern, k, from, end, w, spans, bools),
        pattern[k] == Atom::Undefined,
        undefined_at(s, end, count),
    ensures
        reaches(s, pattern, k + 1, from, end + count, w, spans, bools),
{
    reveal(reaches);
    let m = after_atoms(s, pattern, k, from)->0;
    lemma_undefined_takes_both_spellings(s, m);
}

proof fn lemma_undefined_came(
    s: Seq<char>,
    pattern: Seq<Atom>,
    k: int,
    from: Matched,
    end: int,
    last: Matched,
) -> (count: int)
    requires
        0 <= k < pattern.len(),
        came(s, pattern, k, from, end, last),
        pattern[k] == Atom::Undefined,
    ensures
        undefined_at(s, end, count),
        came(s, pattern, k + 1, from, end + count, last),
{
    reveal(came);
    let m = after_atoms(s, pattern, k, from)->0;
    lemma_what_is_bound_stays(s, pattern, k + 1, pattern.len() as int, from);
    lemma_undefined_takes_both_spellings(s, m);
    let count: int = if reads(s, end, "undefined"@) {
        1
    } else {
        2
    };
    count
}

proof fn lemma_same_line_step(
    s: Seq<char>,
    pattern: Seq<Atom>,
    k: int,
    from: Matched,
    end: int,
    w: Seq<Seq<char>>,
    spans: Seq<Option<(int, int)>>,
    bools: Seq<Option<bool>>,
)
    requires
        0 <= k < pattern.len(),
        0 <= end,
        reaches(s, pattern, k, from, end, w, spans, bools),
        pattern[k] == Atom::NoLineBreak,
        same_line_at(s, end),
    ensures
        reaches(s, pattern, k + 1, from, end, w, spans, bools),
{
    reveal(reaches);
}

proof fn lemma_same_line_came(
    s: Seq<char>,
    pattern: Seq<Atom>,
    k: int,
    from: Matched,
    end: int,
    last: Matched,
)
    requires
        0 <= k < pattern.len(),
        came(s, pattern, k, from, end, last),
        pattern[k] == Atom::NoLineBreak,
    ensures
        same_line_at(s, end),
        came(s, pattern, k + 1, from, end + 0, last),
{
    reveal(came);
    let m = after_atoms(s, pattern, k, from)->0;
    lemma_what_is_bound_stays(s, pattern, k + 1, pattern.len() as int, from);
}

proof fn lemma_begin_step(
    s: Seq<char>,
    pattern: Seq<Atom>,
    k: int,
    from: Matched,
    end: int,
    w: Seq<Seq<char>>,
    spans: Seq<Option<(int, int)>>,
    bools: Seq<Option<bool>>,
    slot: usize,
)
    requires
        0 <= k < pattern.len(),
        0 <= end,
        reaches(s, pattern, k, from, end, w, spans, bools),
        pattern[k] == Atom::Begin(slot),
        slot < spans.len(),
        spans[slot as int] is None,
    ensures
        reaches(
            s, pattern, k + 1, from, end, w, spans.update(slot as int, Some((end, end))), bools,
        ),
{
    reveal(reaches);
}

proof fn lemma_begin_came(
    s: Seq<char>,
    pattern: Seq<Atom>,
    k: int,
    from: Matched,
    end: int,
    last: Matched,
    slot: usize,
)
    requires
        0 <= k < pattern.len(),
        came(s, pattern, k, from, end, last),
        pattern[k] == Atom::Begin(slot),
    ensures
        came(s, pattern, k + 1, from, end + 0, last),
{
    reveal(came);
    let m = after_atoms(s, pattern, k, from)->0;
    lemma_what_is_bound_stays(s, pattern, k + 1, pattern.len() as int, from);
}

proof fn lemma_end_step(
    s: Seq<char>,
    pattern: Seq<Atom>,
    k: int,
    from: Matched,
    end: int,
    w: Seq<Seq<char>>,
    spans: Seq<Option<(int, int)>>,
    bools: Seq<Option<bool>>,
    slot: usize,
    start: int,
)
    requires
        0 <= k < pattern.len(),
        0 <= end,
        reaches(s, pattern, k, from, end, w, spans, bools),
        pattern[k] == Atom::End(slot),
        slot < spans.len(),
        spans[slot as int] == Some((start, start)),
        start < end,
    ensures
        reaches(
            s, pattern, k + 1, from, end, w, spans.update(slot as int, Some((start, end))),
            bools,
        ),
{
    reveal(reaches);
}

proof fn lemma_end_came(
    s: Seq<char>,
    pattern: Seq<Atom>,
    k: int,
    from: Matched,
    end: int,
    last: Matched,
    slot: usize,
)
    requires
        0 <= k < pattern.len(),
        came(s, pattern, k, from, end, last),
        pattern[k] == Atom::End(slot),
    ensures
        came(s, pattern, k + 1, from, end + 0, last),
{
    reveal(came);
    let m = after_atoms(s, pattern, k, from)->0;
    lemma_what_is_bound_stays(s, pattern, k + 1, pattern.len() as int, from);
}

// ---------------------------------------------------------------------------
// Code

/// The speed setting, which is hidden while the tier is not allowed or there is nothing to
/// choose.
pub open spec fn is_speed_setting(s: Seq<char>, i: int, w: Seq<Seq<char>>) -> bool {
    &&& reads(s, i, "isServiceTierAllowed"@)
    &&& reads(s, i + 1, ":"@)
    &&& word_at(s, i + 2, w[0])
    &&& reads(s, i + 3, "}"@)
    &&& reads(s, i + 4, "="@)
    &&& ident_at(s, i + 5)
    &&& reads(s, i + 6, "("@)
    &&& reads(s, i + 7, ")"@)
    &&& reads(s, i + 8, ","@)
    &&& reads(s, i + 9, "{"@)
    &&& reads(s, i + 10, "serviceTierSettings"@)
    &&& reads(s, i + 11, ":"@)
    &&& word_at(s, i + 12, w[1])
    &&& reads(s, i + 13, ","@)
    &&& reads(s, i + 14, "setServiceTier"@)
    &&& reads(s, i + 15, ":"@)
    &&& ident_at(s, i + 16)
    &&& reads(s, i + 17, "}"@)
    &&& reads(s, i + 18, "="@)
    &&& ident_at(s, i + 19)
    &&& reads(s, i + 20, "("@)
    &&& reads(s, i + 21, ")"@)
    &&& reads(s, i + 22, ";"@)
    &&& reads(s, i + 23, "if"@)
    &&& reads(s, i + 24, "("@)
    &&& reads(s, i + 25, "!"@)
    &&& word_at(s, i + 26, w[0])
    &&& reads(s, i + 27, "||"@)
    &&& word_at(s, i + 28, w[1])
    &&& member_at(s, i + 29, "availableOptions"@)
    &&& member_at(s, i + 31, "length"@)
    &&& reads(s, i + 33, "<="@)
    &&& reads(s, i + 34, "1"@)
    &&& reads(s, i + 35, ")"@)
    &&& reads(s, i + 36, "return"@)
    &&& reads(s, i + 37, "null"@)
    &&& reads(s, i + 38, ";"@)
}

proof fn lemma_speed_setting_steps()
    ensures
        speed_guarded_atoms().len() == 20,
        ({
            let pattern = speed_guarded_atoms();
            &&& pattern[0] == Atom::ExactRun("isServiceTierAllowed :")
            &&& pattern[1] == Atom::Ident(0)
            &&& pattern[2] == Atom::ExactRun("} =")
            &&& pattern[3] == Atom::AnyIdent
            &&& pattern[4] == Atom::ExactRun("( ) , { serviceTierSettings :")
            &&& pattern[5] == Atom::Ident(1)
            &&& pattern[6] == Atom::ExactRun(", setServiceTier :")
            &&& pattern[7] == Atom::AnyIdent
            &&& pattern[8] == Atom::ExactRun("} =")
            &&& pattern[9] == Atom::AnyIdent
            &&& pattern[10] == Atom::ExactRun("( ) ; if (")
            &&& pattern[11] == Atom::Begin(0)
            &&& pattern[12] == Atom::ExactRun("!")
            &&& pattern[13] == Atom::Ident(0)
            &&& pattern[14] == Atom::ExactRun("||")
            &&& pattern[15] == Atom::End(0)
            &&& pattern[16] == Atom::Ident(1)
            &&& pattern[17] == Atom::Member("availableOptions")
            &&& pattern[18] == Atom::Member("length")
            &&& pattern[19] == Atom::ExactRun("<= 1 ) return null ;")
        }),
{
    reveal(speed_guarded_atoms);
}

/// The speed setting is matched wherever it stands, whatever its words are and however
/// it is written, as a whole and with its words.
pub proof fn lemma_speed_setting_is_found(
    s: Seq<char>,
    i: int,
    w: Seq<Seq<char>>,
    ids: Seq<Option<int>>,
)
    requires
        0 <= i,
        ids.len() == 16,
        forall|slot: int|
            0 <= slot < 16 ==> (#[trigger] ids[slot] matches Some(at) ==> token_text(s, at)
                == w[slot]),
        is_speed_setting(s, i, w),
    ensures
        ({
            &&& matched_at(s, i, speed_guarded_atoms(), ids) matches Some(m)
            &&& so_far(s, m, i, i + 39, w, m.spans, m.bools)
            &&& m.spans[0] == Some((i + 25, i + 28))
        }),
{
    lemma_speed_setting_steps();
    let pattern = speed_guarded_atoms();
    let from = unmatched(i, ids);
    let spans0: Seq<Option<(int, int)>> = seq![None, None, None, None];
    let bools0: Seq<Option<bool>> = seq![None, None, None, None];
    assert(reaches(s, pattern, 0, from, i, w, spans0, bools0)) by {
        reveal(reaches);
        assert(from.spans =~= spans0);
        assert(from.bools =~= bools0);
    }
    assert(reaches(s, pattern, 1, from, i + 2, w, spans0, bools0)) by {
        lemma_run_is_service_tier_allowed_colon();
        let pieces = seq!["isServiceTierAllowed"@, ":"@];
        assert forall|j: int| 0 <= j < pieces.len() implies reads(
            s,
            i + j,
            #[trigger] pieces[j],
        ) by {
            assert(j == 0 || j == 1);
        }
        lemma_run_step(s, pattern, 0, from, i, w, spans0, bools0, "isServiceTierAllowed :", pieces);
    }
    assert(reaches(s, pattern, 2, from, i + 3, w, spans0, bools0)) by {
        lemma_word_step(s, pattern, 1, from, i + 2, w, spans0, bools0, 0);
    }
    assert(reaches(s, pattern, 3, from, i + 5, w, spans0, bools0)) by {
        lemma_run_unbrace_is();
        let pieces = seq!["}"@, "="@];
        assert forall|j: int| 0 <= j < pieces.len() implies reads(
            s,
            i + 3 + j,
            #[trigger] pieces[j],
        ) by {
            assert(j == 0 || j == 1);
        }
        lemma_run_step(s, pattern, 2, from, i + 3, w, spans0, bools0, "} =", pieces);
    }
    assert(reaches(s, pattern, 4, from, i + 6, w, spans0, bools0)) by {
        lemma_any_step(s, pattern, 3, from, i + 5, w, spans0, bools0);
    }
    assert(reaches(s, pattern, 5, from, i + 12, w, spans0, bools0)) by {
        lemma_run_open_close_comma_brace_service_tier_settings_colon();
        let pieces = seq!["("@, ")"@, ","@, "{"@, "serviceTierSettings"@, ":"@];
        assert forall|j: int| 0 <= j < pieces.len() implies reads(
            s,
            i + 6 + j,
            #[trigger] pieces[j],
        ) by {
            assert(j == 0 || j == 1 || j == 2 || j == 3 || j == 4 || j == 5);
        }
        lemma_run_step(
            s, pattern, 4, from, i + 6, w, spans0, bools0, "( ) , { serviceTierSettings :",
            pieces,
        );
    }
    assert(reaches(s, pattern, 6, from, i + 13, w, spans0, bools0)) by {
        lemma_word_step(s, pattern, 5, from, i + 12, w, spans0, bools0, 1);
    }
    assert(reaches(s, pattern, 7, from, i + 16, w, spans0, bools0)) by {
        lemma_run_comma_set_service_tier_colon();
        let pieces = seq![","@, "setServiceTier"@, ":"@];
        assert forall|j: int| 0 <= j < pieces.len() implies reads(
            s,
            i + 13 + j,
            #[trigger] pieces[j],
        ) by {
            assert(j == 0 || j == 1 || j == 2);
        }
        lemma_run_step(
            s, pattern, 6, from, i + 13, w, spans0, bools0, ", setServiceTier :", pieces,
        );
    }
    assert(reaches(s, pattern, 8, from, i + 17, w, spans0, bools0)) by {
        lemma_any_step(s, pattern, 7, from, i + 16, w, spans0, bools0);
    }
    assert(reaches(s, pattern, 9, from, i + 19, w, spans0, bools0)) by {
        lemma_run_unbrace_is();
        let pieces = seq!["}"@, "="@];
        assert forall|j: int| 0 <= j < pieces.len() implies reads(
            s,
            i + 17 + j,
            #[trigger] pieces[j],
        ) by {
            assert(j == 0 || j == 1);
        }
        lemma_run_step(s, pattern, 8, from, i + 17, w, spans0, bools0, "} =", pieces);
    }
    assert(reaches(s, pattern, 10, from, i + 20, w, spans0, bools0)) by {
        lemma_any_step(s, pattern, 9, from, i + 19, w, spans0, bools0);
    }
    assert(reaches(s, pattern, 11, from, i + 25, w, spans0, bools0)) by {
        lemma_run_open_close_semicolon_if_open();
        let pieces = seq!["("@, ")"@, ";"@, "if"@, "("@];
        assert forall|j: int| 0 <= j < pieces.len() implies reads(
            s,
            i + 20 + j,
            #[trigger] pieces[j],
        ) by {
            assert(j == 0 || j == 1 || j == 2 || j == 3 || j == 4);
        }
        lemma_run_step(s, pattern, 10, from, i + 20, w, spans0, bools0, "( ) ; if (", pieces);
    }
    let spans1 = spans0.update(0, Some((i + 25, i + 25)));
    assert(reaches(s, pattern, 12, from, i + 25, w, spans1, bools0)) by {
        lemma_begin_step(s, pattern, 11, from, i + 25, w, spans0, bools0, 0);
    }
    assert(reaches(s, pattern, 13, from, i + 26, w, spans1, bools0)) by {
        lemma_run_not();
        let pieces = seq!["!"@];
        assert forall|j: int| 0 <= j < pieces.len() implies reads(
            s,
            i + 25 + j,
            #[trigger] pieces[j],
        ) by {
            assert(j == 0);
        }
        lemma_run_step(s, pattern, 12, from, i + 25, w, spans1, bools0, "!", pieces);
    }
    assert(reaches(s, pattern, 14, from, i + 27, w, spans1, bools0)) by {
        lemma_word_step(s, pattern, 13, from, i + 26, w, spans1, bools0, 0);
    }
    assert(reaches(s, pattern, 15, from, i + 28, w, spans1, bools0)) by {
        lemma_run_or();
        let pieces = seq!["||"@];
        assert forall|j: int| 0 <= j < pieces.len() implies reads(
            s,
            i + 27 + j,
            #[trigger] pieces[j],
        ) by {
            assert(j == 0);
        }
        lemma_run_step(s, pattern, 14, from, i + 27, w, spans1, bools0, "||", pieces);
    }
    let spans2 = spans1.update(0, Some((i + 25, i + 28)));
    assert(reaches(s, pattern, 16, from, i + 28, w, spans2, bools0)) by {
        lemma_end_step(s, pattern, 15, from, i + 28, w, spans1, bools0, 0, i + 25);
    }
    assert(reaches(s, pattern, 17, from, i + 29, w, spans2, bools0)) by {
        lemma_word_step(s, pattern, 16, from, i + 28, w, spans2, bools0, 1);
    }
    assert(reaches(s, pattern, 18, from, i + 31, w, spans2, bools0)) by {
        lemma_member_step(s, pattern, 17, from, i + 29, w, spans2, bools0, "availableOptions");
    }
    assert(reaches(s, pattern, 19, from, i + 33, w, spans2, bools0)) by {
        lemma_member_step(s, pattern, 18, from, i + 31, w, spans2, bools0, "length");
    }
    assert(reaches(s, pattern, 20, from, i + 39, w, spans2, bools0)) by {
        lemma_run_at_most_1_close_return_null_semicolon();
        let pieces = seq!["<="@, "1"@, ")"@, "return"@, "null"@, ";"@];
        assert forall|j: int| 0 <= j < pieces.len() implies reads(
            s,
            i + 33 + j,
            #[trigger] pieces[j],
        ) by {
            assert(j == 0 || j == 1 || j == 2 || j == 3 || j == 4 || j == 5);
        }
        lemma_run_step(
            s, pattern, 19, from, i + 33, w, spans2, bools0, "<= 1 ) return null ;", pieces,
        );
    }
    reveal(reaches);
}

/// Nothing but this is matched as such: the speed setting.
pub proof fn lemma_found_is_speed_setting(s: Seq<char>, i: int, ids: Seq<Option<int>>)
    requires
        0 <= i,
        ids.len() == 16,
        matched_at(s, i, speed_guarded_atoms(), ids) is Some,
    ensures
        ({
            let m = matched_at(s, i, speed_guarded_atoms(), ids)->0;
            is_speed_setting(s, i, words_of(s, m))
        }),
{
    lemma_speed_setting_steps();
    let pattern = speed_guarded_atoms();
    let from = unmatched(i, ids);
    let last = matched_at(s, i, pattern, ids)->0;
    let w = words_of(s, last);
    assert(came(s, pattern, 0, from, i, last)) by {
        reveal(came);
    }
    assert(reads(s, i, "isServiceTierAllowed"@) && reads(s, i + 1, ":"@)
        && came(s, pattern, 1, from, i + 2, last)) by {
        lemma_run_is_service_tier_allowed_colon();
        let pieces = seq!["isServiceTierAllowed"@, ":"@];
        lemma_run_came(s, pattern, 0, from, i, last, "isServiceTierAllowed :", pieces);
        assert(pieces[0] == "isServiceTierAllowed"@);
        assert(pieces[1] == ":"@);
    }
    assert(word_at(s, i + 2, w[0]) && came(s, pattern, 2, from, i + 3, last)) by {
        lemma_word_came(s, pattern, 1, from, i + 2, last, 0);
    }
    assert(reads(s, i + 3, "}"@) && reads(s, i + 4, "="@)
        && came(s, pattern, 3, from, i + 5, last)) by {
        lemma_run_unbrace_is();
        let pieces = seq!["}"@, "="@];
        lemma_run_came(s, pattern, 2, from, i + 3, last, "} =", pieces);
        assert(pieces[0] == "}"@);
        assert(pieces[1] == "="@);
    }
    assert(ident_at(s, i + 5) && came(s, pattern, 4, from, i + 6, last)) by {
        lemma_any_came(s, pattern, 3, from, i + 5, last);
    }
    assert(reads(s, i + 6, "("@) && reads(s, i + 7, ")"@) && reads(s, i + 8, ","@)
        && reads(s, i + 9, "{"@) && reads(s, i + 10, "serviceTierSettings"@)
        && reads(s, i + 11, ":"@) && came(s, pattern, 5, from, i + 12, last)) by {
        lemma_run_open_close_comma_brace_service_tier_settings_colon();
        let pieces = seq!["("@, ")"@, ","@, "{"@, "serviceTierSettings"@, ":"@];
        lemma_run_came(s, pattern, 4, from, i + 6, last, "( ) , { serviceTierSettings :", pieces);
        assert(pieces[0] == "("@);
        assert(pieces[1] == ")"@);
        assert(pieces[2] == ","@);
        assert(pieces[3] == "{"@);
        assert(pieces[4] == "serviceTierSettings"@);
        assert(pieces[5] == ":"@);
    }
    assert(word_at(s, i + 12, w[1]) && came(s, pattern, 6, from, i + 13, last)) by {
        lemma_word_came(s, pattern, 5, from, i + 12, last, 1);
    }
    assert(reads(s, i + 13, ","@) && reads(s, i + 14, "setServiceTier"@)
        && reads(s, i + 15, ":"@) && came(s, pattern, 7, from, i + 16, last)) by {
        lemma_run_comma_set_service_tier_colon();
        let pieces = seq![","@, "setServiceTier"@, ":"@];
        lemma_run_came(s, pattern, 6, from, i + 13, last, ", setServiceTier :", pieces);
        assert(pieces[0] == ","@);
        assert(pieces[1] == "setServiceTier"@);
        assert(pieces[2] == ":"@);
    }
    assert(ident_at(s, i + 16) && came(s, pattern, 8, from, i + 17, last)) by {
        lemma_any_came(s, pattern, 7, from, i + 16, last);
    }
    assert(reads(s, i + 17, "}"@) && reads(s, i + 18, "="@)
        && came(s, pattern, 9, from, i + 19, last)) by {
        lemma_run_unbrace_is();
        let pieces = seq!["}"@, "="@];
        lemma_run_came(s, pattern, 8, from, i + 17, last, "} =", pieces);
        assert(pieces[0] == "}"@);
        assert(pieces[1] == "="@);
    }
    assert(ident_at(s, i + 19) && came(s, pattern, 10, from, i + 20, last)) by {
        lemma_any_came(s, pattern, 9, from, i + 19, last);
    }
    assert(reads(s, i + 20, "("@) && reads(s, i + 21, ")"@) && reads(s, i + 22, ";"@)
        && reads(s, i + 23, "if"@) && reads(s, i + 24, "("@)
        && came(s, pattern, 11, from, i + 25, last)) by {
        lemma_run_open_close_semicolon_if_open();
        let pieces = seq!["("@, ")"@, ";"@, "if"@, "("@];
        lemma_run_came(s, pattern, 10, from, i + 20, last, "( ) ; if (", pieces);
        assert(pieces[0] == "("@);
        assert(pieces[1] == ")"@);
        assert(pieces[2] == ";"@);
        assert(pieces[3] == "if"@);
        assert(pieces[4] == "("@);
    }
    assert(came(s, pattern, 12, from, i + 25, last)) by {
        lemma_begin_came(s, pattern, 11, from, i + 25, last, 0);
    }
    assert(reads(s, i + 25, "!"@) && came(s, pattern, 13, from, i + 26, last)) by {
        lemma_run_not();
        let pieces = seq!["!"@];
        lemma_run_came(s, pattern, 12, from, i + 25, last, "!", pieces);
        assert(pieces[0] == "!"@);
    }
    assert(word_at(s, i + 26, w[0]) && came(s, pattern, 14, from, i + 27, last)) by {
        lemma_word_came(s, pattern, 13, from, i + 26, last, 0);
    }
    assert(reads(s, i + 27, "||"@) && came(s, pattern, 15, from, i + 28, last)) by {
        lemma_run_or();
        let pieces = seq!["||"@];
        lemma_run_came(s, pattern, 14, from, i + 27, last, "||", pieces);
        assert(pieces[0] == "||"@);
    }
    assert(came(s, pattern, 16, from, i + 28, last)) by {
        lemma_end_came(s, pattern, 15, from, i + 28, last, 0);
    }
    assert(word_at(s, i + 28, w[1]) && came(s, pattern, 17, from, i + 29, last)) by {
        lemma_word_came(s, pattern, 16, from, i + 28, last, 1);
    }
    assert(member_at(s, i + 29, "availableOptions"@)
        && came(s, pattern, 18, from, i + 31, last)) by {
        lemma_member_came(s, pattern, 17, from, i + 29, last, "availableOptions");
    }
    assert(member_at(s, i + 31, "length"@) && came(s, pattern, 19, from, i + 33, last)) by {
        lemma_member_came(s, pattern, 18, from, i + 31, last, "length");
    }
    assert(reads(s, i + 33, "<="@) && reads(s, i + 34, "1"@) && reads(s, i + 35, ")"@)
        && reads(s, i + 36, "return"@) && reads(s, i + 37, "null"@) && reads(s, i + 38, ";"@)
        && came(s, pattern, 20, from, i + 39, last)) by {
        lemma_run_at_most_1_close_return_null_semicolon();
        let pieces = seq!["<="@, "1"@, ")"@, "return"@, "null"@, ";"@];
        lemma_run_came(s, pattern, 19, from, i + 33, last, "<= 1 ) return null ;", pieces);
        assert(pieces[0] == "<="@);
        assert(pieces[1] == "1"@);
        assert(pieces[2] == ")"@);
        assert(pieces[3] == "return"@);
        assert(pieces[4] == "null"@);
        assert(pieces[5] == ";"@);
    }
    assert(is_speed_setting(s, i, w));
}

/// The speed setting, which is hidden only where there is nothing to choose.
pub open spec fn is_shown_speed_setting(s: Seq<char>, i: int, w: Seq<Seq<char>>) -> bool {
    &&& reads(s, i, "isServiceTierAllowed"@)
    &&& reads(s, i + 1, ":"@)
    &&& word_at(s, i + 2, w[0])
    &&& reads(s, i + 3, "}"@)
    &&& reads(s, i + 4, "="@)
    &&& ident_at(s, i + 5)
    &&& reads(s, i + 6, "("@)
    &&& reads(s, i + 7, ")"@)
    &&& reads(s, i + 8, ","@)
    &&& reads(s, i + 9, "{"@)
    &&& reads(s, i + 10, "serviceTierSettings"@)
    &&& reads(s, i + 11, ":"@)
    &&& word_at(s, i + 12, w[1])
    &&& reads(s, i + 13, ","@)
    &&& reads(s, i + 14, "setServiceTier"@)
    &&& reads(s, i + 15, ":"@)
    &&& ident_at(s, i + 16)
    &&& reads(s, i + 17, "}"@)
    &&& reads(s, i + 18, "="@)
    &&& ident_at(s, i + 19)
    &&& reads(s, i + 20, "("@)
    &&& reads(s, i + 21, ")"@)
    &&& reads(s, i + 22, ";"@)
    &&& reads(s, i + 23, "if"@)
    &&& reads(s, i + 24, "("@)
    &&& word_at(s, i + 25, w[1])
    &&& member_at(s, i + 26, "availableOptions"@)
    &&& member_at(s, i + 28, "length"@)
    &&& reads(s, i + 30, "<="@)
    &&& reads(s, i + 31, "1"@)
    &&& reads(s, i + 32, ")"@)
    &&& reads(s, i + 33, "return"@)
    &&& reads(s, i + 34, "null"@)
    &&& reads(s, i + 35, ";"@)
}

proof fn lemma_shown_speed_setting_steps()
    ensures
        speed_patched_atoms().len() == 15,
        ({
            let pattern = speed_patched_atoms();
            &&& pattern[0] == Atom::ExactRun("isServiceTierAllowed :")
            &&& pattern[1] == Atom::Ident(0)
            &&& pattern[2] == Atom::ExactRun("} =")
            &&& pattern[3] == Atom::AnyIdent
            &&& pattern[4] == Atom::ExactRun("( ) , { serviceTierSettings :")
            &&& pattern[5] == Atom::Ident(1)
            &&& pattern[6] == Atom::ExactRun(", setServiceTier :")
            &&& pattern[7] == Atom::AnyIdent
            &&& pattern[8] == Atom::ExactRun("} =")
            &&& pattern[9] == Atom::AnyIdent
            &&& pattern[10] == Atom::ExactRun("( ) ; if (")
            &&& pattern[11] == Atom::Ident(1)
            &&& pattern[12] == Atom::Member("availableOptions")
            &&& pattern[13] == Atom::Member("length")
            &&& pattern[14] == Atom::ExactRun("<= 1 ) return null ;")
        }),
{
    reveal(speed_patched_atoms);
}

/// The speed setting is matched wherever it stands, whatever its words are and however
/// it is written, as a whole and with its words.
pub proof fn lemma_shown_speed_setting_is_found(
    s: Seq<char>,
    i: int,
    w: Seq<Seq<char>>,
    ids: Seq<Option<int>>,
)
    requires
        0 <= i,
        ids.len() == 16,
        forall|slot: int|
            0 <= slot < 16 ==> (#[trigger] ids[slot] matches Some(at) ==> token_text(s, at)
                == w[slot]),
        is_shown_speed_setting(s, i, w),
    ensures
        ({
            &&& matched_at(s, i, speed_patched_atoms(), ids) matches Some(m)
            &&& so_far(s, m, i, i + 36, w, m.spans, m.bools)
        }),
{
    lemma_shown_speed_setting_steps();
    let pattern = speed_patched_atoms();
    let from = unmatched(i, ids);
    let spans0: Seq<Option<(int, int)>> = seq![None, None, None, None];
    let bools0: Seq<Option<bool>> = seq![None, None, None, None];
    assert(reaches(s, pattern, 0, from, i, w, spans0, bools0)) by {
        reveal(reaches);
        assert(from.spans =~= spans0);
        assert(from.bools =~= bools0);
    }
    assert(reaches(s, pattern, 1, from, i + 2, w, spans0, bools0)) by {
        lemma_run_is_service_tier_allowed_colon();
        let pieces = seq!["isServiceTierAllowed"@, ":"@];
        assert forall|j: int| 0 <= j < pieces.len() implies reads(
            s,
            i + j,
            #[trigger] pieces[j],
        ) by {
            assert(j == 0 || j == 1);
        }
        lemma_run_step(s, pattern, 0, from, i, w, spans0, bools0, "isServiceTierAllowed :", pieces);
    }
    assert(reaches(s, pattern, 2, from, i + 3, w, spans0, bools0)) by {
        lemma_word_step(s, pattern, 1, from, i + 2, w, spans0, bools0, 0);
    }
    assert(reaches(s, pattern, 3, from, i + 5, w, spans0, bools0)) by {
        lemma_run_unbrace_is();
        let pieces = seq!["}"@, "="@];
        assert forall|j: int| 0 <= j < pieces.len() implies reads(
            s,
            i + 3 + j,
            #[trigger] pieces[j],
        ) by {
            assert(j == 0 || j == 1);
        }
        lemma_run_step(s, pattern, 2, from, i + 3, w, spans0, bools0, "} =", pieces);
    }
    assert(reaches(s, pattern, 4, from, i + 6, w, spans0, bools0)) by {
        lemma_any_step(s, pattern, 3, from, i + 5, w, spans0, bools0);
    }
    assert(reaches(s, pattern, 5, from, i + 12, w, spans0, bools0)) by {
        lemma_run_open_close_comma_brace_service_tier_settings_colon();
        let pieces = seq!["("@, ")"@, ","@, "{"@, "serviceTierSettings"@, ":"@];
        assert forall|j: int| 0 <= j < pieces.len() implies reads(
            s,
            i + 6 + j,
            #[trigger] pieces[j],
        ) by {
            assert(j == 0 || j == 1 || j == 2 || j == 3 || j == 4 || j == 5);
        }
        lemma_run_step(
            s, pattern, 4, from, i + 6, w, spans0, bools0, "( ) , { serviceTierSettings :",
            pieces,
        );
    }
    assert(reaches(s, pattern, 6, from, i + 13, w, spans0, bools0)) by {
        lemma_word_step(s, pattern, 5, from, i + 12, w, spans0, bools0, 1);
    }
    assert(reaches(s, pattern, 7, from, i + 16, w, spans0, bools0)) by {
        lemma_run_comma_set_service_tier_colon();
        let pieces = seq![","@, "setServiceTier"@, ":"@];
        assert forall|j: int| 0 <= j < pieces.len() implies reads(
            s,
            i + 13 + j,
            #[trigger] pieces[j],
        ) by {
            assert(j == 0 || j == 1 || j == 2);
        }
        lemma_run_step(
            s, pattern, 6, from, i + 13, w, spans0, bools0, ", setServiceTier :", pieces,
        );
    }
    assert(reaches(s, pattern, 8, from, i + 17, w, spans0, bools0)) by {
        lemma_any_step(s, pattern, 7, from, i + 16, w, spans0, bools0);
    }
    assert(reaches(s, pattern, 9, from, i + 19, w, spans0, bools0)) by {
        lemma_run_unbrace_is();
        let pieces = seq!["}"@, "="@];
        assert forall|j: int| 0 <= j < pieces.len() implies reads(
            s,
            i + 17 + j,
            #[trigger] pieces[j],
        ) by {
            assert(j == 0 || j == 1);
        }
        lemma_run_step(s, pattern, 8, from, i + 17, w, spans0, bools0, "} =", pieces);
    }
    assert(reaches(s, pattern, 10, from, i + 20, w, spans0, bools0)) by {
        lemma_any_step(s, pattern, 9, from, i + 19, w, spans0, bools0);
    }
    assert(reaches(s, pattern, 11, from, i + 25, w, spans0, bools0)) by {
        lemma_run_open_close_semicolon_if_open();
        let pieces = seq!["("@, ")"@, ";"@, "if"@, "("@];
        assert forall|j: int| 0 <= j < pieces.len() implies reads(
            s,
            i + 20 + j,
            #[trigger] pieces[j],
        ) by {
            assert(j == 0 || j == 1 || j == 2 || j == 3 || j == 4);
        }
        lemma_run_step(s, pattern, 10, from, i + 20, w, spans0, bools0, "( ) ; if (", pieces);
    }
    assert(reaches(s, pattern, 12, from, i + 26, w, spans0, bools0)) by {
        lemma_word_step(s, pattern, 11, from, i + 25, w, spans0, bools0, 1);
    }
    assert(reaches(s, pattern, 13, from, i + 28, w, spans0, bools0)) by {
        lemma_member_step(s, pattern, 12, from, i + 26, w, spans0, bools0, "availableOptions");
    }
    assert(reaches(s, pattern, 14, from, i + 30, w, spans0, bools0)) by {
        lemma_member_step(s, pattern, 13, from, i + 28, w, spans0, bools0, "length");
    }
    assert(reaches(s, pattern, 15, from, i + 36, w, spans0, bools0)) by {
        lemma_run_at_most_1_close_return_null_semicolon();
        let pieces = seq!["<="@, "1"@, ")"@, "return"@, "null"@, ";"@];
        assert forall|j: int| 0 <= j < pieces.len() implies reads(
            s,
            i + 30 + j,
            #[trigger] pieces[j],
        ) by {
            assert(j == 0 || j == 1 || j == 2 || j == 3 || j == 4 || j == 5);
        }
        lemma_run_step(
            s, pattern, 14, from, i + 30, w, spans0, bools0, "<= 1 ) return null ;", pieces,
        );
    }
    reveal(reaches);
}

/// Nothing but this is matched as such: the speed setting.
pub proof fn lemma_found_is_shown_speed_setting(s: Seq<char>, i: int, ids: Seq<Option<int>>)
    requires
        0 <= i,
        ids.len() == 16,
        matched_at(s, i, speed_patched_atoms(), ids) is Some,
    ensures
        ({
            let m = matched_at(s, i, speed_patched_atoms(), ids)->0;
            is_shown_speed_setting(s, i, words_of(s, m))
        }),
{
    lemma_shown_speed_setting_steps();
    let pattern = speed_patched_atoms();
    let from = unmatched(i, ids);
    let last = matched_at(s, i, pattern, ids)->0;
    let w = words_of(s, last);
    assert(came(s, pattern, 0, from, i, last)) by {
        reveal(came);
    }
    assert(reads(s, i, "isServiceTierAllowed"@) && reads(s, i + 1, ":"@)
        && came(s, pattern, 1, from, i + 2, last)) by {
        lemma_run_is_service_tier_allowed_colon();
        let pieces = seq!["isServiceTierAllowed"@, ":"@];
        lemma_run_came(s, pattern, 0, from, i, last, "isServiceTierAllowed :", pieces);
        assert(pieces[0] == "isServiceTierAllowed"@);
        assert(pieces[1] == ":"@);
    }
    assert(word_at(s, i + 2, w[0]) && came(s, pattern, 2, from, i + 3, last)) by {
        lemma_word_came(s, pattern, 1, from, i + 2, last, 0);
    }
    assert(reads(s, i + 3, "}"@) && reads(s, i + 4, "="@)
        && came(s, pattern, 3, from, i + 5, last)) by {
        lemma_run_unbrace_is();
        let pieces = seq!["}"@, "="@];
        lemma_run_came(s, pattern, 2, from, i + 3, last, "} =", pieces);
        assert(pieces[0] == "}"@);
        assert(pieces[1] == "="@);
    }
    assert(ident_at(s, i + 5) && came(s, pattern, 4, from, i + 6, last)) by {
        lemma_any_came(s, pattern, 3, from, i + 5, last);
    }
    assert(reads(s, i + 6, "("@) && reads(s, i + 7, ")"@) && reads(s, i + 8, ","@)
        && reads(s, i + 9, "{"@) && reads(s, i + 10, "serviceTierSettings"@)
        && reads(s, i + 11, ":"@) && came(s, pattern, 5, from, i + 12, last)) by {
        lemma_run_open_close_comma_brace_service_tier_settings_colon();
        let pieces = seq!["("@, ")"@, ","@, "{"@, "serviceTierSettings"@, ":"@];
        lemma_run_came(s, pattern, 4, from, i + 6, last, "( ) , { serviceTierSettings :", pieces);
        assert(pieces[0] == "("@);
        assert(pieces[1] == ")"@);
        assert(pieces[2] == ","@);
        assert(pieces[3] == "{"@);
        assert(pieces[4] == "serviceTierSettings"@);
        assert(pieces[5] == ":"@);
    }
    assert(word_at(s, i + 12, w[1]) && came(s, pattern, 6, from, i + 13, last)) by {
        lemma_word_came(s, pattern, 5, from, i + 12, last, 1);
    }
    assert(reads(s, i + 13, ","@) && reads(s, i + 14, "setServiceTier"@)
        && reads(s, i + 15, ":"@) && came(s, pattern, 7, from, i + 16, last)) by {
        lemma_run_comma_set_service_tier_colon();
        let pieces = seq![","@, "setServiceTier"@, ":"@];
        lemma_run_came(s, pattern, 6, from, i + 13, last, ", setServiceTier :", pieces);
        assert(pieces[0] == ","@);
        assert(pieces[1] == "setServiceTier"@);
        assert(pieces[2] == ":"@);
    }
    assert(ident_at(s, i + 16) && came(s, pattern, 8, from, i + 17, last)) by {
        lemma_any_came(s, pattern, 7, from, i + 16, last);
    }
    assert(reads(s, i + 17, "}"@) && reads(s, i + 18, "="@)
        && came(s, pattern, 9, from, i + 19, last)) by {
        lemma_run_unbrace_is();
        let pieces = seq!["}"@, "="@];
        lemma_run_came(s, pattern, 8, from, i + 17, last, "} =", pieces);
        assert(pieces[0] == "}"@);
        assert(pieces[1] == "="@);
    }
    assert(ident_at(s, i + 19) && came(s, pattern, 10, from, i + 20, last)) by {
        lemma_any_came(s, pattern, 9, from, i + 19, last);
    }
    assert(reads(s, i + 20, "("@) && reads(s, i + 21, ")"@) && reads(s, i + 22, ";"@)
        && reads(s, i + 23, "if"@) && reads(s, i + 24, "("@)
        && came(s, pattern, 11, from, i + 25, last)) by {
        lemma_run_open_close_semicolon_if_open();
        let pieces = seq!["("@, ")"@, ";"@, "if"@, "("@];
        lemma_run_came(s, pattern, 10, from, i + 20, last, "( ) ; if (", pieces);
        assert(pieces[0] == "("@);
        assert(pieces[1] == ")"@);
        assert(pieces[2] == ";"@);
        assert(pieces[3] == "if"@);
        assert(pieces[4] == "("@);
    }
    assert(word_at(s, i + 25, w[1]) && came(s, pattern, 12, from, i + 26, last)) by {
        lemma_word_came(s, pattern, 11, from, i + 25, last, 1);
    }
    assert(member_at(s, i + 26, "availableOptions"@)
        && came(s, pattern, 13, from, i + 28, last)) by {
        lemma_member_came(s, pattern, 12, from, i + 26, last, "availableOptions");
    }
    assert(member_at(s, i + 28, "length"@) && came(s, pattern, 14, from, i + 30, last)) by {
        lemma_member_came(s, pattern, 13, from, i + 28, last, "length");
    }
    assert(reads(s, i + 30, "<="@) && reads(s, i + 31, "1"@) && reads(s, i + 32, ")"@)
        && reads(s, i + 33, "return"@) && reads(s, i + 34, "null"@) && reads(s, i + 35, ";"@)
        && came(s, pattern, 15, from, i + 36, last)) by {
        lemma_run_at_most_1_close_return_null_semicolon();
        let pieces = seq!["<="@, "1"@, ")"@, "return"@, "null"@, ";"@];
        lemma_run_came(s, pattern, 14, from, i + 30, last, "<= 1 ) return null ;", pieces);
        assert(pieces[0] == "<="@);
        assert(pieces[1] == "1"@);
        assert(pieces[2] == ")"@);
        assert(pieces[3] == "return"@);
        assert(pieces[4] == "null"@);
        assert(pieces[5] == ";"@);
    }
    assert(is_shown_speed_setting(s, i, w));
}

/// The allowance, which asks for the sign-in.
pub open spec fn is_allowance(s: Seq<char>, i: int, w: Seq<Seq<char>>, b: Seq<int>) -> bool {
    &&& declares_at(s, i)
    &&& reads(s, i + 1, "{"@)
    &&& reads(s, i + 2, "data"@)
    &&& reads(s, i + 3, ":"@)
    &&& word_at(s, i + 4, w[0])
    &&& reads(s, i + 5, ","@)
    &&& reads(s, i + 6, "isPending"@)
    &&& reads(s, i + 7, ":"@)
    &&& word_at(s, i + 8, w[1])
    &&& reads(s, i + 9, "}"@)
    &&& reads(s, i + 10, "="@)
    &&& ident_at(s, i + 11)
    &&& reads(s, i + 12, "("@)
    &&& ident_at(s, i + 13)
    &&& reads(s, i + 14, ","@)
    &&& ident_at(s, i + 15)
    &&& reads(s, i + 16, ")"@)
    &&& reads(s, i + 17, ","@)
    &&& word_at(s, i + 18, w[2])
    &&& reads(s, i + 19, "="@)
    &&& reads(s, i + 20, "!"@)
    &&& reads(s, i + 21, "!"@)
    &&& word_at(s, i + 22, w[3])
    &&& member_at(s, i + 23, "isLoading"@)
    &&& reads(s, i + 25, "||"@)
    &&& word_at(s, i + 26, w[4])
    &&& reads(s, i + 27, "&&"@)
    &&& word_at(s, i + 28, w[1])
    &&& reads(s, i + 29, ","@)
    &&& word_at(s, i + 30, w[5])
    &&& reads(s, i + 31, "="@)
    &&& word_at(s, i + 32, w[4])
    &&& reads(s, i + 33, "&&"@)
    &&& reads(s, i + 34, "!"@)
    &&& word_at(s, i + 35, w[2])
    &&& reads(s, i + 36, "&&"@)
    &&& word_at(s, i + 37, w[0])
    &&& null_at(s, i + 38, false)
    &&& reads(s, i + 40, "&&"@)
    &&& word_at(s, i + 41, w[0])
    &&& member_at(s, i + 42, "requirements"@)
    &&& member_at(s, i + 44, "featureRequirements"@)
    &&& member_at(s, i + 46, "fast_mode"@)
    &&& reads(s, i + 48, "!=="@)
    &&& writes_bool(s, i + 49, false, b[0])
    &&& reads(s, i + 49 + b[0], ","@)
}

proof fn lemma_allowance_steps()
    ensures
        allowance_guarded_atoms().len() == 39,
        ({
            let pattern = allowance_guarded_atoms();
            &&& pattern[0] == Atom::OneOf(&["let", "const", "var"])
            &&& pattern[1] == Atom::ExactRun("{ data :")
            &&& pattern[2] == Atom::Ident(0)
            &&& pattern[3] == Atom::ExactRun(", isPending :")
            &&& pattern[4] == Atom::Ident(1)
            &&& pattern[5] == Atom::ExactRun("} =")
            &&& pattern[6] == Atom::AnyIdent
            &&& pattern[7] == Atom::ExactRun("(")
            &&& pattern[8] == Atom::AnyIdent
            &&& pattern[9] == Atom::ExactRun(",")
            &&& pattern[10] == Atom::AnyIdent
            &&& pattern[11] == Atom::ExactRun(") ,")
            &&& pattern[12] == Atom::Ident(2)
            &&& pattern[13] == Atom::ExactRun("= ! !")
            &&& pattern[14] == Atom::Ident(3)
            &&& pattern[15] == Atom::Member("isLoading")
            &&& pattern[16] == Atom::ExactRun("||")
            &&& pattern[17] == Atom::Ident(4)
            &&& pattern[18] == Atom::ExactRun("&&")
            &&& pattern[19] == Atom::Ident(1)
            &&& pattern[20] == Atom::ExactRun(",")
            &&& pattern[21] == Atom::Ident(5)
            &&& pattern[22] == Atom::ExactRun("=")
            &&& pattern[23] == Atom::Begin(0)
            &&& pattern[24] == Atom::Ident(4)
            &&& pattern[25] == Atom::ExactRun("&& !")
            &&& pattern[26] == Atom::Ident(2)
            &&& pattern[27] == Atom::ExactRun("&&")
            &&& pattern[28] == Atom::Ident(0)
            &&& pattern[29] == Atom::NullNe
            &&& pattern[30] == Atom::ExactRun("&&")
            &&& pattern[31] == Atom::Ident(0)
            &&& pattern[32] == Atom::Member("requirements")
            &&& pattern[33] == Atom::Member("featureRequirements")
            &&& pattern[34] == Atom::Member("fast_mode")
            &&& pattern[35] == Atom::ExactRun("!==")
            &&& pattern[36] == Atom::Bool(false)
            &&& pattern[37] == Atom::End(0)
            &&& pattern[38] == Atom::ExactRun(",")
        }),
{
    reveal(allowance_guarded_atoms);
}

/// The allowance is matched wherever it stands, whatever its words are and however
/// it is written, as a whole and with its words.
pub proof fn lemma_allowance_is_found(
    s: Seq<char>,
    i: int,
    w: Seq<Seq<char>>,
    ids: Seq<Option<int>>,
    b: Seq<int>,
)
    requires
        0 <= i,
        ids.len() == 16,
        forall|slot: int|
            0 <= slot < 16 ==> (#[trigger] ids[slot] matches Some(at) ==> token_text(s, at)
                == w[slot]),
        is_allowance(s, i, w, b),
        forall|j: int| 0 <= j < b.len() ==> 1 <= #[trigger] b[j] <= 2,
        b.len() == 1,
    ensures
        ({
            &&& matched_at(s, i, allowance_guarded_atoms(), ids) matches Some(m)
            &&& so_far(s, m, i, i + 50 + b[0], w, m.spans, m.bools)
            &&& m.spans[0] == Some((i + 32, i + 49 + b[0]))
        }),
{
    lemma_allowance_steps();
    let pattern = allowance_guarded_atoms();
    let from = unmatched(i, ids);
    let spans0: Seq<Option<(int, int)>> = seq![None, None, None, None];
    let bools0: Seq<Option<bool>> = seq![None, None, None, None];
    assert(reaches(s, pattern, 0, from, i, w, spans0, bools0)) by {
        reveal(reaches);
        assert(from.spans =~= spans0);
        assert(from.bools =~= bools0);
    }
    assert(reaches(s, pattern, 1, from, i + 1, w, spans0, bools0)) by {
        let choice: int = if reads(s, i, "let"@) {
            0
        } else if reads(s, i, "const"@) {
            1
        } else {
            2
        };
        let options: &'static [&'static str] = &["let", "const", "var"];
        lemma_one_of_step(s, pattern, 0, from, i, w, spans0, bools0, options, choice);
    }
    assert(reaches(s, pattern, 2, from, i + 4, w, spans0, bools0)) by {
        lemma_run_brace_data_colon();
        let pieces = seq!["{"@, "data"@, ":"@];
        assert forall|j: int| 0 <= j < pieces.len() implies reads(
            s,
            i + 1 + j,
            #[trigger] pieces[j],
        ) by {
            assert(j == 0 || j == 1 || j == 2);
        }
        lemma_run_step(s, pattern, 1, from, i + 1, w, spans0, bools0, "{ data :", pieces);
    }
    assert(reaches(s, pattern, 3, from, i + 5, w, spans0, bools0)) by {
        lemma_word_step(s, pattern, 2, from, i + 4, w, spans0, bools0, 0);
    }
    assert(reaches(s, pattern, 4, from, i + 8, w, spans0, bools0)) by {
        lemma_run_comma_is_pending_colon();
        let pieces = seq![","@, "isPending"@, ":"@];
        assert forall|j: int| 0 <= j < pieces.len() implies reads(
            s,
            i + 5 + j,
            #[trigger] pieces[j],
        ) by {
            assert(j == 0 || j == 1 || j == 2);
        }
        lemma_run_step(s, pattern, 3, from, i + 5, w, spans0, bools0, ", isPending :", pieces);
    }
    assert(reaches(s, pattern, 5, from, i + 9, w, spans0, bools0)) by {
        lemma_word_step(s, pattern, 4, from, i + 8, w, spans0, bools0, 1);
    }
    assert(reaches(s, pattern, 6, from, i + 11, w, spans0, bools0)) by {
        lemma_run_unbrace_is();
        let pieces = seq!["}"@, "="@];
        assert forall|j: int| 0 <= j < pieces.len() implies reads(
            s,
            i + 9 + j,
            #[trigger] pieces[j],
        ) by {
            assert(j == 0 || j == 1);
        }
        lemma_run_step(s, pattern, 5, from, i + 9, w, spans0, bools0, "} =", pieces);
    }
    assert(reaches(s, pattern, 7, from, i + 12, w, spans0, bools0)) by {
        lemma_any_step(s, pattern, 6, from, i + 11, w, spans0, bools0);
    }
    assert(reaches(s, pattern, 8, from, i + 13, w, spans0, bools0)) by {
        lemma_run_open();
        let pieces = seq!["("@];
        assert forall|j: int| 0 <= j < pieces.len() implies reads(
            s,
            i + 12 + j,
            #[trigger] pieces[j],
        ) by {
            assert(j == 0);
        }
        lemma_run_step(s, pattern, 7, from, i + 12, w, spans0, bools0, "(", pieces);
    }
    assert(reaches(s, pattern, 9, from, i + 14, w, spans0, bools0)) by {
        lemma_any_step(s, pattern, 8, from, i + 13, w, spans0, bools0);
    }
    assert(reaches(s, pattern, 10, from, i + 15, w, spans0, bools0)) by {
        lemma_run_comma();
        let pieces = seq![","@];
        assert forall|j: int| 0 <= j < pieces.len() implies reads(
            s,
            i + 14 + j,
            #[trigger] pieces[j],
        ) by {
            assert(j == 0);
        }
        lemma_run_step(s, pattern, 9, from, i + 14, w, spans0, bools0, ",", pieces);
    }
    assert(reaches(s, pattern, 11, from, i + 16, w, spans0, bools0)) by {
        lemma_any_step(s, pattern, 10, from, i + 15, w, spans0, bools0);
    }
    assert(reaches(s, pattern, 12, from, i + 18, w, spans0, bools0)) by {
        lemma_run_close_comma();
        let pieces = seq![")"@, ","@];
        assert forall|j: int| 0 <= j < pieces.len() implies reads(
            s,
            i + 16 + j,
            #[trigger] pieces[j],
        ) by {
            assert(j == 0 || j == 1);
        }
        lemma_run_step(s, pattern, 11, from, i + 16, w, spans0, bools0, ") ,", pieces);
    }
    assert(reaches(s, pattern, 13, from, i + 19, w, spans0, bools0)) by {
        lemma_word_step(s, pattern, 12, from, i + 18, w, spans0, bools0, 2);
    }
    assert(reaches(s, pattern, 14, from, i + 22, w, spans0, bools0)) by {
        lemma_run_is_not_not();
        let pieces = seq!["="@, "!"@, "!"@];
        assert forall|j: int| 0 <= j < pieces.len() implies reads(
            s,
            i + 19 + j,
            #[trigger] pieces[j],
        ) by {
            assert(j == 0 || j == 1 || j == 2);
        }
        lemma_run_step(s, pattern, 13, from, i + 19, w, spans0, bools0, "= ! !", pieces);
    }
    assert(reaches(s, pattern, 15, from, i + 23, w, spans0, bools0)) by {
        lemma_word_step(s, pattern, 14, from, i + 22, w, spans0, bools0, 3);
    }
    assert(reaches(s, pattern, 16, from, i + 25, w, spans0, bools0)) by {
        lemma_member_step(s, pattern, 15, from, i + 23, w, spans0, bools0, "isLoading");
    }
    assert(reaches(s, pattern, 17, from, i + 26, w, spans0, bools0)) by {
        lemma_run_or();
        let pieces = seq!["||"@];
        assert forall|j: int| 0 <= j < pieces.len() implies reads(
            s,
            i + 25 + j,
            #[trigger] pieces[j],
        ) by {
            assert(j == 0);
        }
        lemma_run_step(s, pattern, 16, from, i + 25, w, spans0, bools0, "||", pieces);
    }
    assert(reaches(s, pattern, 18, from, i + 27, w, spans0, bools0)) by {
        lemma_word_step(s, pattern, 17, from, i + 26, w, spans0, bools0, 4);
    }
    assert(reaches(s, pattern, 19, from, i + 28, w, spans0, bools0)) by {
        lemma_run_and();
        let pieces = seq!["&&"@];
        assert forall|j: int| 0 <= j < pieces.len() implies reads(
            s,
            i + 27 + j,
            #[trigger] pieces[j],
        ) by {
            assert(j == 0);
        }
        lemma_run_step(s, pattern, 18, from, i + 27, w, spans0, bools0, "&&", pieces);
    }
    assert(reaches(s, pattern, 20, from, i + 29, w, spans0, bools0)) by {
        lemma_word_step(s, pattern, 19, from, i + 28, w, spans0, bools0, 1);
    }
    assert(reaches(s, pattern, 21, from, i + 30, w, spans0, bools0)) by {
        lemma_run_comma();
        let pieces = seq![","@];
        assert forall|j: int| 0 <= j < pieces.len() implies reads(
            s,
            i + 29 + j,
            #[trigger] pieces[j],
        ) by {
            assert(j == 0);
        }
        lemma_run_step(s, pattern, 20, from, i + 29, w, spans0, bools0, ",", pieces);
    }
    assert(reaches(s, pattern, 22, from, i + 31, w, spans0, bools0)) by {
        lemma_word_step(s, pattern, 21, from, i + 30, w, spans0, bools0, 5);
    }
    assert(reaches(s, pattern, 23, from, i + 32, w, spans0, bools0)) by {
        lemma_run_is();
        let pieces = seq!["="@];
        assert forall|j: int| 0 <= j < pieces.len() implies reads(
            s,
            i + 31 + j,
            #[trigger] pieces[j],
        ) by {
            assert(j == 0);
        }
        lemma_run_step(s, pattern, 22, from, i + 31, w, spans0, bools0, "=", pieces);
    }
    let spans1 = spans0.update(0, Some((i + 32, i + 32)));
    assert(reaches(s, pattern, 24, from, i + 32, w, spans1, bools0)) by {
        lemma_begin_step(s, pattern, 23, from, i + 32, w, spans0, bools0, 0);
    }
    assert(reaches(s, pattern, 25, from, i + 33, w, spans1, bools0)) by {
        lemma_word_step(s, pattern, 24, from, i + 32, w, spans1, bools0, 4);
    }
    assert(reaches(s, pattern, 26, from, i + 35, w, spans1, bools0)) by {
        lemma_run_and_not();
        let pieces = seq!["&&"@, "!"@];
        assert forall|j: int| 0 <= j < pieces.len() implies reads(
            s,
            i + 33 + j,
            #[trigger] pieces[j],
        ) by {
            assert(j == 0 || j == 1);
        }
        lemma_run_step(s, pattern, 25, from, i + 33, w, spans1, bools0, "&& !", pieces);
    }
    assert(reaches(s, pattern, 27, from, i + 36, w, spans1, bools0)) by {
        lemma_word_step(s, pattern, 26, from, i + 35, w, spans1, bools0, 2);
    }
    assert(reaches(s, pattern, 28, from, i + 37, w, spans1, bools0)) by {
        lemma_run_and();
        let pieces = seq!["&&"@];
        assert forall|j: int| 0 <= j < pieces.len() implies reads(
            s,
            i + 36 + j,
            #[trigger] pieces[j],
        ) by {
            assert(j == 0);
        }
        lemma_run_step(s, pattern, 27, from, i + 36, w, spans1, bools0, "&&", pieces);
    }
    assert(reaches(s, pattern, 29, from, i + 38, w, spans1, bools0)) by {
        lemma_word_step(s, pattern, 28, from, i + 37, w, spans1, bools0, 0);
    }
    assert(reaches(s, pattern, 30, from, i + 40, w, spans1, bools0)) by {
        lemma_null_step(s, pattern, 29, from, i + 38, w, spans1, bools0, false);
    }
    assert(reaches(s, pattern, 31, from, i + 41, w, spans1, bools0)) by {
        lemma_run_and();
        let pieces = seq!["&&"@];
        assert forall|j: int| 0 <= j < pieces.len() implies reads(
            s,
            i + 40 + j,
            #[trigger] pieces[j],
        ) by {
            assert(j == 0);
        }
        lemma_run_step(s, pattern, 30, from, i + 40, w, spans1, bools0, "&&", pieces);
    }
    assert(reaches(s, pattern, 32, from, i + 42, w, spans1, bools0)) by {
        lemma_word_step(s, pattern, 31, from, i + 41, w, spans1, bools0, 0);
    }
    assert(reaches(s, pattern, 33, from, i + 44, w, spans1, bools0)) by {
        lemma_member_step(s, pattern, 32, from, i + 42, w, spans1, bools0, "requirements");
    }
    assert(reaches(s, pattern, 34, from, i + 46, w, spans1, bools0)) by {
        lemma_member_step(s, pattern, 33, from, i + 44, w, spans1, bools0, "featureRequirements");
    }
    assert(reaches(s, pattern, 35, from, i + 48, w, spans1, bools0)) by {
        lemma_member_step(s, pattern, 34, from, i + 46, w, spans1, bools0, "fast_mode");
    }
    assert(reaches(s, pattern, 36, from, i + 49, w, spans1, bools0)) by {
        lemma_run_not_same();
        let pieces = seq!["!=="@];
        assert forall|j: int| 0 <= j < pieces.len() implies reads(
            s,
            i + 48 + j,
            #[trigger] pieces[j],
        ) by {
            assert(j == 0);
        }
        lemma_run_step(s, pattern, 35, from, i + 48, w, spans1, bools0, "!==", pieces);
    }
    assert(reaches(s, pattern, 37, from, i + 49 + b[0], w, spans1, bools0)) by {
        lemma_bool_step(s, pattern, 36, from, i + 49, w, spans1, bools0, false, b[0]);
    }
    let spans2 = spans1.update(0, Some((i + 32, i + 49 + b[0])));
    assert(reaches(s, pattern, 38, from, i + 49 + b[0], w, spans2, bools0)) by {
        lemma_end_step(s, pattern, 37, from, i + 49 + b[0], w, spans1, bools0, 0, i + 32);
    }
    assert(reaches(s, pattern, 39, from, i + 50 + b[0], w, spans2, bools0)) by {
        lemma_run_comma();
        let pieces = seq![","@];
        assert forall|j: int| 0 <= j < pieces.len() implies reads(
            s,
            i + 49 + b[0] + j,
            #[trigger] pieces[j],
        ) by {
            assert(j == 0);
        }
        lemma_run_step(s, pattern, 38, from, i + 49 + b[0], w, spans2, bools0, ",", pieces);
    }
    reveal(reaches);
}

/// Nothing but this is matched as such: the allowance.
pub proof fn lemma_found_is_allowance(s: Seq<char>, i: int, ids: Seq<Option<int>>)
    requires
        0 <= i,
        ids.len() == 16,
        matched_at(s, i, allowance_guarded_atoms(), ids) is Some,
    ensures
        ({
            let m = matched_at(s, i, allowance_guarded_atoms(), ids)->0;
            exists|b: Seq<int>| #[trigger] is_allowance(s, i, words_of(s, m), b)
        }),
{
    lemma_allowance_steps();
    let pattern = allowance_guarded_atoms();
    let from = unmatched(i, ids);
    let last = matched_at(s, i, pattern, ids)->0;
    let w = words_of(s, last);
    let b = Seq::<int>::empty();
    assert(came(s, pattern, 0, from, i, last)) by {
        reveal(came);
    }
    assert(declares_at(s, i) && came(s, pattern, 1, from, i + 1, last)) by {
        let options: &'static [&'static str] = &["let", "const", "var"];
        let choice = lemma_one_of_came(s, pattern, 0, from, i, last, options);
        assert(choice == 0 || choice == 1 || choice == 2);
    }
    assert(reads(s, i + 1, "{"@) && reads(s, i + 2, "data"@) && reads(s, i + 3, ":"@)
        && came(s, pattern, 2, from, i + 4, last)) by {
        lemma_run_brace_data_colon();
        let pieces = seq!["{"@, "data"@, ":"@];
        lemma_run_came(s, pattern, 1, from, i + 1, last, "{ data :", pieces);
        assert(pieces[0] == "{"@);
        assert(pieces[1] == "data"@);
        assert(pieces[2] == ":"@);
    }
    assert(word_at(s, i + 4, w[0]) && came(s, pattern, 3, from, i + 5, last)) by {
        lemma_word_came(s, pattern, 2, from, i + 4, last, 0);
    }
    assert(reads(s, i + 5, ","@) && reads(s, i + 6, "isPending"@) && reads(s, i + 7, ":"@)
        && came(s, pattern, 4, from, i + 8, last)) by {
        lemma_run_comma_is_pending_colon();
        let pieces = seq![","@, "isPending"@, ":"@];
        lemma_run_came(s, pattern, 3, from, i + 5, last, ", isPending :", pieces);
        assert(pieces[0] == ","@);
        assert(pieces[1] == "isPending"@);
        assert(pieces[2] == ":"@);
    }
    assert(word_at(s, i + 8, w[1]) && came(s, pattern, 5, from, i + 9, last)) by {
        lemma_word_came(s, pattern, 4, from, i + 8, last, 1);
    }
    assert(reads(s, i + 9, "}"@) && reads(s, i + 10, "="@)
        && came(s, pattern, 6, from, i + 11, last)) by {
        lemma_run_unbrace_is();
        let pieces = seq!["}"@, "="@];
        lemma_run_came(s, pattern, 5, from, i + 9, last, "} =", pieces);
        assert(pieces[0] == "}"@);
        assert(pieces[1] == "="@);
    }
    assert(ident_at(s, i + 11) && came(s, pattern, 7, from, i + 12, last)) by {
        lemma_any_came(s, pattern, 6, from, i + 11, last);
    }
    assert(reads(s, i + 12, "("@) && came(s, pattern, 8, from, i + 13, last)) by {
        lemma_run_open();
        let pieces = seq!["("@];
        lemma_run_came(s, pattern, 7, from, i + 12, last, "(", pieces);
        assert(pieces[0] == "("@);
    }
    assert(ident_at(s, i + 13) && came(s, pattern, 9, from, i + 14, last)) by {
        lemma_any_came(s, pattern, 8, from, i + 13, last);
    }
    assert(reads(s, i + 14, ","@) && came(s, pattern, 10, from, i + 15, last)) by {
        lemma_run_comma();
        let pieces = seq![","@];
        lemma_run_came(s, pattern, 9, from, i + 14, last, ",", pieces);
        assert(pieces[0] == ","@);
    }
    assert(ident_at(s, i + 15) && came(s, pattern, 11, from, i + 16, last)) by {
        lemma_any_came(s, pattern, 10, from, i + 15, last);
    }
    assert(reads(s, i + 16, ")"@) && reads(s, i + 17, ","@)
        && came(s, pattern, 12, from, i + 18, last)) by {
        lemma_run_close_comma();
        let pieces = seq![")"@, ","@];
        lemma_run_came(s, pattern, 11, from, i + 16, last, ") ,", pieces);
        assert(pieces[0] == ")"@);
        assert(pieces[1] == ","@);
    }
    assert(word_at(s, i + 18, w[2]) && came(s, pattern, 13, from, i + 19, last)) by {
        lemma_word_came(s, pattern, 12, from, i + 18, last, 2);
    }
    assert(reads(s, i + 19, "="@) && reads(s, i + 20, "!"@) && reads(s, i + 21, "!"@)
        && came(s, pattern, 14, from, i + 22, last)) by {
        lemma_run_is_not_not();
        let pieces = seq!["="@, "!"@, "!"@];
        lemma_run_came(s, pattern, 13, from, i + 19, last, "= ! !", pieces);
        assert(pieces[0] == "="@);
        assert(pieces[1] == "!"@);
        assert(pieces[2] == "!"@);
    }
    assert(word_at(s, i + 22, w[3]) && came(s, pattern, 15, from, i + 23, last)) by {
        lemma_word_came(s, pattern, 14, from, i + 22, last, 3);
    }
    assert(member_at(s, i + 23, "isLoading"@) && came(s, pattern, 16, from, i + 25, last)) by {
        lemma_member_came(s, pattern, 15, from, i + 23, last, "isLoading");
    }
    assert(reads(s, i + 25, "||"@) && came(s, pattern, 17, from, i + 26, last)) by {
        lemma_run_or();
        let pieces = seq!["||"@];
        lemma_run_came(s, pattern, 16, from, i + 25, last, "||", pieces);
        assert(pieces[0] == "||"@);
    }
    assert(word_at(s, i + 26, w[4]) && came(s, pattern, 18, from, i + 27, last)) by {
        lemma_word_came(s, pattern, 17, from, i + 26, last, 4);
    }
    assert(reads(s, i + 27, "&&"@) && came(s, pattern, 19, from, i + 28, last)) by {
        lemma_run_and();
        let pieces = seq!["&&"@];
        lemma_run_came(s, pattern, 18, from, i + 27, last, "&&", pieces);
        assert(pieces[0] == "&&"@);
    }
    assert(word_at(s, i + 28, w[1]) && came(s, pattern, 20, from, i + 29, last)) by {
        lemma_word_came(s, pattern, 19, from, i + 28, last, 1);
    }
    assert(reads(s, i + 29, ","@) && came(s, pattern, 21, from, i + 30, last)) by {
        lemma_run_comma();
        let pieces = seq![","@];
        lemma_run_came(s, pattern, 20, from, i + 29, last, ",", pieces);
        assert(pieces[0] == ","@);
    }
    assert(word_at(s, i + 30, w[5]) && came(s, pattern, 22, from, i + 31, last)) by {
        lemma_word_came(s, pattern, 21, from, i + 30, last, 5);
    }
    assert(reads(s, i + 31, "="@) && came(s, pattern, 23, from, i + 32, last)) by {
        lemma_run_is();
        let pieces = seq!["="@];
        lemma_run_came(s, pattern, 22, from, i + 31, last, "=", pieces);
        assert(pieces[0] == "="@);
    }
    assert(came(s, pattern, 24, from, i + 32, last)) by {
        lemma_begin_came(s, pattern, 23, from, i + 32, last, 0);
    }
    assert(word_at(s, i + 32, w[4]) && came(s, pattern, 25, from, i + 33, last)) by {
        lemma_word_came(s, pattern, 24, from, i + 32, last, 4);
    }
    assert(reads(s, i + 33, "&&"@) && reads(s, i + 34, "!"@)
        && came(s, pattern, 26, from, i + 35, last)) by {
        lemma_run_and_not();
        let pieces = seq!["&&"@, "!"@];
        lemma_run_came(s, pattern, 25, from, i + 33, last, "&& !", pieces);
        assert(pieces[0] == "&&"@);
        assert(pieces[1] == "!"@);
    }
    assert(word_at(s, i + 35, w[2]) && came(s, pattern, 27, from, i + 36, last)) by {
        lemma_word_came(s, pattern, 26, from, i + 35, last, 2);
    }
    assert(reads(s, i + 36, "&&"@) && came(s, pattern, 28, from, i + 37, last)) by {
        lemma_run_and();
        let pieces = seq!["&&"@];
        lemma_run_came(s, pattern, 27, from, i + 36, last, "&&", pieces);
        assert(pieces[0] == "&&"@);
    }
    assert(word_at(s, i + 37, w[0]) && came(s, pattern, 29, from, i + 38, last)) by {
        lemma_word_came(s, pattern, 28, from, i + 37, last, 0);
    }
    assert(null_at(s, i + 38, false) && came(s, pattern, 30, from, i + 40, last)) by {
        lemma_null_came(s, pattern, 29, from, i + 38, last, false);
    }
    assert(reads(s, i + 40, "&&"@) && came(s, pattern, 31, from, i + 41, last)) by {
        lemma_run_and();
        let pieces = seq!["&&"@];
        lemma_run_came(s, pattern, 30, from, i + 40, last, "&&", pieces);
        assert(pieces[0] == "&&"@);
    }
    assert(word_at(s, i + 41, w[0]) && came(s, pattern, 32, from, i + 42, last)) by {
        lemma_word_came(s, pattern, 31, from, i + 41, last, 0);
    }
    assert(member_at(s, i + 42, "requirements"@) && came(s, pattern, 33, from, i + 44, last)) by {
        lemma_member_came(s, pattern, 32, from, i + 42, last, "requirements");
    }
    assert(member_at(s, i + 44, "featureRequirements"@)
        && came(s, pattern, 34, from, i + 46, last)) by {
        lemma_member_came(s, pattern, 33, from, i + 44, last, "featureRequirements");
    }
    assert(member_at(s, i + 46, "fast_mode"@) && came(s, pattern, 35, from, i + 48, last)) by {
        lemma_member_came(s, pattern, 34, from, i + 46, last, "fast_mode");
    }
    assert(reads(s, i + 48, "!=="@) && came(s, pattern, 36, from, i + 49, last)) by {
        lemma_run_not_same();
        let pieces = seq!["!=="@];
        lemma_run_came(s, pattern, 35, from, i + 48, last, "!==", pieces);
        assert(pieces[0] == "!=="@);
    }
    let count0 = lemma_bool_came(s, pattern, 36, from, i + 49, last, false);
    let b = b.push(count0);
    assert(b[0] == count0);
    assert(came(s, pattern, 38, from, i + 49 + b[0], last)) by {
        lemma_end_came(s, pattern, 37, from, i + 49 + b[0], last, 0);
    }
    assert(reads(s, i + 49 + b[0], ","@) && came(s, pattern, 39, from, i + 50 + b[0], last)) by {
        lemma_run_comma();
        let pieces = seq![","@];
        lemma_run_came(s, pattern, 38, from, i + 49 + b[0], last, ",", pieces);
        assert(pieces[0] == ","@);
    }
    assert(is_allowance(s, i, w, b));
}

/// The allowance, which asks only what the requirements say of a sign-in.
pub open spec fn is_free_allowance(s: Seq<char>, i: int, w: Seq<Seq<char>>, b: Seq<int>) -> bool {
    &&& declares_at(s, i)
    &&& reads(s, i + 1, "{"@)
    &&& reads(s, i + 2, "data"@)
    &&& reads(s, i + 3, ":"@)
    &&& word_at(s, i + 4, w[0])
    &&& reads(s, i + 5, ","@)
    &&& reads(s, i + 6, "isPending"@)
    &&& reads(s, i + 7, ":"@)
    &&& word_at(s, i + 8, w[1])
    &&& reads(s, i + 9, "}"@)
    &&& reads(s, i + 10, "="@)
    &&& ident_at(s, i + 11)
    &&& reads(s, i + 12, "("@)
    &&& ident_at(s, i + 13)
    &&& reads(s, i + 14, ","@)
    &&& ident_at(s, i + 15)
    &&& reads(s, i + 16, ")"@)
    &&& reads(s, i + 17, ","@)
    &&& word_at(s, i + 18, w[2])
    &&& reads(s, i + 19, "="@)
    &&& reads(s, i + 20, "!"@)
    &&& reads(s, i + 21, "!"@)
    &&& word_at(s, i + 22, w[3])
    &&& member_at(s, i + 23, "isLoading"@)
    &&& reads(s, i + 25, "||"@)
    &&& word_at(s, i + 26, w[4])
    &&& reads(s, i + 27, "&&"@)
    &&& word_at(s, i + 28, w[1])
    &&& reads(s, i + 29, ","@)
    &&& word_at(s, i + 30, w[5])
    &&& reads(s, i + 31, "="@)
    &&& reads(s, i + 32, "!"@)
    &&& word_at(s, i + 33, w[2])
    &&& reads(s, i + 34, "&&"@)
    &&& reads(s, i + 35, "("@)
    &&& word_at(s, i + 36, w[4])
    &&& reads(s, i + 37, "?"@)
    &&& word_at(s, i + 38, w[0])
    &&& null_at(s, i + 39, false)
    &&& reads(s, i + 41, "&&"@)
    &&& word_at(s, i + 42, w[0])
    &&& member_at(s, i + 43, "requirements"@)
    &&& member_at(s, i + 45, "featureRequirements"@)
    &&& member_at(s, i + 47, "fast_mode"@)
    &&& reads(s, i + 49, "!=="@)
    &&& writes_bool(s, i + 50, false, b[0])
    &&& reads(s, i + 50 + b[0], ":"@)
    &&& writes_bool(s, i + 51 + b[0], true, b[1])
    &&& reads(s, i + 51 + b[0] + b[1], ")"@)
    &&& reads(s, i + 52 + b[0] + b[1], ","@)
}

proof fn lemma_free_allowance_steps()
    ensures
        allowance_patched_atoms().len() == 39,
        ({
            let pattern = allowance_patched_atoms();
            &&& pattern[0] == Atom::OneOf(&["let", "const", "var"])
            &&& pattern[1] == Atom::ExactRun("{ data :")
            &&& pattern[2] == Atom::Ident(0)
            &&& pattern[3] == Atom::ExactRun(", isPending :")
            &&& pattern[4] == Atom::Ident(1)
            &&& pattern[5] == Atom::ExactRun("} =")
            &&& pattern[6] == Atom::AnyIdent
            &&& pattern[7] == Atom::ExactRun("(")
            &&& pattern[8] == Atom::AnyIdent
            &&& pattern[9] == Atom::ExactRun(",")
            &&& pattern[10] == Atom::AnyIdent
            &&& pattern[11] == Atom::ExactRun(") ,")
            &&& pattern[12] == Atom::Ident(2)
            &&& pattern[13] == Atom::ExactRun("= ! !")
            &&& pattern[14] == Atom::Ident(3)
            &&& pattern[15] == Atom::Member("isLoading")
            &&& pattern[16] == Atom::ExactRun("||")
            &&& pattern[17] == Atom::Ident(4)
            &&& pattern[18] == Atom::ExactRun("&&")
            &&& pattern[19] == Atom::Ident(1)
            &&& pattern[20] == Atom::ExactRun(",")
            &&& pattern[21] == Atom::Ident(5)
            &&& pattern[22] == Atom::ExactRun("= !")
            &&& pattern[23] == Atom::Ident(2)
            &&& pattern[24] == Atom::ExactRun("&& (")
            &&& pattern[25] == Atom::Ident(4)
            &&& pattern[26] == Atom::ExactRun("?")
            &&& pattern[27] == Atom::Ident(0)
            &&& pattern[28] == Atom::NullNe
            &&& pattern[29] == Atom::ExactRun("&&")
            &&& pattern[30] == Atom::Ident(0)
            &&& pattern[31] == Atom::Member("requirements")
            &&& pattern[32] == Atom::Member("featureRequirements")
            &&& pattern[33] == Atom::Member("fast_mode")
            &&& pattern[34] == Atom::ExactRun("!==")
            &&& pattern[35] == Atom::Bool(false)
            &&& pattern[36] == Atom::ExactRun(":")
            &&& pattern[37] == Atom::Bool(true)
            &&& pattern[38] == Atom::ExactRun(") ,")
        }),
{
    reveal(allowance_patched_atoms);
}

/// The allowance is matched wherever it stands, whatever its words are and however
/// it is written, as a whole and with its words.
pub proof fn lemma_free_allowance_is_found(
    s: Seq<char>,
    i: int,
    w: Seq<Seq<char>>,
    ids: Seq<Option<int>>,
    b: Seq<int>,
)
    requires
        0 <= i,
        ids.len() == 16,
        forall|slot: int|
            0 <= slot < 16 ==> (#[trigger] ids[slot] matches Some(at) ==> token_text(s, at)
                == w[slot]),
        is_free_allowance(s, i, w, b),
        forall|j: int| 0 <= j < b.len() ==> 1 <= #[trigger] b[j] <= 2,
        b.len() == 2,
    ensures
        ({
            &&& matched_at(s, i, allowance_patched_atoms(), ids) matches Some(m)
            &&& so_far(s, m, i, i + 53 + b[0] + b[1], w, m.spans, m.bools)
        }),
{
    lemma_free_allowance_steps();
    let pattern = allowance_patched_atoms();
    let from = unmatched(i, ids);
    let spans0: Seq<Option<(int, int)>> = seq![None, None, None, None];
    let bools0: Seq<Option<bool>> = seq![None, None, None, None];
    assert(reaches(s, pattern, 0, from, i, w, spans0, bools0)) by {
        reveal(reaches);
        assert(from.spans =~= spans0);
        assert(from.bools =~= bools0);
    }
    assert(reaches(s, pattern, 1, from, i + 1, w, spans0, bools0)) by {
        let choice: int = if reads(s, i, "let"@) {
            0
        } else if reads(s, i, "const"@) {
            1
        } else {
            2
        };
        let options: &'static [&'static str] = &["let", "const", "var"];
        lemma_one_of_step(s, pattern, 0, from, i, w, spans0, bools0, options, choice);
    }
    assert(reaches(s, pattern, 2, from, i + 4, w, spans0, bools0)) by {
        lemma_run_brace_data_colon();
        let pieces = seq!["{"@, "data"@, ":"@];
        assert forall|j: int| 0 <= j < pieces.len() implies reads(
            s,
            i + 1 + j,
            #[trigger] pieces[j],
        ) by {
            assert(j == 0 || j == 1 || j == 2);
        }
        lemma_run_step(s, pattern, 1, from, i + 1, w, spans0, bools0, "{ data :", pieces);
    }
    assert(reaches(s, pattern, 3, from, i + 5, w, spans0, bools0)) by {
        lemma_word_step(s, pattern, 2, from, i + 4, w, spans0, bools0, 0);
    }
    assert(reaches(s, pattern, 4, from, i + 8, w, spans0, bools0)) by {
        lemma_run_comma_is_pending_colon();
        let pieces = seq![","@, "isPending"@, ":"@];
        assert forall|j: int| 0 <= j < pieces.len() implies reads(
            s,
            i + 5 + j,
            #[trigger] pieces[j],
        ) by {
            assert(j == 0 || j == 1 || j == 2);
        }
        lemma_run_step(s, pattern, 3, from, i + 5, w, spans0, bools0, ", isPending :", pieces);
    }
    assert(reaches(s, pattern, 5, from, i + 9, w, spans0, bools0)) by {
        lemma_word_step(s, pattern, 4, from, i + 8, w, spans0, bools0, 1);
    }
    assert(reaches(s, pattern, 6, from, i + 11, w, spans0, bools0)) by {
        lemma_run_unbrace_is();
        let pieces = seq!["}"@, "="@];
        assert forall|j: int| 0 <= j < pieces.len() implies reads(
            s,
            i + 9 + j,
            #[trigger] pieces[j],
        ) by {
            assert(j == 0 || j == 1);
        }
        lemma_run_step(s, pattern, 5, from, i + 9, w, spans0, bools0, "} =", pieces);
    }
    assert(reaches(s, pattern, 7, from, i + 12, w, spans0, bools0)) by {
        lemma_any_step(s, pattern, 6, from, i + 11, w, spans0, bools0);
    }
    assert(reaches(s, pattern, 8, from, i + 13, w, spans0, bools0)) by {
        lemma_run_open();
        let pieces = seq!["("@];
        assert forall|j: int| 0 <= j < pieces.len() implies reads(
            s,
            i + 12 + j,
            #[trigger] pieces[j],
        ) by {
            assert(j == 0);
        }
        lemma_run_step(s, pattern, 7, from, i + 12, w, spans0, bools0, "(", pieces);
    }
    assert(reaches(s, pattern, 9, from, i + 14, w, spans0, bools0)) by {
        lemma_any_step(s, pattern, 8, from, i + 13, w, spans0, bools0);
    }
    assert(reaches(s, pattern, 10, from, i + 15, w, spans0, bools0)) by {
        lemma_run_comma();
        let pieces = seq![","@];
        assert forall|j: int| 0 <= j < pieces.len() implies reads(
            s,
            i + 14 + j,
            #[trigger] pieces[j],
        ) by {
            assert(j == 0);
        }
        lemma_run_step(s, pattern, 9, from, i + 14, w, spans0, bools0, ",", pieces);
    }
    assert(reaches(s, pattern, 11, from, i + 16, w, spans0, bools0)) by {
        lemma_any_step(s, pattern, 10, from, i + 15, w, spans0, bools0);
    }
    assert(reaches(s, pattern, 12, from, i + 18, w, spans0, bools0)) by {
        lemma_run_close_comma();
        let pieces = seq![")"@, ","@];
        assert forall|j: int| 0 <= j < pieces.len() implies reads(
            s,
            i + 16 + j,
            #[trigger] pieces[j],
        ) by {
            assert(j == 0 || j == 1);
        }
        lemma_run_step(s, pattern, 11, from, i + 16, w, spans0, bools0, ") ,", pieces);
    }
    assert(reaches(s, pattern, 13, from, i + 19, w, spans0, bools0)) by {
        lemma_word_step(s, pattern, 12, from, i + 18, w, spans0, bools0, 2);
    }
    assert(reaches(s, pattern, 14, from, i + 22, w, spans0, bools0)) by {
        lemma_run_is_not_not();
        let pieces = seq!["="@, "!"@, "!"@];
        assert forall|j: int| 0 <= j < pieces.len() implies reads(
            s,
            i + 19 + j,
            #[trigger] pieces[j],
        ) by {
            assert(j == 0 || j == 1 || j == 2);
        }
        lemma_run_step(s, pattern, 13, from, i + 19, w, spans0, bools0, "= ! !", pieces);
    }
    assert(reaches(s, pattern, 15, from, i + 23, w, spans0, bools0)) by {
        lemma_word_step(s, pattern, 14, from, i + 22, w, spans0, bools0, 3);
    }
    assert(reaches(s, pattern, 16, from, i + 25, w, spans0, bools0)) by {
        lemma_member_step(s, pattern, 15, from, i + 23, w, spans0, bools0, "isLoading");
    }
    assert(reaches(s, pattern, 17, from, i + 26, w, spans0, bools0)) by {
        lemma_run_or();
        let pieces = seq!["||"@];
        assert forall|j: int| 0 <= j < pieces.len() implies reads(
            s,
            i + 25 + j,
            #[trigger] pieces[j],
        ) by {
            assert(j == 0);
        }
        lemma_run_step(s, pattern, 16, from, i + 25, w, spans0, bools0, "||", pieces);
    }
    assert(reaches(s, pattern, 18, from, i + 27, w, spans0, bools0)) by {
        lemma_word_step(s, pattern, 17, from, i + 26, w, spans0, bools0, 4);
    }
    assert(reaches(s, pattern, 19, from, i + 28, w, spans0, bools0)) by {
        lemma_run_and();
        let pieces = seq!["&&"@];
        assert forall|j: int| 0 <= j < pieces.len() implies reads(
            s,
            i + 27 + j,
            #[trigger] pieces[j],
        ) by {
            assert(j == 0);
        }
        lemma_run_step(s, pattern, 18, from, i + 27, w, spans0, bools0, "&&", pieces);
    }
    assert(reaches(s, pattern, 20, from, i + 29, w, spans0, bools0)) by {
        lemma_word_step(s, pattern, 19, from, i + 28, w, spans0, bools0, 1);
    }
    assert(reaches(s, pattern, 21, from, i + 30, w, spans0, bools0)) by {
        lemma_run_comma();
        let pieces = seq![","@];
        assert forall|j: int| 0 <= j < pieces.len() implies reads(
            s,
            i + 29 + j,
            #[trigger] pieces[j],
        ) by {
            assert(j == 0);
        }
        lemma_run_step(s, pattern, 20, from, i + 29, w, spans0, bools0, ",", pieces);
    }
    assert(reaches(s, pattern, 22, from, i + 31, w, spans0, bools0)) by {
        lemma_word_step(s, pattern, 21, from, i + 30, w, spans0, bools0, 5);
    }
    assert(reaches(s, pattern, 23, from, i + 33, w, spans0, bools0)) by {
        lemma_run_is_not();
        let pieces = seq!["="@, "!"@];
        assert forall|j: int| 0 <= j < pieces.len() implies reads(
            s,
            i + 31 + j,
            #[trigger] pieces[j],
        ) by {
            assert(j == 0 || j == 1);
        }
        lemma_run_step(s, pattern, 22, from, i + 31, w, spans0, bools0, "= !", pieces);
    }
    assert(reaches(s, pattern, 24, from, i + 34, w, spans0, bools0)) by {
        lemma_word_step(s, pattern, 23, from, i + 33, w, spans0, bools0, 2);
    }
    assert(reaches(s, pattern, 25, from, i + 36, w, spans0, bools0)) by {
        lemma_run_and_open();
        let pieces = seq!["&&"@, "("@];
        assert forall|j: int| 0 <= j < pieces.len() implies reads(
            s,
            i + 34 + j,
            #[trigger] pieces[j],
        ) by {
            assert(j == 0 || j == 1);
        }
        lemma_run_step(s, pattern, 24, from, i + 34, w, spans0, bools0, "&& (", pieces);
    }
    assert(reaches(s, pattern, 26, from, i + 37, w, spans0, bools0)) by {
        lemma_word_step(s, pattern, 25, from, i + 36, w, spans0, bools0, 4);
    }
    assert(reaches(s, pattern, 27, from, i + 38, w, spans0, bools0)) by {
        lemma_run_choice();
        let pieces = seq!["?"@];
        assert forall|j: int| 0 <= j < pieces.len() implies reads(
            s,
            i + 37 + j,
            #[trigger] pieces[j],
        ) by {
            assert(j == 0);
        }
        lemma_run_step(s, pattern, 26, from, i + 37, w, spans0, bools0, "?", pieces);
    }
    assert(reaches(s, pattern, 28, from, i + 39, w, spans0, bools0)) by {
        lemma_word_step(s, pattern, 27, from, i + 38, w, spans0, bools0, 0);
    }
    assert(reaches(s, pattern, 29, from, i + 41, w, spans0, bools0)) by {
        lemma_null_step(s, pattern, 28, from, i + 39, w, spans0, bools0, false);
    }
    assert(reaches(s, pattern, 30, from, i + 42, w, spans0, bools0)) by {
        lemma_run_and();
        let pieces = seq!["&&"@];
        assert forall|j: int| 0 <= j < pieces.len() implies reads(
            s,
            i + 41 + j,
            #[trigger] pieces[j],
        ) by {
            assert(j == 0);
        }
        lemma_run_step(s, pattern, 29, from, i + 41, w, spans0, bools0, "&&", pieces);
    }
    assert(reaches(s, pattern, 31, from, i + 43, w, spans0, bools0)) by {
        lemma_word_step(s, pattern, 30, from, i + 42, w, spans0, bools0, 0);
    }
    assert(reaches(s, pattern, 32, from, i + 45, w, spans0, bools0)) by {
        lemma_member_step(s, pattern, 31, from, i + 43, w, spans0, bools0, "requirements");
    }
    assert(reaches(s, pattern, 33, from, i + 47, w, spans0, bools0)) by {
        lemma_member_step(s, pattern, 32, from, i + 45, w, spans0, bools0, "featureRequirements");
    }
    assert(reaches(s, pattern, 34, from, i + 49, w, spans0, bools0)) by {
        lemma_member_step(s, pattern, 33, from, i + 47, w, spans0, bools0, "fast_mode");
    }
    assert(reaches(s, pattern, 35, from, i + 50, w, spans0, bools0)) by {
        lemma_run_not_same();
        let pieces = seq!["!=="@];
        assert forall|j: int| 0 <= j < pieces.len() implies reads(
            s,
            i + 49 + j,
            #[trigger] pieces[j],
        ) by {
            assert(j == 0);
        }
        lemma_run_step(s, pattern, 34, from, i + 49, w, spans0, bools0, "!==", pieces);
    }
    assert(reaches(s, pattern, 36, from, i + 50 + b[0], w, spans0, bools0)) by {
        lemma_bool_step(s, pattern, 35, from, i + 50, w, spans0, bools0, false, b[0]);
    }
    assert(reaches(s, pattern, 37, from, i + 51 + b[0], w, spans0, bools0)) by {
        lemma_run_colon();
        let pieces = seq![":"@];
        assert forall|j: int| 0 <= j < pieces.len() implies reads(
            s,
            i + 50 + b[0] + j,
            #[trigger] pieces[j],
        ) by {
            assert(j == 0);
        }
        lemma_run_step(s, pattern, 36, from, i + 50 + b[0], w, spans0, bools0, ":", pieces);
    }
    assert(reaches(s, pattern, 38, from, i + 51 + b[0] + b[1], w, spans0, bools0)) by {
        lemma_bool_step(s, pattern, 37, from, i + 51 + b[0], w, spans0, bools0, true, b[1]);
    }
    assert(reaches(s, pattern, 39, from, i + 53 + b[0] + b[1], w, spans0, bools0)) by {
        lemma_run_close_comma();
        let pieces = seq![")"@, ","@];
        assert forall|j: int| 0 <= j < pieces.len() implies reads(
            s,
            i + 51 + b[0] + b[1] + j,
            #[trigger] pieces[j],
        ) by {
            assert(j == 0 || j == 1);
        }
        lemma_run_step(
            s, pattern, 38, from, i + 51 + b[0] + b[1], w, spans0, bools0, ") ,", pieces,
        );
    }
    reveal(reaches);
}

/// Nothing but this is matched as such: the allowance.
pub proof fn lemma_found_is_free_allowance(s: Seq<char>, i: int, ids: Seq<Option<int>>)
    requires
        0 <= i,
        ids.len() == 16,
        matched_at(s, i, allowance_patched_atoms(), ids) is Some,
    ensures
        ({
            let m = matched_at(s, i, allowance_patched_atoms(), ids)->0;
            exists|b: Seq<int>| #[trigger] is_free_allowance(s, i, words_of(s, m), b)
        }),
{
    lemma_free_allowance_steps();
    let pattern = allowance_patched_atoms();
    let from = unmatched(i, ids);
    let last = matched_at(s, i, pattern, ids)->0;
    let w = words_of(s, last);
    let b = Seq::<int>::empty();
    assert(came(s, pattern, 0, from, i, last)) by {
        reveal(came);
    }
    assert(declares_at(s, i) && came(s, pattern, 1, from, i + 1, last)) by {
        let options: &'static [&'static str] = &["let", "const", "var"];
        let choice = lemma_one_of_came(s, pattern, 0, from, i, last, options);
        assert(choice == 0 || choice == 1 || choice == 2);
    }
    assert(reads(s, i + 1, "{"@) && reads(s, i + 2, "data"@) && reads(s, i + 3, ":"@)
        && came(s, pattern, 2, from, i + 4, last)) by {
        lemma_run_brace_data_colon();
        let pieces = seq!["{"@, "data"@, ":"@];
        lemma_run_came(s, pattern, 1, from, i + 1, last, "{ data :", pieces);
        assert(pieces[0] == "{"@);
        assert(pieces[1] == "data"@);
        assert(pieces[2] == ":"@);
    }
    assert(word_at(s, i + 4, w[0]) && came(s, pattern, 3, from, i + 5, last)) by {
        lemma_word_came(s, pattern, 2, from, i + 4, last, 0);
    }
    assert(reads(s, i + 5, ","@) && reads(s, i + 6, "isPending"@) && reads(s, i + 7, ":"@)
        && came(s, pattern, 4, from, i + 8, last)) by {
        lemma_run_comma_is_pending_colon();
        let pieces = seq![","@, "isPending"@, ":"@];
        lemma_run_came(s, pattern, 3, from, i + 5, last, ", isPending :", pieces);
        assert(pieces[0] == ","@);
        assert(pieces[1] == "isPending"@);
        assert(pieces[2] == ":"@);
    }
    assert(word_at(s, i + 8, w[1]) && came(s, pattern, 5, from, i + 9, last)) by {
        lemma_word_came(s, pattern, 4, from, i + 8, last, 1);
    }
    assert(reads(s, i + 9, "}"@) && reads(s, i + 10, "="@)
        && came(s, pattern, 6, from, i + 11, last)) by {
        lemma_run_unbrace_is();
        let pieces = seq!["}"@, "="@];
        lemma_run_came(s, pattern, 5, from, i + 9, last, "} =", pieces);
        assert(pieces[0] == "}"@);
        assert(pieces[1] == "="@);
    }
    assert(ident_at(s, i + 11) && came(s, pattern, 7, from, i + 12, last)) by {
        lemma_any_came(s, pattern, 6, from, i + 11, last);
    }
    assert(reads(s, i + 12, "("@) && came(s, pattern, 8, from, i + 13, last)) by {
        lemma_run_open();
        let pieces = seq!["("@];
        lemma_run_came(s, pattern, 7, from, i + 12, last, "(", pieces);
        assert(pieces[0] == "("@);
    }
    assert(ident_at(s, i + 13) && came(s, pattern, 9, from, i + 14, last)) by {
        lemma_any_came(s, pattern, 8, from, i + 13, last);
    }
    assert(reads(s, i + 14, ","@) && came(s, pattern, 10, from, i + 15, last)) by {
        lemma_run_comma();
        let pieces = seq![","@];
        lemma_run_came(s, pattern, 9, from, i + 14, last, ",", pieces);
        assert(pieces[0] == ","@);
    }
    assert(ident_at(s, i + 15) && came(s, pattern, 11, from, i + 16, last)) by {
        lemma_any_came(s, pattern, 10, from, i + 15, last);
    }
    assert(reads(s, i + 16, ")"@) && reads(s, i + 17, ","@)
        && came(s, pattern, 12, from, i + 18, last)) by {
        lemma_run_close_comma();
        let pieces = seq![")"@, ","@];
        lemma_run_came(s, pattern, 11, from, i + 16, last, ") ,", pieces);
        assert(pieces[0] == ")"@);
        assert(pieces[1] == ","@);
    }
    assert(word_at(s, i + 18, w[2]) && came(s, pattern, 13, from, i + 19, last)) by {
        lemma_word_came(s, pattern, 12, from, i + 18, last, 2);
    }
    assert(reads(s, i + 19, "="@) && reads(s, i + 20, "!"@) && reads(s, i + 21, "!"@)
        && came(s, pattern, 14, from, i + 22, last)) by {
        lemma_run_is_not_not();
        let pieces = seq!["="@, "!"@, "!"@];
        lemma_run_came(s, pattern, 13, from, i + 19, last, "= ! !", pieces);
        assert(pieces[0] == "="@);
        assert(pieces[1] == "!"@);
        assert(pieces[2] == "!"@);
    }
    assert(word_at(s, i + 22, w[3]) && came(s, pattern, 15, from, i + 23, last)) by {
        lemma_word_came(s, pattern, 14, from, i + 22, last, 3);
    }
    assert(member_at(s, i + 23, "isLoading"@) && came(s, pattern, 16, from, i + 25, last)) by {
        lemma_member_came(s, pattern, 15, from, i + 23, last, "isLoading");
    }
    assert(reads(s, i + 25, "||"@) && came(s, pattern, 17, from, i + 26, last)) by {
        lemma_run_or();
        let pieces = seq!["||"@];
        lemma_run_came(s, pattern, 16, from, i + 25, last, "||", pieces);
        assert(pieces[0] == "||"@);
    }
    assert(word_at(s, i + 26, w[4]) && came(s, pattern, 18, from, i + 27, last)) by {
        lemma_word_came(s, pattern, 17, from, i + 26, last, 4);
    }
    assert(reads(s, i + 27, "&&"@) && came(s, pattern, 19, from, i + 28, last)) by {
        lemma_run_and();
        let pieces = seq!["&&"@];
        lemma_run_came(s, pattern, 18, from, i + 27, last, "&&", pieces);
        assert(pieces[0] == "&&"@);
    }
    assert(word_at(s, i + 28, w[1]) && came(s, pattern, 20, from, i + 29, last)) by {
        lemma_word_came(s, pattern, 19, from, i + 28, last, 1);
    }
    assert(reads(s, i + 29, ","@) && came(s, pattern, 21, from, i + 30, last)) by {
        lemma_run_comma();
        let pieces = seq![","@];
        lemma_run_came(s, pattern, 20, from, i + 29, last, ",", pieces);
        assert(pieces[0] == ","@);
    }
    assert(word_at(s, i + 30, w[5]) && came(s, pattern, 22, from, i + 31, last)) by {
        lemma_word_came(s, pattern, 21, from, i + 30, last, 5);
    }
    assert(reads(s, i + 31, "="@) && reads(s, i + 32, "!"@)
        && came(s, pattern, 23, from, i + 33, last)) by {
        lemma_run_is_not();
        let pieces = seq!["="@, "!"@];
        lemma_run_came(s, pattern, 22, from, i + 31, last, "= !", pieces);
        assert(pieces[0] == "="@);
        assert(pieces[1] == "!"@);
    }
    assert(word_at(s, i + 33, w[2]) && came(s, pattern, 24, from, i + 34, last)) by {
        lemma_word_came(s, pattern, 23, from, i + 33, last, 2);
    }
    assert(reads(s, i + 34, "&&"@) && reads(s, i + 35, "("@)
        && came(s, pattern, 25, from, i + 36, last)) by {
        lemma_run_and_open();
        let pieces = seq!["&&"@, "("@];
        lemma_run_came(s, pattern, 24, from, i + 34, last, "&& (", pieces);
        assert(pieces[0] == "&&"@);
        assert(pieces[1] == "("@);
    }
    assert(word_at(s, i + 36, w[4]) && came(s, pattern, 26, from, i + 37, last)) by {
        lemma_word_came(s, pattern, 25, from, i + 36, last, 4);
    }
    assert(reads(s, i + 37, "?"@) && came(s, pattern, 27, from, i + 38, last)) by {
        lemma_run_choice();
        let pieces = seq!["?"@];
        lemma_run_came(s, pattern, 26, from, i + 37, last, "?", pieces);
        assert(pieces[0] == "?"@);
    }
    assert(word_at(s, i + 38, w[0]) && came(s, pattern, 28, from, i + 39, last)) by {
        lemma_word_came(s, pattern, 27, from, i + 38, last, 0);
    }
    assert(null_at(s, i + 39, false) && came(s, pattern, 29, from, i + 41, last)) by {
        lemma_null_came(s, pattern, 28, from, i + 39, last, false);
    }
    assert(reads(s, i + 41, "&&"@) && came(s, pattern, 30, from, i + 42, last)) by {
        lemma_run_and();
        let pieces = seq!["&&"@];
        lemma_run_came(s, pattern, 29, from, i + 41, last, "&&", pieces);
        assert(pieces[0] == "&&"@);
    }
    assert(word_at(s, i + 42, w[0]) && came(s, pattern, 31, from, i + 43, last)) by {
        lemma_word_came(s, pattern, 30, from, i + 42, last, 0);
    }
    assert(member_at(s, i + 43, "requirements"@) && came(s, pattern, 32, from, i + 45, last)) by {
        lemma_member_came(s, pattern, 31, from, i + 43, last, "requirements");
    }
    assert(member_at(s, i + 45, "featureRequirements"@)
        && came(s, pattern, 33, from, i + 47, last)) by {
        lemma_member_came(s, pattern, 32, from, i + 45, last, "featureRequirements");
    }
    assert(member_at(s, i + 47, "fast_mode"@) && came(s, pattern, 34, from, i + 49, last)) by {
        lemma_member_came(s, pattern, 33, from, i + 47, last, "fast_mode");
    }
    assert(reads(s, i + 49, "!=="@) && came(s, pattern, 35, from, i + 50, last)) by {
        lemma_run_not_same();
        let pieces = seq!["!=="@];
        lemma_run_came(s, pattern, 34, from, i + 49, last, "!==", pieces);
        assert(pieces[0] == "!=="@);
    }
    let count0 = lemma_bool_came(s, pattern, 35, from, i + 50, last, false);
    let b = b.push(count0);
    assert(b[0] == count0);
    assert(reads(s, i + 50 + b[0], ":"@) && came(s, pattern, 37, from, i + 51 + b[0], last)) by {
        lemma_run_colon();
        let pieces = seq![":"@];
        lemma_run_came(s, pattern, 36, from, i + 50 + b[0], last, ":", pieces);
        assert(pieces[0] == ":"@);
    }
    let count1 = lemma_bool_came(s, pattern, 37, from, i + 51 + b[0], last, true);
    let b = b.push(count1);
    assert(b[0] == count0 && b[1] == count1);
    assert(reads(s, i + 51 + b[0] + b[1], ")"@) && reads(s, i + 52 + b[0] + b[1], ","@)
        && came(s, pattern, 39, from, i + 53 + b[0] + b[1], last)) by {
        lemma_run_close_comma();
        let pieces = seq![")"@, ","@];
        lemma_run_came(s, pattern, 38, from, i + 51 + b[0] + b[1], last, ") ,", pieces);
        assert(pieces[0] == ")"@);
        assert(pieces[1] == ","@);
    }
    assert(is_free_allowance(s, i, w, b));
}

/// The test for the sign-in.
pub open spec fn is_sign_in_test(s: Seq<char>, i: int, w: Seq<Seq<char>>) -> bool {
    &&& word_at(s, i, w[4])
    &&& reads(s, i + 1, "="@)
    &&& word_at(s, i + 2, w[3])
    &&& member_at(s, i + 3, "authMethod"@)
    &&& (reads(s, i + 5, "=="@) || reads(s, i + 5, "==="@))
    &&& text_at(s, i + 6, "chatgpt"@)
}

proof fn lemma_sign_in_test_steps()
    ensures
        auth_chatgpt_atoms().len() == 6,
        ({
            let pattern = auth_chatgpt_atoms();
            &&& pattern[0] == Atom::Ident(4)
            &&& pattern[1] == Atom::ExactRun("=")
            &&& pattern[2] == Atom::Ident(3)
            &&& pattern[3] == Atom::Member("authMethod")
            &&& pattern[4] == Atom::OneOf(&["==", "==="])
            &&& pattern[5] == Atom::Str("chatgpt")
        }),
{
    reveal(auth_chatgpt_atoms);
}

/// The test for the sign-in is matched wherever it stands, whatever its words are and however
/// it is written, as a whole and with its words.
pub proof fn lemma_sign_in_test_is_found(
    s: Seq<char>,
    i: int,
    w: Seq<Seq<char>>,
    ids: Seq<Option<int>>,
)
    requires
        0 <= i,
        ids.len() == 16,
        forall|slot: int|
            0 <= slot < 16 ==> (#[trigger] ids[slot] matches Some(at) ==> token_text(s, at)
                == w[slot]),
        is_sign_in_test(s, i, w),
    ensures
        ({
            &&& matched_at(s, i, auth_chatgpt_atoms(), ids) matches Some(m)
            &&& so_far(s, m, i, i + 7, w, m.spans, m.bools)
        }),
{
    lemma_sign_in_test_steps();
    let pattern = auth_chatgpt_atoms();
    let from = unmatched(i, ids);
    let spans0: Seq<Option<(int, int)>> = seq![None, None, None, None];
    let bools0: Seq<Option<bool>> = seq![None, None, None, None];
    assert(reaches(s, pattern, 0, from, i, w, spans0, bools0)) by {
        reveal(reaches);
        assert(from.spans =~= spans0);
        assert(from.bools =~= bools0);
    }
    assert(reaches(s, pattern, 1, from, i + 1, w, spans0, bools0)) by {
        lemma_word_step(s, pattern, 0, from, i, w, spans0, bools0, 4);
    }
    assert(reaches(s, pattern, 2, from, i + 2, w, spans0, bools0)) by {
        lemma_run_is();
        let pieces = seq!["="@];
        assert forall|j: int| 0 <= j < pieces.len() implies reads(
            s,
            i + 1 + j,
            #[trigger] pieces[j],
        ) by {
            assert(j == 0);
        }
        lemma_run_step(s, pattern, 1, from, i + 1, w, spans0, bools0, "=", pieces);
    }
    assert(reaches(s, pattern, 3, from, i + 3, w, spans0, bools0)) by {
        lemma_word_step(s, pattern, 2, from, i + 2, w, spans0, bools0, 3);
    }
    assert(reaches(s, pattern, 4, from, i + 5, w, spans0, bools0)) by {
        lemma_member_step(s, pattern, 3, from, i + 3, w, spans0, bools0, "authMethod");
    }
    assert(reaches(s, pattern, 5, from, i + 6, w, spans0, bools0)) by {
        let choice: int = if reads(s, i + 5, "=="@) {
            0
        } else {
            1
        };
        let options: &'static [&'static str] = &["==", "==="];
        lemma_one_of_step(s, pattern, 4, from, i + 5, w, spans0, bools0, options, choice);
    }
    assert(reaches(s, pattern, 6, from, i + 7, w, spans0, bools0)) by {
        lemma_str_step(s, pattern, 5, from, i + 6, w, spans0, bools0, "chatgpt");
    }
    reveal(reaches);
}

/// Nothing but this is matched as such: the test for the sign-in.
pub proof fn lemma_found_is_sign_in_test(s: Seq<char>, i: int, ids: Seq<Option<int>>)
    requires
        0 <= i,
        ids.len() == 16,
        matched_at(s, i, auth_chatgpt_atoms(), ids) is Some,
    ensures
        ({
            let m = matched_at(s, i, auth_chatgpt_atoms(), ids)->0;
            is_sign_in_test(s, i, words_of(s, m))
        }),
{
    lemma_sign_in_test_steps();
    let pattern = auth_chatgpt_atoms();
    let from = unmatched(i, ids);
    let last = matched_at(s, i, pattern, ids)->0;
    let w = words_of(s, last);
    assert(came(s, pattern, 0, from, i, last)) by {
        reveal(came);
    }
    assert(word_at(s, i, w[4]) && came(s, pattern, 1, from, i + 1, last)) by {
        lemma_word_came(s, pattern, 0, from, i, last, 4);
    }
    assert(reads(s, i + 1, "="@) && came(s, pattern, 2, from, i + 2, last)) by {
        lemma_run_is();
        let pieces = seq!["="@];
        lemma_run_came(s, pattern, 1, from, i + 1, last, "=", pieces);
        assert(pieces[0] == "="@);
    }
    assert(word_at(s, i + 2, w[3]) && came(s, pattern, 3, from, i + 3, last)) by {
        lemma_word_came(s, pattern, 2, from, i + 2, last, 3);
    }
    assert(member_at(s, i + 3, "authMethod"@) && came(s, pattern, 4, from, i + 5, last)) by {
        lemma_member_came(s, pattern, 3, from, i + 3, last, "authMethod");
    }
    assert((reads(s, i + 5, "=="@) || reads(s, i + 5, "==="@))
        && came(s, pattern, 5, from, i + 6, last)) by {
        let options: &'static [&'static str] = &["==", "==="];
        let choice = lemma_one_of_came(s, pattern, 4, from, i + 5, last, options);
        assert(choice == 0 || choice == 1);
    }
    assert(text_at(s, i + 6, "chatgpt"@) && came(s, pattern, 6, from, i + 7, last)) by {
        lemma_str_came(s, pattern, 5, from, i + 6, last, "chatgpt");
    }
    assert(is_sign_in_test(s, i, w));
}

/// The sign-in, or null.
pub open spec fn is_sign_in_read(s: Seq<char>, i: int, w: Seq<Seq<char>>) -> bool {
    &&& ident_at(s, i)
    &&& reads(s, i + 1, "="@)
    &&& word_at(s, i + 2, w[3])
    &&& member_at(s, i + 3, "authMethod"@)
    &&& reads(s, i + 5, "??"@)
    &&& reads(s, i + 6, "null"@)
}

proof fn lemma_sign_in_read_steps()
    ensures
        nullable_auth_atoms().len() == 5,
        ({
            let pattern = nullable_auth_atoms();
            &&& pattern[0] == Atom::AnyIdent
            &&& pattern[1] == Atom::ExactRun("=")
            &&& pattern[2] == Atom::Ident(3)
            &&& pattern[3] == Atom::Member("authMethod")
            &&& pattern[4] == Atom::ExactRun("?? null")
        }),
{
    reveal(nullable_auth_atoms);
}

/// The sign-in is matched wherever it stands, whatever its words are and however
/// it is written, as a whole and with its words.
pub proof fn lemma_sign_in_read_is_found(
    s: Seq<char>,
    i: int,
    w: Seq<Seq<char>>,
    ids: Seq<Option<int>>,
)
    requires
        0 <= i,
        ids.len() == 16,
        forall|slot: int|
            0 <= slot < 16 ==> (#[trigger] ids[slot] matches Some(at) ==> token_text(s, at)
                == w[slot]),
        is_sign_in_read(s, i, w),
    ensures
        ({
            &&& matched_at(s, i, nullable_auth_atoms(), ids) matches Some(m)
            &&& so_far(s, m, i, i + 7, w, m.spans, m.bools)
        }),
{
    lemma_sign_in_read_steps();
    let pattern = nullable_auth_atoms();
    let from = unmatched(i, ids);
    let spans0: Seq<Option<(int, int)>> = seq![None, None, None, None];
    let bools0: Seq<Option<bool>> = seq![None, None, None, None];
    assert(reaches(s, pattern, 0, from, i, w, spans0, bools0)) by {
        reveal(reaches);
        assert(from.spans =~= spans0);
        assert(from.bools =~= bools0);
    }
    assert(reaches(s, pattern, 1, from, i + 1, w, spans0, bools0)) by {
        lemma_any_step(s, pattern, 0, from, i, w, spans0, bools0);
    }
    assert(reaches(s, pattern, 2, from, i + 2, w, spans0, bools0)) by {
        lemma_run_is();
        let pieces = seq!["="@];
        assert forall|j: int| 0 <= j < pieces.len() implies reads(
            s,
            i + 1 + j,
            #[trigger] pieces[j],
        ) by {
            assert(j == 0);
        }
        lemma_run_step(s, pattern, 1, from, i + 1, w, spans0, bools0, "=", pieces);
    }
    assert(reaches(s, pattern, 3, from, i + 3, w, spans0, bools0)) by {
        lemma_word_step(s, pattern, 2, from, i + 2, w, spans0, bools0, 3);
    }
    assert(reaches(s, pattern, 4, from, i + 5, w, spans0, bools0)) by {
        lemma_member_step(s, pattern, 3, from, i + 3, w, spans0, bools0, "authMethod");
    }
    assert(reaches(s, pattern, 5, from, i + 7, w, spans0, bools0)) by {
        lemma_run_else_null();
        let pieces = seq!["??"@, "null"@];
        assert forall|j: int| 0 <= j < pieces.len() implies reads(
            s,
            i + 5 + j,
            #[trigger] pieces[j],
        ) by {
            assert(j == 0 || j == 1);
        }
        lemma_run_step(s, pattern, 4, from, i + 5, w, spans0, bools0, "?? null", pieces);
    }
    reveal(reaches);
}

/// Nothing but this is matched as such: the sign-in.
pub proof fn lemma_found_is_sign_in_read(s: Seq<char>, i: int, ids: Seq<Option<int>>)
    requires
        0 <= i,
        ids.len() == 16,
        matched_at(s, i, nullable_auth_atoms(), ids) is Some,
    ensures
        ({
            let m = matched_at(s, i, nullable_auth_atoms(), ids)->0;
            is_sign_in_read(s, i, words_of(s, m))
        }),
{
    lemma_sign_in_read_steps();
    let pattern = nullable_auth_atoms();
    let from = unmatched(i, ids);
    let last = matched_at(s, i, pattern, ids)->0;
    let w = words_of(s, last);
    assert(came(s, pattern, 0, from, i, last)) by {
        reveal(came);
    }
    assert(ident_at(s, i) && came(s, pattern, 1, from, i + 1, last)) by {
        lemma_any_came(s, pattern, 0, from, i, last);
    }
    assert(reads(s, i + 1, "="@) && came(s, pattern, 2, from, i + 2, last)) by {
        lemma_run_is();
        let pieces = seq!["="@];
        lemma_run_came(s, pattern, 1, from, i + 1, last, "=", pieces);
        assert(pieces[0] == "="@);
    }
    assert(word_at(s, i + 2, w[3]) && came(s, pattern, 3, from, i + 3, last)) by {
        lemma_word_came(s, pattern, 2, from, i + 2, last, 3);
    }
    assert(member_at(s, i + 3, "authMethod"@) && came(s, pattern, 4, from, i + 5, last)) by {
        lemma_member_came(s, pattern, 3, from, i + 3, last, "authMethod");
    }
    assert(reads(s, i + 5, "??"@) && reads(s, i + 6, "null"@)
        && came(s, pattern, 5, from, i + 7, last)) by {
        lemma_run_else_null();
        let pieces = seq!["??"@, "null"@];
        lemma_run_came(s, pattern, 4, from, i + 5, last, "?? null", pieces);
        assert(pieces[0] == "??"@);
        assert(pieces[1] == "null"@);
    }
    assert(is_sign_in_read(s, i, w));
}

/// The tier of a conversation, with what a request takes of it.
pub open spec fn is_conversation_tier(
    s: Seq<char>,
    i: int,
    w: Seq<Seq<char>>,
    b: Seq<int>,
) -> bool {
    &&& word_at(s, i, w[4])
    &&& reads(s, i + 1, "="@)
    &&& ident_at(s, i + 2)
    &&& null_at(s, i + 3, true)
    &&& reads(s, i + 5, "&&"@)
    &&& ident_at(s, i + 6)
    &&& null_at(s, i + 7, false)
    &&& reads(s, i + 9, "?"@)
    &&& ident_at(s, i + 10)
    &&& member_at(s, i + 11, "value"@)
    &&& reads(s, i + 13, ":"@)
    &&& ident_at(s, i + 14)
    &&& reads(s, i + 15, "?"@)
    &&& ident_at(s, i + 16)
    &&& reads(s, i + 17, "("@)
    &&& ident_at(s, i + 18)
    &&& reads(s, i + 19, ")"@)
    &&& reads(s, i + 20, ":"@)
    &&& ident_at(s, i + 21)
    &&& member_at(s, i + 22, "serviceTier"@)
    &&& reads(s, i + 24, ","@)
    &&& word_at(s, i + 25, w[0])
    &&& reads(s, i + 26, "="@)
    &&& word_at(s, i + 27, w[1])
    &&& null_at(s, i + 28, false)
    &&& reads(s, i + 30, "&&"@)
    &&& word_at(s, i + 31, w[2])
    &&& member_at(s, i + 32, "serviceTier"@)
    &&& reads(s, i + 34, "!=="@)
    &&& undefined_at(s, i + 35, b[0])
    &&& reads(s, i + 35 + b[0], "?"@)
    &&& word_at(s, i + 36 + b[0], w[2])
    &&& member_at(s, i + 37 + b[0], "serviceTier"@)
    &&& reads(s, i + 39 + b[0], ":"@)
    &&& word_at(s, i + 40 + b[0], w[1])
    &&& null_at(s, i + 41 + b[0], false)
    &&& reads(s, i + 43 + b[0], "&&"@)
    &&& word_at(s, i + 44 + b[0], w[3])
    &&& reads(s, i + 45 + b[0], "!=="@)
    &&& undefined_at(s, i + 46 + b[0], b[1])
    &&& reads(s, i + 46 + b[0] + b[1], "?"@)
    &&& word_at(s, i + 47 + b[0] + b[1], w[3])
    &&& reads(s, i + 48 + b[0] + b[1], ":"@)
    &&& word_at(s, i + 49 + b[0] + b[1], w[4])
    &&& reads(s, i + 50 + b[0] + b[1], ";"@)
    &&& word_at(s, i + 51 + b[0] + b[1], w[5])
    &&& reads(s, i + 52 + b[0] + b[1], "="@)
    &&& word_at(s, i + 53 + b[0] + b[1], w[1])
    &&& null_at(s, i + 54 + b[0] + b[1], false)
    &&& reads(s, i + 56 + b[0] + b[1], "&&"@)
    &&& reads(s, i + 57 + b[0] + b[1], "("@)
    &&& word_at(s, i + 58 + b[0] + b[1], w[2])
    &&& member_at(s, i + 59 + b[0] + b[1], "serviceTier"@)
    &&& reads(s, i + 61 + b[0] + b[1], "!=="@)
    &&& undefined_at(s, i + 62 + b[0] + b[1], b[2])
    &&& reads(s, i + 62 + b[0] + b[1] + b[2], "||"@)
    &&& word_at(s, i + 63 + b[0] + b[1] + b[2], w[3])
    &&& reads(s, i + 64 + b[0] + b[1] + b[2], "!=="@)
    &&& undefined_at(s, i + 65 + b[0] + b[1] + b[2], b[3])
    &&& reads(s, i + 65 + b[0] + b[1] + b[2] + b[3], ")"@)
    &&& reads(s, i + 66 + b[0] + b[1] + b[2] + b[3], "?"@)
    &&& word_at(s, i + 67 + b[0] + b[1] + b[2] + b[3], w[6])
    &&& reads(s, i + 68 + b[0] + b[1] + b[2] + b[3], "?"@)
    &&& word_at(s, i + 69 + b[0] + b[1] + b[2] + b[3], w[0])
    &&& reads(s, i + 70 + b[0] + b[1] + b[2] + b[3], ":"@)
    &&& reads(s, i + 71 + b[0] + b[1] + b[2] + b[3], "null"@)
    &&& reads(s, i + 72 + b[0] + b[1] + b[2] + b[3], ":"@)
    &&& word_at(s, i + 73 + b[0] + b[1] + b[2] + b[3], w[7])
    &&& reads(s, i + 74 + b[0] + b[1] + b[2] + b[3], "("@)
    &&& word_at(s, i + 75 + b[0] + b[1] + b[2] + b[3], w[8])
    &&& reads(s, i + 76 + b[0] + b[1] + b[2] + b[3], ","@)
    &&& word_at(s, i + 77 + b[0] + b[1] + b[2] + b[3], w[0])
    &&& reads(s, i + 78 + b[0] + b[1] + b[2] + b[3], ","@)
    &&& word_at(s, i + 79 + b[0] + b[1] + b[2] + b[3], w[6])
    &&& reads(s, i + 80 + b[0] + b[1] + b[2] + b[3], ")"@)
    &&& reads(s, i + 81 + b[0] + b[1] + b[2] + b[3], ","@)
    &&& word_at(s, i + 82 + b[0] + b[1] + b[2] + b[3], w[9])
    &&& reads(s, i + 83 + b[0] + b[1] + b[2] + b[3], "="@)
    &&& word_at(s, i + 84 + b[0] + b[1] + b[2] + b[3], w[5])
    &&& null_at(s, i + 85 + b[0] + b[1] + b[2] + b[3], true)
    &&& reads(s, i + 87 + b[0] + b[1] + b[2] + b[3], "?"@)
    &&& reads(s, i + 88 + b[0] + b[1] + b[2] + b[3], "null"@)
    &&& reads(s, i + 89 + b[0] + b[1] + b[2] + b[3], ":"@)
    &&& ident_at(s, i + 90 + b[0] + b[1] + b[2] + b[3])
    &&& reads(s, i + 91 + b[0] + b[1] + b[2] + b[3], "("@)
    &&& word_at(s, i + 92 + b[0] + b[1] + b[2] + b[3], w[8])
    &&& reads(s, i + 93 + b[0] + b[1] + b[2] + b[3], ","@)
    &&& word_at(s, i + 94 + b[0] + b[1] + b[2] + b[3], w[5])
    &&& reads(s, i + 95 + b[0] + b[1] + b[2] + b[3], ")"@)
}

proof fn lemma_conversation_tier_steps()
    ensures
        conversation_guarded_atoms().len() == 86,
        ({
            let pattern = conversation_guarded_atoms();
            &&& pattern[0] == Atom::Ident(4)
            &&& pattern[1] == Atom::ExactRun("=")
            &&& pattern[2] == Atom::AnyIdent
            &&& pattern[3] == Atom::NullEq
            &&& pattern[4] == Atom::ExactRun("&&")
            &&& pattern[5] == Atom::AnyIdent
            &&& pattern[6] == Atom::NullNe
            &&& pattern[7] == Atom::ExactRun("?")
            &&& pattern[8] == Atom::AnyIdent
            &&& pattern[9] == Atom::Member("value")
            &&& pattern[10] == Atom::ExactRun(":")
            &&& pattern[11] == Atom::AnyIdent
            &&& pattern[12] == Atom::ExactRun("?")
            &&& pattern[13] == Atom::AnyIdent
            &&& pattern[14] == Atom::ExactRun("(")
            &&& pattern[15] == Atom::AnyIdent
            &&& pattern[16] == Atom::ExactRun(") :")
            &&& pattern[17] == Atom::AnyIdent
            &&& pattern[18] == Atom::Member("serviceTier")
            &&& pattern[19] == Atom::ExactRun(",")
            &&& pattern[20] == Atom::Ident(0)
            &&& pattern[21] == Atom::ExactRun("=")
            &&& pattern[22] == Atom::Begin(0)
            &&& pattern[23] == Atom::Ident(1)
            &&& pattern[24] == Atom::NullNe
            &&& pattern[25] == Atom::ExactRun("&&")
            &&& pattern[26] == Atom::Ident(2)
            &&& pattern[27] == Atom::Member("serviceTier")
            &&& pattern[28] == Atom::ExactRun("!==")
            &&& pattern[29] == Atom::Undefined
            &&& pattern[30] == Atom::ExactRun("?")
            &&& pattern[31] == Atom::Ident(2)
            &&& pattern[32] == Atom::Member("serviceTier")
            &&& pattern[33] == Atom::ExactRun(":")
            &&& pattern[34] == Atom::Ident(1)
            &&& pattern[35] == Atom::NullNe
            &&& pattern[36] == Atom::ExactRun("&&")
            &&& pattern[37] == Atom::Ident(3)
            &&& pattern[38] == Atom::ExactRun("!==")
            &&& pattern[39] == Atom::Undefined
            &&& pattern[40] == Atom::ExactRun("?")
            &&& pattern[41] == Atom::Ident(3)
            &&& pattern[42] == Atom::ExactRun(":")
            &&& pattern[43] == Atom::Ident(4)
            &&& pattern[44] == Atom::End(0)
            &&& pattern[45] == Atom::ExactRun(";")
            &&& pattern[46] == Atom::Ident(5)
            &&& pattern[47] == Atom::ExactRun("=")
            &&& pattern[48] == Atom::Begin(1)
            &&& pattern[49] == Atom::Ident(1)
            &&& pattern[50] == Atom::NullNe
            &&& pattern[51] == Atom::ExactRun("&& (")
            &&& pattern[52] == Atom::Ident(2)
            &&& pattern[53] == Atom::Member("serviceTier")
            &&& pattern[54] == Atom::ExactRun("!==")
            &&& pattern[55] == Atom::Undefined
            &&& pattern[56] == Atom::ExactRun("||")
            &&& pattern[57] == Atom::Ident(3)
            &&& pattern[58] == Atom::ExactRun("!==")
            &&& pattern[59] == Atom::Undefined
            &&& pattern[60] == Atom::ExactRun(") ?")
            &&& pattern[61] == Atom::Ident(6)
            &&& pattern[62] == Atom::ExactRun("?")
            &&& pattern[63] == Atom::Ident(0)
            &&& pattern[64] == Atom::ExactRun(": null :")
            &&& pattern[65] == Atom::Ident(7)
            &&& pattern[66] == Atom::ExactRun("(")
            &&& pattern[67] == Atom::Ident(8)
            &&& pattern[68] == Atom::ExactRun(",")
            &&& pattern[69] == Atom::Ident(0)
            &&& pattern[70] == Atom::ExactRun(",")
            &&& pattern[71] == Atom::Ident(6)
            &&& pattern[72] == Atom::ExactRun(")")
            &&& pattern[73] == Atom::End(1)
            &&& pattern[74] == Atom::ExactRun(",")
            &&& pattern[75] == Atom::Ident(9)
            &&& pattern[76] == Atom::ExactRun("=")
            &&& pattern[77] == Atom::Ident(5)
            &&& pattern[78] == Atom::NullEq
            &&& pattern[79] == Atom::ExactRun("? null :")
            &&& pattern[80] == Atom::AnyIdent
            &&& pattern[81] == Atom::ExactRun("(")
            &&& pattern[82] == Atom::Ident(8)
            &&& pattern[83] == Atom::ExactRun(",")
            &&& pattern[84] == Atom::Ident(5)
            &&& pattern[85] == Atom::ExactRun(")")
        }),
{
    reveal(conversation_guarded_atoms);
}

/// The tier of a conversation is matched wherever it stands, whatever its words are and however
/// it is written, as a whole and with its words.
pub proof fn lemma_conversation_tier_is_found(
    s: Seq<char>,
    i: int,
    w: Seq<Seq<char>>,
    ids: Seq<Option<int>>,
    b: Seq<int>,
)
    requires
        0 <= i,
        ids.len() == 16,
        forall|slot: int|
            0 <= slot < 16 ==> (#[trigger] ids[slot] matches Some(at) ==> token_text(s, at)
                == w[slot]),
        is_conversation_tier(s, i, w, b),
        forall|j: int| 0 <= j < b.len() ==> 1 <= #[trigger] b[j] <= 2,
        b.len() == 4,
    ensures
        ({
            &&& matched_at(s, i, conversation_guarded_atoms(), ids) matches Some(m)
            &&& so_far(s, m, i, i + 96 + b[0] + b[1] + b[2] + b[3], w, m.spans, m.bools)
            &&& m.spans[0] == Some((i + 27, i + 50 + b[0] + b[1]))
            &&& m.spans[1] == Some((i + 53 + b[0] + b[1], i + 81 + b[0] + b[1] + b[2] + b[3]))
        }),
{
    lemma_conversation_tier_steps();
    let pattern = conversation_guarded_atoms();
    let from = unmatched(i, ids);
    let spans0: Seq<Option<(int, int)>> = seq![None, None, None, None];
    let bools0: Seq<Option<bool>> = seq![None, None, None, None];
    assert(reaches(s, pattern, 0, from, i, w, spans0, bools0)) by {
        reveal(reaches);
        assert(from.spans =~= spans0);
        assert(from.bools =~= bools0);
    }
    assert(reaches(s, pattern, 1, from, i + 1, w, spans0, bools0)) by {
        lemma_word_step(s, pattern, 0, from, i, w, spans0, bools0, 4);
    }
    assert(reaches(s, pattern, 2, from, i + 2, w, spans0, bools0)) by {
        lemma_run_is();
        let pieces = seq!["="@];
        assert forall|j: int| 0 <= j < pieces.len() implies reads(
            s,
            i + 1 + j,
            #[trigger] pieces[j],
        ) by {
            assert(j == 0);
        }
        lemma_run_step(s, pattern, 1, from, i + 1, w, spans0, bools0, "=", pieces);
    }
    assert(reaches(s, pattern, 3, from, i + 3, w, spans0, bools0)) by {
        lemma_any_step(s, pattern, 2, from, i + 2, w, spans0, bools0);
    }
    assert(reaches(s, pattern, 4, from, i + 5, w, spans0, bools0)) by {
        lemma_null_step(s, pattern, 3, from, i + 3, w, spans0, bools0, true);
    }
    assert(reaches(s, pattern, 5, from, i + 6, w, spans0, bools0)) by {
        lemma_run_and();
        let pieces = seq!["&&"@];
        assert forall|j: int| 0 <= j < pieces.len() implies reads(
            s,
            i + 5 + j,
            #[trigger] pieces[j],
        ) by {
            assert(j == 0);
        }
        lemma_run_step(s, pattern, 4, from, i + 5, w, spans0, bools0, "&&", pieces);
    }
    assert(reaches(s, pattern, 6, from, i + 7, w, spans0, bools0)) by {
        lemma_any_step(s, pattern, 5, from, i + 6, w, spans0, bools0);
    }
    assert(reaches(s, pattern, 7, from, i + 9, w, spans0, bools0)) by {
        lemma_null_step(s, pattern, 6, from, i + 7, w, spans0, bools0, false);
    }
    assert(reaches(s, pattern, 8, from, i + 10, w, spans0, bools0)) by {
        lemma_run_choice();
        let pieces = seq!["?"@];
        assert forall|j: int| 0 <= j < pieces.len() implies reads(
            s,
            i + 9 + j,
            #[trigger] pieces[j],
        ) by {
            assert(j == 0);
        }
        lemma_run_step(s, pattern, 7, from, i + 9, w, spans0, bools0, "?", pieces);
    }
    assert(reaches(s, pattern, 9, from, i + 11, w, spans0, bools0)) by {
        lemma_any_step(s, pattern, 8, from, i + 10, w, spans0, bools0);
    }
    assert(reaches(s, pattern, 10, from, i + 13, w, spans0, bools0)) by {
        lemma_member_step(s, pattern, 9, from, i + 11, w, spans0, bools0, "value");
    }
    assert(reaches(s, pattern, 11, from, i + 14, w, spans0, bools0)) by {
        lemma_run_colon();
        let pieces = seq![":"@];
        assert forall|j: int| 0 <= j < pieces.len() implies reads(
            s,
            i + 13 + j,
            #[trigger] pieces[j],
        ) by {
            assert(j == 0);
        }
        lemma_run_step(s, pattern, 10, from, i + 13, w, spans0, bools0, ":", pieces);
    }
    assert(reaches(s, pattern, 12, from, i + 15, w, spans0, bools0)) by {
        lemma_any_step(s, pattern, 11, from, i + 14, w, spans0, bools0);
    }
    assert(reaches(s, pattern, 13, from, i + 16, w, spans0, bools0)) by {
        lemma_run_choice();
        let pieces = seq!["?"@];
        assert forall|j: int| 0 <= j < pieces.len() implies reads(
            s,
            i + 15 + j,
            #[trigger] pieces[j],
        ) by {
            assert(j == 0);
        }
        lemma_run_step(s, pattern, 12, from, i + 15, w, spans0, bools0, "?", pieces);
    }
    assert(reaches(s, pattern, 14, from, i + 17, w, spans0, bools0)) by {
        lemma_any_step(s, pattern, 13, from, i + 16, w, spans0, bools0);
    }
    assert(reaches(s, pattern, 15, from, i + 18, w, spans0, bools0)) by {
        lemma_run_open();
        let pieces = seq!["("@];
        assert forall|j: int| 0 <= j < pieces.len() implies reads(
            s,
            i + 17 + j,
            #[trigger] pieces[j],
        ) by {
            assert(j == 0);
        }
        lemma_run_step(s, pattern, 14, from, i + 17, w, spans0, bools0, "(", pieces);
    }
    assert(reaches(s, pattern, 16, from, i + 19, w, spans0, bools0)) by {
        lemma_any_step(s, pattern, 15, from, i + 18, w, spans0, bools0);
    }
    assert(reaches(s, pattern, 17, from, i + 21, w, spans0, bools0)) by {
        lemma_run_close_colon();
        let pieces = seq![")"@, ":"@];
        assert forall|j: int| 0 <= j < pieces.len() implies reads(
            s,
            i + 19 + j,
            #[trigger] pieces[j],
        ) by {
            assert(j == 0 || j == 1);
        }
        lemma_run_step(s, pattern, 16, from, i + 19, w, spans0, bools0, ") :", pieces);
    }
    assert(reaches(s, pattern, 18, from, i + 22, w, spans0, bools0)) by {
        lemma_any_step(s, pattern, 17, from, i + 21, w, spans0, bools0);
    }
    assert(reaches(s, pattern, 19, from, i + 24, w, spans0, bools0)) by {
        lemma_member_step(s, pattern, 18, from, i + 22, w, spans0, bools0, "serviceTier");
    }
    assert(reaches(s, pattern, 20, from, i + 25, w, spans0, bools0)) by {
        lemma_run_comma();
        let pieces = seq![","@];
        assert forall|j: int| 0 <= j < pieces.len() implies reads(
            s,
            i + 24 + j,
            #[trigger] pieces[j],
        ) by {
            assert(j == 0);
        }
        lemma_run_step(s, pattern, 19, from, i + 24, w, spans0, bools0, ",", pieces);
    }
    assert(reaches(s, pattern, 21, from, i + 26, w, spans0, bools0)) by {
        lemma_word_step(s, pattern, 20, from, i + 25, w, spans0, bools0, 0);
    }
    assert(reaches(s, pattern, 22, from, i + 27, w, spans0, bools0)) by {
        lemma_run_is();
        let pieces = seq!["="@];
        assert forall|j: int| 0 <= j < pieces.len() implies reads(
            s,
            i + 26 + j,
            #[trigger] pieces[j],
        ) by {
            assert(j == 0);
        }
        lemma_run_step(s, pattern, 21, from, i + 26, w, spans0, bools0, "=", pieces);
    }
    let spans1 = spans0.update(0, Some((i + 27, i + 27)));
    assert(reaches(s, pattern, 23, from, i + 27, w, spans1, bools0)) by {
        lemma_begin_step(s, pattern, 22, from, i + 27, w, spans0, bools0, 0);
    }
    assert(reaches(s, pattern, 24, from, i + 28, w, spans1, bools0)) by {
        lemma_word_step(s, pattern, 23, from, i + 27, w, spans1, bools0, 1);
    }
    assert(reaches(s, pattern, 25, from, i + 30, w, spans1, bools0)) by {
        lemma_null_step(s, pattern, 24, from, i + 28, w, spans1, bools0, false);
    }
    assert(reaches(s, pattern, 26, from, i + 31, w, spans1, bools0)) by {
        lemma_run_and();
        let pieces = seq!["&&"@];
        assert forall|j: int| 0 <= j < pieces.len() implies reads(
            s,
            i + 30 + j,
            #[trigger] pieces[j],
        ) by {
            assert(j == 0);
        }
        lemma_run_step(s, pattern, 25, from, i + 30, w, spans1, bools0, "&&", pieces);
    }
    assert(reaches(s, pattern, 27, from, i + 32, w, spans1, bools0)) by {
        lemma_word_step(s, pattern, 26, from, i + 31, w, spans1, bools0, 2);
    }
    assert(reaches(s, pattern, 28, from, i + 34, w, spans1, bools0)) by {
        lemma_member_step(s, pattern, 27, from, i + 32, w, spans1, bools0, "serviceTier");
    }
    assert(reaches(s, pattern, 29, from, i + 35, w, spans1, bools0)) by {
        lemma_run_not_same();
        let pieces = seq!["!=="@];
        assert forall|j: int| 0 <= j < pieces.len() implies reads(
            s,
            i + 34 + j,
            #[trigger] pieces[j],
        ) by {
            assert(j == 0);
        }
        lemma_run_step(s, pattern, 28, from, i + 34, w, spans1, bools0, "!==", pieces);
    }
    assert(reaches(s, pattern, 30, from, i + 35 + b[0], w, spans1, bools0)) by {
        lemma_undefined_step(s, pattern, 29, from, i + 35, w, spans1, bools0, b[0]);
    }
    assert(reaches(s, pattern, 31, from, i + 36 + b[0], w, spans1, bools0)) by {
        lemma_run_choice();
        let pieces = seq!["?"@];
        assert forall|j: int| 0 <= j < pieces.len() implies reads(
            s,
            i + 35 + b[0] + j,
            #[trigger] pieces[j],
        ) by {
            assert(j == 0);
        }
        lemma_run_step(s, pattern, 30, from, i + 35 + b[0], w, spans1, bools0, "?", pieces);
    }
    assert(reaches(s, pattern, 32, from, i + 37 + b[0], w, spans1, bools0)) by {
        lemma_word_step(s, pattern, 31, from, i + 36 + b[0], w, spans1, bools0, 2);
    }
    assert(reaches(s, pattern, 33, from, i + 39 + b[0], w, spans1, bools0)) by {
        lemma_member_step(s, pattern, 32, from, i + 37 + b[0], w, spans1, bools0, "serviceTier");
    }
    assert(reaches(s, pattern, 34, from, i + 40 + b[0], w, spans1, bools0)) by {
        lemma_run_colon();
        let pieces = seq![":"@];
        assert forall|j: int| 0 <= j < pieces.len() implies reads(
            s,
            i + 39 + b[0] + j,
            #[trigger] pieces[j],
        ) by {
            assert(j == 0);
        }
        lemma_run_step(s, pattern, 33, from, i + 39 + b[0], w, spans1, bools0, ":", pieces);
    }
    assert(reaches(s, pattern, 35, from, i + 41 + b[0], w, spans1, bools0)) by {
        lemma_word_step(s, pattern, 34, from, i + 40 + b[0], w, spans1, bools0, 1);
    }
    assert(reaches(s, pattern, 36, from, i + 43 + b[0], w, spans1, bools0)) by {
        lemma_null_step(s, pattern, 35, from, i + 41 + b[0], w, spans1, bools0, false);
    }
    assert(reaches(s, pattern, 37, from, i + 44 + b[0], w, spans1, bools0)) by {
        lemma_run_and();
        let pieces = seq!["&&"@];
        assert forall|j: int| 0 <= j < pieces.len() implies reads(
            s,
            i + 43 + b[0] + j,
            #[trigger] pieces[j],
        ) by {
            assert(j == 0);
        }
        lemma_run_step(s, pattern, 36, from, i + 43 + b[0], w, spans1, bools0, "&&", pieces);
    }
    assert(reaches(s, pattern, 38, from, i + 45 + b[0], w, spans1, bools0)) by {
        lemma_word_step(s, pattern, 37, from, i + 44 + b[0], w, spans1, bools0, 3);
    }
    assert(reaches(s, pattern, 39, from, i + 46 + b[0], w, spans1, bools0)) by {
        lemma_run_not_same();
        let pieces = seq!["!=="@];
        assert forall|j: int| 0 <= j < pieces.len() implies reads(
            s,
            i + 45 + b[0] + j,
            #[trigger] pieces[j],
        ) by {
            assert(j == 0);
        }
        lemma_run_step(s, pattern, 38, from, i + 45 + b[0], w, spans1, bools0, "!==", pieces);
    }
    assert(reaches(s, pattern, 40, from, i + 46 + b[0] + b[1], w, spans1, bools0)) by {
        lemma_undefined_step(s, pattern, 39, from, i + 46 + b[0], w, spans1, bools0, b[1]);
    }
    assert(reaches(s, pattern, 41, from, i + 47 + b[0] + b[1], w, spans1, bools0)) by {
        lemma_run_choice();
        let pieces = seq!["?"@];
        assert forall|j: int| 0 <= j < pieces.len() implies reads(
            s,
            i + 46 + b[0] + b[1] + j,
            #[trigger] pieces[j],
        ) by {
            assert(j == 0);
        }
        lemma_run_step(s, pattern, 40, from, i + 46 + b[0] + b[1], w, spans1, bools0, "?", pieces);
    }
    assert(reaches(s, pattern, 42, from, i + 48 + b[0] + b[1], w, spans1, bools0)) by {
        lemma_word_step(s, pattern, 41, from, i + 47 + b[0] + b[1], w, spans1, bools0, 3);
    }
    assert(reaches(s, pattern, 43, from, i + 49 + b[0] + b[1], w, spans1, bools0)) by {
        lemma_run_colon();
        let pieces = seq![":"@];
        assert forall|j: int| 0 <= j < pieces.len() implies reads(
            s,
            i + 48 + b[0] + b[1] + j,
            #[trigger] pieces[j],
        ) by {
            assert(j == 0);
        }
        lemma_run_step(s, pattern, 42, from, i + 48 + b[0] + b[1], w, spans1, bools0, ":", pieces);
    }
    assert(reaches(s, pattern, 44, from, i + 50 + b[0] + b[1], w, spans1, bools0)) by {
        lemma_word_step(s, pattern, 43, from, i + 49 + b[0] + b[1], w, spans1, bools0, 4);
    }
    let spans2 = spans1.update(0, Some((i + 27, i + 50 + b[0] + b[1])));
    assert(reaches(s, pattern, 45, from, i + 50 + b[0] + b[1], w, spans2, bools0)) by {
        lemma_end_step(s, pattern, 44, from, i + 50 + b[0] + b[1], w, spans1, bools0, 0, i + 27);
    }
    assert(reaches(s, pattern, 46, from, i + 51 + b[0] + b[1], w, spans2, bools0)) by {
        lemma_run_semicolon();
        let pieces = seq![";"@];
        assert forall|j: int| 0 <= j < pieces.len() implies reads(
            s,
            i + 50 + b[0] + b[1] + j,
            #[trigger] pieces[j],
        ) by {
            assert(j == 0);
        }
        lemma_run_step(s, pattern, 45, from, i + 50 + b[0] + b[1], w, spans2, bools0, ";", pieces);
    }
    assert(reaches(s, pattern, 47, from, i + 52 + b[0] + b[1], w, spans2, bools0)) by {
        lemma_word_step(s, pattern, 46, from, i + 51 + b[0] + b[1], w, spans2, bools0, 5);
    }
    assert(reaches(s, pattern, 48, from, i + 53 + b[0] + b[1], w, spans2, bools0)) by {
        lemma_run_is();
        let pieces = seq!["="@];
        assert forall|j: int| 0 <= j < pieces.len() implies reads(
            s,
            i + 52 + b[0] + b[1] + j,
            #[trigger] pieces[j],
        ) by {
            assert(j == 0);
        }
        lemma_run_step(s, pattern, 47, from, i + 52 + b[0] + b[1], w, spans2, bools0, "=", pieces);
    }
    let spans3 = spans2.update(1, Some((i + 53 + b[0] + b[1], i + 53 + b[0] + b[1])));
    assert(reaches(s, pattern, 49, from, i + 53 + b[0] + b[1], w, spans3, bools0)) by {
        lemma_begin_step(s, pattern, 48, from, i + 53 + b[0] + b[1], w, spans2, bools0, 1);
    }
    assert(reaches(s, pattern, 50, from, i + 54 + b[0] + b[1], w, spans3, bools0)) by {
        lemma_word_step(s, pattern, 49, from, i + 53 + b[0] + b[1], w, spans3, bools0, 1);
    }
    assert(reaches(s, pattern, 51, from, i + 56 + b[0] + b[1], w, spans3, bools0)) by {
        lemma_null_step(s, pattern, 50, from, i + 54 + b[0] + b[1], w, spans3, bools0, false);
    }
    assert(reaches(s, pattern, 52, from, i + 58 + b[0] + b[1], w, spans3, bools0)) by {
        lemma_run_and_open();
        let pieces = seq!["&&"@, "("@];
        assert forall|j: int| 0 <= j < pieces.len() implies reads(
            s,
            i + 56 + b[0] + b[1] + j,
            #[trigger] pieces[j],
        ) by {
            assert(j == 0 || j == 1);
        }
        lemma_run_step(
            s, pattern, 51, from, i + 56 + b[0] + b[1], w, spans3, bools0, "&& (", pieces,
        );
    }
    assert(reaches(s, pattern, 53, from, i + 59 + b[0] + b[1], w, spans3, bools0)) by {
        lemma_word_step(s, pattern, 52, from, i + 58 + b[0] + b[1], w, spans3, bools0, 2);
    }
    assert(reaches(s, pattern, 54, from, i + 61 + b[0] + b[1], w, spans3, bools0)) by {
        lemma_member_step(
            s, pattern, 53, from, i + 59 + b[0] + b[1], w, spans3, bools0, "serviceTier",
        );
    }
    assert(reaches(s, pattern, 55, from, i + 62 + b[0] + b[1], w, spans3, bools0)) by {
        lemma_run_not_same();
        let pieces = seq!["!=="@];
        assert forall|j: int| 0 <= j < pieces.len() implies reads(
            s,
            i + 61 + b[0] + b[1] + j,
            #[trigger] pieces[j],
        ) by {
            assert(j == 0);
        }
        lemma_run_step(
            s, pattern, 54, from, i + 61 + b[0] + b[1], w, spans3, bools0, "!==", pieces,
        );
    }
    assert(reaches(s, pattern, 56, from, i + 62 + b[0] + b[1] + b[2], w, spans3, bools0)) by {
        lemma_undefined_step(s, pattern, 55, from, i + 62 + b[0] + b[1], w, spans3, bools0, b[2]);
    }
    assert(reaches(s, pattern, 57, from, i + 63 + b[0] + b[1] + b[2], w, spans3, bools0)) by {
        lemma_run_or();
        let pieces = seq!["||"@];
        assert forall|j: int| 0 <= j < pieces.len() implies reads(
            s,
            i + 62 + b[0] + b[1] + b[2] + j,
            #[trigger] pieces[j],
        ) by {
            assert(j == 0);
        }
        lemma_run_step(
            s, pattern, 56, from, i + 62 + b[0] + b[1] + b[2], w, spans3, bools0, "||", pieces,
        );
    }
    assert(reaches(s, pattern, 58, from, i + 64 + b[0] + b[1] + b[2], w, spans3, bools0)) by {
        lemma_word_step(s, pattern, 57, from, i + 63 + b[0] + b[1] + b[2], w, spans3, bools0, 3);
    }
    assert(reaches(s, pattern, 59, from, i + 65 + b[0] + b[1] + b[2], w, spans3, bools0)) by {
        lemma_run_not_same();
        let pieces = seq!["!=="@];
        assert forall|j: int| 0 <= j < pieces.len() implies reads(
            s,
            i + 64 + b[0] + b[1] + b[2] + j,
            #[trigger] pieces[j],
        ) by {
            assert(j == 0);
        }
        lemma_run_step(
            s, pattern, 58, from, i + 64 + b[0] + b[1] + b[2], w, spans3, bools0, "!==", pieces,
        );
    }
    assert(reaches(
        s, pattern, 60, from, i + 65 + b[0] + b[1] + b[2] + b[3], w, spans3, bools0,
    )) by {
        lemma_undefined_step(
            s, pattern, 59, from, i + 65 + b[0] + b[1] + b[2], w, spans3, bools0, b[3],
        );
    }
    assert(reaches(
        s, pattern, 61, from, i + 67 + b[0] + b[1] + b[2] + b[3], w, spans3, bools0,
    )) by {
        lemma_run_close_choice();
        let pieces = seq![")"@, "?"@];
        assert forall|j: int| 0 <= j < pieces.len() implies reads(
            s,
            i + 65 + b[0] + b[1] + b[2] + b[3] + j,
            #[trigger] pieces[j],
        ) by {
            assert(j == 0 || j == 1);
        }
        lemma_run_step(
            s, pattern, 60, from, i + 65 + b[0] + b[1] + b[2] + b[3], w, spans3, bools0, ") ?",
            pieces,
        );
    }
    assert(reaches(
        s, pattern, 62, from, i + 68 + b[0] + b[1] + b[2] + b[3], w, spans3, bools0,
    )) by {
        lemma_word_step(
            s, pattern, 61, from, i + 67 + b[0] + b[1] + b[2] + b[3], w, spans3, bools0, 6,
        );
    }
    assert(reaches(
        s, pattern, 63, from, i + 69 + b[0] + b[1] + b[2] + b[3], w, spans3, bools0,
    )) by {
        lemma_run_choice();
        let pieces = seq!["?"@];
        assert forall|j: int| 0 <= j < pieces.len() implies reads(
            s,
            i + 68 + b[0] + b[1] + b[2] + b[3] + j,
            #[trigger] pieces[j],
        ) by {
            assert(j == 0);
        }
        lemma_run_step(
            s, pattern, 62, from, i + 68 + b[0] + b[1] + b[2] + b[3], w, spans3, bools0, "?",
            pieces,
        );
    }
    assert(reaches(
        s, pattern, 64, from, i + 70 + b[0] + b[1] + b[2] + b[3], w, spans3, bools0,
    )) by {
        lemma_word_step(
            s, pattern, 63, from, i + 69 + b[0] + b[1] + b[2] + b[3], w, spans3, bools0, 0,
        );
    }
    assert(reaches(
        s, pattern, 65, from, i + 73 + b[0] + b[1] + b[2] + b[3], w, spans3, bools0,
    )) by {
        lemma_run_colon_null_colon();
        let pieces = seq![":"@, "null"@, ":"@];
        assert forall|j: int| 0 <= j < pieces.len() implies reads(
            s,
            i + 70 + b[0] + b[1] + b[2] + b[3] + j,
            #[trigger] pieces[j],
        ) by {
            assert(j == 0 || j == 1 || j == 2);
        }
        lemma_run_step(
            s, pattern, 64, from, i + 70 + b[0] + b[1] + b[2] + b[3], w, spans3, bools0,
            ": null :", pieces,
        );
    }
    assert(reaches(
        s, pattern, 66, from, i + 74 + b[0] + b[1] + b[2] + b[3], w, spans3, bools0,
    )) by {
        lemma_word_step(
            s, pattern, 65, from, i + 73 + b[0] + b[1] + b[2] + b[3], w, spans3, bools0, 7,
        );
    }
    assert(reaches(
        s, pattern, 67, from, i + 75 + b[0] + b[1] + b[2] + b[3], w, spans3, bools0,
    )) by {
        lemma_run_open();
        let pieces = seq!["("@];
        assert forall|j: int| 0 <= j < pieces.len() implies reads(
            s,
            i + 74 + b[0] + b[1] + b[2] + b[3] + j,
            #[trigger] pieces[j],
        ) by {
            assert(j == 0);
        }
        lemma_run_step(
            s, pattern, 66, from, i + 74 + b[0] + b[1] + b[2] + b[3], w, spans3, bools0, "(",
            pieces,
        );
    }
    assert(reaches(
        s, pattern, 68, from, i + 76 + b[0] + b[1] + b[2] + b[3], w, spans3, bools0,
    )) by {
        lemma_word_step(
            s, pattern, 67, from, i + 75 + b[0] + b[1] + b[2] + b[3], w, spans3, bools0, 8,
        );
    }
    assert(reaches(
        s, pattern, 69, from, i + 77 + b[0] + b[1] + b[2] + b[3], w, spans3, bools0,
    )) by {
        lemma_run_comma();
        let pieces = seq![","@];
        assert forall|j: int| 0 <= j < pieces.len() implies reads(
            s,
            i + 76 + b[0] + b[1] + b[2] + b[3] + j,
            #[trigger] pieces[j],
        ) by {
            assert(j == 0);
        }
        lemma_run_step(
            s, pattern, 68, from, i + 76 + b[0] + b[1] + b[2] + b[3], w, spans3, bools0, ",",
            pieces,
        );
    }
    assert(reaches(
        s, pattern, 70, from, i + 78 + b[0] + b[1] + b[2] + b[3], w, spans3, bools0,
    )) by {
        lemma_word_step(
            s, pattern, 69, from, i + 77 + b[0] + b[1] + b[2] + b[3], w, spans3, bools0, 0,
        );
    }
    assert(reaches(
        s, pattern, 71, from, i + 79 + b[0] + b[1] + b[2] + b[3], w, spans3, bools0,
    )) by {
        lemma_run_comma();
        let pieces = seq![","@];
        assert forall|j: int| 0 <= j < pieces.len() implies reads(
            s,
            i + 78 + b[0] + b[1] + b[2] + b[3] + j,
            #[trigger] pieces[j],
        ) by {
            assert(j == 0);
        }
        lemma_run_step(
            s, pattern, 70, from, i + 78 + b[0] + b[1] + b[2] + b[3], w, spans3, bools0, ",",
            pieces,
        );
    }
    assert(reaches(
        s, pattern, 72, from, i + 80 + b[0] + b[1] + b[2] + b[3], w, spans3, bools0,
    )) by {
        lemma_word_step(
            s, pattern, 71, from, i + 79 + b[0] + b[1] + b[2] + b[3], w, spans3, bools0, 6,
        );
    }
    assert(reaches(
        s, pattern, 73, from, i + 81 + b[0] + b[1] + b[2] + b[3], w, spans3, bools0,
    )) by {
        lemma_run_close();
        let pieces = seq![")"@];
        assert forall|j: int| 0 <= j < pieces.len() implies reads(
            s,
            i + 80 + b[0] + b[1] + b[2] + b[3] + j,
            #[trigger] pieces[j],
        ) by {
            assert(j == 0);
        }
        lemma_run_step(
            s, pattern, 72, from, i + 80 + b[0] + b[1] + b[2] + b[3], w, spans3, bools0, ")",
            pieces,
        );
    }
    let spans4 = spans3.update(1, Some((i + 53 + b[0] + b[1], i + 81 + b[0] + b[1] + b[2] + b[3])));
    assert(reaches(
        s, pattern, 74, from, i + 81 + b[0] + b[1] + b[2] + b[3], w, spans4, bools0,
    )) by {
        lemma_end_step(
            s, pattern, 73, from, i + 81 + b[0] + b[1] + b[2] + b[3], w, spans3, bools0, 1,
            i + 53 + b[0] + b[1],
        );
    }
    assert(reaches(
        s, pattern, 75, from, i + 82 + b[0] + b[1] + b[2] + b[3], w, spans4, bools0,
    )) by {
        lemma_run_comma();
        let pieces = seq![","@];
        assert forall|j: int| 0 <= j < pieces.len() implies reads(
            s,
            i + 81 + b[0] + b[1] + b[2] + b[3] + j,
            #[trigger] pieces[j],
        ) by {
            assert(j == 0);
        }
        lemma_run_step(
            s, pattern, 74, from, i + 81 + b[0] + b[1] + b[2] + b[3], w, spans4, bools0, ",",
            pieces,
        );
    }
    assert(reaches(
        s, pattern, 76, from, i + 83 + b[0] + b[1] + b[2] + b[3], w, spans4, bools0,
    )) by {
        lemma_word_step(
            s, pattern, 75, from, i + 82 + b[0] + b[1] + b[2] + b[3], w, spans4, bools0, 9,
        );
    }
    assert(reaches(
        s, pattern, 77, from, i + 84 + b[0] + b[1] + b[2] + b[3], w, spans4, bools0,
    )) by {
        lemma_run_is();
        let pieces = seq!["="@];
        assert forall|j: int| 0 <= j < pieces.len() implies reads(
            s,
            i + 83 + b[0] + b[1] + b[2] + b[3] + j,
            #[trigger] pieces[j],
        ) by {
            assert(j == 0);
        }
        lemma_run_step(
            s, pattern, 76, from, i + 83 + b[0] + b[1] + b[2] + b[3], w, spans4, bools0, "=",
            pieces,
        );
    }
    assert(reaches(
        s, pattern, 78, from, i + 85 + b[0] + b[1] + b[2] + b[3], w, spans4, bools0,
    )) by {
        lemma_word_step(
            s, pattern, 77, from, i + 84 + b[0] + b[1] + b[2] + b[3], w, spans4, bools0, 5,
        );
    }
    assert(reaches(
        s, pattern, 79, from, i + 87 + b[0] + b[1] + b[2] + b[3], w, spans4, bools0,
    )) by {
        lemma_null_step(
            s, pattern, 78, from, i + 85 + b[0] + b[1] + b[2] + b[3], w, spans4, bools0, true,
        );
    }
    assert(reaches(
        s, pattern, 80, from, i + 90 + b[0] + b[1] + b[2] + b[3], w, spans4, bools0,
    )) by {
        lemma_run_choice_null_colon();
        let pieces = seq!["?"@, "null"@, ":"@];
        assert forall|j: int| 0 <= j < pieces.len() implies reads(
            s,
            i + 87 + b[0] + b[1] + b[2] + b[3] + j,
            #[trigger] pieces[j],
        ) by {
            assert(j == 0 || j == 1 || j == 2);
        }
        lemma_run_step(
            s, pattern, 79, from, i + 87 + b[0] + b[1] + b[2] + b[3], w, spans4, bools0,
            "? null :", pieces,
        );
    }
    assert(reaches(
        s, pattern, 81, from, i + 91 + b[0] + b[1] + b[2] + b[3], w, spans4, bools0,
    )) by {
        lemma_any_step(s, pattern, 80, from, i + 90 + b[0] + b[1] + b[2] + b[3], w, spans4, bools0);
    }
    assert(reaches(
        s, pattern, 82, from, i + 92 + b[0] + b[1] + b[2] + b[3], w, spans4, bools0,
    )) by {
        lemma_run_open();
        let pieces = seq!["("@];
        assert forall|j: int| 0 <= j < pieces.len() implies reads(
            s,
            i + 91 + b[0] + b[1] + b[2] + b[3] + j,
            #[trigger] pieces[j],
        ) by {
            assert(j == 0);
        }
        lemma_run_step(
            s, pattern, 81, from, i + 91 + b[0] + b[1] + b[2] + b[3], w, spans4, bools0, "(",
            pieces,
        );
    }
    assert(reaches(
        s, pattern, 83, from, i + 93 + b[0] + b[1] + b[2] + b[3], w, spans4, bools0,
    )) by {
        lemma_word_step(
            s, pattern, 82, from, i + 92 + b[0] + b[1] + b[2] + b[3], w, spans4, bools0, 8,
        );
    }
    assert(reaches(
        s, pattern, 84, from, i + 94 + b[0] + b[1] + b[2] + b[3], w, spans4, bools0,
    )) by {
        lemma_run_comma();
        let pieces = seq![","@];
        assert forall|j: int| 0 <= j < pieces.len() implies reads(
            s,
            i + 93 + b[0] + b[1] + b[2] + b[3] + j,
            #[trigger] pieces[j],
        ) by {
            assert(j == 0);
        }
        lemma_run_step(
            s, pattern, 83, from, i + 93 + b[0] + b[1] + b[2] + b[3], w, spans4, bools0, ",",
            pieces,
        );
    }
    assert(reaches(
        s, pattern, 85, from, i + 95 + b[0] + b[1] + b[2] + b[3], w, spans4, bools0,
    )) by {
        lemma_word_step(
            s, pattern, 84, from, i + 94 + b[0] + b[1] + b[2] + b[3], w, spans4, bools0, 5,
        );
    }
    assert(reaches(
        s, pattern, 86, from, i + 96 + b[0] + b[1] + b[2] + b[3], w, spans4, bools0,
    )) by {
        lemma_run_close();
        let pieces = seq![")"@];
        assert forall|j: int| 0 <= j < pieces.len() implies reads(
            s,
            i + 95 + b[0] + b[1] + b[2] + b[3] + j,
            #[trigger] pieces[j],
        ) by {
            assert(j == 0);
        }
        lemma_run_step(
            s, pattern, 85, from, i + 95 + b[0] + b[1] + b[2] + b[3], w, spans4, bools0, ")",
            pieces,
        );
    }
    reveal(reaches);
}

/// Nothing but this is matched as such: the tier of a conversation.
pub proof fn lemma_found_is_conversation_tier(s: Seq<char>, i: int, ids: Seq<Option<int>>)
    requires
        0 <= i,
        ids.len() == 16,
        matched_at(s, i, conversation_guarded_atoms(), ids) is Some,
    ensures
        ({
            let m = matched_at(s, i, conversation_guarded_atoms(), ids)->0;
            exists|b: Seq<int>| #[trigger] is_conversation_tier(s, i, words_of(s, m), b)
        }),
{
    lemma_conversation_tier_steps();
    let pattern = conversation_guarded_atoms();
    let from = unmatched(i, ids);
    let last = matched_at(s, i, pattern, ids)->0;
    let w = words_of(s, last);
    let b = Seq::<int>::empty();
    assert(came(s, pattern, 0, from, i, last)) by {
        reveal(came);
    }
    assert(word_at(s, i, w[4]) && came(s, pattern, 1, from, i + 1, last)) by {
        lemma_word_came(s, pattern, 0, from, i, last, 4);
    }
    assert(reads(s, i + 1, "="@) && came(s, pattern, 2, from, i + 2, last)) by {
        lemma_run_is();
        let pieces = seq!["="@];
        lemma_run_came(s, pattern, 1, from, i + 1, last, "=", pieces);
        assert(pieces[0] == "="@);
    }
    assert(ident_at(s, i + 2) && came(s, pattern, 3, from, i + 3, last)) by {
        lemma_any_came(s, pattern, 2, from, i + 2, last);
    }
    assert(null_at(s, i + 3, true) && came(s, pattern, 4, from, i + 5, last)) by {
        lemma_null_came(s, pattern, 3, from, i + 3, last, true);
    }
    assert(reads(s, i + 5, "&&"@) && came(s, pattern, 5, from, i + 6, last)) by {
        lemma_run_and();
        let pieces = seq!["&&"@];
        lemma_run_came(s, pattern, 4, from, i + 5, last, "&&", pieces);
        assert(pieces[0] == "&&"@);
    }
    assert(ident_at(s, i + 6) && came(s, pattern, 6, from, i + 7, last)) by {
        lemma_any_came(s, pattern, 5, from, i + 6, last);
    }
    assert(null_at(s, i + 7, false) && came(s, pattern, 7, from, i + 9, last)) by {
        lemma_null_came(s, pattern, 6, from, i + 7, last, false);
    }
    assert(reads(s, i + 9, "?"@) && came(s, pattern, 8, from, i + 10, last)) by {
        lemma_run_choice();
        let pieces = seq!["?"@];
        lemma_run_came(s, pattern, 7, from, i + 9, last, "?", pieces);
        assert(pieces[0] == "?"@);
    }
    assert(ident_at(s, i + 10) && came(s, pattern, 9, from, i + 11, last)) by {
        lemma_any_came(s, pattern, 8, from, i + 10, last);
    }
    assert(member_at(s, i + 11, "value"@) && came(s, pattern, 10, from, i + 13, last)) by {
        lemma_member_came(s, pattern, 9, from, i + 11, last, "value");
    }
    assert(reads(s, i + 13, ":"@) && came(s, pattern, 11, from, i + 14, last)) by {
        lemma_run_colon();
        let pieces = seq![":"@];
        lemma_run_came(s, pattern, 10, from, i + 13, last, ":", pieces);
        assert(pieces[0] == ":"@);
    }
    assert(ident_at(s, i + 14) && came(s, pattern, 12, from, i + 15, last)) by {
        lemma_any_came(s, pattern, 11, from, i + 14, last);
    }
    assert(reads(s, i + 15, "?"@) && came(s, pattern, 13, from, i + 16, last)) by {
        lemma_run_choice();
        let pieces = seq!["?"@];
        lemma_run_came(s, pattern, 12, from, i + 15, last, "?", pieces);
        assert(pieces[0] == "?"@);
    }
    assert(ident_at(s, i + 16) && came(s, pattern, 14, from, i + 17, last)) by {
        lemma_any_came(s, pattern, 13, from, i + 16, last);
    }
    assert(reads(s, i + 17, "("@) && came(s, pattern, 15, from, i + 18, last)) by {
        lemma_run_open();
        let pieces = seq!["("@];
        lemma_run_came(s, pattern, 14, from, i + 17, last, "(", pieces);
        assert(pieces[0] == "("@);
    }
    assert(ident_at(s, i + 18) && came(s, pattern, 16, from, i + 19, last)) by {
        lemma_any_came(s, pattern, 15, from, i + 18, last);
    }
    assert(reads(s, i + 19, ")"@) && reads(s, i + 20, ":"@)
        && came(s, pattern, 17, from, i + 21, last)) by {
        lemma_run_close_colon();
        let pieces = seq![")"@, ":"@];
        lemma_run_came(s, pattern, 16, from, i + 19, last, ") :", pieces);
        assert(pieces[0] == ")"@);
        assert(pieces[1] == ":"@);
    }
    assert(ident_at(s, i + 21) && came(s, pattern, 18, from, i + 22, last)) by {
        lemma_any_came(s, pattern, 17, from, i + 21, last);
    }
    assert(member_at(s, i + 22, "serviceTier"@) && came(s, pattern, 19, from, i + 24, last)) by {
        lemma_member_came(s, pattern, 18, from, i + 22, last, "serviceTier");
    }
    assert(reads(s, i + 24, ","@) && came(s, pattern, 20, from, i + 25, last)) by {
        lemma_run_comma();
        let pieces = seq![","@];
        lemma_run_came(s, pattern, 19, from, i + 24, last, ",", pieces);
        assert(pieces[0] == ","@);
    }
    assert(word_at(s, i + 25, w[0]) && came(s, pattern, 21, from, i + 26, last)) by {
        lemma_word_came(s, pattern, 20, from, i + 25, last, 0);
    }
    assert(reads(s, i + 26, "="@) && came(s, pattern, 22, from, i + 27, last)) by {
        lemma_run_is();
        let pieces = seq!["="@];
        lemma_run_came(s, pattern, 21, from, i + 26, last, "=", pieces);
        assert(pieces[0] == "="@);
    }
    assert(came(s, pattern, 23, from, i + 27, last)) by {
        lemma_begin_came(s, pattern, 22, from, i + 27, last, 0);
    }
    assert(word_at(s, i + 27, w[1]) && came(s, pattern, 24, from, i + 28, last)) by {
        lemma_word_came(s, pattern, 23, from, i + 27, last, 1);
    }
    assert(null_at(s, i + 28, false) && came(s, pattern, 25, from, i + 30, last)) by {
        lemma_null_came(s, pattern, 24, from, i + 28, last, false);
    }
    assert(reads(s, i + 30, "&&"@) && came(s, pattern, 26, from, i + 31, last)) by {
        lemma_run_and();
        let pieces = seq!["&&"@];
        lemma_run_came(s, pattern, 25, from, i + 30, last, "&&", pieces);
        assert(pieces[0] == "&&"@);
    }
    assert(word_at(s, i + 31, w[2]) && came(s, pattern, 27, from, i + 32, last)) by {
        lemma_word_came(s, pattern, 26, from, i + 31, last, 2);
    }
    assert(member_at(s, i + 32, "serviceTier"@) && came(s, pattern, 28, from, i + 34, last)) by {
        lemma_member_came(s, pattern, 27, from, i + 32, last, "serviceTier");
    }
    assert(reads(s, i + 34, "!=="@) && came(s, pattern, 29, from, i + 35, last)) by {
        lemma_run_not_same();
        let pieces = seq!["!=="@];
        lemma_run_came(s, pattern, 28, from, i + 34, last, "!==", pieces);
        assert(pieces[0] == "!=="@);
    }
    let count0 = lemma_undefined_came(s, pattern, 29, from, i + 35, last);
    let b = b.push(count0);
    assert(b[0] == count0);
    assert(reads(s, i + 35 + b[0], "?"@) && came(s, pattern, 31, from, i + 36 + b[0], last)) by {
        lemma_run_choice();
        let pieces = seq!["?"@];
        lemma_run_came(s, pattern, 30, from, i + 35 + b[0], last, "?", pieces);
        assert(pieces[0] == "?"@);
    }
    assert(word_at(s, i + 36 + b[0], w[2]) && came(s, pattern, 32, from, i + 37 + b[0], last)) by {
        lemma_word_came(s, pattern, 31, from, i + 36 + b[0], last, 2);
    }
    assert(member_at(s, i + 37 + b[0], "serviceTier"@)
        && came(s, pattern, 33, from, i + 39 + b[0], last)) by {
        lemma_member_came(s, pattern, 32, from, i + 37 + b[0], last, "serviceTier");
    }
    assert(reads(s, i + 39 + b[0], ":"@) && came(s, pattern, 34, from, i + 40 + b[0], last)) by {
        lemma_run_colon();
        let pieces = seq![":"@];
        lemma_run_came(s, pattern, 33, from, i + 39 + b[0], last, ":", pieces);
        assert(pieces[0] == ":"@);
    }
    assert(word_at(s, i + 40 + b[0], w[1]) && came(s, pattern, 35, from, i + 41 + b[0], last)) by {
        lemma_word_came(s, pattern, 34, from, i + 40 + b[0], last, 1);
    }
    assert(null_at(s, i + 41 + b[0], false) && came(s, pattern, 36, from, i + 43 + b[0], last)) by {
        lemma_null_came(s, pattern, 35, from, i + 41 + b[0], last, false);
    }
    assert(reads(s, i + 43 + b[0], "&&"@) && came(s, pattern, 37, from, i + 44 + b[0], last)) by {
        lemma_run_and();
        let pieces = seq!["&&"@];
        lemma_run_came(s, pattern, 36, from, i + 43 + b[0], last, "&&", pieces);
        assert(pieces[0] == "&&"@);
    }
    assert(word_at(s, i + 44 + b[0], w[3]) && came(s, pattern, 38, from, i + 45 + b[0], last)) by {
        lemma_word_came(s, pattern, 37, from, i + 44 + b[0], last, 3);
    }
    assert(reads(s, i + 45 + b[0], "!=="@) && came(s, pattern, 39, from, i + 46 + b[0], last)) by {
        lemma_run_not_same();
        let pieces = seq!["!=="@];
        lemma_run_came(s, pattern, 38, from, i + 45 + b[0], last, "!==", pieces);
        assert(pieces[0] == "!=="@);
    }
    let count1 = lemma_undefined_came(s, pattern, 39, from, i + 46 + b[0], last);
    let b = b.push(count1);
    assert(b[0] == count0 && b[1] == count1);
    assert(reads(s, i + 46 + b[0] + b[1], "?"@)
        && came(s, pattern, 41, from, i + 47 + b[0] + b[1], last)) by {
        lemma_run_choice();
        let pieces = seq!["?"@];
        lemma_run_came(s, pattern, 40, from, i + 46 + b[0] + b[1], last, "?", pieces);
        assert(pieces[0] == "?"@);
    }
    assert(word_at(s, i + 47 + b[0] + b[1], w[3])
        && came(s, pattern, 42, from, i + 48 + b[0] + b[1], last)) by {
        lemma_word_came(s, pattern, 41, from, i + 47 + b[0] + b[1], last, 3);
    }
    assert(reads(s, i + 48 + b[0] + b[1], ":"@)
        && came(s, pattern, 43, from, i + 49 + b[0] + b[1], last)) by {
        lemma_run_colon();
        let pieces = seq![":"@];
        lemma_run_came(s, pattern, 42, from, i + 48 + b[0] + b[1], last, ":", pieces);
        assert(pieces[0] == ":"@);
    }
    assert(word_at(s, i + 49 + b[0] + b[1], w[4])
        && came(s, pattern, 44, from, i + 50 + b[0] + b[1], last)) by {
        lemma_word_came(s, pattern, 43, from, i + 49 + b[0] + b[1], last, 4);
    }
    assert(came(s, pattern, 45, from, i + 50 + b[0] + b[1], last)) by {
        lemma_end_came(s, pattern, 44, from, i + 50 + b[0] + b[1], last, 0);
    }
    assert(reads(s, i + 50 + b[0] + b[1], ";"@)
        && came(s, pattern, 46, from, i + 51 + b[0] + b[1], last)) by {
        lemma_run_semicolon();
        let pieces = seq![";"@];
        lemma_run_came(s, pattern, 45, from, i + 50 + b[0] + b[1], last, ";", pieces);
        assert(pieces[0] == ";"@);
    }
    assert(word_at(s, i + 51 + b[0] + b[1], w[5])
        && came(s, pattern, 47, from, i + 52 + b[0] + b[1], last)) by {
        lemma_word_came(s, pattern, 46, from, i + 51 + b[0] + b[1], last, 5);
    }
    assert(reads(s, i + 52 + b[0] + b[1], "="@)
        && came(s, pattern, 48, from, i + 53 + b[0] + b[1], last)) by {
        lemma_run_is();
        let pieces = seq!["="@];
        lemma_run_came(s, pattern, 47, from, i + 52 + b[0] + b[1], last, "=", pieces);
        assert(pieces[0] == "="@);
    }
    assert(came(s, pattern, 49, from, i + 53 + b[0] + b[1], last)) by {
        lemma_begin_came(s, pattern, 48, from, i + 53 + b[0] + b[1], last, 1);
    }
    assert(word_at(s, i + 53 + b[0] + b[1], w[1])
        && came(s, pattern, 50, from, i + 54 + b[0] + b[1], last)) by {
        lemma_word_came(s, pattern, 49, from, i + 53 + b[0] + b[1], last, 1);
    }
    assert(null_at(s, i + 54 + b[0] + b[1], false)
        && came(s, pattern, 51, from, i + 56 + b[0] + b[1], last)) by {
        lemma_null_came(s, pattern, 50, from, i + 54 + b[0] + b[1], last, false);
    }
    assert(reads(s, i + 56 + b[0] + b[1], "&&"@) && reads(s, i + 57 + b[0] + b[1], "("@)
        && came(s, pattern, 52, from, i + 58 + b[0] + b[1], last)) by {
        lemma_run_and_open();
        let pieces = seq!["&&"@, "("@];
        lemma_run_came(s, pattern, 51, from, i + 56 + b[0] + b[1], last, "&& (", pieces);
        assert(pieces[0] == "&&"@);
        assert(pieces[1] == "("@);
    }
    assert(word_at(s, i + 58 + b[0] + b[1], w[2])
        && came(s, pattern, 53, from, i + 59 + b[0] + b[1], last)) by {
        lemma_word_came(s, pattern, 52, from, i + 58 + b[0] + b[1], last, 2);
    }
    assert(member_at(s, i + 59 + b[0] + b[1], "serviceTier"@)
        && came(s, pattern, 54, from, i + 61 + b[0] + b[1], last)) by {
        lemma_member_came(s, pattern, 53, from, i + 59 + b[0] + b[1], last, "serviceTier");
    }
    assert(reads(s, i + 61 + b[0] + b[1], "!=="@)
        && came(s, pattern, 55, from, i + 62 + b[0] + b[1], last)) by {
        lemma_run_not_same();
        let pieces = seq!["!=="@];
        lemma_run_came(s, pattern, 54, from, i + 61 + b[0] + b[1], last, "!==", pieces);
        assert(pieces[0] == "!=="@);
    }
    let count2 = lemma_undefined_came(s, pattern, 55, from, i + 62 + b[0] + b[1], last);
    let b = b.push(count2);
    assert(b[0] == count0 && b[1] == count1 && b[2] == count2);
    assert(reads(s, i + 62 + b[0] + b[1] + b[2], "||"@)
        && came(s, pattern, 57, from, i + 63 + b[0] + b[1] + b[2], last)) by {
        lemma_run_or();
        let pieces = seq!["||"@];
        lemma_run_came(s, pattern, 56, from, i + 62 + b[0] + b[1] + b[2], last, "||", pieces);
        assert(pieces[0] == "||"@);
    }
    assert(word_at(s, i + 63 + b[0] + b[1] + b[2], w[3])
        && came(s, pattern, 58, from, i + 64 + b[0] + b[1] + b[2], last)) by {
        lemma_word_came(s, pattern, 57, from, i + 63 + b[0] + b[1] + b[2], last, 3);
    }
    assert(reads(s, i + 64 + b[0] + b[1] + b[2], "!=="@)
        && came(s, pattern, 59, from, i + 65 + b[0] + b[1] + b[2], last)) by {
        lemma_run_not_same();
        let pieces = seq!["!=="@];
        lemma_run_came(s, pattern, 58, from, i + 64 + b[0] + b[1] + b[2], last, "!==", pieces);
        assert(pieces[0] == "!=="@);
    }
    let count3 = lemma_undefined_came(s, pattern, 59, from, i + 65 + b[0] + b[1] + b[2], last);
    let b = b.push(count3);
    assert(b[0] == count0 && b[1] == count1 && b[2] == count2 && b[3] == count3);
    assert(reads(s, i + 65 + b[0] + b[1] + b[2] + b[3], ")"@)
        && reads(s, i + 66 + b[0] + b[1] + b[2] + b[3], "?"@)
        && came(s, pattern, 61, from, i + 67 + b[0] + b[1] + b[2] + b[3], last)) by {
        lemma_run_close_choice();
        let pieces = seq![")"@, "?"@];
        lemma_run_came(
            s, pattern, 60, from, i + 65 + b[0] + b[1] + b[2] + b[3], last, ") ?", pieces,
        );
        assert(pieces[0] == ")"@);
        assert(pieces[1] == "?"@);
    }
    assert(word_at(s, i + 67 + b[0] + b[1] + b[2] + b[3], w[6])
        && came(s, pattern, 62, from, i + 68 + b[0] + b[1] + b[2] + b[3], last)) by {
        lemma_word_came(s, pattern, 61, from, i + 67 + b[0] + b[1] + b[2] + b[3], last, 6);
    }
    assert(reads(s, i + 68 + b[0] + b[1] + b[2] + b[3], "?"@)
        && came(s, pattern, 63, from, i + 69 + b[0] + b[1] + b[2] + b[3], last)) by {
        lemma_run_choice();
        let pieces = seq!["?"@];
        lemma_run_came(s, pattern, 62, from, i + 68 + b[0] + b[1] + b[2] + b[3], last, "?", pieces);
        assert(pieces[0] == "?"@);
    }
    assert(word_at(s, i + 69 + b[0] + b[1] + b[2] + b[3], w[0])
        && came(s, pattern, 64, from, i + 70 + b[0] + b[1] + b[2] + b[3], last)) by {
        lemma_word_came(s, pattern, 63, from, i + 69 + b[0] + b[1] + b[2] + b[3], last, 0);
    }
    assert(reads(s, i + 70 + b[0] + b[1] + b[2] + b[3], ":"@)
        && reads(s, i + 71 + b[0] + b[1] + b[2] + b[3], "null"@)
        && reads(s, i + 72 + b[0] + b[1] + b[2] + b[3], ":"@)
        && came(s, pattern, 65, from, i + 73 + b[0] + b[1] + b[2] + b[3], last)) by {
        lemma_run_colon_null_colon();
        let pieces = seq![":"@, "null"@, ":"@];
        lemma_run_came(
            s, pattern, 64, from, i + 70 + b[0] + b[1] + b[2] + b[3], last, ": null :", pieces,
        );
        assert(pieces[0] == ":"@);
        assert(pieces[1] == "null"@);
        assert(pieces[2] == ":"@);
    }
    assert(word_at(s, i + 73 + b[0] + b[1] + b[2] + b[3], w[7])
        && came(s, pattern, 66, from, i + 74 + b[0] + b[1] + b[2] + b[3], last)) by {
        lemma_word_came(s, pattern, 65, from, i + 73 + b[0] + b[1] + b[2] + b[3], last, 7);
    }
    assert(reads(s, i + 74 + b[0] + b[1] + b[2] + b[3], "("@)
        && came(s, pattern, 67, from, i + 75 + b[0] + b[1] + b[2] + b[3], last)) by {
        lemma_run_open();
        let pieces = seq!["("@];
        lemma_run_came(s, pattern, 66, from, i + 74 + b[0] + b[1] + b[2] + b[3], last, "(", pieces);
        assert(pieces[0] == "("@);
    }
    assert(word_at(s, i + 75 + b[0] + b[1] + b[2] + b[3], w[8])
        && came(s, pattern, 68, from, i + 76 + b[0] + b[1] + b[2] + b[3], last)) by {
        lemma_word_came(s, pattern, 67, from, i + 75 + b[0] + b[1] + b[2] + b[3], last, 8);
    }
    assert(reads(s, i + 76 + b[0] + b[1] + b[2] + b[3], ","@)
        && came(s, pattern, 69, from, i + 77 + b[0] + b[1] + b[2] + b[3], last)) by {
        lemma_run_comma();
        let pieces = seq![","@];
        lemma_run_came(s, pattern, 68, from, i + 76 + b[0] + b[1] + b[2] + b[3], last, ",", pieces);
        assert(pieces[0] == ","@);
    }
    assert(word_at(s, i + 77 + b[0] + b[1] + b[2] + b[3], w[0])
        && came(s, pattern, 70, from, i + 78 + b[0] + b[1] + b[2] + b[3], last)) by {
        lemma_word_came(s, pattern, 69, from, i + 77 + b[0] + b[1] + b[2] + b[3], last, 0);
    }
    assert(reads(s, i + 78 + b[0] + b[1] + b[2] + b[3], ","@)
        && came(s, pattern, 71, from, i + 79 + b[0] + b[1] + b[2] + b[3], last)) by {
        lemma_run_comma();
        let pieces = seq![","@];
        lemma_run_came(s, pattern, 70, from, i + 78 + b[0] + b[1] + b[2] + b[3], last, ",", pieces);
        assert(pieces[0] == ","@);
    }
    assert(word_at(s, i + 79 + b[0] + b[1] + b[2] + b[3], w[6])
        && came(s, pattern, 72, from, i + 80 + b[0] + b[1] + b[2] + b[3], last)) by {
        lemma_word_came(s, pattern, 71, from, i + 79 + b[0] + b[1] + b[2] + b[3], last, 6);
    }
    assert(reads(s, i + 80 + b[0] + b[1] + b[2] + b[3], ")"@)
        && came(s, pattern, 73, from, i + 81 + b[0] + b[1] + b[2] + b[3], last)) by {
        lemma_run_close();
        let pieces = seq![")"@];
        lemma_run_came(s, pattern, 72, from, i + 80 + b[0] + b[1] + b[2] + b[3], last, ")", pieces);
        assert(pieces[0] == ")"@);
    }
    assert(came(s, pattern, 74, from, i + 81 + b[0] + b[1] + b[2] + b[3], last)) by {
        lemma_end_came(s, pattern, 73, from, i + 81 + b[0] + b[1] + b[2] + b[3], last, 1);
    }
    assert(reads(s, i + 81 + b[0] + b[1] + b[2] + b[3], ","@)
        && came(s, pattern, 75, from, i + 82 + b[0] + b[1] + b[2] + b[3], last)) by {
        lemma_run_comma();
        let pieces = seq![","@];
        lemma_run_came(s, pattern, 74, from, i + 81 + b[0] + b[1] + b[2] + b[3], last, ",", pieces);
        assert(pieces[0] == ","@);
    }
    assert(word_at(s, i + 82 + b[0] + b[1] + b[2] + b[3], w[9])
        && came(s, pattern, 76, from, i + 83 + b[0] + b[1] + b[2] + b[3], last)) by {
        lemma_word_came(s, pattern, 75, from, i + 82 + b[0] + b[1] + b[2] + b[3], last, 9);
    }
    assert(reads(s, i + 83 + b[0] + b[1] + b[2] + b[3], "="@)
        && came(s, pattern, 77, from, i + 84 + b[0] + b[1] + b[2] + b[3], last)) by {
        lemma_run_is();
        let pieces = seq!["="@];
        lemma_run_came(s, pattern, 76, from, i + 83 + b[0] + b[1] + b[2] + b[3], last, "=", pieces);
        assert(pieces[0] == "="@);
    }
    assert(word_at(s, i + 84 + b[0] + b[1] + b[2] + b[3], w[5])
        && came(s, pattern, 78, from, i + 85 + b[0] + b[1] + b[2] + b[3], last)) by {
        lemma_word_came(s, pattern, 77, from, i + 84 + b[0] + b[1] + b[2] + b[3], last, 5);
    }
    assert(null_at(s, i + 85 + b[0] + b[1] + b[2] + b[3], true)
        && came(s, pattern, 79, from, i + 87 + b[0] + b[1] + b[2] + b[3], last)) by {
        lemma_null_came(s, pattern, 78, from, i + 85 + b[0] + b[1] + b[2] + b[3], last, true);
    }
    assert(reads(s, i + 87 + b[0] + b[1] + b[2] + b[3], "?"@)
        && reads(s, i + 88 + b[0] + b[1] + b[2] + b[3], "null"@)
        && reads(s, i + 89 + b[0] + b[1] + b[2] + b[3], ":"@)
        && came(s, pattern, 80, from, i + 90 + b[0] + b[1] + b[2] + b[3], last)) by {
        lemma_run_choice_null_colon();
        let pieces = seq!["?"@, "null"@, ":"@];
        lemma_run_came(
            s, pattern, 79, from, i + 87 + b[0] + b[1] + b[2] + b[3], last, "? null :", pieces,
        );
        assert(pieces[0] == "?"@);
        assert(pieces[1] == "null"@);
        assert(pieces[2] == ":"@);
    }
    assert(ident_at(s, i + 90 + b[0] + b[1] + b[2] + b[3])
        && came(s, pattern, 81, from, i + 91 + b[0] + b[1] + b[2] + b[3], last)) by {
        lemma_any_came(s, pattern, 80, from, i + 90 + b[0] + b[1] + b[2] + b[3], last);
    }
    assert(reads(s, i + 91 + b[0] + b[1] + b[2] + b[3], "("@)
        && came(s, pattern, 82, from, i + 92 + b[0] + b[1] + b[2] + b[3], last)) by {
        lemma_run_open();
        let pieces = seq!["("@];
        lemma_run_came(s, pattern, 81, from, i + 91 + b[0] + b[1] + b[2] + b[3], last, "(", pieces);
        assert(pieces[0] == "("@);
    }
    assert(word_at(s, i + 92 + b[0] + b[1] + b[2] + b[3], w[8])
        && came(s, pattern, 83, from, i + 93 + b[0] + b[1] + b[2] + b[3], last)) by {
        lemma_word_came(s, pattern, 82, from, i + 92 + b[0] + b[1] + b[2] + b[3], last, 8);
    }
    assert(reads(s, i + 93 + b[0] + b[1] + b[2] + b[3], ","@)
        && came(s, pattern, 84, from, i + 94 + b[0] + b[1] + b[2] + b[3], last)) by {
        lemma_run_comma();
        let pieces = seq![","@];
        lemma_run_came(s, pattern, 83, from, i + 93 + b[0] + b[1] + b[2] + b[3], last, ",", pieces);
        assert(pieces[0] == ","@);
    }
    assert(word_at(s, i + 94 + b[0] + b[1] + b[2] + b[3], w[5])
        && came(s, pattern, 85, from, i + 95 + b[0] + b[1] + b[2] + b[3], last)) by {
        lemma_word_came(s, pattern, 84, from, i + 94 + b[0] + b[1] + b[2] + b[3], last, 5);
    }
    assert(reads(s, i + 95 + b[0] + b[1] + b[2] + b[3], ")"@)
        && came(s, pattern, 86, from, i + 96 + b[0] + b[1] + b[2] + b[3], last)) by {
        lemma_run_close();
        let pieces = seq![")"@];
        lemma_run_came(s, pattern, 85, from, i + 95 + b[0] + b[1] + b[2] + b[3], last, ")", pieces);
        assert(pieces[0] == ")"@);
    }
    assert(is_conversation_tier(s, i, w, b));
}

/// The tier of the settings, with what a request takes of it.
pub open spec fn is_settings_tier(s: Seq<char>, i: int, w: Seq<Seq<char>>) -> bool {
    &&& word_at(s, i, w[4])
    &&& reads(s, i + 1, "="@)
    &&& ident_at(s, i + 2)
    &&& null_at(s, i + 3, true)
    &&& reads(s, i + 5, "&&"@)
    &&& ident_at(s, i + 6)
    &&& null_at(s, i + 7, false)
    &&& reads(s, i + 9, "?"@)
    &&& ident_at(s, i + 10)
    &&& member_at(s, i + 11, "value"@)
    &&& reads(s, i + 13, ":"@)
    &&& ident_at(s, i + 14)
    &&& reads(s, i + 15, "?"@)
    &&& ident_at(s, i + 16)
    &&& reads(s, i + 17, "("@)
    &&& ident_at(s, i + 18)
    &&& reads(s, i + 19, ")"@)
    &&& reads(s, i + 20, ":"@)
    &&& ident_at(s, i + 21)
    &&& member_at(s, i + 22, "serviceTier"@)
    &&& reads(s, i + 24, ","@)
    &&& word_at(s, i + 25, w[0])
    &&& reads(s, i + 26, "="@)
    &&& word_at(s, i + 27, w[4])
    &&& reads(s, i + 28, ";"@)
    &&& word_at(s, i + 29, w[5])
    &&& reads(s, i + 30, "="@)
    &&& word_at(s, i + 31, w[7])
    &&& reads(s, i + 32, "("@)
    &&& word_at(s, i + 33, w[8])
    &&& reads(s, i + 34, ","@)
    &&& word_at(s, i + 35, w[0])
    &&& reads(s, i + 36, ","@)
    &&& word_at(s, i + 37, w[6])
    &&& reads(s, i + 38, ")"@)
    &&& reads(s, i + 39, ","@)
    &&& word_at(s, i + 40, w[9])
    &&& reads(s, i + 41, "="@)
    &&& word_at(s, i + 42, w[5])
    &&& null_at(s, i + 43, true)
    &&& reads(s, i + 45, "?"@)
    &&& reads(s, i + 46, "null"@)
    &&& reads(s, i + 47, ":"@)
    &&& ident_at(s, i + 48)
    &&& reads(s, i + 49, "("@)
    &&& word_at(s, i + 50, w[8])
    &&& reads(s, i + 51, ","@)
    &&& word_at(s, i + 52, w[5])
    &&& reads(s, i + 53, ")"@)
}

proof fn lemma_settings_tier_steps()
    ensures
        conversation_patched_atoms().len() == 45,
        ({
            let pattern = conversation_patched_atoms();
            &&& pattern[0] == Atom::Ident(4)
            &&& pattern[1] == Atom::ExactRun("=")
            &&& pattern[2] == Atom::AnyIdent
            &&& pattern[3] == Atom::NullEq
            &&& pattern[4] == Atom::ExactRun("&&")
            &&& pattern[5] == Atom::AnyIdent
            &&& pattern[6] == Atom::NullNe
            &&& pattern[7] == Atom::ExactRun("?")
            &&& pattern[8] == Atom::AnyIdent
            &&& pattern[9] == Atom::Member("value")
            &&& pattern[10] == Atom::ExactRun(":")
            &&& pattern[11] == Atom::AnyIdent
            &&& pattern[12] == Atom::ExactRun("?")
            &&& pattern[13] == Atom::AnyIdent
            &&& pattern[14] == Atom::ExactRun("(")
            &&& pattern[15] == Atom::AnyIdent
            &&& pattern[16] == Atom::ExactRun(") :")
            &&& pattern[17] == Atom::AnyIdent
            &&& pattern[18] == Atom::Member("serviceTier")
            &&& pattern[19] == Atom::ExactRun(",")
            &&& pattern[20] == Atom::Ident(0)
            &&& pattern[21] == Atom::ExactRun("=")
            &&& pattern[22] == Atom::Ident(4)
            &&& pattern[23] == Atom::ExactRun(";")
            &&& pattern[24] == Atom::Ident(5)
            &&& pattern[25] == Atom::ExactRun("=")
            &&& pattern[26] == Atom::Ident(7)
            &&& pattern[27] == Atom::ExactRun("(")
            &&& pattern[28] == Atom::Ident(8)
            &&& pattern[29] == Atom::ExactRun(",")
            &&& pattern[30] == Atom::Ident(0)
            &&& pattern[31] == Atom::ExactRun(",")
            &&& pattern[32] == Atom::Ident(6)
            &&& pattern[33] == Atom::ExactRun(") ,")
            &&& pattern[34] == Atom::Ident(9)
            &&& pattern[35] == Atom::ExactRun("=")
            &&& pattern[36] == Atom::Ident(5)
            &&& pattern[37] == Atom::NullEq
            &&& pattern[38] == Atom::ExactRun("? null :")
            &&& pattern[39] == Atom::AnyIdent
            &&& pattern[40] == Atom::ExactRun("(")
            &&& pattern[41] == Atom::Ident(8)
            &&& pattern[42] == Atom::ExactRun(",")
            &&& pattern[43] == Atom::Ident(5)
            &&& pattern[44] == Atom::ExactRun(")")
        }),
{
    reveal(conversation_patched_atoms);
}

/// The tier of the settings is matched wherever it stands, whatever its words are and however
/// it is written, as a whole and with its words.
pub proof fn lemma_settings_tier_is_found(
    s: Seq<char>,
    i: int,
    w: Seq<Seq<char>>,
    ids: Seq<Option<int>>,
)
    requires
        0 <= i,
        ids.len() == 16,
        forall|slot: int|
            0 <= slot < 16 ==> (#[trigger] ids[slot] matches Some(at) ==> token_text(s, at)
                == w[slot]),
        is_settings_tier(s, i, w),
    ensures
        ({
            &&& matched_at(s, i, conversation_patched_atoms(), ids) matches Some(m)
            &&& so_far(s, m, i, i + 54, w, m.spans, m.bools)
        }),
{
    lemma_settings_tier_steps();
    let pattern = conversation_patched_atoms();
    let from = unmatched(i, ids);
    let spans0: Seq<Option<(int, int)>> = seq![None, None, None, None];
    let bools0: Seq<Option<bool>> = seq![None, None, None, None];
    assert(reaches(s, pattern, 0, from, i, w, spans0, bools0)) by {
        reveal(reaches);
        assert(from.spans =~= spans0);
        assert(from.bools =~= bools0);
    }
    assert(reaches(s, pattern, 1, from, i + 1, w, spans0, bools0)) by {
        lemma_word_step(s, pattern, 0, from, i, w, spans0, bools0, 4);
    }
    assert(reaches(s, pattern, 2, from, i + 2, w, spans0, bools0)) by {
        lemma_run_is();
        let pieces = seq!["="@];
        assert forall|j: int| 0 <= j < pieces.len() implies reads(
            s,
            i + 1 + j,
            #[trigger] pieces[j],
        ) by {
            assert(j == 0);
        }
        lemma_run_step(s, pattern, 1, from, i + 1, w, spans0, bools0, "=", pieces);
    }
    assert(reaches(s, pattern, 3, from, i + 3, w, spans0, bools0)) by {
        lemma_any_step(s, pattern, 2, from, i + 2, w, spans0, bools0);
    }
    assert(reaches(s, pattern, 4, from, i + 5, w, spans0, bools0)) by {
        lemma_null_step(s, pattern, 3, from, i + 3, w, spans0, bools0, true);
    }
    assert(reaches(s, pattern, 5, from, i + 6, w, spans0, bools0)) by {
        lemma_run_and();
        let pieces = seq!["&&"@];
        assert forall|j: int| 0 <= j < pieces.len() implies reads(
            s,
            i + 5 + j,
            #[trigger] pieces[j],
        ) by {
            assert(j == 0);
        }
        lemma_run_step(s, pattern, 4, from, i + 5, w, spans0, bools0, "&&", pieces);
    }
    assert(reaches(s, pattern, 6, from, i + 7, w, spans0, bools0)) by {
        lemma_any_step(s, pattern, 5, from, i + 6, w, spans0, bools0);
    }
    assert(reaches(s, pattern, 7, from, i + 9, w, spans0, bools0)) by {
        lemma_null_step(s, pattern, 6, from, i + 7, w, spans0, bools0, false);
    }
    assert(reaches(s, pattern, 8, from, i + 10, w, spans0, bools0)) by {
        lemma_run_choice();
        let pieces = seq!["?"@];
        assert forall|j: int| 0 <= j < pieces.len() implies reads(
            s,
            i + 9 + j,
            #[trigger] pieces[j],
        ) by {
            assert(j == 0);
        }
        lemma_run_step(s, pattern, 7, from, i + 9, w, spans0, bools0, "?", pieces);
    }
    assert(reaches(s, pattern, 9, from, i + 11, w, spans0, bools0)) by {
        lemma_any_step(s, pattern, 8, from, i + 10, w, spans0, bools0);
    }
    assert(reaches(s, pattern, 10, from, i + 13, w, spans0, bools0)) by {
        lemma_member_step(s, pattern, 9, from, i + 11, w, spans0, bools0, "value");
    }
    assert(reaches(s, pattern, 11, from, i + 14, w, spans0, bools0)) by {
        lemma_run_colon();
        let pieces = seq![":"@];
        assert forall|j: int| 0 <= j < pieces.len() implies reads(
            s,
            i + 13 + j,
            #[trigger] pieces[j],
        ) by {
            assert(j == 0);
        }
        lemma_run_step(s, pattern, 10, from, i + 13, w, spans0, bools0, ":", pieces);
    }
    assert(reaches(s, pattern, 12, from, i + 15, w, spans0, bools0)) by {
        lemma_any_step(s, pattern, 11, from, i + 14, w, spans0, bools0);
    }
    assert(reaches(s, pattern, 13, from, i + 16, w, spans0, bools0)) by {
        lemma_run_choice();
        let pieces = seq!["?"@];
        assert forall|j: int| 0 <= j < pieces.len() implies reads(
            s,
            i + 15 + j,
            #[trigger] pieces[j],
        ) by {
            assert(j == 0);
        }
        lemma_run_step(s, pattern, 12, from, i + 15, w, spans0, bools0, "?", pieces);
    }
    assert(reaches(s, pattern, 14, from, i + 17, w, spans0, bools0)) by {
        lemma_any_step(s, pattern, 13, from, i + 16, w, spans0, bools0);
    }
    assert(reaches(s, pattern, 15, from, i + 18, w, spans0, bools0)) by {
        lemma_run_open();
        let pieces = seq!["("@];
        assert forall|j: int| 0 <= j < pieces.len() implies reads(
            s,
            i + 17 + j,
            #[trigger] pieces[j],
        ) by {
            assert(j == 0);
        }
        lemma_run_step(s, pattern, 14, from, i + 17, w, spans0, bools0, "(", pieces);
    }
    assert(reaches(s, pattern, 16, from, i + 19, w, spans0, bools0)) by {
        lemma_any_step(s, pattern, 15, from, i + 18, w, spans0, bools0);
    }
    assert(reaches(s, pattern, 17, from, i + 21, w, spans0, bools0)) by {
        lemma_run_close_colon();
        let pieces = seq![")"@, ":"@];
        assert forall|j: int| 0 <= j < pieces.len() implies reads(
            s,
            i + 19 + j,
            #[trigger] pieces[j],
        ) by {
            assert(j == 0 || j == 1);
        }
        lemma_run_step(s, pattern, 16, from, i + 19, w, spans0, bools0, ") :", pieces);
    }
    assert(reaches(s, pattern, 18, from, i + 22, w, spans0, bools0)) by {
        lemma_any_step(s, pattern, 17, from, i + 21, w, spans0, bools0);
    }
    assert(reaches(s, pattern, 19, from, i + 24, w, spans0, bools0)) by {
        lemma_member_step(s, pattern, 18, from, i + 22, w, spans0, bools0, "serviceTier");
    }
    assert(reaches(s, pattern, 20, from, i + 25, w, spans0, bools0)) by {
        lemma_run_comma();
        let pieces = seq![","@];
        assert forall|j: int| 0 <= j < pieces.len() implies reads(
            s,
            i + 24 + j,
            #[trigger] pieces[j],
        ) by {
            assert(j == 0);
        }
        lemma_run_step(s, pattern, 19, from, i + 24, w, spans0, bools0, ",", pieces);
    }
    assert(reaches(s, pattern, 21, from, i + 26, w, spans0, bools0)) by {
        lemma_word_step(s, pattern, 20, from, i + 25, w, spans0, bools0, 0);
    }
    assert(reaches(s, pattern, 22, from, i + 27, w, spans0, bools0)) by {
        lemma_run_is();
        let pieces = seq!["="@];
        assert forall|j: int| 0 <= j < pieces.len() implies reads(
            s,
            i + 26 + j,
            #[trigger] pieces[j],
        ) by {
            assert(j == 0);
        }
        lemma_run_step(s, pattern, 21, from, i + 26, w, spans0, bools0, "=", pieces);
    }
    assert(reaches(s, pattern, 23, from, i + 28, w, spans0, bools0)) by {
        lemma_word_step(s, pattern, 22, from, i + 27, w, spans0, bools0, 4);
    }
    assert(reaches(s, pattern, 24, from, i + 29, w, spans0, bools0)) by {
        lemma_run_semicolon();
        let pieces = seq![";"@];
        assert forall|j: int| 0 <= j < pieces.len() implies reads(
            s,
            i + 28 + j,
            #[trigger] pieces[j],
        ) by {
            assert(j == 0);
        }
        lemma_run_step(s, pattern, 23, from, i + 28, w, spans0, bools0, ";", pieces);
    }
    assert(reaches(s, pattern, 25, from, i + 30, w, spans0, bools0)) by {
        lemma_word_step(s, pattern, 24, from, i + 29, w, spans0, bools0, 5);
    }
    assert(reaches(s, pattern, 26, from, i + 31, w, spans0, bools0)) by {
        lemma_run_is();
        let pieces = seq!["="@];
        assert forall|j: int| 0 <= j < pieces.len() implies reads(
            s,
            i + 30 + j,
            #[trigger] pieces[j],
        ) by {
            assert(j == 0);
        }
        lemma_run_step(s, pattern, 25, from, i + 30, w, spans0, bools0, "=", pieces);
    }
    assert(reaches(s, pattern, 27, from, i + 32, w, spans0, bools0)) by {
        lemma_word_step(s, pattern, 26, from, i + 31, w, spans0, bools0, 7);
    }
    assert(reaches(s, pattern, 28, from, i + 33, w, spans0, bools0)) by {
        lemma_run_open();
        let pieces = seq!["("@];
        assert forall|j: int| 0 <= j < pieces.len() implies reads(
            s,
            i + 32 + j,
            #[trigger] pieces[j],
        ) by {
            assert(j == 0);
        }
        lemma_run_step(s, pattern, 27, from, i + 32, w, spans0, bools0, "(", pieces);
    }
    assert(reaches(s, pattern, 29, from, i + 34, w, spans0, bools0)) by {
        lemma_word_step(s, pattern, 28, from, i + 33, w, spans0, bools0, 8);
    }
    assert(reaches(s, pattern, 30, from, i + 35, w, spans0, bools0)) by {
        lemma_run_comma();
        let pieces = seq![","@];
        assert forall|j: int| 0 <= j < pieces.len() implies reads(
            s,
            i + 34 + j,
            #[trigger] pieces[j],
        ) by {
            assert(j == 0);
        }
        lemma_run_step(s, pattern, 29, from, i + 34, w, spans0, bools0, ",", pieces);
    }
    assert(reaches(s, pattern, 31, from, i + 36, w, spans0, bools0)) by {
        lemma_word_step(s, pattern, 30, from, i + 35, w, spans0, bools0, 0);
    }
    assert(reaches(s, pattern, 32, from, i + 37, w, spans0, bools0)) by {
        lemma_run_comma();
        let pieces = seq![","@];
        assert forall|j: int| 0 <= j < pieces.len() implies reads(
            s,
            i + 36 + j,
            #[trigger] pieces[j],
        ) by {
            assert(j == 0);
        }
        lemma_run_step(s, pattern, 31, from, i + 36, w, spans0, bools0, ",", pieces);
    }
    assert(reaches(s, pattern, 33, from, i + 38, w, spans0, bools0)) by {
        lemma_word_step(s, pattern, 32, from, i + 37, w, spans0, bools0, 6);
    }
    assert(reaches(s, pattern, 34, from, i + 40, w, spans0, bools0)) by {
        lemma_run_close_comma();
        let pieces = seq![")"@, ","@];
        assert forall|j: int| 0 <= j < pieces.len() implies reads(
            s,
            i + 38 + j,
            #[trigger] pieces[j],
        ) by {
            assert(j == 0 || j == 1);
        }
        lemma_run_step(s, pattern, 33, from, i + 38, w, spans0, bools0, ") ,", pieces);
    }
    assert(reaches(s, pattern, 35, from, i + 41, w, spans0, bools0)) by {
        lemma_word_step(s, pattern, 34, from, i + 40, w, spans0, bools0, 9);
    }
    assert(reaches(s, pattern, 36, from, i + 42, w, spans0, bools0)) by {
        lemma_run_is();
        let pieces = seq!["="@];
        assert forall|j: int| 0 <= j < pieces.len() implies reads(
            s,
            i + 41 + j,
            #[trigger] pieces[j],
        ) by {
            assert(j == 0);
        }
        lemma_run_step(s, pattern, 35, from, i + 41, w, spans0, bools0, "=", pieces);
    }
    assert(reaches(s, pattern, 37, from, i + 43, w, spans0, bools0)) by {
        lemma_word_step(s, pattern, 36, from, i + 42, w, spans0, bools0, 5);
    }
    assert(reaches(s, pattern, 38, from, i + 45, w, spans0, bools0)) by {
        lemma_null_step(s, pattern, 37, from, i + 43, w, spans0, bools0, true);
    }
    assert(reaches(s, pattern, 39, from, i + 48, w, spans0, bools0)) by {
        lemma_run_choice_null_colon();
        let pieces = seq!["?"@, "null"@, ":"@];
        assert forall|j: int| 0 <= j < pieces.len() implies reads(
            s,
            i + 45 + j,
            #[trigger] pieces[j],
        ) by {
            assert(j == 0 || j == 1 || j == 2);
        }
        lemma_run_step(s, pattern, 38, from, i + 45, w, spans0, bools0, "? null :", pieces);
    }
    assert(reaches(s, pattern, 40, from, i + 49, w, spans0, bools0)) by {
        lemma_any_step(s, pattern, 39, from, i + 48, w, spans0, bools0);
    }
    assert(reaches(s, pattern, 41, from, i + 50, w, spans0, bools0)) by {
        lemma_run_open();
        let pieces = seq!["("@];
        assert forall|j: int| 0 <= j < pieces.len() implies reads(
            s,
            i + 49 + j,
            #[trigger] pieces[j],
        ) by {
            assert(j == 0);
        }
        lemma_run_step(s, pattern, 40, from, i + 49, w, spans0, bools0, "(", pieces);
    }
    assert(reaches(s, pattern, 42, from, i + 51, w, spans0, bools0)) by {
        lemma_word_step(s, pattern, 41, from, i + 50, w, spans0, bools0, 8);
    }
    assert(reaches(s, pattern, 43, from, i + 52, w, spans0, bools0)) by {
        lemma_run_comma();
        let pieces = seq![","@];
        assert forall|j: int| 0 <= j < pieces.len() implies reads(
            s,
            i + 51 + j,
            #[trigger] pieces[j],
        ) by {
            assert(j == 0);
        }
        lemma_run_step(s, pattern, 42, from, i + 51, w, spans0, bools0, ",", pieces);
    }
    assert(reaches(s, pattern, 44, from, i + 53, w, spans0, bools0)) by {
        lemma_word_step(s, pattern, 43, from, i + 52, w, spans0, bools0, 5);
    }
    assert(reaches(s, pattern, 45, from, i + 54, w, spans0, bools0)) by {
        lemma_run_close();
        let pieces = seq![")"@];
        assert forall|j: int| 0 <= j < pieces.len() implies reads(
            s,
            i + 53 + j,
            #[trigger] pieces[j],
        ) by {
            assert(j == 0);
        }
        lemma_run_step(s, pattern, 44, from, i + 53, w, spans0, bools0, ")", pieces);
    }
    reveal(reaches);
}

/// Nothing but this is matched as such: the tier of the settings.
pub proof fn lemma_found_is_settings_tier(s: Seq<char>, i: int, ids: Seq<Option<int>>)
    requires
        0 <= i,
        ids.len() == 16,
        matched_at(s, i, conversation_patched_atoms(), ids) is Some,
    ensures
        ({
            let m = matched_at(s, i, conversation_patched_atoms(), ids)->0;
            is_settings_tier(s, i, words_of(s, m))
        }),
{
    lemma_settings_tier_steps();
    let pattern = conversation_patched_atoms();
    let from = unmatched(i, ids);
    let last = matched_at(s, i, pattern, ids)->0;
    let w = words_of(s, last);
    assert(came(s, pattern, 0, from, i, last)) by {
        reveal(came);
    }
    assert(word_at(s, i, w[4]) && came(s, pattern, 1, from, i + 1, last)) by {
        lemma_word_came(s, pattern, 0, from, i, last, 4);
    }
    assert(reads(s, i + 1, "="@) && came(s, pattern, 2, from, i + 2, last)) by {
        lemma_run_is();
        let pieces = seq!["="@];
        lemma_run_came(s, pattern, 1, from, i + 1, last, "=", pieces);
        assert(pieces[0] == "="@);
    }
    assert(ident_at(s, i + 2) && came(s, pattern, 3, from, i + 3, last)) by {
        lemma_any_came(s, pattern, 2, from, i + 2, last);
    }
    assert(null_at(s, i + 3, true) && came(s, pattern, 4, from, i + 5, last)) by {
        lemma_null_came(s, pattern, 3, from, i + 3, last, true);
    }
    assert(reads(s, i + 5, "&&"@) && came(s, pattern, 5, from, i + 6, last)) by {
        lemma_run_and();
        let pieces = seq!["&&"@];
        lemma_run_came(s, pattern, 4, from, i + 5, last, "&&", pieces);
        assert(pieces[0] == "&&"@);
    }
    assert(ident_at(s, i + 6) && came(s, pattern, 6, from, i + 7, last)) by {
        lemma_any_came(s, pattern, 5, from, i + 6, last);
    }
    assert(null_at(s, i + 7, false) && came(s, pattern, 7, from, i + 9, last)) by {
        lemma_null_came(s, pattern, 6, from, i + 7, last, false);
    }
    assert(reads(s, i + 9, "?"@) && came(s, pattern, 8, from, i + 10, last)) by {
        lemma_run_choice();
        let pieces = seq!["?"@];
        lemma_run_came(s, pattern, 7, from, i + 9, last, "?", pieces);
        assert(pieces[0] == "?"@);
    }
    assert(ident_at(s, i + 10) && came(s, pattern, 9, from, i + 11, last)) by {
        lemma_any_came(s, pattern, 8, from, i + 10, last);
    }
    assert(member_at(s, i + 11, "value"@) && came(s, pattern, 10, from, i + 13, last)) by {
        lemma_member_came(s, pattern, 9, from, i + 11, last, "value");
    }
    assert(reads(s, i + 13, ":"@) && came(s, pattern, 11, from, i + 14, last)) by {
        lemma_run_colon();
        let pieces = seq![":"@];
        lemma_run_came(s, pattern, 10, from, i + 13, last, ":", pieces);
        assert(pieces[0] == ":"@);
    }
    assert(ident_at(s, i + 14) && came(s, pattern, 12, from, i + 15, last)) by {
        lemma_any_came(s, pattern, 11, from, i + 14, last);
    }
    assert(reads(s, i + 15, "?"@) && came(s, pattern, 13, from, i + 16, last)) by {
        lemma_run_choice();
        let pieces = seq!["?"@];
        lemma_run_came(s, pattern, 12, from, i + 15, last, "?", pieces);
        assert(pieces[0] == "?"@);
    }
    assert(ident_at(s, i + 16) && came(s, pattern, 14, from, i + 17, last)) by {
        lemma_any_came(s, pattern, 13, from, i + 16, last);
    }
    assert(reads(s, i + 17, "("@) && came(s, pattern, 15, from, i + 18, last)) by {
        lemma_run_open();
        let pieces = seq!["("@];
        lemma_run_came(s, pattern, 14, from, i + 17, last, "(", pieces);
        assert(pieces[0] == "("@);
    }
    assert(ident_at(s, i + 18) && came(s, pattern, 16, from, i + 19, last)) by {
        lemma_any_came(s, pattern, 15, from, i + 18, last);
    }
    assert(reads(s, i + 19, ")"@) && reads(s, i + 20, ":"@)
        && came(s, pattern, 17, from, i + 21, last)) by {
        lemma_run_close_colon();
        let pieces = seq![")"@, ":"@];
        lemma_run_came(s, pattern, 16, from, i + 19, last, ") :", pieces);
        assert(pieces[0] == ")"@);
        assert(pieces[1] == ":"@);
    }
    assert(ident_at(s, i + 21) && came(s, pattern, 18, from, i + 22, last)) by {
        lemma_any_came(s, pattern, 17, from, i + 21, last);
    }
    assert(member_at(s, i + 22, "serviceTier"@) && came(s, pattern, 19, from, i + 24, last)) by {
        lemma_member_came(s, pattern, 18, from, i + 22, last, "serviceTier");
    }
    assert(reads(s, i + 24, ","@) && came(s, pattern, 20, from, i + 25, last)) by {
        lemma_run_comma();
        let pieces = seq![","@];
        lemma_run_came(s, pattern, 19, from, i + 24, last, ",", pieces);
        assert(pieces[0] == ","@);
    }
    assert(word_at(s, i + 25, w[0]) && came(s, pattern, 21, from, i + 26, last)) by {
        lemma_word_came(s, pattern, 20, from, i + 25, last, 0);
    }
    assert(reads(s, i + 26, "="@) && came(s, pattern, 22, from, i + 27, last)) by {
        lemma_run_is();
        let pieces = seq!["="@];
        lemma_run_came(s, pattern, 21, from, i + 26, last, "=", pieces);
        assert(pieces[0] == "="@);
    }
    assert(word_at(s, i + 27, w[4]) && came(s, pattern, 23, from, i + 28, last)) by {
        lemma_word_came(s, pattern, 22, from, i + 27, last, 4);
    }
    assert(reads(s, i + 28, ";"@) && came(s, pattern, 24, from, i + 29, last)) by {
        lemma_run_semicolon();
        let pieces = seq![";"@];
        lemma_run_came(s, pattern, 23, from, i + 28, last, ";", pieces);
        assert(pieces[0] == ";"@);
    }
    assert(word_at(s, i + 29, w[5]) && came(s, pattern, 25, from, i + 30, last)) by {
        lemma_word_came(s, pattern, 24, from, i + 29, last, 5);
    }
    assert(reads(s, i + 30, "="@) && came(s, pattern, 26, from, i + 31, last)) by {
        lemma_run_is();
        let pieces = seq!["="@];
        lemma_run_came(s, pattern, 25, from, i + 30, last, "=", pieces);
        assert(pieces[0] == "="@);
    }
    assert(word_at(s, i + 31, w[7]) && came(s, pattern, 27, from, i + 32, last)) by {
        lemma_word_came(s, pattern, 26, from, i + 31, last, 7);
    }
    assert(reads(s, i + 32, "("@) && came(s, pattern, 28, from, i + 33, last)) by {
        lemma_run_open();
        let pieces = seq!["("@];
        lemma_run_came(s, pattern, 27, from, i + 32, last, "(", pieces);
        assert(pieces[0] == "("@);
    }
    assert(word_at(s, i + 33, w[8]) && came(s, pattern, 29, from, i + 34, last)) by {
        lemma_word_came(s, pattern, 28, from, i + 33, last, 8);
    }
    assert(reads(s, i + 34, ","@) && came(s, pattern, 30, from, i + 35, last)) by {
        lemma_run_comma();
        let pieces = seq![","@];
        lemma_run_came(s, pattern, 29, from, i + 34, last, ",", pieces);
        assert(pieces[0] == ","@);
    }
    assert(word_at(s, i + 35, w[0]) && came(s, pattern, 31, from, i + 36, last)) by {
        lemma_word_came(s, pattern, 30, from, i + 35, last, 0);
    }
    assert(reads(s, i + 36, ","@) && came(s, pattern, 32, from, i + 37, last)) by {
        lemma_run_comma();
        let pieces = seq![","@];
        lemma_run_came(s, pattern, 31, from, i + 36, last, ",", pieces);
        assert(pieces[0] == ","@);
    }
    assert(word_at(s, i + 37, w[6]) && came(s, pattern, 33, from, i + 38, last)) by {
        lemma_word_came(s, pattern, 32, from, i + 37, last, 6);
    }
    assert(reads(s, i + 38, ")"@) && reads(s, i + 39, ","@)
        && came(s, pattern, 34, from, i + 40, last)) by {
        lemma_run_close_comma();
        let pieces = seq![")"@, ","@];
        lemma_run_came(s, pattern, 33, from, i + 38, last, ") ,", pieces);
        assert(pieces[0] == ")"@);
        assert(pieces[1] == ","@);
    }
    assert(word_at(s, i + 40, w[9]) && came(s, pattern, 35, from, i + 41, last)) by {
        lemma_word_came(s, pattern, 34, from, i + 40, last, 9);
    }
    assert(reads(s, i + 41, "="@) && came(s, pattern, 36, from, i + 42, last)) by {
        lemma_run_is();
        let pieces = seq!["="@];
        lemma_run_came(s, pattern, 35, from, i + 41, last, "=", pieces);
        assert(pieces[0] == "="@);
    }
    assert(word_at(s, i + 42, w[5]) && came(s, pattern, 37, from, i + 43, last)) by {
        lemma_word_came(s, pattern, 36, from, i + 42, last, 5);
    }
    assert(null_at(s, i + 43, true) && came(s, pattern, 38, from, i + 45, last)) by {
        lemma_null_came(s, pattern, 37, from, i + 43, last, true);
    }
    assert(reads(s, i + 45, "?"@) && reads(s, i + 46, "null"@) && reads(s, i + 47, ":"@)
        && came(s, pattern, 39, from, i + 48, last)) by {
        lemma_run_choice_null_colon();
        let pieces = seq!["?"@, "null"@, ":"@];
        lemma_run_came(s, pattern, 38, from, i + 45, last, "? null :", pieces);
        assert(pieces[0] == "?"@);
        assert(pieces[1] == "null"@);
        assert(pieces[2] == ":"@);
    }
    assert(ident_at(s, i + 48) && came(s, pattern, 40, from, i + 49, last)) by {
        lemma_any_came(s, pattern, 39, from, i + 48, last);
    }
    assert(reads(s, i + 49, "("@) && came(s, pattern, 41, from, i + 50, last)) by {
        lemma_run_open();
        let pieces = seq!["("@];
        lemma_run_came(s, pattern, 40, from, i + 49, last, "(", pieces);
        assert(pieces[0] == "("@);
    }
    assert(word_at(s, i + 50, w[8]) && came(s, pattern, 42, from, i + 51, last)) by {
        lemma_word_came(s, pattern, 41, from, i + 50, last, 8);
    }
    assert(reads(s, i + 51, ","@) && came(s, pattern, 43, from, i + 52, last)) by {
        lemma_run_comma();
        let pieces = seq![","@];
        lemma_run_came(s, pattern, 42, from, i + 51, last, ",", pieces);
        assert(pieces[0] == ","@);
    }
    assert(word_at(s, i + 52, w[5]) && came(s, pattern, 44, from, i + 53, last)) by {
        lemma_word_came(s, pattern, 43, from, i + 52, last, 5);
    }
    assert(reads(s, i + 53, ")"@) && came(s, pattern, 45, from, i + 54, last)) by {
        lemma_run_close();
        let pieces = seq![")"@];
        lemma_run_came(s, pattern, 44, from, i + 53, last, ")", pieces);
        assert(pieces[0] == ")"@);
    }
    assert(is_settings_tier(s, i, w));
}

/// The binding of the allowance.
pub open spec fn is_binding(s: Seq<char>, i: int, w: Seq<Seq<char>>) -> bool {
    &&& reads(s, i, "isServiceTierAllowed"@)
    &&& reads(s, i + 1, ":"@)
    &&& word_at(s, i + 2, w[6])
}

proof fn lemma_binding_steps()
    ensures
        allowed_binding_atoms().len() == 2,
        ({
            let pattern = allowed_binding_atoms();
            &&& pattern[0] == Atom::ExactRun("isServiceTierAllowed :")
            &&& pattern[1] == Atom::Ident(6)
        }),
{
    reveal(allowed_binding_atoms);
}

/// The binding of the allowance is matched wherever it stands, whatever its words are and however
/// it is written, as a whole and with its words.
pub proof fn lemma_binding_is_found(s: Seq<char>, i: int, w: Seq<Seq<char>>, ids: Seq<Option<int>>)
    requires
        0 <= i,
        ids.len() == 16,
        forall|slot: int|
            0 <= slot < 16 ==> (#[trigger] ids[slot] matches Some(at) ==> token_text(s, at)
                == w[slot]),
        is_binding(s, i, w),
    ensures
        ({
            &&& matched_at(s, i, allowed_binding_atoms(), ids) matches Some(m)
            &&& so_far(s, m, i, i + 3, w, m.spans, m.bools)
        }),
{
    lemma_binding_steps();
    let pattern = allowed_binding_atoms();
    let from = unmatched(i, ids);
    let spans0: Seq<Option<(int, int)>> = seq![None, None, None, None];
    let bools0: Seq<Option<bool>> = seq![None, None, None, None];
    assert(reaches(s, pattern, 0, from, i, w, spans0, bools0)) by {
        reveal(reaches);
        assert(from.spans =~= spans0);
        assert(from.bools =~= bools0);
    }
    assert(reaches(s, pattern, 1, from, i + 2, w, spans0, bools0)) by {
        lemma_run_is_service_tier_allowed_colon();
        let pieces = seq!["isServiceTierAllowed"@, ":"@];
        assert forall|j: int| 0 <= j < pieces.len() implies reads(
            s,
            i + j,
            #[trigger] pieces[j],
        ) by {
            assert(j == 0 || j == 1);
        }
        lemma_run_step(s, pattern, 0, from, i, w, spans0, bools0, "isServiceTierAllowed :", pieces);
    }
    assert(reaches(s, pattern, 2, from, i + 3, w, spans0, bools0)) by {
        lemma_word_step(s, pattern, 1, from, i + 2, w, spans0, bools0, 6);
    }
    reveal(reaches);
}

/// Nothing but this is matched as such: the binding of the allowance.
pub proof fn lemma_found_is_binding(s: Seq<char>, i: int, ids: Seq<Option<int>>)
    requires
        0 <= i,
        ids.len() == 16,
        matched_at(s, i, allowed_binding_atoms(), ids) is Some,
    ensures
        ({
            let m = matched_at(s, i, allowed_binding_atoms(), ids)->0;
            is_binding(s, i, words_of(s, m))
        }),
{
    lemma_binding_steps();
    let pattern = allowed_binding_atoms();
    let from = unmatched(i, ids);
    let last = matched_at(s, i, pattern, ids)->0;
    let w = words_of(s, last);
    assert(came(s, pattern, 0, from, i, last)) by {
        reveal(came);
    }
    assert(reads(s, i, "isServiceTierAllowed"@) && reads(s, i + 1, ":"@)
        && came(s, pattern, 1, from, i + 2, last)) by {
        lemma_run_is_service_tier_allowed_colon();
        let pieces = seq!["isServiceTierAllowed"@, ":"@];
        lemma_run_came(s, pattern, 0, from, i, last, "isServiceTierAllowed :", pieces);
        assert(pieces[0] == "isServiceTierAllowed"@);
        assert(pieces[1] == ":"@);
    }
    assert(word_at(s, i + 2, w[6]) && came(s, pattern, 2, from, i + 3, last)) by {
        lemma_word_came(s, pattern, 1, from, i + 2, last, 6);
    }
    assert(is_binding(s, i, w));
}

/// The entry of the menu, shown under a further condition.
pub open spec fn is_menu_entry(s: Seq<char>, i: int, w: Seq<Seq<char>>) -> bool {
    &&& (reads(s, i, ","@) || reads(s, i, ";"@))
    &&& ident_at(s, i + 1)
    &&& reads(s, i + 2, "="@)
    &&& ident_at(s, i + 3)
    &&& reads(s, i + 4, "&&"@)
    &&& word_at(s, i + 5, w[0])
    &&& member_at(s, i + 6, "availableOptions"@)
    &&& member_at(s, i + 8, "length"@)
    &&& reads(s, i + 10, ">"@)
    &&& reads(s, i + 11, "1"@)
    &&& reads(s, i + 12, ","@)
}

proof fn lemma_menu_entry_steps()
    ensures
        intelligence_guarded_atoms().len() == 11,
        ({
            let pattern = intelligence_guarded_atoms();
            &&& pattern[0] == Atom::OneOf(&[",", ";"])
            &&& pattern[1] == Atom::AnyIdent
            &&& pattern[2] == Atom::ExactRun("=")
            &&& pattern[3] == Atom::Begin(0)
            &&& pattern[4] == Atom::AnyIdent
            &&& pattern[5] == Atom::ExactRun("&&")
            &&& pattern[6] == Atom::End(0)
            &&& pattern[7] == Atom::Ident(0)
            &&& pattern[8] == Atom::Member("availableOptions")
            &&& pattern[9] == Atom::Member("length")
            &&& pattern[10] == Atom::ExactRun("> 1 ,")
        }),
{
    reveal(intelligence_guarded_atoms);
}

/// The entry of the menu is matched wherever it stands, whatever its words are and however
/// it is written, as a whole and with its words.
pub proof fn lemma_menu_entry_is_found(
    s: Seq<char>,
    i: int,
    w: Seq<Seq<char>>,
    ids: Seq<Option<int>>,
)
    requires
        0 <= i,
        ids.len() == 16,
        forall|slot: int|
            0 <= slot < 16 ==> (#[trigger] ids[slot] matches Some(at) ==> token_text(s, at)
                == w[slot]),
        is_menu_entry(s, i, w),
    ensures
        ({
            &&& matched_at(s, i, intelligence_guarded_atoms(), ids) matches Some(m)
            &&& so_far(s, m, i, i + 13, w, m.spans, m.bools)
            &&& m.spans[0] == Some((i + 3, i + 5))
        }),
{
    lemma_menu_entry_steps();
    let pattern = intelligence_guarded_atoms();
    let from = unmatched(i, ids);
    let spans0: Seq<Option<(int, int)>> = seq![None, None, None, None];
    let bools0: Seq<Option<bool>> = seq![None, None, None, None];
    assert(reaches(s, pattern, 0, from, i, w, spans0, bools0)) by {
        reveal(reaches);
        assert(from.spans =~= spans0);
        assert(from.bools =~= bools0);
    }
    assert(reaches(s, pattern, 1, from, i + 1, w, spans0, bools0)) by {
        let choice: int = if reads(s, i, ","@) {
            0
        } else {
            1
        };
        let options: &'static [&'static str] = &[",", ";"];
        lemma_one_of_step(s, pattern, 0, from, i, w, spans0, bools0, options, choice);
    }
    assert(reaches(s, pattern, 2, from, i + 2, w, spans0, bools0)) by {
        lemma_any_step(s, pattern, 1, from, i + 1, w, spans0, bools0);
    }
    assert(reaches(s, pattern, 3, from, i + 3, w, spans0, bools0)) by {
        lemma_run_is();
        let pieces = seq!["="@];
        assert forall|j: int| 0 <= j < pieces.len() implies reads(
            s,
            i + 2 + j,
            #[trigger] pieces[j],
        ) by {
            assert(j == 0);
        }
        lemma_run_step(s, pattern, 2, from, i + 2, w, spans0, bools0, "=", pieces);
    }
    let spans1 = spans0.update(0, Some((i + 3, i + 3)));
    assert(reaches(s, pattern, 4, from, i + 3, w, spans1, bools0)) by {
        lemma_begin_step(s, pattern, 3, from, i + 3, w, spans0, bools0, 0);
    }
    assert(reaches(s, pattern, 5, from, i + 4, w, spans1, bools0)) by {
        lemma_any_step(s, pattern, 4, from, i + 3, w, spans1, bools0);
    }
    assert(reaches(s, pattern, 6, from, i + 5, w, spans1, bools0)) by {
        lemma_run_and();
        let pieces = seq!["&&"@];
        assert forall|j: int| 0 <= j < pieces.len() implies reads(
            s,
            i + 4 + j,
            #[trigger] pieces[j],
        ) by {
            assert(j == 0);
        }
        lemma_run_step(s, pattern, 5, from, i + 4, w, spans1, bools0, "&&", pieces);
    }
    let spans2 = spans1.update(0, Some((i + 3, i + 5)));
    assert(reaches(s, pattern, 7, from, i + 5, w, spans2, bools0)) by {
        lemma_end_step(s, pattern, 6, from, i + 5, w, spans1, bools0, 0, i + 3);
    }
    assert(reaches(s, pattern, 8, from, i + 6, w, spans2, bools0)) by {
        lemma_word_step(s, pattern, 7, from, i + 5, w, spans2, bools0, 0);
    }
    assert(reaches(s, pattern, 9, from, i + 8, w, spans2, bools0)) by {
        lemma_member_step(s, pattern, 8, from, i + 6, w, spans2, bools0, "availableOptions");
    }
    assert(reaches(s, pattern, 10, from, i + 10, w, spans2, bools0)) by {
        lemma_member_step(s, pattern, 9, from, i + 8, w, spans2, bools0, "length");
    }
    assert(reaches(s, pattern, 11, from, i + 13, w, spans2, bools0)) by {
        lemma_run_above_1_comma();
        let pieces = seq![">"@, "1"@, ","@];
        assert forall|j: int| 0 <= j < pieces.len() implies reads(
            s,
            i + 10 + j,
            #[trigger] pieces[j],
        ) by {
            assert(j == 0 || j == 1 || j == 2);
        }
        lemma_run_step(s, pattern, 10, from, i + 10, w, spans2, bools0, "> 1 ,", pieces);
    }
    reveal(reaches);
}

/// Nothing but this is matched as such: the entry of the menu.
pub proof fn lemma_found_is_menu_entry(s: Seq<char>, i: int, ids: Seq<Option<int>>)
    requires
        0 <= i,
        ids.len() == 16,
        matched_at(s, i, intelligence_guarded_atoms(), ids) is Some,
    ensures
        ({
            let m = matched_at(s, i, intelligence_guarded_atoms(), ids)->0;
            is_menu_entry(s, i, words_of(s, m))
        }),
{
    lemma_menu_entry_steps();
    let pattern = intelligence_guarded_atoms();
    let from = unmatched(i, ids);
    let last = matched_at(s, i, pattern, ids)->0;
    let w = words_of(s, last);
    assert(came(s, pattern, 0, from, i, last)) by {
        reveal(came);
    }
    assert((reads(s, i, ","@) || reads(s, i, ";"@)) && came(s, pattern, 1, from, i + 1, last)) by {
        let options: &'static [&'static str] = &[",", ";"];
        let choice = lemma_one_of_came(s, pattern, 0, from, i, last, options);
        assert(choice == 0 || choice == 1);
    }
    assert(ident_at(s, i + 1) && came(s, pattern, 2, from, i + 2, last)) by {
        lemma_any_came(s, pattern, 1, from, i + 1, last);
    }
    assert(reads(s, i + 2, "="@) && came(s, pattern, 3, from, i + 3, last)) by {
        lemma_run_is();
        let pieces = seq!["="@];
        lemma_run_came(s, pattern, 2, from, i + 2, last, "=", pieces);
        assert(pieces[0] == "="@);
    }
    assert(came(s, pattern, 4, from, i + 3, last)) by {
        lemma_begin_came(s, pattern, 3, from, i + 3, last, 0);
    }
    assert(ident_at(s, i + 3) && came(s, pattern, 5, from, i + 4, last)) by {
        lemma_any_came(s, pattern, 4, from, i + 3, last);
    }
    assert(reads(s, i + 4, "&&"@) && came(s, pattern, 6, from, i + 5, last)) by {
        lemma_run_and();
        let pieces = seq!["&&"@];
        lemma_run_came(s, pattern, 5, from, i + 4, last, "&&", pieces);
        assert(pieces[0] == "&&"@);
    }
    assert(came(s, pattern, 7, from, i + 5, last)) by {
        lemma_end_came(s, pattern, 6, from, i + 5, last, 0);
    }
    assert(word_at(s, i + 5, w[0]) && came(s, pattern, 8, from, i + 6, last)) by {
        lemma_word_came(s, pattern, 7, from, i + 5, last, 0);
    }
    assert(member_at(s, i + 6, "availableOptions"@) && came(s, pattern, 9, from, i + 8, last)) by {
        lemma_member_came(s, pattern, 8, from, i + 6, last, "availableOptions");
    }
    assert(member_at(s, i + 8, "length"@) && came(s, pattern, 10, from, i + 10, last)) by {
        lemma_member_came(s, pattern, 9, from, i + 8, last, "length");
    }
    assert(reads(s, i + 10, ">"@) && reads(s, i + 11, "1"@) && reads(s, i + 12, ","@)
        && came(s, pattern, 11, from, i + 13, last)) by {
        lemma_run_above_1_comma();
        let pieces = seq![">"@, "1"@, ","@];
        lemma_run_came(s, pattern, 10, from, i + 10, last, "> 1 ,", pieces);
        assert(pieces[0] == ">"@);
        assert(pieces[1] == "1"@);
        assert(pieces[2] == ","@);
    }
    assert(is_menu_entry(s, i, w));
}

/// The entry of the menu, shown wherever there is something to choose.
pub open spec fn is_shown_menu_entry(s: Seq<char>, i: int, w: Seq<Seq<char>>) -> bool {
    &&& (reads(s, i, ","@) || reads(s, i, ";"@))
    &&& ident_at(s, i + 1)
    &&& reads(s, i + 2, "="@)
    &&& word_at(s, i + 3, w[0])
    &&& member_at(s, i + 4, "availableOptions"@)
    &&& member_at(s, i + 6, "length"@)
    &&& reads(s, i + 8, ">"@)
    &&& reads(s, i + 9, "1"@)
    &&& reads(s, i + 10, ","@)
}

proof fn lemma_shown_menu_entry_steps()
    ensures
        intelligence_patched_atoms().len() == 7,
        ({
            let pattern = intelligence_patched_atoms();
            &&& pattern[0] == Atom::OneOf(&[",", ";"])
            &&& pattern[1] == Atom::AnyIdent
            &&& pattern[2] == Atom::ExactRun("=")
            &&& pattern[3] == Atom::Ident(0)
            &&& pattern[4] == Atom::Member("availableOptions")
            &&& pattern[5] == Atom::Member("length")
            &&& pattern[6] == Atom::ExactRun("> 1 ,")
        }),
{
    reveal(intelligence_patched_atoms);
}

/// The entry of the menu is matched wherever it stands, whatever its words are and however
/// it is written, as a whole and with its words.
pub proof fn lemma_shown_menu_entry_is_found(
    s: Seq<char>,
    i: int,
    w: Seq<Seq<char>>,
    ids: Seq<Option<int>>,
)
    requires
        0 <= i,
        ids.len() == 16,
        forall|slot: int|
            0 <= slot < 16 ==> (#[trigger] ids[slot] matches Some(at) ==> token_text(s, at)
                == w[slot]),
        is_shown_menu_entry(s, i, w),
    ensures
        ({
            &&& matched_at(s, i, intelligence_patched_atoms(), ids) matches Some(m)
            &&& so_far(s, m, i, i + 11, w, m.spans, m.bools)
        }),
{
    lemma_shown_menu_entry_steps();
    let pattern = intelligence_patched_atoms();
    let from = unmatched(i, ids);
    let spans0: Seq<Option<(int, int)>> = seq![None, None, None, None];
    let bools0: Seq<Option<bool>> = seq![None, None, None, None];
    assert(reaches(s, pattern, 0, from, i, w, spans0, bools0)) by {
        reveal(reaches);
        assert(from.spans =~= spans0);
        assert(from.bools =~= bools0);
    }
    assert(reaches(s, pattern, 1, from, i + 1, w, spans0, bools0)) by {
        let choice: int = if reads(s, i, ","@) {
            0
        } else {
            1
        };
        let options: &'static [&'static str] = &[",", ";"];
        lemma_one_of_step(s, pattern, 0, from, i, w, spans0, bools0, options, choice);
    }
    assert(reaches(s, pattern, 2, from, i + 2, w, spans0, bools0)) by {
        lemma_any_step(s, pattern, 1, from, i + 1, w, spans0, bools0);
    }
    assert(reaches(s, pattern, 3, from, i + 3, w, spans0, bools0)) by {
        lemma_run_is();
        let pieces = seq!["="@];
        assert forall|j: int| 0 <= j < pieces.len() implies reads(
            s,
            i + 2 + j,
            #[trigger] pieces[j],
        ) by {
            assert(j == 0);
        }
        lemma_run_step(s, pattern, 2, from, i + 2, w, spans0, bools0, "=", pieces);
    }
    assert(reaches(s, pattern, 4, from, i + 4, w, spans0, bools0)) by {
        lemma_word_step(s, pattern, 3, from, i + 3, w, spans0, bools0, 0);
    }
    assert(reaches(s, pattern, 5, from, i + 6, w, spans0, bools0)) by {
        lemma_member_step(s, pattern, 4, from, i + 4, w, spans0, bools0, "availableOptions");
    }
    assert(reaches(s, pattern, 6, from, i + 8, w, spans0, bools0)) by {
        lemma_member_step(s, pattern, 5, from, i + 6, w, spans0, bools0, "length");
    }
    assert(reaches(s, pattern, 7, from, i + 11, w, spans0, bools0)) by {
        lemma_run_above_1_comma();
        let pieces = seq![">"@, "1"@, ","@];
        assert forall|j: int| 0 <= j < pieces.len() implies reads(
            s,
            i + 8 + j,
            #[trigger] pieces[j],
        ) by {
            assert(j == 0 || j == 1 || j == 2);
        }
        lemma_run_step(s, pattern, 6, from, i + 8, w, spans0, bools0, "> 1 ,", pieces);
    }
    reveal(reaches);
}

/// Nothing but this is matched as such: the entry of the menu.
pub proof fn lemma_found_is_shown_menu_entry(s: Seq<char>, i: int, ids: Seq<Option<int>>)
    requires
        0 <= i,
        ids.len() == 16,
        matched_at(s, i, intelligence_patched_atoms(), ids) is Some,
    ensures
        ({
            let m = matched_at(s, i, intelligence_patched_atoms(), ids)->0;
            is_shown_menu_entry(s, i, words_of(s, m))
        }),
{
    lemma_shown_menu_entry_steps();
    let pattern = intelligence_patched_atoms();
    let from = unmatched(i, ids);
    let last = matched_at(s, i, pattern, ids)->0;
    let w = words_of(s, last);
    assert(came(s, pattern, 0, from, i, last)) by {
        reveal(came);
    }
    assert((reads(s, i, ","@) || reads(s, i, ";"@)) && came(s, pattern, 1, from, i + 1, last)) by {
        let options: &'static [&'static str] = &[",", ";"];
        let choice = lemma_one_of_came(s, pattern, 0, from, i, last, options);
        assert(choice == 0 || choice == 1);
    }
    assert(ident_at(s, i + 1) && came(s, pattern, 2, from, i + 2, last)) by {
        lemma_any_came(s, pattern, 1, from, i + 1, last);
    }
    assert(reads(s, i + 2, "="@) && came(s, pattern, 3, from, i + 3, last)) by {
        lemma_run_is();
        let pieces = seq!["="@];
        lemma_run_came(s, pattern, 2, from, i + 2, last, "=", pieces);
        assert(pieces[0] == "="@);
    }
    assert(word_at(s, i + 3, w[0]) && came(s, pattern, 4, from, i + 4, last)) by {
        lemma_word_came(s, pattern, 3, from, i + 3, last, 0);
    }
    assert(member_at(s, i + 4, "availableOptions"@) && came(s, pattern, 5, from, i + 6, last)) by {
        lemma_member_came(s, pattern, 4, from, i + 4, last, "availableOptions");
    }
    assert(member_at(s, i + 6, "length"@) && came(s, pattern, 6, from, i + 8, last)) by {
        lemma_member_came(s, pattern, 5, from, i + 6, last, "length");
    }
    assert(reads(s, i + 8, ">"@) && reads(s, i + 9, "1"@) && reads(s, i + 10, ","@)
        && came(s, pattern, 7, from, i + 11, last)) by {
        lemma_run_above_1_comma();
        let pieces = seq![">"@, "1"@, ","@];
        lemma_run_came(s, pattern, 6, from, i + 8, last, "> 1 ,", pieces);
        assert(pieces[0] == ">"@);
        assert(pieces[1] == "1"@);
        assert(pieces[2] == ","@);
    }
    assert(is_shown_menu_entry(s, i, w));
}

/// The command that opens the menu.
pub open spec fn is_menu_command(s: Seq<char>, i: int) -> bool {
    &&& text_at(s, i, "composer.openModelPicker"@)
}

proof fn lemma_menu_command_steps()
    ensures
        intelligence_anchor_atoms().len() == 1,
        ({
            let pattern = intelligence_anchor_atoms();
            &&& pattern[0] == Atom::Str("composer.openModelPicker")
        }),
{
    reveal(intelligence_anchor_atoms);
}

/// The command that opens the menu is matched wherever it stands, whatever its words are and however
/// it is written, as a whole and with its words.
pub proof fn lemma_menu_command_is_found(
    s: Seq<char>,
    i: int,
    w: Seq<Seq<char>>,
    ids: Seq<Option<int>>,
)
    requires
        0 <= i,
        ids.len() == 16,
        forall|slot: int|
            0 <= slot < 16 ==> (#[trigger] ids[slot] matches Some(at) ==> token_text(s, at)
                == w[slot]),
        is_menu_command(s, i),
    ensures
        ({
            &&& matched_at(s, i, intelligence_anchor_atoms(), ids) matches Some(m)
            &&& so_far(s, m, i, i + 1, w, m.spans, m.bools)
        }),
{
    lemma_menu_command_steps();
    let pattern = intelligence_anchor_atoms();
    let from = unmatched(i, ids);
    let spans0: Seq<Option<(int, int)>> = seq![None, None, None, None];
    let bools0: Seq<Option<bool>> = seq![None, None, None, None];
    assert(reaches(s, pattern, 0, from, i, w, spans0, bools0)) by {
        reveal(reaches);
        assert(from.spans =~= spans0);
        assert(from.bools =~= bools0);
    }
    assert(reaches(s, pattern, 1, from, i + 1, w, spans0, bools0)) by {
        lemma_str_step(s, pattern, 0, from, i, w, spans0, bools0, "composer.openModelPicker");
    }
    reveal(reaches);
}

/// Nothing but this is matched as such: the command that opens the menu.
pub proof fn lemma_found_is_menu_command(s: Seq<char>, i: int, ids: Seq<Option<int>>)
    requires
        0 <= i,
        ids.len() == 16,
        matched_at(s, i, intelligence_anchor_atoms(), ids) is Some,
    ensures
        ({
            let m = matched_at(s, i, intelligence_anchor_atoms(), ids)->0;
            is_menu_command(s, i)
        }),
{
    lemma_menu_command_steps();
    let pattern = intelligence_anchor_atoms();
    let from = unmatched(i, ids);
    let last = matched_at(s, i, pattern, ids)->0;
    let w = words_of(s, last);
    assert(came(s, pattern, 0, from, i, last)) by {
        reveal(came);
    }
    assert(text_at(s, i, "composer.openModelPicker"@)
        && came(s, pattern, 1, from, i + 1, last)) by {
        lemma_str_came(s, pattern, 0, from, i, last, "composer.openModelPicker");
    }
    assert(is_menu_command(s, i));
}

/// The allowance of a request, up to the answer for another sign-in.
pub open spec fn is_request_refusal(
    s: Seq<char>,
    i: int,
    w: Seq<Seq<char>>,
    b: int,
    answer: bool,
) -> bool {
    &&& reads(s, i, "async"@)
    &&& reads(s, i + 1, "function"@)
    &&& ident_at(s, i + 2)
    &&& reads(s, i + 3, "("@)
    &&& word_at(s, i + 4, w[0])
    &&& reads(s, i + 5, ","@)
    &&& word_at(s, i + 6, w[1])
    &&& reads(s, i + 7, ")"@)
    &&& reads(s, i + 8, "{"@)
    &&& declares_at(s, i + 9)
    &&& word_at(s, i + 10, w[2])
    &&& reads(s, i + 11, "="@)
    &&& reads(s, i + 12, "await"@)
    &&& ident_at(s, i + 13)
    &&& reads(s, i + 14, "("@)
    &&& word_at(s, i + 15, w[0])
    &&& reads(s, i + 16, ","@)
    &&& word_at(s, i + 17, w[1])
    &&& reads(s, i + 18, ")"@)
    &&& reads(s, i + 19, ";"@)
    &&& reads(s, i + 20, "if"@)
    &&& reads(s, i + 21, "("@)
    &&& word_at(s, i + 22, w[2])
    &&& reads(s, i + 23, "!=="@)
    &&& text_at(s, i + 24, "chatgpt"@)
    &&& reads(s, i + 25, ")"@)
    &&& reads(s, i + 26, "return"@)
    &&& same_line_at(s, i + 27)
    &&& writes_bool(s, i + 27, answer, b)
}

/// The allowance of a request, from the answer for the sign-in on.
pub open spec fn is_request_answer(s: Seq<char>, h: int, w: Seq<Seq<char>>, b: int) -> bool {
    &&& reads(s, h, ";"@)
    &&& declares_at(s, h + 1)
    &&& word_at(s, h + 2, w[3])
    &&& reads(s, h + 3, "="@)
    &&& reads(s, h + 4, "await"@)
    &&& ident_at(s, h + 5)
    &&& reads(s, h + 6, "("@)
    &&& word_at(s, h + 7, w[1])
    &&& reads(s, h + 8, ","@)
    &&& reads(s, h + 9, "{"@)
    &&& reads(s, h + 10, "priority"@)
    &&& reads(s, h + 11, ":"@)
    &&& text_at(s, h + 12, "critical"@)
    &&& reads(s, h + 13, "}"@)
    &&& reads(s, h + 14, ")"@)
    &&& reads(s, h + 15, ";"@)
    &&& reads(s, h + 16, "return"@)
    &&& word_at(s, h + 17, w[0])
    &&& member_at(s, h + 18, "query"@)
    &&& member_at(s, h + 20, "setData"@)
    &&& reads(s, h + 22, "("@)
    &&& ident_at(s, h + 23)
    &&& reads(s, h + 24, ","@)
    &&& reads(s, h + 25, "{"@)
    &&& reads(s, h + 26, "authMethod"@)
    &&& reads(s, h + 27, ":"@)
    &&& word_at(s, h + 28, w[2])
    &&& reads(s, h + 29, ","@)
    &&& reads(s, h + 30, "hostId"@)
    &&& reads(s, h + 31, ":"@)
    &&& word_at(s, h + 32, w[1])
    &&& reads(s, h + 33, "}"@)
    &&& reads(s, h + 34, ","@)
    &&& word_at(s, h + 35, w[3])
    &&& reads(s, h + 36, ")"@)
    &&& reads(s, h + 37, ","@)
    &&& word_at(s, h + 38, w[3])
    &&& member_at(s, h + 39, "requirements"@)
    &&& member_at(s, h + 41, "featureRequirements"@)
    &&& member_at(s, h + 43, "fast_mode"@)
    &&& reads(s, h + 45, "!=="@)
    &&& writes_bool(s, h + 46, false, b)
    &&& reads(s, h + 46 + b, "}"@)
}

proof fn lemma_request_steps()
    ensures
        request_state_atoms().len() == 53,
        ({
            let pattern = request_state_atoms();
            &&& pattern[0] == Atom::ExactRun("async function")
            &&& pattern[1] == Atom::AnyIdent
            &&& pattern[2] == Atom::ExactRun("(")
            &&& pattern[3] == Atom::Ident(0)
            &&& pattern[4] == Atom::ExactRun(",")
            &&& pattern[5] == Atom::Ident(1)
            &&& pattern[6] == Atom::ExactRun(") {")
            &&& pattern[7] == Atom::OneOf(&["let", "const", "var"])
            &&& pattern[8] == Atom::Ident(2)
            &&& pattern[9] == Atom::ExactRun("= await")
            &&& pattern[10] == Atom::AnyIdent
            &&& pattern[11] == Atom::ExactRun("(")
            &&& pattern[12] == Atom::Ident(0)
            &&& pattern[13] == Atom::ExactRun(",")
            &&& pattern[14] == Atom::Ident(1)
            &&& pattern[15] == Atom::ExactRun(") ; if (")
            &&& pattern[16] == Atom::Ident(2)
            &&& pattern[17] == Atom::ExactRun("!==")
            &&& pattern[18] == Atom::Str("chatgpt")
            &&& pattern[19] == Atom::ExactRun(") return")
            &&& pattern[20] == Atom::NoLineBreak
            &&& pattern[21] == Atom::Begin(0)
            &&& pattern[22] == Atom::CaptureBool(0)
            &&& pattern[23] == Atom::End(0)
            &&& pattern[24] == Atom::ExactRun(";")
            &&& pattern[25] == Atom::OneOf(&["let", "const", "var"])
            &&& pattern[26] == Atom::Ident(3)
            &&& pattern[27] == Atom::ExactRun("= await")
            &&& pattern[28] == Atom::AnyIdent
            &&& pattern[29] == Atom::ExactRun("(")
            &&& pattern[30] == Atom::Ident(1)
            &&& pattern[31] == Atom::ExactRun(", { priority :")
            &&& pattern[32] == Atom::Str("critical")
            &&& pattern[33] == Atom::ExactRun("} ) ; return")
            &&& pattern[34] == Atom::Ident(0)
            &&& pattern[35] == Atom::Member("query")
            &&& pattern[36] == Atom::Member("setData")
            &&& pattern[37] == Atom::ExactRun("(")
            &&& pattern[38] == Atom::AnyIdent
            &&& pattern[39] == Atom::ExactRun(", { authMethod :")
            &&& pattern[40] == Atom::Ident(2)
            &&& pattern[41] == Atom::ExactRun(", hostId :")
            &&& pattern[42] == Atom::Ident(1)
            &&& pattern[43] == Atom::ExactRun("} ,")
            &&& pattern[44] == Atom::Ident(3)
            &&& pattern[45] == Atom::ExactRun(") ,")
            &&& pattern[46] == Atom::Ident(3)
            &&& pattern[47] == Atom::Member("requirements")
            &&& pattern[48] == Atom::Member("featureRequirements")
            &&& pattern[49] == Atom::Member("fast_mode")
            &&& pattern[50] == Atom::ExactRun("!==")
            &&& pattern[51] == Atom::Bool(false)
            &&& pattern[52] == Atom::ExactRun("}")
        }),
{
    reveal(request_state_atoms);
}

proof fn lemma_refusal_reaches(
    s: Seq<char>,
    i: int,
    w: Seq<Seq<char>>,
    from: Matched,
    b: int,
    answer: bool,
)
    requires
        0 <= i,
        1 <= b <= 2,
        is_request_refusal(s, i, w, b, answer),
        reaches(
            s, request_state_atoms(), 0, from, i, w, seq![None, None, None, None],
            seq![None, None, None, None],
        ),
    ensures
        reaches(
            s, request_state_atoms(), 24, from, i + 27 + b, w,
            seq![Some((i + 27, i + 27 + b)), None, None, None],
            seq![Some(answer), None, None, None],
        ),
{
    lemma_request_steps();
    let pattern = request_state_atoms();
    let spans0: Seq<Option<(int, int)>> = seq![None, None, None, None];
    let bools0: Seq<Option<bool>> = seq![None, None, None, None];
    assert(reaches(s, pattern, 1, from, i + 2, w, spans0, bools0)) by {
        lemma_run_async_function();
        let pieces = seq!["async"@, "function"@];
        assert forall|j: int| 0 <= j < pieces.len() implies reads(
            s,
            i + j,
            #[trigger] pieces[j],
        ) by {
            assert(j == 0 || j == 1);
        }
        lemma_run_step(s, pattern, 0, from, i, w, spans0, bools0, "async function", pieces);
    }
    assert(reaches(s, pattern, 2, from, i + 3, w, spans0, bools0)) by {
        lemma_any_step(s, pattern, 1, from, i + 2, w, spans0, bools0);
    }
    assert(reaches(s, pattern, 3, from, i + 4, w, spans0, bools0)) by {
        lemma_run_open();
        let pieces = seq!["("@];
        assert forall|j: int| 0 <= j < pieces.len() implies reads(
            s,
            i + 3 + j,
            #[trigger] pieces[j],
        ) by {
            assert(j == 0);
        }
        lemma_run_step(s, pattern, 2, from, i + 3, w, spans0, bools0, "(", pieces);
    }
    assert(reaches(s, pattern, 4, from, i + 5, w, spans0, bools0)) by {
        lemma_word_step(s, pattern, 3, from, i + 4, w, spans0, bools0, 0);
    }
    assert(reaches(s, pattern, 5, from, i + 6, w, spans0, bools0)) by {
        lemma_run_comma();
        let pieces = seq![","@];
        assert forall|j: int| 0 <= j < pieces.len() implies reads(
            s,
            i + 5 + j,
            #[trigger] pieces[j],
        ) by {
            assert(j == 0);
        }
        lemma_run_step(s, pattern, 4, from, i + 5, w, spans0, bools0, ",", pieces);
    }
    assert(reaches(s, pattern, 6, from, i + 7, w, spans0, bools0)) by {
        lemma_word_step(s, pattern, 5, from, i + 6, w, spans0, bools0, 1);
    }
    assert(reaches(s, pattern, 7, from, i + 9, w, spans0, bools0)) by {
        lemma_run_close_brace();
        let pieces = seq![")"@, "{"@];
        assert forall|j: int| 0 <= j < pieces.len() implies reads(
            s,
            i + 7 + j,
            #[trigger] pieces[j],
        ) by {
            assert(j == 0 || j == 1);
        }
        lemma_run_step(s, pattern, 6, from, i + 7, w, spans0, bools0, ") {", pieces);
    }
    assert(reaches(s, pattern, 8, from, i + 10, w, spans0, bools0)) by {
        let choice: int = if reads(s, i + 9, "let"@) {
            0
        } else if reads(s, i + 9, "const"@) {
            1
        } else {
            2
        };
        let options: &'static [&'static str] = &["let", "const", "var"];
        lemma_one_of_step(s, pattern, 7, from, i + 9, w, spans0, bools0, options, choice);
    }
    assert(reaches(s, pattern, 9, from, i + 11, w, spans0, bools0)) by {
        lemma_word_step(s, pattern, 8, from, i + 10, w, spans0, bools0, 2);
    }
    assert(reaches(s, pattern, 10, from, i + 13, w, spans0, bools0)) by {
        lemma_run_is_await();
        let pieces = seq!["="@, "await"@];
        assert forall|j: int| 0 <= j < pieces.len() implies reads(
            s,
            i + 11 + j,
            #[trigger] pieces[j],
        ) by {
            assert(j == 0 || j == 1);
        }
        lemma_run_step(s, pattern, 9, from, i + 11, w, spans0, bools0, "= await", pieces);
    }
    assert(reaches(s, pattern, 11, from, i + 14, w, spans0, bools0)) by {
        lemma_any_step(s, pattern, 10, from, i + 13, w, spans0, bools0);
    }
    assert(reaches(s, pattern, 12, from, i + 15, w, spans0, bools0)) by {
        lemma_run_open();
        let pieces = seq!["("@];
        assert forall|j: int| 0 <= j < pieces.len() implies reads(
            s,
            i + 14 + j,
            #[trigger] pieces[j],
        ) by {
            assert(j == 0);
        }
        lemma_run_step(s, pattern, 11, from, i + 14, w, spans0, bools0, "(", pieces);
    }
    assert(reaches(s, pattern, 13, from, i + 16, w, spans0, bools0)) by {
        lemma_word_step(s, pattern, 12, from, i + 15, w, spans0, bools0, 0);
    }
    assert(reaches(s, pattern, 14, from, i + 17, w, spans0, bools0)) by {
        lemma_run_comma();
        let pieces = seq![","@];
        assert forall|j: int| 0 <= j < pieces.len() implies reads(
            s,
            i + 16 + j,
            #[trigger] pieces[j],
        ) by {
            assert(j == 0);
        }
        lemma_run_step(s, pattern, 13, from, i + 16, w, spans0, bools0, ",", pieces);
    }
    assert(reaches(s, pattern, 15, from, i + 18, w, spans0, bools0)) by {
        lemma_word_step(s, pattern, 14, from, i + 17, w, spans0, bools0, 1);
    }
    assert(reaches(s, pattern, 16, from, i + 22, w, spans0, bools0)) by {
        lemma_run_close_semicolon_if_open();
        let pieces = seq![")"@, ";"@, "if"@, "("@];
        assert forall|j: int| 0 <= j < pieces.len() implies reads(
            s,
            i + 18 + j,
            #[trigger] pieces[j],
        ) by {
            assert(j == 0 || j == 1 || j == 2 || j == 3);
        }
        lemma_run_step(s, pattern, 15, from, i + 18, w, spans0, bools0, ") ; if (", pieces);
    }
    assert(reaches(s, pattern, 17, from, i + 23, w, spans0, bools0)) by {
        lemma_word_step(s, pattern, 16, from, i + 22, w, spans0, bools0, 2);
    }
    assert(reaches(s, pattern, 18, from, i + 24, w, spans0, bools0)) by {
        lemma_run_not_same();
        let pieces = seq!["!=="@];
        assert forall|j: int| 0 <= j < pieces.len() implies reads(
            s,
            i + 23 + j,
            #[trigger] pieces[j],
        ) by {
            assert(j == 0);
        }
        lemma_run_step(s, pattern, 17, from, i + 23, w, spans0, bools0, "!==", pieces);
    }
    assert(reaches(s, pattern, 19, from, i + 25, w, spans0, bools0)) by {
        lemma_str_step(s, pattern, 18, from, i + 24, w, spans0, bools0, "chatgpt");
    }
    assert(reaches(s, pattern, 20, from, i + 27, w, spans0, bools0)) by {
        lemma_run_close_return();
        let pieces = seq![")"@, "return"@];
        assert forall|j: int| 0 <= j < pieces.len() implies reads(
            s,
            i + 25 + j,
            #[trigger] pieces[j],
        ) by {
            assert(j == 0 || j == 1);
        }
        lemma_run_step(s, pattern, 19, from, i + 25, w, spans0, bools0, ") return", pieces);
    }
    assert(reaches(s, pattern, 21, from, i + 27, w, spans0, bools0)) by {
        lemma_same_line_step(s, pattern, 20, from, i + 27, w, spans0, bools0);
    }
    let spans1 = spans0.update(0, Some((i + 27, i + 27)));
    assert(reaches(s, pattern, 22, from, i + 27, w, spans1, bools0)) by {
        lemma_begin_step(s, pattern, 21, from, i + 27, w, spans0, bools0, 0);
    }
    let bools1 = bools0.update(0, Some(answer));
    assert(reaches(s, pattern, 23, from, i + 27 + b, w, spans1, bools1)) by {
        lemma_capture_step(s, pattern, 22, from, i + 27, w, spans1, bools0, answer, b);
    }
    let spans2 = spans1.update(0, Some((i + 27, i + 27 + b)));
    assert(reaches(s, pattern, 24, from, i + 27 + b, w, spans2, bools1)) by {
        lemma_end_step(s, pattern, 23, from, i + 27 + b, w, spans1, bools1, 0, i + 27);
    }
    assert(spans2 =~= seq![Some((i + 27, i + 27 + b)), None, None, None]);
    assert(bools1 =~= seq![Some(answer), None, None, None]);
}

proof fn lemma_answer_reaches(
    s: Seq<char>,
    h: int,
    w: Seq<Seq<char>>,
    from: Matched,
    spans: Seq<Option<(int, int)>>,
    bools: Seq<Option<bool>>,
    b: int,
)
    requires
        0 <= h,
        1 <= b <= 2,
        bools.len() == 4,
        is_request_answer(s, h, w, b),
        reaches(s, request_state_atoms(), 24, from, h, w, spans, bools),
    ensures
        reaches(s, request_state_atoms(), 53, from, h + 47 + b, w, spans, bools),
{
    lemma_request_steps();
    let pattern = request_state_atoms();
    assert(reaches(s, pattern, 25, from, h + 1, w, spans, bools)) by {
        lemma_run_semicolon();
        let pieces = seq![";"@];
        assert forall|j: int| 0 <= j < pieces.len() implies reads(
            s,
            h + j,
            #[trigger] pieces[j],
        ) by {
            assert(j == 0);
        }
        lemma_run_step(s, pattern, 24, from, h, w, spans, bools, ";", pieces);
    }
    assert(reaches(s, pattern, 26, from, h + 2, w, spans, bools)) by {
        let choice: int = if reads(s, h + 1, "let"@) {
            0
        } else if reads(s, h + 1, "const"@) {
            1
        } else {
            2
        };
        let options: &'static [&'static str] = &["let", "const", "var"];
        lemma_one_of_step(s, pattern, 25, from, h + 1, w, spans, bools, options, choice);
    }
    assert(reaches(s, pattern, 27, from, h + 3, w, spans, bools)) by {
        lemma_word_step(s, pattern, 26, from, h + 2, w, spans, bools, 3);
    }
    assert(reaches(s, pattern, 28, from, h + 5, w, spans, bools)) by {
        lemma_run_is_await();
        let pieces = seq!["="@, "await"@];
        assert forall|j: int| 0 <= j < pieces.len() implies reads(
            s,
            h + 3 + j,
            #[trigger] pieces[j],
        ) by {
            assert(j == 0 || j == 1);
        }
        lemma_run_step(s, pattern, 27, from, h + 3, w, spans, bools, "= await", pieces);
    }
    assert(reaches(s, pattern, 29, from, h + 6, w, spans, bools)) by {
        lemma_any_step(s, pattern, 28, from, h + 5, w, spans, bools);
    }
    assert(reaches(s, pattern, 30, from, h + 7, w, spans, bools)) by {
        lemma_run_open();
        let pieces = seq!["("@];
        assert forall|j: int| 0 <= j < pieces.len() implies reads(
            s,
            h + 6 + j,
            #[trigger] pieces[j],
        ) by {
            assert(j == 0);
        }
        lemma_run_step(s, pattern, 29, from, h + 6, w, spans, bools, "(", pieces);
    }
    assert(reaches(s, pattern, 31, from, h + 8, w, spans, bools)) by {
        lemma_word_step(s, pattern, 30, from, h + 7, w, spans, bools, 1);
    }
    assert(reaches(s, pattern, 32, from, h + 12, w, spans, bools)) by {
        lemma_run_comma_brace_priority_colon();
        let pieces = seq![","@, "{"@, "priority"@, ":"@];
        assert forall|j: int| 0 <= j < pieces.len() implies reads(
            s,
            h + 8 + j,
            #[trigger] pieces[j],
        ) by {
            assert(j == 0 || j == 1 || j == 2 || j == 3);
        }
        lemma_run_step(s, pattern, 31, from, h + 8, w, spans, bools, ", { priority :", pieces);
    }
    assert(reaches(s, pattern, 33, from, h + 13, w, spans, bools)) by {
        lemma_str_step(s, pattern, 32, from, h + 12, w, spans, bools, "critical");
    }
    assert(reaches(s, pattern, 34, from, h + 17, w, spans, bools)) by {
        lemma_run_unbrace_close_semicolon_return();
        let pieces = seq!["}"@, ")"@, ";"@, "return"@];
        assert forall|j: int| 0 <= j < pieces.len() implies reads(
            s,
            h + 13 + j,
            #[trigger] pieces[j],
        ) by {
            assert(j == 0 || j == 1 || j == 2 || j == 3);
        }
        lemma_run_step(s, pattern, 33, from, h + 13, w, spans, bools, "} ) ; return", pieces);
    }
    assert(reaches(s, pattern, 35, from, h + 18, w, spans, bools)) by {
        lemma_word_step(s, pattern, 34, from, h + 17, w, spans, bools, 0);
    }
    assert(reaches(s, pattern, 36, from, h + 20, w, spans, bools)) by {
        lemma_member_step(s, pattern, 35, from, h + 18, w, spans, bools, "query");
    }
    assert(reaches(s, pattern, 37, from, h + 22, w, spans, bools)) by {
        lemma_member_step(s, pattern, 36, from, h + 20, w, spans, bools, "setData");
    }
    assert(reaches(s, pattern, 38, from, h + 23, w, spans, bools)) by {
        lemma_run_open();
        let pieces = seq!["("@];
        assert forall|j: int| 0 <= j < pieces.len() implies reads(
            s,
            h + 22 + j,
            #[trigger] pieces[j],
        ) by {
            assert(j == 0);
        }
        lemma_run_step(s, pattern, 37, from, h + 22, w, spans, bools, "(", pieces);
    }
    assert(reaches(s, pattern, 39, from, h + 24, w, spans, bools)) by {
        lemma_any_step(s, pattern, 38, from, h + 23, w, spans, bools);
    }
    assert(reaches(s, pattern, 40, from, h + 28, w, spans, bools)) by {
        lemma_run_comma_brace_auth_method_colon();
        let pieces = seq![","@, "{"@, "authMethod"@, ":"@];
        assert forall|j: int| 0 <= j < pieces.len() implies reads(
            s,
            h + 24 + j,
            #[trigger] pieces[j],
        ) by {
            assert(j == 0 || j == 1 || j == 2 || j == 3);
        }
        lemma_run_step(s, pattern, 39, from, h + 24, w, spans, bools, ", { authMethod :", pieces);
    }
    assert(reaches(s, pattern, 41, from, h + 29, w, spans, bools)) by {
        lemma_word_step(s, pattern, 40, from, h + 28, w, spans, bools, 2);
    }
    assert(reaches(s, pattern, 42, from, h + 32, w, spans, bools)) by {
        lemma_run_comma_host_id_colon();
        let pieces = seq![","@, "hostId"@, ":"@];
        assert forall|j: int| 0 <= j < pieces.len() implies reads(
            s,
            h + 29 + j,
            #[trigger] pieces[j],
        ) by {
            assert(j == 0 || j == 1 || j == 2);
        }
        lemma_run_step(s, pattern, 41, from, h + 29, w, spans, bools, ", hostId :", pieces);
    }
    assert(reaches(s, pattern, 43, from, h + 33, w, spans, bools)) by {
        lemma_word_step(s, pattern, 42, from, h + 32, w, spans, bools, 1);
    }
    assert(reaches(s, pattern, 44, from, h + 35, w, spans, bools)) by {
        lemma_run_unbrace_comma();
        let pieces = seq!["}"@, ","@];
        assert forall|j: int| 0 <= j < pieces.len() implies reads(
            s,
            h + 33 + j,
            #[trigger] pieces[j],
        ) by {
            assert(j == 0 || j == 1);
        }
        lemma_run_step(s, pattern, 43, from, h + 33, w, spans, bools, "} ,", pieces);
    }
    assert(reaches(s, pattern, 45, from, h + 36, w, spans, bools)) by {
        lemma_word_step(s, pattern, 44, from, h + 35, w, spans, bools, 3);
    }
    assert(reaches(s, pattern, 46, from, h + 38, w, spans, bools)) by {
        lemma_run_close_comma();
        let pieces = seq![")"@, ","@];
        assert forall|j: int| 0 <= j < pieces.len() implies reads(
            s,
            h + 36 + j,
            #[trigger] pieces[j],
        ) by {
            assert(j == 0 || j == 1);
        }
        lemma_run_step(s, pattern, 45, from, h + 36, w, spans, bools, ") ,", pieces);
    }
    assert(reaches(s, pattern, 47, from, h + 39, w, spans, bools)) by {
        lemma_word_step(s, pattern, 46, from, h + 38, w, spans, bools, 3);
    }
    assert(reaches(s, pattern, 48, from, h + 41, w, spans, bools)) by {
        lemma_member_step(s, pattern, 47, from, h + 39, w, spans, bools, "requirements");
    }
    assert(reaches(s, pattern, 49, from, h + 43, w, spans, bools)) by {
        lemma_member_step(s, pattern, 48, from, h + 41, w, spans, bools, "featureRequirements");
    }
    assert(reaches(s, pattern, 50, from, h + 45, w, spans, bools)) by {
        lemma_member_step(s, pattern, 49, from, h + 43, w, spans, bools, "fast_mode");
    }
    assert(reaches(s, pattern, 51, from, h + 46, w, spans, bools)) by {
        lemma_run_not_same();
        let pieces = seq!["!=="@];
        assert forall|j: int| 0 <= j < pieces.len() implies reads(
            s,
            h + 45 + j,
            #[trigger] pieces[j],
        ) by {
            assert(j == 0);
        }
        lemma_run_step(s, pattern, 50, from, h + 45, w, spans, bools, "!==", pieces);
    }
    assert(reaches(s, pattern, 52, from, h + 46 + b, w, spans, bools)) by {
        lemma_bool_step(s, pattern, 51, from, h + 46, w, spans, bools, false, b);
    }
    assert(reaches(s, pattern, 53, from, h + 47 + b, w, spans, bools)) by {
        lemma_run_unbrace();
        let pieces = seq!["}"@];
        assert forall|j: int| 0 <= j < pieces.len() implies reads(
            s,
            h + 46 + b + j,
            #[trigger] pieces[j],
        ) by {
            assert(j == 0);
        }
        lemma_run_step(s, pattern, 52, from, h + 46 + b, w, spans, bools, "}", pieces);
    }
}

/// The allowance of a request is matched wherever it stands, whatever its words are and however it
/// is written, as a whole and with its words and its answer.
pub proof fn lemma_request_allowance_is_found(
    s: Seq<char>,
    i: int,
    w: Seq<Seq<char>>,
    ids: Seq<Option<int>>,
    first: int,
    second: int,
    answer: bool,
)
    requires
        0 <= i,
        ids.len() == 16,
        forall|slot: int|
            0 <= slot < 16 ==> (#[trigger] ids[slot] matches Some(at) ==> token_text(s, at)
                == w[slot]),
        1 <= first <= 2,
        1 <= second <= 2,
        is_request_refusal(s, i, w, first, answer),
        is_request_answer(s, i + 27 + first, w, second),
    ensures
        ({
            &&& matched_at(s, i, request_state_atoms(), ids) matches Some(m)
            &&& so_far(s, m, i, i + 74 + first + second, w, m.spans, m.bools)
            &&& m.spans[0] == Some((i + 27, i + 27 + first))
            &&& m.bools[0] == Some(answer)
        }),
{
    let from = unmatched(i, ids);
    let spans0: Seq<Option<(int, int)>> = seq![None, None, None, None];
    let bools0: Seq<Option<bool>> = seq![None, None, None, None];
    assert(reaches(s, request_state_atoms(), 0, from, i, w, spans0, bools0)) by {
        reveal(reaches);
        assert(from.spans =~= spans0);
        assert(from.bools =~= bools0);
    }
    lemma_refusal_reaches(s, i, w, from, first, answer);
    let spans: Seq<Option<(int, int)>> = seq![Some((i + 27, i + 27 + first)), None, None, None];
    let bools: Seq<Option<bool>> = seq![Some(answer), None, None, None];
    lemma_answer_reaches(s, i + 27 + first, w, from, spans, bools, second);
    lemma_request_steps();
    reveal(reaches);
}

proof fn lemma_refusal_came(
    s: Seq<char>,
    i: int,
    from: Matched,
    last: Matched,
) -> (written: (int, bool))
    requires
        came(s, request_state_atoms(), 0, from, i, last),
    ensures
        is_request_refusal(s, i, words_of(s, last), written.0, written.1),
        came(s, request_state_atoms(), 24, from, i + 27 + written.0, last),
{
    lemma_request_steps();
    let pattern = request_state_atoms();
    let w = words_of(s, last);
    assert(reads(s, i, "async"@) && reads(s, i + 1, "function"@)
        && came(s, pattern, 1, from, i + 2, last)) by {
        lemma_run_async_function();
        let pieces = seq!["async"@, "function"@];
        lemma_run_came(s, pattern, 0, from, i, last, "async function", pieces);
        assert(pieces[0] == "async"@);
        assert(pieces[1] == "function"@);
    }
    assert(ident_at(s, i + 2) && came(s, pattern, 2, from, i + 3, last)) by {
        lemma_any_came(s, pattern, 1, from, i + 2, last);
    }
    assert(reads(s, i + 3, "("@) && came(s, pattern, 3, from, i + 4, last)) by {
        lemma_run_open();
        let pieces = seq!["("@];
        lemma_run_came(s, pattern, 2, from, i + 3, last, "(", pieces);
        assert(pieces[0] == "("@);
    }
    assert(word_at(s, i + 4, w[0]) && came(s, pattern, 4, from, i + 5, last)) by {
        lemma_word_came(s, pattern, 3, from, i + 4, last, 0);
    }
    assert(reads(s, i + 5, ","@) && came(s, pattern, 5, from, i + 6, last)) by {
        lemma_run_comma();
        let pieces = seq![","@];
        lemma_run_came(s, pattern, 4, from, i + 5, last, ",", pieces);
        assert(pieces[0] == ","@);
    }
    assert(word_at(s, i + 6, w[1]) && came(s, pattern, 6, from, i + 7, last)) by {
        lemma_word_came(s, pattern, 5, from, i + 6, last, 1);
    }
    assert(reads(s, i + 7, ")"@) && reads(s, i + 8, "{"@)
        && came(s, pattern, 7, from, i + 9, last)) by {
        lemma_run_close_brace();
        let pieces = seq![")"@, "{"@];
        lemma_run_came(s, pattern, 6, from, i + 7, last, ") {", pieces);
        assert(pieces[0] == ")"@);
        assert(pieces[1] == "{"@);
    }
    assert(declares_at(s, i + 9) && came(s, pattern, 8, from, i + 10, last)) by {
        let options: &'static [&'static str] = &["let", "const", "var"];
        let choice = lemma_one_of_came(s, pattern, 7, from, i + 9, last, options);
        assert(choice == 0 || choice == 1 || choice == 2);
    }
    assert(word_at(s, i + 10, w[2]) && came(s, pattern, 9, from, i + 11, last)) by {
        lemma_word_came(s, pattern, 8, from, i + 10, last, 2);
    }
    assert(reads(s, i + 11, "="@) && reads(s, i + 12, "await"@)
        && came(s, pattern, 10, from, i + 13, last)) by {
        lemma_run_is_await();
        let pieces = seq!["="@, "await"@];
        lemma_run_came(s, pattern, 9, from, i + 11, last, "= await", pieces);
        assert(pieces[0] == "="@);
        assert(pieces[1] == "await"@);
    }
    assert(ident_at(s, i + 13) && came(s, pattern, 11, from, i + 14, last)) by {
        lemma_any_came(s, pattern, 10, from, i + 13, last);
    }
    assert(reads(s, i + 14, "("@) && came(s, pattern, 12, from, i + 15, last)) by {
        lemma_run_open();
        let pieces = seq!["("@];
        lemma_run_came(s, pattern, 11, from, i + 14, last, "(", pieces);
        assert(pieces[0] == "("@);
    }
    assert(word_at(s, i + 15, w[0]) && came(s, pattern, 13, from, i + 16, last)) by {
        lemma_word_came(s, pattern, 12, from, i + 15, last, 0);
    }
    assert(reads(s, i + 16, ","@) && came(s, pattern, 14, from, i + 17, last)) by {
        lemma_run_comma();
        let pieces = seq![","@];
        lemma_run_came(s, pattern, 13, from, i + 16, last, ",", pieces);
        assert(pieces[0] == ","@);
    }
    assert(word_at(s, i + 17, w[1]) && came(s, pattern, 15, from, i + 18, last)) by {
        lemma_word_came(s, pattern, 14, from, i + 17, last, 1);
    }
    assert(reads(s, i + 18, ")"@) && reads(s, i + 19, ";"@) && reads(s, i + 20, "if"@)
        && reads(s, i + 21, "("@) && came(s, pattern, 16, from, i + 22, last)) by {
        lemma_run_close_semicolon_if_open();
        let pieces = seq![")"@, ";"@, "if"@, "("@];
        lemma_run_came(s, pattern, 15, from, i + 18, last, ") ; if (", pieces);
        assert(pieces[0] == ")"@);
        assert(pieces[1] == ";"@);
        assert(pieces[2] == "if"@);
        assert(pieces[3] == "("@);
    }
    assert(word_at(s, i + 22, w[2]) && came(s, pattern, 17, from, i + 23, last)) by {
        lemma_word_came(s, pattern, 16, from, i + 22, last, 2);
    }
    assert(reads(s, i + 23, "!=="@) && came(s, pattern, 18, from, i + 24, last)) by {
        lemma_run_not_same();
        let pieces = seq!["!=="@];
        lemma_run_came(s, pattern, 17, from, i + 23, last, "!==", pieces);
        assert(pieces[0] == "!=="@);
    }
    assert(text_at(s, i + 24, "chatgpt"@) && came(s, pattern, 19, from, i + 25, last)) by {
        lemma_str_came(s, pattern, 18, from, i + 24, last, "chatgpt");
    }
    assert(reads(s, i + 25, ")"@) && reads(s, i + 26, "return"@)
        && came(s, pattern, 20, from, i + 27, last)) by {
        lemma_run_close_return();
        let pieces = seq![")"@, "return"@];
        lemma_run_came(s, pattern, 19, from, i + 25, last, ") return", pieces);
        assert(pieces[0] == ")"@);
        assert(pieces[1] == "return"@);
    }
    assert(same_line_at(s, i + 27) && came(s, pattern, 21, from, i + 27, last)) by {
        lemma_same_line_came(s, pattern, 20, from, i + 27, last);
    }
    assert(came(s, pattern, 22, from, i + 27, last)) by {
        lemma_begin_came(s, pattern, 21, from, i + 27, last, 0);
    }
    let (answer, count0) = lemma_capture_came(s, pattern, 22, from, i + 27, last);
    let b = count0;
    assert(came(s, pattern, 24, from, i + 27 + b, last)) by {
        lemma_end_came(s, pattern, 23, from, i + 27 + b, last, 0);
    }
    (b, answer)
}

proof fn lemma_answer_came(s: Seq<char>, h: int, from: Matched, last: Matched) -> (b: int)
    requires
        came(s, request_state_atoms(), 24, from, h, last),
    ensures
        is_request_answer(s, h, words_of(s, last), b),
{
    lemma_request_steps();
    let pattern = request_state_atoms();
    let w = words_of(s, last);
    assert(reads(s, h, ";"@) && came(s, pattern, 25, from, h + 1, last)) by {
        lemma_run_semicolon();
        let pieces = seq![";"@];
        lemma_run_came(s, pattern, 24, from, h, last, ";", pieces);
        assert(pieces[0] == ";"@);
    }
    assert(declares_at(s, h + 1) && came(s, pattern, 26, from, h + 2, last)) by {
        let options: &'static [&'static str] = &["let", "const", "var"];
        let choice = lemma_one_of_came(s, pattern, 25, from, h + 1, last, options);
        assert(choice == 0 || choice == 1 || choice == 2);
    }
    assert(word_at(s, h + 2, w[3]) && came(s, pattern, 27, from, h + 3, last)) by {
        lemma_word_came(s, pattern, 26, from, h + 2, last, 3);
    }
    assert(reads(s, h + 3, "="@) && reads(s, h + 4, "await"@)
        && came(s, pattern, 28, from, h + 5, last)) by {
        lemma_run_is_await();
        let pieces = seq!["="@, "await"@];
        lemma_run_came(s, pattern, 27, from, h + 3, last, "= await", pieces);
        assert(pieces[0] == "="@);
        assert(pieces[1] == "await"@);
    }
    assert(ident_at(s, h + 5) && came(s, pattern, 29, from, h + 6, last)) by {
        lemma_any_came(s, pattern, 28, from, h + 5, last);
    }
    assert(reads(s, h + 6, "("@) && came(s, pattern, 30, from, h + 7, last)) by {
        lemma_run_open();
        let pieces = seq!["("@];
        lemma_run_came(s, pattern, 29, from, h + 6, last, "(", pieces);
        assert(pieces[0] == "("@);
    }
    assert(word_at(s, h + 7, w[1]) && came(s, pattern, 31, from, h + 8, last)) by {
        lemma_word_came(s, pattern, 30, from, h + 7, last, 1);
    }
    assert(reads(s, h + 8, ","@) && reads(s, h + 9, "{"@) && reads(s, h + 10, "priority"@)
        && reads(s, h + 11, ":"@) && came(s, pattern, 32, from, h + 12, last)) by {
        lemma_run_comma_brace_priority_colon();
        let pieces = seq![","@, "{"@, "priority"@, ":"@];
        lemma_run_came(s, pattern, 31, from, h + 8, last, ", { priority :", pieces);
        assert(pieces[0] == ","@);
        assert(pieces[1] == "{"@);
        assert(pieces[2] == "priority"@);
        assert(pieces[3] == ":"@);
    }
    assert(text_at(s, h + 12, "critical"@) && came(s, pattern, 33, from, h + 13, last)) by {
        lemma_str_came(s, pattern, 32, from, h + 12, last, "critical");
    }
    assert(reads(s, h + 13, "}"@) && reads(s, h + 14, ")"@) && reads(s, h + 15, ";"@)
        && reads(s, h + 16, "return"@) && came(s, pattern, 34, from, h + 17, last)) by {
        lemma_run_unbrace_close_semicolon_return();
        let pieces = seq!["}"@, ")"@, ";"@, "return"@];
        lemma_run_came(s, pattern, 33, from, h + 13, last, "} ) ; return", pieces);
        assert(pieces[0] == "}"@);
        assert(pieces[1] == ")"@);
        assert(pieces[2] == ";"@);
        assert(pieces[3] == "return"@);
    }
    assert(word_at(s, h + 17, w[0]) && came(s, pattern, 35, from, h + 18, last)) by {
        lemma_word_came(s, pattern, 34, from, h + 17, last, 0);
    }
    assert(member_at(s, h + 18, "query"@) && came(s, pattern, 36, from, h + 20, last)) by {
        lemma_member_came(s, pattern, 35, from, h + 18, last, "query");
    }
    assert(member_at(s, h + 20, "setData"@) && came(s, pattern, 37, from, h + 22, last)) by {
        lemma_member_came(s, pattern, 36, from, h + 20, last, "setData");
    }
    assert(reads(s, h + 22, "("@) && came(s, pattern, 38, from, h + 23, last)) by {
        lemma_run_open();
        let pieces = seq!["("@];
        lemma_run_came(s, pattern, 37, from, h + 22, last, "(", pieces);
        assert(pieces[0] == "("@);
    }
    assert(ident_at(s, h + 23) && came(s, pattern, 39, from, h + 24, last)) by {
        lemma_any_came(s, pattern, 38, from, h + 23, last);
    }
    assert(reads(s, h + 24, ","@) && reads(s, h + 25, "{"@) && reads(s, h + 26, "authMethod"@)
        && reads(s, h + 27, ":"@) && came(s, pattern, 40, from, h + 28, last)) by {
        lemma_run_comma_brace_auth_method_colon();
        let pieces = seq![","@, "{"@, "authMethod"@, ":"@];
        lemma_run_came(s, pattern, 39, from, h + 24, last, ", { authMethod :", pieces);
        assert(pieces[0] == ","@);
        assert(pieces[1] == "{"@);
        assert(pieces[2] == "authMethod"@);
        assert(pieces[3] == ":"@);
    }
    assert(word_at(s, h + 28, w[2]) && came(s, pattern, 41, from, h + 29, last)) by {
        lemma_word_came(s, pattern, 40, from, h + 28, last, 2);
    }
    assert(reads(s, h + 29, ","@) && reads(s, h + 30, "hostId"@) && reads(s, h + 31, ":"@)
        && came(s, pattern, 42, from, h + 32, last)) by {
        lemma_run_comma_host_id_colon();
        let pieces = seq![","@, "hostId"@, ":"@];
        lemma_run_came(s, pattern, 41, from, h + 29, last, ", hostId :", pieces);
        assert(pieces[0] == ","@);
        assert(pieces[1] == "hostId"@);
        assert(pieces[2] == ":"@);
    }
    assert(word_at(s, h + 32, w[1]) && came(s, pattern, 43, from, h + 33, last)) by {
        lemma_word_came(s, pattern, 42, from, h + 32, last, 1);
    }
    assert(reads(s, h + 33, "}"@) && reads(s, h + 34, ","@)
        && came(s, pattern, 44, from, h + 35, last)) by {
        lemma_run_unbrace_comma();
        let pieces = seq!["}"@, ","@];
        lemma_run_came(s, pattern, 43, from, h + 33, last, "} ,", pieces);
        assert(pieces[0] == "}"@);
        assert(pieces[1] == ","@);
    }
    assert(word_at(s, h + 35, w[3]) && came(s, pattern, 45, from, h + 36, last)) by {
        lemma_word_came(s, pattern, 44, from, h + 35, last, 3);
    }
    assert(reads(s, h + 36, ")"@) && reads(s, h + 37, ","@)
        && came(s, pattern, 46, from, h + 38, last)) by {
        lemma_run_close_comma();
        let pieces = seq![")"@, ","@];
        lemma_run_came(s, pattern, 45, from, h + 36, last, ") ,", pieces);
        assert(pieces[0] == ")"@);
        assert(pieces[1] == ","@);
    }
    assert(word_at(s, h + 38, w[3]) && came(s, pattern, 47, from, h + 39, last)) by {
        lemma_word_came(s, pattern, 46, from, h + 38, last, 3);
    }
    assert(member_at(s, h + 39, "requirements"@) && came(s, pattern, 48, from, h + 41, last)) by {
        lemma_member_came(s, pattern, 47, from, h + 39, last, "requirements");
    }
    assert(member_at(s, h + 41, "featureRequirements"@)
        && came(s, pattern, 49, from, h + 43, last)) by {
        lemma_member_came(s, pattern, 48, from, h + 41, last, "featureRequirements");
    }
    assert(member_at(s, h + 43, "fast_mode"@) && came(s, pattern, 50, from, h + 45, last)) by {
        lemma_member_came(s, pattern, 49, from, h + 43, last, "fast_mode");
    }
    assert(reads(s, h + 45, "!=="@) && came(s, pattern, 51, from, h + 46, last)) by {
        lemma_run_not_same();
        let pieces = seq!["!=="@];
        lemma_run_came(s, pattern, 50, from, h + 45, last, "!==", pieces);
        assert(pieces[0] == "!=="@);
    }
    let count0 = lemma_bool_came(s, pattern, 51, from, h + 46, last, false);
    let b = count0;
    assert(reads(s, h + 46 + b, "}"@) && came(s, pattern, 53, from, h + 47 + b, last)) by {
        lemma_run_unbrace();
        let pieces = seq!["}"@];
        lemma_run_came(s, pattern, 52, from, h + 46 + b, last, "}", pieces);
        assert(pieces[0] == "}"@);
    }
    b
}

/// Nothing but this is matched as such: the allowance of a request.
pub proof fn lemma_found_is_request_allowance(s: Seq<char>, i: int, ids: Seq<Option<int>>)
    requires
        0 <= i,
        ids.len() == 16,
        matched_at(s, i, request_state_atoms(), ids) is Some,
    ensures
        ({
            let m = matched_at(s, i, request_state_atoms(), ids)->0;
            exists|first: int, second: int, answer: bool|
                #[trigger] is_request_refusal(s, i, words_of(s, m), first, answer)
                    && #[trigger] is_request_answer(s, i + 27 + first, words_of(s, m), second)
        }),
{
    let from = unmatched(i, ids);
    let last = matched_at(s, i, request_state_atoms(), ids)->0;
    assert(came(s, request_state_atoms(), 0, from, i, last)) by {
        reveal(came);
    }
    let (first, answer) = lemma_refusal_came(s, i, from, last);
    let second = lemma_answer_came(s, i + 27 + first, from, last);
    assert(is_request_refusal(s, i, words_of(s, last), first, answer));
    assert(is_request_answer(s, i + 27 + first, words_of(s, last), second));
}

} // verus!
