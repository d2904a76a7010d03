//! What the steps of a pattern accept, told from the texts of the tokens.

use vstd::prelude::*;

use crate::js_tokens::{literal_value, tokens_of, Kind};
use crate::token_match::{
    after_atom, after_atoms, is_ascii_space, matched_at, run_at, token_is, token_text, unmatched,
    word_end, words, words_from, Atom, Matched,
};

verus! {

// ---------------------------------------------------------------------------
// Steps

/// The token that a step looks at has this text.
pub open spec fn reads(s: Seq<char>, i: int, text: Seq<char>) -> bool {
    i < tokens_of(s).len() && s.subrange(tokens_of(s)[i].start, tokens_of(s)[i].end) == text
}

/// The tokens from `i` on have these texts.
pub open spec fn reads_all(s: Seq<char>, i: int, pieces: Seq<Seq<char>>) -> bool {
    forall|k: int| 0 <= k < pieces.len() ==> reads(s, i + k, #[trigger] pieces[k])
}

/// The step goes on by some tokens and changes nothing else.
pub open spec fn goes_on(after: Option<Matched>, m: Matched, count: int) -> bool {
    after == Some(Matched { end: m.end + count, ..m })
}

// ---------------------------------------------------------------------------
// Runs of tokens

/// A text without blanks, and not empty.
pub open spec fn is_piece(text: Seq<char>) -> bool {
    text.len() > 0 && forall|i: int|
        0 <= i < text.len() ==> #[trigger] text[i] != ' ' && text[i] != '\t' && text[i] != '\n'
            && text[i] != '\r' && text[i] != '\u{c}'
}

/// The pieces with a blank between them.
pub open spec fn spaced(pieces: Seq<Seq<char>>) -> Seq<char>
    decreases pieces.len(),
{
    if pieces.len() == 0 {
        Seq::empty()
    } else if pieces.len() == 1 {
        pieces[0]
    } else {
        pieces[0] + seq![' '] + spaced(pieces.drop_first())
    }
}

proof fn lemma_word_end_is(text: Seq<char>, i: int, j: int)
    requires
        0 <= i <= j <= text.len(),
        forall|k: int| i <= k < j ==> !is_ascii_space(#[trigger] text[k]),
        j < text.len() ==> is_ascii_space(text[j]),
    ensures
        word_end(text, i) == j,
    decreases j - i,
{
    if i < j {
        lemma_word_end_is(text, i + 1, j);
    }
}

proof fn lemma_spaced_words(before: Seq<char>, pieces: Seq<Seq<char>>)
    requires
        forall|k: int| 0 <= k < pieces.len() ==> is_piece(#[trigger] pieces[k]),
    ensures
        words_from(before + spaced(pieces), before.len() as int) == pieces,
    decreases pieces.len(),
{
    let text = before + spaced(pieces);
    let i = before.len() as int;
    if pieces.len() == 0 {
        assert(words_from(text, i) =~= pieces);
    } else {
        let piece = pieces[0];
        let end = i + piece.len();
        let rest = pieces.drop_first();
        assert(is_piece(piece));
        assert(text.subrange(i, end) =~= piece);
        assert forall|k: int| i <= k < end implies !is_ascii_space(#[trigger] text[k]) by {
            assert(text[k] == piece[k - i]);
        }
        assert(!is_ascii_space(text[i]));
        if pieces.len() == 1 {
            lemma_word_end_is(text, i, end);
            assert(words_from(text, end) =~= Seq::<Seq<char>>::empty());
            assert(pieces =~= seq![piece] + Seq::<Seq<char>>::empty());
        } else {
            assert(text[end] == ' ');
            lemma_word_end_is(text, i, end);
            let next = before + piece + seq![' '];
            assert(next + spaced(rest) =~= text);
            assert forall|k: int| 0 <= k < rest.len() implies is_piece(#[trigger] rest[k]) by {
                assert(rest[k] == pieces[k + 1]);
            }
            lemma_spaced_words(next, rest);
            assert(words_from(text, end) == words_from(text, end + 1));
            assert(pieces =~= seq![piece] + rest);
        }
    }
}

/// A run matches exactly the tokens whose texts are its pieces, one after another.
pub proof fn lemma_run_is_its_pieces(
    s: Seq<char>,
    m: Matched,
    run: &'static str,
    pieces: Seq<Seq<char>>,
)
    requires
        0 <= m.end,
        forall|k: int| 0 <= k < pieces.len() ==> is_piece(#[trigger] pieces[k]),
        run@ == spaced(pieces),
    ensures
        after_atom(s, m, Atom::ExactRun(run)) is Some <==> reads_all(s, m.end, pieces),
        reads_all(s, m.end, pieces) ==> goes_on(
            after_atom(s, m, Atom::ExactRun(run)),
            m,
            pieces.len() as int,
        ),
{
    lemma_spaced_words(Seq::empty(), pieces);
    assert(Seq::<char>::empty() + spaced(pieces) =~= run@);
    assert(words(run@) == pieces);
    if run_at(s, m.end, pieces) {
        assert forall|k: int| 0 <= k < pieces.len() implies reads(
            s,
            m.end + k,
            #[trigger] pieces[k],
        ) by {
            assert(token_is(s, m.end + k, pieces[k]));
        }
    }
    if reads_all(s, m.end, pieces) {
        assert forall|k: int| 0 <= k < pieces.len() implies token_is(
            s,
            m.end + k,
            #[trigger] pieces[k],
        ) by {
            assert(reads(s, m.end + k, pieces[k]));
        }
    }
}

// ---------------------------------------------------------------------------
// Single tokens

/// A choice takes one token with one of its texts.
pub proof fn lemma_choice_takes_one_of_its_texts(
    s: Seq<char>,
    m: Matched,
    options: &'static [&'static str],
)
    ensures
        ({
            let after = after_atom(s, m, Atom::OneOf(options));
            &&& forall|k: int|
                0 <= k < options@.len() && #[trigger] reads(s, m.end, options@[k]@) ==> goes_on(
                    after,
                    m,
                    1,
                )
            &&& after is Some ==> exists|k: int|
                0 <= k < options@.len() && #[trigger] reads(s, m.end, options@[k]@)
        }),
{
    let after = after_atom(s, m, Atom::OneOf(options));
    if after is Some {
        let k = choose|k: int|
            0 <= k < options@.len() && (#[trigger] options@[k])@ == token_text(s, m.end);
        assert(reads(s, m.end, options@[k]@));
    }
}

/// A word takes one identifier. The same word again takes the same identifier again, and
/// another word may take any.
pub proof fn lemma_word_takes_the_same_again(s: Seq<char>, m: Matched, slot: usize)
    requires
        0 <= m.end,
        slot < m.ids.len(),
    ensures
        ({
            let after = after_atom(s, m, Atom::Ident(slot));
            let word = m.end < tokens_of(s).len() && tokens_of(s)[m.end].kind == Kind::Ident;
            &&& !word ==> after is None
            &&& goes_on(after_atom(s, m, Atom::AnyIdent), m, 1) <==> word
            &&& word && m.ids[slot as int] is None ==> after == Some(
                (Matched { end: m.end + 1, ids: m.ids.update(slot as int, Some(m.end)), ..m }),
            )
            &&& m.ids[slot as int] matches Some(bound) ==> {
                &&& word && reads(s, m.end, token_text(s, bound)) ==> goes_on(after, m, 1)
                &&& !reads(s, m.end, token_text(s, bound)) ==> after is None
            }
        }),
{
}

/// A text takes one string or template that stands for it.
pub proof fn lemma_text_takes_a_literal(s: Seq<char>, m: Matched, text: &'static str)
    requires
        0 <= m.end < tokens_of(s).len(),
    ensures
        ({
            let token = tokens_of(s)[m.end];
            let after = after_atom(s, m, Atom::Str(text));
            if (token.kind == Kind::String || token.kind == Kind::Template) && literal_value(
                token_text(s, m.end),
            ) == Some(text@) {
                goes_on(after, m, 1)
            } else {
                after is None
            }
        }),
{
}

/// The boolean that the tokens at `i` write out, and how many they are.
pub open spec fn writes_bool(s: Seq<char>, i: int, value: bool, count: int) -> bool {
    if value {
        reads(s, i, "true"@) && count == 1 || reads(s, i, "!"@) && reads(s, i + 1, "0"@) && count
            == 2
    } else {
        reads(s, i, "false"@) && count == 1 || reads(s, i, "!"@) && reads(s, i + 1, "1"@) && count
            == 2
    }
}

proof fn lemma_bool_texts()
    ensures
        "true"@ != "false"@,
        "true"@ != "!"@,
        "false"@ != "!"@,
        "0"@ != "1"@,
{
    reveal_strlit("true");
    reveal_strlit("false");
    reveal_strlit("!");
    reveal_strlit("0");
    reveal_strlit("1");
    assert("true"@.len() == 4 && "false"@.len() == 5 && "!"@.len() == 1);
    assert("0"@[0] == '0' && "1"@[0] == '1');
}

/// A boolean takes its own spellings, written out or minified, and no other's.
pub proof fn lemma_bool_takes_its_spellings(
    s: Seq<char>,
    m: Matched,
    value: bool,
    count: int,
    slot: usize,
)
    requires
        0 <= m.end,
        writes_bool(s, m.end, value, count),
        slot < m.bools.len(),
    ensures
        goes_on(after_atom(s, m, Atom::Bool(value)), m, count),
        after_atom(s, m, Atom::Bool(!value)) is None,
        ({
            let after = after_atom(s, m, Atom::CaptureBool(slot));
            match m.bools[slot as int] {
                None => after == Some(
                    (Matched {
                        end: m.end + count,
                        bools: m.bools.update(slot as int, Some(value)),
                        ..m
                    }),
                ),
                Some(bound) => if bound == value {
                    goes_on(after, m, count)
                } else {
                    after is None
                },
            }
        }),
{
    lemma_bool_texts();
}

/// What writes out no boolean is taken by none.
pub proof fn lemma_bool_takes_nothing_else(s: Seq<char>, m: Matched, value: bool, slot: usize)
    requires
        0 <= m.end,
        !writes_bool(s, m.end, value, 1),
        !writes_bool(s, m.end, value, 2),
    ensures
        after_atom(s, m, Atom::Bool(value)) is None,
        !writes_bool(s, m.end, !value, 1) && !writes_bool(s, m.end, !value, 2) ==> after_atom(
            s,
            m,
            Atom::CaptureBool(slot),
        ) is None,
{
}

/// A property takes a point, or a question mark and a point, and its name.
pub proof fn lemma_property_takes_point_and_name(s: Seq<char>, m: Matched, name: &'static str)
    requires
        0 <= m.end,
    ensures
        ({
            let after = after_atom(s, m, Atom::Member(name));
            if (reads(s, m.end, "."@) || reads(s, m.end, "?."@)) && reads(s, m.end + 1, name@) {
                goes_on(after, m, 2)
            } else {
                after is None
            }
        }),
{
}

/// A comparison with null takes either form of it, and only of its own sense.
pub proof fn lemma_null_takes_both_comparisons(s: Seq<char>, m: Matched)
    requires
        0 <= m.end,
    ensures
        ({
            let after = after_atom(s, m, Atom::NullEq);
            if (reads(s, m.end, "=="@) || reads(s, m.end, "==="@)) && reads(s, m.end + 1, "null"@) {
                goes_on(after, m, 2)
            } else {
                after is None
            }
        }),
        ({
            let after = after_atom(s, m, Atom::NullNe);
            if (reads(s, m.end, "!="@) || reads(s, m.end, "!=="@)) && reads(s, m.end + 1, "null"@) {
                goes_on(after, m, 2)
            } else {
                after is None
            }
        }),
{
}

/// The undefined value is taken by its name and as `void 0`.
pub proof fn lemma_undefined_takes_both_spellings(s: Seq<char>, m: Matched)
    requires
        0 <= m.end,
    ensures
        reads(s, m.end, "undefined"@) ==> goes_on(after_atom(s, m, Atom::Undefined), m, 1),
        reads(s, m.end, "void"@) && reads(s, m.end + 1, "0"@) ==> goes_on(
            after_atom(s, m, Atom::Undefined),
            m,
            2,
        ),
        !reads(s, m.end, "undefined"@) && !(reads(s, m.end, "void"@) && reads(s, m.end + 1, "0"@))
            ==> after_atom(s, m, Atom::Undefined) is None,
{
    reveal_strlit("undefined");
    reveal_strlit("void");
    assert("undefined"@.len() == 9 && "void"@.len() == 4);
}

/// A step that wants no line break takes nothing, where a token follows on the same line.
pub proof fn lemma_line_break_is_refused(s: Seq<char>, m: Matched)
    requires
        0 <= m.end,
    ensures
        m.end < tokens_of(s).len() && !tokens_of(s)[m.end].line_break_before ==> goes_on(
            after_atom(s, m, Atom::NoLineBreak),
            m,
            0,
        ),
        m.end >= tokens_of(s).len() || tokens_of(s)[m.end].line_break_before ==> after_atom(
            s,
            m,
            Atom::NoLineBreak,
        ) is None,
{
}

/// A span that is begun and then ended holds what was taken between, and one that holds nothing
/// is refused.
pub proof fn lemma_span_holds_what_lies_between(m: Matched, s: Seq<char>, slot: usize, later: Matched)
    requires
        slot < m.spans.len(),
        m.spans[slot as int] is None,
        after_atom(s, m, Atom::Begin(slot)) matches Some(begun) && later.spans == begun.spans,
        later.end >= m.end,
    ensures
        after_atom(s, m, Atom::Begin(slot)) matches Some(begun) && begun.end == m.end && begun.ids
            == m.ids && begun.bools == m.bools && begun.start == m.start,
        later.end > m.end ==> after_atom(s, later, Atom::End(slot)) == Some(
            (Matched { spans: m.spans.update(slot as int, Some((m.end, later.end))), ..later }),
        ),
        later.end == m.end ==> after_atom(s, later, Atom::End(slot)) is None,
{
    let begun = after_atom(s, m, Atom::Begin(slot))->0;
    assert(begun.spans.update(slot as int, Some((m.end, later.end))) =~= m.spans.update(
        slot as int,
        Some((m.end, later.end)),
    ));
}

// ---------------------------------------------------------------------------
// Whole patterns

/// A pattern of two parts matches where the second matches behind the first.
pub proof fn lemma_pattern_matches_in_parts(
    s: Seq<char>,
    first: Seq<Atom>,
    second: Seq<Atom>,
    k: int,
    m: Matched,
)
    requires
        0 <= k <= second.len(),
    ensures
        after_atoms(s, first + second, first.len() + k, m) == match after_atoms(
            s,
            first,
            first.len() as int,
            m,
        ) {
            Some(next) => after_atoms(s, second, k, next),
            None => None,
        },
    decreases k,
{
    if k == 0 {
        lemma_same_start(s, first, first + second, first.len() as int, m);
    } else {
        lemma_pattern_matches_in_parts(s, first, second, k - 1, m);
        assert((first + second)[first.len() + k - 1] == second[k - 1]);
    }
}

proof fn lemma_same_start(s: Seq<char>, first: Seq<Atom>, whole: Seq<Atom>, k: int, m: Matched)
    requires
        0 <= k <= first.len() <= whole.len(),
        forall|j: int| 0 <= j < first.len() ==> first[j] == #[trigger] whole[j],
    ensures
        after_atoms(s, whole, k, m) == after_atoms(s, first, k, m),
    decreases k,
{
    if k > 0 {
        lemma_same_start(s, first, whole, k - 1, m);
        assert(first[k - 1] == whole[k - 1]);
    }
}

/// A pattern of one step matches at a token exactly where the step does, with nothing bound
/// before.
pub proof fn lemma_single_step(s: Seq<char>, start: int, atom: Atom, ids: Seq<Option<int>>)
    ensures
        matched_at(s, start, seq![atom], ids) == after_atom(
            s,
            (Matched {
                start,
                end: start,
                ids,
                spans: seq![None, None, None, None],
                bools: seq![None, None, None, None],
            }),
            atom,
        ),
{
    reveal_with_fuel(after_atoms, 2);
    let m = unmatched(start, ids);
    assert(m.spans =~= seq![None, None, None, None]);
    assert(m.bools =~= seq![None, None, None, None]);
}

} // verus!
