use codex_fast::js_tokens::Tokens;
use codex_fast::token_match::Atom::{
    AnyIdent, Begin, Bool, CaptureBool, End, ExactRun, Ident, Member, NoLineBreak, NullEq, NullNe,
    OneOf, Str, Undefined,
};
use codex_fast::token_match::{
    any_in, find, match_at, match_at_with, split_words, take_bool_value, token_range,
};

#[test]
fn binds_identifiers_and_marks_a_span() {
    let source = "if (!allowed || settings.availableOptions.length <= 1)";
    let tokens = Tokens::new(source);
    let pattern = &[
        ExactRun("if ("),
        Begin(0),
        ExactRun("!"),
        Ident(0),
        ExactRun("||"),
        End(0),
        Ident(1),
        Member("availableOptions"),
        Member("length"),
        ExactRun("<= 1 )"),
    ];
    let hit = match_at(&tokens, 0, pattern).unwrap();
    assert_eq!(&tokens.span(hit.ident(0)), &(5..12));
    assert_eq!(&tokens.span(hit.ident(1)), &(16..24));
    assert_eq!(tokens.span(0), 0..2);
    assert_eq!(tokens.span(tokens.len() - 1), 53..54);
    assert_eq!(tokens.span(hit.start), 0..2);
    assert_eq!(hit.end, tokens.len());
    assert_eq!(&source[hit.span(&tokens, 0).unwrap()], "!allowed ||");
}

#[test]
fn truncated_input_fails_without_panicking() {
    let tokens = Tokens::new("x");
    assert!(match_at(&tokens, 0, &[ExactRun("x"), OneOf(&["y"])]).is_none());
    assert!(match_at(&tokens, 0, &[ExactRun("x"), Str("y")]).is_none());
    assert!(match_at(&tokens, 0, &[ExactRun("x"), CaptureBool(0)]).is_none());
}

#[test]
fn pivot_filter_matches_exhaustive_search() {
    let tokens = Tokens::new("skip;let value=owner?.feature===null;tail");
    let pattern = &[
        ExactRun("let"),
        AnyIdent,
        ExactRun("="),
        AnyIdent,
        Member("feature"),
        NullEq,
        ExactRun(";"),
    ];
    let optimized = find(&tokens, pattern)
        .iter()
        .map(|hit| (hit.start, hit.end))
        .collect::<Vec<_>>();
    let exhaustive = (0..tokens.len())
        .filter_map(|start| match_at_with(&tokens, start, pattern, None))
        .map(|hit| (hit.start, hit.end))
        .collect::<Vec<_>>();

    assert_eq!(optimized, exhaustive);
    assert_eq!(optimized.len(), 1);
}

#[test]
fn pivot_never_crosses_variable_width_atoms() {
    for source in ["true rare", "!0 rare"] {
        assert_eq!(
            find(&Tokens::new(source), &[Bool(true), ExactRun("rare")]).len(),
            1
        );
    }
    for source in ["undefined rare", "void 0 rare"] {
        assert_eq!(
            find(&Tokens::new(source), &[Undefined, ExactRun("rare")]).len(),
            1
        );
    }
    for source in ["false rare", "!1 rare"] {
        assert_eq!(
            find(&Tokens::new(source), &[CaptureBool(0), ExactRun("rare")]).len(),
            1
        );
    }
}

#[test]
fn a_slot_holds_one_text() {
    let pattern = &[Ident(0), ExactRun("="), Ident(0)];
    assert!(match_at(&Tokens::new("a=a"), 0, pattern).is_some());
    assert!(match_at(&Tokens::new("a=b"), 0, pattern).is_none());

    let seed = match_at(&Tokens::new("a=b"), 0, &[Ident(0)]).unwrap();
    let tokens = Tokens::new("a=b");
    assert!(match_at_with(&tokens, 0, &[Ident(0)], Some(&seed)).is_some());
    assert!(match_at_with(&tokens, 2, &[Ident(0)], Some(&seed)).is_none());
}

#[test]
fn captures_booleans_in_both_spellings() {
    let hit = match_at(&Tokens::new("!0,!1"), 0, &[CaptureBool(0), ExactRun(","), CaptureBool(1)]);
    let hit = hit.unwrap();
    assert!(hit.boolean(0));
    assert!(!hit.boolean(1));

    let tokens = Tokens::new("true !1 !2");
    let mut position = 0;
    assert_eq!(take_bool_value(&tokens, &mut position), Some(true));
    assert_eq!(position, 1);
    assert_eq!(take_bool_value(&tokens, &mut position), Some(false));
    assert_eq!(position, 3);
    assert_eq!(take_bool_value(&tokens, &mut position), None);
}

#[test]
fn refuses_a_line_break_where_none_may_stand() {
    let pattern = &[ExactRun("return"), NoLineBreak, ExactRun("!")];
    assert!(match_at(&Tokens::new("return !1"), 0, pattern).is_some());
    assert!(match_at(&Tokens::new("return\n!1"), 0, pattern).is_none());
}

#[test]
fn compares_with_null_loosely_and_strictly() {
    for (source, equal) in [("a==null", true), ("a===null", true), ("a!=null", false)] {
        let tokens = Tokens::new(source);
        assert_eq!(match_at(&tokens, 1, &[NullEq]).is_some(), equal);
        assert_eq!(match_at(&tokens, 1, &[NullNe]).is_some(), !equal);
    }
}

#[test]
fn finds_matches_only_inside_a_range() {
    let tokens = Tokens::new("a b a c");
    assert!(any_in(&tokens, 0..2, &[ExactRun("a")], None));
    assert!(!any_in(&tokens, 1..2, &[ExactRun("a")], None));
    assert_eq!(find(&tokens, &[ExactRun("a")]).len(), 2);
}

#[test]
fn token_ranges_cover_whole_tokens() {
    let tokens = Tokens::new("ab  cd ef");
    assert_eq!(token_range(&tokens, 0, 2), Some(0..6));
    assert_eq!(token_range(&tokens, 1, 1), None);
    assert_eq!(token_range(&tokens, 0, 4), None);
}

#[test]
fn words_are_split_at_ascii_white_space() {
    assert_eq!(split_words(" <=  1 )\t"), vec!["<=", "1", ")"]);
    assert_eq!(split_words("a\u{a0}b"), vec!["a\u{a0}b"]);
}
