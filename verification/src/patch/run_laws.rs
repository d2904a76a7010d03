//! What the runs of the patterns are made of.

use vstd::prelude::*;

use crate::match_laws::{is_piece, spaced};

verus! {

/// A run is written as its pieces with a blank between them.
pub open spec fn is_run(run: &'static str, pieces: Seq<Seq<char>>) -> bool {
    &&& run@ == spaced(pieces)
    &&& forall|k: int| 0 <= k < pieces.len() ==> is_piece(#[trigger] pieces[k])
}

proof fn lemma_piece_is_service_tier_allowed()
    ensures
        is_piece("isServiceTierAllowed"@),
{
    reveal_strlit("isServiceTierAllowed");
    let text = "isServiceTierAllowed"@;
    assert(text.len() == 20);
    assert(text[0] == 'i' && text[1] == 's' && text[2] == 'S' && text[3] == 'e'
        && text[4] == 'r' && text[5] == 'v' && text[6] == 'i' && text[7] == 'c'
        && text[8] == 'e' && text[9] == 'T' && text[10] == 'i' && text[11] == 'e'
        && text[12] == 'r' && text[13] == 'A' && text[14] == 'l' && text[15] == 'l'
        && text[16] == 'o' && text[17] == 'w' && text[18] == 'e' && text[19] == 'd');
    assert forall|i: int| 0 <= i < text.len() implies #[trigger] text[i] != ' ' && text[i] != '\t'
        && text[i] != '\n' && text[i] != '\r' && text[i] != '\u{c}' by {
        assert(i == 0 || i == 1 || i == 2 || i == 3 || i == 4 || i == 5 || i == 6 || i == 7
            || i == 8 || i == 9 || i == 10 || i == 11 || i == 12 || i == 13 || i == 14
            || i == 15 || i == 16 || i == 17 || i == 18 || i == 19);
    }
}

proof fn lemma_piece_colon()
    ensures
        is_piece(":"@),
{
    reveal_strlit(":");
    let text = ":"@;
    assert(text.len() == 1);
    assert(text[0] == ':');
    assert forall|i: int| 0 <= i < text.len() implies #[trigger] text[i] != ' ' && text[i] != '\t'
        && text[i] != '\n' && text[i] != '\r' && text[i] != '\u{c}' by {
        assert(i == 0);
    }
}

proof fn lemma_piece_unbrace()
    ensures
        is_piece("}"@),
{
    reveal_strlit("}");
    let text = "}"@;
    assert(text.len() == 1);
    assert(text[0] == '}');
    assert forall|i: int| 0 <= i < text.len() implies #[trigger] text[i] != ' ' && text[i] != '\t'
        && text[i] != '\n' && text[i] != '\r' && text[i] != '\u{c}' by {
        assert(i == 0);
    }
}

proof fn lemma_piece_is()
    ensures
        is_piece("="@),
{
    reveal_strlit("=");
    let text = "="@;
    assert(text.len() == 1);
    assert(text[0] == '=');
    assert forall|i: int| 0 <= i < text.len() implies #[trigger] text[i] != ' ' && text[i] != '\t'
        && text[i] != '\n' && text[i] != '\r' && text[i] != '\u{c}' by {
        assert(i == 0);
    }
}

proof fn lemma_piece_open()
    ensures
        is_piece("("@),
{
    reveal_strlit("(");
    let text = "("@;
    assert(text.len() == 1);
    assert(text[0] == '(');
    assert forall|i: int| 0 <= i < text.len() implies #[trigger] text[i] != ' ' && text[i] != '\t'
        && text[i] != '\n' && text[i] != '\r' && text[i] != '\u{c}' by {
        assert(i == 0);
    }
}

proof fn lemma_piece_close()
    ensures
        is_piece(")"@),
{
    reveal_strlit(")");
    let text = ")"@;
    assert(text.len() == 1);
    assert(text[0] == ')');
    assert forall|i: int| 0 <= i < text.len() implies #[trigger] text[i] != ' ' && text[i] != '\t'
        && text[i] != '\n' && text[i] != '\r' && text[i] != '\u{c}' by {
        assert(i == 0);
    }
}

proof fn lemma_piece_comma()
    ensures
        is_piece(","@),
{
    reveal_strlit(",");
    let text = ","@;
    assert(text.len() == 1);
    assert(text[0] == ',');
    assert forall|i: int| 0 <= i < text.len() implies #[trigger] text[i] != ' ' && text[i] != '\t'
        && text[i] != '\n' && text[i] != '\r' && text[i] != '\u{c}' by {
        assert(i == 0);
    }
}

proof fn lemma_piece_brace()
    ensures
        is_piece("{"@),
{
    reveal_strlit("{");
    let text = "{"@;
    assert(text.len() == 1);
    assert(text[0] == '{');
    assert forall|i: int| 0 <= i < text.len() implies #[trigger] text[i] != ' ' && text[i] != '\t'
        && text[i] != '\n' && text[i] != '\r' && text[i] != '\u{c}' by {
        assert(i == 0);
    }
}

proof fn lemma_piece_service_tier_settings()
    ensures
        is_piece("serviceTierSettings"@),
{
    reveal_strlit("serviceTierSettings");
    let text = "serviceTierSettings"@;
    assert(text.len() == 19);
    assert(text[0] == 's' && text[1] == 'e' && text[2] == 'r' && text[3] == 'v'
        && text[4] == 'i' && text[5] == 'c' && text[6] == 'e' && text[7] == 'T'
        && text[8] == 'i' && text[9] == 'e' && text[10] == 'r' && text[11] == 'S'
        && text[12] == 'e' && text[13] == 't' && text[14] == 't' && text[15] == 'i'
        && text[16] == 'n' && text[17] == 'g' && text[18] == 's');
    assert forall|i: int| 0 <= i < text.len() implies #[trigger] text[i] != ' ' && text[i] != '\t'
        && text[i] != '\n' && text[i] != '\r' && text[i] != '\u{c}' by {
        assert(i == 0 || i == 1 || i == 2 || i == 3 || i == 4 || i == 5 || i == 6 || i == 7
            || i == 8 || i == 9 || i == 10 || i == 11 || i == 12 || i == 13 || i == 14
            || i == 15 || i == 16 || i == 17 || i == 18);
    }
}

proof fn lemma_piece_set_service_tier()
    ensures
        is_piece("setServiceTier"@),
{
    reveal_strlit("setServiceTier");
    let text = "setServiceTier"@;
    assert(text.len() == 14);
    assert(text[0] == 's' && text[1] == 'e' && text[2] == 't' && text[3] == 'S'
        && text[4] == 'e' && text[5] == 'r' && text[6] == 'v' && text[7] == 'i'
        && text[8] == 'c' && text[9] == 'e' && text[10] == 'T' && text[11] == 'i'
        && text[12] == 'e' && text[13] == 'r');
    assert forall|i: int| 0 <= i < text.len() implies #[trigger] text[i] != ' ' && text[i] != '\t'
        && text[i] != '\n' && text[i] != '\r' && text[i] != '\u{c}' by {
        assert(i == 0 || i == 1 || i == 2 || i == 3 || i == 4 || i == 5 || i == 6 || i == 7
            || i == 8 || i == 9 || i == 10 || i == 11 || i == 12 || i == 13);
    }
}

proof fn lemma_piece_semicolon()
    ensures
        is_piece(";"@),
{
    reveal_strlit(";");
    let text = ";"@;
    assert(text.len() == 1);
    assert(text[0] == ';');
    assert forall|i: int| 0 <= i < text.len() implies #[trigger] text[i] != ' ' && text[i] != '\t'
        && text[i] != '\n' && text[i] != '\r' && text[i] != '\u{c}' by {
        assert(i == 0);
    }
}

proof fn lemma_piece_if()
    ensures
        is_piece("if"@),
{
    reveal_strlit("if");
    let text = "if"@;
    assert(text.len() == 2);
    assert(text[0] == 'i' && text[1] == 'f');
    assert forall|i: int| 0 <= i < text.len() implies #[trigger] text[i] != ' ' && text[i] != '\t'
        && text[i] != '\n' && text[i] != '\r' && text[i] != '\u{c}' by {
        assert(i == 0 || i == 1);
    }
}

proof fn lemma_piece_not()
    ensures
        is_piece("!"@),
{
    reveal_strlit("!");
    let text = "!"@;
    assert(text.len() == 1);
    assert(text[0] == '!');
    assert forall|i: int| 0 <= i < text.len() implies #[trigger] text[i] != ' ' && text[i] != '\t'
        && text[i] != '\n' && text[i] != '\r' && text[i] != '\u{c}' by {
        assert(i == 0);
    }
}

proof fn lemma_piece_or()
    ensures
        is_piece("||"@),
{
    reveal_strlit("||");
    let text = "||"@;
    assert(text.len() == 2);
    assert(text[0] == '|' && text[1] == '|');
    assert forall|i: int| 0 <= i < text.len() implies #[trigger] text[i] != ' ' && text[i] != '\t'
        && text[i] != '\n' && text[i] != '\r' && text[i] != '\u{c}' by {
        assert(i == 0 || i == 1);
    }
}

proof fn lemma_piece_at_most()
    ensures
        is_piece("<="@),
{
    reveal_strlit("<=");
    let text = "<="@;
    assert(text.len() == 2);
    assert(text[0] == '<' && text[1] == '=');
    assert forall|i: int| 0 <= i < text.len() implies #[trigger] text[i] != ' ' && text[i] != '\t'
        && text[i] != '\n' && text[i] != '\r' && text[i] != '\u{c}' by {
        assert(i == 0 || i == 1);
    }
}

proof fn lemma_piece_1()
    ensures
        is_piece("1"@),
{
    reveal_strlit("1");
    let text = "1"@;
    assert(text.len() == 1);
    assert(text[0] == '1');
    assert forall|i: int| 0 <= i < text.len() implies #[trigger] text[i] != ' ' && text[i] != '\t'
        && text[i] != '\n' && text[i] != '\r' && text[i] != '\u{c}' by {
        assert(i == 0);
    }
}

proof fn lemma_piece_return()
    ensures
        is_piece("return"@),
{
    reveal_strlit("return");
    let text = "return"@;
    assert(text.len() == 6);
    assert(text[0] == 'r' && text[1] == 'e' && text[2] == 't' && text[3] == 'u'
        && text[4] == 'r' && text[5] == 'n');
    assert forall|i: int| 0 <= i < text.len() implies #[trigger] text[i] != ' ' && text[i] != '\t'
        && text[i] != '\n' && text[i] != '\r' && text[i] != '\u{c}' by {
        assert(i == 0 || i == 1 || i == 2 || i == 3 || i == 4 || i == 5);
    }
}

proof fn lemma_piece_null()
    ensures
        is_piece("null"@),
{
    reveal_strlit("null");
    let text = "null"@;
    assert(text.len() == 4);
    assert(text[0] == 'n' && text[1] == 'u' && text[2] == 'l' && text[3] == 'l');
    assert forall|i: int| 0 <= i < text.len() implies #[trigger] text[i] != ' ' && text[i] != '\t'
        && text[i] != '\n' && text[i] != '\r' && text[i] != '\u{c}' by {
        assert(i == 0 || i == 1 || i == 2 || i == 3);
    }
}

proof fn lemma_piece_data()
    ensures
        is_piece("data"@),
{
    reveal_strlit("data");
    let text = "data"@;
    assert(text.len() == 4);
    assert(text[0] == 'd' && text[1] == 'a' && text[2] == 't' && text[3] == 'a');
    assert forall|i: int| 0 <= i < text.len() implies #[trigger] text[i] != ' ' && text[i] != '\t'
        && text[i] != '\n' && text[i] != '\r' && text[i] != '\u{c}' by {
        assert(i == 0 || i == 1 || i == 2 || i == 3);
    }
}

proof fn lemma_piece_is_pending()
    ensures
        is_piece("isPending"@),
{
    reveal_strlit("isPending");
    let text = "isPending"@;
    assert(text.len() == 9);
    assert(text[0] == 'i' && text[1] == 's' && text[2] == 'P' && text[3] == 'e'
        && text[4] == 'n' && text[5] == 'd' && text[6] == 'i' && text[7] == 'n'
        && text[8] == 'g');
    assert forall|i: int| 0 <= i < text.len() implies #[trigger] text[i] != ' ' && text[i] != '\t'
        && text[i] != '\n' && text[i] != '\r' && text[i] != '\u{c}' by {
        assert(i == 0 || i == 1 || i == 2 || i == 3 || i == 4 || i == 5 || i == 6 || i == 7
            || i == 8);
    }
}

proof fn lemma_piece_and()
    ensures
        is_piece("&&"@),
{
    reveal_strlit("&&");
    let text = "&&"@;
    assert(text.len() == 2);
    assert(text[0] == '&' && text[1] == '&');
    assert forall|i: int| 0 <= i < text.len() implies #[trigger] text[i] != ' ' && text[i] != '\t'
        && text[i] != '\n' && text[i] != '\r' && text[i] != '\u{c}' by {
        assert(i == 0 || i == 1);
    }
}

proof fn lemma_piece_not_same()
    ensures
        is_piece("!=="@),
{
    reveal_strlit("!==");
    let text = "!=="@;
    assert(text.len() == 3);
    assert(text[0] == '!' && text[1] == '=' && text[2] == '=');
    assert forall|i: int| 0 <= i < text.len() implies #[trigger] text[i] != ' ' && text[i] != '\t'
        && text[i] != '\n' && text[i] != '\r' && text[i] != '\u{c}' by {
        assert(i == 0 || i == 1 || i == 2);
    }
}

proof fn lemma_piece_choice()
    ensures
        is_piece("?"@),
{
    reveal_strlit("?");
    let text = "?"@;
    assert(text.len() == 1);
    assert(text[0] == '?');
    assert forall|i: int| 0 <= i < text.len() implies #[trigger] text[i] != ' ' && text[i] != '\t'
        && text[i] != '\n' && text[i] != '\r' && text[i] != '\u{c}' by {
        assert(i == 0);
    }
}

proof fn lemma_piece_else()
    ensures
        is_piece("??"@),
{
    reveal_strlit("??");
    let text = "??"@;
    assert(text.len() == 2);
    assert(text[0] == '?' && text[1] == '?');
    assert forall|i: int| 0 <= i < text.len() implies #[trigger] text[i] != ' ' && text[i] != '\t'
        && text[i] != '\n' && text[i] != '\r' && text[i] != '\u{c}' by {
        assert(i == 0 || i == 1);
    }
}

proof fn lemma_piece_async()
    ensures
        is_piece("async"@),
{
    reveal_strlit("async");
    let text = "async"@;
    assert(text.len() == 5);
    assert(text[0] == 'a' && text[1] == 's' && text[2] == 'y' && text[3] == 'n' && text[4] == 'c');
    assert forall|i: int| 0 <= i < text.len() implies #[trigger] text[i] != ' ' && text[i] != '\t'
        && text[i] != '\n' && text[i] != '\r' && text[i] != '\u{c}' by {
        assert(i == 0 || i == 1 || i == 2 || i == 3 || i == 4);
    }
}

proof fn lemma_piece_function()
    ensures
        is_piece("function"@),
{
    reveal_strlit("function");
    let text = "function"@;
    assert(text.len() == 8);
    assert(text[0] == 'f' && text[1] == 'u' && text[2] == 'n' && text[3] == 'c'
        && text[4] == 't' && text[5] == 'i' && text[6] == 'o' && text[7] == 'n');
    assert forall|i: int| 0 <= i < text.len() implies #[trigger] text[i] != ' ' && text[i] != '\t'
        && text[i] != '\n' && text[i] != '\r' && text[i] != '\u{c}' by {
        assert(i == 0 || i == 1 || i == 2 || i == 3 || i == 4 || i == 5 || i == 6 || i == 7);
    }
}

proof fn lemma_piece_await()
    ensures
        is_piece("await"@),
{
    reveal_strlit("await");
    let text = "await"@;
    assert(text.len() == 5);
    assert(text[0] == 'a' && text[1] == 'w' && text[2] == 'a' && text[3] == 'i' && text[4] == 't');
    assert forall|i: int| 0 <= i < text.len() implies #[trigger] text[i] != ' ' && text[i] != '\t'
        && text[i] != '\n' && text[i] != '\r' && text[i] != '\u{c}' by {
        assert(i == 0 || i == 1 || i == 2 || i == 3 || i == 4);
    }
}

proof fn lemma_piece_priority()
    ensures
        is_piece("priority"@),
{
    reveal_strlit("priority");
    let text = "priority"@;
    assert(text.len() == 8);
    assert(text[0] == 'p' && text[1] == 'r' && text[2] == 'i' && text[3] == 'o'
        && text[4] == 'r' && text[5] == 'i' && text[6] == 't' && text[7] == 'y');
    assert forall|i: int| 0 <= i < text.len() implies #[trigger] text[i] != ' ' && text[i] != '\t'
        && text[i] != '\n' && text[i] != '\r' && text[i] != '\u{c}' by {
        assert(i == 0 || i == 1 || i == 2 || i == 3 || i == 4 || i == 5 || i == 6 || i == 7);
    }
}

proof fn lemma_piece_auth_method()
    ensures
        is_piece("authMethod"@),
{
    reveal_strlit("authMethod");
    let text = "authMethod"@;
    assert(text.len() == 10);
    assert(text[0] == 'a' && text[1] == 'u' && text[2] == 't' && text[3] == 'h'
        && text[4] == 'M' && text[5] == 'e' && text[6] == 't' && text[7] == 'h'
        && text[8] == 'o' && text[9] == 'd');
    assert forall|i: int| 0 <= i < text.len() implies #[trigger] text[i] != ' ' && text[i] != '\t'
        && text[i] != '\n' && text[i] != '\r' && text[i] != '\u{c}' by {
        assert(i == 0 || i == 1 || i == 2 || i == 3 || i == 4 || i == 5 || i == 6 || i == 7
            || i == 8 || i == 9);
    }
}

proof fn lemma_piece_host_id()
    ensures
        is_piece("hostId"@),
{
    reveal_strlit("hostId");
    let text = "hostId"@;
    assert(text.len() == 6);
    assert(text[0] == 'h' && text[1] == 'o' && text[2] == 's' && text[3] == 't'
        && text[4] == 'I' && text[5] == 'd');
    assert forall|i: int| 0 <= i < text.len() implies #[trigger] text[i] != ' ' && text[i] != '\t'
        && text[i] != '\n' && text[i] != '\r' && text[i] != '\u{c}' by {
        assert(i == 0 || i == 1 || i == 2 || i == 3 || i == 4 || i == 5);
    }
}

proof fn lemma_piece_above()
    ensures
        is_piece(">"@),
{
    reveal_strlit(">");
    let text = ">"@;
    assert(text.len() == 1);
    assert(text[0] == '>');
    assert forall|i: int| 0 <= i < text.len() implies #[trigger] text[i] != ' ' && text[i] != '\t'
        && text[i] != '\n' && text[i] != '\r' && text[i] != '\u{c}' by {
        assert(i == 0);
    }
}

pub proof fn lemma_run_is_service_tier_allowed_colon()
    ensures
        is_run("isServiceTierAllowed :", seq!["isServiceTierAllowed"@, ":"@]),
{
    lemma_piece_is_service_tier_allowed();
    lemma_piece_colon();
    reveal_strlit("isServiceTierAllowed :");
    reveal_strlit("isServiceTierAllowed");
    reveal_strlit(":");
    reveal_with_fuel(spaced, 3);
    let pieces = seq!["isServiceTierAllowed"@, ":"@];
    assert(pieces.drop_first() =~= seq![":"@]);
    assert("isServiceTierAllowed :"@ =~= spaced(pieces));
    assert forall|k: int| 0 <= k < pieces.len() implies is_piece(#[trigger] pieces[k]) by {
        assert(k == 0 || k == 1);
    }
}

pub proof fn lemma_run_unbrace_is()
    ensures
        is_run("} =", seq!["}"@, "="@]),
{
    lemma_piece_unbrace();
    lemma_piece_is();
    reveal_strlit("} =");
    reveal_strlit("}");
    reveal_strlit("=");
    reveal_with_fuel(spaced, 3);
    let pieces = seq!["}"@, "="@];
    assert(pieces.drop_first() =~= seq!["="@]);
    assert("} ="@ =~= spaced(pieces));
    assert forall|k: int| 0 <= k < pieces.len() implies is_piece(#[trigger] pieces[k]) by {
        assert(k == 0 || k == 1);
    }
}

pub proof fn lemma_run_open_close_comma_brace_service_tier_settings_colon()
    ensures
        is_run("( ) , { serviceTierSettings :", seq!["("@, ")"@, ","@, "{"@, "serviceTierSettings"@, ":"@]),
{
    lemma_piece_open();
    lemma_piece_close();
    lemma_piece_comma();
    lemma_piece_brace();
    lemma_piece_service_tier_settings();
    lemma_piece_colon();
    reveal_strlit("( ) , { serviceTierSettings :");
    reveal_strlit("(");
    reveal_strlit(")");
    reveal_strlit(",");
    reveal_strlit("{");
    reveal_strlit("serviceTierSettings");
    reveal_strlit(":");
    reveal_with_fuel(spaced, 7);
    let pieces = seq!["("@, ")"@, ","@, "{"@, "serviceTierSettings"@, ":"@];
    assert(pieces.drop_first() =~= seq![")"@, ","@, "{"@, "serviceTierSettings"@, ":"@]);
    assert(pieces.drop_first().drop_first() =~= seq![","@, "{"@, "serviceTierSettings"@, ":"@]);
    assert(pieces.drop_first().drop_first().drop_first() =~= seq!["{"@, "serviceTierSettings"@, ":"@]);
    assert(pieces.drop_first().drop_first().drop_first().drop_first() =~= seq!["serviceTierSettings"@, ":"@]);
    assert(pieces.drop_first().drop_first().drop_first().drop_first().drop_first() =~= seq![":"@]);
    assert("( ) , { serviceTierSettings :"@ =~= spaced(pieces));
    assert forall|k: int| 0 <= k < pieces.len() implies is_piece(#[trigger] pieces[k]) by {
        assert(k == 0 || k == 1 || k == 2 || k == 3 || k == 4 || k == 5);
    }
}

pub proof fn lemma_run_comma_set_service_tier_colon()
    ensures
        is_run(", setServiceTier :", seq![","@, "setServiceTier"@, ":"@]),
{
    lemma_piece_comma();
    lemma_piece_set_service_tier();
    lemma_piece_colon();
    reveal_strlit(", setServiceTier :");
    reveal_strlit(",");
    reveal_strlit("setServiceTier");
    reveal_strlit(":");
    reveal_with_fuel(spaced, 4);
    let pieces = seq![","@, "setServiceTier"@, ":"@];
    assert(pieces.drop_first() =~= seq!["setServiceTier"@, ":"@]);
    assert(pieces.drop_first().drop_first() =~= seq![":"@]);
    assert(", setServiceTier :"@ =~= spaced(pieces));
    assert forall|k: int| 0 <= k < pieces.len() implies is_piece(#[trigger] pieces[k]) by {
        assert(k == 0 || k == 1 || k == 2);
    }
}

pub proof fn lemma_run_open_close_semicolon_if_open()
    ensures
        is_run("( ) ; if (", seq!["("@, ")"@, ";"@, "if"@, "("@]),
{
    lemma_piece_open();
    lemma_piece_close();
    lemma_piece_semicolon();
    lemma_piece_if();
    reveal_strlit("( ) ; if (");
    reveal_strlit("(");
    reveal_strlit(")");
    reveal_strlit(";");
    reveal_strlit("if");
    reveal_with_fuel(spaced, 6);
    let pieces = seq!["("@, ")"@, ";"@, "if"@, "("@];
    assert(pieces.drop_first() =~= seq![")"@, ";"@, "if"@, "("@]);
    assert(pieces.drop_first().drop_first() =~= seq![";"@, "if"@, "("@]);
    assert(pieces.drop_first().drop_first().drop_first() =~= seq!["if"@, "("@]);
    assert(pieces.drop_first().drop_first().drop_first().drop_first() =~= seq!["("@]);
    assert("( ) ; if ("@ =~= spaced(pieces));
    assert forall|k: int| 0 <= k < pieces.len() implies is_piece(#[trigger] pieces[k]) by {
        assert(k == 0 || k == 1 || k == 2 || k == 3 || k == 4);
    }
}

pub proof fn lemma_run_not()
    ensures
        is_run("!", seq!["!"@]),
{
    lemma_piece_not();
    let pieces = seq!["!"@];
    assert("!"@ =~= spaced(pieces));
    assert forall|k: int| 0 <= k < pieces.len() implies is_piece(#[trigger] pieces[k]) by {
        assert(k == 0);
    }
}

pub proof fn lemma_run_or()
    ensures
        is_run("||", seq!["||"@]),
{
    lemma_piece_or();
    let pieces = seq!["||"@];
    assert("||"@ =~= spaced(pieces));
    assert forall|k: int| 0 <= k < pieces.len() implies is_piece(#[trigger] pieces[k]) by {
        assert(k == 0);
    }
}

pub proof fn lemma_run_at_most_1_close_return_null_semicolon()
    ensures
        is_run("<= 1 ) return null ;", seq!["<="@, "1"@, ")"@, "return"@, "null"@, ";"@]),
{
    lemma_piece_at_most();
    lemma_piece_1();
    lemma_piece_close();
    lemma_piece_return();
    lemma_piece_null();
    lemma_piece_semicolon();
    reveal_strlit("<= 1 ) return null ;");
    reveal_strlit("<=");
    reveal_strlit("1");
    reveal_strlit(")");
    reveal_strlit("return");
    reveal_strlit("null");
    reveal_strlit(";");
    reveal_with_fuel(spaced, 7);
    let pieces = seq!["<="@, "1"@, ")"@, "return"@, "null"@, ";"@];
    assert(pieces.drop_first() =~= seq!["1"@, ")"@, "return"@, "null"@, ";"@]);
    assert(pieces.drop_first().drop_first() =~= seq![")"@, "return"@, "null"@, ";"@]);
    assert(pieces.drop_first().drop_first().drop_first() =~= seq!["return"@, "null"@, ";"@]);
    assert(pieces.drop_first().drop_first().drop_first().drop_first() =~= seq!["null"@, ";"@]);
    assert(pieces.drop_first().drop_first().drop_first().drop_first().drop_first() =~= seq![";"@]);
    assert("<= 1 ) return null ;"@ =~= spaced(pieces));
    assert forall|k: int| 0 <= k < pieces.len() implies is_piece(#[trigger] pieces[k]) by {
        assert(k == 0 || k == 1 || k == 2 || k == 3 || k == 4 || k == 5);
    }
}

pub proof fn lemma_run_brace_data_colon()
    ensures
        is_run("{ data :", seq!["{"@, "data"@, ":"@]),
{
    lemma_piece_brace();
    lemma_piece_data();
    lemma_piece_colon();
    reveal_strlit("{ data :");
    reveal_strlit("{");
    reveal_strlit("data");
    reveal_strlit(":");
    reveal_with_fuel(spaced, 4);
    let pieces = seq!["{"@, "data"@, ":"@];
    assert(pieces.drop_first() =~= seq!["data"@, ":"@]);
    assert(pieces.drop_first().drop_first() =~= seq![":"@]);
    assert("{ data :"@ =~= spaced(pieces));
    assert forall|k: int| 0 <= k < pieces.len() implies is_piece(#[trigger] pieces[k]) by {
        assert(k == 0 || k == 1 || k == 2);
    }
}

pub proof fn lemma_run_comma_is_pending_colon()
    ensures
        is_run(", isPending :", seq![","@, "isPending"@, ":"@]),
{
    lemma_piece_comma();
    lemma_piece_is_pending();
    lemma_piece_colon();
    reveal_strlit(", isPending :");
    reveal_strlit(",");
    reveal_strlit("isPending");
    reveal_strlit(":");
    reveal_with_fuel(spaced, 4);
    let pieces = seq![","@, "isPending"@, ":"@];
    assert(pieces.drop_first() =~= seq!["isPending"@, ":"@]);
    assert(pieces.drop_first().drop_first() =~= seq![":"@]);
    assert(", isPending :"@ =~= spaced(pieces));
    assert forall|k: int| 0 <= k < pieces.len() implies is_piece(#[trigger] pieces[k]) by {
        assert(k == 0 || k == 1 || k == 2);
    }
}

pub proof fn lemma_run_open()
    ensures
        is_run("(", seq!["("@]),
{
    lemma_piece_open();
    let pieces = seq!["("@];
    assert("("@ =~= spaced(pieces));
    assert forall|k: int| 0 <= k < pieces.len() implies is_piece(#[trigger] pieces[k]) by {
        assert(k == 0);
    }
}

pub proof fn lemma_run_comma()
    ensures
        is_run(",", seq![","@]),
{
    lemma_piece_comma();
    let pieces = seq![","@];
    assert(","@ =~= spaced(pieces));
    assert forall|k: int| 0 <= k < pieces.len() implies is_piece(#[trigger] pieces[k]) by {
        assert(k == 0);
    }
}

pub proof fn lemma_run_close_comma()
    ensures
        is_run(") ,", seq![")"@, ","@]),
{
    lemma_piece_close();
    lemma_piece_comma();
    reveal_strlit(") ,");
    reveal_strlit(")");
    reveal_strlit(",");
    reveal_with_fuel(spaced, 3);
    let pieces = seq![")"@, ","@];
    assert(pieces.drop_first() =~= seq![","@]);
    assert(") ,"@ =~= spaced(pieces));
    assert forall|k: int| 0 <= k < pieces.len() implies is_piece(#[trigger] pieces[k]) by {
        assert(k == 0 || k == 1);
    }
}

pub proof fn lemma_run_is_not_not()
    ensures
        is_run("= ! !", seq!["="@, "!"@, "!"@]),
{
    lemma_piece_is();
    lemma_piece_not();
    reveal_strlit("= ! !");
    reveal_strlit("=");
    reveal_strlit("!");
    reveal_with_fuel(spaced, 4);
    let pieces = seq!["="@, "!"@, "!"@];
    assert(pieces.drop_first() =~= seq!["!"@, "!"@]);
    assert(pieces.drop_first().drop_first() =~= seq!["!"@]);
    assert("= ! !"@ =~= spaced(pieces));
    assert forall|k: int| 0 <= k < pieces.len() implies is_piece(#[trigger] pieces[k]) by {
        assert(k == 0 || k == 1 || k == 2);
    }
}

pub proof fn lemma_run_and()
    ensures
        is_run("&&", seq!["&&"@]),
{
    lemma_piece_and();
    let pieces = seq!["&&"@];
    assert("&&"@ =~= spaced(pieces));
    assert forall|k: int| 0 <= k < pieces.len() implies is_piece(#[trigger] pieces[k]) by {
        assert(k == 0);
    }
}

pub proof fn lemma_run_is()
    ensures
        is_run("=", seq!["="@]),
{
    lemma_piece_is();
    let pieces = seq!["="@];
    assert("="@ =~= spaced(pieces));
    assert forall|k: int| 0 <= k < pieces.len() implies is_piece(#[trigger] pieces[k]) by {
        assert(k == 0);
    }
}

pub proof fn lemma_run_and_not()
    ensures
        is_run("&& !", seq!["&&"@, "!"@]),
{
    lemma_piece_and();
    lemma_piece_not();
    reveal_strlit("&& !");
    reveal_strlit("&&");
    reveal_strlit("!");
    reveal_with_fuel(spaced, 3);
    let pieces = seq!["&&"@, "!"@];
    assert(pieces.drop_first() =~= seq!["!"@]);
    assert("&& !"@ =~= spaced(pieces));
    assert forall|k: int| 0 <= k < pieces.len() implies is_piece(#[trigger] pieces[k]) by {
        assert(k == 0 || k == 1);
    }
}

pub proof fn lemma_run_not_same()
    ensures
        is_run("!==", seq!["!=="@]),
{
    lemma_piece_not_same();
    let pieces = seq!["!=="@];
    assert("!=="@ =~= spaced(pieces));
    assert forall|k: int| 0 <= k < pieces.len() implies is_piece(#[trigger] pieces[k]) by {
        assert(k == 0);
    }
}

pub proof fn lemma_run_is_not()
    ensures
        is_run("= !", seq!["="@, "!"@]),
{
    lemma_piece_is();
    lemma_piece_not();
    reveal_strlit("= !");
    reveal_strlit("=");
    reveal_strlit("!");
    reveal_with_fuel(spaced, 3);
    let pieces = seq!["="@, "!"@];
    assert(pieces.drop_first() =~= seq!["!"@]);
    assert("= !"@ =~= spaced(pieces));
    assert forall|k: int| 0 <= k < pieces.len() implies is_piece(#[trigger] pieces[k]) by {
        assert(k == 0 || k == 1);
    }
}

pub proof fn lemma_run_and_open()
    ensures
        is_run("&& (", seq!["&&"@, "("@]),
{
    lemma_piece_and();
    lemma_piece_open();
    reveal_strlit("&& (");
    reveal_strlit("&&");
    reveal_strlit("(");
    reveal_with_fuel(spaced, 3);
    let pieces = seq!["&&"@, "("@];
    assert(pieces.drop_first() =~= seq!["("@]);
    assert("&& ("@ =~= spaced(pieces));
    assert forall|k: int| 0 <= k < pieces.len() implies is_piece(#[trigger] pieces[k]) by {
        assert(k == 0 || k == 1);
    }
}

pub proof fn lemma_run_choice()
    ensures
        is_run("?", seq!["?"@]),
{
    lemma_piece_choice();
    let pieces = seq!["?"@];
    assert("?"@ =~= spaced(pieces));
    assert forall|k: int| 0 <= k < pieces.len() implies is_piece(#[trigger] pieces[k]) by {
        assert(k == 0);
    }
}

pub proof fn lemma_run_colon()
    ensures
        is_run(":", seq![":"@]),
{
    lemma_piece_colon();
    let pieces = seq![":"@];
    assert(":"@ =~= spaced(pieces));
    assert forall|k: int| 0 <= k < pieces.len() implies is_piece(#[trigger] pieces[k]) by {
        assert(k == 0);
    }
}

pub proof fn lemma_run_else_null()
    ensures
        is_run("?? null", seq!["??"@, "null"@]),
{
    lemma_piece_else();
    lemma_piece_null();
    reveal_strlit("?? null");
    reveal_strlit("??");
    reveal_strlit("null");
    reveal_with_fuel(spaced, 3);
    let pieces = seq!["??"@, "null"@];
    assert(pieces.drop_first() =~= seq!["null"@]);
    assert("?? null"@ =~= spaced(pieces));
    assert forall|k: int| 0 <= k < pieces.len() implies is_piece(#[trigger] pieces[k]) by {
        assert(k == 0 || k == 1);
    }
}

pub proof fn lemma_run_async_function()
    ensures
        is_run("async function", seq!["async"@, "function"@]),
{
    lemma_piece_async();
    lemma_piece_function();
    reveal_strlit("async function");
    reveal_strlit("async");
    reveal_strlit("function");
    reveal_with_fuel(spaced, 3);
    let pieces = seq!["async"@, "function"@];
    assert(pieces.drop_first() =~= seq!["function"@]);
    assert("async function"@ =~= spaced(pieces));
    assert forall|k: int| 0 <= k < pieces.len() implies is_piece(#[trigger] pieces[k]) by {
        assert(k == 0 || k == 1);
    }
}

pub proof fn lemma_run_close_brace()
    ensures
        is_run(") {", seq![")"@, "{"@]),
{
    lemma_piece_close();
    lemma_piece_brace();
    reveal_strlit(") {");
    reveal_strlit(")");
    reveal_strlit("{");
    reveal_with_fuel(spaced, 3);
    let pieces = seq![")"@, "{"@];
    assert(pieces.drop_first() =~= seq!["{"@]);
    assert(") {"@ =~= spaced(pieces));
    assert forall|k: int| 0 <= k < pieces.len() implies is_piece(#[trigger] pieces[k]) by {
        assert(k == 0 || k == 1);
    }
}

pub proof fn lemma_run_is_await()
    ensures
        is_run("= await", seq!["="@, "await"@]),
{
    lemma_piece_is();
    lemma_piece_await();
    reveal_strlit("= await");
    reveal_strlit("=");
    reveal_strlit("await");
    reveal_with_fuel(spaced, 3);
    let pieces = seq!["="@, "await"@];
    assert(pieces.drop_first() =~= seq!["await"@]);
    assert("= await"@ =~= spaced(pieces));
    assert forall|k: int| 0 <= k < pieces.len() implies is_piece(#[trigger] pieces[k]) by {
        assert(k == 0 || k == 1);
    }
}

pub proof fn lemma_run_close_semicolon_if_open()
    ensures
        is_run(") ; if (", seq![")"@, ";"@, "if"@, "("@]),
{
    lemma_piece_close();
    lemma_piece_semicolon();
    lemma_piece_if();
    lemma_piece_open();
    reveal_strlit(") ; if (");
    reveal_strlit(")");
    reveal_strlit(";");
    reveal_strlit("if");
    reveal_strlit("(");
    reveal_with_fuel(spaced, 5);
    let pieces = seq![")"@, ";"@, "if"@, "("@];
    assert(pieces.drop_first() =~= seq![";"@, "if"@, "("@]);
    assert(pieces.drop_first().drop_first() =~= seq!["if"@, "("@]);
    assert(pieces.drop_first().drop_first().drop_first() =~= seq!["("@]);
    assert(") ; if ("@ =~= spaced(pieces));
    assert forall|k: int| 0 <= k < pieces.len() implies is_piece(#[trigger] pieces[k]) by {
        assert(k == 0 || k == 1 || k == 2 || k == 3);
    }
}

pub proof fn lemma_run_close_return()
    ensures
        is_run(") return", seq![")"@, "return"@]),
{
    lemma_piece_close();
    lemma_piece_return();
    reveal_strlit(") return");
    reveal_strlit(")");
    reveal_strlit("return");
    reveal_with_fuel(spaced, 3);
    let pieces = seq![")"@, "return"@];
    assert(pieces.drop_first() =~= seq!["return"@]);
    assert(") return"@ =~= spaced(pieces));
    assert forall|k: int| 0 <= k < pieces.len() implies is_piece(#[trigger] pieces[k]) by {
        assert(k == 0 || k == 1);
    }
}

pub proof fn lemma_run_semicolon()
    ensures
        is_run(";", seq![";"@]),
{
    lemma_piece_semicolon();
    let pieces = seq![";"@];
    assert(";"@ =~= spaced(pieces));
    assert forall|k: int| 0 <= k < pieces.len() implies is_piece(#[trigger] pieces[k]) by {
        assert(k == 0);
    }
}

pub proof fn lemma_run_comma_brace_priority_colon()
    ensures
        is_run(", { priority :", seq![","@, "{"@, "priority"@, ":"@]),
{
    lemma_piece_comma();
    lemma_piece_brace();
    lemma_piece_priority();
    lemma_piece_colon();
    reveal_strlit(", { priority :");
    reveal_strlit(",");
    reveal_strlit("{");
    reveal_strlit("priority");
    reveal_strlit(":");
    reveal_with_fuel(spaced, 5);
    let pieces = seq![","@, "{"@, "priority"@, ":"@];
    assert(pieces.drop_first() =~= seq!["{"@, "priority"@, ":"@]);
    assert(pieces.drop_first().drop_first() =~= seq!["priority"@, ":"@]);
    assert(pieces.drop_first().drop_first().drop_first() =~= seq![":"@]);
    assert(", { priority :"@ =~= spaced(pieces));
    assert forall|k: int| 0 <= k < pieces.len() implies is_piece(#[trigger] pieces[k]) by {
        assert(k == 0 || k == 1 || k == 2 || k == 3);
    }
}

pub proof fn lemma_run_unbrace_close_semicolon_return()
    ensures
        is_run("} ) ; return", seq!["}"@, ")"@, ";"@, "return"@]),
{
    lemma_piece_unbrace();
    lemma_piece_close();
    lemma_piece_semicolon();
    lemma_piece_return();
    reveal_strlit("} ) ; return");
    reveal_strlit("}");
    reveal_strlit(")");
    reveal_strlit(";");
    reveal_strlit("return");
    reveal_with_fuel(spaced, 5);
    let pieces = seq!["}"@, ")"@, ";"@, "return"@];
    assert(pieces.drop_first() =~= seq![")"@, ";"@, "return"@]);
    assert(pieces.drop_first().drop_first() =~= seq![";"@, "return"@]);
    assert(pieces.drop_first().drop_first().drop_first() =~= seq!["return"@]);
    assert("} ) ; return"@ =~= spaced(pieces));
    assert forall|k: int| 0 <= k < pieces.len() implies is_piece(#[trigger] pieces[k]) by {
        assert(k == 0 || k == 1 || k == 2 || k == 3);
    }
}

pub proof fn lemma_run_comma_brace_auth_method_colon()
    ensures
        is_run(", { authMethod :", seq![","@, "{"@, "authMethod"@, ":"@]),
{
    lemma_piece_comma();
    lemma_piece_brace();
    lemma_piece_auth_method();
    lemma_piece_colon();
    reveal_strlit(", { authMethod :");
    reveal_strlit(",");
    reveal_strlit("{");
    reveal_strlit("authMethod");
    reveal_strlit(":");
    reveal_with_fuel(spaced, 5);
    let pieces = seq![","@, "{"@, "authMethod"@, ":"@];
    assert(pieces.drop_first() =~= seq!["{"@, "authMethod"@, ":"@]);
    assert(pieces.drop_first().drop_first() =~= seq!["authMethod"@, ":"@]);
    assert(pieces.drop_first().drop_first().drop_first() =~= seq![":"@]);
    assert(", { authMethod :"@ =~= spaced(pieces));
    assert forall|k: int| 0 <= k < pieces.len() implies is_piece(#[trigger] pieces[k]) by {
        assert(k == 0 || k == 1 || k == 2 || k == 3);
    }
}

pub proof fn lemma_run_comma_host_id_colon()
    ensures
        is_run(", hostId :", seq![","@, "hostId"@, ":"@]),
{
    lemma_piece_comma();
    lemma_piece_host_id();
    lemma_piece_colon();
    reveal_strlit(", hostId :");
    reveal_strlit(",");
    reveal_strlit("hostId");
    reveal_strlit(":");
    reveal_with_fuel(spaced, 4);
    let pieces = seq![","@, "hostId"@, ":"@];
    assert(pieces.drop_first() =~= seq!["hostId"@, ":"@]);
    assert(pieces.drop_first().drop_first() =~= seq![":"@]);
    assert(", hostId :"@ =~= spaced(pieces));
    assert forall|k: int| 0 <= k < pieces.len() implies is_piece(#[trigger] pieces[k]) by {
        assert(k == 0 || k == 1 || k == 2);
    }
}

pub proof fn lemma_run_unbrace_comma()
    ensures
        is_run("} ,", seq!["}"@, ","@]),
{
    lemma_piece_unbrace();
    lemma_piece_comma();
    reveal_strlit("} ,");
    reveal_strlit("}");
    reveal_strlit(",");
    reveal_with_fuel(spaced, 3);
    let pieces = seq!["}"@, ","@];
    assert(pieces.drop_first() =~= seq![","@]);
    assert("} ,"@ =~= spaced(pieces));
    assert forall|k: int| 0 <= k < pieces.len() implies is_piece(#[trigger] pieces[k]) by {
        assert(k == 0 || k == 1);
    }
}

pub proof fn lemma_run_unbrace()
    ensures
        is_run("}", seq!["}"@]),
{
    lemma_piece_unbrace();
    let pieces = seq!["}"@];
    assert("}"@ =~= spaced(pieces));
    assert forall|k: int| 0 <= k < pieces.len() implies is_piece(#[trigger] pieces[k]) by {
        assert(k == 0);
    }
}

pub proof fn lemma_run_close_colon()
    ensures
        is_run(") :", seq![")"@, ":"@]),
{
    lemma_piece_close();
    lemma_piece_colon();
    reveal_strlit(") :");
    reveal_strlit(")");
    reveal_strlit(":");
    reveal_with_fuel(spaced, 3);
    let pieces = seq![")"@, ":"@];
    assert(pieces.drop_first() =~= seq![":"@]);
    assert(") :"@ =~= spaced(pieces));
    assert forall|k: int| 0 <= k < pieces.len() implies is_piece(#[trigger] pieces[k]) by {
        assert(k == 0 || k == 1);
    }
}

pub proof fn lemma_run_close_choice()
    ensures
        is_run(") ?", seq![")"@, "?"@]),
{
    lemma_piece_close();
    lemma_piece_choice();
    reveal_strlit(") ?");
    reveal_strlit(")");
    reveal_strlit("?");
    reveal_with_fuel(spaced, 3);
    let pieces = seq![")"@, "?"@];
    assert(pieces.drop_first() =~= seq!["?"@]);
    assert(") ?"@ =~= spaced(pieces));
    assert forall|k: int| 0 <= k < pieces.len() implies is_piece(#[trigger] pieces[k]) by {
        assert(k == 0 || k == 1);
    }
}

pub proof fn lemma_run_colon_null_colon()
    ensures
        is_run(": null :", seq![":"@, "null"@, ":"@]),
{
    lemma_piece_colon();
    lemma_piece_null();
    reveal_strlit(": null :");
    reveal_strlit(":");
    reveal_strlit("null");
    reveal_with_fuel(spaced, 4);
    let pieces = seq![":"@, "null"@, ":"@];
    assert(pieces.drop_first() =~= seq!["null"@, ":"@]);
    assert(pieces.drop_first().drop_first() =~= seq![":"@]);
    assert(": null :"@ =~= spaced(pieces));
    assert forall|k: int| 0 <= k < pieces.len() implies is_piece(#[trigger] pieces[k]) by {
        assert(k == 0 || k == 1 || k == 2);
    }
}

pub proof fn lemma_run_close()
    ensures
        is_run(")", seq![")"@]),
{
    lemma_piece_close();
    let pieces = seq![")"@];
    assert(")"@ =~= spaced(pieces));
    assert forall|k: int| 0 <= k < pieces.len() implies is_piece(#[trigger] pieces[k]) by {
        assert(k == 0);
    }
}

pub proof fn lemma_run_choice_null_colon()
    ensures
        is_run("? null :", seq!["?"@, "null"@, ":"@]),
{
    lemma_piece_choice();
    lemma_piece_null();
    lemma_piece_colon();
    reveal_strlit("? null :");
    reveal_strlit("?");
    reveal_strlit("null");
    reveal_strlit(":");
    reveal_with_fuel(spaced, 4);
    let pieces = seq!["?"@, "null"@, ":"@];
    assert(pieces.drop_first() =~= seq!["null"@, ":"@]);
    assert(pieces.drop_first().drop_first() =~= seq![":"@]);
    assert("? null :"@ =~= spaced(pieces));
    assert forall|k: int| 0 <= k < pieces.len() implies is_piece(#[trigger] pieces[k]) by {
        assert(k == 0 || k == 1 || k == 2);
    }
}

pub proof fn lemma_run_above_1_comma()
    ensures
        is_run("> 1 ,", seq![">"@, "1"@, ","@]),
{
    lemma_piece_above();
    lemma_piece_1();
    lemma_piece_comma();
    reveal_strlit("> 1 ,");
    reveal_strlit(">");
    reveal_strlit("1");
    reveal_strlit(",");
    reveal_with_fuel(spaced, 4);
    let pieces = seq![">"@, "1"@, ","@];
    assert(pieces.drop_first() =~= seq!["1"@, ","@]);
    assert(pieces.drop_first().drop_first() =~= seq![","@]);
    assert("> 1 ,"@ =~= spaced(pieces));
    assert forall|k: int| 0 <= k < pieces.len() implies is_piece(#[trigger] pieces[k]) by {
        assert(k == 0 || k == 1 || k == 2);
    }
}

} // verus!
