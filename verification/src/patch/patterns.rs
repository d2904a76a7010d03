//! Token patterns of the fast unlock features.

use vstd::prelude::*;

use crate::token_match::Atom;

verus! {

pub const AL_DATA: usize = 0;

pub const AL_PENDING: usize = 1;

pub const AL_LOADING: usize = 2;

pub const AL_SOURCE: usize = 3;

pub const AL_AUTH: usize = 4;

pub const AL_ALLOWED: usize = 5;

pub const REQ_CACHE: usize = 0;

pub const REQ_HOST: usize = 1;

pub const REQ_AUTH: usize = 2;

pub const REQ_RESPONSE: usize = 3;

pub const CV_EFFECTIVE: usize = 0;

pub const CV_CONVERSATION: usize = 1;

pub const CV_THREAD: usize = 2;

pub const CV_OVERRIDE: usize = 3;

pub const CV_BASE: usize = 4;

pub const CV_REQUEST: usize = 5;

pub const CV_ALLOWED: usize = 6;

pub const CV_FALLBACK: usize = 7;

pub const CV_MODEL: usize = 8;

pub const CV_SELECTED: usize = 9;

/// The speed setting, hidden while the tier is not allowed.
#[verifier::opaque]
pub open spec fn speed_guarded_atoms() -> Seq<Atom> {
    seq![
        Atom::ExactRun("isServiceTierAllowed :"),
        Atom::Ident(0),
        Atom::ExactRun("} ="),
        Atom::AnyIdent,
        Atom::ExactRun("( ) , { serviceTierSettings :"),
        Atom::Ident(1),
        Atom::ExactRun(", setServiceTier :"),
        Atom::AnyIdent,
        Atom::ExactRun("} ="),
        Atom::AnyIdent,
        Atom::ExactRun("( ) ; if ("),
        Atom::Begin(0),
        Atom::ExactRun("!"),
        Atom::Ident(0),
        Atom::ExactRun("||"),
        Atom::End(0),
        Atom::Ident(1),
        Atom::Member("availableOptions"),
        Atom::Member("length"),
        Atom::ExactRun("<= 1 ) return null ;"),
    ]
}

pub fn speed_guarded() -> (pattern: Vec<Atom>)
    ensures
        pattern@ == speed_guarded_atoms(),
{
    let pattern = vec![
        Atom::ExactRun("isServiceTierAllowed :"),
        Atom::Ident(0),
        Atom::ExactRun("} ="),
        Atom::AnyIdent,
        Atom::ExactRun("( ) , { serviceTierSettings :"),
        Atom::Ident(1),
        Atom::ExactRun(", setServiceTier :"),
        Atom::AnyIdent,
        Atom::ExactRun("} ="),
        Atom::AnyIdent,
        Atom::ExactRun("( ) ; if ("),
        Atom::Begin(0),
        Atom::ExactRun("!"),
        Atom::Ident(0),
        Atom::ExactRun("||"),
        Atom::End(0),
        Atom::Ident(1),
        Atom::Member("availableOptions"),
        Atom::Member("length"),
        Atom::ExactRun("<= 1 ) return null ;"),
    ];
    proof {
        reveal(speed_guarded_atoms);
        assert(pattern@ =~= speed_guarded_atoms());
    }
    pattern
}

/// The speed setting, hidden only where there is nothing to choose.
#[verifier::opaque]
pub open spec fn speed_patched_atoms() -> Seq<Atom> {
    seq![
        Atom::ExactRun("isServiceTierAllowed :"),
        Atom::Ident(0),
        Atom::ExactRun("} ="),
        Atom::AnyIdent,
        Atom::ExactRun("( ) , { serviceTierSettings :"),
        Atom::Ident(1),
        Atom::ExactRun(", setServiceTier :"),
        Atom::AnyIdent,
        Atom::ExactRun("} ="),
        Atom::AnyIdent,
        Atom::ExactRun("( ) ; if ("),
        Atom::Ident(1),
        Atom::Member("availableOptions"),
        Atom::Member("length"),
        Atom::ExactRun("<= 1 ) return null ;"),
    ]
}

pub fn speed_patched() -> (pattern: Vec<Atom>)
    ensures
        pattern@ == speed_patched_atoms(),
{
    let pattern = vec![
        Atom::ExactRun("isServiceTierAllowed :"),
        Atom::Ident(0),
        Atom::ExactRun("} ="),
        Atom::AnyIdent,
        Atom::ExactRun("( ) , { serviceTierSettings :"),
        Atom::Ident(1),
        Atom::ExactRun(", setServiceTier :"),
        Atom::AnyIdent,
        Atom::ExactRun("} ="),
        Atom::AnyIdent,
        Atom::ExactRun("( ) ; if ("),
        Atom::Ident(1),
        Atom::Member("availableOptions"),
        Atom::Member("length"),
        Atom::ExactRun("<= 1 ) return null ;"),
    ];
    proof {
        reveal(speed_patched_atoms);
        assert(pattern@ =~= speed_patched_atoms());
    }
    pattern
}

/// The allowance, given to one kind of sign-in only.
#[verifier::opaque]
pub open spec fn allowance_guarded_atoms() -> Seq<Atom> {
    seq![
        Atom::OneOf(&["let", "const", "var"]),
        Atom::ExactRun("{ data :"),
        Atom::Ident(AL_DATA),
        Atom::ExactRun(", isPending :"),
        Atom::Ident(AL_PENDING),
        Atom::ExactRun("} ="),
        Atom::AnyIdent,
        Atom::ExactRun("("),
        Atom::AnyIdent,
        Atom::ExactRun(","),
        Atom::AnyIdent,
        Atom::ExactRun(") ,"),
        Atom::Ident(AL_LOADING),
        Atom::ExactRun("= ! !"),
        Atom::Ident(AL_SOURCE),
        Atom::Member("isLoading"),
        Atom::ExactRun("||"),
        Atom::Ident(AL_AUTH),
        Atom::ExactRun("&&"),
        Atom::Ident(AL_PENDING),
        Atom::ExactRun(","),
        Atom::Ident(AL_ALLOWED),
        Atom::ExactRun("="),
        Atom::Begin(0),
        Atom::Ident(AL_AUTH),
        Atom::ExactRun("&& !"),
        Atom::Ident(AL_LOADING),
        Atom::ExactRun("&&"),
        Atom::Ident(AL_DATA),
        Atom::NullNe,
        Atom::ExactRun("&&"),
        Atom::Ident(AL_DATA),
        Atom::Member("requirements"),
        Atom::Member("featureRequirements"),
        Atom::Member("fast_mode"),
        Atom::ExactRun("!=="),
        Atom::Bool(false),
        Atom::End(0),
        Atom::ExactRun(","),
    ]
}

pub fn allowance_guarded() -> (pattern: Vec<Atom>)
    ensures
        pattern@ == allowance_guarded_atoms(),
{
    let pattern = vec![
        Atom::OneOf(&["let", "const", "var"]),
        Atom::ExactRun("{ data :"),
        Atom::Ident(AL_DATA),
        Atom::ExactRun(", isPending :"),
        Atom::Ident(AL_PENDING),
        Atom::ExactRun("} ="),
        Atom::AnyIdent,
        Atom::ExactRun("("),
        Atom::AnyIdent,
        Atom::ExactRun(","),
        Atom::AnyIdent,
        Atom::ExactRun(") ,"),
        Atom::Ident(AL_LOADING),
        Atom::ExactRun("= ! !"),
        Atom::Ident(AL_SOURCE),
        Atom::Member("isLoading"),
        Atom::ExactRun("||"),
        Atom::Ident(AL_AUTH),
        Atom::ExactRun("&&"),
        Atom::Ident(AL_PENDING),
        Atom::ExactRun(","),
        Atom::Ident(AL_ALLOWED),
        Atom::ExactRun("="),
        Atom::Begin(0),
        Atom::Ident(AL_AUTH),
        Atom::ExactRun("&& !"),
        Atom::Ident(AL_LOADING),
        Atom::ExactRun("&&"),
        Atom::Ident(AL_DATA),
        Atom::NullNe,
        Atom::ExactRun("&&"),
        Atom::Ident(AL_DATA),
        Atom::Member("requirements"),
        Atom::Member("featureRequirements"),
        Atom::Member("fast_mode"),
        Atom::ExactRun("!=="),
        Atom::Bool(false),
        Atom::End(0),
        Atom::ExactRun(","),
    ];
    proof {
        reveal(allowance_guarded_atoms);
        assert(pattern@ =~= allowance_guarded_atoms());
    }
    pattern
}

/// The allowance, given to every other kind of sign-in too.
#[verifier::opaque]
pub open spec fn allowance_patched_atoms() -> Seq<Atom> {
    seq![
        Atom::OneOf(&["let", "const", "var"]),
        Atom::ExactRun("{ data :"),
        Atom::Ident(AL_DATA),
        Atom::ExactRun(", isPending :"),
        Atom::Ident(AL_PENDING),
        Atom::ExactRun("} ="),
        Atom::AnyIdent,
        Atom::ExactRun("("),
        Atom::AnyIdent,
        Atom::ExactRun(","),
        Atom::AnyIdent,
        Atom::ExactRun(") ,"),
        Atom::Ident(AL_LOADING),
        Atom::ExactRun("= ! !"),
        Atom::Ident(AL_SOURCE),
        Atom::Member("isLoading"),
        Atom::ExactRun("||"),
        Atom::Ident(AL_AUTH),
        Atom::ExactRun("&&"),
        Atom::Ident(AL_PENDING),
        Atom::ExactRun(","),
        Atom::Ident(AL_ALLOWED),
        Atom::ExactRun("= !"),
        Atom::Ident(AL_LOADING),
        Atom::ExactRun("&& ("),
        Atom::Ident(AL_AUTH),
        Atom::ExactRun("?"),
        Atom::Ident(AL_DATA),
        Atom::NullNe,
        Atom::ExactRun("&&"),
        Atom::Ident(AL_DATA),
        Atom::Member("requirements"),
        Atom::Member("featureRequirements"),
        Atom::Member("fast_mode"),
        Atom::ExactRun("!=="),
        Atom::Bool(false),
        Atom::ExactRun(":"),
        Atom::Bool(true),
        Atom::ExactRun(") ,"),
    ]
}

pub fn allowance_patched() -> (pattern: Vec<Atom>)
    ensures
        pattern@ == allowance_patched_atoms(),
{
    let pattern = vec![
        Atom::OneOf(&["let", "const", "var"]),
        Atom::ExactRun("{ data :"),
        Atom::Ident(AL_DATA),
        Atom::ExactRun(", isPending :"),
        Atom::Ident(AL_PENDING),
        Atom::ExactRun("} ="),
        Atom::AnyIdent,
        Atom::ExactRun("("),
        Atom::AnyIdent,
        Atom::ExactRun(","),
        Atom::AnyIdent,
        Atom::ExactRun(") ,"),
        Atom::Ident(AL_LOADING),
        Atom::ExactRun("= ! !"),
        Atom::Ident(AL_SOURCE),
        Atom::Member("isLoading"),
        Atom::ExactRun("||"),
        Atom::Ident(AL_AUTH),
        Atom::ExactRun("&&"),
        Atom::Ident(AL_PENDING),
        Atom::ExactRun(","),
        Atom::Ident(AL_ALLOWED),
        Atom::ExactRun("= !"),
        Atom::Ident(AL_LOADING),
        Atom::ExactRun("&& ("),
        Atom::Ident(AL_AUTH),
        Atom::ExactRun("?"),
        Atom::Ident(AL_DATA),
        Atom::NullNe,
        Atom::ExactRun("&&"),
        Atom::Ident(AL_DATA),
        Atom::Member("requirements"),
        Atom::Member("featureRequirements"),
        Atom::Member("fast_mode"),
        Atom::ExactRun("!=="),
        Atom::Bool(false),
        Atom::ExactRun(":"),
        Atom::Bool(true),
        Atom::ExactRun(") ,"),
    ];
    proof {
        reveal(allowance_patched_atoms);
        assert(pattern@ =~= allowance_patched_atoms());
    }
    pattern
}

/// The test for the kind of sign-in.
#[verifier::opaque]
pub open spec fn auth_chatgpt_atoms() -> Seq<Atom> {
    seq![
        Atom::Ident(AL_AUTH),
        Atom::ExactRun("="),
        Atom::Ident(AL_SOURCE),
        Atom::Member("authMethod"),
        Atom::OneOf(&["==", "==="]),
        Atom::Str("chatgpt"),
    ]
}

pub fn auth_chatgpt() -> (pattern: Vec<Atom>)
    ensures
        pattern@ == auth_chatgpt_atoms(),
{
    let pattern = vec![
        Atom::Ident(AL_AUTH),
        Atom::ExactRun("="),
        Atom::Ident(AL_SOURCE),
        Atom::Member("authMethod"),
        Atom::OneOf(&["==", "==="]),
        Atom::Str("chatgpt"),
    ];
    proof {
        reveal(auth_chatgpt_atoms);
        assert(pattern@ =~= auth_chatgpt_atoms());
    }
    pattern
}

/// The kind of sign-in, or null.
#[verifier::opaque]
pub open spec fn nullable_auth_atoms() -> Seq<Atom> {
    seq![
        Atom::AnyIdent,
        Atom::ExactRun("="),
        Atom::Ident(AL_SOURCE),
        Atom::Member("authMethod"),
        Atom::ExactRun("?? null"),
    ]
}

pub fn nullable_auth() -> (pattern: Vec<Atom>)
    ensures
        pattern@ == nullable_auth_atoms(),
{
    let pattern = vec![
        Atom::AnyIdent,
        Atom::ExactRun("="),
        Atom::Ident(AL_SOURCE),
        Atom::Member("authMethod"),
        Atom::ExactRun("?? null"),
    ];
    proof {
        reveal(nullable_auth_atoms);
        assert(pattern@ =~= nullable_auth_atoms());
    }
    pattern
}

/// The allowance of a request, with the answer for other kinds of sign-in.
#[verifier::opaque]
pub open spec fn request_state_atoms() -> Seq<Atom> {
    seq![
        Atom::ExactRun("async function"),
        Atom::AnyIdent,
        Atom::ExactRun("("),
        Atom::Ident(REQ_CACHE),
        Atom::ExactRun(","),
        Atom::Ident(REQ_HOST),
        Atom::ExactRun(") {"),
        Atom::OneOf(&["let", "const", "var"]),
        Atom::Ident(REQ_AUTH),
        Atom::ExactRun("= await"),
        Atom::AnyIdent,
        Atom::ExactRun("("),
        Atom::Ident(REQ_CACHE),
        Atom::ExactRun(","),
        Atom::Ident(REQ_HOST),
        Atom::ExactRun(") ; if ("),
        Atom::Ident(REQ_AUTH),
        Atom::ExactRun("!=="),
        Atom::Str("chatgpt"),
        Atom::ExactRun(") return"),
        Atom::NoLineBreak,
        Atom::Begin(0),
        Atom::CaptureBool(0),
        Atom::End(0),
        Atom::ExactRun(";"),
        Atom::OneOf(&["let", "const", "var"]),
        Atom::Ident(REQ_RESPONSE),
        Atom::ExactRun("= await"),
        Atom::AnyIdent,
        Atom::ExactRun("("),
        Atom::Ident(REQ_HOST),
        Atom::ExactRun(", { priority :"),
        Atom::Str("critical"),
        Atom::ExactRun("} ) ; return"),
        Atom::Ident(REQ_CACHE),
        Atom::Member("query"),
        Atom::Member("setData"),
        Atom::ExactRun("("),
        Atom::AnyIdent,
        Atom::ExactRun(", { authMethod :"),
        Atom::Ident(REQ_AUTH),
        Atom::ExactRun(", hostId :"),
        Atom::Ident(REQ_HOST),
        Atom::ExactRun("} ,"),
        Atom::Ident(REQ_RESPONSE),
        Atom::ExactRun(") ,"),
        Atom::Ident(REQ_RESPONSE),
        Atom::Member("requirements"),
        Atom::Member("featureRequirements"),
        Atom::Member("fast_mode"),
        Atom::ExactRun("!=="),
        Atom::Bool(false),
        Atom::ExactRun("}"),
    ]
}

pub fn request_state() -> (pattern: Vec<Atom>)
    ensures
        pattern@ == request_state_atoms(),
{
    let pattern = vec![
        Atom::ExactRun("async function"),
        Atom::AnyIdent,
        Atom::ExactRun("("),
        Atom::Ident(REQ_CACHE),
        Atom::ExactRun(","),
        Atom::Ident(REQ_HOST),
        Atom::ExactRun(") {"),
        Atom::OneOf(&["let", "const", "var"]),
        Atom::Ident(REQ_AUTH),
        Atom::ExactRun("= await"),
        Atom::AnyIdent,
        Atom::ExactRun("("),
        Atom::Ident(REQ_CACHE),
        Atom::ExactRun(","),
        Atom::Ident(REQ_HOST),
        Atom::ExactRun(") ; if ("),
        Atom::Ident(REQ_AUTH),
        Atom::ExactRun("!=="),
        Atom::Str("chatgpt"),
        Atom::ExactRun(") return"),
        Atom::NoLineBreak,
        Atom::Begin(0),
        Atom::CaptureBool(0),
        Atom::End(0),
        Atom::ExactRun(";"),
        Atom::OneOf(&["let", "const", "var"]),
        Atom::Ident(REQ_RESPONSE),
        Atom::ExactRun("= await"),
        Atom::AnyIdent,
        Atom::ExactRun("("),
        Atom::Ident(REQ_HOST),
        Atom::ExactRun(", { priority :"),
        Atom::Str("critical"),
        Atom::ExactRun("} ) ; return"),
        Atom::Ident(REQ_CACHE),
        Atom::Member("query"),
        Atom::Member("setData"),
        Atom::ExactRun("("),
        Atom::AnyIdent,
        Atom::ExactRun(", { authMethod :"),
        Atom::Ident(REQ_AUTH),
        Atom::ExactRun(", hostId :"),
        Atom::Ident(REQ_HOST),
        Atom::ExactRun("} ,"),
        Atom::Ident(REQ_RESPONSE),
        Atom::ExactRun(") ,"),
        Atom::Ident(REQ_RESPONSE),
        Atom::Member("requirements"),
        Atom::Member("featureRequirements"),
        Atom::Member("fast_mode"),
        Atom::ExactRun("!=="),
        Atom::Bool(false),
        Atom::ExactRun("}"),
    ];
    proof {
        reveal(request_state_atoms);
        assert(pattern@ =~= request_state_atoms());
    }
    pattern
}

/// The tier of a request, taken from the conversation where it has one.
#[verifier::opaque]
pub open spec fn conversation_guarded_atoms() -> Seq<Atom> {
    seq![
        Atom::Ident(CV_BASE),
        Atom::ExactRun("="),
        Atom::AnyIdent,
        Atom::NullEq,
        Atom::ExactRun("&&"),
        Atom::AnyIdent,
        Atom::NullNe,
        Atom::ExactRun("?"),
        Atom::AnyIdent,
        Atom::Member("value"),
        Atom::ExactRun(":"),
        Atom::AnyIdent,
        Atom::ExactRun("?"),
        Atom::AnyIdent,
        Atom::ExactRun("("),
        Atom::AnyIdent,
        Atom::ExactRun(") :"),
        Atom::AnyIdent,
        Atom::Member("serviceTier"),
        Atom::ExactRun(","),
        Atom::Ident(CV_EFFECTIVE),
        Atom::ExactRun("="),
        Atom::Begin(0),
        Atom::Ident(CV_CONVERSATION),
        Atom::NullNe,
        Atom::ExactRun("&&"),
        Atom::Ident(CV_THREAD),
        Atom::Member("serviceTier"),
        Atom::ExactRun("!=="),
        Atom::Undefined,
        Atom::ExactRun("?"),
        Atom::Ident(CV_THREAD),
        Atom::Member("serviceTier"),
        Atom::ExactRun(":"),
        Atom::Ident(CV_CONVERSATION),
        Atom::NullNe,
        Atom::ExactRun("&&"),
        Atom::Ident(CV_OVERRIDE),
        Atom::ExactRun("!=="),
        Atom::Undefined,
        Atom::ExactRun("?"),
        Atom::Ident(CV_OVERRIDE),
        Atom::ExactRun(":"),
        Atom::Ident(CV_BASE),
        Atom::End(0),
        Atom::ExactRun(";"),
        Atom::Ident(CV_REQUEST),
        Atom::ExactRun("="),
        Atom::Begin(1),
        Atom::Ident(CV_CONVERSATION),
        Atom::NullNe,
        Atom::ExactRun("&& ("),
        Atom::Ident(CV_THREAD),
        Atom::Member("serviceTier"),
        Atom::ExactRun("!=="),
        Atom::Undefined,
        Atom::ExactRun("||"),
        Atom::Ident(CV_OVERRIDE),
        Atom::ExactRun("!=="),
        Atom::Undefined,
        Atom::ExactRun(") ?"),
        Atom::Ident(CV_ALLOWED),
        Atom::ExactRun("?"),
        Atom::Ident(CV_EFFECTIVE),
        Atom::ExactRun(": null :"),
        Atom::Ident(CV_FALLBACK),
        Atom::ExactRun("("),
        Atom::Ident(CV_MODEL),
        Atom::ExactRun(","),
        Atom::Ident(CV_EFFECTIVE),
        Atom::ExactRun(","),
        Atom::Ident(CV_ALLOWED),
        Atom::ExactRun(")"),
        Atom::End(1),
        Atom::ExactRun(","),
        Atom::Ident(CV_SELECTED),
        Atom::ExactRun("="),
        Atom::Ident(CV_REQUEST),
        Atom::NullEq,
        Atom::ExactRun("? null :"),
        Atom::AnyIdent,
        Atom::ExactRun("("),
        Atom::Ident(CV_MODEL),
        Atom::ExactRun(","),
        Atom::Ident(CV_REQUEST),
        Atom::ExactRun(")"),
    ]
}

pub fn conversation_guarded() -> (pattern: Vec<Atom>)
    ensures
        pattern@ == conversation_guarded_atoms(),
{
    let pattern = vec![
        Atom::Ident(CV_BASE),
        Atom::ExactRun("="),
        Atom::AnyIdent,
        Atom::NullEq,
        Atom::ExactRun("&&"),
        Atom::AnyIdent,
        Atom::NullNe,
        Atom::ExactRun("?"),
        Atom::AnyIdent,
        Atom::Member("value"),
        Atom::ExactRun(":"),
        Atom::AnyIdent,
        Atom::ExactRun("?"),
        Atom::AnyIdent,
        Atom::ExactRun("("),
        Atom::AnyIdent,
        Atom::ExactRun(") :"),
        Atom::AnyIdent,
        Atom::Member("serviceTier"),
        Atom::ExactRun(","),
        Atom::Ident(CV_EFFECTIVE),
        Atom::ExactRun("="),
        Atom::Begin(0),
        Atom::Ident(CV_CONVERSATION),
        Atom::NullNe,
        Atom::ExactRun("&&"),
        Atom::Ident(CV_THREAD),
        Atom::Member("serviceTier"),
        Atom::ExactRun("!=="),
        Atom::Undefined,
        Atom::ExactRun("?"),
        Atom::Ident(CV_THREAD),
        Atom::Member("serviceTier"),
        Atom::ExactRun(":"),
        Atom::Ident(CV_CONVERSATION),
        Atom::NullNe,
        Atom::ExactRun("&&"),
        Atom::Ident(CV_OVERRIDE),
        Atom::ExactRun("!=="),
        Atom::Undefined,
        Atom::ExactRun("?"),
        Atom::Ident(CV_OVERRIDE),
        Atom::ExactRun(":"),
        Atom::Ident(CV_BASE),
        Atom::End(0),
        Atom::ExactRun(";"),
        Atom::Ident(CV_REQUEST),
        Atom::ExactRun("="),
        Atom::Begin(1),
        Atom::Ident(CV_CONVERSATION),
        Atom::NullNe,
        Atom::ExactRun("&& ("),
        Atom::Ident(CV_THREAD),
        Atom::Member("serviceTier"),
        Atom::ExactRun("!=="),
        Atom::Undefined,
        Atom::ExactRun("||"),
        Atom::Ident(CV_OVERRIDE),
        Atom::ExactRun("!=="),
        Atom::Undefined,
        Atom::ExactRun(") ?"),
        Atom::Ident(CV_ALLOWED),
        Atom::ExactRun("?"),
        Atom::Ident(CV_EFFECTIVE),
        Atom::ExactRun(": null :"),
        Atom::Ident(CV_FALLBACK),
        Atom::ExactRun("("),
        Atom::Ident(CV_MODEL),
        Atom::ExactRun(","),
        Atom::Ident(CV_EFFECTIVE),
        Atom::ExactRun(","),
        Atom::Ident(CV_ALLOWED),
        Atom::ExactRun(")"),
        Atom::End(1),
        Atom::ExactRun(","),
        Atom::Ident(CV_SELECTED),
        Atom::ExactRun("="),
        Atom::Ident(CV_REQUEST),
        Atom::NullEq,
        Atom::ExactRun("? null :"),
        Atom::AnyIdent,
        Atom::ExactRun("("),
        Atom::Ident(CV_MODEL),
        Atom::ExactRun(","),
        Atom::Ident(CV_REQUEST),
        Atom::ExactRun(")"),
    ];
    proof {
        reveal(conversation_guarded_atoms);
        assert(pattern@ =~= conversation_guarded_atoms());
    }
    pattern
}

/// The tier of a request, taken from the settings.
#[verifier::opaque]
pub open spec fn conversation_patched_atoms() -> Seq<Atom> {
    seq![
        Atom::Ident(CV_BASE),
        Atom::ExactRun("="),
        Atom::AnyIdent,
        Atom::NullEq,
        Atom::ExactRun("&&"),
        Atom::AnyIdent,
        Atom::NullNe,
        Atom::ExactRun("?"),
        Atom::AnyIdent,
        Atom::Member("value"),
        Atom::ExactRun(":"),
        Atom::AnyIdent,
        Atom::ExactRun("?"),
        Atom::AnyIdent,
        Atom::ExactRun("("),
        Atom::AnyIdent,
        Atom::ExactRun(") :"),
        Atom::AnyIdent,
        Atom::Member("serviceTier"),
        Atom::ExactRun(","),
        Atom::Ident(CV_EFFECTIVE),
        Atom::ExactRun("="),
        Atom::Ident(CV_BASE),
        Atom::ExactRun(";"),
        Atom::Ident(CV_REQUEST),
        Atom::ExactRun("="),
        Atom::Ident(CV_FALLBACK),
        Atom::ExactRun("("),
        Atom::Ident(CV_MODEL),
        Atom::ExactRun(","),
        Atom::Ident(CV_EFFECTIVE),
        Atom::ExactRun(","),
        Atom::Ident(CV_ALLOWED),
        Atom::ExactRun(") ,"),
        Atom::Ident(CV_SELECTED),
        Atom::ExactRun("="),
        Atom::Ident(CV_REQUEST),
        Atom::NullEq,
        Atom::ExactRun("? null :"),
        Atom::AnyIdent,
        Atom::ExactRun("("),
        Atom::Ident(CV_MODEL),
        Atom::ExactRun(","),
        Atom::Ident(CV_REQUEST),
        Atom::ExactRun(")"),
    ]
}

pub fn conversation_patched() -> (pattern: Vec<Atom>)
    ensures
        pattern@ == conversation_patched_atoms(),
{
    let pattern = vec![
        Atom::Ident(CV_BASE),
        Atom::ExactRun("="),
        Atom::AnyIdent,
        Atom::NullEq,
        Atom::ExactRun("&&"),
        Atom::AnyIdent,
        Atom::NullNe,
        Atom::ExactRun("?"),
        Atom::AnyIdent,
        Atom::Member("value"),
        Atom::ExactRun(":"),
        Atom::AnyIdent,
        Atom::ExactRun("?"),
        Atom::AnyIdent,
        Atom::ExactRun("("),
        Atom::AnyIdent,
        Atom::ExactRun(") :"),
        Atom::AnyIdent,
        Atom::Member("serviceTier"),
        Atom::ExactRun(","),
        Atom::Ident(CV_EFFECTIVE),
        Atom::ExactRun("="),
        Atom::Ident(CV_BASE),
        Atom::ExactRun(";"),
        Atom::Ident(CV_REQUEST),
        Atom::ExactRun("="),
        Atom::Ident(CV_FALLBACK),
        Atom::ExactRun("("),
        Atom::Ident(CV_MODEL),
        Atom::ExactRun(","),
        Atom::Ident(CV_EFFECTIVE),
        Atom::ExactRun(","),
        Atom::Ident(CV_ALLOWED),
        Atom::ExactRun(") ,"),
        Atom::Ident(CV_SELECTED),
        Atom::ExactRun("="),
        Atom::Ident(CV_REQUEST),
        Atom::NullEq,
        Atom::ExactRun("? null :"),
        Atom::AnyIdent,
        Atom::ExactRun("("),
        Atom::Ident(CV_MODEL),
        Atom::ExactRun(","),
        Atom::Ident(CV_REQUEST),
        Atom::ExactRun(")"),
    ];
    proof {
        reveal(conversation_patched_atoms);
        assert(pattern@ =~= conversation_patched_atoms());
    }
    pattern
}

/// The binding of the allowance.
#[verifier::opaque]
pub open spec fn allowed_binding_atoms() -> Seq<Atom> {
    seq![
        Atom::ExactRun("isServiceTierAllowed :"),
        Atom::Ident(CV_ALLOWED),
    ]
}

pub fn allowed_binding() -> (pattern: Vec<Atom>)
    ensures
        pattern@ == allowed_binding_atoms(),
{
    let pattern = vec![
        Atom::ExactRun("isServiceTierAllowed :"),
        Atom::Ident(CV_ALLOWED),
    ];
    proof {
        reveal(allowed_binding_atoms);
        assert(pattern@ =~= allowed_binding_atoms());
    }
    pattern
}

/// The menu entry, shown under a further condition.
#[verifier::opaque]
pub open spec fn intelligence_guarded_atoms() -> Seq<Atom> {
    seq![
        Atom::OneOf(&[",", ";"]),
        Atom::AnyIdent,
        Atom::ExactRun("="),
        Atom::Begin(0),
        Atom::AnyIdent,
        Atom::ExactRun("&&"),
        Atom::End(0),
        Atom::Ident(0),
        Atom::Member("availableOptions"),
        Atom::Member("length"),
        Atom::ExactRun("> 1 ,"),
    ]
}

pub fn intelligence_guarded() -> (pattern: Vec<Atom>)
    ensures
        pattern@ == intelligence_guarded_atoms(),
{
    let pattern = vec![
        Atom::OneOf(&[",", ";"]),
        Atom::AnyIdent,
        Atom::ExactRun("="),
        Atom::Begin(0),
        Atom::AnyIdent,
        Atom::ExactRun("&&"),
        Atom::End(0),
        Atom::Ident(0),
        Atom::Member("availableOptions"),
        Atom::Member("length"),
        Atom::ExactRun("> 1 ,"),
    ];
    proof {
        reveal(intelligence_guarded_atoms);
        assert(pattern@ =~= intelligence_guarded_atoms());
    }
    pattern
}

/// The menu entry, shown wherever there is something to choose.
#[verifier::opaque]
pub open spec fn intelligence_patched_atoms() -> Seq<Atom> {
    seq![
        Atom::OneOf(&[",", ";"]),
        Atom::AnyIdent,
        Atom::ExactRun("="),
        Atom::Ident(0),
        Atom::Member("availableOptions"),
        Atom::Member("length"),
        Atom::ExactRun("> 1 ,"),
    ]
}

pub fn intelligence_patched() -> (pattern: Vec<Atom>)
    ensures
        pattern@ == intelligence_patched_atoms(),
{
    let pattern = vec![
        Atom::OneOf(&[",", ";"]),
        Atom::AnyIdent,
        Atom::ExactRun("="),
        Atom::Ident(0),
        Atom::Member("availableOptions"),
        Atom::Member("length"),
        Atom::ExactRun("> 1 ,"),
    ];
    proof {
        reveal(intelligence_patched_atoms);
        assert(pattern@ =~= intelligence_patched_atoms());
    }
    pattern
}

/// The command that opens the menu.
#[verifier::opaque]
pub open spec fn intelligence_anchor_atoms() -> Seq<Atom> {
    seq![
        Atom::Str("composer.openModelPicker"),
    ]
}

pub fn intelligence_anchor() -> (pattern: Vec<Atom>)
    ensures
        pattern@ == intelligence_anchor_atoms(),
{
    let pattern = vec![
        Atom::Str("composer.openModelPicker"),
    ];
    proof {
        reveal(intelligence_anchor_atoms);
        assert(pattern@ =~= intelligence_anchor_atoms());
    }
    pattern
}

} // verus!
