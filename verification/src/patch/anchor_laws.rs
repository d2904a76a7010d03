//! Where the features of the fast unlock are looked for.

use vstd::prelude::*;

use crate::js_tokens::tokens_of;
use crate::match_laws::reads;
use crate::patch::code_laws::{
    is_allowance, is_free_allowance, is_request_answer, is_request_refusal,
    lemma_found_is_allowance, lemma_found_is_free_allowance, lemma_found_is_request_allowance,
    lemma_found_is_shown_speed_setting, lemma_found_is_sign_in_test, lemma_found_is_speed_setting,
    words_of,
};
use crate::patch::fast::{fast_features, FastRule};
use crate::patch::fast_laws::{
    lemma_allowance_sites_stand, lemma_request_allowance_sites, lemma_speed_setting_sites,
};
use crate::patch::patterns::{
    allowance_guarded_atoms, allowance_patched_atoms, speed_guarded_atoms,
};
use crate::patch::plan_laws::occurs;
use crate::patch::{hit_of, Detector, SiteSpec};
use crate::token_laws::lemma_token;
use crate::token_match::{lemma_after_atoms, unbound, unmatched};

verus! {

proof fn lemma_token_occurs(s: Seq<char>, i: int, text: Seq<char>)
    requires
        0 <= i,
        reads(s, i, text),
    ensures
        occurs(s, text),
{
    lemma_token(s, i);
    let token = tokens_of(s)[i];
    let before = s.subrange(0, token.start);
    let after = s.subrange(token.end, s.len() as int);
    assert(before + text + after =~= s);
}

/// The anchors of the first three features.
proof fn lemma_anchors()
    ensures
        ({
            let features = fast_features();
            &&& features.len() == 6
            &&& features[0].detector == FastRule::SpeedSetting
            &&& features[1].detector == FastRule::Allowance
            &&& features[2].detector == FastRule::RequestAllowance
            &&& features[0].anchors@.len() == 2
            &&& features[0].anchors@[0]@ == "isServiceTierAllowed"@
            &&& features[0].anchors@[1]@ == "availableOptions"@
            &&& features[1].anchors@.len() == 4
            &&& features[1].anchors@[0]@ == "featureRequirements"@
            &&& features[1].anchors@[1]@ == "authMethod"@
            &&& features[1].anchors@[2]@ == "fast_mode"@
            &&& features[1].anchors@[3]@ == "isServiceTierAllowed"@
            &&& features[2].anchors@.len() == 2
            &&& features[2].anchors@[0]@ == "authMethod"@
            &&& features[2].anchors@[1]@ == "priority"@
        }),
{
    reveal(fast_features);
}

/// A source with a site of the speed setting holds the anchors of that feature, so that no site of
/// it is passed over.
pub proof fn lemma_speed_setting_shows_its_anchors(s: Seq<char>, site: SiteSpec)
    requires
        FastRule::SpeedSetting.sites(s).contains(site),
    ensures
        fast_features()[0].detector == FastRule::SpeedSetting,
        forall|k: int|
            0 <= k < fast_features()[0].anchors@.len() ==> occurs(
                s,
                (#[trigger] fast_features()[0].anchors@[k])@,
            ),
{
    let m = lemma_speed_setting_sites(s, site);
    let i = m.start;
    let gap: int = if hit_of(s, speed_guarded_atoms(), m) {
        lemma_found_is_speed_setting(s, i, unbound());
        29
    } else {
        lemma_found_is_shown_speed_setting(s, i, unbound());
        26
    };
    lemma_token_occurs(s, i, "isServiceTierAllowed"@);
    lemma_token_occurs(s, i + gap + 1, "availableOptions"@);
    let anchors = fast_features()[0].anchors@;
    lemma_anchors();
    assert forall|k: int| 0 <= k < anchors.len() implies occurs(s, (#[trigger] anchors[k])@) by {
        assert(k == 0 || k == 1);
    }
}

/// A source with a site of the allowance holds the anchors of that feature.
pub proof fn lemma_allowance_shows_its_anchors(s: Seq<char>, site: SiteSpec)
    requires
        FastRule::Allowance.sites(s).contains(site),
    ensures
        fast_features()[1].detector == FastRule::Allowance,
        forall|k: int|
            0 <= k < fast_features()[1].anchors@.len() ==> occurs(
                s,
                (#[trigger] fast_features()[1].anchors@[k])@,
            ),
{
    let (m, test, read, at) = lemma_allowance_sites_stand(s, site);
    let i = m.start;
    if hit_of(s, allowance_guarded_atoms(), m) {
        let pattern = allowance_guarded_atoms();
        lemma_after_atoms(s, pattern, pattern.len() as int, unmatched(i, unbound()));
        lemma_found_is_allowance(s, i, unbound());
        let b = choose|b: Seq<int>| #[trigger] is_allowance(s, i, words_of(s, m), b);
        lemma_token_occurs(s, i + 45, "featureRequirements"@);
        lemma_token_occurs(s, i + 47, "fast_mode"@);
    } else {
        let pattern = allowance_patched_atoms();
        lemma_after_atoms(s, pattern, pattern.len() as int, unmatched(i, unbound()));
        lemma_found_is_free_allowance(s, i, unbound());
        let b = choose|b: Seq<int>| #[trigger] is_free_allowance(s, i, words_of(s, m), b);
        lemma_token_occurs(s, i + 46, "featureRequirements"@);
        lemma_token_occurs(s, i + 48, "fast_mode"@);
    }
    lemma_found_is_sign_in_test(s, test, m.ids);
    lemma_token_occurs(s, test + 4, "authMethod"@);
    lemma_token_occurs(s, at, "isServiceTierAllowed"@);
    let anchors = fast_features()[1].anchors@;
    lemma_anchors();
    assert forall|k: int| 0 <= k < anchors.len() implies occurs(s, (#[trigger] anchors[k])@) by {
        assert(k == 0 || k == 1 || k == 2 || k == 3);
    }
}

/// A source with a site of the allowance of a request holds the anchors of that feature.
pub proof fn lemma_request_allowance_shows_its_anchors(s: Seq<char>, site: SiteSpec)
    requires
        FastRule::RequestAllowance.sites(s).contains(site),
    ensures
        fast_features()[2].detector == FastRule::RequestAllowance,
        forall|k: int|
            0 <= k < fast_features()[2].anchors@.len() ==> occurs(
                s,
                (#[trigger] fast_features()[2].anchors@[k])@,
            ),
{
    let m = lemma_request_allowance_sites(s, site);
    let i = m.start;
    lemma_found_is_request_allowance(s, i, unbound());
    assert(occurs(s, "priority"@) && occurs(s, "authMethod"@)) by {
        let (first, second, answer) = choose|first: int, second: int, answer: bool|
            #[trigger] is_request_refusal(s, i, words_of(s, m), first, answer)
                && #[trigger] is_request_answer(s, i + 27 + first, words_of(s, m), second);
        assert(first == 1 || first == 2);
        lemma_token_occurs(s, i + 27 + first + 10, "priority"@);
        lemma_token_occurs(s, i + 27 + first + 26, "authMethod"@);
    }
    let anchors = fast_features()[2].anchors@;
    lemma_anchors();
    assert forall|k: int| 0 <= k < anchors.len() implies occurs(s, (#[trigger] anchors[k])@) by {
        assert(k == 0 || k == 1);
    }
}

} // verus!
