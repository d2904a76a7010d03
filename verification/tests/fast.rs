use codex_fast::js_tokens::Tokens;
use codex_fast::patch::edits::apply_edits;
use codex_fast::patch::fast::patch_set;
use codex_fast::patch::{Edit, Site};

fn detect(content: &str) -> Vec<(&'static str, Vec<Site>)> {
    let tokens = Tokens::new(content);
    patch_set()
        .features
        .iter()
        .filter_map(|feature| {
            if !feature.is_active(content) {
                return None;
            }
            let sites = feature.detect_sites(&tokens);
            if sites.is_empty() {
                None
            } else {
                Some((feature.label, sites))
            }
        })
        .collect()
}

fn patch(content: &str) -> String {
    let edits = detect(content)
        .into_iter()
        .flat_map(|(_, sites)| sites)
        .flat_map(|site| site.edits)
        .collect::<Vec<Edit>>();
    apply_edits(content, &edits).unwrap()
}

fn assert_patched(anchor: &str, guarded: &str, patched: &str, label: &str) {
    let input = format!("{guarded};`{anchor}`");
    let expected = format!("{patched};`{anchor}`");
    let before = detect(&input);
    assert_eq!(before.len(), 1);
    assert_eq!(before[0].0, label);
    assert!(before[0].1.iter().all(|site| !site.edits.is_empty()));

    let first = patch(&input);
    assert_eq!(first, expected);
    let after = detect(&first);
    assert_eq!(after.len(), 1);
    assert_eq!(after[0].0, label);
    assert_eq!(after[0].1.len(), before[0].1.len());
    assert!(after[0].1.iter().all(|site| site.edits.is_empty()));
    assert_eq!(patch(&first), first);
}

#[test]
fn speed_setting_matches_legacy_output() {
    assert_patched(
        "settings.agent.speed.label",
        "{isServiceTierAllowed:n}=Je(),{serviceTierSettings:r,setServiceTier:i}=Ye();if(!n||r.availableOptions.length<=1)return null;",
        "{isServiceTierAllowed:n}=Je(),{serviceTierSettings:r,setServiceTier:i}=Ye();if(r.availableOptions.length<=1)return null;",
        "Speed setting",
    );
}

#[test]
fn allowance_matches_legacy_output() {
    let prefix = "let o=a?.authMethod===`chatgpt`,";
    let suffix = "m;return{isServiceTierAllowed:p,isLoading:f}";
    let guarded = "s=a?.authMethod??null,l;t[0]!==i||t[1]!==s?(l={authMethod:s,hostId:i},t[0]=i,t[1]=s,t[2]=l):l=t[2];let{data:u,isPending:d}=r(N,l),f=!!a?.isLoading||o&&d,p=o&&!f&&u!=null&&u?.requirements?.featureRequirements?.fast_mode!==!1,";
    let patched = "s=a?.authMethod??null,l;t[0]!==i||t[1]!==s?(l={authMethod:s,hostId:i},t[0]=i,t[1]=s,t[2]=l):l=t[2];let{data:u,isPending:d}=r(N,l),f=!!a?.isLoading||o&&d,p=!f&&(o?u!=null&&u?.requirements?.featureRequirements?.fast_mode!==!1:!0),";
    assert_patched(
        "fast_mode",
        &format!("{prefix}{guarded}{suffix}"),
        &format!("{prefix}{patched}{suffix}"),
        "Speed service tier allowance",
    );
}

#[test]
fn request_allowance_does_not_depend_on_error_wording() {
    assert_patched(
        "future localized error wording",
        "async function T(e,t){let n=await x(e,t);if(n!==`chatgpt`)return!1;let r=await v(t,{priority:`critical`});return e.query.setData(g,{authMethod:n,hostId:t},r),r.requirements?.featureRequirements?.fast_mode!==!1}",
        "async function T(e,t){let n=await x(e,t);if(n!==`chatgpt`)return!0;let r=await v(t,{priority:`critical`});return e.query.setData(g,{authMethod:n,hostId:t},r),r.requirements?.featureRequirements?.fast_mode!==!1}",
        "Speed service tier request allowance",
    );
}

#[test]
fn request_allowance_rejects_line_break_after_return() {
    let input = format!(
        "{};{}",
        "async function e(t,n){let r=await i(t,n);if(r!==`chatgpt`)return\n!1;let a=await o(n,{priority:`critical`});return t.query.setData(s,{authMethod:r,hostId:n},a),a.requirements?.featureRequirements?.fast_mode!==!1}",
        "`Failed to read service tier for request`"
    );

    assert!(detect(&input).is_empty());
}

#[test]
fn conversation_fallback_matches_legacy_output() {
    let before = "{isServiceTierAllowed:M}=J(j);let r=H(p?.models,t.model),i=x?.requirements?.models?.newThread,s=e==null&&a&&i!=null,d=s?i.serviceTier:null,y=d!=null,b=e==null&&n!=null?n.value:y?O(d):C.serviceTier,E=e!=null&&h?.serviceTier!==void 0?h.serviceTier:e!=null&&v!==void 0?v:b;I=e!=null&&(h?.serviceTier!==void 0||v!==void 0)?M?E:null:D(r,E,M),F=I==null?null:_(r,I);let U={selectedServiceTier:F,serviceTierForRequest:I}";
    let after = "{isServiceTierAllowed:M}=J(j);let r=H(p?.models,t.model),i=x?.requirements?.models?.newThread,s=e==null&&a&&i!=null,d=s?i.serviceTier:null,y=d!=null,b=e==null&&n!=null?n.value:y?O(d):C.serviceTier,E=b;I=D(r,E,M),F=I==null?null:_(r,I);let U={selectedServiceTier:F,serviceTierForRequest:I}";
    assert_patched(
        "serviceTierForRequest",
        before,
        after,
        "Speed service tier conversation fallback",
    );
}

#[test]
fn conversation_fallback_requires_the_legacy_base_tier_shape() {
    let body = "{isServiceTierAllowed:M}=J(j);let b=unrelated(),E=e!=null&&h?.serviceTier!==void 0?h.serviceTier:e!=null&&v!==void 0?v:b;I=e!=null&&(h?.serviceTier!==void 0||v!==void 0)?M?E:null:D(r,E,M),F=I==null?null:_(r,I);let U={selectedServiceTier:F,serviceTierForRequest:I};`selectedServiceTier`;`serviceTierForRequest`";

    assert!(detect(body).is_empty());
}

#[test]
fn intelligence_menu_matches_legacy_output() {
    assert_patched(
        "composer.openModelPicker",
        ",pe=O&&E.availableOptions.length>1,",
        ",pe=E.availableOptions.length>1,",
        "Composer Intelligence Speed menu",
    );
}

#[test]
fn intelligence_menu_requires_a_nearby_command_anchor() {
    let body = format!(
        ",pe=O&&E.availableOptions.length>1,{} `composer.openModelPicker`",
        "x=0;".repeat(80)
    );

    assert!(detect(&body).is_empty());
}

#[test]
fn slash_command_matches_legacy_output() {
    assert_patched(
        "composer.speedSlashCommand.disableDescription",
        "function f(){l=`service-tier:${a}`;g={id:l,title:u,description:d,requiresEmptyComposer:!1,enabled:n,Icon:c,onSelect:m,dependencies:h};return g}",
        "function f(){l=`service-tier:${a}`;g={id:l,title:u,description:d,requiresEmptyComposer:!1,enabled:!0,Icon:c,onSelect:m,dependencies:h};return g}",
        "Fast slash command",
    );
}

#[test]
fn repeated_anchor_tokens_identify_one_slash_command_site() {
    assert_patched(
        "composer.speedSlashCommand.disableDescription",
        "function f(){l=`service-tier:${a}`;g={id:l,title:u,description:d,requiresEmptyComposer:!1,enabled:requiresEmptyComposer,Icon:c,onSelect:m,dependencies:h};return g}",
        "function f(){l=`service-tier:${a}`;g={id:l,title:u,description:d,requiresEmptyComposer:!1,enabled:!0,Icon:c,onSelect:m,dependencies:h};return g}",
        "Fast slash command",
    );
}

#[test]
fn token_matching_ignores_formatting_and_variable_names() {
    let input = r#"
        "settings.agent.speed.label";
        { isServiceTierAllowed: allowed } = useAllowance(),
        { serviceTierSettings: settings, setServiceTier: setTier } = useSettings();
        if ( ! allowed /* keep comments harmless */ || settings.availableOptions.length <= 1 )
            return null;
    "#;
    let result = patch(input);
    assert!(result.contains("if (  settings.availableOptions"));
}

#[test]
fn decoys_in_literals_comments_and_regexes_are_ignored() {
    let body = r#"
        "settings.agent.speed.label";
        const text = "{isServiceTierAllowed:n}=x(),{serviceTierSettings:r,setServiceTier:i}=y();if(!n||r.availableOptions.length<=1)return null;";
        /* {isServiceTierAllowed:n}=x(),{serviceTierSettings:r,setServiceTier:i}=y();if(!n||r.availableOptions.length<=1)return null; */
        const pattern = /if\(!n\|\|r\.availableOptions\.length<=1\)/;
    "#;
    assert!(detect(body).is_empty());
}

#[test]
fn multiple_sites_are_patched_together() {
    let target = "{isServiceTierAllowed:n}=Je(),{serviceTierSettings:r,setServiceTier:i}=Ye();if(!n||r.availableOptions.length<=1)return null;";
    let body = format!("`settings.agent.speed.label`;{target}{target}");
    let result = patch(&body);

    assert_eq!(result.matches("if(r.availableOptions").count(), 2);
    let after = detect(&result);
    assert_eq!(after[0].1.len(), 2);
    assert!(after[0].1.iter().all(|site| site.edits.is_empty()));
}
