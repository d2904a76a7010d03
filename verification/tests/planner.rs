use codex_fast::js_tokens::Tokens;
use codex_fast::patch::edits::{apply_edits, apply_sorted_edits, PatchError};
use codex_fast::patch::fast::patch_set;
use codex_fast::patch::planner::{PatchPlan, PatchStatus, Planner};
use codex_fast::patch::{Detector, Edit, Feature, FeatureRole, PatchSet, Site};

struct Rule(fn(&Tokens<'_>) -> Vec<Site>);

impl Detector for Rule {
    fn detect(&self, tokens: &Tokens<'_>) -> Vec<Site> {
        (self.0)(tokens)
    }
}

fn replace_old_with_new(tokens: &Tokens<'_>) -> Vec<Site> {
    replace_ident(tokens, "old", "new")
}

fn replace_old_with_other(tokens: &Tokens<'_>) -> Vec<Site> {
    replace_ident(tokens, "old", "other")
}

fn expand_old(tokens: &Tokens<'_>) -> Vec<Site> {
    replace_ident(tokens, "old", "new new")
}

fn detect_nothing(_: &Tokens<'_>) -> Vec<Site> {
    Vec::new()
}

fn never_settles(tokens: &Tokens<'_>) -> Vec<Site> {
    (0..tokens.len())
        .filter(|&index| matches!(tokens.text(index), "old" | "new"))
        .map(|index| {
            let range = tokens.span(index);
            Site {
                range: range.clone(),
                edits: vec![Edit {
                    range,
                    replacement: "new".to_owned(),
                }],
            }
        })
        .collect()
}

fn disappear_old(tokens: &Tokens<'_>) -> Vec<Site> {
    (0..tokens.len())
        .filter_map(|index| match tokens.text(index) {
            "old" => {
                let range = tokens.span(index);
                Some(Site {
                    range: range.clone(),
                    edits: vec![Edit {
                        range,
                        replacement: "gone".to_owned(),
                    }],
                })
            }
            "new" => Some(Site {
                range: tokens.span(index),
                edits: Vec::new(),
            }),
            _ => None,
        })
        .collect()
}

fn seed_new_site(tokens: &Tokens<'_>) -> Vec<Site> {
    replace_ident(tokens, "seed", "new")
}

fn invalid_after_patch(tokens: &Tokens<'_>) -> Vec<Site> {
    let mut sites = replace_ident(tokens, "old", "new");
    for site in &mut sites {
        if site.edits.is_empty() {
            site.range.end = usize::MAX;
        }
    }
    sites
}

fn replace_ident(tokens: &Tokens<'_>, guarded: &str, patched: &str) -> Vec<Site> {
    (0..tokens.len())
        .filter_map(|index| {
            let text = tokens.text(index);
            if text != guarded && text != patched {
                return None;
            }
            let range = tokens.span(index);
            let edits = if text == guarded {
                vec![Edit {
                    range: range.clone(),
                    replacement: patched.to_owned(),
                }]
            } else {
                Vec::new()
            };
            Some(Site { range, edits })
        })
        .collect()
}

fn feature(
    id: &'static str,
    label: &'static str,
    role: FeatureRole,
    detect: fn(&Tokens<'_>) -> Vec<Site>,
) -> Feature<Rule> {
    Feature {
        id,
        label,
        role,
        anchors: &[],
        detector: Rule(detect),
    }
}

fn core_feature(
    id: &'static str,
    label: &'static str,
    detect: fn(&Tokens<'_>) -> Vec<Site>,
) -> Feature<Rule> {
    feature(id, label, FeatureRole::Core, detect)
}

fn set(id: &'static str, label: &'static str, features: Vec<Feature<Rule>>) -> PatchSet<Rule> {
    PatchSet {
        id,
        label,
        features,
    }
}

fn blocking_set() -> PatchSet<Rule> {
    set("required", "Required", vec![core_feature("core", "Core", replace_old_with_new)])
}

fn plan(set: &PatchSet<Rule>, sources: &[(&str, &str)]) -> PatchPlan {
    let mut planner = Planner::new(set);
    for (key, content) in sources {
        planner.scan(key, content.to_string()).unwrap();
    }
    planner.finish().ok().unwrap()
}

fn has_message(plan: &PatchPlan, part: &str) -> bool {
    plan.report
        .messages
        .iter()
        .any(|message| message.contains(part))
}

#[test]
fn feature_accepts_multiple_sites() {
    let plan = plan(&blocking_set(), &[("a.js", "old+old")]);

    assert_eq!(plan.report.status, PatchStatus::Complete);
    assert_eq!(plan.report.features[0].guarded_sites, 2);
    assert_eq!(plan.resources[0].patched_content, "new+new");
}

#[test]
fn missing_ui_is_degraded_but_patchable() {
    let set = set(
        "set",
        "Set",
        vec![
            core_feature("core", "Core", replace_old_with_new),
            feature("ui", "UI", FeatureRole::UiEntry, detect_nothing),
        ],
    );
    let plan = plan(&set, &[("a.js", "old")]);

    assert_eq!(plan.report.status, PatchStatus::Degraded);
    assert_eq!(plan.resources[0].patched_content, "new");
}

#[test]
fn missing_core_blocks_without_emitting_resources() {
    let plan = plan(&blocking_set(), &[]);

    assert_eq!(plan.report.status, PatchStatus::Unsafe);
    assert!(plan.resources.is_empty());
}

#[test]
fn identical_edits_are_deduplicated_across_features() {
    let set = set(
        "duplicate",
        "Duplicate",
        vec![
            core_feature("first", "First", replace_old_with_new),
            core_feature("second", "Second", replace_old_with_new),
        ],
    );
    let plan = plan(&set, &[("a.js", "old")]);

    assert_eq!(plan.report.status, PatchStatus::Complete);
    assert_eq!(plan.resources[0].patched_content, "new");
    assert!(plan.resources[0].required_for_ready);
}

#[test]
fn ui_only_resources_do_not_block_runtime_readiness() {
    let set = set(
        "ui-only",
        "UI only",
        vec![feature("ui", "UI", FeatureRole::UiEntry, replace_old_with_new)],
    );
    let plan = plan(&set, &[("ui.js", "old")]);

    assert_eq!(plan.report.status, PatchStatus::Complete);
    assert!(!plan.resources[0].required_for_ready);
}

#[test]
fn different_overlapping_required_edits_block_launch() {
    let set = set(
        "conflicting",
        "Conflicting",
        vec![
            core_feature("first", "First", replace_old_with_new),
            core_feature("second", "Second", replace_old_with_other),
        ],
    );
    let plan = plan(&set, &[("a.js", "old")]);

    assert_eq!(plan.report.status, PatchStatus::Unsafe);
    assert!(plan.resources.is_empty());
    assert!(has_message(&plan, "overlapping edits"));
}

#[test]
fn changed_site_count_fails_post_verification() {
    let set = set(
        "expanding",
        "Expanding",
        vec![core_feature("expanding", "Expanding", expand_old)],
    );
    let plan = plan(&set, &[("a.js", "old")]);

    assert_eq!(plan.report.status, PatchStatus::Unsafe);
    assert!(plan.resources.is_empty());
    assert!(has_message(&plan, "site count changed"));
}

#[test]
fn a_second_guarded_pass_fails_idempotence() {
    let set = set(
        "unstable",
        "Unstable",
        vec![core_feature("unstable", "Unstable", never_settles)],
    );
    let plan = plan(&set, &[("a.js", "old")]);

    assert_eq!(plan.report.status, PatchStatus::Unsafe);
    assert!(plan.resources.is_empty());
    assert!(has_message(&plan, "fully patched"));
}

#[test]
fn sites_cannot_move_between_resources_during_verification() {
    let set = set(
        "relocating",
        "Relocating",
        vec![
            core_feature("relocating", "Relocating", disappear_old),
            core_feature("seed", "Seed", seed_new_site),
        ],
    );
    let plan = plan(&set, &[("a.js", "old"), ("b.js", "seed")]);

    assert_eq!(plan.report.status, PatchStatus::Unsafe);
    assert!(plan.resources.is_empty());
    assert!(plan
        .report
        .messages
        .iter()
        .any(|message| message.contains("a.js") && message.contains("site count")));
}

#[test]
fn invalid_post_patch_site_is_unsafe() {
    let set = set(
        "invalid-post",
        "Invalid post",
        vec![core_feature("invalid-post", "Invalid post", invalid_after_patch)],
    );
    let plan = plan(&set, &[("a.js", "old")]);

    assert_eq!(plan.report.status, PatchStatus::Unsafe);
    assert!(plan.resources.is_empty());
    assert!(has_message(&plan, "invalid site range"));
}

#[test]
fn a_source_is_scanned_once() {
    let set = blocking_set();
    let mut planner = Planner::new(&set);
    planner.scan("a.js", "old".to_owned()).unwrap();
    let error = planner.scan("a.js", "old".to_owned()).unwrap_err();
    assert!(matches!(error, PatchError::DuplicateResource(_)));
    assert!(error.message().contains("a.js"));
}

#[test]
fn a_report_lists_its_messages_below_a_heading() {
    let plan = plan(&blocking_set(), &[]);
    let text = plan.report.format_messages("Heading:");
    let mut lines = text.lines();
    assert_eq!(lines.next(), Some("Heading:"));
    assert_eq!(lines.next(), Some("Required (required):"));
    assert!(lines.all(|line| line.starts_with("- ")));
    assert!(!plan.report.messages.is_empty());
}

#[test]
fn planning_what_was_planned_changes_nothing() {
    let set = blocking_set();
    let first = plan(&set, &[("a.js", "old+old"), ("b.js", "none")]);
    assert_eq!(first.resources.len(), 1);
    let content = first.resources[0].patched_content.clone();
    let second = plan(&set, &[("a.js", &content)]);
    assert_eq!(second.report.status, first.report.status);
    assert_eq!(second.report.features[0].guarded_sites, 0);
    assert_eq!(second.report.features[0].patched_sites, 2);
    assert_eq!(second.resources.len(), 1);
    assert_eq!(second.resources[0].key, first.resources[0].key);
    assert_eq!(second.resources[0].patched_content, content);
}

fn edit(start: usize, end: usize, replacement: &str) -> Edit {
    Edit {
        range: start..end,
        replacement: replacement.to_owned(),
    }
}

#[test]
fn edits_are_made_in_order_and_once() {
    let edits = [edit(4, 7, "B"), edit(0, 3, "A"), edit(4, 7, "B")];
    assert_eq!(apply_edits("one two", &edits).unwrap(), "A B");
    assert_eq!(apply_edits("one two", &[]).unwrap(), "one two");
    assert_eq!(
        apply_sorted_edits("one", &vec![edit(3, 3, "!")]).ok(),
        apply_edits("one", &[edit(3, 3, "!")]).ok()
    );
}

#[test]
fn overlapping_edits_and_bad_ranges_are_refused() {
    assert_eq!(
        apply_edits("abc", &[edit(0, 2, "x"), edit(1, 3, "y")])
            .unwrap_err()
            .message(),
        "invalid or overlapping patch edits"
    );
    assert!(apply_edits("abc", &[edit(0, 4, "x")]).is_err());
    assert!(apply_edits("é", &[edit(1, 2, "x")]).is_err());
}

#[test]
fn the_shipped_set_needs_its_core_features() {
    let set = patch_set();
    assert_eq!(set.features.len(), 6);
    let planner = Planner::new(&set);
    let plan = planner.finish().ok().unwrap();
    assert_eq!(plan.report.status, PatchStatus::Unsafe);
}
