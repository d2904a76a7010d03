//! What is reported of a plan.

use vstd::prelude::*;

use crate::asar::CompatibilityPlan;
use crate::patch::planner::{
    report_text, FeatureReport, FeatureReportSpec, PatchSetReport, PatchStatus, ReportSpec,
};
use crate::patch::FeatureRole;
use crate::text::{concat, decimal, decimal_text, joined, texts};
use crate::text_map::strings_view;

verus! {

pub open spec fn status_name(status: PatchStatus) -> Seq<char> {
    match status {
        PatchStatus::Complete => "Complete"@,
        PatchStatus::Degraded => "Degraded"@,
        PatchStatus::Unsafe => "Unsafe"@,
    }
}

fn status_text(status: PatchStatus) -> (name: &'static str)
    ensures
        name@ == status_name(status),
{
    match status {
        PatchStatus::Complete => "Complete",
        PatchStatus::Degraded => "Degraded",
        PatchStatus::Unsafe => "Unsafe",
    }
}

pub open spec fn role_name(role: FeatureRole) -> Seq<char> {
    match role {
        FeatureRole::Core => "Core"@,
        FeatureRole::UiEntry => "UiEntry"@,
    }
}

fn role_text(role: FeatureRole) -> (name: &'static str)
    ensures
        name@ == role_name(role),
{
    match role {
        FeatureRole::Core => "Core",
        FeatureRole::UiEntry => "UiEntry",
    }
}

pub open spec fn feature_line(feature: FeatureReportSpec) -> Seq<char> {
    joined(
        seq![
            "PATCH_FEATURE="@,
            feature.id,
            " LABEL="@,
            feature.label,
            " ROLE="@,
            role_name(feature.role),
            " GUARDED_SITE_COUNT="@,
            decimal(feature.guarded_sites as nat),
            " PATCHED_SITE_COUNT="@,
            decimal(feature.patched_sites as nat),
        ],
    )
}

pub open spec fn message_line(id: Seq<char>, message: Seq<char>) -> Seq<char> {
    joined(seq!["PATCH_MESSAGE="@, id, " MESSAGE="@, message])
}

/// The lines that report a plan: its status, its set, each feature, each message, and how many
/// resources are served.
pub open spec fn plan_lines(report: ReportSpec, resources: nat) -> Seq<Seq<char>> {
    seq![
        joined(seq!["PATCH_STATUS="@, status_name(report.status)]),
        joined(
            seq![
                "PATCH_SET="@,
                report.id,
                " LABEL="@,
                report.label,
                " STATUS="@,
                status_name(report.status),
                " ON_UNSAFE=BlockLaunch"@,
            ],
        ),
    ] + report.features.map_values(|feature: FeatureReportSpec| feature_line(feature))
        + report.messages.map_values(|message: Seq<char>| message_line(report.id, message))
        + seq![joined(seq!["RUNTIME_RESOURCE_COUNT="@, decimal(resources)])]
}

fn feature_text(feature: &FeatureReport) -> (line: String)
    ensures
        line@ == feature_line(feature@),
{
    let guarded = decimal_text(feature.guarded_sites as u64);
    let patched = decimal_text(feature.patched_sites as u64);
    let parts: [&str; 10] = [
        "PATCH_FEATURE=",
        feature.id,
        " LABEL=",
        feature.label,
        " ROLE=",
        role_text(feature.role),
        " GUARDED_SITE_COUNT=",
        guarded.as_str(),
        " PATCHED_SITE_COUNT=",
        patched.as_str(),
    ];
    assert(texts(parts@) =~= seq![
        "PATCH_FEATURE="@,
        feature.id@,
        " LABEL="@,
        feature.label@,
        " ROLE="@,
        role_name(feature.role),
        " GUARDED_SITE_COUNT="@,
        decimal(feature.guarded_sites as nat),
        " PATCHED_SITE_COUNT="@,
        decimal(feature.patched_sites as nat),
    ]);
    concat(&parts)
}

/// The lines that report a plan.
pub fn patch_plan_lines(plan: &CompatibilityPlan) -> (lines: Vec<String>)
    ensures
        strings_view(lines@) == plan_lines(plan.patch_set@, plan.resources@.len()),
{
    let report = &plan.patch_set;
    let ghost spec = report@;
    let status = status_text(report.status);
    let first: [&str; 2] = ["PATCH_STATUS=", status];
    let second: [&str; 7] = [
        "PATCH_SET=",
        report.id,
        " LABEL=",
        report.label,
        " STATUS=",
        status,
        " ON_UNSAFE=BlockLaunch",
    ];
    proof {
        assert(texts(first@) =~= seq!["PATCH_STATUS="@, status_name(spec.status)]);
        assert(texts(second@) =~= seq![
            "PATCH_SET="@,
            spec.id,
            " LABEL="@,
            spec.label,
            " STATUS="@,
            status_name(spec.status),
            " ON_UNSAFE=BlockLaunch"@,
        ]);
    }
    let mut lines: Vec<String> = Vec::new();
    lines.push(concat(&first));
    lines.push(concat(&second));
    let ghost head = strings_view(lines@);
    let ghost features = spec.features.map_values(
        |feature: FeatureReportSpec| feature_line(feature),
    );
    let mut k: usize = 0;
    assert(strings_view(lines@) =~= head + features.take(0));
    while k < report.features.len()
        invariant
            spec == report@,
            features == spec.features.map_values(
                |feature: FeatureReportSpec| feature_line(feature),
            ),
            k <= report.features@.len(),
            strings_view(lines@) == head + features.take(k as int),
        decreases report.features.len() - k,
    {
        let ghost before = lines@;
        let line = feature_text(&report.features[k]);
        lines.push(line);
        proof {
            assert(spec.features[k as int] == report.features@[k as int]@);
            assert(strings_view(lines@) =~= strings_view(before).push(line@));
            assert(features.take(k + 1) =~= features.take(k as int).push(features[k as int]));
        }
        k += 1;
    }
    assert(features.take(k as int) =~= features);
    let ghost messages = spec.messages.map_values(
        |message: Seq<char>| message_line(spec.id, message),
    );
    let mut k: usize = 0;
    assert(strings_view(lines@) =~= head + features + messages.take(0));
    while k < report.messages.len()
        invariant
            spec == report@,
            messages == spec.messages.map_values(
                |message: Seq<char>| message_line(spec.id, message),
            ),
            k <= report.messages@.len(),
            strings_view(lines@) == head + features + messages.take(k as int),
        decreases report.messages.len() - k,
    {
        let ghost before = lines@;
        let message = report.messages[k].as_str();
        let parts: [&str; 4] = ["PATCH_MESSAGE=", report.id, " MESSAGE=", message];
        assert(texts(parts@) =~= seq!["PATCH_MESSAGE="@, report.id@, " MESSAGE="@, message@]);
        let line = concat(&parts);
        lines.push(line);
        proof {
            assert(spec.messages[k as int] == message@);
            assert(strings_view(lines@) =~= strings_view(before).push(line@));
            assert(messages.take(k + 1) =~= messages.take(k as int).push(messages[k as int]));
        }
        k += 1;
    }
    assert(messages.take(k as int) =~= messages);
    let ghost before = lines@;
    let count = decimal_text(plan.resources.len() as u64);
    let parts: [&str; 2] = ["RUNTIME_RESOURCE_COUNT=", count.as_str()];
    assert(texts(parts@) =~= seq!["RUNTIME_RESOURCE_COUNT="@, count@]);
    let line = concat(&parts);
    lines.push(line);
    assert(strings_view(lines@) =~= strings_view(before).push(line@));
    assert(strings_view(lines@) =~= plan_lines(spec, plan.resources@.len()));
    lines
}

// ---------------------------------------------------------------------------
// Verdicts

/// Whether the application may be launched with a plan.
#[derive(Debug, PartialEq, Eq)]
pub enum Verdict {
    Proceed,
    /// With a warning.
    Warn(String),
    /// It may not.
    Refuse(String),
}

/// Judges a plan: an unsafe one is refused, and a degraded one is warned of, unless reports go
/// to the console anyway.
pub fn judge_plan(report: &PatchSetReport, debug: bool) -> (verdict: Verdict)
    ensures
        match verdict {
            Verdict::Proceed => report@.status == PatchStatus::Complete || (report@.status
                == PatchStatus::Degraded && debug),
            Verdict::Warn(text) => report@.status == PatchStatus::Degraded && !debug && text@
                == report_text(report@, "补丁以降级模式运行："@),
            Verdict::Refuse(text) => report@.status == PatchStatus::Unsafe && text@
                == report_text(report@, "补丁规划不安全，已在启动 Codex 前停止："@),
        },
{
    match report.status {
        PatchStatus::Complete => Verdict::Proceed,
        PatchStatus::Degraded => if debug {
            Verdict::Proceed
        } else {
            Verdict::Warn(report.format_messages("补丁以降级模式运行："))
        },
        PatchStatus::Unsafe => Verdict::Refuse(
            report.format_messages("补丁规划不安全，已在启动 Codex 前停止："),
        ),
    }
}

} // verus!
