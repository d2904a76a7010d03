//! What a plan is reported as.

use vstd::prelude::*;

use crate::patch::planner::{report_text, FeatureReportSpec, PatchStatus, ReportSpec};
use crate::patch::FeatureRole;
use crate::platform::process::{is_lock_identifier, poll_millis, reported_code};
use crate::report::{feature_line, message_line, plan_lines};
use crate::text::{decimal, joined};

verus! {

/// The word for a status.
pub open spec fn is_status_word(status: PatchStatus, word: Seq<char>) -> bool {
    ||| status == PatchStatus::Complete && word == "Complete"@
    ||| status == PatchStatus::Degraded && word == "Degraded"@
    ||| status == PatchStatus::Unsafe && word == "Unsafe"@
}

/// The word for a role.
pub open spec fn is_role_word(role: FeatureRole, word: Seq<char>) -> bool {
    ||| role == FeatureRole::Core && word == "Core"@
    ||| role == FeatureRole::UiEntry && word == "UiEntry"@
}

/// A report starts with its status and its set, which name the same status, and ends with the
/// number of resources.
pub proof fn lemma_report_starts_and_ends(report: ReportSpec, resources: nat, word: Seq<char>)
    requires
        is_status_word(report.status, word),
    ensures
        ({
            let lines = plan_lines(report, resources);
            &&& lines.len() == report.features.len() + report.messages.len() + 3
            &&& lines[0] == "PATCH_STATUS="@ + word
            &&& lines[1] == "PATCH_SET="@ + report.id + " LABEL="@ + report.label + " STATUS="@
                + word + " ON_UNSAFE=BlockLaunch"@
            &&& lines.last() == "RUNTIME_RESOURCE_COUNT="@ + decimal(resources)
        }),
{
    reveal_with_fuel(joined, 8);
    assert(joined(seq!["PATCH_STATUS="@, word]) =~= "PATCH_STATUS="@ + word);
    assert(joined(
        seq![
            "PATCH_SET="@,
            report.id,
            " LABEL="@,
            report.label,
            " STATUS="@,
            word,
            " ON_UNSAFE=BlockLaunch"@,
        ],
    ) =~= "PATCH_SET="@ + report.id + " LABEL="@ + report.label + " STATUS="@ + word
        + " ON_UNSAFE=BlockLaunch"@);
    assert(joined(seq!["RUNTIME_RESOURCE_COUNT="@, decimal(resources)])
        =~= "RUNTIME_RESOURCE_COUNT="@ + decimal(resources));
}

/// Each feature of a report has a line, in order, with its counts.
pub proof fn lemma_feature_has_its_line(
    report: ReportSpec,
    resources: nat,
    f: int,
    word: Seq<char>,
)
    requires
        0 <= f < report.features.len(),
        report.features[f].guarded_sites >= 0,
        report.features[f].patched_sites >= 0,
        is_role_word(report.features[f].role, word),
    ensures
        ({
            let feature = report.features[f];
            plan_lines(report, resources)[2 + f] == "PATCH_FEATURE="@ + feature.id + " LABEL="@
                + feature.label + " ROLE="@ + word + " GUARDED_SITE_COUNT="@ + decimal(
                feature.guarded_sites as nat,
            ) + " PATCHED_SITE_COUNT="@ + decimal(feature.patched_sites as nat)
        }),
{
    let feature = report.features[f];
    let guarded = decimal(feature.guarded_sites as nat);
    let patched = decimal(feature.patched_sites as nat);
    reveal_with_fuel(joined, 11);
    let line = "PATCH_FEATURE="@ + feature.id + " LABEL="@ + feature.label + " ROLE="@ + word
        + " GUARDED_SITE_COUNT="@ + guarded + " PATCHED_SITE_COUNT="@ + patched;
    assert(feature_line(feature) =~= line);
    let lines = report.features.map_values(|feature: FeatureReportSpec| feature_line(feature));
    assert(plan_lines(report, resources)[2 + f] == lines[f]);
}

/// Each message of a report has a line behind the features, in order.
pub proof fn lemma_message_has_its_line(report: ReportSpec, resources: nat, k: int)
    requires
        0 <= k < report.messages.len(),
    ensures
        plan_lines(report, resources)[2 + report.features.len() + k] == "PATCH_MESSAGE="@
            + report.id + " MESSAGE="@ + report.messages[k],
{
    let message = report.messages[k];
    reveal_with_fuel(joined, 5);
    assert(message_line(report.id, message) =~= "PATCH_MESSAGE="@ + report.id + " MESSAGE="@
        + message);
    let lines = report.messages.map_values(|message: Seq<char>| message_line(report.id, message));
    assert(plan_lines(report, resources)[2 + report.features.len() + k] == lines[k]);
}

/// What the user is shown is a heading, the set, and a line for each message.
pub proof fn lemma_report_is_shown(report: ReportSpec, heading: Seq<char>, message: Seq<char>)
    ensures
        report.messages.len() == 0 ==> report_text(report, heading) == heading + "\n"@
            + report.label + " ("@ + report.id + "):"@,
        report_text(
            ReportSpec { messages: report.messages.push(message), ..report },
            heading,
        ) == report_text(report, heading) + "\n- "@ + message,
{
    let line = |message: Seq<char>| "\n- "@ + message;
    let head = seq![heading, "\n"@, report.label, " ("@, report.id, "):"@];
    assert(joined(head) =~= heading + "\n"@ + report.label + " ("@ + report.id + "):"@) by {
        reveal_with_fuel(joined, 7);
    }
    let lines = report.messages.map_values(line);
    if report.messages.len() == 0 {
        assert(joined(lines) =~= Seq::<char>::empty());
    }
    let longer = report.messages.push(message).map_values(line);
    assert(longer.drop_last() =~= lines);
    assert(longer.last() == "\n- "@ + message);
    assert(joined(longer) == joined(lines) + ("\n- "@ + message));
    let more = ReportSpec { messages: report.messages.push(message), ..report };
    assert(report_text(more, heading) =~= report_text(report, heading) + "\n- "@ + message);
}

// ---------------------------------------------------------------------------
// Exit codes, times and locks

/// An application that ended by itself is reported with its code, one that a signal ended with
/// the signal above 128, and one of which nothing is known as stopped.
pub proof fn lemma_exit_is_reported(code: i32, signal: i32)
    requires
        code >= 0,
        signal >= 0,
    ensures
        reported_code(Some(code), None) == code,
        reported_code(Some(code), Some(signal)) == code,
        reported_code(None, Some(signal)) == 128 + signal,
        reported_code(None, None) == 49_374,
        code > 0 ==> reported_code(Some((-code) as i32), Some(signal)) == 128 + signal
            && reported_code(Some((-code) as i32), None) == 49_374,
{
}

/// A poll is as long as the time that is left, in whole milliseconds, but never none where some
/// time is left, and never longer than a poll can be.
pub proof fn lemma_poll_is_as_long_as_is_left(nanos: u128)
    ensures
        poll_millis(nanos) == 0 <==> nanos == 0,
        0 < nanos < 1_000_000 ==> poll_millis(nanos) == 1,
        1_000_000 <= nanos && nanos / 1_000_000 <= 2_147_483_647 ==> poll_millis(nanos) * 1_000_000
            <= nanos < (poll_millis(nanos) + 1) * 1_000_000,
        nanos / 1_000_000 > 2_147_483_647 ==> poll_millis(nanos) == 2_147_483_647,
{
}

/// The name of a lock holds letters and digits of ASCII, points, underscores and hyphens, and at
/// least one of them.
pub proof fn lemma_lock_names(value: Seq<char>, c: char)
    ensures
        !is_lock_identifier(Seq::empty()),
        is_lock_identifier(seq![c]) <==> 'a' <= c && c <= 'z' || 'A' <= c && c <= 'Z' || '0' <= c
            && c <= '9' || c == '.' || c == '_' || c == '-',
        value.len() > 0 ==> (is_lock_identifier(value.push(c)) <==> is_lock_identifier(value)
            && is_lock_identifier(seq![c])),
{
    assert(seq![c][0] == c);
    if value.len() > 0 {
        let longer = value.push(c);
        if is_lock_identifier(longer) {
            assert(longer[value.len() as int] == c);
            assert forall|i: int| 0 <= i < value.len() implies crate::platform::process::is_lock_char(
                #[trigger] value[i],
            ) by {
                assert(longer[i] == value[i]);
            }
        }
        if is_lock_identifier(value) && is_lock_identifier(seq![c]) {
            assert(crate::platform::process::is_lock_char(seq![c][0]));
            assert forall|i: int| 0 <= i < longer.len() implies crate::platform::process::is_lock_char(
                #[trigger] longer[i],
            ) by {
                if i < value.len() {
                    assert(longer[i] == value[i]);
                }
            }
        }
    }
}

} // verus!
