use codex_fast::options::Options;
use codex_fast::patch::planner::{FeatureReport, PatchSetReport, PatchStatus};
use codex_fast::patch::FeatureRole;
use codex_fast::asar::CompatibilityPlan;
use codex_fast::platform::frames::{
    after_write, poll_wait, take_pending_message, Inbox, WriteStep, POLL_INTERVAL,
};
use codex_fast::platform::macos::{
    bundle_executable, bundle_identity, bundle_paths, join_path, parse_plistbuddy_output,
    ps_has_executable, PlistInfo,
};
use codex_fast::platform::manifest::{
    application_attributes, is_chatgpt_executable, parse_appx_application_xml, ManifestReading,
    XmlAttribute, XmlItem, XmlScope,
};
use codex_fast::platform::packages::{
    application_user_model_id, counts_as_other, is_same_application, launch_command, list_bytes,
    list_step, newest_package, parse_package_version, windows_path, ListStep,
};
use codex_fast::platform::process::{
    exit_code, is_valid_lock_identifier, launcher_lock_name, poll_timeout, PATCH_ABORT_EXIT_CODE,
};
use codex_fast::platform::wide::{trimmed_wide_to_string, wide};
use codex_fast::report::{judge_plan, patch_plan_lines, Verdict};

#[test]
fn parses_console_and_scan_options() {
    assert_eq!(Options::parse(&Vec::new()), Options::default());
    assert_eq!(
        Options::parse(
            &["--scan", "ignored", "--debug"]
                .into_iter()
                .map(String::from)
                .collect()
        ),
        Options {
            debug: true,
            scan_only: true,
        }
    );
}

#[test]
fn nul_frames_survive_partial_reads_and_keep_following_data() {
    let mut pending = br#"{"id":1"#.to_vec();
    let mut search_start = 0;
    assert!(take_pending_message(&mut pending, &mut search_start)
        .unwrap()
        .is_none());

    pending.extend_from_slice(b"}\0{\"method\":\"ready\"}\0tail");
    assert_eq!(
        take_pending_message(&mut pending, &mut search_start)
            .unwrap()
            .as_deref(),
        Some(r#"{"id":1}"#)
    );
    assert_eq!(
        take_pending_message(&mut pending, &mut search_start)
            .unwrap()
            .as_deref(),
        Some(r#"{"method":"ready"}"#)
    );
    assert_eq!(pending, b"tail");
}

#[test]
fn nul_frame_requires_utf8() {
    let mut pending = vec![0xff, 0];
    let mut search_start = 0;
    assert!(take_pending_message(&mut pending, &mut search_start).is_err());
}

#[test]
fn derives_standard_bundle_paths() {
    let paths = bundle_paths("/Applications/Codex.app");
    assert_eq!(
        paths.info_plist,
        "/Applications/Codex.app/Contents/Info.plist"
    );
    assert_eq!(
        paths.app_asar,
        "/Applications/Codex.app/Contents/Resources/app.asar"
    );
    assert_eq!(
        paths.code_resources,
        "/Applications/Codex.app/Contents/_CodeSignature/CodeResources"
    );
}

#[test]
fn accepts_only_a_bundle_executable_name() {
    let bundle = "/Applications/Codex.app";
    assert_eq!(
        bundle_executable(bundle, "Codex"),
        Some("/Applications/Codex.app/Contents/MacOS/Codex".to_owned())
    );
    assert_eq!(bundle_executable(bundle, "../Codex"), None);
    assert_eq!(bundle_executable(bundle, "helpers/Codex"), None);
    assert_eq!(bundle_executable(bundle, "/tmp/Codex"), None);
}

#[test]
fn parses_plistbuddy_values_in_query_order() {
    let info = parse_plistbuddy_output("com.openai.codex\nCodex\n1.2.3\n456\n").unwrap();
    assert_eq!(info.identifier, "com.openai.codex");
    assert_eq!(info.executable, "Codex");
    assert_eq!(info.version, "1.2.3");
    assert_eq!(info.build, "456");
    assert!(parse_plistbuddy_output("com.openai.codex\nCodex\n").is_err());
}

#[test]
fn matches_only_the_exact_ps_executable_and_honors_exclusion() {
    let ps = "  101 /Applications/Codex.app/Contents/MacOS/Codex --flag
  102 /Applications/Codex.app/Contents/MacOS/CodexHelper --flag
  103 \"/Applications/Codex App.app/Contents/MacOS/Codex App\" --flag
";
    assert!(ps_has_executable(
        ps,
        "/Applications/Codex.app/Contents/MacOS/Codex",
        None
    ));
    assert!(!ps_has_executable(
        ps,
        "/Applications/Codex.app/Contents/MacOS/Codex",
        Some(101)
    ));
    assert!(ps_has_executable(
        ps,
        "/Applications/Codex App.app/Contents/MacOS/Codex App",
        None
    ));
}

#[test]
fn resolves_namespaces_and_attribute_entities() {
    let application = parse_appx_application_xml(
        r#"<p:Package xmlns:p="urn:package" xmlns:a="urn:package">
            <a:Applications>
              <a:Application Id="A&amp;B" Executable="app&#x2f;ChatGPT.exe" />
            </a:Applications>
          </p:Package>"#,
    )
    .unwrap();

    assert_eq!(application.app_id, "A&B");
    assert_eq!(application.executable, "app/ChatGPT.exe");
}

#[test]
fn matches_the_executable_name_not_a_suffix() {
    let application = parse_appx_application_xml(
        r#"<Package><Applications>
              <Application Id="Wrong" Executable="NotChatGPT.exe" />
              <Application Id="Right" Executable="app\ChatGPT.exe" />
            </Applications></Package>"#,
    )
    .unwrap();

    assert_eq!(application.app_id, "Right");
}

#[test]
fn rejects_document_types() {
    let error = parse_appx_application_xml(
        r#"<!DOCTYPE Package><Package><Application Id="App" Executable="ChatGPT.exe" /></Package>"#,
    )
    .unwrap_err();

    assert!(error.message.contains("document type"));
}

// ---------------------------------------------------------------------------
// Manifests

fn manifest_problem(xml: &str) -> String {
    parse_appx_application_xml(xml).unwrap_err().message
}

#[test]
fn says_why_a_manifest_names_no_application() {
    assert_eq!(
        manifest_problem("<Other/>"),
        "AppxManifest.xml root element is not Package"
    );
    assert_eq!(
        manifest_problem("<Package/>"),
        "AppxManifest.xml does not define a ChatGPT.exe application"
    );
    assert_eq!(
        manifest_problem("<Package><x:Application/></Package>"),
        "AppxManifest.xml uses undeclared namespace prefix x"
    );
    assert!(manifest_problem("<Package>").len() > 0);
    assert!(manifest_problem("<Package></Other>").starts_with("parse AppxManifest.xml: "));
    assert!(manifest_problem("<Package><Application Id='a' Id='b'/></Package>")
        .starts_with("parse Application attribute: "));
    assert!(manifest_problem("<Package><Application Id='&nope;'/></Package>")
        .starts_with("decode Application attribute: "));
}

/// A manifest that nests so many elements, with something in the innermost.
fn nested(elements: usize, inside: &str) -> String {
    let application = r#"<Application Id="App" Executable="ChatGPT.exe"/>"#;
    format!(
        "<Package>{application}{}{inside}{}</Package>",
        "<a>".repeat(elements - 1),
        "</a>".repeat(elements - 1)
    )
}

#[test]
fn manifests_nest_as_deep_as_their_reader_counts() {
    for inside in ["", "text", "<!-- <b> -->"] {
        let application = parse_appx_application_xml(&nested(65535, inside)).unwrap();
        assert_eq!(application.app_id, "App");
    }
    assert!(parse_appx_application_xml(&nested(65534, "<b/>")).is_ok());
    for xml in [nested(65535, "<b/>"), nested(65536, "")] {
        assert_eq!(
            manifest_problem(&xml),
            "AppxManifest.xml nests too many elements"
        );
    }
    // What is no whole tag opens nothing.
    let unclosed = nested(65535, "<b c='");
    assert!(manifest_problem(&unclosed).starts_with("parse AppxManifest.xml: "));
}

#[test]
fn an_application_of_another_namespace_does_not_count() {
    let xml = r#"<Package xmlns="urn:a"><Application xmlns="urn:b" Id="x" Executable="ChatGPT.exe"/></Package>"#;
    assert_eq!(
        manifest_problem(xml),
        "AppxManifest.xml does not define a ChatGPT.exe application"
    );
}

#[test]
fn takes_items_one_by_one() {
    let tag = "Application Id=\"a\" Executable=\"CHATGPT.EXE\"";
    let mut reading = ManifestReading::new();
    reading
        .take_item(XmlItem::Start(XmlScope::Unbound, b"p:Package".to_vec(), 9))
        .unwrap();
    reading
        .take_item(XmlItem::Empty(XmlScope::Unbound, tag.as_bytes().to_vec(), 11))
        .unwrap();
    assert_eq!(reading.finish().unwrap().app_id, "a");

    let mut reading = ManifestReading::new();
    assert!(reading.take_item(XmlItem::DocType).is_err());
    assert!(reading.take_item(XmlItem::Other).is_ok());
    assert!(reading.finish().is_err());
}

fn pair(key: &str, value: &str) -> XmlAttribute {
    XmlAttribute::Pair {
        key: key.as_bytes().to_vec(),
        value: value.as_bytes().to_vec(),
    }
}

#[test]
fn an_application_needs_both_its_attributes_once() {
    let both = vec![pair("Id", "a"), pair("Other", "x"), pair("Executable", "b&lt;c")];
    let application = application_attributes(&both).unwrap().unwrap();
    assert_eq!(application.app_id, "a");
    assert_eq!(application.executable, "b<c");
    assert_eq!(application_attributes(&vec![pair("Id", "a")]), Ok(None));
    assert_eq!(
        application_attributes(&vec![pair("Id", "a"), pair("Id", "b")])
            .unwrap_err()
            .message,
        "duplicate Application attribute Id"
    );
    assert_eq!(
        application_attributes(&vec![pair("Executable", "a"), pair("Executable", "b")])
            .unwrap_err()
            .message,
        "duplicate Application attribute Executable"
    );
    assert_eq!(
        application_attributes(&vec![XmlAttribute::Malformed("why".to_owned())])
            .unwrap_err()
            .message,
        "parse Application attribute: why"
    );
}

#[test]
fn the_executable_is_known_by_its_name() {
    assert!(is_chatgpt_executable("ChatGPT.exe"));
    assert!(is_chatgpt_executable("a/b\\chatgpt.EXE"));
    assert!(!is_chatgpt_executable("NotChatGPT.exe"));
    assert!(!is_chatgpt_executable("ChatGPT.exe/"));
    assert!(!is_chatgpt_executable(""));
}

// ---------------------------------------------------------------------------
// Packages

#[test]
fn versions_are_compared_by_number() {
    assert_eq!(parse_package_version("A_1.20.3_x64"), vec![1, 20, 3]);
    assert_eq!(parse_package_version("A"), vec![0]);
    assert_eq!(parse_package_version("A_1.x.+2"), vec![1, 0, 2]);
    let names = ["A_1.9_x", "A_1.10_x", "A_1.10_w", "A_1.2_z"]
        .into_iter()
        .map(String::from)
        .collect::<Vec<_>>();
    assert_eq!(newest_package(&names), Some("A_1.10_x"));
    assert_eq!(newest_package(&Vec::new()), None);
}

#[test]
fn names_and_commands_of_the_application() {
    assert_eq!(application_user_model_id("Family", "App"), "Family!App");
    assert_eq!(windows_path("app/bin/ChatGPT.exe"), "app\\bin\\ChatGPT.exe");
    assert_eq!(windows_path("/a//"), "\\a\\\\");
    assert_eq!(
        launch_command("C:\\a b.exe", 12, 34).unwrap(),
        "\"C:\\a b.exe\" --remote-debugging-pipe --remote-debugging-io-pipes=12,34"
    );
    assert_eq!(launch_command("x", 1 << 32, 0), None);
    assert!(counts_as_other(5, None));
    assert!(!counts_as_other(5, Some(5)));
    assert!(!counts_as_other(0, None));
    assert!(is_same_application(Some("a"), Some("f"), "a", "f"));
    assert!(!is_same_application(Some("a"), None, "a", "f"));
    assert!(!is_same_application(Some("b"), Some("f"), "a", "f"));
}

#[test]
fn process_lists_grow_until_they_have_room() {
    assert_eq!(list_bytes(1024), Some(4096));
    assert_eq!(list_bytes(1 << 30), None);
    assert_eq!(list_step(1024, 4096, 4092), ListStep::Complete(1023));
    assert_eq!(list_step(1024, 4096, 0), ListStep::Complete(0));
    assert_eq!(list_step(1024, 4096, 4096), ListStep::Retry(2048));
    assert_eq!(list_step(usize::MAX, 4, 4), ListStep::TooLarge);
}

#[test]
fn files_are_named_below_their_bundle() {
    let paths = bundle_paths("");
    assert_eq!(paths.info_plist, "Contents/Info.plist");
    assert_eq!(paths.app_asar, "Contents/Resources/app.asar");
    assert_eq!(
        bundle_executable("", "Codex").as_deref(),
        Some("Contents/MacOS/Codex")
    );
}

#[test]
fn wide_texts_are_read_back() {
    for text in ["", "Codex", "你好", "a😀b"] {
        let units = wide(text);
        assert_eq!(units.last(), Some(&0));
        assert_eq!(units[..units.len() - 1], text.encode_utf16().collect::<Vec<_>>()[..]);
        let mut buffer = units.clone();
        buffer.push(65);
        assert_eq!(trimmed_wide_to_string(&buffer), text);
    }
    assert_eq!(trimmed_wide_to_string(&[65, 0xd800, 66]), "A\u{fffd}B");
}

// ---------------------------------------------------------------------------
// Bundles and processes

#[test]
fn paths_are_joined_with_one_slash() {
    assert_eq!(join_path("/a", "b"), "/a/b");
    assert_eq!(join_path("/a/", "b"), "/a/b");
    assert_eq!(join_path("", "b"), "b");
}

#[test]
fn an_executable_name_may_end_with_slashes() {
    assert_eq!(
        bundle_executable("/x", "Codex/").as_deref(),
        Some("/x/Contents/MacOS/Codex")
    );
    assert_eq!(
        bundle_executable("/x", "Codex/./").as_deref(),
        Some("/x/Contents/MacOS/Codex")
    );
    for executable in ["", ".", "..", "./Codex", "Codex/.."] {
        assert_eq!(bundle_executable("/x", executable), None, "{executable}");
    }
}

#[test]
fn a_bundle_is_named_with_its_version() {
    let info = PlistInfo {
        identifier: "com.x".to_owned(),
        executable: "X".to_owned(),
        version: "1.2".to_owned(),
        build: "3".to_owned(),
    };
    assert_eq!(bundle_identity(&info), "com.x 1.2 (3)");
}

#[test]
fn reads_lines_as_the_tools_write_them() {
    assert!(parse_plistbuddy_output("a\r\n b \n\n\tc\nd").is_ok());
    assert_eq!(
        parse_plistbuddy_output("a\nb\nc\nd\ne"),
        Err("PlistBuddy did not return four values")
    );
    assert!(ps_has_executable("7 '/x y' -z\r\n", "/x y", None));
    assert!(ps_has_executable("7 /x", "/x", Some(8)));
    assert!(!ps_has_executable("seven /x\n8\n 9 \n", "/x", None));
    assert!(!ps_has_executable("7 /xy\n", "/x", None));
}

#[test]
fn locks_have_plain_names() {
    assert!(is_valid_lock_identifier("com.openai.codex_1-x"));
    assert!(!is_valid_lock_identifier(""));
    assert!(!is_valid_lock_identifier("a/b"));
    assert!(!is_valid_lock_identifier("é"));
    assert_eq!(launcher_lock_name("a.b").unwrap(), "codex-fast.launch.a.b");
    assert_eq!(launcher_lock_name("a b"), None);
}

#[test]
fn exit_codes_and_signals_are_reported() {
    assert_eq!(exit_code(Some(3), None), 3);
    assert_eq!(exit_code(None, Some(9)), 137);
    assert_eq!(exit_code(Some(-1), Some(9)), 137);
    assert_eq!(exit_code(None, None), PATCH_ABORT_EXIT_CODE);
    assert_eq!(PATCH_ABORT_EXIT_CODE, 0xc0de);
}

#[test]
fn poll_timeouts_are_rounded_up_from_zero() {
    assert_eq!(poll_timeout(0), 0);
    assert_eq!(poll_timeout(1), 1);
    assert_eq!(poll_timeout(25_900_000), 25);
    assert_eq!(poll_timeout(u128::MAX), i32::MAX);
}

#[test]
fn polls_until_the_deadline() {
    assert_eq!(poll_wait(100, 100), None);
    assert_eq!(poll_wait(90, 100), Some(10));
    assert_eq!(poll_wait(0, 100), Some(POLL_INTERVAL));
}

#[test]
fn writes_go_on_until_everything_is_written() {
    assert_eq!(after_write(0, 10, 4), WriteStep::Rest(4));
    assert_eq!(after_write(4, 10, 6), WriteStep::Done);
    assert_eq!(after_write(4, 10, 0), WriteStep::Stalled);
    assert_eq!(after_write(10, 10, 0), WriteStep::Done);
}

#[test]
fn an_inbox_hands_out_whole_messages() {
    let mut inbox = Inbox::new();
    inbox.add_bytes(b"one");
    assert_eq!(inbox.take_message(), Ok(None));
    inbox.add_bytes(b"\0\xff\0two\0");
    assert_eq!(inbox.take_message(), Ok(Some("one".to_owned())));
    assert_eq!(inbox.take_message().unwrap_err().bytes, vec![0xff]);
    assert_eq!(inbox.take_message(), Ok(Some("two".to_owned())));
    assert_eq!(inbox.take_message(), Ok(None));
}

// ---------------------------------------------------------------------------
// Reports

fn report(status: PatchStatus) -> PatchSetReport {
    PatchSetReport {
        id: "set",
        label: "Set",
        status,
        features: vec![FeatureReport {
            id: "core",
            label: "Core thing",
            role: FeatureRole::Core,
            guarded_sites: 2,
            patched_sites: 10,
        }],
        messages: vec!["careful".to_owned()],
    }
}

#[test]
fn a_plan_is_reported_line_by_line() {
    let plan = CompatibilityPlan {
        verification_snapshots: Vec::new(),
        patch_set: report(PatchStatus::Degraded),
        resources: Vec::new(),
    };
    assert_eq!(
        patch_plan_lines(&plan),
        vec![
            "PATCH_STATUS=Degraded",
            "PATCH_SET=set LABEL=Set STATUS=Degraded ON_UNSAFE=BlockLaunch",
            "PATCH_FEATURE=core LABEL=Core thing ROLE=Core GUARDED_SITE_COUNT=2 PATCHED_SITE_COUNT=10",
            "PATCH_MESSAGE=set MESSAGE=careful",
            "RUNTIME_RESOURCE_COUNT=0",
        ]
    );
}

#[test]
fn an_unsafe_plan_is_refused_and_a_degraded_one_warned_of() {
    assert_eq!(
        judge_plan(&report(PatchStatus::Complete), false),
        Verdict::Proceed
    );
    assert_eq!(
        judge_plan(&report(PatchStatus::Degraded), true),
        Verdict::Proceed
    );
    assert_eq!(
        judge_plan(&report(PatchStatus::Degraded), false),
        Verdict::Warn("补丁以降级模式运行：\nSet (set):\n- careful".to_owned())
    );
    assert_eq!(
        judge_plan(&report(PatchStatus::Unsafe), true),
        Verdict::Refuse(
            "补丁规划不安全，已在启动 Codex 前停止：\nSet (set):\n- careful".to_owned()
        )
    );
}
