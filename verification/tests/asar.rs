use codex_fast::asar::archive::{
    flatten_files, header_json, index_header, read_packed_file, u32_le, validate_entry_name,
    AsarFile, ReadOnlyAsarArchive,
};
use codex_fast::asar::error::AsarError;
use codex_fast::asar::request_paths::resource_request_paths;
use codex_fast::asar::{
    ensure_patch_targets_packed, is_scannable_entry, plan_archive, plan_patches,
    verify_plan_snapshots, IdentityFile,
};
use codex_fast::digest::sha256_hex_bytes;
use codex_fast::js_tokens::Tokens;
use codex_fast::json::{parse_json, Json};
use codex_fast::patch::planner::PatchStatus;
use codex_fast::patch::{Detector, Edit, Feature, FeatureRole, PatchSet, Site};
use codex_fast::paths::is_javascript_path;

fn file(path: &str) -> AsarFile {
    AsarFile {
        path: path.to_owned(),
        size: 0,
        offset: 0,
        unpacked: false,
        integrity_hash: None,
    }
}

fn object(members: Vec<(&str, Json)>) -> Json {
    Json::Object(
        members
            .into_iter()
            .map(|(key, value)| (key.to_owned(), value))
            .collect(),
    )
}

fn text(value: &str) -> Json {
    Json::Text(value.to_owned())
}

#[test]
fn rejects_header_pickle_lengths_that_wrap_a_u32() {
    // Both `payload_size + 4` and `8 + json_size` wrap to 0, which clears all three
    // checks and leaves a json_end of 2^32 pointing past an 8-byte pickle.
    let mut pickle = (u32::MAX - 3).to_le_bytes().to_vec();
    pickle.extend_from_slice(&(u32::MAX - 7).to_le_bytes());

    let error = header_json(&pickle).unwrap_err();

    assert!(error
        .message()
        .contains("invalid ASAR header pickle lengths"));
}

#[test]
fn accepts_a_well_formed_header_pickle() {
    let mut pickle = 8u32.to_le_bytes().to_vec();
    pickle.extend_from_slice(&4u32.to_le_bytes());
    pickle.extend_from_slice(b"null");

    assert_eq!(header_json(&pickle).unwrap(), b"null");
}

#[test]
fn rejects_entry_bounds_that_wrap_a_u64() {
    let data_offset = 24u64;
    for child in [
        object(vec![
            ("size", Json::Unsigned(u64::MAX - data_offset + 1)),
            ("offset", text("0")),
        ]),
        object(vec![
            ("size", Json::Unsigned(1)),
            ("offset", text(&u64::MAX.to_string())),
        ]),
    ] {
        let header = object(vec![("files", object(vec![("a.js", child)]))]);
        let mut files = Vec::new();

        let error = flatten_files(&header, "", 4096, data_offset, &mut files).unwrap_err();

        assert!(error.message().contains("extends past the archive"));
    }
}

#[test]
fn recognizes_only_supported_renderer_javascript_paths() {
    assert!(is_javascript_path("assets/settings-abc.js"));
    assert!(is_javascript_path("assets/settings-abc.JS"));
    assert!(is_javascript_path(".vite/build/settings-abc.js"));
    assert!(is_javascript_path("static/js/nested/settings-abc.js"));

    assert!(!is_javascript_path("assets/.js"));
    assert!(!is_javascript_path("assets/settings.css"));
}

#[test]
fn rejects_unpacked_patch_targets_without_a_snapshot() {
    let mut unpacked = file("assets/settings.js");
    unpacked.unpacked = true;

    let error = ensure_patch_targets_packed(&[unpacked], &["assets/settings.js".to_owned()])
        .unwrap_err();

    assert!(error.message().contains("not snapshot-safe"));
}

#[test]
fn derives_the_shortest_globally_unique_resource_suffix() {
    let files = [
        "future/static/js/settings.js",
        "future/chunks/composer.js",
        "other/settings.js",
    ]
    .into_iter()
    .map(file)
    .collect::<Vec<_>>();
    let targets = vec![
        "future/static/js/settings.js".to_owned(),
        "future/chunks/composer.js".to_owned(),
    ];

    let paths = resource_request_paths(&files, &targets).ok().unwrap();

    assert_eq!(paths.get(&targets[0]).unwrap().members(), vec!["js/settings.js"]);
    assert_eq!(paths.get(&targets[1]).unwrap().members(), vec!["composer.js"]);
}

#[test]
fn derives_renderer_relative_paths_despite_backend_suffix_collisions() {
    let target = "webview/assets/settings.JS".to_owned();

    for html_path in ["webview/shell.HTML", "webview/.HTML"] {
        let files = [
            html_path,
            "webview/assets/settings.JS",
            "backend/webview/assets/settings.JS",
        ]
        .into_iter()
        .map(file)
        .collect::<Vec<_>>();

        let paths = resource_request_paths(&files, std::slice::from_ref(&target))
            .ok()
            .unwrap();

        assert_eq!(paths.get(&target).unwrap().members(), vec!["assets/settings.JS"]);
    }
}

#[test]
fn rejects_request_paths_shared_through_nested_renderer_roots() {
    let files = [
        "index.html",
        "webview/index.html",
        "webview/assets/app.js",
        "webview/webview/assets/app.js",
    ]
    .into_iter()
    .map(file)
    .collect::<Vec<_>>();
    let targets = vec![
        "webview/assets/app.js".to_owned(),
        "webview/webview/assets/app.js".to_owned(),
    ];

    let error = resource_request_paths(&files, &targets).err().unwrap();

    assert!(error.message().contains("ambiguous request path"));
}

#[test]
fn a_target_without_any_request_path_is_refused() {
    let files = [file("a b/x.js"), file("c d/x.js")];
    let error = resource_request_paths(&files, &["a b/x.js".to_owned()])
        .err()
        .unwrap();
    assert!(matches!(error, AsarError::NoRequestPath { .. }));
}

#[test]
fn a_missing_target_is_refused() {
    let error = ensure_patch_targets_packed(&[], &["a.js".to_owned()]).unwrap_err();
    assert!(matches!(error, AsarError::MissingTarget { .. }));
    assert!(ensure_patch_targets_packed(&[file("a.js")], &["a.js".to_owned()]).is_ok());
}

fn archive_of(header: &str, data: &[u8]) -> Vec<u8> {
    let mut json = header.as_bytes().to_vec();
    while json.len() % 4 != 0 {
        json.push(b' ');
    }
    let mut archive = 4u32.to_le_bytes().to_vec();
    archive.extend_from_slice(&(json.len() as u32 + 8).to_le_bytes());
    archive.extend_from_slice(&(json.len() as u32 + 4).to_le_bytes());
    archive.extend_from_slice(&(json.len() as u32).to_le_bytes());
    archive.extend_from_slice(&json);
    archive.extend_from_slice(data);
    archive
}

#[test]
fn indexes_and_reads_packed_files() {
    let archive = archive_of(
        r#"{"files":{"dir":{"files":{"a.js":{"size":3,"offset":"2"}}},"b.js":{"size":2,"offset":"0"},"c.js":{"size":9,"unpacked":true},"l":{"link":"b.js"}}}"#,
        b"hiold",
    );
    let index = ReadOnlyAsarArchive::open(&archive).ok().unwrap();
    let a = index
        .files
        .iter()
        .find(|file| file.path == "dir/a.js")
        .unwrap();
    assert_eq!(
        read_packed_file(&archive, index.data_offset, a).unwrap(),
        b"old"
    );
    assert!(is_scannable_entry(a));
    let unpacked = index.files.iter().find(|file| file.path == "c.js").unwrap();
    assert!(unpacked.unpacked);
    assert!(!is_scannable_entry(unpacked));
    assert!(index.files.iter().all(|file| file.path != "l"));
}

#[test]
fn refuses_archives_that_are_not_what_they_say() {
    assert!(matches!(
        ReadOnlyAsarArchive::open(b"short").err(),
        Some(AsarError::TooShort)
    ));
    let mut archive = archive_of(r#"{"files":{}}"#, b"");
    archive[0] = 5;
    assert!(matches!(
        ReadOnlyAsarArchive::open(&archive).err(),
        Some(AsarError::UnsupportedSizePickle)
    ));
    let mut archive = archive_of(r#"{"files":{}}"#, b"");
    archive[4] = 0xff;
    assert!(matches!(
        ReadOnlyAsarArchive::open(&archive).err(),
        Some(AsarError::InvalidHeaderSize { .. }) | Some(AsarError::TooShort)
    ));
    let archive = archive_of("not json", b"");
    let error = ReadOnlyAsarArchive::open(&archive).err().unwrap();
    assert!(matches!(error, AsarError::InvalidHeaderJson { .. }));
    assert_eq!(
        error.message(),
        "invalid ASAR header JSON: expected ident at line 1 column 2"
    );
    let archive = archive_of("{}", b"");
    assert!(matches!(
        ReadOnlyAsarArchive::open(&archive).err(),
        Some(AsarError::MissingFiles { .. })
    ));
}

#[test]
fn refuses_entries_that_are_not_what_they_say() {
    for (header, part) in [
        (r#"{"files":{"..":{"size":0,"offset":"0"}}}"#, "name"),
        (r#"{"files":{"a/b":{"size":0,"offset":"0"}}}"#, "name"),
        (r#"{"files":{"a":{"size":-1,"offset":"0"}}}"#, "size"),
        (r#"{"files":{"a":{"size":1}}}"#, "offset"),
        (r#"{"files":{"a":{"size":1,"offset":"x"}}}"#, "offset"),
        (r#"{"files":{"a":{"size":1,"offset":"8"}}}"#, "extends past the archive"),
    ] {
        let header = parse_json(header).unwrap();
        let error = index_header(&header, 8, 0).unwrap_err();
        assert!(error.message().contains(part), "{}", error.message());
    }
    for (offset, cause) in [
        ("x", "invalid digit found in string"),
        ("", "cannot parse integer from empty string"),
        (
            "18446744073709551616",
            "number too large to fit in target type",
        ),
    ] {
        let header = format!(r#"{{"files":{{"a":{{"size":1,"offset":"{offset}"}}}}}}"#);
        let error = index_header(&parse_json(&header).unwrap(), 8, 0).unwrap_err();
        assert_eq!(
            error.message(),
            format!("invalid ASAR offset for a: {cause}")
        );
    }
    let error = AsarError::EntryTooLarge {
        path: "a".to_owned(),
        cause: "c".to_owned(),
    };
    assert_eq!(
        error.message(),
        "read ASAR entry a: ASAR entry is too large to read: a: c"
    );
    assert!(validate_entry_name("a.js", "dir").is_ok());
    assert!(validate_entry_name("", "dir").is_err());
}

#[test]
fn checks_the_digest_of_an_entry() {
    let mut entry = file("a.js");
    entry.size = 3;
    entry.integrity_hash = Some(sha256_hex_bytes(b"old"));
    assert_eq!(read_packed_file(b"old", 0, &entry).unwrap(), b"old");
    assert!(matches!(
        read_packed_file(b"new", 0, &entry),
        Err(AsarError::EntryCorrupt { .. })
    ));
}

#[test]
fn reads_little_endian_numbers() {
    assert_eq!(u32_le(&[9, 1, 2, 3, 4], 1), 0x0403_0201);
}

struct OldToNew;

impl Detector for OldToNew {
    fn detect(&self, tokens: &Tokens<'_>) -> Vec<Site> {
        (0..tokens.len())
            .filter(|&index| matches!(tokens.text(index), "old" | "new"))
            .map(|index| {
                let range = tokens.span(index);
                let edits = if tokens.text(index) == "old" {
                    vec![Edit {
                        range: range.clone(),
                        replacement: "new".to_owned(),
                    }]
                } else {
                    Vec::new()
                };
                Site { range, edits }
            })
            .collect()
    }
}

fn test_set() -> PatchSet<OldToNew> {
    PatchSet {
        id: "set",
        label: "Set",
        features: vec![Feature {
            id: "core",
            label: "Core",
            role: FeatureRole::Core,
            anchors: &[],
            detector: OldToNew,
        }],
    }
}

#[test]
fn plans_the_sources_of_an_archive() {
    let archive = archive_of(
        r#"{"files":{"index.html":{"size":0,"offset":"0"},"assets":{"files":{"app.js":{"size":3,"offset":"0"},"x.js":{"size":1,"offset":"3"}}}}}"#,
        b"old;",
    );
    let identity = vec![IdentityFile {
        label: "manifest",
        content: b"identity".to_vec(),
    }];
    let plan = plan_archive(&test_set(), &archive, &identity).ok().unwrap();
    assert_eq!(plan.patch_set.status, PatchStatus::Complete);
    assert_eq!(plan.resources.len(), 1);
    assert_eq!(plan.resources[0].archive_path, "assets/app.js");
    assert_eq!(plan.resources[0].patched_content, "new");
    assert_eq!(
        plan.resources[0].request_paths.members(),
        vec!["app.js", "assets/app.js"]
    );
    assert!(plan.resources[0].required_for_ready);

    let contents = vec![archive.clone(), b"identity".to_vec()];
    assert!(verify_plan_snapshots(&plan, &contents).is_ok());
    let changed = vec![archive, b"other".to_vec()];
    let error = verify_plan_snapshots(&plan, &changed).unwrap_err();
    assert!(matches!(error, AsarError::Changed { .. }));
    assert!(error.message().contains("manifest"));
    // Each file of the plan is looked at.
    let changed = vec![b"other".to_vec(), b"identity".to_vec()];
    assert!(verify_plan_snapshots(&plan, &changed)
        .unwrap_err()
        .message()
        .contains("app.asar"));
}

#[test]
fn an_archive_without_the_features_is_unsafe() {
    let archive = archive_of(r#"{"files":{"a.js":{"size":1,"offset":"0"}}}"#, b";");
    let plan = plan_patches(&archive, &Vec::new()).ok().unwrap();
    assert_eq!(plan.patch_set.status, PatchStatus::Unsafe);
    assert!(plan.resources.is_empty());
}

#[test]
fn digests_are_written_in_lower_hex() {
    assert_eq!(
        sha256_hex_bytes(b"abc"),
        "ba7816bf8f01cfea414140de5dae2223b00361a396177a9cb410ff61f20015ad"
    );
}
