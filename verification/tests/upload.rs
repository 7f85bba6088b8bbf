use maven_uploader::upload::{
    after_record, after_remote, after_send, base_url, begin_upload, extract_full_artifact,
    is_excluded, is_pom, target_url, ArtifactError, DirectoryEntry, Effect, MavenArtifact, Scanner,
    SendReply, UploadOptions, UploadStep, Visit,
};

fn strings(parts: &[&str]) -> Vec<String> {
    parts.iter().map(|p| p.to_string()).collect()
}

fn entries(names: &[&str]) -> Vec<DirectoryEntry> {
    names.iter().map(|n| DirectoryEntry { name: n.to_string(), is_file: true }).collect()
}

fn options(exclude: &[&str]) -> UploadOptions {
    UploadOptions {
        url: "https://nexus/releases".to_string(),
        snapshot_url: None,
        force: false,
        exclude: strings(exclude),
        max_size: 100,
    }
}

fn artifact() -> MavenArtifact {
    extract_full_artifact(
        Some(&strings(&["org", "x", "lib", "1.0", "lib-1.0.pom"])),
        &entries(&["lib-1.0.pom", "lib-1.0.jar"]),
    )
    .unwrap()
}

#[test]
fn knows_files_that_describe_artifacts() {
    assert!(is_pom("lib-1.0.pom"));
    assert!(is_pom("pom.xml"));
    assert!(is_pom(".pom"));
    assert!(!is_pom("a-pom.xml"));
    assert!(!is_pom("lib-1.0.pom.sha1"));
}

#[test]
fn reads_an_artifact_off_its_path() {
    let artifact = artifact();
    assert_eq!(artifact.group_id, "org.x");
    assert_eq!(artifact.artifact_id, "lib");
    assert_eq!(artifact.version, "1.0");
    assert_eq!(artifact.files.len(), 2);
    assert_eq!(artifact.files[1].entry, 1);
    assert_eq!(artifact.files[1].name, "lib-1.0.jar");
    assert_eq!(artifact.files[1].extension, "jar");
}

#[test]
fn takes_the_files_of_the_artifact_only() {
    let mut all = entries(&[
        "lib-1.0-sources.jar",
        "lib-1.0.jar.lastUpdated",
        "lib-1.0_remote.repositories",
        "_remote.repositories",
        "lib-1.0",
        "lib-1.0.",
        "lib-1.0中x",
        "other-1.0.jar",
        "lib-1.0.jar.sha1",
    ]);
    all.push(DirectoryEntry { name: "lib-1.0.dir".to_string(), is_file: false });
    let path = strings(&["g", "lib", "1.0", "lib-1.0.pom"]);
    let artifact = extract_full_artifact(Some(&path), &all).unwrap();
    let files: Vec<(usize, &str)> =
        artifact.files.iter().map(|f| (f.entry, f.extension.as_str())).collect();
    assert_eq!(files, vec![(0, "sources.jar"), (8, "jar.sha1")]);
}

#[test]
fn an_artifact_needs_room_for_its_coordinates() {
    let error = extract_full_artifact(Some(&strings(&["lib", "1.0", "pom.xml"])), &entries(&[]));
    assert_eq!(error.unwrap_err(), ArtifactError::TooShallow);
    let error = extract_full_artifact(None, &entries(&[]));
    assert_eq!(error.unwrap_err(), ArtifactError::OutsideRoot);
    assert_eq!(ArtifactError::TooShallow.message(), "目录结构太浅");
    assert_eq!(ArtifactError::OutsideRoot.message(), "路径不在根目录下");
}

#[test]
fn leaves_out_what_matches_a_pattern() {
    let sizes = vec![None, None];
    assert_eq!(
        is_excluded(&artifact(), &options(&["zzz", "li", "org"]), &sizes).as_deref(),
        Some("  [🚫] 匹配排除规则 'li': lib")
    );
    assert_eq!(
        is_excluded(&artifact(), &options(&["org.x"]), &sizes).as_deref(),
        Some("  [🚫] 匹配排除规则 'org.x': lib")
    );
    assert!(is_excluded(&artifact(), &options(&[""]), &sizes).is_some());
    assert!(is_excluded(&artifact(), &options(&["LIB"]), &sizes).is_none());
}

#[test]
fn leaves_out_large_binaries() {
    let mebibyte: u64 = 1024 * 1024;
    let just_over = vec![None, Some(100 * mebibyte + 1)];
    assert_eq!(
        is_excluded(&artifact(), &options(&[]), &just_over).as_deref(),
        Some("  [🐘] 跳过大文件: lib")
    );
    let at_limit = vec![None, Some(100 * mebibyte)];
    assert!(is_excluded(&artifact(), &options(&[]), &at_limit).is_none());
    let mut unlimited = options(&[]);
    unlimited.max_size = u64::MAX;
    assert!(is_excluded(&artifact(), &unlimited, &vec![None, Some(u64::MAX)]).is_none());
    let large_pom = vec![Some(1000 * mebibyte), None];
    assert!(is_excluded(&artifact(), &options(&[]), &large_pom).is_none());
}

fn path(name: &str) -> Vec<Vec<u8>> {
    vec![b"repo".to_vec(), name.as_bytes().to_vec()]
}

#[test]
fn queues_every_artifact_once() {
    let mut scanner = Scanner::new();
    let sizes = vec![None, None];
    let none = options(&[]);
    assert!(matches!(
        scanner.visit(path("a"), Err(ArtifactError::TooShallow), &sizes, &none),
        Visit::Skip
    ));
    match scanner.visit(path("a"), Ok(artifact()), &sizes, &none) {
        Visit::Queue(queued) => assert_eq!(queued.artifact_id, "lib"),
        _ => panic!("not queued"),
    }
    assert!(matches!(scanner.visit(path("a"), Ok(artifact()), &sizes, &none), Visit::Repeated));
    assert!(matches!(scanner.visit(path("b"), Ok(artifact()), &sizes, &none), Visit::Queue(_)));
    assert!(matches!(scanner.visit(path("a"), Ok(artifact()), &sizes, &none), Visit::Repeated));
}

#[test]
fn an_excluded_artifact_is_not_remembered() {
    let mut scanner = Scanner::new();
    let sizes = vec![None, None];
    assert!(matches!(
        scanner.visit(path("a"), Ok(artifact()), &sizes, &options(&["lib"])),
        Visit::Excluded(_)
    ));
    assert!(matches!(
        scanner.visit(path("a"), Ok(artifact()), &sizes, &options(&[])),
        Visit::Queue(_)
    ));
}

#[test]
fn routes_snapshots_to_their_own_repository() {
    let mut with_snapshots = options(&[]);
    assert_eq!(base_url("1.0-SNAPSHOT", &with_snapshots), "https://nexus/releases/");
    with_snapshots.snapshot_url = Some("https://nexus/snapshots/".to_string());
    assert_eq!(base_url("1.0-SNAPSHOT", &with_snapshots), "https://nexus/snapshots/");
    assert_eq!(base_url("1.0", &with_snapshots), "https://nexus/releases/");
    assert_eq!(base_url("1.0-snapshot", &with_snapshots), "https://nexus/releases/");
}

#[test]
fn a_file_goes_to_its_place_on_disk() {
    assert_eq!(
        target_url("https://nexus/releases/", &artifact(), "lib-1.0.jar"),
        "https://nexus/releases/org/x/lib/1.0/lib-1.0.jar"
    );
}

fn lines(effects: &Vec<Effect>) -> Vec<String> {
    effects
        .iter()
        .map(|effect| match effect {
            Effect::Record => "record".to_string(),
            Effect::Report(line) => line.clone(),
        })
        .collect()
}

fn finished(step: UploadStep) -> Vec<String> {
    match step {
        UploadStep::Finish(effects) => lines(&effects),
        _ => panic!("not finished"),
    }
}

#[test]
fn force_sends_without_asking() {
    assert!(matches!(begin_upload(true), UploadStep::Send));
    assert!(matches!(begin_upload(false), UploadStep::CheckRecord));
}

#[test]
fn skips_what_is_recorded_unchanged() {
    assert_eq!(finished(after_record(Some(5), 5, "a.jar")), vec!["  [-] 远程(DB)已存在: a.jar"]);
    assert!(matches!(after_record(Some(4), 5, "a.jar"), UploadStep::CheckRemote));
    assert!(matches!(after_record(None, 5, "a.jar"), UploadStep::CheckRemote));
}

#[test]
fn records_what_the_repository_has() {
    assert_eq!(
        finished(after_remote(Some(200), "a.jar")),
        vec!["record", "  [-] 远程已存在: a.jar"]
    );
    assert!(matches!(after_remote(Some(404), "a.jar"), UploadStep::Send));
    assert!(matches!(after_remote(Some(301), "a.jar"), UploadStep::Send));
    assert!(matches!(after_remote(None, "a.jar"), UploadStep::Send));
}

#[test]
fn records_what_was_sent() {
    let created = SendReply::Status(201, "201 Created".to_string(), String::new());
    assert_eq!(
        lines(&after_send(&created, "a.jar", "jar")),
        vec!["  [+] 上传成功: a.jar", "record"]
    );
    assert_eq!(lines(&after_send(&created, "a.jar.sha1", "jar.sha1")), vec!["record"]);
    assert_eq!(lines(&after_send(&created, "a.jar.md5", "jar.md5")), vec!["record"]);
}

#[test]
fn does_not_record_what_failed() {
    let refused = SendReply::Status(403, "403 Forbidden".to_string(), "no".to_string());
    assert_eq!(
        lines(&after_send(&refused, "a.jar", "jar")),
        vec!["  [❌] 失败 (403 Forbidden): a.jar - no"]
    );
    let error = SendReply::Error("timeout".to_string());
    assert_eq!(lines(&after_send(&error, "a.jar", "jar")), vec!["  [!] 网络错误: timeout"]);
}
