use maven_uploader::cleanup::{
    collect_files, is_cleanup_file, report_file, run_cleanup, CleanupArgs, WalkEntry,
};

fn entry(name: Option<&str>, is_file: bool) -> WalkEntry {
    WalkEntry { name: name.map(|n| n.to_string()), is_file }
}

#[test]
fn selects_only_maven_state_files() {
    assert!(is_cleanup_file(Some("_remote.repositories")));
    assert!(is_cleanup_file(Some("artifact.pom.lastUpdated")));
    assert!(!is_cleanup_file(Some("artifact.pom")));
    assert!(!is_cleanup_file(Some("artifact.jar")));
}

#[test]
fn a_path_without_a_readable_name_is_no_state_file() {
    assert!(!is_cleanup_file(None));
    assert!(!is_cleanup_file(Some("")));
    assert!(!is_cleanup_file(Some("x_remote.repositories")));
    assert!(is_cleanup_file(Some(".lastUpdated")));
}

fn walk() -> Vec<WalkEntry> {
    vec![
        entry(Some("_remote.repositories"), true),
        entry(Some("_remote.repositories"), false),
        entry(Some("a.jar"), true),
        entry(None, true),
        entry(Some("a.pom.lastUpdated"), true),
        entry(Some("maven-metadata-central.xml"), true),
    ]
}

#[test]
fn collects_state_files_in_the_order_of_the_walk() {
    assert_eq!(collect_files(&walk()), vec![0, 4]);
}

#[test]
fn a_dry_run_deletes_nothing() {
    let args = CleanupArgs { repo: "/repo".to_string(), dry_run: true };
    let plan = run_cleanup(&args, "/repo", true, &walk()).unwrap();
    assert!(!plan.delete);
    assert_eq!(plan.files, vec![0, 4]);
    assert_eq!(plan.summary, "找到 2 个 Maven 状态文件");
    assert_eq!(report_file(&args, "/repo/x"), "将删除: /repo/x");
}

#[test]
fn a_clean_up_reports_what_it_deleted() {
    let args = CleanupArgs { repo: "/repo".to_string(), dry_run: false };
    let plan = run_cleanup(&args, "/repo", true, &walk()).unwrap();
    assert!(plan.delete);
    assert_eq!(plan.summary, "清理 2 个 Maven 状态文件");
    assert_eq!(report_file(&args, "/repo/x"), "已删除: /repo/x");
    let empty = run_cleanup(&args, "/repo", true, &Vec::new()).unwrap();
    assert_eq!(empty.summary, "清理 0 个 Maven 状态文件");
}

#[test]
fn cleans_up_directories_only() {
    let args = CleanupArgs { repo: "a.jar".to_string(), dry_run: false };
    assert_eq!(
        run_cleanup(&args, "/repo/a.jar", false, &Vec::new()).unwrap_err(),
        "Maven 仓库路径不是目录: /repo/a.jar"
    );
}
