use maven_uploader::downloader::{
    absolute_path, default_server_repo, dry_run_report, maven_arguments, maven_choice,
    maven_compatible_path, maven_probe, resolve_maven, run_download, settings_document,
    settings_file_name, DownloadArgs, DownloadMode, MavenChoice,
};
use maven_uploader::paths;
use maven_uploader::platform::Platform;
use maven_uploader::xml::xml_escape;

#[test]
fn resolves_relative_download_repo_against_workdir() {
    assert_eq!(absolute_path("repo", "/tmp/project", Platform::Unix), "/tmp/project/repo");
    assert_eq!(absolute_path("/tmp/repo", "/tmp/project", Platform::Unix), "/tmp/repo");
}

#[test]
fn uses_explicit_maven_path_when_given() {
    assert_eq!(resolve_maven(Some("maven"), "/tmp/project", Platform::Unix, false), "maven");
    assert_eq!(resolve_maven(Some("maven"), "/tmp/project", Platform::Unix, true), "maven");
}

#[test]
fn escapes_settings_values() {
    assert_eq!(xml_escape("a&<b>\"'"), "a&amp;&lt;b&gt;&quot;&apos;");
}

#[test]
fn removes_windows_extended_path_prefix_for_maven() {
    assert_eq!(
        maven_compatible_path(r"\\?\C:\code\maven-repo", Platform::Windows),
        r"C:\code\maven-repo"
    );
    assert_eq!(
        maven_compatible_path(r"\\?\UNC\server\share\maven-repo", Platform::Windows),
        r"\\server\share\maven-repo"
    );
}

#[test]
fn keeps_other_paths_for_maven() {
    assert_eq!(maven_compatible_path(r"C:\code", Platform::Windows), r"C:\code");
    assert_eq!(maven_compatible_path(r"\\?\C:\code", Platform::Unix), r"\\?\C:\code");
    assert_eq!(maven_compatible_path("/tmp/repo", Platform::Unix), "/tmp/repo");
}

#[test]
fn joins_paths_with_one_slash() {
    assert_eq!(paths::join("/a", "b/c", Platform::Unix), "/a/b/c");
    assert_eq!(paths::join("/a/", "b", Platform::Unix), "/a/b");
    assert_eq!(paths::join("", "b", Platform::Unix), "b");
    assert_eq!(paths::join("/a", "", Platform::Unix), "/a/");
    assert_eq!(paths::join("/a", "/b", Platform::Unix), "/b");
    assert!(paths::is_absolute("/", Platform::Unix));
    assert!(!paths::is_absolute("a/b", Platform::Unix));
    assert!(!paths::is_absolute("", Platform::Unix));
}

#[test]
fn tells_paths_with_a_directory() {
    assert!(paths::names_directory("./mvn", Platform::Unix));
    assert!(paths::names_directory("bin/mvn", Platform::Unix));
    assert!(paths::names_directory("a//b", Platform::Unix));
    assert!(!paths::names_directory("mvn", Platform::Unix));
    assert!(!paths::names_directory("mvn/", Platform::Unix));
    assert!(!paths::names_directory("mvn/.", Platform::Unix));
    assert!(!paths::names_directory(".", Platform::Unix));
    assert!(!paths::names_directory("", Platform::Unix));
}

#[test]
fn looks_for_a_configured_maven_below_the_project() {
    assert_eq!(resolve_maven(Some("bin/mvn"), "/p", Platform::Unix, true), "/p/bin/mvn");
    assert_eq!(resolve_maven(Some("bin/mvn"), "/p", Platform::Unix, false), "bin/mvn");
    assert_eq!(resolve_maven(Some("/opt/mvn"), "/p", Platform::Unix, true), "/opt/mvn");
    assert!(paths::is_bare("/opt/mvn", Platform::Unix));
    assert!(paths::is_bare("mvn", Platform::Unix));
    assert!(!paths::is_bare("./mvn", Platform::Unix));
    assert_eq!(
        maven_probe(Some(r"tools\mvn.cmd"), false, Platform::Windows).as_deref(),
        Some(r"tools\mvn.cmd")
    );
    assert_eq!(maven_probe(Some("mvn"), true, Platform::Unix), None);
}

fn chosen(
    configured: Option<&str>,
    bare: bool,
    platform: Platform,
    is_file: bool,
) -> Option<String> {
    match maven_choice(configured, bare, platform, is_file) {
        MavenChoice::Below(path) => Some(format!("below: {}", path)),
        MavenChoice::Named(name) => Some(name),
    }
}

#[test]
fn chooses_by_what_the_project_holds() {
    let tool = r"tools\mvn.cmd";
    assert_eq!(
        chosen(Some(tool), false, Platform::Windows, true).unwrap(),
        format!("below: {}", tool)
    );
    assert_eq!(chosen(Some(tool), false, Platform::Windows, false).as_deref(), Some(tool));
    assert_eq!(chosen(Some("mvn"), true, Platform::Unix, true).as_deref(), Some("mvn"));
    assert_eq!(chosen(None, false, Platform::Unix, true).as_deref(), Some("below: mvnw"));
    assert_eq!(chosen(None, false, Platform::Windows, true).as_deref(), Some("below: mvnw.cmd"));
    assert_eq!(chosen(None, false, Platform::Unix, false).as_deref(), Some("mvn"));
    assert_eq!(chosen(None, false, Platform::Windows, false).as_deref(), Some("mvn.cmd"));
}

#[test]
fn prefers_the_wrapper_of_the_project() {
    assert_eq!(maven_probe(None, false, Platform::Unix).as_deref(), Some("mvnw"));
    assert_eq!(maven_probe(None, false, Platform::Windows).as_deref(), Some("mvnw.cmd"));
    assert_eq!(resolve_maven(None, "/p", Platform::Unix, true), "/p/mvnw");
    assert_eq!(resolve_maven(None, "/p", Platform::Unix, false), "mvn");
}

#[test]
fn finds_the_repository_of_the_user() {
    assert_eq!(default_server_repo(Some("/home/user"), Platform::Unix), "/home/user/.m2/repository");
    assert_eq!(default_server_repo(None, Platform::Unix), ".m2/repository");
}

#[test]
fn settings_send_everything_to_the_mirror() {
    let settings = settings_document("http://127.0.0.1:1/?a&b");
    assert!(settings.starts_with("<?xml version=\"1.0\" encoding=\"UTF-8\"?>\n<settings "));
    assert!(settings.contains("      <url>http://127.0.0.1:1/?a&amp;b</url>\n"));
    assert!(settings.contains("      <mirrorOf>*</mirrorOf>\n"));
    assert!(settings.ends_with("  </mirrors>\n</settings>\n"));
    assert_eq!(settings_file_name(12, 345), "maven-uploader-settings-12-345.xml");
}

fn args(upstreams: &[&str]) -> DownloadArgs {
    DownloadArgs {
        workdir: ".".to_string(),
        download_repo: "maven-repo".to_string(),
        server_repo: "/srv/repo".to_string(),
        upstreams: upstreams.iter().map(|u| u.to_string()).collect(),
        maven: None,
        maven_args: vec!["-DskipTests".to_string()],
        dry_run: true,
    }
}

#[test]
fn plans_a_mirror_on_the_loopback_address() {
    let plan = run_download(&args(&["https://a", "https://b"]), "/p", true, Platform::Unix).unwrap();
    assert_eq!(plan.download_repo, "/p/maven-repo");
    match plan.mode {
        DownloadMode::Show(mirror) => {
            assert_eq!(mirror.root, "/srv/repo");
            assert_eq!(mirror.host, "127.0.0.1");
            assert_eq!(mirror.port, 0);
            assert_eq!(mirror.upstreams, vec!["https://a", "https://b"]);
        }
        _ => panic!("not shown"),
    }
}

#[test]
fn runs_the_build_unless_it_is_a_dry_run() {
    let mut wet = args(&["https://a"]);
    wet.dry_run = false;
    wet.server_repo = "srv".to_string();
    match run_download(&wet, "/p", true, Platform::Unix).unwrap().mode {
        DownloadMode::Run(mirror) => assert_eq!(mirror.root, "/p/srv"),
        _ => panic!("not run"),
    }
}

#[test]
fn a_download_needs_a_directory_and_an_upstream() {
    assert_eq!(
        run_download(&args(&["https://a"]), "/p/pom.xml", false, Platform::Unix).unwrap_err(),
        "Maven 运行路径不是目录: /p/pom.xml"
    );
    match run_download(&args(&[]), "/p", true, Platform::Unix).unwrap().mode {
        DownloadMode::Refuse(reason) => assert_eq!(reason, "至少需要一个 --upstream 上游仓库"),
        _ => panic!("not refused"),
    }
}

#[test]
fn calls_maven_for_a_full_build() {
    assert_eq!(
        maven_arguments("/tmp/s.xml", "/p/repo", &vec!["-q".to_string()], Platform::Unix),
        vec!["--settings", "/tmp/s.xml", "clean", "package", "-Dmaven.repo.local=/p/repo", "-q"]
    );
}

#[test]
fn a_dry_run_shows_what_would_be_done() {
    assert_eq!(
        dry_run_report(&args(&["https://a", "https://b"]), "/p", "/p/maven-repo", "http://x/"),
        vec![
            "工作目录: /p",
            "依赖下载目录: /p/maven-repo",
            "Mirror 仓库: /srv/repo",
            "Mirror URL: http://x/",
            "上游仓库: https://a, https://b",
        ]
    );
}

fn windows(base: &str, path: &str) -> String {
    paths::join(base, path, Platform::Windows)
}

#[test]
fn joins_paths_of_windows() {
    assert_eq!(windows(r"C:\p", "repo"), r"C:\p\repo");
    assert_eq!(windows(r"C:\p", "a/b"), r"C:\p\a/b");
    assert_eq!(windows(r"C:\p\", "repo"), r"C:\p\repo");
    assert_eq!(windows("C:/p/", "repo"), "C:/p/repo");
    assert_eq!(windows(r"C:\p", r"D:\repo"), r"D:\repo");
    assert_eq!(windows(r"C:\p", "D:repo"), "D:repo");
    assert_eq!(windows(r"C:\p", r"\repo"), r"C:\repo");
    assert_eq!(windows(r"C:\p", r"\\srv\share\x"), r"\\srv\share\x");
    assert_eq!(windows(r"\\srv\share\p", r"\x"), r"\\srv\share\x");
    assert_eq!(windows("C:", "x"), "C:x");
    assert_eq!(windows("p", r"\x"), r"\x");
    assert_eq!(windows("", "x"), "x");
    assert_eq!(absolute_path(r"D:\repo", r"C:\project", Platform::Windows), r"D:\repo");
}

#[test]
fn verbatim_paths_are_joined_without_dots() {
    assert_eq!(windows(r"\\?\C:\p", r".\a/..\b"), r"\\?\C:\p\b");
    assert_eq!(windows(r"\\?\C:\p", r"..\..\..\x"), r"\\?\C:\x");
    assert_eq!(windows(r"\\?\C:\p", r"\x"), r"\\?\C:\x");
    assert_eq!(windows(r"\\?\C:\p", ".."), r"\\?\C:\");
    assert_eq!(windows(r"\\?\C:\p\", "x"), r"\\?\C:\p\x");
    assert_eq!(windows(r"\\?\C:\p", ""), r"\\?\C:\p\");
    assert_eq!(windows(r"\\?\UNC\srv\share\p", r"..\..\x"), r"\\?\UNC\srv\share\x");
    assert_eq!(windows(r"\\?\C:\p", r"D:\x"), r"D:\x");
}

#[test]
fn tells_absolute_paths_of_windows() {
    for path in [r"C:\x", "c:/x", r"\\srv\share", r"\\?\C:\x", r"\\.\COM1", "//srv/share/x"] {
        assert!(paths::is_absolute(path, Platform::Windows), "{}", path);
    }
    for path in ["C:x", "C:", r"\x", "/x", "x", "", r"\\srv", "1:/x"] {
        assert!(!paths::is_absolute(path, Platform::Windows), "{}", path);
    }
}

#[test]
fn tells_bare_names_on_windows() {
    for path in ["mvn.cmd", r"mvn.cmd\", ".", "C:", r"\", "", r"C:\m\mvn.cmd"] {
        assert!(paths::is_bare(path, Platform::Windows), "{}", path);
    }
    for path in [r"tools\mvn.cmd", "tools/mvn.cmd", r".\mvn.cmd", "C:mvn.cmd", r"\mvn.cmd"] {
        assert!(!paths::is_bare(path, Platform::Windows), "{}", path);
    }
}

#[test]
fn resolves_maven_on_windows() {
    let base = r"C:\p";
    assert_eq!(
        resolve_maven(Some(r"tools\mvn.cmd"), base, Platform::Windows, true),
        r"C:\p\tools\mvn.cmd"
    );
    assert_eq!(resolve_maven(None, base, Platform::Windows, true), r"C:\p\mvnw.cmd");
    assert_eq!(resolve_maven(None, base, Platform::Windows, false), "mvn.cmd");
    assert_eq!(
        default_server_repo(Some(r"C:\Users\u"), Platform::Windows),
        r"C:\Users\u\.m2/repository"
    );
}
