use maven_uploader::config::{
    download_args, path, server_args, Config, DownloadConfig, DownloadOptions, ServeConfig,
    ServeOptions, download_needs_home, serve_needs_home,
};
use maven_uploader::platform::Platform;

const HOME: &str = "/home/user";

#[test]
fn expands_home_path() {
    let home = HOME;
    assert_eq!(path("~/repo".into(), Some(home), Platform::Unix), format!("{}/{}", home, "repo"));
}

#[test]
fn expands_only_a_leading_tilde_of_its_own() {
    assert_eq!(path("~".into(), Some(HOME), Platform::Unix), "/home/user");
    assert_eq!(path("~x/repo".into(), Some(HOME), Platform::Unix), "~x/repo");
    assert_eq!(path("/a/~/b".into(), Some(HOME), Platform::Unix), "/a/~/b");
    assert_eq!(path("~//etc".into(), Some(HOME), Platform::Unix), "/etc");
    assert_eq!(path("~/".into(), Some(HOME), Platform::Unix), "/home/user/");
    assert_eq!(path("".into(), Some(HOME), Platform::Unix), "");
}

#[test]
fn keeps_paths_without_a_home() {
    assert_eq!(path("~".into(), None, Platform::Unix), "~");
    assert_eq!(path("~/repo".into(), None, Platform::Unix), "~/repo");
}

fn no_serve_options() -> ServeOptions {
    ServeOptions { dir: None, host: None, port: None, upstreams: Vec::new() }
}

fn no_download_options() -> DownloadOptions {
    DownloadOptions {
        workdir: None,
        download_repo: None,
        server_repo: None,
        upstreams: Vec::new(),
        maven: None,
        maven_args: Vec::new(),
        dry_run: false,
    }
}

#[test]
fn an_empty_file_says_nothing() {
    let config = Config::default();
    assert!(config.serve.is_none());
    assert!(config.download.is_none());
}

#[test]
fn serves_the_repository_of_the_user_by_default() {
    let args = server_args(&no_serve_options(), &ServeConfig::default(), Some(HOME), Platform::Unix);
    assert_eq!(args.root, "/home/user/.m2/repository");
    assert_eq!(args.host, "127.0.0.1");
    assert_eq!(args.port, 8080);
    assert!(args.upstreams.is_empty());
    let args = server_args(&no_serve_options(), &ServeConfig::default(), None, Platform::Unix);
    assert_eq!(args.root, ".m2/repository");
}

#[test]
fn the_command_line_prevails_over_the_file() {
    let file = ServeConfig {
        dir: Some("~/file".to_string()),
        host: Some("0.0.0.0".to_string()),
        port: Some(9000),
        upstreams: Some(vec!["https://file".to_string()]),
    };
    let args = server_args(&no_serve_options(), &file, Some(HOME), Platform::Unix);
    assert_eq!(args.root, "/home/user/file");
    assert_eq!(args.host, "0.0.0.0");
    assert_eq!(args.port, 9000);
    assert_eq!(args.upstreams, vec!["https://file"]);

    let options = ServeOptions {
        dir: Some("/line".to_string()),
        host: Some("localhost".to_string()),
        port: Some(1),
        upstreams: vec!["https://line".to_string(), "https://more".to_string()],
    };
    let args = server_args(&options, &file, Some(HOME), Platform::Unix);
    assert_eq!(args.root, "/line");
    assert_eq!(args.host, "localhost");
    assert_eq!(args.port, 1);
    assert_eq!(args.upstreams, vec!["https://line", "https://more"]);
}

#[test]
fn downloads_into_maven_repo_by_default() {
    let args = download_args(&no_download_options(), &DownloadConfig::default(), Some(HOME), Platform::Unix);
    assert_eq!(args.workdir, ".");
    assert_eq!(args.download_repo, "maven-repo");
    assert_eq!(args.server_repo, "/home/user/.m2/repository");
    assert!(args.upstreams.is_empty());
    assert!(args.maven.is_none());
    assert!(args.maven_args.is_empty());
    assert!(!args.dry_run);
}

#[test]
fn a_download_follows_file_and_command_line() {
    let file = DownloadConfig {
        workdir: Some("~".to_string()),
        download_repo: Some("./repo".to_string()),
        server_repo: Some("~/.m2/repository".to_string()),
        upstreams: Some(vec!["https://repo.example.com/maven2".to_string()]),
        maven: Some("~/bin/mvn".to_string()),
        maven_args: Some(vec!["-DskipTests".to_string()]),
        dry_run: Some(true),
    };
    let args = download_args(&no_download_options(), &file, Some(HOME), Platform::Unix);
    assert_eq!(args.workdir, "/home/user");
    assert_eq!(args.download_repo, "./repo");
    assert_eq!(args.server_repo, "/home/user/.m2/repository");
    assert_eq!(args.upstreams, vec!["https://repo.example.com/maven2"]);
    assert_eq!(args.maven.as_deref(), Some("/home/user/bin/mvn"));
    assert_eq!(args.maven_args, vec!["-DskipTests"]);
    assert!(args.dry_run);

    let mut options = no_download_options();
    options.maven = Some("mvn".to_string());
    options.maven_args = vec!["-q".to_string()];
    options.download_repo = Some("out".to_string());
    let args = download_args(&options, &file, Some(HOME), Platform::Unix);
    assert_eq!(args.maven.as_deref(), Some("mvn"));
    assert_eq!(args.maven_args, vec!["-q"]);
    assert_eq!(args.download_repo, "out");
}

#[test]
fn expands_home_paths_by_the_rules_of_windows() {
    let home = Some(r"C:\Users\u");
    assert_eq!(path("~/repo".into(), home, Platform::Windows), r"C:\Users\u\repo");
    assert_eq!(path("~/C:/repo".into(), home, Platform::Windows), "C:/repo");
    assert_eq!(path("~//repo".into(), home, Platform::Windows), "C:/repo");
    assert_eq!(path("~".into(), home, Platform::Windows), r"C:\Users\u");
}

#[test]
fn asks_for_the_home_directory_where_it_matters() {
    let mut options = no_serve_options();
    let mut file = ServeConfig::default();
    assert!(serve_needs_home(&options, &file));
    file.dir = Some("/srv".to_string());
    assert!(!serve_needs_home(&options, &file));
    file.dir = Some("~/srv".to_string());
    assert!(serve_needs_home(&options, &file));
    options.dir = Some("x".to_string());
    assert!(!serve_needs_home(&options, &file));

    let mut options = no_download_options();
    let mut file = DownloadConfig::default();
    assert!(download_needs_home(&options, &file));
    options.server_repo = Some("x".to_string());
    assert!(!download_needs_home(&options, &file));
    file.maven = Some("~".to_string());
    assert!(download_needs_home(&options, &file));
}
