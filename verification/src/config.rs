//! What the configuration file says, and how it yields to the command line.
use vstd::prelude::*;

use crate::downloader;
use crate::downloader::DownloadArgs;
use crate::paths;
use crate::platform::Platform;
use crate::server::ServerArgs;
use crate::text;

verus! {

/// A configuration file.
#[derive(Debug)]
pub struct Config {
    /// For serving a repository.
    pub serve: Option<ServeConfig>,
    /// For downloading dependencies.
    pub download: Option<DownloadConfig>,
}

/// What a configuration file says of serving a repository.
#[derive(Debug)]
pub struct ServeConfig {
    pub dir: Option<String>,
    pub host: Option<String>,
    pub port: Option<u16>,
    pub upstreams: Option<Vec<String>>,
}

/// What a configuration file says of downloading dependencies.
#[derive(Debug)]
pub struct DownloadConfig {
    pub workdir: Option<String>,
    pub download_repo: Option<String>,
    pub server_repo: Option<String>,
    pub upstreams: Option<Vec<String>>,
    pub maven: Option<String>,
    pub maven_args: Option<Vec<String>>,
    pub dry_run: Option<bool>,
}

impl Default for Config {
    /// A file that says nothing.
    fn default() -> (r: Self)
        ensures
            r.serve is None,
            r.download is None,
    {
        Config { serve: None, download: None }
    }
}

impl Default for ServeConfig {
    /// A section that says nothing.
    fn default() -> (r: Self)
        ensures
            r == (ServeConfig { dir: None, host: None, port: None, upstreams: None }),
    {
        ServeConfig { dir: None, host: None, port: None, upstreams: None }
    }
}

impl Default for DownloadConfig {
    /// A section that says nothing.
    fn default() -> (r: Self)
        ensures
            r == (DownloadConfig {
                workdir: None,
                download_repo: None,
                server_repo: None,
                upstreams: None,
                maven: None,
                maven_args: None,
                dry_run: None,
            }),
    {
        DownloadConfig {
            workdir: None,
            download_repo: None,
            server_repo: None,
            upstreams: None,
            maven: None,
            maven_args: None,
            dry_run: None,
        }
    }
}

/// A path with a leading `~` replaced by the home directory, where it is known.
pub open spec fn expanded(
    value: Seq<char>,
    home: Option<Seq<char>>,
    platform: Platform,
) -> Seq<char> {
    match home {
        Some(home) => if value == "~"@ {
            home
        } else if text::begins(value, "~/"@) {
            paths::path_from(home, value.skip(2), platform)
        } else {
            value
        },
        None => value,
    }
}

/// A path with a leading `~` replaced by the home directory, where it is known.
pub fn path(value: String, home: Option<&str>, platform: Platform) -> (r: String)
    ensures
        r@ == expanded(value@, text::opt_str(home), platform),
{
    proof {
        reveal_strlit("~/");
    }
    match home {
        Some(home) => {
            if text::equals(value.as_str(), "~") {
                return home.to_string();
            }
            if let Some(relative) = text::strip_prefix(value.as_str(), "~/") {
                return paths::join(home, relative.as_str(), platform);
            }
            value
        },
        None => value,
    }
}

/// A path that does not begin with `~` is not changed.
pub proof fn law_other_paths_stand(
    value: Seq<char>,
    home: Option<Seq<char>>,
    platform: Platform,
)
    requires
        value.len() == 0 || value[0] != '~',
    ensures
        expanded(value, home, platform) == value,
{
    reveal_strlit("~");
    reveal_strlit("~/");
    if value.len() >= 2 {
        assert(value.subrange(0, 2)[0] == value[0]);
    }
}

/// The value that holds: that of the command line, or else that of the file, or
/// else the one that is taken by itself.
pub open spec fn chosen<T>(command_line: Option<T>, file: Option<T>, otherwise: T) -> T {
    match command_line {
        Some(value) => value,
        None => match file {
            Some(value) => value,
            None => otherwise,
        },
    }
}

/// The command line prevails over the file, and the file over what is taken by
/// itself.
pub proof fn law_command_line_prevails<T>(command_line: Option<T>, file: Option<T>, otherwise: T)
    ensures
        command_line matches Some(value) ==> chosen(command_line, file, otherwise) == value,
        command_line is None ==> (file matches Some(value) ==> chosen(
            command_line,
            file,
            otherwise,
        ) == value),
        command_line is None && file is None ==> chosen(command_line, file, otherwise) == otherwise,
{
}

/// A path in the file, with its leading `~` replaced.
pub open spec fn file_path(
    value: Option<String>,
    home: Option<Seq<char>>,
    platform: Platform,
) -> Option<Seq<char>> {
    match value {
        Some(value) => Some(expanded(value@, home, platform)),
        None => None,
    }
}

/// The texts in a list that may be absent.
pub open spec fn opt_views(list: Option<Vec<String>>) -> Option<Seq<Seq<char>>> {
    match list {
        Some(list) => Some(text::views(list@)),
        None => None,
    }
}

/// A list on the command line, which says nothing where it is empty.
pub open spec fn given(list: Seq<String>) -> Option<Seq<Seq<char>>> {
    if list.len() > 0 {
        Some(text::views(list))
    } else {
        None
    }
}

fn choose_text(command_line: &Option<String>, file: Option<String>, otherwise: String) -> (r: String)
    ensures
        r@ == chosen(text::opt_view(*command_line), text::opt_view(file), otherwise@),
{
    match command_line {
        Some(value) => value.clone(),
        None => match file {
            Some(value) => value,
            None => otherwise,
        },
    }
}

fn choose_list(command_line: &Vec<String>, file: &Option<Vec<String>>) -> (r: Vec<String>)
    ensures
        text::views(r@) == chosen(given(command_line@), opt_views(*file), seq![]),
{
    if command_line.len() > 0 {
        let list = text::copies(command_line, 0, command_line.len());
        assert(text::views(list@) == text::views(command_line@));
        return list;
    }
    match file {
        Some(list) => {
            let copy = text::copies(list, 0, list.len());
            assert(text::views(copy@) == text::views(list@));
            copy
        },
        None => {
            let none: Vec<String> = Vec::new();
            assert(text::views(none@) == Seq::<Seq<char>>::empty());
            none
        },
    }
}

fn expand(value: &Option<String>, home: Option<&str>, platform: Platform) -> (r: Option<String>)
    ensures
        text::opt_view(r) == file_path(*value, text::opt_str(home), platform),
{
    match value {
        Some(value) => Some(path(value.clone(), home, platform)),
        None => None,
    }
}

/// What the command line says of serving a repository.
#[derive(Debug)]
pub struct ServeOptions {
    pub dir: Option<String>,
    pub host: Option<String>,
    pub port: Option<u16>,
    pub upstreams: Vec<String>,
}

/// The server that the command line and the file ask for: by themselves, the
/// repository of the user, on port 8080 of the loopback address, without
/// upstreams.
pub fn server_args(
    options: &ServeOptions,
    file: &ServeConfig,
    home: Option<&str>,
    platform: Platform,
) -> (r: ServerArgs)
    ensures
        r.root@ == chosen(
            text::opt_view(options.dir),
            file_path(file.dir, text::opt_str(home), platform),
            downloader::server_repo_of(text::opt_str(home), platform),
        ),
        r.host@ == chosen(
            text::opt_view(options.host),
            text::opt_view(file.host),
            "127.0.0.1"@,
        ),
        r.port == chosen(options.port, file.port, 8080),
        text::views(r.upstreams@) == chosen(
            given(options.upstreams@),
            opt_views(file.upstreams),
            seq![],
        ),
{
    let port: u16 = match options.port {
        Some(port) => port,
        None => match file.port {
            Some(port) => port,
            None => 8080,
        },
    };
    let host = match &file.host {
        Some(host) => Some(host.clone()),
        None => None,
    };
    ServerArgs {
        root: choose_text(
            &options.dir,
            expand(&file.dir, home, platform),
            downloader::default_server_repo(home, platform),
        ),
        host: choose_text(&options.host, host, "127.0.0.1".to_string()),
        port,
        upstreams: choose_list(&options.upstreams, &file.upstreams),
    }
}

/// What the command line says of downloading dependencies.
#[derive(Debug)]
pub struct DownloadOptions {
    pub workdir: Option<String>,
    pub download_repo: Option<String>,
    pub server_repo: Option<String>,
    pub upstreams: Vec<String>,
    pub maven: Option<String>,
    pub maven_args: Vec<String>,
    pub dry_run: bool,
}

/// The download that the command line and the file ask for: by themselves, for
/// the project in the current directory, into `maven-repo`, with a mirror of the
/// repository of the user.
pub fn download_args(
    options: &DownloadOptions,
    file: &DownloadConfig,
    home: Option<&str>,
    platform: Platform,
) -> (r: DownloadArgs)
    ensures
        r.workdir@ == chosen(
            text::opt_view(options.workdir),
            file_path(file.workdir, text::opt_str(home), platform),
            "."@,
        ),
        r.download_repo@ == chosen(
            text::opt_view(options.download_repo),
            file_path(file.download_repo, text::opt_str(home), platform),
            "maven-repo"@,
        ),
        r.server_repo@ == chosen(
            text::opt_view(options.server_repo),
            file_path(file.server_repo, text::opt_str(home), platform),
            downloader::server_repo_of(text::opt_str(home), platform),
        ),
        text::views(r.upstreams@) == chosen(
            given(options.upstreams@),
            opt_views(file.upstreams),
            seq![],
        ),
        text::opt_view(r.maven) == if options.maven is Some {
            text::opt_view(options.maven)
        } else {
            file_path(file.maven, text::opt_str(home), platform)
        },
        text::views(r.maven_args@) == chosen(
            given(options.maven_args@),
            opt_views(file.maven_args),
            seq![],
        ),
        r.dry_run == (options.dry_run || file.dry_run == Some(true)),
{
    let maven = match &options.maven {
        Some(maven) => Some(maven.clone()),
        None => expand(&file.maven, home, platform),
    };
    let file_dry_run: bool = match file.dry_run {
        Some(dry_run) => dry_run,
        None => false,
    };
    DownloadArgs {
        workdir: choose_text(&options.workdir, expand(&file.workdir, home, platform), ".".to_string()),
        download_repo: choose_text(
            &options.download_repo,
            expand(&file.download_repo, home, platform),
            "maven-repo".to_string(),
        ),
        server_repo: choose_text(
            &options.server_repo,
            expand(&file.server_repo, home, platform),
            downloader::default_server_repo(home, platform),
        ),
        upstreams: choose_list(&options.upstreams, &file.upstreams),
        maven,
        maven_args: choose_list(&options.maven_args, &file.maven_args),
        dry_run: options.dry_run || file_dry_run,
    }
}

/// The path begins at the home directory.
pub open spec fn names_home(value: Seq<char>) -> bool {
    value == "~"@ || text::begins(value, "~/"@)
}

/// The path that holds depends on the home directory, where `in_home` says that
/// the one that is taken by itself does.
pub open spec fn depends_on_home(
    command_line: Option<String>,
    file: Option<String>,
    in_home: bool,
) -> bool {
    command_line is None && match file {
        Some(value) => names_home(value@),
        None => in_home,
    }
}

fn needs_home(command_line: &Option<String>, file: &Option<String>, in_home: bool) -> (r: bool)
    ensures
        r == depends_on_home(*command_line, *file, in_home),
{
    command_line.is_none() && match file {
        Some(value) => text::equals(value.as_str(), "~") || text::starts_with(
            value.as_str(),
            "~/",
        ),
        None => in_home,
    }
}

/// Whether the home directory makes a difference to a server.
pub fn serve_needs_home(options: &ServeOptions, file: &ServeConfig) -> (r: bool)
    ensures
        r == depends_on_home(options.dir, file.dir, true),
{
    needs_home(&options.dir, &file.dir, true)
}

/// Whether the home directory makes a difference to a download.
pub fn download_needs_home(options: &DownloadOptions, file: &DownloadConfig) -> (r: bool)
    ensures
        r == (depends_on_home(options.workdir, file.workdir, false) || depends_on_home(
            options.download_repo,
            file.download_repo,
            false,
        ) || depends_on_home(options.server_repo, file.server_repo, true) || depends_on_home(
            options.maven,
            file.maven,
            false,
        )),
{
    needs_home(&options.workdir, &file.workdir, false) || needs_home(
        &options.download_repo,
        &file.download_repo,
        false,
    ) || needs_home(&options.server_repo, &file.server_repo, true) || needs_home(
        &options.maven,
        &file.maven,
        false,
    )
}

/// Where a path does not depend on the home directory, it is the same for every
/// home directory.
pub proof fn law_home_makes_no_difference(
    command_line: Option<String>,
    file: Option<String>,
    home: Option<Seq<char>>,
    other: Option<Seq<char>>,
    otherwise: Seq<char>,
    platform: Platform,
)
    ensures
        !depends_on_home(command_line, file, false) ==> chosen(
            text::opt_view(command_line),
            file_path(file, home, platform),
            otherwise,
        ) == chosen(text::opt_view(command_line), file_path(file, other, platform), otherwise),
        !depends_on_home(command_line, file, true) ==> chosen(
            text::opt_view(command_line),
            file_path(file, home, platform),
            downloader::server_repo_of(home, platform),
        ) == chosen(
            text::opt_view(command_line),
            file_path(file, other, platform),
            downloader::server_repo_of(other, platform),
        ),
{
}

/// What a path with a leading tilde stands for.
pub proof fn law_home(rest: Seq<char>, home: Seq<char>, value: Seq<char>, platform: Platform)
    ensures
        expanded("~"@, Some(home), platform) == home,
        expanded("~/"@ + rest, Some(home), platform) == paths::path_from(home, rest, platform),
        expanded(value, None, platform) == value,
        value != "~"@ && !text::begins(value, "~/"@) ==> expanded(value, Some(home), platform)
            == value,
{
    reveal_strlit("~");
    reveal_strlit("~/");
    let path = "~/"@ + rest;
    assert(path.subrange(0, 2) == "~/"@);
    assert(path.skip(2) == rest);
    assert(path.len() >= 2);
}

/// What the file and the command line say: a path in the file is expanded, and
/// an empty list on the command line says nothing.
pub proof fn law_sources(
    value: String,
    list: Vec<String>,
    home: Option<Seq<char>>,
    platform: Platform,
)
    ensures
        file_path(None, home, platform) is None,
        file_path(Some(value), home, platform) == Some(expanded(value@, home, platform)),
        opt_views(None) is None,
        opt_views(Some(list)) == Some(text::views(list@)),
        list@.len() == 0 ==> given(list@) is None,
        list@.len() > 0 ==> given(list@) == Some(text::views(list@)),
{
}

/// A path depends on the home directory exactly where the command line is silent
/// and the file begins with a tilde, or is silent too about what lies there by
/// itself.
pub proof fn law_home_is_needed(value: String, other: String, in_home: bool)
    ensures
        !depends_on_home(Some(value), Some(other), in_home),
        !depends_on_home(Some(value), None, in_home),
        depends_on_home(None, Some(other), in_home) <==> other@ == "~"@ || text::begins(
            other@,
            "~/"@,
        ),
        depends_on_home(None, None, in_home) == in_home,
{
}

} // verus!
