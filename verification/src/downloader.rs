//! Filling a repository by running Maven behind the mirror: where things are,
//! what Maven is told, and how it is called.
use vstd::prelude::*;

use crate::paths;
use crate::platform::Platform;
use crate::server::ServerArgs;
use crate::text;
use crate::xml;

verus! {

/// What a download is started with.
#[derive(Debug, Clone)]
pub struct DownloadArgs {
    /// The directory of the Maven project.
    pub workdir: String,
    /// The directory that Maven saves dependencies to.
    pub download_repo: String,
    /// The directory that the mirror serves.
    pub server_repo: String,
    /// The repositories behind the mirror, in order.
    pub upstreams: Vec<String>,
    /// The Maven executable.
    pub maven: Option<String>,
    /// Further arguments for Maven.
    pub maven_args: Vec<String>,
    /// Only show what would be done.
    pub dry_run: bool,
}

/// Where the repository is that Maven uses by itself.
pub open spec fn server_repo_of(home: Option<Seq<char>>, platform: Platform) -> Seq<char> {
    match home {
        Some(home) => paths::path_from(home, ".m2/repository"@, platform),
        None => ".m2/repository"@,
    }
}

/// Where the repository is that Maven uses by itself, given the home directory,
/// if it is known.
pub fn default_server_repo(home: Option<&str>, platform: Platform) -> (r: String)
    ensures
        r@ == server_repo_of(text::opt_str(home), platform),
{
    match home {
        Some(home) => paths::join(home, ".m2/repository", platform),
        None => ".m2/repository".to_string(),
    }
}

/// A path as it is, if absolute, and otherwise as it is when looked at from
/// `base`.
pub fn absolute_path(path: &str, base: &str, platform: Platform) -> (r: String)
    ensures
        r@ == paths::path_from(base@, path@, platform),
{
    paths::join(base, path, platform)
}

/// A path in the form that Maven reads: on Windows without the prefix of
/// extended paths.
pub open spec fn compatible_path(path: Seq<char>, platform: Platform) -> Seq<char> {
    if platform == Platform::Unix {
        path
    } else if text::begins(path, "\\\\?\\UNC\\"@) {
        "\\\\"@ + path.skip("\\\\?\\UNC\\"@.len() as int)
    } else if text::begins(path, "\\\\?\\"@) {
        path.skip("\\\\?\\"@.len() as int)
    } else {
        path
    }
}

/// A path in the form that Maven reads.
///
/// Canonical paths on Windows may begin with `\\?\`, whose question mark Java
/// takes for an illegal character; those of shares begin with `\\?\UNC\`.
pub fn maven_compatible_path(path: &str, platform: Platform) -> (r: String)
    ensures
        r@ == compatible_path(path@, platform),
{
    if platform == Platform::Windows {
        if let Some(rest) = text::strip_prefix(path, "\\\\?\\UNC\\") {
            let mut share = "\\\\".to_string();
            share.append(rest.as_str());
            return share;
        }
        if let Some(rest) = text::strip_prefix(path, "\\\\?\\") {
            return rest;
        }
    }
    path.to_string()
}

/// The wrapper that a project may bring along.
pub open spec fn wrapper_name(platform: Platform) -> Seq<char> {
    if platform == Platform::Windows {
        "mvnw.cmd"@
    } else {
        "mvnw"@
    }
}

/// The Maven on the search path.
pub open spec fn maven_name(platform: Platform) -> Seq<char> {
    if platform == Platform::Windows {
        "mvn.cmd"@
    } else {
        "mvn"@
    }
}

/// The path below the project whose existence decides which Maven is run, if
/// there is one, where `bare` says that the configured path is looked up as it
/// stands.
pub open spec fn maven_probe_of(
    configured: Option<Seq<char>>,
    bare: bool,
    platform: Platform,
) -> Option<Seq<char>> {
    match configured {
        Some(maven) => if bare {
            None
        } else {
            Some(maven)
        },
        None => Some(wrapper_name(platform)),
    }
}

/// The path below the project whose existence decides which Maven is run.
pub fn maven_probe(configured: Option<&str>, bare: bool, platform: Platform) -> (r: Option<String>)
    ensures
        text::opt_view(r) == maven_probe_of(text::opt_str(configured), bare, platform),
{
    match configured {
        Some(maven) => if bare {
            None
        } else {
            Some(maven.to_string())
        },
        None => if platform == Platform::Windows {
            Some("mvnw.cmd".to_string())
        } else {
            Some("mvnw".to_string())
        },
    }
}

/// The Maven that is run.
#[derive(Debug)]
pub enum MavenChoice {
    /// The file at this path below the project.
    Below(String),
    /// The one with this name or path.
    Named(String),
}

/// The Maven that is run, in terms of texts.
pub ghost enum ChoiceView {
    Below(Seq<char>),
    Named(Seq<char>),
}

impl View for MavenChoice {
    type V = ChoiceView;

    open spec fn view(&self) -> ChoiceView {
        match self {
            MavenChoice::Below(path) => ChoiceView::Below(path@),
            MavenChoice::Named(name) => ChoiceView::Named(name@),
        }
    }
}

/// The Maven that is run: the file below the project, where one was looked for
/// and is there; otherwise the one that is configured; otherwise the one on the
/// search path.
pub open spec fn choice_of(
    configured: Option<Seq<char>>,
    bare: bool,
    platform: Platform,
    probe_is_file: bool,
) -> ChoiceView {
    match maven_probe_of(configured, bare, platform) {
        Some(path) if probe_is_file => ChoiceView::Below(path),
        _ => match configured {
            Some(maven) => ChoiceView::Named(maven),
            None => ChoiceView::Named(maven_name(platform)),
        },
    }
}

/// The Maven that is run, given whether the configured path is looked up as it
/// stands, and whether the file that [`maven_probe`] names is there.
pub fn maven_choice(
    configured: Option<&str>,
    bare: bool,
    platform: Platform,
    probe_is_file: bool,
) -> (r: MavenChoice)
    ensures
        r@ == choice_of(text::opt_str(configured), bare, platform, probe_is_file),
{
    if probe_is_file {
        if let Some(path) = maven_probe(configured, bare, platform) {
            return MavenChoice::Below(path);
        }
    }
    match configured {
        Some(maven) => MavenChoice::Named(maven.to_string()),
        None => if platform == Platform::Windows {
            MavenChoice::Named("mvn.cmd".to_string())
        } else {
            MavenChoice::Named("mvn".to_string())
        },
    }
}

/// The configured path, if there is one, is looked up as it stands.
pub open spec fn is_bare_maven(configured: Option<Seq<char>>, platform: Platform) -> bool {
    configured is Some && paths::is_bare_path(configured->0, platform)
}

/// The Maven that is run, looked at from the project.
pub open spec fn maven_of(
    configured: Option<Seq<char>>,
    workdir: Seq<char>,
    platform: Platform,
    probe_is_file: bool,
) -> Seq<char> {
    match choice_of(configured, is_bare_maven(configured, platform), platform, probe_is_file) {
        ChoiceView::Below(path) => paths::path_from(workdir, path, platform),
        ChoiceView::Named(name) => name,
    }
}

/// Whether the configured path, if there is one, is looked up as it stands.
pub fn is_bare(configured: Option<&str>, platform: Platform) -> (r: bool)
    ensures
        r == is_bare_maven(text::opt_str(configured), platform),
{
    match configured {
        Some(maven) => paths::is_bare(maven, platform),
        None => false,
    }
}

/// The Maven that is run, looked at from the project, given whether the file
/// that [`maven_probe`] names is there.
pub fn resolve_maven(
    configured: Option<&str>,
    workdir: &str,
    platform: Platform,
    probe_is_file: bool,
) -> (r: String)
    ensures
        r@ == maven_of(text::opt_str(configured), workdir@, platform, probe_is_file),
{
    let bare = is_bare(configured, platform);
    match maven_choice(configured, bare, platform, probe_is_file) {
        MavenChoice::Below(path) => paths::join(workdir, path.as_str(), platform),
        MavenChoice::Named(name) => name,
    }
}

/// A wrapper in the project is preferred to the Maven on the search path, but
/// not to one that is configured.
pub proof fn law_wrapper_is_preferred(
    configured: Option<Seq<char>>,
    bare: bool,
    platform: Platform,
)
    ensures
        choice_of(None, bare, platform, true) == ChoiceView::Below(wrapper_name(platform)),
        choice_of(None, bare, platform, false) == ChoiceView::Named(maven_name(platform)),
        configured matches Some(maven) ==> choice_of(configured, bare, platform, false)
            == ChoiceView::Named(maven),
{
}

/// A path that is looked up as it stands is run as it stands, whatever the
/// project holds.
pub proof fn law_bare_maven_is_kept(maven: Seq<char>, platform: Platform, probe_is_file: bool)
    ensures
        maven_probe_of(Some(maven), true, platform) is None,
        choice_of(Some(maven), true, platform, probe_is_file) == ChoiceView::Named(maven),
{
}

/// The settings that send Maven to the mirror for everything.
pub open spec fn settings_text(base_url: Seq<char>) -> Seq<char> {
    "<?xml version=\"1.0\" encoding=\"UTF-8\"?>\n<settings xmlns=\"http://maven.apache.org/SETTINGS/1.0.0\" xmlns:xsi=\"http://www.w3.org/2001/XMLSchema-instance\" xsi:schemaLocation=\"http://maven.apache.org/SETTINGS/1.0.0 https://maven.apache.org/xsd/settings-1.0.0.xsd\">\n  <mirrors>\n    <mirror>\n      <id>maven-uploader</id>\n      <name>maven-uploader local mirror</name>\n      <url>"@
        + xml::escaped(base_url)
        + "</url>\n      <mirrorOf>*</mirrorOf>\n    </mirror>\n  </mirrors>\n</settings>\n"@
}

/// The settings that send Maven to the mirror for everything.
pub fn settings_document(base_url: &str) -> (r: String)
    ensures
        r@ == settings_text(base_url@),
{
    let mut settings =
        "<?xml version=\"1.0\" encoding=\"UTF-8\"?>\n<settings xmlns=\"http://maven.apache.org/SETTINGS/1.0.0\" xmlns:xsi=\"http://www.w3.org/2001/XMLSchema-instance\" xsi:schemaLocation=\"http://maven.apache.org/SETTINGS/1.0.0 https://maven.apache.org/xsd/settings-1.0.0.xsd\">\n  <mirrors>\n    <mirror>\n      <id>maven-uploader</id>\n      <name>maven-uploader local mirror</name>\n      <url>".to_string();
    settings.append(xml::xml_escape(base_url).as_str());
    settings.append(
        "</url>\n      <mirrorOf>*</mirrorOf>\n    </mirror>\n  </mirrors>\n</settings>\n",
    );
    settings
}

/// The mirror stands in for every repository, those for plugins among them.
pub proof fn law_mirror_takes_everything(base_url: Seq<char>)
    ensures
        text::has(settings_text(base_url), "<mirrorOf>*</mirrorOf>"@),
{
    reveal_strlit("<mirrorOf>*</mirrorOf>");
    reveal_strlit(
        "</url>\n      <mirrorOf>*</mirrorOf>\n    </mirror>\n  </mirrors>\n</settings>\n",
    );
    let tail =
        "</url>\n      <mirrorOf>*</mirrorOf>\n    </mirror>\n  </mirrors>\n</settings>\n"@;
    let element = "<mirrorOf>*</mirrorOf>"@;
    let settings = settings_text(base_url);
    let start = settings.len() - tail.len();
    assert(settings.skip(start) == tail);
    assert(settings.subrange(start + 13, start + 13 + element.len()) == element) by {
        assert forall|i: int| 0 <= i < element.len() implies settings[start + 13 + i]
            == element[i] by {
            assert(settings[start + 13 + i] == settings.skip(start)[13 + i]);
        }
    }
    assert(text::occurs_at(settings, element, start + 13));
}

/// The name of the file that holds the settings.
pub open spec fn settings_name(process: nat, suffix: nat) -> Seq<char> {
    "maven-uploader-settings-"@ + text::decimal(process) + "-"@ + text::decimal(suffix) + ".xml"@
}

/// The name of the file that holds the settings.
pub fn settings_file_name(process: u32, suffix: u128) -> (r: String)
    ensures
        r@ == settings_name(process as nat, suffix as nat),
{
    let mut name = "maven-uploader-settings-".to_string();
    text::push_decimal(&mut name, process as u128);
    name.append("-");
    text::push_decimal(&mut name, suffix);
    name.append(".xml");
    name
}

/// How a download goes on once the directory for dependencies is there.
#[derive(Debug)]
pub enum DownloadMode {
    /// Not at all, with the reason.
    Refuse(String),
    /// The mirror is started, and the build is shown.
    Show(ServerArgs),
    /// The mirror is started, and the build is run.
    Run(ServerArgs),
}

/// What a download does.
#[derive(Debug)]
pub struct DownloadPlan {
    /// The directory that Maven saves dependencies to.
    pub download_repo: String,
    /// How it goes on.
    pub mode: DownloadMode,
}

/// The mirror serves the directory that is meant, on any free port of the
/// loopback address, with the upstreams in their order.
pub open spec fn is_mirror(
    mirror: ServerArgs,
    args: DownloadArgs,
    workdir: Seq<char>,
    platform: Platform,
) -> bool {
    &&& mirror.root@ == paths::path_from(workdir, args.server_repo@, platform)
    &&& mirror.host@ == "127.0.0.1"@
    &&& mirror.port == 0
    &&& text::views(mirror.upstreams@) == text::views(args.upstreams@)
}

/// Plans a download for a project, given its canonical path and whether that is
/// a directory: without an upstream it is refused, and a dry run only shows the
/// build.
pub fn run_download(
    args: &DownloadArgs,
    workdir: &str,
    is_dir: bool,
    platform: Platform,
) -> (r: Result<DownloadPlan, String>)
    ensures
        match r {
            Ok(plan) => is_dir && plan.download_repo@ == paths::path_from(
                workdir@,
                args.download_repo@,
                platform,
            ) && match plan.mode {
                DownloadMode::Refuse(message) => args.upstreams@.len() == 0 && message@
                    == "至少需要一个 --upstream 上游仓库"@,
                DownloadMode::Show(mirror) => args.upstreams@.len() > 0 && args.dry_run
                    && is_mirror(mirror, *args, workdir@, platform),
                DownloadMode::Run(mirror) => args.upstreams@.len() > 0 && !args.dry_run
                    && is_mirror(mirror, *args, workdir@, platform),
            },
            Err(message) => !is_dir && message@ == "Maven 运行路径不是目录: "@ + workdir@,
        },
{
    if !is_dir {
        let mut message = "Maven 运行路径不是目录: ".to_string();
        message.append(workdir);
        return Err(message);
    }
    let download_repo = absolute_path(args.download_repo.as_str(), workdir, platform);
    if args.upstreams.len() == 0 {
        let reason = "至少需要一个 --upstream 上游仓库".to_string();
        return Ok(DownloadPlan { download_repo, mode: DownloadMode::Refuse(reason) });
    }
    let upstreams = text::copies(&args.upstreams, 0, args.upstreams.len());
    assert(text::views(upstreams@) == text::views(args.upstreams@));
    let mirror = ServerArgs {
        root: absolute_path(args.server_repo.as_str(), workdir, platform),
        host: "127.0.0.1".to_string(),
        port: 0,
        upstreams,
    };
    let mode = if args.dry_run {
        DownloadMode::Show(mirror)
    } else {
        DownloadMode::Run(mirror)
    };
    Ok(DownloadPlan { download_repo, mode })
}

/// What Maven is called with: the settings, a full build, the directory for
/// dependencies, and then whatever else is asked for.
pub open spec fn maven_command_line(
    settings: Seq<char>,
    download_repo: Seq<char>,
    maven_args: Seq<Seq<char>>,
    platform: Platform,
) -> Seq<Seq<char>> {
    seq![
        "--settings"@,
        compatible_path(settings, platform),
        "clean"@,
        "package"@,
        "-Dmaven.repo.local="@ + compatible_path(download_repo, platform),
    ] + maven_args
}

/// What Maven is called with.
pub fn maven_arguments(
    settings: &str,
    download_repo: &str,
    maven_args: &Vec<String>,
    platform: Platform,
) -> (r: Vec<String>)
    ensures
        text::views(r@) == maven_command_line(
            settings@,
            download_repo@,
            text::views(maven_args@),
            platform,
        ),
{
    let mut repo = "-Dmaven.repo.local=".to_string();
    repo.append(maven_compatible_path(download_repo, platform).as_str());
    let mut arguments: Vec<String> = Vec::new();
    arguments.push("--settings".to_string());
    arguments.push(maven_compatible_path(settings, platform));
    arguments.push("clean".to_string());
    arguments.push("package".to_string());
    arguments.push(repo);
    let ghost own = text::views(arguments@);
    assert(own == maven_command_line(settings@, download_repo@, seq![], platform));
    for i in 0..maven_args.len()
        invariant
            text::views(arguments@) == own + text::views(maven_args@).take(i as int),
    {
        let ghost before = text::views(arguments@);
        arguments.push(maven_args[i].clone());
        assert(text::views(arguments@) == before.push(maven_args@[i as int]@));
    }
    assert(text::views(maven_args@).take(maven_args@.len() as int) == text::views(maven_args@));
    arguments
}

/// What is shown in place of a build.
pub open spec fn dry_run_lines(
    workdir: Seq<char>,
    download_repo: Seq<char>,
    server_repo: Seq<char>,
    base_url: Seq<char>,
    upstreams: Seq<Seq<char>>,
) -> Seq<Seq<char>> {
    seq![
        "工作目录: "@ + workdir,
        "依赖下载目录: "@ + download_repo,
        "Mirror 仓库: "@ + server_repo,
        "Mirror URL: "@ + base_url,
        "上游仓库: "@ + text::joined(upstreams, ", "@),
    ]
}

fn labelled(label: &str, value: &str) -> (r: String)
    ensures
        r@ == label@ + value@,
{
    let mut line = label.to_string();
    line.append(value);
    line
}

/// What is shown in place of a build, before the command itself.
pub fn dry_run_report(args: &DownloadArgs, workdir: &str, download_repo: &str, base_url: &str) -> (r:
    Vec<String>)
    ensures
        text::views(r@) == dry_run_lines(
            workdir@,
            download_repo@,
            args.server_repo@,
            base_url@,
            text::views(args.upstreams@),
        ),
{
    let mut lines: Vec<String> = Vec::new();
    lines.push(labelled("工作目录: ", workdir));
    lines.push(labelled("依赖下载目录: ", download_repo));
    lines.push(labelled("Mirror 仓库: ", args.server_repo.as_str()));
    lines.push(labelled("Mirror URL: ", base_url));
    lines.push(labelled("上游仓库: ", text::join(&args.upstreams, ", ").as_str()));
    assert(text::views(lines@) == dry_run_lines(
        workdir@,
        download_repo@,
        args.server_repo@,
        base_url@,
        text::views(args.upstreams@),
    ));
    lines
}

/// Maven is called with the settings, for a full build, with the directory for
/// dependencies, and then with every argument of the user as one of its own, in
/// order.
pub proof fn law_command_line(
    settings: Seq<char>,
    download_repo: Seq<char>,
    maven_args: Seq<Seq<char>>,
    platform: Platform,
)
    ensures
        ({
            let line = maven_command_line(settings, download_repo, maven_args, platform);
            &&& line.len() == 5 + maven_args.len()
            &&& line[0] == "--settings"@
            &&& line[1] == compatible_path(settings, platform)
            &&& line[2] == "clean"@
            &&& line[3] == "package"@
            &&& line[4] == "-Dmaven.repo.local="@ + compatible_path(download_repo, platform)
            &&& forall|i: int| 0 <= i < maven_args.len() ==> #[trigger] line[5 + i] == maven_args[i]
        }),
{
}

/// Paths are handed to Maven as they are, but for the mark of extended paths on
/// Windows, which comes off; that of shares leaves two backslashes.
pub proof fn law_compatible_path(path: Seq<char>)
    ensures
        compatible_path(path, Platform::Unix) == path,
        compatible_path("\\\\?\\UNC\\"@ + path, Platform::Windows) == "\\\\"@ + path,
        !text::begins(path, "UNC\\"@) ==> compatible_path("\\\\?\\"@ + path, Platform::Windows)
            == path,
        !text::begins(path, "\\\\?\\"@) ==> compatible_path(path, Platform::Windows) == path,
{
    reveal_strlit("\\\\?\\UNC\\");
    reveal_strlit("\\\\?\\");
    reveal_strlit("UNC\\");
    let mark = "\\\\?\\"@;
    let share_mark = "\\\\?\\UNC\\"@;
    let shared = share_mark + path;
    assert(shared.subrange(0, 8) == share_mark);
    assert(shared.skip(8) == path);
    let marked = mark + path;
    assert(marked.subrange(0, 4) == mark);
    assert(marked.skip(4) == path);
    if text::begins(marked, share_mark) {
        assert(path.subrange(0, 4) == "UNC\\"@) by {
            assert forall|i: int| 0 <= i < 4 implies path[i] == "UNC\\"@[i] by {
                assert(path[i] == marked[4 + i]);
                assert(marked.subrange(0, 8)[4 + i] == share_mark[4 + i]);
            }
        }
    }
    if text::begins(path, share_mark) {
        assert(path.subrange(0, 4) == mark) by {
            assert forall|i: int| 0 <= i < 4 implies path[i] == mark[i] by {
                assert(path[i] == path.subrange(0, 8)[i]);
            }
        }
    }
}

/// Which Maven is run: one that is configured with a directory is looked for
/// below the project, and is run as configured where it is not there; without
/// one, the wrapper of the project, and else the Maven on the search path.
pub proof fn law_maven_choice(maven: Seq<char>)
    ensures
        choice_of(Some(maven), false, Platform::Unix, true) == ChoiceView::Below(maven),
        choice_of(Some(maven), false, Platform::Windows, true) == ChoiceView::Below(maven),
        choice_of(Some(maven), false, Platform::Unix, false) == ChoiceView::Named(maven),
        choice_of(Some(maven), false, Platform::Windows, false) == ChoiceView::Named(maven),
        choice_of(None, false, Platform::Unix, true) == ChoiceView::Below("mvnw"@),
        choice_of(None, false, Platform::Windows, true) == ChoiceView::Below("mvnw.cmd"@),
        choice_of(None, false, Platform::Unix, false) == ChoiceView::Named("mvn"@),
        choice_of(None, false, Platform::Windows, false) == ChoiceView::Named("mvn.cmd"@),
        maven_probe_of(Some(maven), false, Platform::Unix) == Some(maven),
        maven_probe_of(Some(maven), false, Platform::Windows) == Some(maven),
        maven_probe_of(None, false, Platform::Unix) == Some("mvnw"@),
        maven_probe_of(None, false, Platform::Windows) == Some("mvnw.cmd"@),
{
}

/// The Maven that is run is looked at from the project exactly where it is below
/// it; a configured path is taken as it stands where it is absolute or a mere
/// name.
pub proof fn law_maven_is_found(
    maven: Seq<char>,
    workdir: Seq<char>,
    platform: Platform,
    probe_is_file: bool,
)
    ensures
        paths::is_absolute_path(maven, platform) || !paths::has_directory(maven, platform)
            ==> maven_of(Some(maven), workdir, platform, probe_is_file) == maven,
        !paths::is_absolute_path(maven, platform) && paths::has_directory(maven, platform)
            ==> maven_of(Some(maven), workdir, platform, true) == paths::path_from(
            workdir,
            maven,
            platform,
        ),
        maven_of(Some(maven), workdir, platform, false) == maven,
{
}

/// The repository of the user is `.m2/repository` in the home directory, or in
/// the current one where there is no home.
pub proof fn law_default_repo(home: Seq<char>, platform: Platform)
    ensures
        server_repo_of(None, platform) == ".m2/repository"@,
        server_repo_of(Some(home), platform) == paths::path_from(
            home,
            ".m2/repository"@,
            platform,
        ),
{
}

/// The mirror of a download serves the directory that is meant, listens on a
/// free port of the loopback address, and has the upstreams in their order.
pub proof fn law_mirror(
    mirror: ServerArgs,
    args: DownloadArgs,
    workdir: Seq<char>,
    platform: Platform,
    i: int,
)
    requires
        is_mirror(mirror, args, workdir, platform),
    ensures
        mirror.root@ == paths::path_from(workdir, args.server_repo@, platform),
        mirror.host@ == "127.0.0.1"@,
        mirror.port == 0,
        mirror.upstreams@.len() == args.upstreams@.len(),
        0 <= i < args.upstreams@.len() ==> mirror.upstreams@[i]@ == args.upstreams@[i]@,
{
    assert(text::views(mirror.upstreams@).len() == mirror.upstreams@.len());
    assert(text::views(args.upstreams@).len() == args.upstreams@.len());
    if 0 <= i < args.upstreams@.len() {
        assert(text::views(mirror.upstreams@)[i] == mirror.upstreams@[i]@);
        assert(text::views(args.upstreams@)[i] == args.upstreams@[i]@);
    }
}

/// The settings hold the address of the mirror, escaped.
pub proof fn law_settings_hold_the_address(base_url: Seq<char>)
    ensures
        text::has(settings_text(base_url), "<url>"@ + xml::escaped(base_url) + "</url>"@),
{
    reveal_strlit("<url>");
    reveal_strlit("</url>");
    reveal_strlit(
        "</url>\n      <mirrorOf>*</mirrorOf>\n    </mirror>\n  </mirrors>\n</settings>\n",
    );
    reveal_strlit(
        "<?xml version=\"1.0\" encoding=\"UTF-8\"?>\n<settings xmlns=\"http://maven.apache.org/SETTINGS/1.0.0\" xmlns:xsi=\"http://www.w3.org/2001/XMLSchema-instance\" xsi:schemaLocation=\"http://maven.apache.org/SETTINGS/1.0.0 https://maven.apache.org/xsd/settings-1.0.0.xsd\">\n  <mirrors>\n    <mirror>\n      <id>maven-uploader</id>\n      <name>maven-uploader local mirror</name>\n      <url>",
    );
    let head =
        "<?xml version=\"1.0\" encoding=\"UTF-8\"?>\n<settings xmlns=\"http://maven.apache.org/SETTINGS/1.0.0\" xmlns:xsi=\"http://www.w3.org/2001/XMLSchema-instance\" xsi:schemaLocation=\"http://maven.apache.org/SETTINGS/1.0.0 https://maven.apache.org/xsd/settings-1.0.0.xsd\">\n  <mirrors>\n    <mirror>\n      <id>maven-uploader</id>\n      <name>maven-uploader local mirror</name>\n      <url>"@;
    let tail =
        "</url>\n      <mirrorOf>*</mirrorOf>\n    </mirror>\n  </mirrors>\n</settings>\n"@;
    let none: Seq<char> = seq![];
    assert(head.subrange(head.len() - 5, head.len() as int) == "<url>"@);
    assert(tail.subrange(0, 6) == "</url>"@);
    text::lemma_enclosed(none, head, xml::escaped(base_url), tail, none, "<url>"@, "</url>"@);
    assert(none + head + xml::escaped(base_url) + tail + none == settings_text(base_url));
}

proof fn lemma_numbers_parted(a: nat, x: Seq<char>, b: nat, y: Seq<char>, c: char)
    requires
        text::decimal(a) + seq![c] + x == text::decimal(b) + seq![c] + y,
        !('0' <= c <= '9'),
    ensures
        a == b,
        x == y,
{
    text::law_decimal(a);
    text::law_decimal(b);
    let m = text::decimal(a);
    let n = text::decimal(b);
    let one = m + seq![c] + x;
    let two = n + seq![c] + y;
    if m.len() < n.len() {
        assert(one[m.len() as int] == c);
        assert(two[m.len() as int] == n[m.len() as int]);
    } else if n.len() < m.len() {
        assert(two[n.len() as int] == c);
        assert(one[n.len() as int] == m[n.len() as int]);
    }
    assert(m == one.take(m.len() as int));
    assert(n == two.take(n.len() as int));
    assert(x == one.skip(m.len() as int + 1));
    assert(y == two.skip(n.len() as int + 1));
    text::law_decimal_is_unambiguous(a, b);
}

/// Different processes and moments have different files for the settings.
pub proof fn law_settings_name_is_its_own(
    process: nat,
    suffix: nat,
    other_process: nat,
    other_suffix: nat,
)
    requires
        settings_name(process, suffix) == settings_name(other_process, other_suffix),
    ensures
        process == other_process,
        suffix == other_suffix,
{
    reveal_strlit("-");
    reveal_strlit(".xml");
    assert("-"@ == seq!['-']);
    let n = "maven-uploader-settings-"@.len() as int;
    let end = ".xml"@;
    let rest = end.skip(1);
    assert(end == seq!['.'] + rest);
    assert(settings_name(process, suffix).skip(n) == text::decimal(process) + seq!['-'] + (
    text::decimal(suffix) + seq!['.'] + rest));
    assert(settings_name(other_process, other_suffix).skip(n) == text::decimal(other_process)
        + seq!['-'] + (text::decimal(other_suffix) + seq!['.'] + rest));
    lemma_numbers_parted(
        process,
        text::decimal(suffix) + seq!['.'] + rest,
        other_process,
        text::decimal(other_suffix) + seq!['.'] + rest,
        '-',
    );
    lemma_numbers_parted(suffix, rest, other_suffix, rest, '.');
}

/// What is shown in place of a build is five lines, one for each directory, the
/// address and the upstreams.
pub proof fn law_dry_run_lines(
    workdir: Seq<char>,
    download_repo: Seq<char>,
    server_repo: Seq<char>,
    base_url: Seq<char>,
    upstreams: Seq<Seq<char>>,
)
    ensures
        ({
            let lines = dry_run_lines(workdir, download_repo, server_repo, base_url, upstreams);
            &&& lines.len() == 5
            &&& lines[0] == "工作目录: "@ + workdir
            &&& lines[1] == "依赖下载目录: "@ + download_repo
            &&& lines[2] == "Mirror 仓库: "@ + server_repo
            &&& lines[3] == "Mirror URL: "@ + base_url
            &&& lines[4] == "上游仓库: "@ + text::joined(upstreams, ", "@)
        }),
{
}

} // verus!
