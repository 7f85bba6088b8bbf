//! Looking things up in a repository: which file a request names, where it may
//! lie, and what is tried where it is missing.
use vstd::prelude::*;
use vstd::utf8::*;

use crate::cleanup;
use crate::http;
use crate::text;
use crate::url;

verus! {

/// Why a request has no response.
#[derive(Debug)]
pub enum RepoError {
    /// There is no such file.
    NotFound,
    /// The path is malformed or leads out of the repository.
    BadPath,
    /// No upstream had the file, and not all of them could say so.
    UpstreamUnavailable(String),
    /// Something went wrong on this side.
    Failed(String),
}

/// What an error says.
pub ghost enum ErrorView {
    NotFound,
    BadPath,
    UpstreamUnavailable(Seq<char>),
    Failed(Seq<char>),
}

impl View for RepoError {
    type V = ErrorView;

    open spec fn view(&self) -> ErrorView {
        match self {
            RepoError::NotFound => ErrorView::NotFound,
            RepoError::BadPath => ErrorView::BadPath,
            RepoError::UpstreamUnavailable(m) => ErrorView::UpstreamUnavailable(m@),
            RepoError::Failed(m) => ErrorView::Failed(m@),
        }
    }
}

/// A name that is never served: state of a Maven client, or a name that ends in
/// `.part`.
pub open spec fn is_ignored_name(name: Seq<char>) -> bool {
    cleanup::is_state_name(name) || text::ends(name, ".part"@)
}

/// Whether a file with this name is never served.
pub fn ignored_file(name: Option<&str>) -> (r: bool)
    ensures
        r == is_ignored_name(text::or_empty(text::opt_str(name))),
{
    cleanup::is_cleanup_file(name) || text::ends_with(text::text_or_empty(name), ".part")
}

/// What a clean-up removes is never served.
pub proof fn law_state_files_are_not_served(name: Seq<char>)
    requires
        cleanup::is_state_name(name),
    ensures
        is_ignored_name(name),
{
}

/// The media type of a file with this extension.
pub open spec fn media_type(extension: Option<Seq<char>>) -> Seq<char> {
    if extension == Some("pom"@) || extension == Some("xml"@) {
        "application/xml"@
    } else if extension == Some("json"@) {
        "application/json"@
    } else if extension == Some("jar"@) || extension == Some("war"@) || extension == Some("aar"@)
        || extension == Some("zip"@) {
        "application/java-archive"@
    } else if extension == Some("sha1"@) || extension == Some("md5"@) || extension == Some(
        "sha256"@,
    ) {
        "text/plain; charset=utf-8"@
    } else {
        "application/octet-stream"@
    }
}

/// The media type of a file with this extension.
pub fn content_type(extension: Option<&str>) -> (r: &'static str)
    ensures
        r@ == media_type(text::opt_str(extension)),
        !r@.contains('\r'),
{
    proof {
        reveal_strlit("application/xml");
        reveal_strlit("application/json");
        reveal_strlit("application/java-archive");
        reveal_strlit("text/plain; charset=utf-8");
        reveal_strlit("application/octet-stream");
    }
    if text::is_text(extension, "pom") || text::is_text(extension, "xml") {
        "application/xml"
    } else if text::is_text(extension, "json") {
        "application/json"
    } else if text::is_text(extension, "jar") || text::is_text(extension, "war") || text::is_text(
        extension,
        "aar",
    ) || text::is_text(extension, "zip") {
        "application/java-archive"
    } else if text::is_text(extension, "sha1") || text::is_text(extension, "md5") || text::is_text(
        extension,
        "sha256",
    ) {
        "text/plain; charset=utf-8"
    } else {
        "application/octet-stream"
    }
}

/// The extension of a file name: what follows its last dot, where something
/// stands before that dot.
pub open spec fn extension_text(name: Seq<char>) -> Option<Seq<char>> {
    match text::rfind(name, '.') {
        Some(at) => if at > 0 && name != ".."@ {
            Some(name.skip(at + 1))
        } else {
            None
        },
        None => None,
    }
}

/// The extension of a file name.
pub fn extension_of(name: &str) -> (r: Option<String>)
    ensures
        text::opt_view(r) == extension_text(name@),
{
    match text::rsplit_once(name, '.') {
        Some((before, extension)) => {
            if before.as_str().is_empty() || text::equals(name, "..") {
                None
            } else {
                Some(extension)
            }
        },
        None => None,
    }
}

/// The components of a path of the file system.
pub open spec fn path_view(path: Seq<Vec<u8>>) -> Seq<Seq<u8>> {
    path.map_values(|c: Vec<u8>| c@)
}

/// `path` is `root` or lies below it.
pub open spec fn lies_within(root: Seq<Seq<u8>>, path: Seq<Seq<u8>>) -> bool {
    root.len() <= path.len() && path.take(root.len() as int) == root
}

/// There are components, and none of them is empty.
pub open spec fn all_named(components: Seq<Seq<char>>) -> bool {
    components.len() > 0 && forall|i: int|
        0 <= i < components.len() ==> (#[trigger] components[i]).len() > 0
}

/// Where a path leads once links are followed.
#[derive(Debug)]
pub enum Located {
    /// To nothing.
    Missing,
    /// It could not be told, with the reason.
    Failed(String),
    /// To the path with these components.
    Path(Vec<Vec<u8>>),
}

fn same_bytes(a: &Vec<u8>, b: &Vec<u8>) -> (r: bool)
    ensures
        r == (a@ == b@),
{
    if a.len() != b.len() {
        return false;
    }
    for i in 0..a.len()
        invariant
            a@.len() == b@.len(),
            forall|j: int| 0 <= j < i ==> a@[j] == b@[j],
    {
        if a[i] != b[i] {
            return false;
        }
    }
    assert(a@ == b@);
    true
}

fn is_within(root: &Vec<Vec<u8>>, path: &Vec<Vec<u8>>) -> (r: bool)
    ensures
        r == lies_within(path_view(root@), path_view(path@)),
{
    if root.len() > path.len() {
        return false;
    }
    for i in 0..root.len()
        invariant
            root@.len() <= path@.len(),
            forall|j: int| 0 <= j < i ==> (#[trigger] root@[j])@ == path@[j]@,
    {
        if !same_bytes(&root[i], &path[i]) {
            assert(path_view(path@).take(root@.len() as int)[i as int] != path_view(
                root@,
            )[i as int]);
            return false;
        }
    }
    assert(path_view(path@).take(root@.len() as int) == path_view(root@));
    true
}

/// The components of a path below the root; nothing where it does not lie
/// within the root.
pub fn below_root(root: &Vec<Vec<u8>>, path: &Vec<Vec<u8>>) -> (r: Option<Vec<Vec<u8>>>)
    ensures
        match r {
            Some(rest) => lies_within(path_view(root@), path_view(path@)) && path_view(rest@)
                == path_view(path@).skip(root@.len() as int),
            None => !lies_within(path_view(root@), path_view(path@)),
        },
{
    if !is_within(root, path) {
        return None;
    }
    let mut rest: Vec<Vec<u8>> = Vec::new();
    let ghost below = path_view(path@).skip(root@.len() as int);
    for i in root.len()..path.len()
        invariant
            root@.len() <= path@.len(),
            below == path_view(path@).skip(root@.len() as int),
            path_view(rest@) == below.take(i - root@.len()),
    {
        let ghost before = path_view(rest@);
        rest.push(path[i].clone());
        assert(path_view(rest@) == before.push(path@[i as int]@));
        assert(below.take(i - root@.len() + 1) == before.push(path@[i as int]@));
    }
    assert(below.take(below.len() as int) == below);
    Some(rest)
}

fn are_all_named(components: &Vec<String>) -> (r: bool)
    ensures
        r == all_named(text::views(components@)),
{
    if components.len() == 0 {
        return false;
    }
    for i in 0..components.len()
        invariant
            forall|j: int| 0 <= j < i ==> (#[trigger] text::views(components@)[j]).len() > 0,
    {
        if components[i].as_str().is_empty() {
            assert(text::views(components@)[i as int].len() == 0);
            return false;
        }
    }
    true
}

/// A failure on this side: what was attempted, and the reason.
pub fn failure(context: &str, reason: &str) -> (r: RepoError)
    ensures
        r@ == ErrorView::Failed(context@ + ": "@ + reason@),
{
    let mut message = context.to_string();
    message.append(": ");
    message.append(reason);
    RepoError::Failed(message)
}

/// What comes of looking for a path below the root.
pub open spec fn safe_path_outcome(
    root: Seq<Seq<u8>>,
    components: Seq<Seq<char>>,
    located: Located,
) -> Result<(), ErrorView> {
    if !all_named(components) {
        Err(ErrorView::BadPath)
    } else {
        match located {
            Located::Missing => Err(ErrorView::NotFound),
            Located::Failed(reason) => Err(
                ErrorView::Failed("解析仓库路径失败"@ + ": "@ + reason@),
            ),
            Located::Path(path) => if lies_within(root, path_view(path@)) {
                Ok(())
            } else {
                Err(ErrorView::BadPath)
            },
        }
    }
}

/// Whether the path with these components may be used, given where it leads:
/// never where it leads out of the root.
pub fn safe_path(root: &Vec<Vec<u8>>, components: &Vec<String>, located: &Located) -> (r: Result<
    (),
    RepoError,
>)
    ensures
        match r {
            Ok(_) => safe_path_outcome(path_view(root@), text::views(components@), *located)
                == Ok::<(), ErrorView>(()),
            Err(e) => safe_path_outcome(path_view(root@), text::views(components@), *located)
                == Err::<(), ErrorView>(e@),
        },
{
    if !are_all_named(components) {
        return Err(RepoError::BadPath);
    }
    match located {
        Located::Missing => Err(RepoError::NotFound),
        Located::Failed(reason) => Err(failure("解析仓库路径失败", reason.as_str())),
        Located::Path(path) => if is_within(root, path) {
            Ok(())
        } else {
            Err(RepoError::BadPath)
        },
    }
}

/// A path that may be used leads to the root or below it.
pub proof fn law_safe_path_stays_inside(
    root: Seq<Seq<u8>>,
    components: Seq<Seq<char>>,
    located: Located,
)
    requires
        safe_path_outcome(root, components, located) is Ok,
    ensures
        located is Path,
        lies_within(root, path_view(located->Path_0@)),
{
}

/// Whether downloads may be put into the directory that a path leads to: only
/// where it is a directory within the root.
pub fn cache_parent(root: &Vec<Vec<u8>>, located: &Result<Vec<Vec<u8>>, String>, is_dir: bool) -> (r:
    Result<(), RepoError>)
    ensures
        match (*located, r) {
            (Ok(path), Ok(_)) => is_dir && lies_within(path_view(root@), path_view(path@)),
            (Ok(path), Err(e)) => e@ == ErrorView::BadPath && !(is_dir && lies_within(
                path_view(root@),
                path_view(path@),
            )),
            (Err(reason), Ok(_)) => false,
            (Err(reason), Err(e)) => e@ == ErrorView::Failed(
                "解析 Maven 缓存目录失败"@ + ": "@ + reason@,
            ),
        },
{
    match located {
        Ok(path) => if is_within(root, path) && is_dir {
            Ok(())
        } else {
            Err(RepoError::BadPath)
        },
        Err(reason) => Err(failure("解析 Maven 缓存目录失败", reason.as_str())),
    }
}

/// What opening a file came to.
#[derive(Debug)]
pub enum Opened {
    /// There is no such file.
    Missing,
    /// It could not be opened, with the reason.
    Failed(String),
    /// It was opened, but nothing could be learnt about it, with the reason.
    Unknown(String),
    /// It is open.
    Open {
        /// It is a regular file.
        is_file: bool,
        /// Its length in bytes.
        length: u64,
        /// Its name, with a replacement character for what is not text.
        name: String,
        /// The name is all text.
        exact: bool,
    },
}

/// What a response or an error holds.
pub open spec fn outcome_view(r: Result<http::Response, RepoError>) -> Result<
    http::ResponseView,
    ErrorView,
> {
    match r {
        Ok(response) => Ok(response@),
        Err(e) => Err(e@),
    }
}

/// What comes of a file that was to be opened.
pub open spec fn open_outcome(opened: Opened) -> Result<http::ResponseView, ErrorView> {
    match opened {
        Opened::Missing => Err(ErrorView::NotFound),
        Opened::Failed(reason) => Err(ErrorView::Failed("打开仓库文件失败"@ + ": "@ + reason@)),
        Opened::Unknown(reason) => Err(
            ErrorView::Failed("读取仓库文件信息失败"@ + ": "@ + reason@),
        ),
        Opened::Open { is_file, length, name, exact } => if is_file && !(exact && is_ignored_name(
            name@,
        )) {
            Ok(
                http::ResponseView {
                    status: "200 OK"@,
                    content_type: media_type(extension_text(name@)),
                    body: http::Body::File(length),
                },
            )
        } else {
            Err(ErrorView::NotFound)
        },
    }
}

/// The response that delivers an opened file.
pub fn open_response(opened: &Opened) -> (r: Result<http::Response, RepoError>)
    ensures
        outcome_view(r) == open_outcome(*opened),
{
    match opened {
        Opened::Missing => Err(RepoError::NotFound),
        Opened::Failed(reason) => Err(failure("打开仓库文件失败", reason.as_str())),
        Opened::Unknown(reason) => Err(failure("读取仓库文件信息失败", reason.as_str())),
        Opened::Open { is_file, length, name, exact } => {
            let ignored: bool = *exact && ignored_file(Some(name.as_str()));
            if *is_file && !ignored {
                let extension = extension_of(name.as_str());
                Ok(
                    http::Response::ok(
                        content_type(text::text_in(&extension)),
                        http::Body::File(*length),
                    ),
                )
            } else {
                Err(RepoError::NotFound)
            }
        },
    }
}

/// The head that delivers a file ends with its only blank line.
pub proof fn law_file_heads_have_one_blank_line(opened: Opened, keep_alive: bool)
    ensures
        open_outcome(opened) matches Ok(response) ==> http::has_one_blank_line(
            http::response_head(
                response.status,
                response.body.size(),
                response.content_type,
                keep_alive,
            ),
        ),
{
    reveal_strlit("200 OK");
    reveal_strlit("application/xml");
    reveal_strlit("application/json");
    reveal_strlit("application/java-archive");
    reveal_strlit("text/plain; charset=utf-8");
    reveal_strlit("application/octet-stream");
    if let Ok(response) = open_outcome(opened) {
        assert(!response.status.contains('\r'));
        assert(!response.content_type.contains('\r'));
        http::law_head_ends_at_its_blank_line(
            response.status,
            response.body.size(),
            response.content_type,
            keep_alive,
        );
    }
}

/// The components that a request target names: the path before any query, with
/// its leading slash taken off, decoded.
pub open spec fn target_components(target: Seq<char>) -> Option<Seq<Seq<char>>> {
    let path = match text::find_from(target, "?"@, 0) {
        Some(at) => target.take(at),
        None => target,
    };
    if text::begins(path, "/"@) {
        url::components_of(path.skip(1))
    } else {
        None
    }
}

/// What is asked of a repository by the path of safe names is looked for under
/// those names: so a repository of this kind can stand behind another one.
pub proof fn law_target_is_read_back(names: Seq<Seq<char>>)
    requires
        names.len() > 0,
        forall|i: int| 0 <= i < names.len() ==> url::is_safe(#[trigger] names[i]),
    ensures
        target_components("/"@ + url::url_path(names)) == Some(names),
{
    reveal_strlit("/");
    reveal_strlit("?");
    let path = url::url_path(names);
    let target = "/"@ + path;
    assert("?"@ == seq!['?']);
    assert forall|j: int| 0 <= j < target.len() implies target[j] != '?' by {
        if j > 0 {
            url::law_url_path_has_no_query(names, j - 1);
            assert(target[j] == path[j - 1]);
        }
    }
    text::lemma_find_char(target, '?', 0, target.len() as int);
    assert(target.subrange(0, 1) == "/"@);
    assert(target.skip(1) == path);
    url::law_url_path_is_read_back(names);
}

/// The components of the artifact whose checksum the components name.
pub open spec fn checksum_base(components: Seq<Seq<char>>) -> Option<Seq<Seq<char>>> {
    if components.len() > 0 && text::ends(components.last(), ".sha1"@) && components.last().len()
        > ".sha1"@.len() {
        let last = components.last();
        Some(components.drop_last().push(last.take(last.len() - ".sha1"@.len())))
    } else {
        None
    }
}

/// What is tried for a request, in this order.
#[derive(Debug, Clone, Copy, PartialEq, Eq, Structural)]
pub enum Stage {
    /// The file in the repository.
    File,
    /// The checksum of the artifact beside it.
    Checksum,
    /// The upstreams.
    Upstream,
    /// Metadata made up from the repository.
    Metadata,
}

/// What is tried next where a stage found nothing.
pub open spec fn next_stage(components: Seq<Seq<char>>, stage: Stage) -> Option<Stage> {
    match stage {
        Stage::File => if checksum_base(components) is Some {
            Some(Stage::Checksum)
        } else {
            Some(Stage::Upstream)
        },
        Stage::Checksum => Some(Stage::Upstream),
        Stage::Upstream => if components.last() == "maven-metadata.xml"@ {
            Some(Stage::Metadata)
        } else {
            None
        },
        Stage::Metadata => None,
    }
}

/// A request on its way through the stages.
#[derive(Debug)]
pub struct Resolution {
    components: Vec<String>,
    stage: Stage,
}

/// What a request asks for, and what is to be tried now.
pub ghost struct ResolutionView {
    pub components: Seq<Seq<char>>,
    pub stage: Stage,
}

impl View for Resolution {
    type V = ResolutionView;

    closed spec fn view(&self) -> ResolutionView {
        ResolutionView { components: text::views(self.components@), stage: self.stage }
    }
}

/// What to do after a stage.
#[derive(Debug)]
pub enum Step {
    /// Try the next stage.
    Try(Resolution),
    /// Answer.
    Answer(Result<http::Response, RepoError>),
}

impl Resolution {
    #[verifier::type_invariant]
    spec fn valid(self) -> bool {
        self.components@.len() > 0 && forall|i: int|
            0 <= i < self.components@.len() ==> url::is_safe(#[trigger] self.components@[i]@)
    }

    /// What is asked for: one or more names, each of which leads down.
    pub fn components(&self) -> (r: &Vec<String>)
        ensures
            text::views(r@) == self@.components,
            r@.len() > 0,
            forall|i: int| 0 <= i < r@.len() ==> url::is_safe(#[trigger] r@[i]@),
    {
        proof {
            use_type_invariant(self);
        }
        &self.components
    }

    /// What is to be tried now.
    pub fn stage(&self) -> (r: Stage)
        ensures
            r == self@.stage,
    {
        self.stage
    }

    /// What follows the answer that the current stage gave: the next stage
    /// where it found nothing, and otherwise that answer.
    pub fn advance(self, answer: Result<http::Response, RepoError>) -> (step: Step)
        ensures
            match step {
                Step::Try(r) => answer matches Err(RepoError::NotFound) && r@.components
                    == self@.components && next_stage(self@.components, self@.stage) == Some(
                    r@.stage,
                ),
                Step::Answer(a) => a == answer && (answer matches Err(RepoError::NotFound)
                    ==> next_stage(self@.components, self@.stage) is None),
            },
            forall|answers: spec_fn(Stage) -> Result<http::ResponseView, ErrorView>|
                answers(self@.stage) == outcome_view(answer) ==> #[trigger] resolved(
                    self@.components,
                    self@.stage,
                    answers,
                ) == match step {
                    Step::Try(r) => resolved(self@.components, r@.stage, answers),
                    Step::Answer(a) => outcome_view(a),
                },
    {
        proof {
            use_type_invariant(&self);
        }
        match answer {
            Err(RepoError::NotFound) => {
                let next: Option<Stage> = match self.stage {
                    Stage::File => if checksum_target(&self.components).is_some() {
                        Some(Stage::Checksum)
                    } else {
                        Some(Stage::Upstream)
                    },
                    Stage::Checksum => Some(Stage::Upstream),
                    Stage::Upstream => if text::equals(
                        self.components[self.components.len() - 1].as_str(),
                        "maven-metadata.xml",
                    ) {
                        Some(Stage::Metadata)
                    } else {
                        None
                    },
                    Stage::Metadata => None,
                };
                match next {
                    Some(stage) => Step::Try(Resolution { components: self.components, stage }),
                    None => Step::Answer(Err(RepoError::NotFound)),
                }
            },
            _ => Step::Answer(answer),
        }
    }
}

/// Takes a request target up: its components are to be looked for, beginning
/// with the file in the repository.
pub fn resolve(target: &str) -> (r: Result<Resolution, RepoError>)
    ensures
        match r {
            Ok(resolution) => resolution@.stage == Stage::File && target_components(target@) == Some(
                resolution@.components,
            ),
            Err(e) => e@ == ErrorView::BadPath && target_components(target@) is None,
        },
{
    proof {
        reveal_strlit("/");
    }
    let path = match text::split_once(target, "?") {
        Some((path, _)) => path,
        None => target.to_string(),
    };
    match text::strip_prefix(path.as_str(), "/") {
        Some(relative) => match url::decode_path(relative.as_str()) {
            Some(components) => Ok(Resolution { components, stage: Stage::File }),
            None => Err(RepoError::BadPath),
        },
        None => Err(RepoError::BadPath),
    }
}

/// The components of the artifact whose checksum the components name.
pub fn checksum_target(components: &Vec<String>) -> (r: Option<Vec<String>>)
    ensures
        match r {
            Some(target) => checksum_base(text::views(components@)) == Some(text::views(target@)),
            None => checksum_base(text::views(components@)) is None,
        },
{
    let ghost names = text::views(components@);
    if components.len() == 0 {
        return None;
    }
    let n: usize = components.len();
    assert(names.last() == components@[n - 1]@);
    match text::strip_suffix(components[n - 1].as_str(), ".sha1") {
        Some(base) => {
            if base.as_str().is_empty() {
                return None;
            }
            let mut target = text::copies(components, 0, n - 1);
            target.push(base);
            assert(text::views(target@) == names.drop_last().push(base@));
            Some(target)
        },
        None => None,
    }
}

/// What reading a file for its checksum came to.
#[derive(Debug)]
pub enum Digested {
    /// There is no such file.
    Missing,
    /// It could not be opened, with the reason.
    Unopened(String),
    /// It was read: the digest, or why it could not be read to the end.
    Read(Result<String, String>),
}

/// The response that states the checksum of a file.
pub fn resolve_generated_checksum(digested: Digested) -> (r: Result<http::Response, RepoError>)
    ensures
        match digested {
            Digested::Missing => outcome_view(r) == Err::<http::ResponseView, ErrorView>(
                ErrorView::NotFound,
            ),
            Digested::Unopened(reason) => outcome_view(r) == Err::<http::ResponseView, ErrorView>(
                ErrorView::Failed("打开待校验文件失败"@ + ": "@ + reason@),
            ),
            Digested::Read(Err(reason)) => outcome_view(r) == Err::<http::ResponseView, ErrorView>(
                ErrorView::Failed("计算 SHA-1 校验值失败"@ + ": "@ + reason@),
            ),
            Digested::Read(Ok(digest)) => r matches Ok(response) && response@.status == "200 OK"@
                && response@.content_type == "text/plain; charset=utf-8"@
                && (response@.body matches http::Body::Bytes(bytes) && bytes@ == encode_utf8(
                digest@ + "\n"@,
            )),
        },
{
    match digested {
        Digested::Missing => Err(RepoError::NotFound),
        Digested::Unopened(reason) => Err(failure("打开待校验文件失败", reason.as_str())),
        Digested::Read(Err(reason)) => Err(failure("计算 SHA-1 校验值失败", reason.as_str())),
        Digested::Read(Ok(digest)) => {
            let mut line = digest;
            line.append("\n");
            proof {
                reveal_strlit("text/plain; charset=utf-8");
            }
            Ok(
                http::Response::ok(
                    "text/plain; charset=utf-8",
                    http::Body::Bytes(line.as_str().as_bytes_vec()),
                ),
            )
        },
    }
}

/// How early a stage comes.
pub open spec fn stages_left(stage: Stage) -> nat {
    match stage {
        Stage::File => 3,
        Stage::Checksum => 2,
        Stage::Upstream => 1,
        Stage::Metadata => 0,
    }
}

/// The answer to a request where each stage would answer so.
pub open spec fn resolved(
    components: Seq<Seq<char>>,
    stage: Stage,
    answers: spec_fn(Stage) -> Result<http::ResponseView, ErrorView>,
) -> Result<http::ResponseView, ErrorView>
    decreases stages_left(stage),
{
    if answers(stage) == Err::<http::ResponseView, ErrorView>(ErrorView::NotFound) {
        match next_stage(components, stage) {
            Some(next) => resolved(components, next, answers),
            None => Err(ErrorView::NotFound),
        }
    } else {
        answers(stage)
    }
}

/// What is in the repository is delivered as it is, whatever else could be
/// found.
pub proof fn law_existing_file_is_delivered(
    components: Seq<Seq<char>>,
    answers: spec_fn(Stage) -> Result<http::ResponseView, ErrorView>,
)
    requires
        answers(Stage::File) is Ok,
    ensures
        resolved(components, Stage::File, answers) == answers(Stage::File),
{
}

/// Metadata that the repository lacks is what the upstreams answer, and made up
/// from the repository exactly where none of them has it.
pub proof fn law_metadata_order(
    components: Seq<Seq<char>>,
    answers: spec_fn(Stage) -> Result<http::ResponseView, ErrorView>,
)
    requires
        components.len() > 0,
        components.last() == "maven-metadata.xml"@,
        answers(Stage::File) == Err::<http::ResponseView, ErrorView>(ErrorView::NotFound),
    ensures
        resolved(components, Stage::File, answers) == if answers(Stage::Upstream) == Err::<
            http::ResponseView,
            ErrorView,
        >(ErrorView::NotFound) {
            answers(Stage::Metadata)
        } else {
            answers(Stage::Upstream)
        },
{
    reveal_with_fuel(resolved, 3);
    reveal_strlit("maven-metadata.xml");
    reveal_strlit(".sha1");
    let name = components.last();
    if text::ends(name, ".sha1"@) {
        assert(name.subrange(name.len() - 5, name.len() as int)[4] == ".sha1"@[4]);
        assert(name[17] == 'l');
    }
}

/// A file that is missing everywhere is reported as missing, unless it is
/// metadata, or a checksum that can be computed.
pub proof fn law_missing_everywhere(
    components: Seq<Seq<char>>,
    answers: spec_fn(Stage) -> Result<http::ResponseView, ErrorView>,
)
    requires
        answers(Stage::File) == Err::<http::ResponseView, ErrorView>(ErrorView::NotFound),
        answers(Stage::Checksum) == Err::<http::ResponseView, ErrorView>(ErrorView::NotFound),
        answers(Stage::Upstream) == Err::<http::ResponseView, ErrorView>(ErrorView::NotFound),
        components.last() != "maven-metadata.xml"@,
    ensures
        resolved(components, Stage::File, answers) == Err::<http::ResponseView, ErrorView>(
            ErrorView::NotFound,
        ),
{
    reveal_with_fuel(resolved, 4);
}

/// What an upstream says when it is asked for a file.
#[derive(Debug)]
pub enum UpstreamReply {
    /// A status code, and the status as text.
    Status(u16, String),
    /// No reply, with the reason.
    Error(String),
}

/// The upstream delivers the file.
pub open spec fn is_hit(reply: UpstreamReply) -> bool {
    reply matches UpstreamReply::Status(code, _) && 200 <= code <= 299
}

/// The upstream says that it does not have the file.
pub open spec fn is_absent(reply: UpstreamReply) -> bool {
    reply matches UpstreamReply::Status(404, _)
}

/// What is wrong with a reply that neither delivers nor denies the file.
pub open spec fn trouble(reply: UpstreamReply) -> Option<Seq<char>> {
    if is_hit(reply) || is_absent(reply) {
        None
    } else {
        match reply {
            UpstreamReply::Status(_, status) => Some("Maven Central returned "@ + status@),
            UpstreamReply::Error(reason) => Some(reason@),
        }
    }
}

/// The latest trouble in a list of replies.
pub open spec fn last_trouble(replies: Seq<UpstreamReply>) -> Option<Seq<char>>
    decreases replies.len(),
{
    if replies.len() == 0 {
        None
    } else {
        match trouble(replies.last()) {
            Some(message) => Some(message),
            None => last_trouble(replies.drop_last()),
        }
    }
}

/// The first reply, from `from` on, that delivers the file.
pub open spec fn first_hit(replies: Seq<UpstreamReply>, from: int) -> Option<int>
    decreases replies.len() - from,
{
    if from < 0 || from >= replies.len() {
        None
    } else if is_hit(replies[from]) {
        Some(from)
    } else {
        first_hit(replies, from + 1)
    }
}

/// What is reported where no reply delivered the file.
pub open spec fn no_hit_error(replies: Seq<UpstreamReply>) -> ErrorView {
    match last_trouble(replies) {
        Some(message) => ErrorView::UpstreamUnavailable("upstream unavailable: "@ + message),
        None => ErrorView::NotFound,
    }
}

/// What comes of asking upstreams that would reply so, one after the other:
/// the one that delivers, or an error.
pub open spec fn fetch_outcome(replies: Seq<UpstreamReply>) -> Result<int, ErrorView> {
    match first_hit(replies, 0) {
        Some(i) => Ok(i),
        None => Err(no_hit_error(replies)),
    }
}

/// A search for a file among the upstreams, none of which delivered so far.
pub struct UpstreamFetch {
    relative_url: String,
    asked: usize,
    last_error: Option<String>,
    components: Ghost<Seq<Seq<char>>>,
    replies: Ghost<Seq<UpstreamReply>>,
}

/// How a search for a file goes on after a reply.
pub enum FetchStep {
    /// The next upstream is to be asked.
    Again(UpstreamFetch),
    /// This reply delivers the file.
    Take,
}

impl UpstreamFetch {
    /// What is looked for.
    pub closed spec fn components(self) -> Seq<Seq<char>> {
        self.components@
    }

    /// The replies so far, in the order in which the upstreams were asked.
    pub closed spec fn replies(self) -> Seq<UpstreamReply> {
        self.replies@
    }

    /// None of the replies delivered the file.
    pub closed spec fn wf(self) -> bool {
        &&& self.relative_url@ == url::url_path(self.components@)
        &&& self.asked == self.replies@.len()
        &&& text::opt_view(self.last_error) == last_trouble(self.replies@)
        &&& forall|i: int| 0 <= i < self.replies@.len() ==> !is_hit(#[trigger] self.replies@[i])
    }

    /// A search before the first upstream is asked.
    pub fn new(components: &Vec<String>) -> (r: Result<Self, RepoError>)
        ensures
            match r {
                Ok(fetch) => components@.len() > 0 && fetch.wf() && fetch.components()
                    == text::views(components@) && fetch.replies() == Seq::<UpstreamReply>::empty(),
                Err(e) => components@.len() == 0 && e@ == ErrorView::BadPath,
            },
    {
        if components.len() == 0 {
            return Err(RepoError::BadPath);
        }
        Ok(
            UpstreamFetch {
                relative_url: url::encode_path(components),
                asked: 0,
                last_error: None,
                components: Ghost(text::views(components@)),
                replies: Ghost(Seq::empty()),
            },
        )
    }

    /// What to ask for next, where there is an upstream that was not asked.
    pub fn next_url(&self, upstreams: &Vec<String>) -> (r: Option<String>)
        requires
            self.wf(),
        ensures
            match r {
                Some(url) => self.replies().len() < upstreams@.len() && url@
                    == upstreams@[self.replies().len() as int]@ + "/"@ + url::url_path(
                    self.components(),
                ),
                None => self.replies().len() >= upstreams@.len(),
            },
    {
        if self.asked >= upstreams.len() {
            return None;
        }
        let mut url = upstreams[self.asked].clone();
        url.append("/");
        url.append(self.relative_url.as_str());
        Some(url)
    }

    /// Takes the reply of the upstream that was asked.
    pub fn record(self, reply: UpstreamReply) -> (step: FetchStep)
        requires
            self.wf(),
            self.replies().len() < usize::MAX,
        ensures
            match step {
                FetchStep::Take => is_hit(reply) && fetch_outcome(self.replies().push(reply))
                    == Ok::<int, ErrorView>(self.replies().len() as int),
                FetchStep::Again(next) => !is_hit(reply) && next.wf() && next.components()
                    == self.components() && next.replies() == self.replies().push(reply),
            },
    {
        let ghost before = self.replies@;
        let ghost after = before.push(reply);
        assert(after.drop_last() == before);
        let hit: bool = match &reply {
            UpstreamReply::Status(code, _) => 200 <= *code && *code <= 299,
            UpstreamReply::Error(_) => false,
        };
        if hit {
            proof {
                lemma_first_hit(after, 0, before.len() as int);
            }
            return FetchStep::Take;
        }
        let last_error = match &reply {
            UpstreamReply::Status(code, status) => if *code == 404 {
                self.last_error
            } else {
                let mut message = "Maven Central returned ".to_string();
                message.append(status.as_str());
                Some(message)
            },
            UpstreamReply::Error(reason) => Some(reason.clone()),
        };
        FetchStep::Again(
            UpstreamFetch {
                relative_url: self.relative_url,
                asked: self.asked + 1,
                last_error,
                components: self.components,
                replies: Ghost(after),
            },
        )
    }

    /// What to report once every upstream was asked in vain.
    pub fn conclude(self) -> (e: RepoError)
        requires
            self.wf(),
        ensures
            e@ == no_hit_error(self.replies()),
            fetch_outcome(self.replies()) == Err::<int, ErrorView>(e@),
    {
        proof {
            lemma_first_hit(self.replies@, 0, self.replies@.len() as int);
        }
        match self.last_error {
            Some(reason) => {
                let mut message = "upstream unavailable: ".to_string();
                message.append(reason.as_str());
                RepoError::UpstreamUnavailable(message)
            },
            None => RepoError::NotFound,
        }
    }
}

proof fn lemma_first_hit(replies: Seq<UpstreamReply>, from: int, n: int)
    requires
        0 <= from <= n <= replies.len(),
        forall|i: int| from <= i < n ==> !is_hit(#[trigger] replies[i]),
        n < replies.len() ==> is_hit(replies[n]),
    ensures
        first_hit(replies, from) == if n < replies.len() {
            Some(n)
        } else {
            None
        },
    decreases n - from,
{
    if from < n {
        lemma_first_hit(replies, from + 1, n);
    }
}

proof fn lemma_last_trouble(replies: Seq<UpstreamReply>)
    ensures
        last_trouble(replies) is None <==> forall|i: int|
            0 <= i < replies.len() ==> trouble(#[trigger] replies[i]) is None,
    decreases replies.len(),
{
    if replies.len() > 0 {
        let init = replies.drop_last();
        lemma_last_trouble(init);
        if last_trouble(replies) is None {
            assert forall|i: int| 0 <= i < replies.len() implies trouble(
                #[trigger] replies[i],
            ) is None by {
                if i < init.len() {
                    assert(init[i] == replies[i]);
                }
            }
        } else if trouble(replies.last()) is None {
            let i = choose|i: int| 0 <= i < init.len() && trouble(#[trigger] init[i]) is Some;
            assert(replies[i] == init[i]);
        }
    }
}

/// The upstreams are tried in order: the first that delivers the file is the
/// one it is taken from, whatever those before and after it say.
pub proof fn law_first_upstream_wins(replies: Seq<UpstreamReply>, n: int)
    requires
        0 <= n < replies.len(),
        replies[n] matches UpstreamReply::Status(code, _) && 200 <= code <= 299,
        forall|i: int|
            0 <= i < n ==> !(#[trigger] replies[i] matches UpstreamReply::Status(code, _) && 200
                <= code <= 299),
    ensures
        fetch_outcome(replies) == Ok::<int, ErrorView>(n),
{
    assert forall|i: int| 0 <= i < n implies !is_hit(#[trigger] replies[i]) by {
        assert(!(replies[i] matches UpstreamReply::Status(code, _) && 200 <= code <= 299));
    }
    lemma_first_hit(replies, 0, n);
}

/// A file is reported as missing exactly where every upstream replies that it
/// was not found.
pub proof fn law_missing_where_all_say_so(replies: Seq<UpstreamReply>)
    ensures
        fetch_outcome(replies) == Err::<int, ErrorView>(ErrorView::NotFound) <==> forall|i: int|
            0 <= i < replies.len() ==> (#[trigger] replies[i] matches UpstreamReply::Status(code, _)
                && code == 404),
{
    lemma_last_trouble(replies);
    if forall|i: int| 0 <= i < replies.len() ==> is_absent(#[trigger] replies[i]) {
        assert forall|i: int| 0 <= i < replies.len() implies trouble(#[trigger] replies[i]) is None
            && !is_hit(replies[i]) by {
            assert(is_absent(replies[i]));
        }
        lemma_first_hit(replies, 0, replies.len() as int);
    } else if fetch_outcome(replies) == Err::<int, ErrorView>(ErrorView::NotFound) {
        lemma_no_first_hit(replies, 0);
        let i = choose|i: int| 0 <= i < replies.len() && !is_absent(#[trigger] replies[i]);
        assert(trouble(replies[i]) is None);
        assert(!is_hit(replies[i]));
    }
    if fetch_outcome(replies) == Err::<int, ErrorView>(ErrorView::NotFound) {
        assert forall|i: int| 0 <= i < replies.len() implies (#[trigger] replies[i] matches
            UpstreamReply::Status(code, _) && code == 404) by {
            assert(is_absent(replies[i]));
        }
    }
    if forall|i: int|
        0 <= i < replies.len() ==> (#[trigger] replies[i] matches UpstreamReply::Status(code, _)
            && code == 404) {
        assert forall|i: int| 0 <= i < replies.len() implies is_absent(#[trigger] replies[i]) by {
            assert(replies[i] matches UpstreamReply::Status(code, _) && code == 404);
        }
    }
}

proof fn lemma_last_trouble_at(replies: Seq<UpstreamReply>, n: int)
    requires
        0 <= n < replies.len(),
        trouble(replies[n]) is Some,
        forall|i: int| n < i < replies.len() ==> trouble(#[trigger] replies[i]) is None,
    ensures
        last_trouble(replies) == trouble(replies[n]),
    decreases replies.len(),
{
    let init = replies.drop_last();
    if n < replies.len() - 1 {
        assert(replies[replies.len() - 1] == replies.last());
        assert(init[n] == replies[n]);
        assert forall|i: int| n < i < init.len() implies trouble(#[trigger] init[i]) is None by {
            assert(init[i] == replies[i]);
        }
        lemma_last_trouble_at(init, n);
    }
}

/// Where no upstream delivers the file and not all say that they lack it, the
/// last that says neither is what is reported: the status that it replied with,
/// or why it did not reply.
pub proof fn law_last_trouble_is_reported(replies: Seq<UpstreamReply>, n: int)
    requires
        0 <= n < replies.len(),
        forall|i: int|
            0 <= i < replies.len() ==> !(#[trigger] replies[i] matches UpstreamReply::Status(
                code,
                _,
            ) && 200 <= code <= 299),
        !(replies[n] matches UpstreamReply::Status(code, _) && code == 404),
        forall|i: int|
            n < i < replies.len() ==> (#[trigger] replies[i] matches UpstreamReply::Status(code, _)
                && code == 404),
    ensures
        fetch_outcome(replies) == Err::<int, ErrorView>(
            ErrorView::UpstreamUnavailable(
                match replies[n] {
                    UpstreamReply::Status(_, status) => "upstream unavailable: "@ + (
                    "Maven Central returned "@ + status@),
                    UpstreamReply::Error(reason) => "upstream unavailable: "@ + reason@,
                },
            ),
        ),
{
    assert forall|i: int| 0 <= i < replies.len() implies !is_hit(#[trigger] replies[i]) by {
        assert(!(replies[i] matches UpstreamReply::Status(code, _) && 200 <= code <= 299));
    }
    lemma_first_hit(replies, 0, replies.len() as int);
    assert forall|i: int| n < i < replies.len() implies trouble(#[trigger] replies[i]) is None by {
        assert(replies[i] matches UpstreamReply::Status(code, _) && code == 404);
    }
    lemma_last_trouble_at(replies, n);
}

proof fn lemma_no_first_hit(replies: Seq<UpstreamReply>, from: int)
    requires
        0 <= from,
        first_hit(replies, from) is None,
    ensures
        forall|i: int| from <= i < replies.len() ==> !is_hit(#[trigger] replies[i]),
    decreases replies.len() - from,
{
    if from < replies.len() {
        lemma_no_first_hit(replies, from + 1);
    }
}

/// The name of the file that a download is written to before it is complete.
pub open spec fn part_text(name: Seq<char>, suffix: nat) -> Seq<char> {
    "."@ + name + ".part-"@ + text::decimal(suffix)
}

/// The name of the file that a download is written to before it is complete.
pub fn part_name(name: &str, suffix: u128) -> (r: String)
    ensures
        r@ == part_text(name@, suffix as nat),
{
    let mut part = ".".to_string();
    part.append(name);
    part.append(".part-");
    text::push_decimal(&mut part, suffix);
    part
}

/// The names that are never served.
pub proof fn law_ignored_names(name: Seq<char>)
    ensures
        is_ignored_name(name) <==> name == "_remote.repositories"@ || text::ends(
            name,
            ".lastUpdated"@,
        ) || text::ends(name, ".part"@),
{
}

/// Which media type a file has by its extension.
pub proof fn law_media_types(extension: Seq<char>)
    ensures
        media_type(None) == "application/octet-stream"@,
        extension == "pom"@ || extension == "xml"@ ==> media_type(Some(extension))
            == "application/xml"@,
        extension == "json"@ ==> media_type(Some(extension)) == "application/json"@,
        extension == "jar"@ || extension == "war"@ || extension == "aar"@ || extension == "zip"@
            ==> media_type(Some(extension)) == "application/java-archive"@,
        extension == "sha1"@ || extension == "md5"@ || extension == "sha256"@ ==> media_type(
            Some(extension),
        ) == "text/plain; charset=utf-8"@,
        extension != "pom"@ && extension != "xml"@ && extension != "json"@ && extension != "jar"@
            && extension != "war"@ && extension != "aar"@ && extension != "zip"@ && extension
            != "sha1"@ && extension != "md5"@ && extension != "sha256"@ ==> media_type(
            Some(extension),
        ) == "application/octet-stream"@,
{
    reveal_strlit("pom");
    reveal_strlit("xml");
    reveal_strlit("json");
    reveal_strlit("jar");
    reveal_strlit("war");
    reveal_strlit("aar");
    reveal_strlit("zip");
    reveal_strlit("sha1");
    reveal_strlit("md5");
    reveal_strlit("sha256");
    assert("jar"@[0] == 'j' && "war"@[0] == 'w' && "aar"@[0] == 'a' && "zip"@[0] == 'z');
    assert("pom"@[0] == 'p' && "xml"@[0] == 'x' && "md5"@[0] == 'm');
    assert("json"@.len() == 4 && "sha1"@.len() == 4 && "sha256"@.len() == 6);
    assert("json"@[0] == 'j' && "sha1"@[0] == 's');
    assert("jar"@.len() == 3 && "war"@.len() == 3 && "aar"@.len() == 3 && "zip"@.len() == 3);
}

/// The extension of a name is what follows its last dot; a name without a dot,
/// or with none but in front, has no extension.
pub proof fn law_extension(stem: Seq<char>, extension: Seq<char>)
    requires
        !extension.contains('.'),
    ensures
        stem.len() > 0 && !(stem == "."@ && extension.len() == 0) ==> extension_text(
            stem + "."@ + extension,
        ) == Some(extension),
        extension_text("."@ + extension) is None,
        extension_text(extension) is None,
        extension_text(".."@) is None,
{
    reveal_strlit(".");
    reveal_strlit("..");
    assert("."@ == seq!['.']);
    let name = stem + "."@ + extension;
    let n = stem.len() as int;
    text::law_rfind(name, '.');
    assert(name[n] == '.');
    let found = text::rfind(name, '.')->0;
    if found > n {
        assert(name[found] == extension[found - n - 1]);
    }
    assert(name.skip(n + 1) == extension);
    if name == ".."@ {
        assert(stem == name.take(n));
        if n == 1 {
            assert(stem == "."@);
        } else {
            assert(extension.len() + n == 1);
        }
    }
    let hidden = "."@ + extension;
    text::law_rfind(hidden, '.');
    assert(hidden[0] == '.');
    let at = text::rfind(hidden, '.')->0;
    if at > 0 {
        assert(hidden[at] == extension[at - 1]);
        assert(extension.contains(extension[at - 1]));
    }
    text::law_rfind(extension, '.');
    if let Some(k) = text::rfind(extension, '.') {
        assert(extension.contains(extension[k]));
    }
}

/// A path lies within a root exactly where it is the root and something more, or
/// nothing more.
pub proof fn law_lies_within(root: Seq<Seq<u8>>, path: Seq<Seq<u8>>)
    ensures
        lies_within(root, path) <==> exists|rest: Seq<Seq<u8>>| path == #[trigger] (root + rest),
{
    if lies_within(root, path) {
        assert(path == root + path.skip(root.len() as int));
    }
    if exists|rest: Seq<Seq<u8>>| path == #[trigger] (root + rest) {
        let rest = choose|rest: Seq<Seq<u8>>| path == #[trigger] (root + rest);
        assert(path.take(root.len() as int) == root);
    }
}

/// What comes of a path below the root: it may be used where it leads within the
/// root; it is bad where it leads elsewhere, or has a blank component or none; and
/// it is missing where it leads nowhere.
pub proof fn law_safe_path(
    root: Seq<Seq<u8>>,
    components: Seq<Seq<char>>,
    path: Vec<Vec<u8>>,
    reason: String,
)
    ensures
        components.len() == 0 || components.contains(Seq::<char>::empty()) ==> safe_path_outcome(
            root,
            components,
            Located::Path(path),
        ) == Err::<(), ErrorView>(ErrorView::BadPath) && safe_path_outcome(
            root,
            components,
            Located::Missing,
        ) == Err::<(), ErrorView>(ErrorView::BadPath),
        components.len() > 0 && !components.contains(Seq::<char>::empty()) ==> safe_path_outcome(
            root,
            components,
            Located::Missing,
        ) == Err::<(), ErrorView>(ErrorView::NotFound) && safe_path_outcome(
            root,
            components,
            Located::Failed(reason),
        ) == Err::<(), ErrorView>(
            ErrorView::Failed("解析仓库路径失败"@ + ": "@ + reason@),
        ) && safe_path_outcome(root, components, Located::Path(path)) == (if exists|
            rest: Seq<Seq<u8>>,
        | path_view(path@) == #[trigger] (root + rest) {
            Ok::<(), ErrorView>(())
        } else {
            Err::<(), ErrorView>(ErrorView::BadPath)
        }),
{
    law_lies_within(root, path_view(path@));
    if components.contains(Seq::<char>::empty()) {
        let i = components.index_of(Seq::<char>::empty());
        assert(components[i].len() == 0);
    } else {
        assert forall|i: int| 0 <= i < components.len() implies (#[trigger] components[i]).len()
            > 0 by {
            assert(components.contains(components[i]));
            if components[i].len() == 0 {
                assert(components[i] == Seq::<char>::empty());
            }
        }
    }
}

/// What comes of an opened file: a regular one is delivered whole, unless its
/// name is one that is never served; anything else is missing.
pub proof fn law_opened(length: u64, name: String, exact: bool, reason: String)
    ensures
        open_outcome(Opened::Missing) == Err::<http::ResponseView, ErrorView>(ErrorView::NotFound),
        open_outcome(Opened::Failed(reason)) == Err::<http::ResponseView, ErrorView>(
            ErrorView::Failed("打开仓库文件失败"@ + ": "@ + reason@),
        ),
        open_outcome(Opened::Unknown(reason)) == Err::<http::ResponseView, ErrorView>(
            ErrorView::Failed("读取仓库文件信息失败"@ + ": "@ + reason@),
        ),
        open_outcome(Opened::Open { is_file: false, length, name, exact }) == Err::<
            http::ResponseView,
            ErrorView,
        >(ErrorView::NotFound),
        exact && (name@ == "_remote.repositories"@ || text::ends(name@, ".lastUpdated"@)
            || text::ends(name@, ".part"@)) ==> open_outcome(
            Opened::Open { is_file: true, length, name, exact },
        ) == Err::<http::ResponseView, ErrorView>(ErrorView::NotFound),
        !(exact && (name@ == "_remote.repositories"@ || text::ends(name@, ".lastUpdated"@)
            || text::ends(name@, ".part"@))) ==> open_outcome(
            Opened::Open { is_file: true, length, name, exact },
        ) == Ok::<http::ResponseView, ErrorView>(
            http::ResponseView {
                status: "200 OK"@,
                content_type: media_type(extension_text(name@)),
                body: http::Body::File(length),
            },
        ),
{
}

/// The query of a target makes no difference, and a target that does not begin
/// with a slash names nothing.
pub proof fn law_target(path: Seq<char>, query: Seq<char>)
    requires
        !path.contains('?'),
    ensures
        target_components(path + "?"@ + query) == target_components(path),
        path.len() == 0 || path[0] != '/' ==> target_components(path) is None,
        target_components("/"@ + path) == url::components_of(path),
{
    reveal_strlit("?");
    reveal_strlit("/");
    assert("?"@ == seq!['?']);
    assert("/"@ == seq!['/']);
    let n = path.len() as int;
    let target = path + "?"@ + query;
    assert forall|j: int| 0 <= j < n implies path[j] != '?' by {
        assert(path.contains(path[j]));
    }
    assert forall|j: int| 0 <= j < n implies target[j] != '?' by {
        assert(target[j] == path[j]);
    }
    assert(target[n] == '?');
    text::lemma_find_char(target, '?', 0, n);
    text::lemma_find_char(path, '?', 0, n);
    assert(target.take(n) == path);
    if n > 0 {
        assert(path.subrange(0, 1)[0] == path[0]);
    }
    let slashed = "/"@ + path;
    assert forall|j: int| 0 <= j < slashed.len() implies slashed[j] != '?' by {
        if j > 0 {
            assert(slashed[j] == path[j - 1]);
        }
    }
    text::lemma_find_char(slashed, '?', 0, slashed.len() as int);
    assert(slashed.subrange(0, 1) == "/"@);
    assert(slashed.skip(1) == path);
}

/// A name that ends in `.sha1`, with something before that, stands for the
/// checksum of what has the name before it, in the same directory; no other name
/// does.
pub proof fn law_checksum_base(
    directory: Seq<Seq<char>>,
    name: Seq<char>,
    components: Seq<Seq<char>>,
)
    ensures
        name.len() > 0 ==> checksum_base(directory.push(name + ".sha1"@)) == Some(
            directory.push(name),
        ),
        checksum_base(components) matches Some(base) ==> components.len() > 0 && base.len()
            == components.len() && base.last().len() > 0 && components == base.drop_last().push(
            base.last() + ".sha1"@,
        ),
{
    reveal_strlit(".sha1");
    let marked = name + ".sha1"@;
    let all = directory.push(marked);
    assert(marked.subrange(marked.len() - 5, marked.len() as int) == ".sha1"@);
    assert(marked.take(marked.len() - 5) == name);
    assert(all.drop_last() == directory);
    if let Some(base) = checksum_base(components) {
        let last = components.last();
        assert(base.drop_last() == components.drop_last());
        assert(base.last() == last.take(last.len() - 5));
        assert(last == last.take(last.len() - 5) + ".sha1"@);
        assert(components == components.drop_last().push(last));
    }
}

/// Where the file itself is not missing, what came of it is the answer.
pub proof fn law_file_comes_first(
    components: Seq<Seq<char>>,
    answers: spec_fn(Stage) -> Result<http::ResponseView, ErrorView>,
)
    requires
        answers(Stage::File) != Err::<http::ResponseView, ErrorView>(ErrorView::NotFound),
    ensures
        resolved(components, Stage::File, answers) == answers(Stage::File),
{
}

/// A checksum that the repository lacks is computed from the artifact where that
/// is there, and asked of the upstreams otherwise.
pub proof fn law_checksum_order(
    directory: Seq<Seq<char>>,
    name: Seq<char>,
    answers: spec_fn(Stage) -> Result<http::ResponseView, ErrorView>,
)
    requires
        name.len() > 0,
        answers(Stage::File) == Err::<http::ResponseView, ErrorView>(ErrorView::NotFound),
    ensures
        resolved(directory.push(name + ".sha1"@), Stage::File, answers) == if answers(
            Stage::Checksum,
        ) == Err::<http::ResponseView, ErrorView>(ErrorView::NotFound) {
            answers(Stage::Upstream)
        } else {
            answers(Stage::Checksum)
        },
{
    let components = directory.push(name + ".sha1"@);
    law_checksum_base(directory, name, components);
    reveal_with_fuel(resolved, 4);
    reveal_strlit("maven-metadata.xml");
    reveal_strlit(".sha1");
    let last = name + ".sha1"@;
    assert(components.last() == last);
    assert(last.last() == '1');
    assert("maven-metadata.xml"@.last() == 'l');
}

/// Any other file that the repository lacks is what the upstreams answer.
pub proof fn law_upstream_order(
    components: Seq<Seq<char>>,
    answers: spec_fn(Stage) -> Result<http::ResponseView, ErrorView>,
)
    requires
        components.len() > 0,
        !(text::ends(components.last(), ".sha1"@) && components.last() != ".sha1"@),
        components.last() != "maven-metadata.xml"@,
        answers(Stage::File) == Err::<http::ResponseView, ErrorView>(ErrorView::NotFound),
    ensures
        resolved(components, Stage::File, answers) == answers(Stage::Upstream),
{
    reveal_with_fuel(resolved, 4);
    reveal_strlit(".sha1");
}

/// The part of a file that is being downloaded has the name of the file in its
/// own, hidden, and a number of its own.
pub proof fn law_part_names(name: Seq<char>, suffix: nat, other: nat)
    ensures
        text::begins(part_text(name, suffix), "."@ + name + ".part-"@),
        part_text(name, suffix) == part_text(name, other) ==> suffix == other,
{
    let head = "."@ + name + ".part-"@;
    assert(part_text(name, suffix) == head + text::decimal(suffix));
    assert(part_text(name, suffix).subrange(0, head.len() as int) == head);
    if part_text(name, suffix) == part_text(name, other) {
        assert(part_text(name, suffix).skip(head.len() as int) == text::decimal(suffix));
        assert(part_text(name, other).skip(head.len() as int) == text::decimal(other));
        text::law_decimal_is_unambiguous(suffix, other);
    }
}

} // verus!
