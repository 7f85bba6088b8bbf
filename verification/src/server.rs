//! The conversation with a client of the repository: starting up, and what is
//! said in turn on a connection.
use vstd::prelude::*;

use crate::http;
use crate::http::{Body, Reply, RequestError, Response};
use crate::platform::Platform;
use crate::repository;
use crate::repository::RepoError;
use crate::text;

verus! {

/// How many connections are served at a time.
pub const WORKER_COUNT: usize = 16;

/// What a server is started with.
#[derive(Debug, Clone)]
pub struct ServerArgs {
    /// The directory of the repository.
    pub root: String,
    /// The host to listen on.
    pub host: String,
    /// The port to listen on; zero for any.
    pub port: u16,
    /// The repositories that are asked for what is missing, in order.
    pub upstreams: Vec<String>,
}

/// What the server needs before it listens.
#[derive(Debug)]
pub struct Startup {
    /// The address to listen on.
    pub bind_address: String,
    /// The upstreams without trailing slashes; blank ones are left out.
    pub upstreams: Vec<String>,
}

/// A server that is listening.
#[derive(Debug)]
pub struct ServerHandle {
    /// The address that it listens on.
    pub address: String,
}

impl ServerHandle {
    /// Where clients find the repository.
    pub fn base_url(&self) -> (r: String)
        ensures
            r@ == "http://"@ + self.address@ + "/"@,
    {
        let mut url = "http://".to_string();
        url.append(self.address.as_str());
        url.append("/");
        url
    }
}

/// The upstreams that can be asked: without trailing slashes, blank ones left
/// out.
pub open spec fn usable_upstreams(urls: Seq<Seq<char>>) -> Seq<Seq<char>>
    decreases urls.len(),
{
    if urls.len() == 0 {
        seq![]
    } else {
        let before = usable_upstreams(urls.drop_last());
        let url = text::without_trailing(urls.last(), '/');
        if url.len() == 0 {
            before
        } else {
            before.push(url)
        }
    }
}

fn normalize_upstreams(urls: &Vec<String>) -> (r: Vec<String>)
    ensures
        text::views(r@) == usable_upstreams(text::views(urls@)),
{
    let mut usable: Vec<String> = Vec::new();
    for i in 0..urls.len()
        invariant
            text::views(usable@) == usable_upstreams(text::views(urls@).take(i as int)),
    {
        let ghost before = text::views(usable@);
        let ghost seen = text::views(urls@).take(i + 1);
        assert(seen.drop_last() == text::views(urls@).take(i as int));
        assert(seen.last() == urls@[i as int]@);
        let url = text::trim_end_matches(urls[i].as_str(), '/');
        if !url.as_str().is_empty() {
            usable.push(url);
            assert(text::views(usable@) == before.push(url@));
        }
    }
    assert(text::views(urls@).take(urls@.len() as int) == text::views(urls@));
    usable
}

/// Prepares a server for the root that the arguments name, given what the
/// canonical root is.
pub fn start_server(args: &ServerArgs, root: &str, is_dir: bool) -> (r: Result<Startup, String>)
    ensures
        match r {
            Ok(startup) => is_dir && startup.bind_address@ == args.host@ + ":"@ + text::decimal(
                args.port as nat,
            ) && text::views(startup.upstreams@) == usable_upstreams(text::views(args.upstreams@)),
            Err(message) => !is_dir && message@ == "Maven 仓库路径不是目录: "@ + root@,
        },
{
    if !is_dir {
        let mut message = "Maven 仓库路径不是目录: ".to_string();
        message.append(root);
        return Err(message);
    }
    let mut bind_address = args.host.clone();
    bind_address.append(":");
    text::push_decimal(&mut bind_address, args.port as u128);
    Ok(Startup { bind_address, upstreams: normalize_upstreams(&args.upstreams) })
}

proof fn lemma_without_trailing(url: Seq<char>, c: char)
    ensures
        text::without_trailing(url, c).len() > 0 ==> text::without_trailing(url, c).last() != c,
    decreases url.len(),
{
    if url.len() > 0 && url.last() == c {
        lemma_without_trailing(url.drop_last(), c);
    }
}

/// No upstream that is asked is blank or ends with a slash, so the address of
/// a file in it has one slash where the two meet.
pub proof fn law_upstreams_meet_paths(urls: Seq<Seq<char>>, n: int)
    requires
        0 <= n < usable_upstreams(urls).len(),
    ensures
        usable_upstreams(urls)[n].len() > 0,
        usable_upstreams(urls)[n].last() != '/',
    decreases urls.len(),
{
    if urls.len() > 0 {
        lemma_without_trailing(urls.last(), '/');
        if n < usable_upstreams(urls.drop_last()).len() {
            law_upstreams_meet_paths(urls.drop_last(), n);
        }
    }
}

/// Whether an error of a listener only says that no connection is waiting: the
/// kind that the system library gives it, or the code that Windows has for it.
pub fn is_would_block(would_block: bool, raw_os_error: Option<i32>, platform: Platform) -> (r: bool)
    ensures
        r == (would_block || (platform == Platform::Windows && raw_os_error == Some(10035i32))),
{
    would_block || (platform == Platform::Windows && match raw_os_error {
        Some(code) => code == 10035,
        None => false,
    })
}

/// What is to be looked for on behalf of a request, and how it is answered.
pub ghost struct LookupView {
    pub target: Seq<char>,
    pub head_only: bool,
    pub keep_alive: bool,
}

/// What a request on a connection leads to.
pub ghost enum TurnView {
    /// A reply, after which the connection is closed.
    Refuse(Seq<char>),
    /// A search in the repository.
    Look(LookupView),
}

/// What the request with this number on its connection leads to: only `GET`
/// and `HEAD` reach the repository, and the last request that a connection may
/// carry closes it.
pub open spec fn turn_of(number: int, request: Seq<char>) -> TurnView {
    if !http::well_formed(request) {
        TurnView::Refuse(
            http::error_text("400 Bad Request"@, "非法 HTTP 请求\n"@, false, None),
        )
    } else {
        let method = http::request_line(request)[0];
        if method != "GET"@ && method != "HEAD"@ {
            TurnView::Refuse(
                http::error_text(
                    "405 Method Not Allowed"@,
                    "仅支持 GET 和 HEAD 请求\n"@,
                    false,
                    Some("GET, HEAD"@),
                ),
            )
        } else {
            TurnView::Look(
                LookupView {
                    target: http::request_line(request)[1],
                    head_only: method == "HEAD"@,
                    keep_alive: http::stays_open(request) && number + 1
                        < http::MAX_REQUESTS_PER_CONNECTION,
                },
            )
        }
    }
}

/// A connection that waits for a request. Its view is how many requests it has
/// carried.
#[derive(Debug)]
pub struct Connection {
    number: usize,
}

impl View for Connection {
    type V = int;

    closed spec fn view(&self) -> int {
        self.number as int
    }
}

/// A search in the repository, on behalf of a request.
#[derive(Debug)]
pub struct Lookup {
    target: String,
    head_only: bool,
    keep_alive: bool,
    number: usize,
}

impl View for Lookup {
    type V = LookupView;

    closed spec fn view(&self) -> LookupView {
        LookupView {
            target: self.target@,
            head_only: self.head_only,
            keep_alive: self.keep_alive,
        }
    }
}

/// What to do after a request.
#[derive(Debug)]
pub enum Turn {
    /// Close the connection: there are no more requests.
    Close,
    /// Close the connection: no request could be read.
    Abort(RequestError),
    /// Send the reply and close the connection.
    Refuse(Reply),
    /// Look in the repository.
    Look(Lookup),
}

impl Connection {
    /// The connection may carry another request.
    #[verifier::type_invariant]
    spec fn valid(self) -> bool {
        self.number < http::MAX_REQUESTS_PER_CONNECTION
    }

    /// A connection on which nothing was said.
    pub fn new() -> (r: Self)
        ensures
            r@ == 0,
    {
        Connection { number: 0 }
    }

    /// Takes what was read from the connection.
    pub fn receive(self, request: Result<Option<String>, RequestError>) -> (turn: Turn)
        ensures
            match request {
                Ok(Some(request)) => match turn {
                    Turn::Refuse(reply) => turn_of(self@, request@) == TurnView::Refuse(reply.head@)
                        && reply.body is None,
                    Turn::Look(lookup) => lookup.number() == self@ && turn_of(self@, request@)
                        == TurnView::Look(lookup@),
                    _ => false,
                },
                Ok(None) => turn is Close,
                Err(e) => turn == Turn::Abort(e),
            },
            self@ < http::MAX_REQUESTS_PER_CONNECTION,
    {
        proof {
            use_type_invariant(&self);
        }
        let request = match request {
            Ok(Some(request)) => request,
            Ok(None) => return Turn::Close,
            Err(e) => return Turn::Abort(e),
        };
        let (method, target, keep_alive) = match http::parse_request(request.as_str()) {
            Ok(parsed) => parsed,
            Err(_) => return Turn::Refuse(
                http::write_error("400 Bad Request", "非法 HTTP 请求\n", false, None),
            ),
        };
        let head_only: bool = text::equals(method.as_str(), "HEAD");
        if !head_only && !text::equals(method.as_str(), "GET") {
            return Turn::Refuse(
                http::write_error(
                    "405 Method Not Allowed",
                    "仅支持 GET 和 HEAD 请求\n",
                    false,
                    Some("GET, HEAD"),
                ),
            );
        }
        Turn::Look(
            Lookup {
                target,
                head_only,
                keep_alive: keep_alive && self.number + 1 < http::MAX_REQUESTS_PER_CONNECTION,
                number: self.number,
            },
        )
    }
}

/// What is sent after a search, and whether the connection stays open.
pub ghost struct AnswerView {
    pub head: Seq<char>,
    pub body: Option<Body>,
    pub stays_open: bool,
}

/// What the outcome of a search leads to; nothing is sent where the search
/// failed on this side.
pub open spec fn answer_of(
    outcome: Result<http::ResponseView, repository::ErrorView>,
    head_only: bool,
    keep_alive: bool,
) -> Option<AnswerView> {
    match outcome {
        Ok(response) => Some(
            AnswerView {
                head: http::response_head(
                    response.status,
                    response.body.size(),
                    response.content_type,
                    keep_alive,
                ),
                body: http::reply_body(response, head_only),
                stays_open: keep_alive,
            },
        ),
        Err(repository::ErrorView::NotFound) => Some(
            AnswerView {
                head: http::error_text("404 Not Found"@, "文件不存在\n"@, keep_alive, None),
                body: None,
                stays_open: keep_alive,
            },
        ),
        Err(repository::ErrorView::BadPath) => Some(
            AnswerView {
                head: http::error_text("400 Bad Request"@, "非法仓库路径\n"@, false, None),
                body: None,
                stays_open: false,
            },
        ),
        Err(repository::ErrorView::UpstreamUnavailable(_)) => Some(
            AnswerView {
                head: http::error_text(
                    "502 Bad Gateway"@,
                    "Maven 上游暂时不可用\n"@,
                    false,
                    None,
                ),
                body: None,
                stays_open: false,
            },
        ),
        Err(repository::ErrorView::Failed(_)) => None,
    }
}

/// What to do after a search.
#[derive(Debug)]
pub enum Answer {
    /// Send a reply.
    Send {
        /// What to send.
        reply: Reply,
        /// What to report to the operator.
        log: Option<String>,
        /// The connection, where it stays open.
        next: Option<Connection>,
    },
    /// Close the connection: the search failed, with the reason.
    Abort(String),
}

impl Lookup {
    /// How many requests the connection had carried before this one.
    pub closed spec fn number(self) -> int {
        self.number as int
    }

    /// The connection stays open only where it may carry another request.
    #[verifier::type_invariant]
    spec fn valid(self) -> bool {
        &&& self.number < http::MAX_REQUESTS_PER_CONNECTION
        &&& self.keep_alive ==> self.number + 1 < http::MAX_REQUESTS_PER_CONNECTION
    }

    /// What is asked for.
    pub fn target(&self) -> (r: &str)
        ensures
            r@ == self@.target,
    {
        self.target.as_str()
    }

    /// Takes what the search came to.
    pub fn answer(self, outcome: Result<Response, RepoError>) -> (answer: Answer)
        ensures
            match answer {
                Answer::Send { reply, log, next } => answer_of(
                    repository::outcome_view(outcome),
                    self@.head_only,
                    self@.keep_alive,
                ) == Some(
                    AnswerView { head: reply.head@, body: reply.body, stays_open: next is Some },
                ) && (next matches Some(connection) ==> connection@ == self.number() + 1) && (
                match outcome {
                    Err(RepoError::UpstreamUnavailable(message)) => log == Some(message),
                    _ => log is None,
                }) && (outcome is Ok ==> http::has_one_blank_line(reply.head@)),
                Answer::Abort(reason) => outcome matches Err(RepoError::Failed(message)) && reason
                    == message,
            },
    {
        proof {
            use_type_invariant(&self);
        }
        let (reply, log, open): (Reply, Option<String>, bool) = match outcome {
            Ok(response) => (
                http::write_response(response, self.head_only, self.keep_alive),
                None,
                self.keep_alive,
            ),
            Err(RepoError::NotFound) => (
                http::write_error("404 Not Found", "文件不存在\n", self.keep_alive, None),
                None,
                self.keep_alive,
            ),
            Err(RepoError::BadPath) => (
                http::write_error("400 Bad Request", "非法仓库路径\n", false, None),
                None,
                false,
            ),
            Err(RepoError::UpstreamUnavailable(message)) => (
                http::write_error("502 Bad Gateway", "Maven 上游暂时不可用\n", false, None),
                Some(message),
                false,
            ),
            Err(RepoError::Failed(reason)) => return Answer::Abort(reason),
        };
        let next = if open {
            Some(Connection { number: self.number + 1 })
        } else {
            None
        };
        Answer::Send { reply, log, next }
    }
}

/// The repository is read-only: a request that is neither `GET` nor `HEAD` is
/// refused before anything is looked up, and told which methods there are.
pub proof fn law_read_only(number: int, request: Seq<char>)
    requires
        http::well_formed(request),
        http::request_line(request)[0] != "GET"@,
        http::request_line(request)[0] != "HEAD"@,
    ensures
        turn_of(number, request) == TurnView::Refuse(
            http::error_text(
                "405 Method Not Allowed"@,
                "仅支持 GET 和 HEAD 请求\n"@,
                false,
                Some("GET, HEAD"@),
            ),
        ),
{
}

/// The last request that a connection may carry closes it, whatever the client
/// asks for.
pub proof fn law_connection_ends(request: Seq<char>)
    ensures
        turn_of(http::MAX_REQUESTS_PER_CONNECTION - 1, request) matches TurnView::Look(lookup)
            ==> !lookup.keep_alive,
{
}

/// `HEAD` is answered with the head that `GET` is answered with, and with no
/// body.
pub proof fn law_head_matches_get(response: http::ResponseView, keep_alive: bool)
    ensures
        ({
            let outcome = Ok::<http::ResponseView, repository::ErrorView>(response);
            let get = answer_of(outcome, false, keep_alive)->0;
            let head = answer_of(outcome, true, keep_alive)->0;
            &&& head.head == get.head
            &&& head.body is None
            &&& get.body == Some(response.body)
            &&& head.stays_open == get.stays_open
        }),
{
}

/// The connection stays open after a reply exactly where the reply's
/// `Connection` header says so.
pub proof fn law_connection_header_is_kept(
    outcome: Result<http::ResponseView, repository::ErrorView>,
    head_only: bool,
    keep_alive: bool,
)
    requires
        answer_of(outcome, head_only, keep_alive) is Some,
    ensures
        ({
            let answer = answer_of(outcome, head_only, keep_alive)->0;
            match outcome {
                Ok(response) => answer.head == http::response_head(
                    response.status,
                    response.body.size(),
                    response.content_type,
                    answer.stays_open,
                ),
                Err(_) => exists|status: Seq<char>, message: Seq<char>|
                    answer.head == #[trigger] http::error_text(
                        status,
                        message,
                        answer.stays_open,
                        None,
                    ),
            }
        }),
{
    let answer = answer_of(outcome, head_only, keep_alive)->0;
    match outcome {
        Ok(_) => {},
        Err(repository::ErrorView::NotFound) => {
            assert(answer.head == http::error_text(
                "404 Not Found"@,
                "文件不存在\n"@,
                answer.stays_open,
                None,
            ));
        },
        Err(repository::ErrorView::BadPath) => {
            assert(answer.head == http::error_text(
                "400 Bad Request"@,
                "非法仓库路径\n"@,
                answer.stays_open,
                None,
            ));
        },
        Err(_) => {
            assert(answer.head == http::error_text(
                "502 Bad Gateway"@,
                "Maven 上游暂时不可用\n"@,
                answer.stays_open,
                None,
            ));
        },
    }
}

/// Upstreams are taken one after the other, each without the slashes at its end,
/// and left out where nothing is left of it.
pub proof fn law_upstreams(urls: Seq<Seq<char>>, url: Seq<char>)
    ensures
        usable_upstreams(seq![]).len() == 0,
        url.len() > 0 && url.last() != '/' ==> usable_upstreams(urls.push(url)) == usable_upstreams(
            urls,
        ).push(url),
        usable_upstreams(urls.push(url.push('/'))) == usable_upstreams(urls.push(url)),
        url.len() == 0 ==> usable_upstreams(urls.push(url)) == usable_upstreams(urls),
{
    assert(urls.push(url).drop_last() == urls);
    assert(urls.push(url.push('/')).drop_last() == urls);
    assert(url.push('/').drop_last() == url);
}

/// What a request leads to: it is refused where it is not understood; where it is
/// `GET` or `HEAD`, its target is looked up, and the connection stays open where
/// the request leaves it open and fewer than a hundred were carried with it.
pub proof fn law_turns(number: int, request: Seq<char>)
    ensures
        !http::well_formed(request) ==> turn_of(number, request) == TurnView::Refuse(
            http::error_text("400 Bad Request"@, "非法 HTTP 请求\n"@, false, None),
        ),
        http::well_formed(request) && http::request_line(request)[0] == "GET"@ ==> turn_of(
            number,
            request,
        ) == TurnView::Look(
            LookupView {
                target: http::request_line(request)[1],
                head_only: false,
                keep_alive: http::stays_open(request) && number < 99,
            },
        ),
        http::well_formed(request) && http::request_line(request)[0] == "HEAD"@ ==> turn_of(
            number,
            request,
        ) == TurnView::Look(
            LookupView {
                target: http::request_line(request)[1],
                head_only: true,
                keep_alive: http::stays_open(request) && number < 99,
            },
        ),
{
    reveal_strlit("GET");
    reveal_strlit("HEAD");
    assert("GET"@.len() != "HEAD"@.len());
}

/// What a search leads to: a file is delivered, and a missing one reported, over
/// the connection as the client wants it; a bad path and an upstream in trouble
/// are reported and close it; a failure on this side sends nothing.
pub proof fn law_answers(
    response: http::ResponseView,
    message: Seq<char>,
    head_only: bool,
    keep_alive: bool,
)
    ensures
        answer_of(Ok(response), head_only, keep_alive) == Some(
            AnswerView {
                head: http::response_head(
                    response.status,
                    response.body.size(),
                    response.content_type,
                    keep_alive,
                ),
                body: if head_only {
                    None
                } else {
                    Some(response.body)
                },
                stays_open: keep_alive,
            },
        ),
        answer_of(Err(repository::ErrorView::NotFound), head_only, keep_alive) == Some(
            AnswerView {
                head: http::error_text("404 Not Found"@, "文件不存在\n"@, keep_alive, None),
                body: None,
                stays_open: keep_alive,
            },
        ),
        answer_of(Err(repository::ErrorView::BadPath), head_only, keep_alive) == Some(
            AnswerView {
                head: http::error_text("400 Bad Request"@, "非法仓库路径\n"@, false, None),
                body: None,
                stays_open: false,
            },
        ),
        answer_of(
            Err(repository::ErrorView::UpstreamUnavailable(message)),
            head_only,
            keep_alive,
        ) == Some(
            AnswerView {
                head: http::error_text(
                    "502 Bad Gateway"@,
                    "Maven 上游暂时不可用\n"@,
                    false,
                    None,
                ),
                body: None,
                stays_open: false,
            },
        ),
        answer_of(Err(repository::ErrorView::Failed(message)), head_only, keep_alive) is None,
{
}

} // verus!
