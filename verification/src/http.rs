//! The part of HTTP/1.x that a read-only repository speaks: receiving and
//! parsing request heads, and the text of replies.
use vstd::prelude::*;
use vstd::utf8::*;

use crate::text;

verus! {

/// The largest request head that is waited for, in bytes.
pub const MAX_REQUEST_SIZE: usize = 16384;

/// How many requests one connection may carry.
pub const MAX_REQUESTS_PER_CONNECTION: usize = 100;

/// Why no request came out of a connection.
#[derive(Debug, Clone, Copy, PartialEq, Eq, Structural)]
pub enum RequestError {
    /// The peer closed the connection within a request head.
    Closed,
    /// The head is longer than [`MAX_REQUEST_SIZE`].
    TooLarge,
    /// The head is not UTF-8.
    NotText,
}

impl RequestError {
    /// What is wrong.
    pub open spec fn text(self) -> Seq<char> {
        match self {
            RequestError::Closed => "客户端提前关闭连接"@,
            RequestError::TooLarge => "HTTP 请求头过大"@,
            RequestError::NotText => "HTTP 请求不是有效 UTF-8"@,
        }
    }

    /// What is wrong.
    pub fn message(&self) -> (r: &'static str)
        ensures
            r@ == self.text(),
    {
        match self {
            RequestError::Closed => "客户端提前关闭连接",
            RequestError::TooLarge => "HTTP 请求头过大",
            RequestError::NotText => "HTTP 请求不是有效 UTF-8",
        }
    }
}

/// The request is not one that the server understands.
#[derive(Debug, Clone, Copy, PartialEq, Eq, Structural)]
pub struct BadRequest;

/// The first `n` bytes end with an empty line.
pub open spec fn head_ends_at(bytes: Seq<u8>, n: int) -> bool {
    4 <= n <= bytes.len() && bytes.subrange(n - 4, n) == seq![13u8, 10u8, 13u8, 10u8]
}

/// The length of the request head that a stream begins with, looked for from
/// `n` bytes on and up to one byte more than the size limit.
pub open spec fn head_len_from(stream: Seq<u8>, n: int) -> Option<int>
    decreases stream.len() - n + 1,
{
    if n > stream.len() || n > MAX_REQUEST_SIZE + 1 {
        None
    } else if head_ends_at(stream, n) {
        Some(n)
    } else {
        head_len_from(stream, n + 1)
    }
}

/// What a complete request head says.
pub open spec fn head_text(head: Seq<u8>) -> Result<Option<Seq<char>>, RequestError> {
    if valid_utf8(head) {
        Ok(Some(decode_utf8(head)))
    } else {
        Err(RequestError::NotText)
    }
}

/// What a reader gets out of a stream that ends after these bytes.
pub open spec fn received(stream: Seq<u8>) -> Result<Option<Seq<char>>, RequestError> {
    match head_len_from(stream, 0) {
        Some(n) => head_text(stream.take(n)),
        None => if stream.len() > MAX_REQUEST_SIZE {
            Err(RequestError::TooLarge)
        } else if stream.len() == 0 {
            Ok(None)
        } else {
            Err(RequestError::Closed)
        },
    }
}

/// How many bytes of the stream the reader takes.
pub open spec fn taken(stream: Seq<u8>) -> int {
    match head_len_from(stream, 0) {
        Some(n) => n,
        None => if stream.len() > MAX_REQUEST_SIZE {
            MAX_REQUEST_SIZE + 1
        } else {
            stream.len() as int
        },
    }
}

/// What follows these bytes in the stream makes no difference any more.
pub open spec fn settled(bytes: Seq<u8>) -> bool {
    head_len_from(bytes, 0) is Some || bytes.len() > MAX_REQUEST_SIZE
}

/// The text in what a reader delivers.
pub open spec fn request_view(r: Result<Option<String>, RequestError>) -> Result<
    Option<Seq<char>>,
    RequestError,
> {
    match r {
        Ok(t) => Ok(text::opt_view(t)),
        Err(e) => Err(e),
    }
}

proof fn lemma_head_len(stream: Seq<u8>, from: int, n: int)
    requires
        0 <= from <= n <= stream.len(),
        n <= MAX_REQUEST_SIZE + 1,
        forall|j: int| from <= j < n ==> !#[trigger] head_ends_at(stream, j),
    ensures
        head_len_from(stream, from) == head_len_from(stream, n),
    decreases n - from,
{
    if from < n {
        assert(!head_ends_at(stream, from));
        lemma_head_len(stream, from + 1, n);
    }
}

proof fn lemma_head_len_prefix(stream: Seq<u8>, p: int, n: int)
    requires
        0 <= n,
        0 <= p <= stream.len(),
    ensures
        head_len_from(stream.take(p), n) is Some ==> head_len_from(stream, n) == head_len_from(
            stream.take(p),
            n,
        ),
        head_len_from(stream.take(p), n) is None && p > MAX_REQUEST_SIZE ==> head_len_from(
            stream,
            n,
        ) is None,
    decreases p - n + 1,
{
    let prefix = stream.take(p);
    if n <= p && n <= MAX_REQUEST_SIZE + 1 {
        if n >= 4 {
            assert(prefix.subrange(n - 4, n) == stream.subrange(n - 4, n));
        }
        assert(head_ends_at(prefix, n) == head_ends_at(stream, n));
        if !head_ends_at(prefix, n) {
            lemma_head_len_prefix(stream, p, n + 1);
        }
    }
}

/// Once a request is settled, what the stream holds after it changes neither
/// the request nor where the next one begins.
pub proof fn law_settled_request_stands(bytes: Seq<u8>, more: Seq<u8>)
    requires
        settled(bytes),
    ensures
        received(bytes + more) == received(bytes),
        taken(bytes + more) == taken(bytes),
{
    let stream = bytes + more;
    assert(stream.take(bytes.len() as int) == bytes);
    lemma_head_len_prefix(stream, bytes.len() as int, 0);
    lemma_head_len_in_range(bytes, 0);
    if let Some(n) = head_len_from(bytes, 0) {
        assert(stream.take(n) == bytes.take(n));
    }
}

proof fn lemma_head_len_in_range(bytes: Seq<u8>, n: int)
    ensures
        head_len_from(bytes, n) matches Some(m) ==> n <= m <= bytes.len() && head_ends_at(bytes, m),
    decreases bytes.len() - n + 1,
{
    if n <= bytes.len() && n <= MAX_REQUEST_SIZE + 1 && !head_ends_at(bytes, n) {
        lemma_head_len_in_range(bytes, n + 1);
    }
}

/// What a reader has to say after a byte, or after the end of the stream.
#[derive(Debug)]
pub enum ReadStep {
    /// Another byte is needed.
    More,
    /// The outcome is known.
    Done(Result<Option<String>, RequestError>),
}

/// Collects a request head byte by byte. Its view is what it has collected.
pub struct RequestReader {
    bytes: Vec<u8>,
}

impl View for RequestReader {
    type V = Seq<u8>;

    closed spec fn view(&self) -> Seq<u8> {
        self.bytes@
    }
}

impl RequestReader {
    /// No head has ended yet, and the limit is not passed.
    pub open spec fn wf(self) -> bool {
        &&& self@.len() <= MAX_REQUEST_SIZE
        &&& forall|n: int| 0 <= n <= self@.len() ==> !#[trigger] head_ends_at(self@, n)
    }

    /// A reader that has seen nothing.
    pub fn new() -> (r: Self)
        ensures
            r.wf(),
            r@ == Seq::<u8>::empty(),
    {
        RequestReader { bytes: Vec::new() }
    }

    /// Takes the next byte of the stream, or its end.
    pub fn step(&mut self, input: Option<u8>) -> (r: ReadStep)
        requires
            old(self).wf(),
        ensures
            final(self)@ == match input {
                Some(byte) => old(self)@.push(byte),
                None => old(self)@,
            },
            match r {
                ReadStep::More => input is Some && final(self).wf(),
                ReadStep::Done(outcome) => request_view(outcome) == received(final(self)@) && taken(
                    final(self)@,
                ) == final(self)@.len() && (input is None || settled(final(self)@)),
            },
    {
        let ghost before = self@;
        match input {
            None => {
                proof {
                    lemma_head_len(before, 0, before.len() as int);
                    reveal_with_fuel(head_len_from, 2);
                    assert(!head_ends_at(before, before.len() as int));
                }
                if self.bytes.len() == 0 {
                    ReadStep::Done(Ok(None))
                } else {
                    ReadStep::Done(Err(RequestError::Closed))
                }
            },
            Some(byte) => {
                self.bytes.push(byte);
                let n: usize = self.bytes.len();
                proof {
                    assert forall|j: int| 0 <= j < n implies !#[trigger] head_ends_at(self@, j) by {
                        assert(!head_ends_at(before, j));
                        if 4 <= j {
                            assert(self@.subrange(j - 4, j) == before.subrange(j - 4, j));
                        }
                    }
                    lemma_head_len(self@, 0, n as int);
                    reveal_with_fuel(head_len_from, 2);
                }
                let ended: bool = n >= 4 && self.bytes[n - 4] == 13 && self.bytes[n - 3] == 10
                    && self.bytes[n - 2] == 13 && self.bytes[n - 1] == 10;
                proof {
                    if n >= 4 {
                        let last = self@.subrange(n - 4, n as int);
                        let wanted = seq![13u8, 10u8, 13u8, 10u8];
                        if ended {
                            assert(last == wanted);
                        } else if last == wanted {
                            assert(last[0] == 13 && last[1] == 10 && last[2] == 13 && last[3] == 10);
                        }
                    }
                    assert(ended == head_ends_at(self@, n as int));
                    assert(self@.take(n as int) == self@);
                }
                if ended {
                    match text::string_from_utf8(self.bytes.clone()) {
                        Some(request) => ReadStep::Done(Ok(Some(request))),
                        None => ReadStep::Done(Err(RequestError::NotText)),
                    }
                } else if n > MAX_REQUEST_SIZE {
                    ReadStep::Done(Err(RequestError::TooLarge))
                } else {
                    proof {
                        assert forall|j: int| 0 <= j <= n implies !#[trigger] head_ends_at(
                            self@,
                            j,
                        ) by {
                            if j < n {
                                assert(!head_ends_at(self@, j));
                            }
                        }
                    }
                    ReadStep::More
                }
            },
        }
    }
}

/// Reads one request head from the bytes that are left in a stream, and says
/// how many of them it took.
pub fn read_request(stream: &[u8]) -> (r: (Result<Option<String>, RequestError>, usize))
    ensures
        request_view(r.0) == received(stream@),
        r.1 == taken(stream@),
{
    let mut reader = RequestReader::new();
    let mut position: usize = 0;
    loop
        invariant
            position <= stream.len(),
            reader.wf(),
            reader@ == stream@.take(position as int),
        decreases stream.len() - position,
    {
        let input: Option<u8> = if position < stream.len() {
            Some(stream[position])
        } else {
            None
        };
        match reader.step(input) {
            ReadStep::More => {
                position = position + 1;
                assert(stream@.take(position as int) == stream@.take(position - 1).push(
                    stream@[position - 1],
                ));
            },
            ReadStep::Done(outcome) => {
                if position < stream.len() {
                    position = position + 1;
                    assert(stream@.take(position as int) == stream@.take(position - 1).push(
                        stream@[position - 1],
                    ));
                }
                proof {
                    let seen = stream@.take(position as int);
                    let rest = stream@.skip(position as int);
                    assert(seen + rest == stream@);
                    if settled(seen) {
                        law_settled_request_stands(seen, rest);
                    } else {
                        assert(seen == stream@);
                    }
                }
                return (outcome, position);
            },
        }
    }
}

/// The header line names `option` among the options of the connection.
pub open spec fn asks(line: Seq<char>, option: Seq<char>) -> bool {
    match text::find_from(line, ":"@, 0) {
        Some(at) => {
            let tokens = text::split_at_each(line.skip(at + 1), ","@);
            text::same_ignoring_case(line.take(at), "connection"@) && exists|i: int|
                0 <= i < tokens.len() && text::same_ignoring_case(
                    text::trimmed(#[trigger] tokens[i]),
                    option,
                )
        },
        None => false,
    }
}

/// How many lines, from line `from` on, precede the first empty one.
pub open spec fn header_count(lines: Seq<Seq<char>>, from: int) -> int
    decreases lines.len() - from,
{
    if from < 0 || from >= lines.len() || lines[from].len() == 0 {
        0
    } else {
        1 + header_count(lines, from + 1)
    }
}

/// The header lines of a request: those between the first line and the first
/// empty one.
pub open spec fn header_lines(request: Seq<char>) -> Seq<Seq<char>> {
    let lines = text::split_at_each(request, "\r\n"@);
    lines.subrange(1, 1 + header_count(lines, 1))
}

/// The words of the first line of a request.
pub open spec fn request_line(request: Seq<char>) -> Seq<Seq<char>> {
    text::fields_of(text::split_at_each(request, "\r\n"@)[0])
}

/// A method, a target and a known version, and a colon in every header line.
pub open spec fn well_formed(request: Seq<char>) -> bool {
    let line = request_line(request);
    &&& line.len() == 3
    &&& line[2] == "HTTP/1.0"@ || line[2] == "HTTP/1.1"@
    &&& forall|i: int|
        0 <= i < header_lines(request).len() ==> text::has(
            #[trigger] header_lines(request)[i],
            ":"@,
        )
}

/// Some header line names `option` among the options of the connection.
pub open spec fn requests_option(request: Seq<char>, option: Seq<char>) -> bool {
    exists|i: int|
        0 <= i < header_lines(request).len() && asks(#[trigger] header_lines(request)[i], option)
}

/// The connection stays open after the reply: by default in HTTP/1.1, on
/// request in HTTP/1.0, and never against `close`.
pub open spec fn stays_open(request: Seq<char>) -> bool {
    &&& !requests_option(request, "close"@)
    &&& request_line(request)[2] == "HTTP/1.1"@ || requests_option(request, "keep-alive"@)
}

proof fn lemma_header_count(lines: Seq<Seq<char>>, from: int, n: int)
    requires
        0 <= from <= n <= lines.len(),
        forall|j: int| from <= j < n ==> (#[trigger] lines[j]).len() > 0,
        n == lines.len() || lines[n].len() == 0,
    ensures
        header_count(lines, from) == n - from,
    decreases n - from,
{
    if from < n {
        assert(lines[from].len() > 0);
        lemma_header_count(lines, from + 1, n);
    }
}

proof fn lemma_split_not_empty(t: Seq<char>, separator: Seq<char>)
    requires
        separator.len() > 0,
    ensures
        text::split_at_each(t, separator).len() > 0,
{
}

/// Whether a header line asks for the connection to be closed, and whether it
/// asks for it to be kept; nothing where it is no header line.
fn connection_options(line: &str) -> (r: Option<(bool, bool)>)
    ensures
        match r {
            Some((close, keep)) => text::has(line@, ":"@) && close == asks(line@, "close"@) && keep
                == asks(line@, "keep-alive"@),
            None => !text::has(line@, ":"@),
        },
{
    proof {
        text::lemma_find_has(line@, ":"@);
        reveal_strlit(":");
        reveal_strlit(",");
        reveal_strlit("close");
        reveal_strlit("keep-alive");
    }
    match text::split_once(line, ":") {
        Some((name, value)) => {
            if !text::equals_ignoring_case(name.as_str(), "connection") {
                return Some((false, false));
            }
            let parts = text::split(value.as_str(), ",");
            let ghost tokens = text::split_at_each(value@, ","@);
            let mut close: bool = false;
            let mut keep: bool = false;
            for i in 0..parts.len()
                invariant
                    text::views(parts@) == tokens,
                    close == exists|j: int|
                        0 <= j < i && text::same_ignoring_case(
                            text::trimmed(#[trigger] tokens[j]),
                            "close"@,
                        ),
                    keep == exists|j: int|
                        0 <= j < i && text::same_ignoring_case(
                            text::trimmed(#[trigger] tokens[j]),
                            "keep-alive"@,
                        ),
            {
                let token = text::trim(parts[i].as_str());
                assert(tokens[i as int] == parts@[i as int]@);
                if text::equals_ignoring_case(token.as_str(), "close") {
                    close = true;
                }
                if text::equals_ignoring_case(token.as_str(), "keep-alive") {
                    keep = true;
                }
            }
            proof {
                assert(tokens.len() == parts@.len());
                assert(value@ == line@.skip(name@.len() as int + 1));
                assert(name@ == line@.take(name@.len() as int));
                assert(text::find_from(line@, ":"@, 0) == Some(name@.len() as int));
                assert(close == asks(line@, "close"@));
                assert(keep == asks(line@, "keep-alive"@));
            }
            Some((close, keep))
        },
        None => None,
    }
}

/// The method, the target and whether the connection stays open.
pub fn parse_request(request: &str) -> (r: Result<(String, String, bool), BadRequest>)
    ensures
        match r {
            Ok((method, target, keep_alive)) => well_formed(request@) && method@ == request_line(
                request@,
            )[0] && target@ == request_line(request@)[1] && keep_alive == stays_open(request@),
            Err(_) => !well_formed(request@),
        },
{
    proof {
        reveal_strlit("\r\n");
        lemma_split_not_empty(request@, "\r\n"@);
    }
    let lines = text::split(request, "\r\n");
    let ghost all = text::split_at_each(request@, "\r\n"@);
    assert(lines@[0]@ == all[0]);
    let words = text::fields(lines[0].as_str());
    let ghost line = request_line(request@);
    if words.len() != 3 {
        return Err(BadRequest);
    }
    assert(line[0] == words@[0]@ && line[1] == words@[1]@ && line[2] == words@[2]@);
    let current: bool = text::equals(words[2].as_str(), "HTTP/1.1");
    if !current && !text::equals(words[2].as_str(), "HTTP/1.0") {
        return Err(BadRequest);
    }
    let mut close: bool = false;
    let mut keep: bool = false;
    let mut n: usize = 1;
    while n < lines.len() && !lines[n].as_str().is_empty()
        invariant
            1 <= n <= lines.len(),
            text::views(lines@) == all,
            all == text::split_at_each(request@, "\r\n"@),
            forall|j: int| 1 <= j < n ==> (#[trigger] all[j]).len() > 0 && text::has(all[j], ":"@),
            close == exists|j: int| 1 <= j < n && asks(#[trigger] all[j], "close"@),
            keep == exists|j: int| 1 <= j < n && asks(#[trigger] all[j], "keep-alive"@),
        decreases lines.len() - n,
    {
        assert(all[n as int] == lines@[n as int]@);
        match connection_options(lines[n].as_str()) {
            Some((c, k)) => {
                close = close || c;
                keep = keep || k;
            },
            None => {
                proof {
                    lemma_header_reached(all, 1, n as int);
                    assert(header_lines(request@)[n - 1] == all[n as int]);
                }
                return Err(BadRequest);
            },
        }
        n = n + 1;
    }
    proof {
        if n < lines.len() {
            assert(all[n as int] == lines@[n as int]@);
        }
        lemma_header_count(all, 1, n as int);
        let headers = header_lines(request@);
        assert(headers.len() == n - 1);
        assert forall|i: int| 0 <= i < headers.len() implies text::has(#[trigger] headers[i], ":"@) by {
            assert(headers[i] == all[i + 1]);
        }
        if close {
            let j = choose|j: int| 1 <= j < n && asks(#[trigger] all[j], "close"@);
            assert(headers[j - 1] == all[j]);
        }
        if keep {
            let j = choose|j: int| 1 <= j < n && asks(#[trigger] all[j], "keep-alive"@);
            assert(headers[j - 1] == all[j]);
        }
        if requests_option(request@, "close"@) {
            let i = choose|i: int| 0 <= i < headers.len() && asks(#[trigger] headers[i], "close"@);
            assert(headers[i] == all[i + 1]);
        }
        if requests_option(request@, "keep-alive"@) {
            let i = choose|i: int|
                0 <= i < headers.len() && asks(#[trigger] headers[i], "keep-alive"@);
            assert(headers[i] == all[i + 1]);
        }
    }
    let keep_alive: bool = !close && (current || keep);
    Ok((words[0].clone(), words[1].clone(), keep_alive))
}

proof fn lemma_header_reached(lines: Seq<Seq<char>>, from: int, n: int)
    requires
        0 <= from <= n < lines.len(),
        forall|j: int| from <= j <= n ==> (#[trigger] lines[j]).len() > 0,
    ensures
        header_count(lines, from) > n - from,
        from + header_count(lines, from) <= lines.len(),
    decreases n - from,
{
    assert(lines[from].len() > 0);
    if from < n {
        lemma_header_reached(lines, from + 1, n);
    } else {
        lemma_header_count_bound(lines, from + 1);
    }
}

proof fn lemma_header_count_bound(lines: Seq<Seq<char>>, from: int)
    requires
        0 <= from <= lines.len(),
    ensures
        0 <= header_count(lines, from) <= lines.len() - from,
    decreases lines.len() - from,
{
    if from < lines.len() {
        lemma_header_count_bound(lines, from + 1);
    }
}

/// What the headers of a request say of the connection: it stays open in
/// HTTP/1.1 unless a header says `close`, in HTTP/1.0 only where a header says
/// `keep-alive`, and `close` is stronger than `keep-alive`.
pub proof fn law_keep_alive(request: Seq<char>)
    requires
        well_formed(request),
    ensures
        requests_option(request, "close"@) ==> !stays_open(request),
        request_line(request)[2] == "HTTP/1.1"@ && !requests_option(request, "close"@)
            ==> stays_open(request),
        request_line(request)[2] == "HTTP/1.0"@ && !requests_option(request, "keep-alive"@)
            ==> !stays_open(request),
        request_line(request)[2] == "HTTP/1.0"@ && requests_option(request, "keep-alive"@)
            && !requests_option(request, "close"@) ==> stays_open(request),
{
    reveal_strlit("HTTP/1.0");
    reveal_strlit("HTTP/1.1");
    assert("HTTP/1.0"@[7] != "HTTP/1.1"@[7]);
}

/// What a response carries: an open file of known length, or bytes at hand.
#[derive(Debug)]
pub enum Body {
    /// A file that is sent as it is, with its length in bytes.
    File(u64),
    /// Bytes made up for the occasion.
    Bytes(Vec<u8>),
}

impl Body {
    /// How many bytes the body has.
    pub open spec fn size(self) -> nat {
        match self {
            Body::File(length) => length as nat,
            Body::Bytes(bytes) => bytes@.len(),
        }
    }

    /// How many bytes the body has.
    pub fn len(&self) -> (r: u64)
        ensures
            r == self.size(),
    {
        match self {
            Body::File(length) => *length,
            Body::Bytes(bytes) => bytes.len() as u64,
        }
    }
}

/// A successful answer to a request. Neither its status nor its media type holds
/// a carriage return.
#[derive(Debug)]
pub struct Response {
    status: &'static str,
    content_type: &'static str,
    body: Body,
}

/// What a response holds.
pub ghost struct ResponseView {
    /// The status code and its phrase.
    pub status: Seq<char>,
    /// The media type of the body.
    pub content_type: Seq<char>,
    /// The content.
    pub body: Body,
}

impl View for Response {
    type V = ResponseView;

    closed spec fn view(&self) -> ResponseView {
        ResponseView {
            status: self.status@,
            content_type: self.content_type@,
            body: self.body,
        }
    }
}

impl Response {
    #[verifier::type_invariant]
    spec fn valid(self) -> bool {
        !self.status@.contains('\r') && !self.content_type@.contains('\r')
    }

    /// A response that delivers a body of this media type.
    pub fn ok(content_type: &'static str, body: Body) -> (r: Self)
        requires
            !content_type@.contains('\r'),
        ensures
            r@ == (ResponseView { status: "200 OK"@, content_type: content_type@, body }),
    {
        proof {
            reveal_strlit("200 OK");
        }
        Response { status: "200 OK", content_type, body }
    }

    /// The status code and its phrase.
    pub fn status(&self) -> (r: &'static str)
        ensures
            r@ == self@.status,
    {
        self.status
    }

    /// The media type of the body.
    pub fn content_type(&self) -> (r: &'static str)
        ensures
            r@ == self@.content_type,
    {
        self.content_type
    }

    /// The content.
    pub fn body(&self) -> (r: &Body)
        ensures
            *r == self@.body,
    {
        &self.body
    }
}

/// What goes over the connection: text, and then possibly a body.
#[derive(Debug)]
pub struct Reply {
    /// The status line and headers; of an error also the message.
    pub head: String,
    /// What follows them.
    pub body: Option<Body>,
}

/// The value of the `Connection` header.
pub open spec fn connection_value(keep_alive: bool) -> Seq<char> {
    if keep_alive {
        "keep-alive"@
    } else {
        "close"@
    }
}

/// The head of a successful response.
pub open spec fn response_head(
    status: Seq<char>,
    length: nat,
    content_type: Seq<char>,
    keep_alive: bool,
) -> Seq<char> {
    "HTTP/1.1 "@ + status + "\r\nContent-Length: "@ + text::decimal(length)
        + "\r\nContent-Type: "@ + content_type
        + "\r\nCache-Control: no-cache\r\nConnection: "@ + connection_value(keep_alive)
        + "\r\nKeep-Alive: timeout=10, max="@ + text::decimal(
        MAX_REQUESTS_PER_CONNECTION as nat,
    ) + "\r\n\r\n"@
}

/// What follows the head of a successful response: the body, unless only the
/// head is wanted.
pub open spec fn reply_body(response: ResponseView, head_only: bool) -> Option<Body> {
    if head_only {
        None
    } else {
        Some(response.body)
    }
}

/// The `Allow` header, where there is one.
pub open spec fn allow_header(allow: Option<Seq<char>>) -> Seq<char> {
    match allow {
        Some(methods) => "Allow: "@ + methods + "\r\n"@,
        None => seq![],
    }
}

/// An error reply: head and message.
pub open spec fn error_text(
    status: Seq<char>,
    message: Seq<char>,
    keep_alive: bool,
    allow: Option<Seq<char>>,
) -> Seq<char> {
    "HTTP/1.1 "@ + status + "\r\n"@ + allow_header(allow) + "Content-Length: "@ + text::decimal(
        encode_utf8(message).len(),
    ) + "\r\nContent-Type: text/plain; charset=utf-8\r\nConnection: "@ + connection_value(
        keep_alive,
    ) + "\r\n\r\n"@ + message
}

fn connection_header(keep_alive: bool) -> (r: &'static str)
    ensures
        r@ == connection_value(keep_alive),
{
    if keep_alive {
        "keep-alive"
    } else {
        "close"
    }
}

/// The head ends with its only blank line.
pub open spec fn has_one_blank_line(head: Seq<char>) -> bool {
    forall|at: int|
        #[trigger] text::occurs_at(head, "\r\n\r\n"@, at) <==> at == head.len() - 4
}

/// The reply that delivers a response: the same head for `GET` and `HEAD`, and
/// the body for `GET` only, right behind the only blank line.
pub fn write_response(response: Response, head_only: bool, keep_alive: bool) -> (reply: Reply)
    ensures
        reply.head@ == response_head(
            response@.status,
            response@.body.size(),
            response@.content_type,
            keep_alive,
        ),
        has_one_blank_line(reply.head@),
        reply.body == reply_body(response@, head_only),
{
    proof {
        use_type_invariant(&response);
        law_head_ends_at_its_blank_line(
            response@.status,
            response@.body.size(),
            response@.content_type,
            keep_alive,
        );
    }
    let mut head = "HTTP/1.1 ".to_string();
    head.append(response.status);
    head.append("\r\nContent-Length: ");
    text::push_decimal(&mut head, response.body.len() as u128);
    head.append("\r\nContent-Type: ");
    head.append(response.content_type);
    head.append("\r\nCache-Control: no-cache\r\nConnection: ");
    head.append(connection_header(keep_alive));
    head.append("\r\nKeep-Alive: timeout=10, max=");
    text::push_decimal(&mut head, MAX_REQUESTS_PER_CONNECTION as u128);
    head.append("\r\n\r\n");
    let body = if head_only {
        None
    } else {
        Some(response.body)
    };
    Reply { head, body }
}

/// The reply that reports an error, message included.
pub fn write_error(status: &str, message: &str, keep_alive: bool, allow: Option<&str>) -> (reply:
    Reply)
    ensures
        reply.head@ == error_text(
            status@,
            message@,
            keep_alive,
            match allow {
                Some(methods) => Some(methods@),
                None => None,
            },
        ),
        reply.body is None,
{
    let mut head = "HTTP/1.1 ".to_string();
    head.append(status);
    head.append("\r\n");
    let mut allowed = String::new();
    match allow {
        Some(methods) => {
            allowed.append("Allow: ");
            allowed.append(methods);
            allowed.append("\r\n");
            assert(allowed@ == "Allow: "@ + methods@ + "\r\n"@);
        },
        None => {},
    }
    head.append(allowed.as_str());
    head.append("Content-Length: ");
    text::push_decimal(&mut head, message.as_bytes().len() as u128);
    head.append("\r\nContent-Type: text/plain; charset=utf-8\r\nConnection: ");
    head.append(connection_header(keep_alive));
    head.append("\r\n\r\n");
    head.append(message);
    Reply { head, body: None }
}

/// What a reply is on the connection: its head, and then its body, where it has
/// one, as the content of which `content` is sent.
pub open spec fn sent(head: Seq<char>, body: Option<Body>, content: Seq<u8>) -> Seq<u8> {
    if body is Some {
        encode_utf8(head) + content
    } else {
        encode_utf8(head)
    }
}

/// Every carriage return is followed by a line feed and by something that is no
/// carriage return.
spec fn has_no_blank_line(lines: Seq<char>) -> bool {
    forall|p: int|
        0 <= p < lines.len() && #[trigger] lines[p] == '\r' ==> p + 2 < lines.len() && lines[p + 1]
            == '\n' && lines[p + 2] != '\r'
}

proof fn lemma_no_blank_line_between(a: Seq<char>, b: Seq<char>)
    requires
        has_no_blank_line(a),
        has_no_blank_line(b),
    ensures
        has_no_blank_line(a + b),
{
    let whole = a + b;
    assert forall|p: int| 0 <= p < whole.len() && #[trigger] whole[p] == '\r' implies p + 2
        < whole.len() && whole[p + 1] == '\n' && whole[p + 2] != '\r' by {
        if p < a.len() {
            assert(a[p] == '\r');
        } else {
            assert(b[p - a.len()] == '\r');
        }
    }
}

proof fn lemma_decimal_is_plain(n: nat)
    ensures
        !text::decimal(n).contains('\r'),
    decreases n,
{
    if n >= 10 {
        lemma_decimal_is_plain(n / 10);
        let before = text::decimal(n / 10);
        assert forall|i: int| 0 <= i < text::decimal(n).len() implies text::decimal(n)[i]
            != '\r' by {
            if i < before.len() {
                assert(before.contains(before[i]));
            }
        }
    }
}

proof fn lemma_plain_has_no_blank_line(line: Seq<char>)
    requires
        !line.contains('\r'),
    ensures
        has_no_blank_line(line),
{
    assert forall|p: int| 0 <= p < line.len() implies #[trigger] line[p] != '\r' by {
        assert(line.contains(line[p]));
    }
}

proof fn lemma_response_lines(
    status: Seq<char>,
    length: nat,
    content_type: Seq<char>,
    keep_alive: bool,
) -> (lines: Seq<char>)
    requires
        !status.contains('\r'),
        !content_type.contains('\r'),
    ensures
        has_no_blank_line(lines),
        response_head(status, length, content_type, keep_alive) == lines + "\r\n\r\n"@,
{
    reveal_strlit("HTTP/1.1 ");
    reveal_strlit("\r\nContent-Length: ");
    reveal_strlit("\r\nContent-Type: ");
    reveal_strlit("\r\nCache-Control: no-cache\r\nConnection: ");
    reveal_strlit("keep-alive");
    reveal_strlit("close");
    reveal_strlit("\r\nKeep-Alive: timeout=10, max=");
    lemma_decimal_is_plain(length);
    lemma_decimal_is_plain(MAX_REQUESTS_PER_CONNECTION as nat);
    lemma_plain_has_no_blank_line(status);
    lemma_plain_has_no_blank_line(content_type);
    lemma_plain_has_no_blank_line(text::decimal(length));
    lemma_plain_has_no_blank_line(text::decimal(MAX_REQUESTS_PER_CONNECTION as nat));
    let a = "HTTP/1.1 "@ + status;
    lemma_no_blank_line_between("HTTP/1.1 "@, status);
    let b = a + "\r\nContent-Length: "@;
    lemma_no_blank_line_between(a, "\r\nContent-Length: "@);
    let c = b + text::decimal(length);
    lemma_no_blank_line_between(b, text::decimal(length));
    let d = c + "\r\nContent-Type: "@;
    lemma_no_blank_line_between(c, "\r\nContent-Type: "@);
    let e = d + content_type;
    lemma_no_blank_line_between(d, content_type);
    let f = e + "\r\nCache-Control: no-cache\r\nConnection: "@;
    lemma_no_blank_line_between(e, "\r\nCache-Control: no-cache\r\nConnection: "@);
    let g = f + connection_value(keep_alive);
    lemma_no_blank_line_between(f, connection_value(keep_alive));
    let h = g + "\r\nKeep-Alive: timeout=10, max="@;
    lemma_no_blank_line_between(g, "\r\nKeep-Alive: timeout=10, max="@);
    let lines = h + text::decimal(MAX_REQUESTS_PER_CONNECTION as nat);
    lemma_no_blank_line_between(h, text::decimal(MAX_REQUESTS_PER_CONNECTION as nat));
    lines
}

/// The head of a response ends with its only blank line, so the body begins
/// right behind it, where neither the status nor the media type holds a
/// carriage return.
pub proof fn law_head_ends_at_its_blank_line(
    status: Seq<char>,
    length: nat,
    content_type: Seq<char>,
    keep_alive: bool,
)
    requires
        !status.contains('\r'),
        !content_type.contains('\r'),
    ensures
        has_one_blank_line(response_head(status, length, content_type, keep_alive)),
{
    reveal_strlit("\r\n\r\n");
    let lines = lemma_response_lines(status, length, content_type, keep_alive);
    let blank = "\r\n\r\n"@;
    let head = lines + blank;
    assert(head.subrange(lines.len() as int, head.len() as int) == blank);
    assert forall|at: int| #[trigger] text::occurs_at(head, blank, at) implies at == head.len()
        - 4 by {
        if at < lines.len() {
            let found = head.subrange(at, at + 4);
            assert(found[0] == '\r' && found[2] == '\r');
            assert(lines[at] == '\r');
            assert(head[at + 2] == lines[at + 2]);
        }
    }
}

/// What is sent for `GET` is what is sent for `HEAD`, and then the content,
/// whose length the head of both states.
pub proof fn law_get_is_head_and_content(response: ResponseView, content: Seq<u8>, keep_alive: bool)
    requires
        content.len() == response.body.size(),
    ensures
        ({
            let head = response_head(
                response.status,
                response.body.size(),
                response.content_type,
                keep_alive,
            );
            &&& sent(head, reply_body(response, false), content) == sent(
                head,
                reply_body(response, true),
                content,
            ) + content
            &&& head == response_head(
                response.status,
                content.len(),
                response.content_type,
                keep_alive,
            )
        }),
{
}

/// The limits: a head of sixteen kibibytes, and a hundred requests.
pub proof fn law_limits()
    ensures
        MAX_REQUEST_SIZE == 16 * 1024,
        MAX_REQUESTS_PER_CONNECTION == 100,
{
}

proof fn lemma_head_at(stream: Seq<u8>, n: int)
    requires
        4 <= n <= stream.len(),
        n <= 16385,
        stream.subrange(n - 4, n) == seq![13u8, 10u8, 13u8, 10u8],
        forall|j: int|
            4 <= j < n ==> #[trigger] stream.subrange(j - 4, j) != seq![13u8, 10u8, 13u8, 10u8],
    ensures
        head_len_from(stream, 0) == Some(n),
{
    assert forall|j: int| 0 <= j < n implies !#[trigger] head_ends_at(stream, j) by {
        if 4 <= j {
            assert(stream.subrange(j - 4, j) != seq![13u8, 10u8, 13u8, 10u8]);
        }
    }
    lemma_head_len(stream, 0, n);
}

/// A request is what a stream holds up to its first blank line, whatever follows,
/// and the next one begins right behind it.
pub proof fn law_first_head(head: Seq<u8>, more: Seq<u8>)
    requires
        4 <= head.len() <= 16385,
        head.skip(head.len() - 4) == seq![13u8, 10u8, 13u8, 10u8],
        forall|j: int|
            4 <= j < head.len() ==> #[trigger] head.subrange(j - 4, j) != seq![
                13u8,
                10u8,
                13u8,
                10u8,
            ],
    ensures
        settled(head + more),
        taken(head + more) == head.len(),
        valid_utf8(head) ==> received(head + more) == Ok::<Option<Seq<char>>, RequestError>(
            Some(decode_utf8(head)),
        ),
        !valid_utf8(head) ==> received(head + more) == Err::<Option<Seq<char>>, RequestError>(
            RequestError::NotText,
        ),
{
    let stream = head + more;
    let n = head.len() as int;
    assert(stream.subrange(n - 4, n) == head.skip(n - 4));
    assert forall|j: int| 4 <= j < n implies #[trigger] stream.subrange(j - 4, j) != seq![
        13u8,
        10u8,
        13u8,
        10u8,
    ] by {
        assert(stream.subrange(j - 4, j) == head.subrange(j - 4, j));
    }
    lemma_head_at(stream, n);
    assert(stream.take(n) == head);
}

/// A stream without a blank line where one is waited for is no request: nothing
/// at all is the end, too little is a connection that was closed, and more than
/// the limit is too large, of which one byte past the limit is taken.
pub proof fn law_no_head(stream: Seq<u8>)
    requires
        forall|j: int|
            4 <= j <= stream.len() && j <= 16385 ==> #[trigger] stream.subrange(j - 4, j) != seq![
                13u8,
                10u8,
                13u8,
                10u8,
            ],
    ensures
        stream.len() == 0 ==> received(stream) == Ok::<Option<Seq<char>>, RequestError>(None),
        0 < stream.len() <= 16384 ==> received(stream) == Err::<Option<Seq<char>>, RequestError>(
            RequestError::Closed,
        ),
        stream.len() > 16384 ==> received(stream) == Err::<Option<Seq<char>>, RequestError>(
            RequestError::TooLarge,
        ),
        stream.len() <= 16384 ==> taken(stream) == stream.len(),
        stream.len() > 16384 ==> taken(stream) == 16385,
        settled(stream) <==> stream.len() > 16384,
{
    let n = if stream.len() <= 16385 {
        stream.len() as int
    } else {
        16385
    };
    assert forall|j: int| 0 <= j <= n implies !#[trigger] head_ends_at(stream, j) by {
        if 4 <= j {
            assert(stream.subrange(j - 4, j) != seq![13u8, 10u8, 13u8, 10u8]);
        }
    }
    lemma_head_len(stream, 0, n);
    assert(!head_ends_at(stream, n));
    reveal_with_fuel(head_len_from, 2);
}

proof fn lemma_words(words: Seq<Seq<char>>)
    requires
        forall|i: int| 0 <= i < words.len() ==> is_word(#[trigger] words[i]),
    ensures
        text::fields_of(text::joined(words, " "@)) == words,
    decreases words.len(),
{
    reveal_strlit(" ");
    assert(" "@ == seq![' ']);
    if words.len() == 0 {
        assert(text::joined(words, " "@).len() == 0);
        text::law_field(text::joined(words, " "@));
        assert(text::fields_of(text::joined(words, " "@)) == words);
    } else if words.len() == 1 {
        assert(is_word(words[0]));
        text::law_field(words[0]);
        assert(seq![words[0]] == words);
    } else {
        let init = words.drop_last();
        assert forall|i: int| 0 <= i < init.len() implies is_word(#[trigger] init[i]) by {
            assert(init[i] == words[i]);
        }
        lemma_words(init);
        let last = words[words.len() - 1];
        assert(is_word(last));
        text::law_field(last);
        text::law_fields_are_parted(text::joined(init, " "@), ' ', last);
        assert(init + seq![last] == words);
    }
}

proof fn lemma_words_are_plain(words: Seq<Seq<char>>)
    requires
        forall|i: int| 0 <= i < words.len() ==> is_word(#[trigger] words[i]),
    ensures
        !text::joined(words, " "@).contains('\r'),
    decreases words.len(),
{
    reveal_strlit(" ");
    if words.len() > 0 {
        let init = words.drop_last();
        assert forall|i: int| 0 <= i < init.len() implies is_word(#[trigger] init[i]) by {
            assert(init[i] == words[i]);
        }
        lemma_words_are_plain(init);
        let last = words[words.len() - 1];
        assert(is_word(last));
        assert(!last.contains('\r'));
        if words.len() > 1 {
            lemma_plain_line(text::joined(init, " "@), " "@);
            lemma_plain_line(text::joined(init, " "@) + " "@, last);
        }
    }
}

/// A word of a request line: not blank, and without white space.
pub open spec fn is_word(word: Seq<char>) -> bool {
    word.len() > 0 && forall|i: int|
        0 <= i < word.len() ==> #[trigger] word[i] != ' ' && word[i] != '\t' && word[i] != '\n'
            && word[i] != '\u{c}' && word[i] != '\r'
}

/// A request that is written line by line is read back: the words of its first
/// line, and the header lines up to the first blank one, whatever follows.
pub proof fn law_request_is_read_back(
    words: Seq<Seq<char>>,
    headers: Seq<Seq<char>>,
    rest: Seq<Seq<char>>,
)
    requires
        forall|i: int| 0 <= i < words.len() ==> is_word(#[trigger] words[i]),
        forall|i: int|
            0 <= i < headers.len() ==> (#[trigger] headers[i]).len() > 0 && !headers[i].contains(
                '\r',
            ),
        forall|i: int| 0 <= i < rest.len() ==> !(#[trigger] rest[i]).contains('\r'),
    ensures
        ({
            let blank: Seq<char> = seq![];
            let lines = seq![text::joined(words, " "@)] + headers + seq![blank] + rest;
            let request = text::joined(lines, "\r\n"@);
            &&& request_line(request) == words
            &&& header_lines(request) == headers
        }),
{
    let blank: Seq<char> = seq![];
    let lines = seq![text::joined(words, " "@)] + headers + seq![blank] + rest;
    let request = text::joined(lines, "\r\n"@);
    let n = headers.len() as int;
    lemma_words_are_plain(words);
    assert forall|i: int| 0 <= i < lines.len() implies !(#[trigger] lines[i]).contains('\r') by {
        if 1 <= i <= n {
            assert(lines[i] == headers[i - 1]);
        } else if i > n + 1 {
            assert(lines[i] == rest[i - n - 2]);
        }
    }
    text::law_lines(lines);
    lemma_words(words);
    assert forall|j: int| 1 <= j < n + 1 implies (#[trigger] lines[j]).len() > 0 by {
        assert(lines[j] == headers[j - 1]);
    }
    assert(lines[n + 1] == blank);
    lemma_header_count(lines, 1, n + 1);
    assert(lines.subrange(1, n + 1) == headers);
}

/// A request is understood exactly where its first line has three words, of
/// which the last is one of two versions, and every header line has a colon.
pub proof fn law_well_formed(request: Seq<char>)
    ensures
        well_formed(request) <==> request_line(request).len() == 3 && (request_line(request)[2]
            == "HTTP/1.0"@ || request_line(request)[2] == "HTTP/1.1"@) && forall|i: int|
            0 <= i < header_lines(request).len() ==> text::has(
                #[trigger] header_lines(request)[i],
                ":"@,
            ),
{
}

/// A header line asks for an option exactly where it is the `Connection` header,
/// in any case, and one of the values between its commas is that option, in any
/// case and with white space around it; and a request does where one of its
/// header lines does.
pub proof fn law_options(
    request: Seq<char>,
    name: Seq<char>,
    values: Seq<Seq<char>>,
    option: Seq<char>,
)
    requires
        !name.contains(':'),
        values.len() > 0,
        forall|i: int| 0 <= i < values.len() ==> !(#[trigger] values[i]).contains(','),
    ensures
        asks(name + ":"@ + text::joined(values, ","@), option) <==> text::same_ignoring_case(
            name,
            "connection"@,
        ) && exists|i: int|
            0 <= i < values.len() && text::same_ignoring_case(
                text::trimmed(#[trigger] values[i]),
                option,
            ),
        !asks(name, option),
        requests_option(request, option) <==> exists|i: int|
            0 <= i < header_lines(request).len() && asks(
                #[trigger] header_lines(request)[i],
                option,
            ),
{
    reveal_strlit(":");
    reveal_strlit(",");
    assert(":"@ == seq![':']);
    assert(","@ == seq![',']);
    let line = name + ":"@ + text::joined(values, ","@);
    let n = name.len() as int;
    assert forall|j: int| 0 <= j < n implies line[j] != ':' by {
        assert(line[j] == name[j]);
        assert(name.contains(name[j]));
    }
    assert(line[n] == ':');
    text::lemma_find_char(line, ':', 0, n);
    assert(line.take(n) == name);
    assert(line.skip(n + 1) == text::joined(values, ","@));
    text::lemma_split_joined(values, ',');
    assert forall|j: int| 0 <= j < n implies name[j] != ':' by {
        assert(name.contains(name[j]));
    }
    text::lemma_find_char(name, ':', 0, n);
}

/// The lines of the head of a response: the status, the length of the content,
/// its media type, and what becomes of the connection.
pub proof fn law_response_lines(
    status: Seq<char>,
    length: nat,
    content_type: Seq<char>,
    keep_alive: bool,
)
    requires
        !status.contains('\r'),
        !content_type.contains('\r'),
    ensures
        ({
            let blank: Seq<char> = seq![];
            let lines = text::split_at_each(
                response_head(status, length, content_type, keep_alive),
                "\r\n"@,
            );
            &&& lines.len() == 8
            &&& lines[0] == "HTTP/1.1 "@ + status
            &&& lines[1] == "Content-Length: "@ + text::decimal(length)
            &&& lines[2] == "Content-Type: "@ + content_type
            &&& lines[3] == "Cache-Control: no-cache"@
            &&& lines[4] == "Connection: "@ + (if keep_alive {
                "keep-alive"@
            } else {
                "close"@
            })
            &&& lines[5] == "Keep-Alive: timeout=10, max="@ + text::decimal(100)
            &&& lines[6] == blank
            &&& lines[7] == blank
        }),
{
    reveal_strlit("HTTP/1.1 ");
    reveal_strlit("Content-Length: ");
    reveal_strlit("Content-Type: ");
    reveal_strlit("Cache-Control: no-cache");
    reveal_strlit("Connection: ");
    reveal_strlit("Keep-Alive: timeout=10, max=");
    reveal_strlit("\r\nContent-Length: ");
    reveal_strlit("\r\nContent-Type: ");
    reveal_strlit("\r\nCache-Control: no-cache\r\nConnection: ");
    reveal_strlit("\r\nKeep-Alive: timeout=10, max=");
    reveal_strlit("\r\n\r\n");
    reveal_strlit("\r\n");
    reveal_strlit("keep-alive");
    reveal_strlit("close");
    let blank: Seq<char> = seq![];
    let end = "\r\n"@;
    let value = connection_value(keep_alive);
    let l0 = "HTTP/1.1 "@ + status;
    let l1 = "Content-Length: "@ + text::decimal(length);
    let l2 = "Content-Type: "@ + content_type;
    let l3 = "Cache-Control: no-cache"@;
    let l4 = "Connection: "@ + value;
    let l5 = "Keep-Alive: timeout=10, max="@ + text::decimal(100);
    lemma_decimal_is_plain(length);
    lemma_decimal_is_plain(100);
    lemma_plain_line("HTTP/1.1 "@, status);
    lemma_plain_line("Content-Length: "@, text::decimal(length));
    lemma_plain_line("Content-Type: "@, content_type);
    lemma_plain_line("Connection: "@, value);
    lemma_plain_line("Keep-Alive: timeout=10, max="@, text::decimal(100));
    let lines = seq![l0, l1, l2, l3, l4, l5, blank, blank];
    text::law_lines(lines);
    lemma_eight_lines(l0, l1, l2, l3, l4, l5, blank, blank, end);
    assert("\r\nContent-Length: "@ == end + "Content-Length: "@);
    assert("\r\nContent-Type: "@ == end + "Content-Type: "@);
    assert("\r\nCache-Control: no-cache\r\nConnection: "@ == end + l3 + end + "Connection: "@);
    assert("\r\nKeep-Alive: timeout=10, max="@ == end + "Keep-Alive: timeout=10, max="@);
    assert("\r\n\r\n"@ == end + blank + end + blank);
    lemma_response_assembled(
        l0,
        end,
        "Content-Length: "@,
        text::decimal(length),
        "Content-Type: "@,
        content_type,
        l3,
        "Connection: "@,
        value,
        "Keep-Alive: timeout=10, max="@,
        text::decimal(100),
        blank,
    );
}

proof fn lemma_response_assembled(
    l0: Seq<char>,
    end: Seq<char>,
    a: Seq<char>,
    b: Seq<char>,
    c: Seq<char>,
    d: Seq<char>,
    l3: Seq<char>,
    e: Seq<char>,
    f: Seq<char>,
    g: Seq<char>,
    h: Seq<char>,
    blank: Seq<char>,
)
    ensures
        l0 + (end + a) + b + (end + c) + d + (end + l3 + end + e) + f + (end + g) + h + (end + blank
            + end + blank) == l0 + end + (a + b) + end + (c + d) + end + l3 + end + (e + f) + end + (
        g + h) + end + blank + end + blank,
{
    let one = l0 + (end + a) + b + (end + c) + d;
    let two = l0 + end + (a + b) + end + (c + d);
    assert(one == two);
    assert(one + (end + l3 + end + e) + f == two + end + l3 + end + (e + f));
    let three = two + end + l3 + end + (e + f);
    assert(three + (end + g) + h == three + end + (g + h));
    let four = three + end + (g + h);
    assert(four + (end + blank + end + blank) == four + end + blank + end + blank);
}

proof fn lemma_plain_line(label: Seq<char>, value: Seq<char>)
    requires
        !label.contains('\r'),
        !value.contains('\r'),
    ensures
        !(label + value).contains('\r'),
{
    let line = label + value;
    assert forall|i: int| 0 <= i < line.len() implies line[i] != '\r' by {
        if i < label.len() {
            assert(label.contains(label[i]));
        } else {
            assert(value.contains(value[i - label.len()]));
        }
    }
}

proof fn lemma_eight_lines(
    l0: Seq<char>,
    l1: Seq<char>,
    l2: Seq<char>,
    l3: Seq<char>,
    l4: Seq<char>,
    l5: Seq<char>,
    l6: Seq<char>,
    l7: Seq<char>,
    end: Seq<char>,
)
    ensures
        text::joined(seq![l0, l1, l2, l3, l4, l5, l6, l7], end) == l0 + end + l1 + end + l2 + end
            + l3 + end + l4 + end + l5 + end + l6 + end + l7,
{
    text::law_joined(seq![], l0, end);
    text::law_joined(seq![l0], l1, end);
    text::law_joined(seq![l0, l1], l2, end);
    text::law_joined(seq![l0, l1, l2], l3, end);
    text::law_joined(seq![l0, l1, l2, l3], l4, end);
    text::law_joined(seq![l0, l1, l2, l3, l4], l5, end);
    text::law_joined(seq![l0, l1, l2, l3, l4, l5], l6, end);
    text::law_joined(seq![l0, l1, l2, l3, l4, l5, l6], l7, end);
    assert(seq![l0].push(l1) == seq![l0, l1]);
    assert(seq![l0, l1].push(l2) == seq![l0, l1, l2]);
    assert(seq![l0, l1, l2].push(l3) == seq![l0, l1, l2, l3]);
    assert(seq![l0, l1, l2, l3].push(l4) == seq![l0, l1, l2, l3, l4]);
    assert(seq![l0, l1, l2, l3, l4].push(l5) == seq![l0, l1, l2, l3, l4, l5]);
    assert(seq![l0, l1, l2, l3, l4, l5].push(l6) == seq![l0, l1, l2, l3, l4, l5, l6]);
    assert(seq![l0, l1, l2, l3, l4, l5, l6].push(l7) == seq![l0, l1, l2, l3, l4, l5, l6, l7]);
}

/// The lines of an error: the status, the methods that are allowed if they are
/// stated, the length of the message in bytes, its media type, what becomes of
/// the connection, a blank line, and the message.
pub proof fn law_error_lines(
    status: Seq<char>,
    message: Seq<char>,
    keep_alive: bool,
    allow: Option<Seq<char>>,
)
    requires
        !status.contains('\r'),
        !message.contains('\r'),
        allow matches Some(methods) ==> !methods.contains('\r'),
    ensures
        ({
            let blank: Seq<char> = seq![];
            let lines = text::split_at_each(
                error_text(status, message, keep_alive, allow),
                "\r\n"@,
            );
            let k: int = if allow is Some {
                1
            } else {
                0
            };
            &&& lines.len() == 6 + k
            &&& lines[0] == "HTTP/1.1 "@ + status
            &&& allow matches Some(methods) ==> lines[1] == "Allow: "@ + methods
            &&& lines[1 + k] == "Content-Length: "@ + text::decimal(encode_utf8(message).len())
            &&& lines[2 + k] == "Content-Type: text/plain; charset=utf-8"@
            &&& lines[3 + k] == "Connection: "@ + (if keep_alive {
                "keep-alive"@
            } else {
                "close"@
            })
            &&& lines[4 + k] == blank
            &&& lines[5 + k] == message
        }),
{
    reveal_strlit("HTTP/1.1 ");
    reveal_strlit("Allow: ");
    reveal_strlit("Content-Length: ");
    reveal_strlit("Content-Type: text/plain; charset=utf-8");
    reveal_strlit("Connection: ");
    reveal_strlit("\r\nContent-Type: text/plain; charset=utf-8\r\nConnection: ");
    reveal_strlit("\r\n\r\n");
    reveal_strlit("\r\n");
    reveal_strlit("keep-alive");
    reveal_strlit("close");
    let blank: Seq<char> = seq![];
    let end = "\r\n"@;
    let value = connection_value(keep_alive);
    let count = text::decimal(encode_utf8(message).len());
    let l0 = "HTTP/1.1 "@ + status;
    let l1 = "Content-Length: "@ + count;
    let l2 = "Content-Type: text/plain; charset=utf-8"@;
    let l3 = "Connection: "@ + value;
    lemma_decimal_is_plain(encode_utf8(message).len());
    lemma_plain_line("HTTP/1.1 "@, status);
    lemma_plain_line("Content-Length: "@, count);
    lemma_plain_line("Connection: "@, value);
    assert("\r\nContent-Type: text/plain; charset=utf-8\r\nConnection: "@ == end + l2 + end
        + "Connection: "@);
    assert("\r\n\r\n"@ == end + blank + end);
    let whole = error_text(status, message, keep_alive, allow);
    let rest = "Content-Length: "@ + count + (end + l2 + end + "Connection: "@) + value + (end
        + blank + end) + message;
    let tail = l1 + end + l2 + end + l3 + end + blank + end + message;
    assert(rest == tail) by {
        assert("Content-Length: "@ + count + (end + l2 + end + "Connection: "@) + value == l1 + end
            + l2 + end + l3);
        let front = l1 + end + l2 + end + l3;
        assert(front + (end + blank + end) + message == front + end + blank + end + message);
    }
    match allow {
        Some(methods) => {
            let la = "Allow: "@ + methods;
            lemma_plain_line("Allow: "@, methods);
            let lines = seq![l0, la, l1, l2, l3, blank, message];
            text::law_lines(lines);
            lemma_joined_front(l0, seq![la, l1, l2, l3, blank, message], end);
            assert(seq![l0] + seq![la, l1, l2, l3, blank, message] == lines);
            lemma_joined_front(la, seq![l1, l2, l3, blank, message], end);
            assert(seq![la] + seq![l1, l2, l3, blank, message] == seq![
                la,
                l1,
                l2,
                l3,
                blank,
                message,
            ]);
            lemma_five_lines(l1, l2, l3, blank, message, end);
            assert(allow_header(allow) == la + end);
            assert(whole == l0 + end + (la + end) + rest);
            assert(l0 + end + (la + end) + tail == l0 + end + (la + end + tail));
        },
        None => {
            let lines = seq![l0, l1, l2, l3, blank, message];
            text::law_lines(lines);
            lemma_joined_front(l0, seq![l1, l2, l3, blank, message], end);
            assert(seq![l0] + seq![l1, l2, l3, blank, message] == lines);
            lemma_five_lines(l1, l2, l3, blank, message, end);
            assert(whole == l0 + end + blank + rest);
            assert(l0 + end + blank + tail == l0 + end + tail);
        },
    }
}

proof fn lemma_joined_front(first: Seq<char>, rest: Seq<Seq<char>>, end: Seq<char>)
    requires
        rest.len() > 0,
    ensures
        text::joined(seq![first] + rest, end) == first + end + text::joined(rest, end),
{
    let all = seq![first] + rest;
    assert(all.drop_first() == rest);
    text::lemma_joined_first(all, end);
}

proof fn lemma_five_lines(
    l0: Seq<char>,
    l1: Seq<char>,
    l2: Seq<char>,
    l3: Seq<char>,
    l4: Seq<char>,
    end: Seq<char>,
)
    ensures
        text::joined(seq![l0, l1, l2, l3, l4], end) == l0 + end + l1 + end + l2 + end + l3 + end
            + l4,
{
    text::law_joined(seq![], l0, end);
    text::law_joined(seq![l0], l1, end);
    text::law_joined(seq![l0, l1], l2, end);
    text::law_joined(seq![l0, l1, l2], l3, end);
    text::law_joined(seq![l0, l1, l2, l3], l4, end);
    assert(seq![l0].push(l1) == seq![l0, l1]);
    assert(seq![l0, l1].push(l2) == seq![l0, l1, l2]);
    assert(seq![l0, l1, l2].push(l3) == seq![l0, l1, l2, l3]);
    assert(seq![l0, l1, l2, l3].push(l4) == seq![l0, l1, l2, l3, l4]);
}

/// Only the head is sent where only it is wanted, and the body of the response
/// otherwise too.
pub proof fn law_reply_body(response: ResponseView)
    ensures
        reply_body(response, true) is None,
        reply_body(response, false) == Some(response.body),
{
}

/// What is said of a request that could not be read.
pub proof fn law_request_errors(error: RequestError)
    ensures
        error.text() == "客户端提前关闭连接"@ <==> error is Closed,
        error.text() == "HTTP 请求头过大"@ <==> error is TooLarge,
        error.text() == "HTTP 请求不是有效 UTF-8"@ <==> error is NotText,
{
    reveal_strlit("客户端提前关闭连接");
    reveal_strlit("HTTP 请求头过大");
    reveal_strlit("HTTP 请求不是有效 UTF-8");
    assert("客户端提前关闭连接"@[0] != "HTTP 请求头过大"@[0]);
    assert("HTTP 请求头过大"@.len() != "HTTP 请求不是有效 UTF-8"@.len());
    assert("客户端提前关闭连接"@.len() != "HTTP 请求不是有效 UTF-8"@.len());
}

} // verus!
