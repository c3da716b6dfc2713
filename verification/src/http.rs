//! The little of HTTP that the programs speak among themselves: a request, the body of the
//! answer, and which page a request is for.

use crate::text;
use vstd::prelude::*;
use vstd::string::StrSliceExecFns;
use vstd::string::StringExecFns;

verus! {

// ---- Addresses ---------------------------------------------------------------------

/// The host and the path that an address names; the path is a slash where there is none.
pub open spec fn url_parts(url: Seq<char>) -> Option<(Seq<char>, Seq<char>)> {
    match text::after_prefix(url, "http://"@) {
        None => None,
        Some(rest) => {
            let host = text::before(rest, '/');
            let path = if host.len() < rest.len() {
                rest.skip(host.len() as int)
            } else {
                "/"@
            };
            Some((host, path))
        },
    }
}

/// Parts an address into host and path.
pub fn split_url(url: &str) -> (parts: Option<(String, String)>)
    ensures
        match parts {
            Some((host, path)) => url_parts(url@) == Some((host@, path@)),
            None => url_parts(url@) is None,
        },
{
    match text::strip_prefix_text(url, "http://") {
        None => None,
        Some(rest) => {
            let host = text::before_char(rest, '/');
            let n: usize = host.unicode_len();
            let len: usize = rest.unicode_len();
            if n < len {
                assert(rest@.skip(n as int) =~= rest@.subrange(n as int, len as int));
                Some((host.to_owned(), rest.substring_char(n, len).to_owned()))
            } else {
                Some((host.to_owned(), "/".to_owned()))
            }
        },
    }
}

/// An address that is put together from a host and a path comes apart into them again.
pub proof fn law_url_parts(host: Seq<char>, path: Seq<char>)
    requires
        forall|i: int| 0 <= i < host.len() ==> host[i] != '/',
        path.len() > 0,
        path[0] == '/',
    ensures
        url_parts("http://"@ + host + path) == Some((host, path)),
{
    let scheme = "http://"@;
    let url = scheme + host + path;
    assert(url.subrange(0, scheme.len() as int) =~= scheme);
    let rest = url.skip(scheme.len() as int);
    assert(rest =~= host + path);
    text::lemma_before(rest, '/', host.len() as int);
    assert(rest.take(host.len() as int) =~= host);
    assert(rest.skip(host.len() as int) =~= path);
}

/// The path that is asked for: the target of a request up to the question mark.
pub open spec fn path_of(target: Seq<char>) -> Seq<char> {
    text::before(target, '?')
}

// ---- Requests and answers ------------------------------------------------------------

/// The request for a page.
pub open spec fn get_request(host: Seq<char>, path: Seq<char>) -> Seq<char> {
    "GET "@ + path + " HTTP/1.0\r\nHost: "@ + host + "\r\nConnection: close\r\n\r\n"@
}

/// The request for a page.
pub fn get_request_text(host: &str, path: &str) -> (request: String)
    ensures
        request@ == get_request(host@, path@),
{
    let mut request = "GET ".to_owned();
    request.append(path);
    request.append(" HTTP/1.0\r\nHost: ");
    request.append(host);
    request.append("\r\nConnection: close\r\n\r\n");
    request
}

/// The request that hands over a JSON text.
pub open spec fn post_request(host: Seq<char>, path: Seq<char>, body: Seq<char>) -> Seq<char> {
    "POST "@ + path + " HTTP/1.0\r\nHost: "@ + host
        + "\r\nContent-Type: application/json\r\nContent-Length: "@ + text::decimal(
        vstd::utf8::encode_utf8(body).len(),
    ) + "\r\nConnection: close\r\n\r\n"@ + body
}

/// The request that hands over a JSON text.
pub fn post_request_text(host: &str, path: &str, body: &str) -> (request: String)
    ensures
        request@ == post_request(host@, path@, body@),
{
    let bytes = body.as_bytes();
    let mut request = "POST ".to_owned();
    request.append(path);
    request.append(" HTTP/1.0\r\nHost: ");
    request.append(host);
    request.append("\r\nContent-Type: application/json\r\nContent-Length: ");
    request.append(text::u64_text(bytes.len() as u64).as_str());
    request.append("\r\nConnection: close\r\n\r\n");
    request.append(body);
    request
}

/// The body of an answer: what follows the first empty line.
pub open spec fn body_of(response: Seq<char>) -> Option<Seq<char>> {
    match text::first(response, "\r\n\r\n"@) {
        Some(p) => Some(response.skip(p + 4)),
        None => None,
    }
}

/// The body of an answer.
pub fn response_body(response: &str) -> (body: Option<String>)
    ensures
        match body {
            Some(b) => body_of(response@) == Some(b@),
            None => body_of(response@) is None,
        },
{
    proof {
        reveal_strlit("\r\n\r\n");
        text::lemma_first_from(response@, "\r\n\r\n"@, 0);
    }
    match text::find_text(response, "\r\n\r\n") {
        Some(p) => {
            let len: usize = response.unicode_len();
            assert(response@.skip(p + 4) =~= response@.subrange(p + 4, len as int));
            Some(response.substring_char(p + 4, len).to_owned())
        },
        None => None,
    }
}

/// The body of an answer is all that was sent after the empty line that ends the head.
pub proof fn law_body_follows_head(head: Seq<char>, body: Seq<char>)
    requires
        forall|j: int| 0 <= j < head.len() ==> !text::occurs_at(head + "\r\n\r\n"@, "\r\n\r\n"@, j),
    ensures
        body_of(head + "\r\n\r\n"@ + body) == Some(body),
{
    reveal_strlit("\r\n\r\n");
    let gap = "\r\n\r\n"@;
    let start = head + gap;
    let all = start + body;
    let n = head.len() as int;
    assert(all.subrange(n, n + 4) =~= gap);
    assert forall|j: int| 0 <= j < n implies !text::occurs_at(all, gap, j) by {
        assert(!text::occurs_at(start, gap, j));
        assert(all.subrange(j, j + 4) =~= start.subrange(j, j + 4));
    }
    text::lemma_first_is(all, gap, n);
    assert(all.skip(n + 4) =~= body);
}

// ---- Pages ---------------------------------------------------------------------------

/// What a request is for.
#[derive(Clone, Copy, Debug, PartialEq, Eq, Structural)]
pub enum Route {
    Page,
    Chain,
    PoolStats,
    ClientStats,
    Status,
    NotFound,
}

/// The three programs that answer requests.
#[derive(Clone, Copy, Debug, PartialEq, Eq, Structural)]
pub enum Site {
    Solo,
    PoolServer,
    PoolClient,
}

/// What a request to one of the programs is for.
pub open spec fn route(site: Site, target: Seq<char>) -> Route {
    let path = path_of(target);
    if path == "/"@ || path == "/index.html"@ {
        Route::Page
    } else if path == "/status"@ {
        Route::Status
    } else if path == "/chain"@ && site == Site::Solo {
        Route::Chain
    } else if path == "/pool_stats"@ && site != Site::Solo {
        Route::PoolStats
    } else if path == "/client_stats"@ && site == Site::PoolClient {
        Route::ClientStats
    } else {
        Route::NotFound
    }
}

/// Tells what a request to one of the programs is for.
pub fn route_request(site: Site, target: &str) -> (r: Route)
    ensures
        r == route(site, target@),
{
    proof {
        reveal_strlit("/");
        reveal_strlit("/index.html");
        reveal_strlit("/status");
        reveal_strlit("/chain");
        reveal_strlit("/pool_stats");
        reveal_strlit("/client_stats");
    }
    let path = text::before_char(target, '?');
    if text::same_text(path, "/") || text::same_text(path, "/index.html") {
        Route::Page
    } else if text::same_text(path, "/status") {
        Route::Status
    } else if text::same_text(path, "/chain") && site == Site::Solo {
        Route::Chain
    } else if text::same_text(path, "/pool_stats") && site != Site::Solo {
        Route::PoolStats
    } else if text::same_text(path, "/client_stats") && site == Site::PoolClient {
        Route::ClientStats
    } else {
        Route::NotFound
    }
}

/// What goes before the body of an answer.
pub struct Head {
    pub status: u16,
    pub content_type: Option<String>,
    /// Whether pages of other origins may read the answer.
    pub open_to_all: bool,
    /// Whether the answer must not be kept.
    pub no_cache: bool,
}

/// The kind of text that an answer holds.
pub open spec fn content_type(r: Route) -> Option<Seq<char>> {
    match r {
        Route::Page => Some("text/html; charset=utf-8"@),
        Route::NotFound => None,
        _ => Some("application/json"@),
    }
}

/// The status of an answer.
pub open spec fn status_code(r: Route) -> u16 {
    if r == Route::NotFound {
        404
    } else {
        200
    }
}

/// Whether pages of other origins may read an answer.
pub open spec fn is_open(r: Route) -> bool {
    r != Route::Page && r != Route::NotFound
}

/// Whether an answer must not be kept.
pub open spec fn is_fleeting(r: Route) -> bool {
    r != Route::Status && r != Route::NotFound
}

/// What goes before the body of an answer to a request.
pub fn head_for(r: Route) -> (head: Head)
    ensures
        head.status == (if r == Route::NotFound { 404u16 } else { 200u16 }),
        match head.content_type {
            Some(t) => content_type(r) == Some(t@),
            None => content_type(r) is None,
        },
        head.open_to_all == (r != Route::Page && r != Route::NotFound),
        head.no_cache == (r != Route::Status && r != Route::NotFound),
        head.status == status_code(r),
        head.open_to_all == is_open(r),
        head.no_cache == is_fleeting(r),
{
    match r {
        Route::Page => Head {
            status: 200,
            content_type: Some("text/html; charset=utf-8".to_owned()),
            open_to_all: false,
            no_cache: true,
        },
        Route::NotFound => Head {
            status: 404,
            content_type: None,
            open_to_all: false,
            no_cache: false,
        },
        Route::Status => Head {
            status: 200,
            content_type: Some("application/json".to_owned()),
            open_to_all: true,
            no_cache: false,
        },
        _ => Head {
            status: 200,
            content_type: Some("application/json".to_owned()),
            open_to_all: true,
            no_cache: true,
        },
    }
}

/// The answer to a request for the status of a program.
pub open spec fn status_body(site: Site, connected: bool) -> Seq<char> {
    match site {
        Site::Solo => "{\"mode\":\"solo\",\"mining\":true}"@,
        Site::PoolServer => "{\"mode\":\"pool_server\",\"mining\":true}"@,
        Site::PoolClient => "{\"mode\":\"pool_client\",\"connected\":"@ + (if connected {
            "true"@
        } else {
            "false"@
        }) + "}"@,
    }
}

/// The answer to a request for the status of a program.
pub fn status_text(site: Site, connected: bool) -> (body: String)
    ensures
        body@ == status_body(site, connected),
{
    match site {
        Site::Solo => "{\"mode\":\"solo\",\"mining\":true}".to_owned(),
        Site::PoolServer => "{\"mode\":\"pool_server\",\"mining\":true}".to_owned(),
        Site::PoolClient => {
            let mut body = "{\"mode\":\"pool_client\",\"connected\":".to_owned();
            body.append(if connected { "true" } else { "false" });
            body.append("}");
            body
        },
    }
}

/// The answer where nothing was found, or where what was asked for cannot be had.
pub open spec fn missing_body(site: Site, r: Route) -> Seq<char> {
    match r {
        Route::NotFound => if site == Site::Solo {
            "404 not found"@
        } else {
            "404"@
        },
        Route::Chain => "{\"error\":\"chain file not found\"}"@,
        Route::PoolStats => if site == Site::PoolClient {
            "{\"error\":\"pool server unreachable\"}"@
        } else {
            "{}"@
        },
        _ => "{}"@,
    }
}

/// The answer where nothing was found, or where what was asked for cannot be had.
pub fn missing_text(site: Site, r: Route) -> (body: String)
    ensures
        body@ == missing_body(site, r),
{
    match r {
        Route::NotFound => if site == Site::Solo {
            "404 not found".to_owned()
        } else {
            "404".to_owned()
        },
        Route::Chain => "{\"error\":\"chain file not found\"}".to_owned(),
        Route::PoolStats => if site == Site::PoolClient {
            "{\"error\":\"pool server unreachable\"}".to_owned()
        } else {
            "{}".to_owned()
        },
        _ => "{}".to_owned(),
    }
}

/// The body of an answer. `page` is the dashboard page, and `data` what was asked for where that is
/// neither the page nor the status, if it can be had.
pub open spec fn answer_body(
    site: Site,
    r: Route,
    page: Seq<char>,
    connected: bool,
    data: Option<Seq<char>>,
) -> Seq<char> {
    match r {
        Route::Page => page,
        Route::Status => status_body(site, connected),
        Route::NotFound => missing_body(site, r),
        _ => match data {
            Some(d) => d,
            None => missing_body(site, r),
        },
    }
}

/// The body of an answer.
pub fn body_for(site: Site, r: Route, page: &str, connected: bool, data: Option<String>) -> (body:
    String)
    ensures
        body@ == answer_body(
            site,
            r,
            page@,
            connected,
            match data {
                Some(d) => Some(d@),
                None => None,
            },
        ),
{
    match r {
        Route::Page => page.to_owned(),
        Route::Status => status_text(site, connected),
        Route::NotFound => missing_text(site, r),
        _ => match data {
            Some(d) => d,
            None => missing_text(site, r),
        },
    }
}

// ---- What requests and answers promise -------------------------------------------------

/// A request for a page names the page and the host, and ends with an empty line.
pub proof fn law_get_request_names_the_page(host: Seq<char>, path: Seq<char>)
    ensures
        ({
            let r = get_request(host, path);
            let n = path.len() as int;
            &&& r.take(4) == "GET "@
            &&& r.subrange(4, 4 + n) == path
            &&& r.subrange(4 + n, 21 + n) == " HTTP/1.0\r\nHost: "@
            &&& r.subrange(21 + n, 21 + n + host.len()) == host
            &&& r.skip(21 + n + host.len()) == "\r\nConnection: close\r\n\r\n"@
        }),
{
    reveal_strlit("GET ");
    reveal_strlit(" HTTP/1.0\r\nHost: ");
    let r = get_request(host, path);
    let n = path.len() as int;
    assert(r.take(4) =~= "GET "@);
    assert(r.subrange(4, 4 + n) =~= path);
    assert(r.subrange(4 + n, 21 + n) =~= " HTTP/1.0\r\nHost: "@);
    assert(r.subrange(21 + n, 21 + n + host.len()) =~= host);
    assert(r.skip(21 + n + host.len()) =~= "\r\nConnection: close\r\n\r\n"@);
}

/// A request that hands over a text names the page and the host, says how many bytes the text has,
/// and has the whole text behind the empty line that ends its head.
pub proof fn law_post_request_hands_over_the_text(
    host: Seq<char>,
    path: Seq<char>,
    body: Seq<char>,
)
    ensures
        ({
            let length = text::decimal(vstd::utf8::encode_utf8(body).len());
            let head = "POST "@ + path + " HTTP/1.0\r\nHost: "@ + host
                + "\r\nContent-Type: application/json\r\nContent-Length: "@ + length
                + "\r\nConnection: close"@;
            &&& post_request(host, path, body) == head + "\r\n\r\n"@ + body
            &&& text::digits_value(length) == vstd::utf8::encode_utf8(body).len()
            &&& (forall|j: int|
                0 <= j < head.len() ==> !text::occurs_at(
                    head + "\r\n\r\n"@,
                    "\r\n\r\n"@,
                    j,
                )) ==> body_of(post_request(host, path, body)) == Some(body)
        }),
{
    reveal_strlit("\r\nConnection: close\r\n\r\n");
    reveal_strlit("\r\nConnection: close");
    reveal_strlit("\r\n\r\n");
    let length = text::decimal(vstd::utf8::encode_utf8(body).len());
    text::law_decimal_reads_back(vstd::utf8::encode_utf8(body).len());
    let start = "POST "@ + path + " HTTP/1.0\r\nHost: "@ + host
        + "\r\nContent-Type: application/json\r\nContent-Length: "@ + length;
    let head = start + "\r\nConnection: close"@;
    assert("\r\nConnection: close\r\n\r\n"@ =~= "\r\nConnection: close"@ + "\r\n\r\n"@);
    assert(post_request(host, path, body) =~= head + "\r\n\r\n"@ + body);
    if forall|j: int|
        0 <= j < head.len() ==> !text::occurs_at(head + "\r\n\r\n"@, "\r\n\r\n"@, j) {
        law_body_follows_head(head, body);
    }
}

/// An answer without an empty line has no body.
pub proof fn law_no_empty_line_no_body(response: Seq<char>)
    requires
        !text::occurs(response, "\r\n\r\n"@),
    ensures
        body_of(response) is None,
{
    text::lemma_first_from(response, "\r\n\r\n"@, 0);
}

/// An address that does not begin as one has no parts; one without a path asks for the root.
pub proof fn law_url_without_path(host: Seq<char>, url: Seq<char>)
    requires
        forall|i: int| 0 <= i < host.len() ==> host[i] != '/',
    ensures
        url_parts("http://"@ + host) == Some((host, "/"@)),
        !text::begins(url, "http://"@) ==> url_parts(url) is None,
{
    text::law_prefix_comes_off("http://"@, host);
    text::law_before_the_first(host, '/', seq![]);
}

/// What stands behind the question mark does not matter to what a request is for.
pub proof fn law_query_does_not_matter(site: Site, path: Seq<char>, query: Seq<char>)
    requires
        forall|i: int| 0 <= i < path.len() ==> path[i] != '?',
    ensures
        route(site, path + seq!['?'] + query) == route(site, path),
{
    text::law_before_the_first(path, '?', query);
}

/// Which paths are served: the page and the status by all programs, the chain by the solo miner, the
/// figures of the pool by its server and its miners, and those of a miner by that miner; nothing else
/// is.
pub proof fn law_paths_are_served(site: Site, path: Seq<char>)
    requires
        forall|i: int| 0 <= i < path.len() ==> path[i] != '?',
    ensures
        route(site, path) == Route::Page <==> path == "/"@ || path == "/index.html"@,
        route(site, path) == Route::Status <==> path == "/status"@,
        route(site, path) == Route::Chain <==> path == "/chain"@ && site == Site::Solo,
        route(site, path) == Route::PoolStats <==> path == "/pool_stats"@ && (site
            == Site::PoolServer || site == Site::PoolClient),
        route(site, path) == Route::ClientStats <==> path == "/client_stats"@ && site
            == Site::PoolClient,
{
    text::law_before_the_first(path, '?', seq![]);
    reveal_strlit("/");
    reveal_strlit("/index.html");
    reveal_strlit("/status");
    reveal_strlit("/chain");
    reveal_strlit("/pool_stats");
    reveal_strlit("/client_stats");
    assert("/"@.len() == 1 && "/index.html"@.len() == 11 && "/status"@.len() == 7);
    assert("/chain"@.len() == 6 && "/pool_stats"@.len() == 11 && "/client_stats"@.len() == 13);
    assert("/index.html"@[1] == 'i' && "/pool_stats"@[1] == 'p');
}

/// What is answered: the page as it is, the data as they are where they can be had, and else words
/// that say what is missing.
pub proof fn law_answers_hold_what_was_asked_for(
    site: Site,
    r: Route,
    page: Seq<char>,
    connected: bool,
    data: Seq<char>,
)
    ensures
        answer_body(site, Route::Page, page, connected, Some(data)) == page,
        answer_body(site, Route::Page, page, connected, None) == page,
        r == Route::Chain || r == Route::PoolStats || r == Route::ClientStats ==> answer_body(
            site,
            r,
            page,
            connected,
            Some(data),
        ) == data,
        answer_body(site, Route::Chain, page, connected, None)
            == "{\"error\":\"chain file not found\"}"@,
        answer_body(Site::PoolClient, Route::PoolStats, page, connected, None)
            == "{\"error\":\"pool server unreachable\"}"@,
        answer_body(Site::PoolServer, Route::PoolStats, page, connected, None) == "{}"@,
        answer_body(Site::PoolClient, Route::ClientStats, page, connected, None) == "{}"@,
        answer_body(Site::Solo, Route::NotFound, page, connected, Some(data)) == "404 not found"@,
        site != Site::Solo ==> answer_body(site, Route::NotFound, page, connected, Some(data))
            == "404"@,
        answer_body(Site::Solo, Route::Status, page, connected, Some(data))
            == "{\"mode\":\"solo\",\"mining\":true}"@,
        answer_body(Site::PoolServer, Route::Status, page, connected, Some(data))
            == "{\"mode\":\"pool_server\",\"mining\":true}"@,
        answer_body(Site::PoolClient, Route::Status, page, connected, Some(data))
            == "{\"mode\":\"pool_client\",\"connected\":"@ + (if connected {
            "true"@
        } else {
            "false"@
        }) + "}"@,
        content_type(Route::Page) == Some("text/html; charset=utf-8"@),
        content_type(Route::NotFound) is None,
        r != Route::Page && r != Route::NotFound ==> content_type(r) == Some("application/json"@),
{
}

/// Everything that is served is answered with 200, and the rest with 404; the data may be read by
/// pages of other origins, and must not be kept.
pub proof fn law_heads_go_by_the_route()
    ensures
        status_code(Route::NotFound) == 404 && !is_open(Route::NotFound) && !is_fleeting(
            Route::NotFound,
        ),
        status_code(Route::Page) == 200 && !is_open(Route::Page) && is_fleeting(Route::Page),
        status_code(Route::Status) == 200 && is_open(Route::Status) && !is_fleeting(Route::Status),
        status_code(Route::Chain) == 200 && is_open(Route::Chain) && is_fleeting(Route::Chain),
        status_code(Route::PoolStats) == 200 && is_open(Route::PoolStats) && is_fleeting(
            Route::PoolStats,
        ),
        status_code(Route::ClientStats) == 200 && is_open(Route::ClientStats) && is_fleeting(
            Route::ClientStats,
        ),
{
}

} // verus!
