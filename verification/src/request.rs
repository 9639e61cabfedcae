use vstd::prelude::*;

use crate::context::RumContext;
use crate::external::mime_form_urlencoded;
use crate::params::{ParamMap, add_params};
use crate::text::{
    split_once, split_on, lines_of, trim_ws, contains_seq, views, split_once_str, split_char,
    lines_str, trim_str, contains_str,
};

verus! {

/// What the request line names: the method, the route (without its query)
/// and the protocol version.
pub struct RequestLine {
    pub method: String,
    pub route: String,
    pub http_ver: String,
}

/// Why a request could not be read.
#[derive(PartialEq, Eq, Structural, Clone, Copy, Debug)]
pub enum RequestError {
    /// The request line has no space after the method.
    MissingRoute,
    /// The request line has no space after the route.
    MissingVersion,
    /// A header line has no `": "`.
    MalformedHeader,
}

/// What has been read from a request after some of its lines.
pub struct ParsedRequest {
    pub header_parsed: bool,
    pub method: Seq<char>,
    pub route: Seq<char>,
    pub http_ver: Seq<char>,
    pub query_params: Map<Seq<char>, Seq<char>>,
    pub request_headers: Map<Seq<char>, Seq<char>>,
    pub form_params: Map<Seq<char>, Seq<char>>,
    pub request_body: Seq<char>,
}

/// Nothing read yet.
pub open spec fn parse_start() -> ParsedRequest {
    ParsedRequest {
        header_parsed: false,
        method: Seq::empty(),
        route: Seq::empty(),
        http_ver: Seq::empty(),
        query_params: Map::empty(),
        request_headers: Map::empty(),
        form_params: Map::empty(),
        request_body: Seq::empty(),
    }
}

/// Reads line number `index`: an empty line ends the headers; the first
/// line is the request line `"<method> <route>[?<query>] <version>"`; the
/// lines before the empty one are headers `"<name>: <value>"`; the lines
/// after it are joined into the body.
pub open spec fn parse_step(st: ParsedRequest, index: nat, line: Seq<char>) -> Result<
    ParsedRequest,
    RequestError,
> {
    if line.len() == 0 {
        Ok(ParsedRequest { header_parsed: true, ..st })
    } else if index == 0 {
        let (method, after_method) = split_once(line, " "@);
        match after_method {
            None => Err(RequestError::MissingRoute),
            Some(after) => {
                let (route_with_query, after_route) = split_once(after, " "@);
                let pieces = split_on(route_with_query, '?');
                let query_params = if pieces.len() > 1 {
                    add_params(st.query_params, split_on(pieces[1], '&'))
                } else {
                    st.query_params
                };
                match after_route {
                    None => Err(RequestError::MissingVersion),
                    Some(http_ver) => Ok(
                        ParsedRequest { method, route: pieces[0], http_ver, query_params, ..st },
                    ),
                }
            },
        }
    } else if !st.header_parsed {
        let (name, value) = split_once(line, ": "@);
        match value {
            None => Err(RequestError::MalformedHeader),
            Some(v) => Ok(
                ParsedRequest { request_headers: st.request_headers.insert(name, v), ..st },
            ),
        }
    } else {
        Ok(ParsedRequest { request_body: st.request_body + line, ..st })
    }
}

/// Reads the first `n` lines.
pub open spec fn parse_lines(lines: Seq<Seq<char>>, n: nat) -> Result<ParsedRequest, RequestError>
    decreases n,
{
    if n == 0 {
        Ok(parse_start())
    } else {
        match parse_lines(lines, (n - 1) as nat) {
            Ok(st) => parse_step(st, (n - 1) as nat, lines[n - 1]),
            Err(e) => Err(e),
        }
    }
}

/// Reads a whole request: its lines, then the body trimmed, and the form
/// parameters of the body where the `Content-Type` header names the
/// URL-encoded form type.
pub open spec fn parse_request_spec(requests: Seq<char>) -> Result<ParsedRequest, RequestError> {
    let ls = lines_of(requests);
    match parse_lines(ls, ls.len()) {
        Ok(st) => {
            let body = trim_ws(st.request_body);
            let content_type = if st.request_headers.contains_key("Content-Type"@) {
                st.request_headers["Content-Type"@]
            } else {
                Seq::empty()
            };
            let form_params = if contains_seq(content_type, "application/x-www-form-urlencoded"@) {
                add_params(Map::empty(), split_on(body, '&'))
            } else {
                Map::empty()
            };
            Ok(ParsedRequest { request_body: body, form_params, ..st })
        },
        Err(e) => Err(e),
    }
}

/// Once reading fails, the rest of the lines do not change the outcome.
proof fn lemma_parse_error_stays(lines: Seq<Seq<char>>, k: nat, n: nat)
    requires
        k <= n,
        parse_lines(lines, k) is Err,
    ensures
        parse_lines(lines, n) == parse_lines(lines, k),
    decreases n - k,
{
    if k < n {
        lemma_parse_error_stays(lines, k, (n - 1) as nat);
    }
}

/// A failure to read the lines is the failure to read the request.
proof fn lemma_spec_error(requests: Seq<char>, e: RequestError)
    requires
        parse_lines(lines_of(requests), lines_of(requests).len()) == Err::<ParsedRequest, RequestError>(e),
    ensures
        parse_request_spec(requests) == Err::<ParsedRequest, RequestError>(e),
{
}

/// The state of the reader as it stands in the reading loop.
pub open spec fn reader_state(
    header_parsed: bool,
    method: Seq<char>,
    route: Seq<char>,
    http_ver: Seq<char>,
    query_params: Map<Seq<char>, Seq<char>>,
    request_headers: Map<Seq<char>, Seq<char>>,
    request_body: Seq<char>,
) -> ParsedRequest {
    ParsedRequest {
        header_parsed,
        method,
        route,
        http_ver,
        query_params,
        request_headers,
        form_params: Map::empty(),
        request_body,
    }
}

/// Reads the request text `requests` into a context for its handler, and
/// its request line.
pub fn parse_request<'a>(template_engine: Option<&'a tera::Tera>, requests: &str) -> (r: Result<
    (RumContext<'a>, RequestLine),
    RequestError,
>)
    ensures
        match r {
            Ok(res) => {
                &&& parse_request_spec(requests@) is Ok
                &&& res.0.wf()
                &&& res.1.method@ == parse_request_spec(requests@)->Ok_0.method
                &&& res.1.route@ == parse_request_spec(requests@)->Ok_0.route
                &&& res.1.http_ver@ == parse_request_spec(requests@)->Ok_0.http_ver
                &&& res.0.query_params_view() == parse_request_spec(requests@)->Ok_0.query_params
                &&& res.0.request_headers_view() == parse_request_spec(
                    requests@,
                )->Ok_0.request_headers
                &&& res.0.form_params_view() == parse_request_spec(requests@)->Ok_0.form_params
                &&& res.0.request_body_view() == parse_request_spec(requests@)->Ok_0.request_body
                &&& res.0.url_params_view() == Map::<Seq<char>, Seq<char>>::empty()
                &&& res.0.response_view() == (crate::status_code::status_line(200), "html"@, Seq::<char>::empty())
                &&& res.0.has_template_engine() == (template_engine is Some)
            },
            Err(e) => parse_request_spec(requests@) == Err::<ParsedRequest, RequestError>(e),
        },
{
    let lines = lines_str(requests);
    let ghost ls = lines_of(requests@);
    let n = lines.len();
    let mut header_parsed = false;
    let mut method = String::new();
    let mut route = String::new();
    let mut http_ver = String::new();
    let mut query_params = ParamMap::new();
    let mut request_headers = ParamMap::new();
    let mut request_body = String::new();
    let mut i: usize = 0;
    while i < n
        invariant
            ls == lines_of(requests@),
            views(lines@) == ls,
            n == ls.len(),
            i <= n,
            query_params.wf(),
            request_headers.wf(),
            parse_lines(ls, i as nat) == Ok::<ParsedRequest, RequestError>(
                reader_state(
                    header_parsed,
                    method@,
                    route@,
                    http_ver@,
                    query_params@,
                    request_headers@,
                    request_body@,
                ),
            ),
        decreases n - i,
    {
        let line = &lines[i];
        assert(ls[i as int] == line@);
        if line.as_str().is_empty() {
            header_parsed = true;
        } else if i == 0 {
            let (m, after_method) = split_once_str(line.as_str(), " ");
            match after_method {
                None => {
                    proof {
                        assert(parse_lines(ls, (i + 1) as nat) == Err::<ParsedRequest, RequestError>(RequestError::MissingRoute));
                        lemma_parse_error_stays(ls, (i + 1) as nat, n as nat);
                        assert(parse_lines(ls, n as nat) == Err::<ParsedRequest, RequestError>(RequestError::MissingRoute));
                        lemma_spec_error(requests@, RequestError::MissingRoute);
                    }
                    return Err(RequestError::MissingRoute);
                },
                Some(after) => {
                    let (route_with_query, after_route) = split_once_str(after.as_str(), " ");
                    let pieces = split_char(route_with_query.as_str(), '?');
                    proof {
                        crate::text::lemma_split_on_nonempty(route_with_query@, '?');
                    }
                    if pieces.len() > 1 {
                        query_params.add_pairs(pieces[1].as_str());
                    }
                    match after_route {
                        None => {
                            proof {
                                assert(parse_lines(ls, (i + 1) as nat) == Err::<ParsedRequest, RequestError>(RequestError::MissingVersion));
                                lemma_parse_error_stays(ls, (i + 1) as nat, n as nat);
                            }
                            return Err(RequestError::MissingVersion);
                        },
                        Some(v) => {
                            method = m;
                            route = pieces[0].clone();
                            http_ver = v;
                        },
                    }
                },
            }
        } else if !header_parsed {
            let (name, value) = split_once_str(line.as_str(), ": ");
            match value {
                None => {
                    proof {
                        assert(parse_lines(ls, (i + 1) as nat) == Err::<ParsedRequest, RequestError>(RequestError::MalformedHeader));
                        lemma_parse_error_stays(ls, (i + 1) as nat, n as nat);
                        assert(parse_lines(ls, n as nat) == Err::<ParsedRequest, RequestError>(RequestError::MalformedHeader));
                        lemma_spec_error(requests@, RequestError::MalformedHeader);
                    }
                    return Err(RequestError::MalformedHeader);
                },
                Some(v) => {
                    request_headers.set(name.as_str(), v.as_str());
                },
            }
        } else {
            request_body.append(line.as_str());
        }
        i = i + 1;
    }
    let body = trim_str(request_body.as_str());
    let mut form_params = ParamMap::new();
    let form_type = mime_form_urlencoded();
    let is_form = match request_headers.get("Content-Type") {
        Some(content_type) => contains_str(content_type.as_str(), form_type.as_str()),
        None => {
            let empty = String::new();
            contains_str(empty.as_str(), form_type.as_str())
        },
    };
    if is_form {
        form_params.add_pairs(body.as_str());
    }
    let context = RumContext::from_request(template_engine, query_params, request_headers, form_params, body);
    Ok((context, RequestLine { method, route, http_ver }))
}

/// The form parameters of a request that was read are the `name=value`
/// pairs of its (trimmed) body whenever its `Content-Type` header contains
/// the URL-encoded form type anywhere in its value (as in
/// `"application/x-www-form-urlencoded; charset=UTF-8"`), and there are none
/// otherwise.
pub proof fn lemma_form_params_when_form_type(requests: Seq<char>)
    requires
        parse_request_spec(requests) is Ok,
    ensures
        ({
            let st = parse_request_spec(requests)->Ok_0;
            let is_form = st.request_headers.contains_key("Content-Type"@) && exists|i: int|
                0 <= i && i + "application/x-www-form-urlencoded"@.len() <= st.request_headers["Content-Type"@].len()
                    && #[trigger] st.request_headers["Content-Type"@].subrange(
                    i,
                    i + "application/x-www-form-urlencoded"@.len(),
                ) == "application/x-www-form-urlencoded"@;
            &&& is_form ==> st.form_params == add_params(Map::empty(), split_on(st.request_body, '&'))
            &&& !is_form ==> st.form_params == Map::<Seq<char>, Seq<char>>::empty()
        }),
{
    let ls = lines_of(requests);
    let st0 = parse_lines(ls, ls.len())->Ok_0;
    let st = parse_request_spec(requests)->Ok_0;
    assert(st.request_headers == st0.request_headers);
    let ft = "application/x-www-form-urlencoded"@;
    if !st0.request_headers.contains_key("Content-Type"@) {
        assert(!contains_seq(Seq::<char>::empty(), ft)) by {
            reveal_strlit("application/x-www-form-urlencoded");
            if contains_seq(Seq::<char>::empty(), ft) {
                let i = choose|i: int| crate::text::occurs_at(Seq::<char>::empty(), ft, i);
            }
        }
    } else {
        let ct = st0.request_headers["Content-Type"@];
        if contains_seq(ct, ft) {
            let i = choose|i: int| crate::text::occurs_at(ct, ft, i);
            assert(ct.subrange(i, i + ft.len()) == ft);
        }
        if exists|i: int| 0 <= i && i + ft.len() <= ct.len() && #[trigger] ct.subrange(i, i + ft.len()) == ft {
            let i = choose|i: int| 0 <= i && i + ft.len() <= ct.len() && #[trigger] ct.subrange(i, i + ft.len()) == ft;
            assert(crate::text::occurs_at(ct, ft, i));
        }
    }
}

} // verus!
