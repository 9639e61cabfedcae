use vstd::prelude::*;

use crate::context::{RumContext, full_response_text};
use crate::handler::{route_segments, route_pattern, split_route};
use crate::method::{MethodType, method_named};
use crate::request::{RequestLine, RequestError, parse_request, parse_request_spec};
use crate::router::{Router, RouteTable, route_match, lemma_registered_route_found, is_param_segment, lemma_match_is_registered};
use crate::status_code::{status_line, NOT_FOUND, BAD_REQUEST};
use crate::text::{views, trim_char, starts_with_char, trim_char_str};

verus! {

/// What to do with a request after reading it.
pub enum Action<'r, H> {
    /// Call the handler of the matched route with the context, then send
    /// the context's response.
    Handle(&'r H),
    /// No route matched: serve the static file at this path.
    ServeFile(String),
    /// Send this response text now; the second part is its status line.
    Respond(String, String),
}

/// A request read and routed.
pub struct Prepared<'r, 'e, H> {
    pub context: RumContext<'e>,
    pub request_line: RequestLine,
    pub action: Action<'r, H>,
}

/// The URL parameters read from the first `upto` segments of a matched
/// route: for each parameter segment `":name"` of the route, `name`
/// (without its colons) is given the request's segment at that position.
pub open spec fn url_params_of(full_route: Seq<Seq<char>>, route_segs: Seq<Seq<char>>, upto: nat) -> Map<
    Seq<char>,
    Seq<char>,
>
    decreases upto,
{
    if upto == 0 {
        Map::empty()
    } else {
        let earlier = url_params_of(full_route, route_segs, (upto - 1) as nat);
        let i = upto - 1;
        if is_param_segment(full_route[i]) {
            earlier.insert(trim_char(full_route[i], ':'), route_segs[i])
        } else {
            earlier
        }
    }
}

/// What reading and routing the request text `requests` gives, with the
/// routes `routes`, the static directory `static_dir`, and a template engine
/// where `has_template_engine` holds (see `prepare_connection`).
pub open spec fn connection_outcome<'r, 'e, H>(
    r: Result<Prepared<'r, 'e, H>, RequestError>,
    routes: RouteTable<H>,
    static_dir: Option<Seq<char>>,
    has_template_engine: bool,
    requests: Seq<char>,
    read_last_segment: bool,
) -> bool {
        match r {
            Err(e) => parse_request_spec(requests) == Err::<crate::request::ParsedRequest, RequestError>(e),
            Ok(p) => {
                let st = parse_request_spec(requests)->Ok_0;
                &&& parse_request_spec(requests) is Ok
                &&& p.request_line.method@ == st.method
                &&& p.request_line.route@ == st.route
                &&& p.request_line.http_ver@ == st.http_ver
                &&& p.context.wf()
                &&& p.context.query_params_view() == st.query_params
                &&& p.context.request_headers_view() == st.request_headers
                &&& p.context.form_params_view() == st.form_params
                &&& p.context.request_body_view() == st.request_body
                &&& p.context.has_template_engine() == has_template_engine
                &&& p.context.response_view() == (status_line(200), "html"@, Seq::<char>::empty())
                &&& match method_named(st.method) {
                    None => {
                        &&& p.action matches Action::Respond(text, status) && text@ == full_response_text(
                            st.http_ver,
                            status_line(BAD_REQUEST),
                            "html"@,
                            "Bad Request"@,
                        ) && status@ == status_line(BAD_REQUEST)
                        &&& p.context.url_params_view() == Map::<Seq<char>, Seq<char>>::empty()
                    },
                    Some(m) => {
                        let segs = route_segments(st.route);
                        match route_match(routes, m, segs.drop_first()) {
                            Some(found) => {
                                &&& p.action matches Action::Handle(h) && *h == found.1
                                &&& p.context.url_params_view() == url_params_of(
                                    seq![Seq::<char>::empty()] + found.0,
                                    segs,
                                    if read_last_segment {
                                        segs.len()
                                    } else {
                                        (segs.len() - 1) as nat
                                    },
                                )
                            },
                            None => {
                                &&& p.context.url_params_view() == Map::<Seq<char>, Seq<char>>::empty()
                                &&& match static_dir {
                                    Some(dir) => p.action matches Action::ServeFile(path) && path@ == dir
                                        + "/"@ + segs.last(),
                                    None => p.action matches Action::Respond(text, status) && text@
                                        == full_response_text(
                                        st.http_ver,
                                        status_line(NOT_FOUND),
                                        "html"@,
                                        "Not Found"@,
                                    ) && status@ == status_line(NOT_FOUND),
                                }
                            },
                        }
                    },
                }
            },
        }
}

/// Reads the request text `requests` and routes it with `router`: a request
/// whose method has no name is answered with a bad request; one that reaches
/// a route gets that route's handler, with the URL parameters of the route's
/// segments (the last one only where `read_last_segment` holds); one that
/// reaches none is served from the static directory where there is one, and
/// answered with not-found otherwise.
pub fn prepare_connection<'r, 'e, H>(
    router: &'r Router<H>,
    static_asset_path: &Option<String>,
    template_engine: Option<&'e tera::Tera>,
    requests: &str,
    read_last_segment: bool,
) -> (r: Result<Prepared<'r, 'e, H>, RequestError>)
    requires
        router.wf(),
        router.segs() == seq![Seq::<char>::empty()],
    ensures
        connection_outcome(
            r,
            router.table(),
            match static_asset_path {
                Some(d) => Some(d@),
                None => None,
            },
            template_engine is Some,
            requests@,
            read_last_segment,
        ),
{
    let (mut context, request_line) = match parse_request(template_engine, requests) {
        Ok(parsed) => parsed,
        Err(e) => {
            return Err(e);
        },
    };
    let ghost st = parse_request_spec(requests@)->Ok_0;
    let action = match MethodType::from_str(request_line.method.as_str()) {
        Ok(m) => {
            let route_segs = split_route(request_line.route.as_str());
            let ghost segs = route_segments(request_line.route@);
            let last_key = route_segs[route_segs.len() - 1].clone();
            match router.search_route(m, route_segs.as_slice(), 0) {
                Some((full_route, handler)) => {
                    let ghost found = route_match(router.table(), m, segs.drop_first())->0;
                    proof {
                        assert(views(route_segs@).skip(1) =~= segs.drop_first());
                        lemma_match_is_registered(router.table(), m, segs.drop_first());
                    }
                    assert(views(full_route@) == seq![Seq::<char>::empty()] + found.0);
                    assert(found.0.len() == segs.drop_first().len());
                    assert(views(full_route@).len() == full_route@.len());
                    assert(views(route_segs@).len() == route_segs@.len());
                    assert(full_route@.len() == route_segs@.len());
                    let upto = if read_last_segment {
                        full_route.len()
                    } else {
                        full_route.len() - 1
                    };
                    let mut index: usize = 0;
                    while index < upto
                        invariant
                            upto <= full_route@.len(),
                            full_route@.len() == route_segs@.len(),
                            index <= upto,
                            context.wf(),
                            context.url_params_view() == url_params_of(views(full_route@), views(route_segs@), index as nat),
                            context.query_params_view() == st.query_params,
                            context.request_headers_view() == st.request_headers,
                            context.form_params_view() == st.form_params,
                            context.request_body_view() == st.request_body,
                            context.has_template_engine() == (template_engine is Some),
                            context.response_view() == (status_line(200), "html"@, Seq::<char>::empty()),
                        decreases upto - index,
                    {
                        let seg = &full_route[index];
                        if starts_with_char(seg.as_str(), ':') {
                            let key = trim_char_str(seg.as_str(), ':');
                            context.set_url_params(key.as_str(), route_segs[index].as_str());
                        }
                        index = index + 1;
                    }
                    Action::Handle(handler)
                },
                None => {
                    match static_asset_path {
                        Some(dir) => {
                            let mut path = dir.clone();
                            path.append("/");
                            path.append(last_key.as_str());
                            Action::ServeFile(path)
                        },
                        None => {
                            let (text, status) = context.default_404(request_line.http_ver.as_str());
                            Action::Respond(text, status)
                        },
                    }
                },
            }
        },
        Err(_) => {
            let (text, status) = context.default_400(request_line.http_ver.as_str());
            Action::Respond(text, status)
        },
    };
    Ok(Prepared { context, request_line, action })
}

/// A request that spells out a registered route, with that route's method,
/// reaches the route's handler.
pub proof fn lemma_request_reaches_registered_route<'r, 'e, H>(
    p: Prepared<'r, 'e, H>,
    routes: RouteTable<H>,
    static_dir: Option<Seq<char>>,
    has_template_engine: bool,
    requests: Seq<char>,
    read_last_segment: bool,
    m: MethodType,
)
    requires
        connection_outcome(Ok(p), routes, static_dir, has_template_engine, requests, read_last_segment),
        method_named(p.request_line.method@) == Some(m),
        routes.contains_key((route_pattern(p.request_line.route@), m)),
    ensures
        p.action matches Action::Handle(h) && *h == routes[(route_pattern(p.request_line.route@), m)],
{
    lemma_registered_route_found(routes, m, route_pattern(p.request_line.route@));
}

/// The URL parameters read from the first `upto` segments of a matched route
/// name exactly the parameter segments among them, each without its colons;
/// and a name is given the request's segment at the last position where a
/// parameter segment carries that name, whatever that position is.
pub proof fn lemma_url_params_by_position(
    full_route: Seq<Seq<char>>,
    route_segs: Seq<Seq<char>>,
    upto: nat,
    key: Seq<char>,
)
    requires
        upto <= full_route.len(),
        upto <= route_segs.len(),
    ensures
        url_params_of(full_route, route_segs, upto).contains_key(key) <==> exists|i: int|
            0 <= i < upto && is_param_segment(#[trigger] full_route[i]) && trim_char(full_route[i], ':') == key,
        forall|i: int|
            0 <= i < upto && is_param_segment(#[trigger] full_route[i]) && trim_char(full_route[i], ':') == key
                && (forall|j: int|
                i < j < upto && is_param_segment(#[trigger] full_route[j]) ==> trim_char(full_route[j], ':') != key)
                ==> url_params_of(full_route, route_segs, upto)[key] == route_segs[i],
    decreases upto,
{
    if upto > 0 {
        let n = (upto - 1) as nat;
        lemma_url_params_by_position(full_route, route_segs, n, key);
        if url_params_of(full_route, route_segs, upto).contains_key(key) {
            if !url_params_of(full_route, route_segs, n).contains_key(key) {
                assert(is_param_segment(full_route[n as int]) && trim_char(full_route[n as int], ':') == key);
            }
        }
        if exists|i: int|
            0 <= i < upto && is_param_segment(#[trigger] full_route[i]) && trim_char(full_route[i], ':') == key {
            let i = choose|i: int|
                0 <= i < upto && is_param_segment(#[trigger] full_route[i]) && trim_char(full_route[i], ':') == key;
            if i < n {
                assert(url_params_of(full_route, route_segs, n).contains_key(key));
            }
        }
        assert forall|i: int|
            0 <= i < upto && is_param_segment(#[trigger] full_route[i]) && trim_char(full_route[i], ':') == key
                && (forall|j: int|
                i < j < upto && is_param_segment(#[trigger] full_route[j]) ==> trim_char(full_route[j], ':') != key)
            implies url_params_of(full_route, route_segs, upto)[key] == route_segs[i] by {
            if i < n {
                assert(is_param_segment(full_route[n as int]) ==> trim_char(full_route[n as int], ':') != key);
            }
        }
    }
}

/// A request that reaches a route gets, for each parameter segment `":k"`
/// of the route among the segments read, the URL parameter `k` set to the
/// request's segment at that position (the last such position where `k`
/// recurs), whatever the position; and no other URL parameter.
pub proof fn lemma_request_url_params<'r, 'e, H>(
    p: Prepared<'r, 'e, H>,
    routes: RouteTable<H>,
    static_dir: Option<Seq<char>>,
    has_template_engine: bool,
    requests: Seq<char>,
    read_last_segment: bool,
    m: MethodType,
    key: Seq<char>,
)
    requires
        connection_outcome(Ok(p), routes, static_dir, has_template_engine, requests, read_last_segment),
        method_named(p.request_line.method@) == Some(m),
        route_match(routes, m, route_segments(p.request_line.route@).drop_first()) is Some,
    ensures
        ({
            let segs = route_segments(p.request_line.route@);
            let full = seq![Seq::<char>::empty()] + (route_match(routes, m, segs.drop_first())->0).0;
            let upto: int = if read_last_segment { segs.len() as int } else { segs.len() - 1 };
            &&& full.len() == segs.len()
            &&& p.action matches Action::Handle(h)
            &&& p.context.url_params_view().contains_key(key) <==> exists|i: int|
                0 <= i < upto && is_param_segment(#[trigger] full[i]) && trim_char(full[i], ':') == key
            &&& forall|i: int|
                0 <= i < upto && is_param_segment(#[trigger] full[i]) && trim_char(full[i], ':') == key
                    && (forall|j: int|
                    i < j < upto && is_param_segment(#[trigger] full[j]) ==> trim_char(full[j], ':') != key)
                    ==> p.context.url_params_view()[key] == segs[i]
        }),
{
    let segs = route_segments(p.request_line.route@);
    let found = route_match(routes, m, segs.drop_first())->0;
    lemma_match_is_registered(routes, m, segs.drop_first());
    let full = seq![Seq::<char>::empty()] + found.0;
    crate::text::lemma_split_on_nonempty(crate::text::trim_end_char(p.request_line.route@, '/'), '/');
    let upto: nat = if read_last_segment { segs.len() } else { (segs.len() - 1) as nat };
    lemma_url_params_by_position(full, segs, upto, key);
}

} // verus!
