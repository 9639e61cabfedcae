use vstd::prelude::*;

use crate::dispatch::{Prepared, prepare_connection, connection_outcome};
use crate::method::MethodType;
use crate::request::RequestError;
use crate::router::{
    param_names_unique, lemma_routes_param_names_unique, Router, RouteTable, RouteConflict, register_conflict, can_register, route_match,
    lemma_registered_route_refused,
};
use crate::text::{split_on, trim_end_char, views, str_views, split_char, trim_end_char_str, lemma_split_on_nonempty, lemma_split_on_leading, lemma_trim_end_char_leading};

verus! {

/// The segments of a route: the route without trailing `/`, split at `/`,
/// with an empty first segment put in front where the route does not begin
/// with `/`. The first segment stands for the root.
pub open spec fn route_segments(route: Seq<char>) -> Seq<Seq<char>> {
    let pieces = split_on(trim_end_char(route, '/'), '/');
    if pieces[0].len() != 0 {
        seq![Seq::<char>::empty()] + pieces
    } else {
        pieces
    }
}

/// The pattern of a route: its segments after the root.
pub open spec fn route_pattern(route: Seq<char>) -> Seq<Seq<char>> {
    route_segments(route).drop_first()
}

/// Splits a route into its segments, the first standing for the root.
pub fn split_route(route: &str) -> (segs: Vec<String>)
    ensures
        views(segs@) == route_segments(route@),
        segs@.len() >= 1,
        segs@[0]@ == Seq::<char>::empty(),
{
    let trimmed = trim_end_char_str(route, '/');
    let mut segs = split_char(trimmed.as_str(), '/');
    proof {
        lemma_split_on_nonempty(trimmed@, '/');
    }
    if !segs[0].as_str().is_empty() {
        let ghost before = segs@;
        segs.insert(0, String::new());
        assert(views(segs@) =~= seq![Seq::<char>::empty()] + views(before));
    }
    segs
}

/// Trailing slashes do not change a route: `"/a/b/"` is `"/a/b"`.
pub proof fn lemma_trailing_slash(route: Seq<char>)
    ensures
        route_segments(route.push('/')) == route_segments(route),
{
    assert(route.push('/').drop_last() =~= route);
}

/// A leading slash does not change a route: `"a/b"` is `"/a/b"`.
pub proof fn lemma_leading_slash(route: Seq<char>)
    requires
        route.len() == 0 || route[0] != '/',
    ensures
        route_segments(seq!['/'] + route) == route_segments(route),
{
    if route.len() == 0 {
        assert(seq!['/'] + route =~= seq!['/']);
        assert(seq!['/'].drop_last() =~= Seq::<char>::empty());
        assert(trim_end_char(Seq::<char>::empty(), '/') =~= Seq::<char>::empty());
        assert(trim_end_char(seq!['/'], '/') =~= Seq::<char>::empty());
    } else {
        let d = route[0];
        let s = route.drop_first();
        assert(route =~= seq![d] + s);
        lemma_trim_end_char_leading(s, '/', d);
        let t = trim_end_char(route, '/');
        assert(t.len() > 0 && t[0] == d) by {
            lemma_trim_keeps_first(s, '/', d);
        }
        lemma_split_on_leading(t, '/');
        lemma_split_on_nonempty(t, '/');
        lemma_split_first_piece(t, '/');
    }
}

/// Trimming trailing `c` keeps a first character other than `c`.
proof fn lemma_trim_keeps_first(s: Seq<char>, c: char, d: char)
    requires
        d != c,
    ensures
        trim_end_char(seq![d] + s, c).len() > 0,
        trim_end_char(seq![d] + s, c)[0] == d,
    decreases s.len(),
{
    let x = seq![d] + s;
    if s.len() > 0 && s.last() == c {
        assert(x.drop_last() =~= seq![d] + s.drop_last());
        lemma_trim_keeps_first(s.drop_last(), c, d);
    }
}

/// The first piece of a split starts with the first character of the
/// sequence, where that is not the separator.
proof fn lemma_split_first_piece(s: Seq<char>, c: char)
    requires
        s.len() > 0,
        s[0] != c,
    ensures
        split_on(s, c)[0].len() > 0,
    decreases s.len(),
{
    lemma_split_on_nonempty(s, c);
    if s.len() == 1 {
        assert(s.drop_last() =~= Seq::<char>::empty());
    } else {
        lemma_split_on_nonempty(s.drop_last(), c);
        lemma_split_first_piece(s.drop_last(), c);
    }
}

/// The routes of an application, where they are served from, and the
/// template engine its handlers render with.
pub struct Handler<H> {
    pub router: Router<H>,
    static_asset_path: Option<String>,
    pub template_engine: Option<tera::Tera>,
}

impl<H> Handler<H> {
    /// The route tree is well formed, rooted at the empty segment.
    pub closed spec fn wf(&self) -> bool {
        &&& self.router.wf()
        &&& self.router.segs() == seq![Seq::<char>::empty()]
    }

    /// The registered routes.
    pub closed spec fn routes(&self) -> RouteTable<H> {
        self.router.table()
    }

    /// The directory static files are served from, if any.
    pub closed spec fn static_asset_path_view(&self) -> Option<Seq<char>> {
        match self.static_asset_path {
            Some(p) => Some(p@),
            None => None,
        }
    }

    /// Whether a template engine is set.
    pub closed spec fn has_template_engine(&self) -> bool {
        self.template_engine is Some
    }

    /// The template engine handlers render with, if any.
    pub closed spec fn template_engine_view(&self) -> Option<tera::Tera> {
        self.template_engine
    }

    /// No routes, no static files, no template engine.
    pub fn new() -> (h: Handler<H>)
        ensures
            h.wf(),
            h.routes() == Map::<(Seq<Seq<char>>, MethodType), H>::empty(),
            h.static_asset_path_view() is None,
            !h.has_template_engine(),
    {
        Handler { router: Router::new(), static_asset_path: None, template_engine: None }
    }

    /// Uses `engine` (loaded from the templates path) to render templates.
    pub fn set_template_engine(&mut self, engine: tera::Tera)
        ensures
            final(self).template_engine_view() == Some(engine),
            final(self).has_template_engine(),
            final(self).wf() == old(self).wf(),
            final(self).routes() == old(self).routes(),
            final(self).static_asset_path_view() == old(self).static_asset_path_view(),
    {
        self.template_engine = Some(engine);
    }

    /// Registers `handler` for `method_type` at `route`.
    pub fn add_route(&mut self, method_type: MethodType, route: &str, handler: H)
        requires
            old(self).wf(),
            can_register(old(self).routes(), method_type, route_pattern(route@)),
        ensures
            final(self).wf(),
            final(self).routes() == old(self).routes().insert((route_pattern(route@), method_type), handler),
            final(self).static_asset_path_view() == old(self).static_asset_path_view(),
            final(self).template_engine_view() == old(self).template_engine_view(),
            final(self).has_template_engine() == old(self).has_template_engine(),
    {
        let route_segs = split_route(route);
        assert(views(route_segs@).skip(1) == route_pattern(route@));
        self.router.insert_route(method_type, &route_segs, handler);
    }

    /// Registers `handler` for `method_type` at `route`, unless the route is
    /// already registered for the method or its parameter names conflict with
    /// those in use; then nothing changes and the conflict is returned.
    pub fn try_add_route(&mut self, method_type: MethodType, route: &str, handler: H) -> (r: Result<(), RouteConflict>)
        requires
            old(self).wf(),
        ensures
            final(self).wf(),
            match register_conflict(old(self).routes(), method_type, route_pattern(route@)) {
                None => r is Ok && final(self).routes() == old(self).routes().insert(
                    (route_pattern(route@), method_type),
                    handler,
                ),
                Some(c) => r == Err::<(), RouteConflict>(c) && *final(self) == *old(self),
            },
            final(self).static_asset_path_view() == old(self).static_asset_path_view(),
            final(self).template_engine_view() == old(self).template_engine_view(),
            final(self).has_template_engine() == old(self).has_template_engine(),
    {
        let route_segs = split_route(route);
        assert(views(route_segs@).skip(1) == route_pattern(route@));
        match self.router.register_conflict_at(method_type, &route_segs, 0) {
            Some(c) => Err(c),
            None => {
                self.router.insert_route(method_type, &route_segs, handler);
                Ok(())
            },
        }
    }

    /// Looks up the handler for `method_type` at the route whose segments are
    /// `route_segs` (the first being the root's empty segment): the full
    /// route that matched, with its parameter segments, and its handler.
    pub fn get_full_route(&self, method_type: MethodType, route_segs: &[&str]) -> (r: Option<(&[String], &H)>)
        requires
            self.wf(),
            route_segs@.len() >= 1,
        ensures
            ({
                let found = route_match(self.routes(), method_type, str_views(route_segs@).drop_first());
                match r {
                    Some(res) => found is Some && views(res.0@) == seq![Seq::<char>::empty()] + (found->0).0
                        && *res.1 == (found->0).1,
                    None => found is None,
                }
            }),
    {
        self.router.get_full_route(method_type, route_segs)
    }

    /// Serves static files from `static_asset_path`.
    pub fn set_static_assets(&mut self, static_asset_path: &str)
        ensures
            final(self).static_asset_path_view() == Some(static_asset_path@),
            final(self).wf() == old(self).wf(),
            final(self).routes() == old(self).routes(),
            final(self).template_engine_view() == old(self).template_engine_view(),
            final(self).has_template_engine() == old(self).has_template_engine(),
    {
        self.static_asset_path = Some(static_asset_path.to_owned());
    }

    /// Takes a list of middleware handlers; they are not used.
    pub fn set_middleware(&mut self, handlers: Vec<H>)
        ensures
            final(self).wf() == old(self).wf(),
            final(self).routes() == old(self).routes(),
            final(self).static_asset_path_view() == old(self).static_asset_path_view(),
            final(self).template_engine_view() == old(self).template_engine_view(),
            final(self).has_template_engine() == old(self).has_template_engine(),
    {
        let mut handlers = handlers;
        while handlers.len() > 0
            decreases handlers.len(),
        {
            handlers.pop();
        }
    }
}

impl<H> Handler<H> {
    /// Reads and routes the request text `requests`, reading URL parameters
    /// from every segment of the matched route (see `prepare_connection`).
    pub fn prepare_connection<'r>(&'r self, requests: &str) -> (r: Result<Prepared<'r, 'r, H>, RequestError>)
        requires
            self.wf(),
        ensures
            connection_outcome(
                r,
                self.routes(),
                self.static_asset_path_view(),
                self.has_template_engine(),
                requests@,
                true,
            ),
    {
        let engine = match &self.template_engine {
            Some(t) => Some(t),
            None => None,
        };
        prepare_connection(&self.router, &self.static_asset_path, engine, requests, true)
    }
}

/// Registering a route twice is refused the second time.
pub proof fn lemma_second_registration_refused<H>(routes: RouteTable<H>, m: MethodType, route: Seq<char>, h: H)
    ensures
        register_conflict(routes.insert((route_pattern(route), m), h), m, route_pattern(route)) is Some,
{
    lemma_registered_route_refused(routes.insert((route_pattern(route), m), h), m, route_pattern(route));
}

/// The registered routes never use two parameter names at the same place.
pub proof fn lemma_handler_param_names_unique<H>(h: &Handler<H>)
    requires
        h.wf(),
    ensures
        param_names_unique(h.routes()),
{
    lemma_routes_param_names_unique(h.router);
}

} // verus!
