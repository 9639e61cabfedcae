use vstd::prelude::*;

use crate::dispatch::{Prepared, prepare_connection, connection_outcome};
use crate::handler::{route_pattern, split_route};
use crate::method::MethodType;
use crate::request::RequestError;
use crate::router::{
    param_names_unique, lemma_routes_param_names_unique, lists_in_route_order, lemma_listing_in_route_order,
    lemma_listing_determined_by_routes, Router, RouteTable, RouteConflict, register_conflict, can_register, route_line, pattern_path, lemma_listing_shows_routes};
use crate::text::views;

verus! {

/// An application server: where it listens, its routes, the directory it
/// serves static files from, and the template engine its handlers render with.
pub struct RumServer<H> {
    host: String,
    port: i32,
    router: Router<H>,
    static_asset_path: Option<String>,
    template_engine: Option<tera::Tera>,
}

impl<H> RumServer<H> {
    /// The route tree is well formed, rooted at the empty segment.
    pub closed spec fn wf(&self) -> bool {
        &&& self.router.wf()
        &&& self.router.segs() == seq![Seq::<char>::empty()]
    }

    /// The registered routes.
    pub closed spec fn routes(&self) -> RouteTable<H> {
        self.router.table()
    }

    /// The host name to listen on.
    pub closed spec fn host_view(&self) -> Seq<char> {
        self.host@
    }

    /// The port to listen on.
    pub closed spec fn port_view(&self) -> i32 {
        self.port
    }

    /// The directory static files are served from, if any.
    pub closed spec fn static_asset_path_view(&self) -> Option<Seq<char>> {
        match self.static_asset_path {
            Some(p) => Some(p@),
            None => None,
        }
    }

    /// The listing of the registered routes.
    pub closed spec fn route_listing(&self) -> Seq<Seq<char>> {
        self.router.listing(Seq::empty())
    }

    /// Whether a template engine is set.
    pub closed spec fn has_template_engine(&self) -> bool {
        self.template_engine is Some
    }

    /// The template engine handlers render with, if any.
    pub closed spec fn template_engine_view(&self) -> Option<tera::Tera> {
        self.template_engine
    }

    /// A server for `host` and `port` with no routes yet.
    pub fn new(host: &str, port: i32) -> (s: RumServer<H>)
        ensures
            s.wf(),
            s.host_view() == host@,
            s.port_view() == port,
            s.routes() == Map::<(Seq<Seq<char>>, MethodType), H>::empty(),
            s.static_asset_path_view() is None,
            !s.has_template_engine(),
    {
        RumServer {
            host: host.to_owned(),
            port,
            router: Router::new(),
            static_asset_path: None,
            template_engine: None,
        }
    }

    /// The host name to listen on.
    pub fn host(&self) -> (h: &String)
        ensures
            h@ == self.host_view(),
    {
        &self.host
    }

    /// The port to listen on.
    pub fn port(&self) -> (p: i32)
        ensures
            p == self.port_view(),
    {
        self.port
    }

    /// Uses `engine` (loaded from the templates path) to render templates.
    pub fn use_html_template(&mut self, engine: tera::Tera)
        ensures
            final(self).template_engine_view() == Some(engine),
            final(self).has_template_engine(),
            final(self).wf() == old(self).wf(),
            final(self).routes() == old(self).routes(),
            final(self).host_view() == old(self).host_view(),
            final(self).port_view() == old(self).port_view(),
            final(self).static_asset_path_view() == old(self).static_asset_path_view(),
    {
        self.template_engine = Some(engine);
    }

    /// Serves static files from `static_asset_path`.
    pub fn use_static_assets(&mut self, static_asset_path: &str)
        ensures
            final(self).static_asset_path_view() == Some(static_asset_path@),
            final(self).wf() == old(self).wf(),
            final(self).routes() == old(self).routes(),
            final(self).host_view() == old(self).host_view(),
            final(self).port_view() == old(self).port_view(),
            final(self).template_engine_view() == old(self).template_engine_view(),
            final(self).has_template_engine() == old(self).has_template_engine(),
    {
        self.static_asset_path = Some(static_asset_path.to_owned());
    }

    /// Registers `handler` for `method_type` at `route`.
    pub fn add_route(&mut self, method_type: MethodType, route: &str, handler: H)
        requires
            old(self).wf(),
            can_register(old(self).routes(), method_type, route_pattern(route@)),
        ensures
            final(self).wf(),
            final(self).routes() == old(self).routes().insert((route_pattern(route@), method_type), handler),
            final(self).host_view() == old(self).host_view(),
            final(self).port_view() == old(self).port_view(),
            final(self).static_asset_path_view() == old(self).static_asset_path_view(),
            final(self).template_engine_view() == old(self).template_engine_view(),
            final(self).has_template_engine() == old(self).has_template_engine(),
    {
        let route_segs = split_route(route);
        assert(views(route_segs@).skip(1) == route_pattern(route@));
        self.router.insert_route(method_type, &route_segs, handler);
    }

    /// Registers `handler` for `method_type` at `route`, unless the route is
    /// already registered for the method or its parameter names conflict with
    /// those in use; then nothing changes and the conflict is returned.
    pub fn try_add_route(&mut self, method_type: MethodType, route: &str, handler: H) -> (r: Result<(), RouteConflict>)
        requires
            old(self).wf(),
        ensures
            final(self).wf(),
            match register_conflict(old(self).routes(), method_type, route_pattern(route@)) {
                None => r is Ok && final(self).routes() == old(self).routes().insert(
                    (route_pattern(route@), method_type),
                    handler,
                ),
                Some(c) => r == Err::<(), RouteConflict>(c) && *final(self) == *old(self),
            },
            final(self).host_view() == old(self).host_view(),
            final(self).port_view() == old(self).port_view(),
            final(self).static_asset_path_view() == old(self).static_asset_path_view(),
            final(self).template_engine_view() == old(self).template_engine_view(),
            final(self).has_template_engine() == old(self).has_template_engine(),
    {
        let route_segs = split_route(route);
        assert(views(route_segs@).skip(1) == route_pattern(route@));
        match self.router.register_conflict_at(method_type, &route_segs, 0) {
            Some(c) => Err(c),
            None => {
                self.router.insert_route(method_type, &route_segs, handler);
                Ok(())
            },
        }
    }

    /// Registers `handler` for `GET` requests at `route`.
    pub fn get(&mut self, route: &str, handler: H)
        requires
            old(self).wf(),
            can_register(old(self).routes(), MethodType::GET, route_pattern(route@)),
        ensures
            final(self).wf(),
            final(self).routes() == old(self).routes().insert((route_pattern(route@), MethodType::GET), handler),
            final(self).host_view() == old(self).host_view(),
            final(self).port_view() == old(self).port_view(),
            final(self).static_asset_path_view() == old(self).static_asset_path_view(),
            final(self).template_engine_view() == old(self).template_engine_view(),
            final(self).has_template_engine() == old(self).has_template_engine(),
    {
        self.add_route(MethodType::GET, route, handler);
    }

    /// Registers `handler` for `POST` requests at `route`.
    pub fn post(&mut self, route: &str, handler: H)
        requires
            old(self).wf(),
            can_register(old(self).routes(), MethodType::POST, route_pattern(route@)),
        ensures
            final(self).wf(),
            final(self).routes() == old(self).routes().insert((route_pattern(route@), MethodType::POST), handler),
            final(self).host_view() == old(self).host_view(),
            final(self).port_view() == old(self).port_view(),
            final(self).static_asset_path_view() == old(self).static_asset_path_view(),
            final(self).template_engine_view() == old(self).template_engine_view(),
            final(self).has_template_engine() == old(self).has_template_engine(),
    {
        self.add_route(MethodType::POST, route, handler);
    }

    /// Registers `handler` for `PUT` requests at `route`.
    pub fn put(&mut self, route: &str, handler: H)
        requires
            old(self).wf(),
            can_register(old(self).routes(), MethodType::PUT, route_pattern(route@)),
        ensures
            final(self).wf(),
            final(self).routes() == old(self).routes().insert((route_pattern(route@), MethodType::PUT), handler),
            final(self).host_view() == old(self).host_view(),
            final(self).port_view() == old(self).port_view(),
            final(self).static_asset_path_view() == old(self).static_asset_path_view(),
            final(self).template_engine_view() == old(self).template_engine_view(),
            final(self).has_template_engine() == old(self).has_template_engine(),
    {
        self.add_route(MethodType::PUT, route, handler);
    }

    /// Registers `handler` for `DELETE` requests at `route`.
    pub fn delete(&mut self, route: &str, handler: H)
        requires
            old(self).wf(),
            can_register(old(self).routes(), MethodType::DELETE, route_pattern(route@)),
        ensures
            final(self).wf(),
            final(self).routes() == old(self).routes().insert((route_pattern(route@), MethodType::DELETE), handler),
            final(self).host_view() == old(self).host_view(),
            final(self).port_view() == old(self).port_view(),
            final(self).static_asset_path_view() == old(self).static_asset_path_view(),
            final(self).template_engine_view() == old(self).template_engine_view(),
            final(self).has_template_engine() == old(self).has_template_engine(),
    {
        self.add_route(MethodType::DELETE, route, handler);
    }

    /// Registers `handler` for `CONNECT` requests at `route`.
    pub fn connect(&mut self, route: &str, handler: H)
        requires
            old(self).wf(),
            can_register(old(self).routes(), MethodType::CONNECT, route_pattern(route@)),
        ensures
            final(self).wf(),
            final(self).routes() == old(self).routes().insert((route_pattern(route@), MethodType::CONNECT), handler),
            final(self).host_view() == old(self).host_view(),
            final(self).port_view() == old(self).port_view(),
            final(self).static_asset_path_view() == old(self).static_asset_path_view(),
            final(self).template_engine_view() == old(self).template_engine_view(),
            final(self).has_template_engine() == old(self).has_template_engine(),
    {
        self.add_route(MethodType::CONNECT, route, handler);
    }

    /// Registers `handler` for `OPTIONS` requests at `route`.
    pub fn options(&mut self, route: &str, handler: H)
        requires
            old(self).wf(),
            can_register(old(self).routes(), MethodType::OPTIONS, route_pattern(route@)),
        ensures
            final(self).wf(),
            final(self).routes() == old(self).routes().insert((route_pattern(route@), MethodType::OPTIONS), handler),
            final(self).host_view() == old(self).host_view(),
            final(self).port_view() == old(self).port_view(),
            final(self).static_asset_path_view() == old(self).static_asset_path_view(),
            final(self).template_engine_view() == old(self).template_engine_view(),
            final(self).has_template_engine() == old(self).has_template_engine(),
    {
        self.add_route(MethodType::OPTIONS, route, handler);
    }

    /// Registers `handler` for `TRACE` requests at `route`.
    pub fn trace(&mut self, route: &str, handler: H)
        requires
            old(self).wf(),
            can_register(old(self).routes(), MethodType::TRACE, route_pattern(route@)),
        ensures
            final(self).wf(),
            final(self).routes() == old(self).routes().insert((route_pattern(route@), MethodType::TRACE), handler),
            final(self).host_view() == old(self).host_view(),
            final(self).port_view() == old(self).port_view(),
            final(self).static_asset_path_view() == old(self).static_asset_path_view(),
            final(self).template_engine_view() == old(self).template_engine_view(),
            final(self).has_template_engine() == old(self).has_template_engine(),
    {
        self.add_route(MethodType::TRACE, route, handler);
    }

    /// Registers `handler` for `PATCH` requests at `route`.
    pub fn patch(&mut self, route: &str, handler: H)
        requires
            old(self).wf(),
            can_register(old(self).routes(), MethodType::PATCH, route_pattern(route@)),
        ensures
            final(self).wf(),
            final(self).routes() == old(self).routes().insert((route_pattern(route@), MethodType::PATCH), handler),
            final(self).host_view() == old(self).host_view(),
            final(self).port_view() == old(self).port_view(),
            final(self).static_asset_path_view() == old(self).static_asset_path_view(),
            final(self).template_engine_view() == old(self).template_engine_view(),
            final(self).has_template_engine() == old(self).has_template_engine(),
    {
        self.add_route(MethodType::PATCH, route, handler);
    }

    /// The lines that list the registered routes, `"|<method>| /<route>"`,
    /// one per route, in listing order (see `lemma_server_listing_in_order`).
    pub fn show_routes(&self) -> (lines: Vec<String>)
        requires
            self.wf(),
        ensures
            views(lines@) == self.route_listing(),
    {
        let root = String::new();
        let lines = self.router.show_routes(root.as_str());
        assert(root@ == Seq::<char>::empty());
        lines
    }

    /// Reads and routes the request text `requests`. URL parameters are read
    /// from the segments of the matched route before its last one (see
    /// `prepare_connection`).
    pub fn prepare_connection<'r>(&'r self, requests: &str) -> (r: Result<Prepared<'r, 'r, H>, RequestError>)
        requires
            self.wf(),
        ensures
            connection_outcome(
                r,
                self.routes(),
                self.static_asset_path_view(),
                self.has_template_engine(),
                requests@,
                false,
            ),
    {
        let engine = match &self.template_engine {
            Some(t) => Some(t),
            None => None,
        };
        prepare_connection(&self.router, &self.static_asset_path, engine, requests, false)
    }
}

/// The server's route listing shows each registered route as
/// `"|<method>| /<path>"`, and nothing else.
pub proof fn lemma_server_listing<H>(server: RumServer<H>, line: Seq<char>)
    requires
        server.wf(),
    ensures
        server.route_listing().contains(line) <==> exists|k: (Seq<Seq<char>>, MethodType)|
            server.routes().contains_key(k) && line == route_line(k.1, pattern_path(Seq::empty(), k.0)),
{
    lemma_listing_shows_routes(server.router, Seq::empty(), line);
    assert(server.route_listing() == server.router.listing(Seq::empty()));
    assert(server.routes() == server.router.table());
}

/// The registered routes never use two parameter names at the same place.
pub proof fn lemma_server_param_names_unique<H>(s: &RumServer<H>)
    requires
        s.wf(),
    ensures
        param_names_unique(s.routes()),
{
    lemma_routes_param_names_unique(s.router);
}

/// The server's route listing has exactly one line per registered route,
/// the routes in listing order: a route before the routes below it, routes
/// below different segments in the order of those segments, and routes at
/// one place in the order of their methods.
pub proof fn lemma_server_listing_in_order<H>(s: &RumServer<H>)
    requires
        s.wf(),
    ensures
        lists_in_route_order(s.route_listing(), s.routes(), Seq::empty()),
{
    lemma_listing_in_route_order(s.router, Seq::empty());
}

/// Two servers with the same registered routes list them alike, however the
/// routes came to be registered.
pub proof fn lemma_server_listing_determined<H>(s1: &RumServer<H>, s2: &RumServer<H>)
    requires
        s1.wf(),
        s2.wf(),
        s1.routes() == s2.routes(),
    ensures
        s1.route_listing() == s2.route_listing(),
{
    lemma_listing_determined_by_routes(s1.router, s2.router, Seq::empty());
}

} // verus!
