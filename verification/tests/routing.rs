use rum_framework::context::RumContext;
use rum_framework::handler::{split_route, Handler};
use rum_framework::method::MethodType;
use rum_framework::router::{RouteConflict, Router};
use rum_framework::server::RumServer;

type RouteFn = fn(&mut RumContext);

fn segs(route: &str) -> Vec<&str> {
    route.trim_end_matches('/').split('/').collect()
}

#[test]
fn check_basic_route() {
    let mut handler: Handler<RouteFn> = Handler::new();
    handler.add_route(MethodType::GET, "/app/v1/test", |_: &mut RumContext| {});
    let target_route = "/app/v1/test";
    let route_segs: Vec<&str> = target_route.trim_end_matches('/').split('/').collect();
    let result = handler.router.get_full_route(MethodType::GET, &route_segs);
    assert_eq!(result.is_some(), true);
}

#[test]
fn check_route_with_params() {
    let mut handler: Handler<RouteFn> = Handler::new();
    handler.add_route(MethodType::GET, "/app/v1/test/:param1/page", |_: &mut RumContext| {});
    let target_route = "/app/v1/test/aaaaa/page";
    let route_segs: Vec<&str> = target_route.trim_end_matches('/').split('/').collect();
    let result = handler.router.get_full_route(MethodType::GET, &route_segs);
    assert_eq!(result.is_some(), true);
}

#[test]
fn check_different_route() {
    let mut handler: Handler<RouteFn> = Handler::new();
    handler.add_route(MethodType::GET, "/app/v1/test", |_: &mut RumContext| {});
    let target_route = "/app/v1/test2";
    let route_segs: Vec<&str> = target_route.trim_end_matches('/').split('/').collect();
    let result = handler.router.get_full_route(MethodType::GET, &route_segs);
    assert_eq!(result.is_some(), false);
}

#[test]
fn check_same_route_but_diffent_method() {
    let mut handler: Handler<RouteFn> = Handler::new();
    handler.add_route(MethodType::POST, "/app/v1/test", |_: &mut RumContext| {});
    let target_route = "/app/v1/test";
    let route_segs: Vec<&str> = target_route.trim_end_matches('/').split('/').collect();
    let result = handler.router.get_full_route(MethodType::GET, &route_segs);
    assert_eq!(result.is_some(), false);
}

#[test]
#[should_panic]
fn check_set_same_controller_crash() {
    let mut handler: Handler<RouteFn> = Handler::new();
    handler
        .try_add_route(MethodType::POST, "/app/v1/test", |_: &mut RumContext| {})
        .expect("first registration");
    handler
        .try_add_route(MethodType::POST, "/app/v1/test", |_: &mut RumContext| {})
        .expect("Error: route already exists");
}

#[test]
#[should_panic]
fn check_set_same_position_multiple_param_crash() {
    let mut handler: Handler<RouteFn> = Handler::new();
    handler
        .try_add_route(MethodType::POST, "/app/v1/test/:param1/page", |_: &mut RumContext| {})
        .expect("first registration");
    handler
        .try_add_route(MethodType::POST, "/app/v1/test/:param2/page", |_: &mut RumContext| {})
        .expect("Error: params conflict");
}

#[test]
fn duplicate_route_is_reported() {
    let mut handler: Handler<u32> = Handler::new();
    assert_eq!(handler.try_add_route(MethodType::POST, "/app/v1/test", 1), Ok(()));
    assert_eq!(
        handler.try_add_route(MethodType::POST, "/app/v1/test", 2),
        Err(RouteConflict::DuplicateRoute)
    );
    assert_eq!(handler.try_add_route(MethodType::GET, "/app/v1/test", 3), Ok(()));
    // The first handler stays.
    let found = handler.router.get_full_route(MethodType::POST, &segs("/app/v1/test"));
    assert_eq!(*found.unwrap().1, 1);
}

#[test]
fn param_conflict_is_reported_for_any_method() {
    let mut handler: Handler<u32> = Handler::new();
    assert_eq!(handler.try_add_route(MethodType::POST, "/a/:x/c", 1), Ok(()));
    assert_eq!(
        handler.try_add_route(MethodType::GET, "/a/:y", 2),
        Err(RouteConflict::ParamConflict)
    );
    assert_eq!(handler.try_add_route(MethodType::GET, "/a/:x", 3), Ok(()));
    assert_eq!(handler.try_add_route(MethodType::GET, "/a/b", 4), Ok(()));
}

#[test]
fn registered_route_is_found_with_its_full_route() {
    let router: Router<u32> = Router::new();
    let mut handler: Handler<u32> = Handler::new();
    handler.add_route(MethodType::PUT, "/users/:id/posts", 7);
    let found = handler.router.get_full_route(MethodType::PUT, &segs("/users/:id/posts")).unwrap();
    assert_eq!(found.0, &["".to_string(), "users".to_string(), ":id".to_string(), "posts".to_string()][..]);
    assert_eq!(*found.1, 7);
    let found = handler.router.get_full_route(MethodType::PUT, &segs("/users/42/posts")).unwrap();
    assert_eq!(found.0[2], ":id");
    assert!(router.get_full_route(MethodType::PUT, &segs("/users/42/posts")).is_none());
    assert!(router.get_full_route(MethodType::GET, &segs("/")).is_none());
}

#[test]
fn exact_segment_is_taken_before_the_parameter() {
    let mut handler: Handler<u32> = Handler::new();
    handler.add_route(MethodType::GET, "/a/:x/c", 1);
    handler.add_route(MethodType::GET, "/a/b/d", 2);
    // "/a/b/c" takes the exact segment "b" and does not come back to ":x".
    assert!(handler.router.get_full_route(MethodType::GET, &segs("/a/b/c")).is_none());
    assert_eq!(*handler.router.get_full_route(MethodType::GET, &segs("/a/z/c")).unwrap().1, 1);
    assert_eq!(*handler.router.get_full_route(MethodType::GET, &segs("/a/b/d")).unwrap().1, 2);
}

#[test]
fn root_route_and_slashes() {
    let mut handler: Handler<u32> = Handler::new();
    handler.add_route(MethodType::GET, "/", 1);
    handler.add_route(MethodType::GET, "app/v1/", 2);
    assert_eq!(*handler.router.get_full_route(MethodType::GET, &segs("/")).unwrap().1, 1);
    assert_eq!(*handler.router.get_full_route(MethodType::GET, &segs("/app/v1")).unwrap().1, 2);
    assert_eq!(split_route("app/v1/"), vec!["".to_string(), "app".to_string(), "v1".to_string()]);
    assert_eq!(split_route("/app/v1"), split_route("app/v1"));
    assert_eq!(split_route("/"), vec!["".to_string()]);
    assert_eq!(split_route(""), vec!["".to_string()]);
    assert_eq!(split_route("//a"), vec!["".to_string(), "".to_string(), "a".to_string()]);
}

#[test]
fn show_routes_lists_routes_in_order() {
    let mut server: RumServer<u32> = RumServer::new("127.0.0.1", 8080);
    server.get("/b", 1);
    server.post("/a/x", 2);
    server.get("/a/x", 3);
    server.delete("/", 4);
    server.patch("/a", 5);
    let lines = server.show_routes();
    assert_eq!(
        lines,
        vec![
            "|DELETE| /".to_string(),
            "|PATCH| /a".to_string(),
            "|GET| /a/x".to_string(),
            "|POST| /a/x".to_string(),
            "|GET| /b".to_string(),
        ]
    );
}

#[test]
fn server_methods_register_their_method() {
    let mut server: RumServer<u32> = rum_framework::rum::new("localhost", 3000);
    assert_eq!(server.host(), "localhost");
    assert_eq!(server.port(), 3000);
    server.get("/r", 1);
    server.post("/r", 2);
    server.put("/r", 3);
    server.delete("/r", 4);
    server.connect("/r", 5);
    server.options("/r", 6);
    server.trace("/r", 7);
    server.patch("/r", 8);
    assert_eq!(
        server.show_routes(),
        vec![
            "|CONNECT| /r".to_string(),
            "|DELETE| /r".to_string(),
            "|GET| /r".to_string(),
            "|OPTIONS| /r".to_string(),
            "|PATCH| /r".to_string(),
            "|POST| /r".to_string(),
            "|PUT| /r".to_string(),
            "|TRACE| /r".to_string(),
        ]
    );
    assert_eq!(server.try_add_route(MethodType::TRACE, "/r/", 9), Err(RouteConflict::DuplicateRoute));
}

#[test]
fn middleware_and_walk_have_no_effect() {
    let mut handler: Handler<u32> = Handler::new();
    handler.add_route(MethodType::GET, "/a/b", 1);
    handler.set_middleware(vec![5, 6]);
    let full = vec!["".to_string(), "a".to_string(), "b".to_string()];
    handler.router.exec_middleware(&full, 0);
    assert_eq!(*handler.router.get_full_route(MethodType::GET, &segs("/a/b")).unwrap().1, 1);
}

#[test]
fn handler_lookup_answers_like_its_router() {
    let mut handler: Handler<u32> = Handler::new();
    handler.add_route(MethodType::GET, "/users/:id", 3);
    let found = handler.get_full_route(MethodType::GET, &segs("/users/9")).unwrap();
    assert_eq!(found.0, &["".to_string(), "users".to_string(), ":id".to_string()][..]);
    assert_eq!(*found.1, 3);
    assert!(handler.get_full_route(MethodType::POST, &segs("/users/9")).is_none());
    assert_eq!(
        handler.get_full_route(MethodType::GET, &segs("/users/9")),
        handler.router.get_full_route(MethodType::GET, &segs("/users/9"))
    );
}

#[test]
fn refused_registration_leaves_server_unchanged() {
    let mut server: RumServer<u32> = RumServer::new("127.0.0.1", 8080);
    server.get("/a/:id", 1);
    server.post("/b", 2);
    let before = server.show_routes();
    assert_eq!(server.try_add_route(MethodType::POST, "/b", 3), Err(RouteConflict::DuplicateRoute));
    assert_eq!(server.show_routes(), before);
    assert_eq!(server.try_add_route(MethodType::PUT, "/a/:name/c", 4), Err(RouteConflict::ParamConflict));
    assert_eq!(server.show_routes(), before);
    assert_eq!(before, vec!["|GET| /a/:id".to_string(), "|POST| /b".to_string()]);
}

#[test]
fn registration_order_does_not_matter() {
    let mut first: RumServer<u32> = RumServer::new("127.0.0.1", 8080);
    let mut second: RumServer<u32> = RumServer::new("127.0.0.1", 8080);
    assert_eq!(first.try_add_route(MethodType::GET, "/x/:id/y", 1), Ok(()));
    assert_eq!(first.try_add_route(MethodType::POST, "/x", 2), Ok(()));
    assert_eq!(first.try_add_route(MethodType::GET, "/w", 3), Ok(()));
    assert_eq!(second.try_add_route(MethodType::GET, "/w", 3), Ok(()));
    assert_eq!(second.try_add_route(MethodType::POST, "/x", 2), Ok(()));
    assert_eq!(second.try_add_route(MethodType::GET, "/x/:id/y", 1), Ok(()));
    assert_eq!(first.show_routes(), second.show_routes());
    assert_eq!(
        first.show_routes(),
        vec!["|GET| /w".to_string(), "|POST| /x".to_string(), "|GET| /x/:id/y".to_string()]
    );
    // Clashing routes are refused in either order.
    let mut third: RumServer<u32> = RumServer::new("127.0.0.1", 8080);
    assert_eq!(third.try_add_route(MethodType::GET, "/p/:a", 1), Ok(()));
    assert_eq!(third.try_add_route(MethodType::GET, "/p/:b/q", 2), Err(RouteConflict::ParamConflict));
    let mut fourth: RumServer<u32> = RumServer::new("127.0.0.1", 8080);
    assert_eq!(fourth.try_add_route(MethodType::GET, "/p/:b/q", 2), Ok(()));
    assert_eq!(fourth.try_add_route(MethodType::GET, "/p/:a", 1), Err(RouteConflict::ParamConflict));
}
