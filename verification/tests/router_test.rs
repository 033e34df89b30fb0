use router_core::builder::{build_router, BuildError, RouterBuilder};
use router_core::finalizer::ResponseExtender;
use router_core::handler::{Handler, Middleware, NewHandler, Outcome};
use router_core::matcher::{MethodOnlyRouteMatcher, RouteMismatch};
use router_core::message::{Request, Response, METHOD_NOT_ALLOWED, NOT_FOUND};
use router_core::method::HttpMethod;
use router_core::pipeline::{
    finalize_pipeline_set, new_pipeline, new_pipeline_set, PipelineHandleChain, PipelineSet,
};
use router_core::router::{Routed, Router};
use router_core::tree::PathParam;

type State = Vec<String>;

/// A middleware that leaves its mark in the state and hands the request on,
/// or answers it with a status.
#[derive(Default)]
struct Stage {
    mark: &'static str,
    answer: Option<u16>,
}

impl Middleware<State> for Stage {
    fn call(&self, mut state: State, _request: &Request) -> Outcome<State> {
        state.push(self.mark.to_string());
        match self.answer {
            Some(status) => Outcome::Respond(state, Response::with_status(status)),
            None => Outcome::Next(state),
        }
    }
}

fn mark(mark: &'static str) -> Stage {
    Stage { mark, answer: None }
}

fn veto(mark: &'static str, status: u16) -> Stage {
    Stage { mark, answer: Some(status) }
}

/// A handler that answers with a status and puts into the body what it saw:
/// the marks in the state and the bound values.
#[derive(Clone, Copy)]
struct Fixed(u16);

impl Handler<State> for Fixed {
    fn handle(self, mut state: State, _request: &Request, params: &Vec<PathParam>) -> (State, Response) {
        let mut seen: Vec<String> = state.clone();
        for param in params {
            seen.push(format!("{}={}", param.name, param.value));
        }
        state.push("handler".to_string());
        let mut response = Response::with_status(self.0);
        response.body = seen.join(",").into_bytes();
        (state, response)
    }
}

impl NewHandler<State> for Fixed {
    type Instance = Fixed;

    fn new_handler(&self) -> Fixed {
        *self
    }
}

/// An extender that writes a text into the body.
struct Page(&'static str);

impl ResponseExtender<State> for Page {
    fn extend(&self, mut state: State, mut response: Response) -> (State, Response) {
        state.push("extended".to_string());
        response.body = self.0.as_bytes().to_vec();
        (state, response)
    }
}

type Builder = RouterBuilder<Stage, Fixed, Page>;

fn no_pipelines() -> (PipelineHandleChain, PipelineSet<Stage>) {
    (PipelineHandleChain::empty(), finalize_pipeline_set(new_pipeline_set()))
}

fn router_of(f: impl FnOnce(&mut Builder)) -> Router<Stage, Fixed, Page> {
    let (chain, pipelines) = no_pipelines();
    build_router(chain, pipelines, f).ok().unwrap()
}

fn request(method: HttpMethod, path: &str) -> Request {
    Request::new(method, path)
}

fn status(router: &Router<Stage, Fixed, Page>, method: HttpMethod, path: &str) -> u16 {
    router.handle(State::new(), &request(method, path)).1.status
}

fn body(response: &Response) -> String {
    String::from_utf8(response.body.clone()).unwrap()
}

fn welcome_index() -> Fixed {
    Fixed(hyper::StatusCode::Ok.as_u16())
}

fn api_submit() -> Fixed {
    Fixed(hyper::StatusCode::Accepted.as_u16())
}

#[test]
fn build_router_test() {
    let pipelines = new_pipeline_set();
    let (pipelines, default) = pipelines.add(new_pipeline().add(Stage::default()).build());

    let pipelines = finalize_pipeline_set(pipelines);

    let default_pipeline_chain = PipelineHandleChain::empty().then(default);

    let router = build_router(default_pipeline_chain, pipelines, |route: &mut Builder| {
        route.get("/").to(welcome_index());
        route.post("/api/submit").to(api_submit());
    })
    .ok()
    .unwrap();

    let incoming: hyper::Request = hyper::Request::new(hyper::Method::Get, "/".parse().unwrap());
    let response = router
        .handle(State::new(), &Request::from_hyper(incoming.method().clone(), incoming.path()))
        .1;

    assert_eq!(response.hyper_status(), Some(hyper::StatusCode::Ok));

    let incoming: hyper::Request =
        hyper::Request::new(hyper::Method::Post, "/api/submit".parse().unwrap());
    let response = router
        .handle(State::new(), &Request::from_hyper(incoming.method().clone(), incoming.path()))
        .1;

    assert_eq!(response.hyper_status(), Some(hyper::StatusCode::Accepted));
}

#[test]
fn end_to_end_statuses() {
    let router = router_of(|route| {
        route.get("/").to(Fixed(200));
        route.post("/api/submit").to(Fixed(202));
    });
    assert_eq!(status(&router, HttpMethod::Get, "/"), 200);
    assert_eq!(status(&router, HttpMethod::Post, "/api/submit"), 202);
    assert_eq!(status(&router, HttpMethod::Get, "/api/submit"), METHOD_NOT_ALLOWED);
    assert_eq!(status(&router, HttpMethod::Get, "/api/submit"), 405);
    assert_eq!(status(&router, HttpMethod::Get, "/missing"), NOT_FOUND);
    assert_eq!(status(&router, HttpMethod::Get, "/missing"), 404);
}

#[test]
fn registered_route_is_dispatched() {
    let router = router_of(|route| {
        route.get("/a/b").to(Fixed(201));
        route.request(vec![HttpMethod::Put, HttpMethod::Delete], "/a").to(Fixed(204));
        route.post("/a/b/c").to(Fixed(202));
    });
    assert_eq!(status(&router, HttpMethod::Get, "/a/b"), 201);
    assert_eq!(status(&router, HttpMethod::Head, "/a/b"), 201);
    assert_eq!(status(&router, HttpMethod::Put, "/a"), 204);
    assert_eq!(status(&router, HttpMethod::Delete, "/a"), 204);
    assert_eq!(status(&router, HttpMethod::Post, "/a/b/c"), 202);
    assert_eq!(
        router.route(&request(HttpMethod::Get, "/a/b")),
        Routed::Dispatch { node: 2, route: 0, params: vec![] }
    );
}

#[test]
fn earlier_route_of_a_path_wins() {
    let router = router_of(|route| {
        route.get("/a").to(Fixed(200));
        route.request(vec![HttpMethod::Get, HttpMethod::Post], "/a").to(Fixed(201));
    });
    assert_eq!(status(&router, HttpMethod::Get, "/a"), 200);
    assert_eq!(status(&router, HttpMethod::Post, "/a"), 201);
}

#[test]
fn same_path_twice_shares_node() {
    let router = router_of(|route| {
        route.get("/items").to(Fixed(200));
        route.post("/items").to(Fixed(201));
        route.get("/later").to(Fixed(203));
    });
    assert_eq!(
        router.route(&request(HttpMethod::Get, "/items")),
        Routed::Dispatch { node: 1, route: 0, params: vec![] }
    );
    assert_eq!(
        router.route(&request(HttpMethod::Post, "/items")),
        Routed::Dispatch { node: 1, route: 1, params: vec![] }
    );
    assert_eq!(
        router.route(&request(HttpMethod::Get, "/later")),
        Routed::Dispatch { node: 2, route: 0, params: vec![] }
    );
    assert_eq!(status(&router, HttpMethod::Get, "/items"), 200);
    assert_eq!(status(&router, HttpMethod::Post, "/items"), 201);
}

#[test]
fn dynamic_segment_binds_the_request_segment() {
    let router = router_of(|route| {
        route.get("/users/:id").to(Fixed(200));
    });
    let id = |value: &str| vec![PathParam { name: "id".to_string(), value: value.to_string() }];
    assert_eq!(
        router.route(&request(HttpMethod::Get, "/users/42")),
        Routed::Dispatch { node: 2, route: 0, params: id("42") }
    );
    assert_eq!(
        router.route(&request(HttpMethod::Get, "/users/abc")),
        Routed::Dispatch { node: 2, route: 0, params: id("abc") }
    );
    assert_eq!(router.route(&request(HttpMethod::Get, "/users")), Routed::NotFound);
    assert_eq!(router.route(&request(HttpMethod::Get, "/users/42/extra")), Routed::NotFound);
    let (_, response) = router.handle(State::new(), &request(HttpMethod::Get, "/users/42"));
    assert_eq!(body(&response), "id=42");
}

#[test]
fn static_segment_wins_over_dynamic() {
    let router = router_of(|route| {
        route.get("/users/:id").to(Fixed(200));
        route.get("/users/new").to(Fixed(201));
    });
    assert_eq!(status(&router, HttpMethod::Get, "/users/new"), 201);
    assert_eq!(status(&router, HttpMethod::Get, "/users/old"), 200);
}

#[test]
fn first_dynamic_segment_wins() {
    let router = router_of(|route| {
        route.get("/:first").to(Fixed(200));
        route.get("/:second").to(Fixed(201));
        route.get("/:second/more").to(Fixed(202));
    });
    assert_eq!(status(&router, HttpMethod::Get, "/x"), 200);
    assert_eq!(status(&router, HttpMethod::Get, "/x/more"), 404);
}

#[test]
fn unregistered_method_is_mismatch() {
    let router = router_of(|route| {
        route.get("/a").to(Fixed(200));
        route.post("/a").to(Fixed(201));
        route.request(vec![HttpMethod::Post, HttpMethod::Patch], "/a").to(Fixed(202));
    });
    assert_eq!(
        router.route(&request(HttpMethod::Delete, "/a")),
        Routed::MethodMismatch {
            allowed: vec![
                HttpMethod::Get,
                HttpMethod::Head,
                HttpMethod::Post,
                HttpMethod::Post,
                HttpMethod::Patch,
            ],
        }
    );
    let (state, response) = router.handle(State::new(), &request(HttpMethod::Delete, "/a"));
    assert_eq!(response.status, 405);
    assert!(response.allow.contains(&HttpMethod::Get));
    assert!(response.allow.contains(&HttpMethod::Head));
    assert!(response.allow.contains(&HttpMethod::Post));
    assert!(response.allow.contains(&HttpMethod::Patch));
    assert!(!response.allow.contains(&HttpMethod::Delete));
    assert!(!response.allow.contains(&HttpMethod::Put));
    assert!(response.body.is_empty());
    assert!(state.is_empty());
}

#[test]
fn unregistered_path_is_not_found() {
    let router = router_of(|route| {
        route.get("/a/b").to(Fixed(200));
    });
    assert_eq!(router.route(&request(HttpMethod::Get, "/missing")), Routed::NotFound);
    assert_eq!(router.route(&request(HttpMethod::Get, "/a")), Routed::NotFound);
    assert_eq!(router.route(&request(HttpMethod::Get, "/")), Routed::NotFound);
    assert_eq!(router.route(&request(HttpMethod::Get, "/a/b/c")), Routed::NotFound);
    let (state, response) = router.handle(State::new(), &request(HttpMethod::Post, "/missing"));
    assert_eq!(response, Response { status: 404, allow: vec![], body: vec![] });
    assert!(state.is_empty());
}

#[test]
fn empty_router_finds_nothing() {
    let router = router_of(|_route| {});
    assert_eq!(status(&router, HttpMethod::Get, "/"), 404);
    assert_eq!(status(&router, HttpMethod::Get, ""), 404);
}

#[test]
fn root_has_two_spellings() {
    let router = router_of(|route| {
        route.get("").to(Fixed(200));
        route.post("/").to(Fixed(201));
    });
    assert_eq!(
        router.route(&request(HttpMethod::Get, "/")),
        Routed::Dispatch { node: 0, route: 0, params: vec![] }
    );
    assert_eq!(
        router.route(&request(HttpMethod::Post, "")),
        Routed::Dispatch { node: 0, route: 1, params: vec![] }
    );
}

#[test]
fn path_without_leading_slash_is_the_same_key() {
    let router = router_of(|route| {
        route.get("api/submit").to(Fixed(200));
    });
    assert_eq!(status(&router, HttpMethod::Get, "/api/submit"), 200);
    assert_eq!(status(&router, HttpMethod::Get, "api/submit"), 200);
    assert_eq!(status(&router, HttpMethod::Get, "/api/submit/"), 404);
}

#[test]
fn registration_without_handler_adds_no_route() {
    let router = router_of(|route| {
        route.get("/a");
        route.get("/b").to(Fixed(200));
    });
    assert_eq!(router.route(&request(HttpMethod::Get, "/a")), Routed::NotFound);
    assert_eq!(
        router.route(&request(HttpMethod::Get, "/b")),
        Routed::Dispatch { node: 2, route: 0, params: vec![] }
    );
}

#[test]
fn pipelines_run_in_chain_order() {
    let set = new_pipeline_set();
    let (set, outer) = set.add(new_pipeline().add(mark("outer")).build());
    let (set, inner) = set.add(new_pipeline().add(mark("inner-a")).add(mark("inner-b")).build());
    let set = finalize_pipeline_set(set);
    let chain = PipelineHandleChain::new(vec![outer, inner]);
    let router = build_router(chain, set, |route: &mut Builder| {
        route.get("/").to(Fixed(200));
    })
    .ok()
    .unwrap();
    let (state, response) = router.handle(State::new(), &request(HttpMethod::Get, "/"));
    assert_eq!(response.status, 200);
    assert_eq!(body(&response), "outer,inner-a,inner-b");
    assert_eq!(state, vec!["outer", "inner-a", "inner-b", "handler"]);
}

#[test]
fn chain_order_is_not_set_order() {
    let set = new_pipeline_set();
    let (set, outer) = set.add(new_pipeline().add(mark("outer")).build());
    let (set, inner) = set.add(new_pipeline().add(mark("inner")).build());
    let set = finalize_pipeline_set(set);
    let chain = PipelineHandleChain::empty().then(inner).then(outer).then(inner);
    let router = build_router(chain, set, |route: &mut Builder| {
        route.get("/").to(Fixed(200));
    })
    .ok()
    .unwrap();
    let (_, response) = router.handle(State::new(), &request(HttpMethod::Get, "/"));
    assert_eq!(body(&response), "inner,outer,inner");
}

#[test]
fn middleware_answer_skips_the_rest() {
    let set = new_pipeline_set();
    let (set, outer) = set.add(new_pipeline().add(mark("outer")).add(veto("stop", 403)).build());
    let (set, inner) = set.add(new_pipeline().add(mark("inner")).build());
    let set = finalize_pipeline_set(set);
    let chain = PipelineHandleChain::new(vec![outer, inner]);
    let router = build_router(chain, set, |route: &mut Builder| {
        route.get("/").to(Fixed(200));
    })
    .ok()
    .unwrap();
    let (state, response) = router.handle(State::new(), &request(HttpMethod::Get, "/"));
    assert_eq!(response.status, 403);
    assert!(response.body.is_empty());
    assert_eq!(state, vec!["outer", "stop"]);
}

#[test]
fn pipelines_do_not_run_without_a_route() {
    let set = new_pipeline_set();
    let (set, outer) = set.add(new_pipeline().add(mark("outer")).build());
    let set = finalize_pipeline_set(set);
    let router = build_router(PipelineHandleChain::new(vec![outer]), set, |route: &mut Builder| {
        route.get("/").to(Fixed(200));
    })
    .ok()
    .unwrap();
    let (state, response) = router.handle(State::new(), &request(HttpMethod::Get, "/none"));
    assert_eq!(response.status, 404);
    assert!(state.is_empty());
    let (state, response) = router.handle(State::new(), &request(HttpMethod::Post, "/"));
    assert_eq!(response.status, 405);
    assert!(state.is_empty());
}

#[test]
fn unknown_pipeline_is_refused() {
    let other = new_pipeline_set();
    let (other, first) = other.add(new_pipeline().add(mark("a")).build());
    let (_, second) = other.add(new_pipeline().add(mark("b")).build());
    let set = new_pipeline_set();
    let (set, _) = set.add(new_pipeline().add(mark("c")).build());
    let set = finalize_pipeline_set(set);
    let chain = PipelineHandleChain::new(vec![first, second]);
    assert!(!chain.fits(&set));
    let built = build_router(chain, set, |route: &mut Builder| {
        route.get("/").to(Fixed(200));
    });
    assert_eq!(built.err(), Some(BuildError::UnknownPipeline));
}

#[test]
fn handles_are_stable_and_distinct() {
    let set = new_pipeline_set::<Stage>();
    let (set, first) = set.add(new_pipeline().build());
    let (set, second) = set.add(new_pipeline().add(mark("x")).build());
    assert_ne!(first, second);
    let set = finalize_pipeline_set(set);
    assert!(PipelineHandleChain::new(vec![first, second, first]).fits(&set));
    let stages = PipelineHandleChain::new(vec![second, first, second]).stages(&set);
    let marks: Vec<&str> = stages.iter().map(|stage| stage.mark).collect();
    assert_eq!(marks, vec!["x", "x"]);
}

#[test]
fn extender_makes_the_fallback_response() {
    let router = router_of(|route| {
        route.add_response_extender(404, Page("first"));
        route.add_response_extender(404, Page("nothing here"));
        route.get("/").to(Fixed(200));
    });
    let (state, response) = router.handle(State::new(), &request(HttpMethod::Get, "/none"));
    assert_eq!(response.status, 404);
    assert_eq!(body(&response), "nothing here");
    assert_eq!(state, vec!["extended"]);
    let (state, response) = router.handle(State::new(), &request(HttpMethod::Post, "/"));
    assert_eq!(response.status, 405);
    assert_eq!(response.allow, vec![HttpMethod::Get, HttpMethod::Head]);
    assert!(response.body.is_empty());
    assert!(state.is_empty());
    let (state, response) = router.handle(State::new(), &request(HttpMethod::Get, "/"));
    assert_eq!(response.status, 200);
    assert_eq!(state, vec!["handler"]);
}

#[test]
fn matcher_takes_its_methods_only() {
    let matcher = MethodOnlyRouteMatcher::new(vec![HttpMethod::Get, HttpMethod::Head]);
    assert_eq!(matcher.is_match(&request(HttpMethod::Get, "/")), Ok(()));
    assert_eq!(matcher.is_match(&request(HttpMethod::Head, "/x")), Ok(()));
    assert_eq!(
        matcher.is_match(&request(HttpMethod::Post, "/")),
        Err(RouteMismatch::MethodNotAllowed)
    );
    assert_eq!(matcher.methods(), vec![HttpMethod::Get, HttpMethod::Head]);
    let nothing = MethodOnlyRouteMatcher::new(vec![]);
    assert_eq!(
        nothing.is_match(&request(HttpMethod::Get, "/")),
        Err(RouteMismatch::MethodNotAllowed)
    );
}

#[test]
fn extension_methods_are_told_apart_by_token() {
    let router = router_of(|route| {
        route.request(vec![HttpMethod::Extension("PURGE".to_string())], "/cache").to(Fixed(204));
    });
    assert_eq!(status(&router, HttpMethod::Extension("PURGE".to_string()), "/cache"), 204);
    assert_eq!(status(&router, HttpMethod::Extension("purge".to_string()), "/cache"), 405);
    assert_eq!(status(&router, HttpMethod::Extension("GET".to_string()), "/cache"), 405);
    assert_eq!(status(&router, HttpMethod::Get, "/cache"), 405);
    assert!(HttpMethod::Extension("A".to_string()).same(&HttpMethod::Extension("A".to_string())));
    assert!(!HttpMethod::Get.same(&HttpMethod::Head));
    assert_eq!(HttpMethod::Patch.clone(), HttpMethod::Patch);
}

#[test]
fn hyper_method_becomes_the_method_of_the_same_name() {
    let pairs = vec![
        (hyper::Method::Options, HttpMethod::Options),
        (hyper::Method::Get, HttpMethod::Get),
        (hyper::Method::Post, HttpMethod::Post),
        (hyper::Method::Put, HttpMethod::Put),
        (hyper::Method::Delete, HttpMethod::Delete),
        (hyper::Method::Head, HttpMethod::Head),
        (hyper::Method::Trace, HttpMethod::Trace),
        (hyper::Method::Connect, HttpMethod::Connect),
        (hyper::Method::Patch, HttpMethod::Patch),
        (hyper::Method::Extension("PURGE".to_string()), HttpMethod::Extension("PURGE".to_string())),
    ];
    for (theirs, ours) in pairs {
        assert_eq!(
            Request::from_hyper(theirs, "/p"),
            Request { method: ours, path: "/p".to_string() }
        );
    }
}

#[test]
fn hyper_status_is_the_code_of_the_number() {
    assert_eq!(Response::with_status(200).hyper_status(), Some(hyper::StatusCode::Ok));
    assert_eq!(Response::with_status(404).hyper_status(), Some(hyper::StatusCode::NotFound));
    assert_eq!(
        Response::method_not_allowed(vec![HttpMethod::Get]).hyper_status(),
        Some(hyper::StatusCode::MethodNotAllowed)
    );
    assert_eq!(Response::with_status(100).hyper_status(), Some(hyper::StatusCode::Continue));
    assert_eq!(
        Response::with_status(599).hyper_status(),
        Some(hyper::StatusCode::Unregistered(599))
    );
    assert_eq!(Response::with_status(99).hyper_status(), None);
    assert_eq!(Response::with_status(600).hyper_status(), None);
    assert_eq!(Response::with_status(0).hyper_status(), None);
}

#[test]
fn builder_is_made_and_closed_without_a_closure() {
    let (chain, pipelines) = no_pipelines();
    let mut builder: Builder = RouterBuilder::new(chain, pipelines).ok().unwrap();
    builder.get("/a").to(Fixed(200));
    builder.post("/a/:id").to(Fixed(201));
    let router = builder.finalize();
    assert_eq!(status(&router, HttpMethod::Head, "/a"), 200);
    assert_eq!(status(&router, HttpMethod::Post, "/a/7"), 201);
    assert_eq!(status(&router, HttpMethod::Post, "/a"), 405);

    let other = new_pipeline_set();
    let (_, handle) = other.add(new_pipeline().add(mark("a")).build());
    let (_, pipelines) = no_pipelines();
    let made: Result<Builder, BuildError> =
        RouterBuilder::new(PipelineHandleChain::new(vec![handle]), pipelines);
    assert_eq!(made.err(), Some(BuildError::UnknownPipeline));
}
