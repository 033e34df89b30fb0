use router_core::finalizer::{ResponseExtender, ResponseFinalizerBuilder};
use router_core::handler::{run_stages, Handler, Middleware, NewHandler, Outcome};
use router_core::matcher::{MethodOnlyRouteMatcher, RouteMismatch};
use router_core::message::{Request, Response};
use router_core::method::{clone_methods, contains_method, HttpMethod};
use router_core::pipeline::{
    finalize_pipeline_set, new_pipeline, new_pipeline_set, PipelineHandleChain,
};
use router_core::route::{Delegation, Dispatcher, Route};
use router_core::tree::PathParam;

/// Counts what it is given and hands it on, or answers once it has counted
/// up to its limit.
struct Count {
    step: u32,
    limit: u32,
}

impl Middleware<u32> for Count {
    fn call(&self, state: u32, _request: &Request) -> Outcome<u32> {
        let next = state * 10 + self.step;
        if next > self.limit {
            Outcome::Respond(next, Response::with_status(429))
        } else {
            Outcome::Next(next)
        }
    }
}

fn count(step: u32) -> Count {
    Count { step, limit: u32::MAX }
}

/// Answers with the status 200 and the number of bound values in the body.
struct Echo;

struct EchoOnce(bool);

impl NewHandler<u32> for Echo {
    type Instance = EchoOnce;

    fn new_handler(&self) -> EchoOnce {
        EchoOnce(false)
    }
}

impl Handler<u32> for EchoOnce {
    fn handle(mut self, state: u32, _request: &Request, params: &Vec<PathParam>) -> (u32, Response) {
        assert!(!self.0);
        self.0 = true;
        let mut response = Response::with_status(200);
        response.body = vec![params.len() as u8];
        (state + 1, response)
    }
}

struct Stamp(u8);

impl ResponseExtender<u32> for Stamp {
    fn extend(&self, state: u32, mut response: Response) -> (u32, Response) {
        response.body.push(self.0);
        (state + 100, response)
    }
}

fn get(path: &str) -> Request {
    Request::new(HttpMethod::Get, path)
}

#[test]
fn stages_hand_the_state_on_in_order() {
    let stages = vec![count(1), count(2), count(3)];
    let refs: Vec<&Count> = stages.iter().collect();
    let (state, response) = run_stages(&refs, &Echo, 0, &get("/"), &vec![]);
    assert_eq!(state, 124);
    assert_eq!(response.status, 200);
}

#[test]
fn no_stage_means_the_handler_alone() {
    let refs: Vec<&Count> = vec![];
    let params = vec![PathParam { name: "a".to_string(), value: "b".to_string() }];
    let (state, response) = run_stages(&refs, &Echo, 7, &get("/"), &params);
    assert_eq!(state, 8);
    assert_eq!(response, Response { status: 200, allow: vec![], body: vec![1] });
}

#[test]
fn answering_stage_ends_the_run() {
    let stages = vec![count(1), Count { step: 2, limit: 5 }, count(3)];
    let refs: Vec<&Count> = stages.iter().collect();
    let (state, response) = run_stages(&refs, &Echo, 0, &get("/"), &vec![]);
    assert_eq!(state, 12);
    assert_eq!(response, Response { status: 429, allow: vec![], body: vec![] });
}

#[test]
fn dispatcher_runs_the_pipelines_of_its_chain() {
    let set = new_pipeline_set();
    let (set, a) = set.add(new_pipeline().add(count(1)).add(count(2)).build());
    let (set, b) = set.add(new_pipeline().build());
    let (set, c) = set.add(new_pipeline().add(count(3)).build());
    let set = finalize_pipeline_set(set);
    let dispatcher = Dispatcher::new(Echo, PipelineHandleChain::new(vec![c, b, a]));
    let (state, response) = dispatcher.dispatch(&set, 0, &get("/"), &vec![]);
    assert_eq!(state, 313);
    assert_eq!(response.status, 200);
}

#[test]
fn route_matches_and_dispatches() {
    let set = finalize_pipeline_set(new_pipeline_set::<Count>());
    let route = Route::new(
        MethodOnlyRouteMatcher::new(vec![HttpMethod::Put]),
        Dispatcher::new(Echo, PipelineHandleChain::empty()),
        Delegation::Internal,
    );
    assert_eq!(route.is_match(&Request::new(HttpMethod::Put, "/x")), Ok(()));
    assert_eq!(route.is_match(&get("/x")), Err(RouteMismatch::MethodNotAllowed));
    assert_eq!(route.allowed(), vec![HttpMethod::Put]);
    assert_eq!(route.delegation(), Delegation::Internal);
    let (state, response) = route.dispatch(&set, 5, &get("/x"), &vec![]);
    assert_eq!(state, 6);
    assert_eq!(response.body, vec![0]);
}

#[test]
fn chain_copies_and_grows() {
    let set = new_pipeline_set::<Count>();
    let (set, a) = set.add(new_pipeline().add(count(1)).build());
    let (set, b) = set.add(new_pipeline().add(count(2)).build());
    let set = finalize_pipeline_set(set);
    let chain = PipelineHandleChain::empty().then(b);
    let copy = chain.duplicate().then(a);
    let steps = |chain: &PipelineHandleChain| -> Vec<u32> {
        chain.stages(&set).iter().map(|stage| stage.step).collect()
    };
    assert_eq!(steps(&chain), vec![2]);
    assert_eq!(steps(&copy), vec![2, 1]);
    assert_eq!(steps(&PipelineHandleChain::empty()), Vec::<u32>::new());
}

#[test]
fn finalizer_extends_the_registered_status_only() {
    let mut builder = ResponseFinalizerBuilder::new();
    builder.add(404, Stamp(1));
    builder.add(500, Stamp(2));
    builder.add(404, Stamp(3));
    let finalizer = builder.finalize();
    assert_eq!(
        finalizer.finalize(1, Response::with_status(404)),
        (101, Response { status: 404, allow: vec![], body: vec![3] })
    );
    assert_eq!(
        finalizer.finalize(1, Response::with_status(500)),
        (101, Response { status: 500, allow: vec![], body: vec![2] })
    );
    assert_eq!(
        finalizer.finalize(1, Response::method_not_allowed(vec![HttpMethod::Get])),
        (1, Response { status: 405, allow: vec![HttpMethod::Get], body: vec![] })
    );
}

#[test]
fn methods_are_found_and_copied() {
    let methods = vec![HttpMethod::Get, HttpMethod::Extension("LINK".to_string())];
    assert!(contains_method(&methods, &HttpMethod::Get));
    assert!(contains_method(&methods, &HttpMethod::Extension("LINK".to_string())));
    assert!(!contains_method(&methods, &HttpMethod::Extension("link".to_string())));
    assert!(!contains_method(&methods, &HttpMethod::Head));
    assert!(!contains_method(&vec![], &HttpMethod::Get));
    assert_eq!(clone_methods(&methods), methods);
    assert_eq!(
        HttpMethod::Extension("LINK".to_string()).clone(),
        HttpMethod::Extension("LINK".to_string())
    );
}
