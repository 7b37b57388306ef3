use hookrelay::router::{HttpMethod, RouteError, Router};

fn sample_router() -> Router<u32> {
    let mut r: Router<u32> = Router::new();
    r.get("/api/hooks", 1).unwrap();
    r.post("/api/hook", 2).unwrap();
    r.delete("/api/hook/:id", 3).unwrap();
    r.post("/hooks/gitlab/:id", 4).unwrap();
    r
}

#[test]
fn dispatch_exact_paths() {
    let r = sample_router();
    let (h, _) = r.dispatch(HttpMethod::Get, "/api/hooks").unwrap();
    assert_eq!(*h, 1);
    let (h, _) = r.dispatch(HttpMethod::Post, "/api/hook").unwrap();
    assert_eq!(*h, 2);
}

#[test]
fn dispatch_extracts_params() {
    let r = sample_router();
    let (h, params) = r.dispatch(HttpMethod::Delete, "/api/hook/abc-123").unwrap();
    assert_eq!(*h, 3);
    assert_eq!(params.param("id").unwrap(), "abc-123");
    assert!(params.param("other").is_none());

    let (h, params) = r.dispatch(HttpMethod::Post, "/hooks/gitlab/xyz").unwrap();
    assert_eq!(*h, 4);
    assert_eq!(params.param("id").unwrap(), "xyz");
}

#[test]
fn dispatch_wrong_method_is_not_found() {
    let r = sample_router();
    assert!(r.dispatch(HttpMethod::Post, "/api/hooks").is_none());
    assert!(r.dispatch(HttpMethod::Get, "/api/hook/abc").is_none());
    assert!(r.dispatch(HttpMethod::Put, "/api/hooks").is_none());
}

#[test]
fn dispatch_unregistered_path_is_not_found() {
    let r = sample_router();
    assert!(r.dispatch(HttpMethod::Get, "/api").is_none());
    assert!(r.dispatch(HttpMethod::Get, "/api/hooks/extra").is_none());
    assert!(r.dispatch(HttpMethod::Get, "").is_none());
}

#[test]
fn duplicate_registration_is_rejected() {
    let mut r = sample_router();
    assert_eq!(r.post("/api/hook", 9), Err(RouteError::Duplicate));
    // a pattern of the same shape under another parameter name is the
    // same route
    assert_eq!(r.delete("/api/hook/:x", 9), Err(RouteError::Duplicate));
    // same pattern, different method: fine
    assert!(r.put("/api/hook", 9).is_ok());
}

#[test]
fn static_segment_wins_over_param() {
    let mut r: Router<u32> = Router::new();
    r.get("/a/:x", 1).unwrap();
    r.get("/a/b", 2).unwrap();
    let (h, _) = r.dispatch(HttpMethod::Get, "/a/b").unwrap();
    assert_eq!(*h, 2);
    let (h, params) = r.dispatch(HttpMethod::Get, "/a/c").unwrap();
    assert_eq!(*h, 1);
    assert_eq!(params.param("x").unwrap(), "c");
}
