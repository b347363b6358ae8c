use router::{clean_path, Answer, Node, Param, Params, Route, RouteError};

fn redirect_of(a: Answer<'_, u32>) -> (u16, String) {
    match a {
        Answer::Redirect(code, loc) => (code, loc),
        _ => panic!("expected a redirect"),
    }
}

#[test]
fn static_route_is_found_without_params() {
    let mut r: Route<u32> = Route::new();
    assert!(r.get("/foo", 1).is_ok());
    assert!(r.get("/foo/bar", 2).is_ok());
    assert!(r.get("/", 3).is_ok());
    let (h, ps, tsr) = r.lookup("GET", "/foo");
    assert_eq!(h, Some(&1));
    assert!(ps.is_empty());
    assert!(!tsr);
    let (h, ps, _) = r.lookup("GET", "/foo/bar");
    assert_eq!(h, Some(&2));
    assert!(ps.is_empty());
    let (h, _, _) = r.lookup("GET", "/");
    assert_eq!(h, Some(&3));
}

#[test]
fn static_routes_any_registration_order() {
    let mut a: Route<u32> = Route::new();
    assert!(a.get("/a", 1).is_ok());
    assert!(a.get("/ab", 2).is_ok());
    let mut b: Route<u32> = Route::new();
    assert!(b.get("/ab", 2).is_ok());
    assert!(b.get("/a", 1).is_ok());
    assert_eq!(a.lookup("GET", "/a").0, Some(&1));
    assert_eq!(b.lookup("GET", "/a").0, Some(&1));
    assert_eq!(a.lookup("GET", "/ab").0, Some(&2));
    assert_eq!(b.lookup("GET", "/ab").0, Some(&2));
}

#[test]
fn params_bound_in_order() {
    let mut r: Route<u32> = Route::new();
    assert!(r.get("/user/:name/post/:id", 7).is_ok());
    let (h, ps, _) = r.lookup("GET", "/user/ann/post/42");
    assert_eq!(h, Some(&7));
    assert_eq!(ps.0.len(), 2);
    assert_eq!(ps.0[0].key, "name");
    assert_eq!(ps.0[1].key, "id");
    assert_eq!(ps.get("name"), Some("ann"));
    assert_eq!(ps.get("id"), Some("42"));
    assert_eq!(ps.index(0), "ann");
    assert_eq!(ps.index(1), "42");
    assert_eq!(ps.get("missing"), None);
    assert_eq!(ps, Params(vec![Param::new("name", "ann"), Param::new("id", "42")]));
}

#[test]
fn param_does_not_cross_slash_or_match_empty() {
    let mut r: Route<u32> = Route::new();
    assert!(r.get("/user/:name", 1).is_ok());
    assert_eq!(r.lookup("GET", "/user/a/b").0, None);
    let (h, _, tsr) = r.lookup("GET", "/user/");
    assert_eq!(h, None);
    assert!(!tsr);
}

#[test]
fn catch_all_binds_suffix_with_slash() {
    let mut r: Route<u32> = Route::new();
    assert!(r.get("/src/*filepath", 5).is_ok());
    let (h, ps, _) = r.lookup("GET", "/src/a/b.txt");
    assert_eq!(h, Some(&5));
    assert_eq!(ps.get("filepath"), Some("/a/b.txt"));
    let (h, ps, _) = r.lookup("GET", "/src/");
    assert_eq!(h, Some(&5));
    assert_eq!(ps.get("filepath"), Some("/"));
    assert_eq!(r.lookup("GET", "/src").0, None);
    assert_eq!(r.lookup("GET", "/srcx/a").0, None);
}

#[test]
fn trailing_slash_redirects() {
    let mut r: Route<u32> = Route::new();
    assert!(r.get("/foo", 1).is_ok());
    assert!(r.post("/foo", 2).is_ok());
    assert!(r.get("/bar/", 3).is_ok());
    assert!(r.head("/foo", 4).is_ok());
    assert_eq!(redirect_of(r.dispatch("GET", "/foo/")), (301, "/foo".to_string()));
    assert_eq!(redirect_of(r.dispatch("HEAD", "/foo/")), (301, "/foo".to_string()));
    assert_eq!(redirect_of(r.dispatch("POST", "/foo/")), (307, "/foo".to_string()));
    assert_eq!(redirect_of(r.dispatch("GET", "/bar")), (301, "/bar/".to_string()));
    let (h, _, tsr) = r.lookup("GET", "/foo/");
    assert_eq!(h, None);
    assert!(tsr);
}

#[test]
fn fixed_path_redirects_to_registered_case() {
    let mut r: Route<u32> = Route::new();
    assert!(r.get("/Foo", 1).is_ok());
    assert_eq!(redirect_of(r.dispatch("GET", "/foo")), (301, "/Foo".to_string()));
    assert_eq!(redirect_of(r.dispatch("GET", "/..//FOO")), (301, "/Foo".to_string()));
    r.redirect_fixed_path = false;
    assert!(matches!(r.dispatch("GET", "/foo"), Answer::NotFound));
}

#[test]
fn case_insensitive_lookup_on_a_tree() {
    let mut n: Node<u32> = Node::new();
    assert!(n.add_route("/Users/:id/Posts", 1).is_ok());
    assert_eq!(n.find_case_insensitive_path("/users/AbC/posts", false), ("/Users/AbC/Posts".to_string(), true));
    assert_eq!(n.find_case_insensitive_path("/users/AbC/posts/", false), (String::new(), false));
    assert_eq!(n.find_case_insensitive_path("/users/AbC/posts/", true), ("/Users/AbC/Posts".to_string(), true));
    assert_eq!(n.find_case_insensitive_path("/other", true), (String::new(), false));
}

#[test]
fn clean_path_examples() {
    assert_eq!(clean_path("/a/../../b"), "/b");
    assert_eq!(clean_path(""), "/");
    assert_eq!(clean_path("/"), "/");
    assert_eq!(clean_path("a//b/./c/"), "/a/b/c");
    assert_eq!(clean_path("/../.."), "/");
    assert_eq!(clean_path("/a/b/../c/."), "/a/c");
    assert_eq!(clean_path("/..a/b"), "/..a/b");
}

#[test]
fn clean_path_is_idempotent() {
    for p in ["", "/", "//x//y/", "/a/../../b", "a/./b/../../..", "/.../x", "/x/.."] {
        let once = clean_path(p);
        assert_eq!(clean_path(&once), once);
        assert!(once.starts_with('/'));
        assert!(!once.split('/').any(|s| s == ".."));
    }
}

#[test]
fn method_not_allowed_lists_other_methods() {
    let mut r: Route<u32> = Route::new();
    assert!(r.get("/x", 1).is_ok());
    assert!(r.post("/x", 2).is_ok());
    assert!(r.delete("/y", 3).is_ok());
    match r.dispatch("PUT", "/x") {
        Answer::MethodNotAllowed(allow) => assert_eq!(allow, "GET, POST, OPTIONS"),
        _ => panic!("expected 405"),
    }
    assert_eq!(r.allowed("/x", "GET"), "POST, OPTIONS");
    r.method_not_allowed = Some(9);
    match r.dispatch("PUT", "/x") {
        Answer::MethodNotAllowedHandler(h, allow) => {
            assert_eq!(*h, 9);
            assert_eq!(allow, "GET, POST, OPTIONS");
        },
        _ => panic!("expected the 405 handler"),
    }
    r.handle_method_not_allowed = false;
    assert!(matches!(r.dispatch("PUT", "/x"), Answer::NotFound));
}

#[test]
fn options_star_lists_methods() {
    let mut r: Route<u32> = Route::new();
    assert!(r.get("/x", 1).is_ok());
    assert!(r.options("/x", 2).is_ok());
    assert!(r.post("/y", 3).is_ok());
    assert!(r.put("/z", 4).is_ok());
    assert!(r.patch("/z", 5).is_ok());
    assert_eq!(r.allowed("*", "OPTIONS"), "GET, POST, PUT, PATCH, OPTIONS");
    match r.dispatch("OPTIONS", "*") {
        Answer::Options(allow) => assert_eq!(allow, "GET, POST, PUT, PATCH, OPTIONS"),
        _ => panic!("expected the OPTIONS answer"),
    }
    match r.dispatch("OPTIONS", "/y") {
        Answer::Options(allow) => assert_eq!(allow, "POST, OPTIONS"),
        _ => panic!("expected the OPTIONS answer"),
    }
    assert!(matches!(r.dispatch("OPTIONS", "/x"), Answer::Handle(&2, _)));
}

#[test]
fn unregistered_path_is_not_found() {
    let mut r: Route<u32> = Route::new();
    assert!(r.get("/x", 1).is_ok());
    assert!(matches!(r.dispatch("GET", "/nothing"), Answer::NotFound));
    assert!(matches!(r.dispatch("DELETE", "/nothing"), Answer::NotFound));
    assert!(matches!(r.dispatch("OPTIONS", "/nothing"), Answer::NotFound));
    r.not_found = Some(8);
    assert!(matches!(r.dispatch("GET", "/nothing"), Answer::NotFoundHandler(&8)));
    let empty: Route<u32> = Route::new();
    assert!(matches!(empty.dispatch("GET", "/"), Answer::NotFound));
}

#[test]
fn conflicting_param_names_rejected() {
    let mut r: Route<u32> = Route::new();
    assert_eq!(r.get("/user/:id", 1), Ok(()));
    assert_eq!(r.get("/user/:name", 2), Err(RouteError::Conflict));
    assert_eq!(r.lookup("GET", "/user/5").0, Some(&1));
    assert_eq!(r.post("/user/:name", 3), Ok(()));
    assert_eq!(r.get("/user/:id/posts", 4), Ok(()));
}

#[test]
fn registration_errors() {
    let mut r: Route<u32> = Route::new();
    assert_eq!(r.handle("GET", "foo", 1), Err(RouteError::MissingSlash));
    assert_eq!(r.handle("GET", "", 1), Err(RouteError::MissingSlash));
    assert_eq!(r.handle("GET", "/src/*", 1), Err(RouteError::InvalidPattern));
    assert_eq!(r.handle("GET", "/src/*x/y", 1), Err(RouteError::InvalidPattern));
    assert_eq!(r.handle("GET", "/a*b", 1), Err(RouteError::InvalidPattern));
    assert_eq!(r.handle("GET", "/:", 1), Err(RouteError::InvalidPattern));
    assert_eq!(r.handle("GET", "/foo", 1), Ok(()));
    assert_eq!(r.handle("GET", "/foo", 2), Err(RouteError::Conflict));
    assert_eq!(r.handle("GET", "/foo/new", 2), Ok(()));
    assert_eq!(r.handle("GET", "/foo/:id", 3), Err(RouteError::Conflict));
    assert_eq!(r.handle("GET", "/src/*path", 4), Ok(()));
    assert_eq!(r.handle("GET", "/src/", 5), Err(RouteError::Conflict));
    assert_eq!(r.lookup("GET", "/foo").0, Some(&1));
}

#[test]
fn dispatch_calls_handler_with_params() {
    let mut r: Route<u32> = Route::new();
    assert!(r.handle("CUSTOM", "/p/:v", 11).is_ok());
    match r.dispatch("CUSTOM", "/p/q") {
        Answer::Handle(h, ps) => {
            assert_eq!(*h, 11);
            assert_eq!(ps.get("v"), Some("q"));
        },
        _ => panic!("expected the handler"),
    }
    assert_eq!(redirect_of(r.dispatch("CUSTOM", "/p/q/")), (307, "/p/q".to_string()));
    assert!(r.handle("CONNECT", "/c", 12).is_ok());
    assert!(matches!(r.dispatch("CONNECT", "/c/"), Answer::NotFound));
}

#[test]
fn params_basics() {
    let mut ps = Params::new();
    assert!(ps.is_empty());
    ps.push(Param::new("a", "1"));
    ps.push(Param::new("a", "2"));
    assert!(!ps.is_empty());
    assert_eq!(ps.get("a"), Some("1"));
    assert_eq!(ps.index(1), "2");
}
