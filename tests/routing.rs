use bimdb::reply::{
    couplings_location, redirect, return_400, return_404, return_405, return_500, url,
    vehicles_location,
};
use bimdb::router::{
    allowed_methods, dispatch, path_to_parts, route_parts, static_content_type,
    strip_path_prefix, Dispatch, Method, Page, Route,
};

fn parts(p: &str) -> Vec<String> {
    path_to_parts(p.as_bytes(), true).unwrap()
}

#[test]
fn path_parts_decode_segments() {
    assert_eq!(parts("/a%20b/c"), vec!["a b", "c"]);
    assert_eq!(parts("/"), vec![""]);
    assert_eq!(parts(""), Vec::<String>::new());
    assert_eq!(path_to_parts(b"/x", false).unwrap(), vec!["", "x"]);
    assert!(path_to_parts(b"/%FF", true).is_none());
    assert!(path_to_parts(b"/%zz", true).is_none());
    assert!(path_to_parts(b"/a%2", true).is_none());
    assert_eq!(parts("/100%25"), vec!["100%"]);
}

#[test]
fn prefix_is_stripped() {
    let hay = parts("/bim/json");
    let needle = parts("/bim");
    assert_eq!(strip_path_prefix(&hay, &needle).unwrap(), vec!["json"]);
    assert!(strip_path_prefix(&hay, &parts("/other")).is_none());
    assert!(strip_path_prefix(&needle, &hay).is_none());
}

#[test]
fn route_table() {
    assert_eq!(route_parts(&[]), Route::Page(Page::Index));
    assert_eq!(route_parts(&parts("/")), Route::Page(Page::Index));
    assert_eq!(route_parts(&parts("/json")), Route::Page(Page::Json));
    assert_eq!(route_parts(&parts("/cbor")), Route::Page(Page::Cbor));
    assert_eq!(route_parts(&parts("/add")), Route::Page(Page::Add));
    assert_eq!(route_parts(&parts("/edit")), Route::Page(Page::Edit));
    assert_eq!(route_parts(&parts("/delete")), Route::Page(Page::Delete));
    assert_eq!(route_parts(&parts("/couplings")), Route::Page(Page::Couplings));
    assert_eq!(route_parts(&parts("/coupling-add")), Route::Page(Page::CouplingAdd));
    assert_eq!(route_parts(&parts("/coupling-edit")), Route::Page(Page::CouplingEdit));
    assert_eq!(route_parts(&parts("/coupling-delete")), Route::Page(Page::CouplingDelete));
    assert_eq!(route_parts(&parts("/nope")), Route::NotFound);
    assert_eq!(route_parts(&parts("/json/x")), Route::NotFound);
}

#[test]
fn static_file_names() {
    assert_eq!(route_parts(&parts("/static/app.js")), Route::Static("app.js".to_string()));
    assert_eq!(route_parts(&parts("/static/a_b-c.min.js.map")), Route::Static("a_b-c.min.js.map".to_string()));
    assert_eq!(route_parts(&parts("/static/..")), Route::NotFound);
    assert_eq!(route_parts(&parts("/static/a..b")), Route::NotFound);
    assert_eq!(route_parts(&parts("/static/%2E%2E%2Fetc")), Route::NotFound);
    assert_eq!(route_parts(&parts("/static/a/b")), Route::NotFound);
    assert_eq!(route_parts(&parts("/static/")), Route::NotFound);
    assert_eq!(route_parts(&parts("/static/.a")), Route::NotFound);
    assert_eq!(route_parts(&parts("/static/a.")), Route::NotFound);
    assert_eq!(route_parts(&parts("/static/a%20b")), Route::NotFound);
    assert_eq!(route_parts(&parts("/static/%C3%A4")), Route::NotFound);
    assert_eq!(route_parts(&parts("/static/a.b\n")), Route::NotFound);
}

#[test]
fn static_content_types() {
    assert_eq!(static_content_type("a.css"), "text/css");
    assert_eq!(static_content_type("a.js"), "text/javascript");
    assert_eq!(static_content_type("a.js.map"), "application/json");
    assert_eq!(static_content_type("a.ts"), "text/x.typescript");
    assert_eq!(static_content_type("a.png"), "application/octet-stream");
}

#[test]
fn dispatch_outcomes() {
    assert!(matches!(dispatch(&Method::Get, b"/bim/", b"/bim"), Dispatch::Serve(Page::Index)));
    assert!(matches!(dispatch(&Method::Get, b"/bim", b"/bim"), Dispatch::Serve(Page::Index)));
    assert!(matches!(dispatch(&Method::Post, b"/add", b""), Dispatch::Serve(Page::Add)));
    assert!(matches!(dispatch(&Method::Get, b"/other/add", b"/bim"), Dispatch::OutsideBasePath));
    assert!(matches!(dispatch(&Method::Get, b"/%FF", b""), Dispatch::BadPath));
    assert!(matches!(dispatch(&Method::Get, b"/%zz", b""), Dispatch::BadPath));
    assert!(matches!(dispatch(&Method::Get, b"/add", b"/%"), Dispatch::BadBasePath));
    assert!(matches!(dispatch(&Method::Get, b"/", b"/%FF"), Dispatch::BadBasePath));
    assert!(matches!(dispatch(&Method::Get, b"/x", b""), Dispatch::NotFound));
    match dispatch(&Method::Get, b"/static/site.css", b"") {
        Dispatch::StaticFile(n) => assert_eq!(n, "site.css"),
        other => panic!("unexpected {:?}", other),
    }
    match dispatch(&Method::Get, b"/delete", b"") {
        Dispatch::MethodNotAllowed(ms) => assert_eq!(ms, vec![Method::Post]),
        other => panic!("unexpected {:?}", other),
    }
    match dispatch(&Method::Other("PUT".to_string()), b"/edit", b"") {
        Dispatch::MethodNotAllowed(ms) => assert_eq!(ms, vec![Method::Get, Method::Post]),
        other => panic!("unexpected {:?}", other),
    }
}

#[test]
fn allowed_method_sets() {
    assert_eq!(allowed_methods(Page::Index), vec![Method::Get]);
    assert_eq!(allowed_methods(Page::CouplingAdd), vec![Method::Get, Method::Post]);
    assert_eq!(allowed_methods(Page::CouplingDelete), vec![Method::Post]);
}

#[test]
fn error_replies() {
    let r = return_400("bad");
    assert_eq!((r.status, r.body.as_str()), (400, "400 Bad Request: bad"));
    let r = return_404();
    assert_eq!((r.status, r.body.as_str()), (404, "404 Not Found"));
    let r = return_500();
    assert_eq!((r.status, r.body.as_str()), (500, "500 Internal Server Error"));
    assert_eq!(r.content_type, "text/plain; charset=utf-8");
    let r = return_405(&Method::Other("PUT".to_string()), &[Method::Get, Method::Post]);
    assert_eq!(r.status, 405);
    assert_eq!(r.allow.as_deref(), Some("GET, POST"));
    assert_eq!(r.body, "unsupported method PUT; allowed: GET, POST");
}

#[test]
fn redirects() {
    let r = redirect(vehicles_location(""));
    assert_eq!((r.status, r.location.as_deref()), (302, Some("/")));
    assert_eq!(vehicles_location("/bim"), "/bim");
    assert_eq!(couplings_location("/bim"), "/bim/couplings");
    assert_eq!(couplings_location(""), "/couplings");
}

#[test]
fn url_escaping() {
    assert_eq!(url("Az09-._~"), "Az09-._~");
    assert_eq!(url("a b/c"), "a%20b%2Fc");
    assert_eq!(url("\u{e4}"), "%C3%A4");
}
