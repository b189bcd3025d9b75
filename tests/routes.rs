use hyper::Uri;

use moxy::config::{get_route, BuildMode, Configuration, Route, RouteMethod};

fn route(method: RouteMethod, path: &str, resource: &str) -> Route {
    Route { method, path: path.to_string(), resource: resource.to_string() }
}

#[test]
fn static_route() {
    let routes = vec![route(RouteMethod::GET, "/api/test", "db/api/test.json")];
    let url = &"http://localhost:8080/api/test".parse::<Uri>().unwrap();
    let (result, parameter) = get_route(&routes, url.path(), &RouteMethod::GET);

    assert_eq!(result.unwrap().resource, routes[0].resource);
    assert_eq!(parameter, None);
}

fn three_routes() -> Configuration {
    Configuration {
        routes: vec![
            route(RouteMethod::GET, "/a", "somefile.txt"),
            route(RouteMethod::GET, "/b", "somefile.txt"),
            route(RouteMethod::GET, "/c", "somefile.txt"),
        ],
        host: None,
        remote: None,
        build_mode: None,
    }
}

#[test]
fn configuration_get_route_should_find_no_route() {
    let configuration = three_routes();

    assert!(!configuration.get_route("/abc", &RouteMethod::GET).is_some());
}

#[test]
fn configuration_get_route_should_find_route() {
    let configuration = three_routes();

    assert!(configuration.get_route("/a", &RouteMethod::GET).is_some());
    assert!(configuration.get_route("/b", &RouteMethod::GET).is_some());
    assert!(configuration.get_route("/c", &RouteMethod::GET).is_some());
}

#[test]
fn dynamic_route_with_different_start() {
    let routes = vec![
        route(RouteMethod::GET, "/api/test/1/$$$.json", "db/api/1/$$$.json"),
        route(RouteMethod::GET, "/api/test/2/$$$.json", "db/api/2/$$$.json"),
        route(RouteMethod::GET, "/api/test/3/$$$.json", "db/api/3/$$$.json"),
    ];

    let url = "http://localhost:8080/api/test/1/abc.json".parse::<Uri>().unwrap();
    assert_eq!(get_route(&routes, url.path(), &RouteMethod::GET).0.unwrap().resource, "db/api/1/$$$.json");
    let url = "http://localhost:8080/api/test/2/abc.json".parse::<Uri>().unwrap();
    assert_eq!(get_route(&routes, url.path(), &RouteMethod::GET).0.unwrap().resource, "db/api/2/$$$.json");
    let url = "http://localhost:8080/api/test/3/abc.json".parse::<Uri>().unwrap();
    assert_eq!(get_route(&routes, url.path(), &RouteMethod::GET).0.unwrap().resource, "db/api/3/$$$.json");
}

#[test]
fn dynamic_route_with_different_end() {
    let routes = vec![
        route(RouteMethod::GET, "/api/test/$$$.txt", "db/api/$$$.txt"),
        route(RouteMethod::GET, "/api/test/$$$.json", "db/api/$$$.json"),
    ];

    let url = "http://localhost:8080/api/test/abc.txt".parse::<Uri>().unwrap();
    assert_eq!(get_route(&routes, url.path(), &RouteMethod::GET).0.unwrap().resource, "db/api/$$$.txt");
    let url = "http://localhost:8080/api/test/abc.json".parse::<Uri>().unwrap();
    assert_eq!(get_route(&routes, url.path(), &RouteMethod::GET).0.unwrap().resource, "db/api/$$$.json");
}

#[test]
fn dynamic_paramerter_end() {
    let routes = vec![route(RouteMethod::GET, "/api/test/$$$", "db/api/$$$")];

    let url = "http://localhost:8080/api/test/abc".parse::<Uri>().unwrap();
    assert_eq!(get_route(&routes, url.path(), &RouteMethod::GET).1.unwrap(), "abc");
}

#[test]
fn dynamic_paramerter_middle() {
    let routes = vec![route(RouteMethod::GET, "/api/test/$$$.txt", "db/api/$$$.txt")];

    let url = "http://localhost:8080/api/test/abc.txt".parse::<Uri>().unwrap();
    assert_eq!(get_route(&routes, url.path(), &RouteMethod::GET).1.unwrap(), "abc");
}

#[test]
fn static_pattern_is_a_suffix_match() {
    let routes = vec![route(RouteMethod::GET, "/api/test", "t.txt")];
    assert!(get_route(&routes, "/prefix/api/test", &RouteMethod::GET).0.is_some());
    assert!(get_route(&routes, "/api/test/more", &RouteMethod::GET).0.is_none());
    assert!(get_route(&routes, "/api/tes", &RouteMethod::GET).0.is_none());
}

#[test]
fn wildcard_needs_the_prefix() {
    let routes = vec![route(RouteMethod::GET, "/api/test/$$$", "t.txt")];
    assert!(get_route(&routes, "/other/test/abc", &RouteMethod::GET).0.is_none());
}

#[test]
fn other_method_does_not_match() {
    let routes = vec![route(RouteMethod::POST, "/api/test", "t.txt")];
    let (found, capture) = get_route(&routes, "/api/test", &RouteMethod::GET);
    assert!(found.is_none());
    assert!(capture.is_none());
}

#[test]
fn first_matching_route_wins() {
    let routes = vec![
        route(RouteMethod::GET, "/api/$$$", "first.txt"),
        route(RouteMethod::GET, "/api/test", "second.txt"),
    ];
    let (found, capture) = get_route(&routes, "/api/test", &RouteMethod::GET);
    assert_eq!(found.unwrap().resource, "first.txt");
    assert_eq!(capture, Some("test"));
}

#[test]
fn overlapping_prefix_and_suffix_capture_nothing() {
    let routes = vec![route(RouteMethod::GET, "/a$$$a", "t.txt")];
    let (found, capture) = get_route(&routes, "/a", &RouteMethod::GET);
    assert!(found.is_some());
    assert_eq!(capture, Some(""));
}

#[test]
fn lookup_by_resource_and_path() {
    let mut configuration = three_routes();
    configuration.routes.push(route(RouteMethod::POST, "/d", "other.txt"));
    assert_eq!(configuration.get_route_by_resource_mut("somefile.txt", &RouteMethod::GET), Some(0));
    assert_eq!(configuration.get_route_by_resource_mut("other.txt", &RouteMethod::GET), None);
    assert_eq!(configuration.get_route_by_resource_mut("other.txt", &RouteMethod::POST), Some(3));
    assert_eq!(configuration.get_route_by_path_mut("/c", &RouteMethod::GET), Some(2));
    assert_eq!(configuration.get_route_by_path_mut("/d", &RouteMethod::GET), None);
}

#[test]
fn method_names_round_trip() {
    for m in [
        RouteMethod::GET,
        RouteMethod::HEAD,
        RouteMethod::POST,
        RouteMethod::PUT,
        RouteMethod::DELETE,
        RouteMethod::CONNECT,
        RouteMethod::OPTIONS,
        RouteMethod::TRACE,
        RouteMethod::PATCH,
    ] {
        assert_eq!(m.as_str().parse::<RouteMethod>(), Ok(m));
    }
    assert_eq!(RouteMethod::parse("get"), Err(1));
    assert_eq!(RouteMethod::parse("PATCH"), Ok(RouteMethod::PATCH));
}

#[test]
fn initial_configuration() {
    let c = Configuration::initial();
    assert_eq!(c.host.as_deref(), Some("127.0.0.1:8080"));
    assert_eq!(c.remote.as_deref(), Some("http://localhost"));
    assert_eq!(c.build_mode, Some(BuildMode::Write));
    assert!(c.routes.is_empty());
}
