use std::collections::HashMap;

use moxy::config::{Configuration, Route, RouteMethod};
use moxy::dispatch::{
    decimal_text, on_miss, on_reply, upstream_url, ws_message_location, ws_messages, MissAction,
    ReplyAction, WsMessageType,
};
use moxy::record::{plan_fixture_moves, plan_save, Promotion};
use moxy::config::BuildMode;

fn empty_config() -> Configuration {
    Configuration { host: None, remote: None, build_mode: Some(BuildMode::Write), routes: vec![] }
}

#[test]
fn saving_twice_records_once() {
    let mut config = empty_config();
    let headers = HashMap::new();
    let first = plan_save(&mut config, &RouteMethod::GET, "/api/svc/x", &headers);
    let second = plan_save(&mut config, &RouteMethod::GET, "/api/svc/x", &headers);
    assert_eq!(first.unwrap().path, "./db/api/svc/x.txt");
    assert!(second.is_none());
    assert_eq!(config.routes.len(), 1);
    assert_eq!(config.routes[0].path, "/api/svc/x");
    assert_eq!(config.routes[0].resource, "./db/api/svc/x.txt");
}

#[test]
fn other_method_records_again() {
    let mut config = empty_config();
    let headers = HashMap::new();
    assert!(plan_save(&mut config, &RouteMethod::GET, "/x", &headers).is_some());
    assert!(plan_save(&mut config, &RouteMethod::POST, "/x", &headers).is_some());
    assert_eq!(config.routes.len(), 2);
}

fn run_promotion(promotion: &mut Promotion, files: &[&str]) -> Vec<(String, String)> {
    let mut moves = vec![];
    while let Some(folder) = promotion.pending() {
        if let Some(m) = promotion.observe(files.contains(&folder.as_str())) {
            moves.push(m);
        }
    }
    assert!(promotion.is_done());
    moves
}

#[test]
fn promotion_checks_every_folder_shortest_first() {
    let mut promotion = Promotion::new("./db/api/svc/user/x.txt");
    let mut seen = vec![];
    while let Some(folder) = promotion.pending() {
        seen.push(folder);
        promotion.observe(false);
    }
    assert_eq!(seen, vec![".", "./db", "./db/api", "./db/api/svc", "./db/api/svc/user"]);
    assert!(promotion.renames().is_empty());
}

#[test]
fn promotion_moves_recorded_file_under_index() {
    let mut config = empty_config();
    let headers = HashMap::new();
    let first = plan_save(&mut config, &RouteMethod::GET, "/api/svc/results.json", &headers).unwrap();
    assert_eq!(first.path, "./db/api/svc/results.json");

    let mut plan = plan_save(&mut config, &RouteMethod::GET, "/api/svc/results.json/detail", &headers).unwrap();
    assert_eq!(plan.path, "./db/api/svc/results.json/detail.txt");
    assert_eq!(plan.folders, "./db/api/svc/results.json");
    let moves = run_promotion(&mut plan.promotion, &["./db/api/svc/results.json"]);
    assert_eq!(
        moves,
        vec![("./db/api/svc/results.json".to_string(), "./db/api/svc/results.json/index".to_string())]
    );
    config.apply_renames(plan.promotion.renames());
    assert_eq!(config.routes[0].resource, "./db/api/svc/results.json/index");
    assert_eq!(config.routes[1].resource, "./db/api/svc/results.json/detail.txt");
}

#[test]
fn recorded_file_becomes_index_of_new_folder() {
    let mut config = empty_config();
    let headers = HashMap::new();
    let first = plan_save(&mut config, &RouteMethod::GET, "/api/svc/results", &headers).unwrap();
    assert_eq!(first.path, "./db/api/svc/results.txt");
    assert!(first.moves.is_empty());

    let mut plan = plan_save(&mut config, &RouteMethod::GET, "/api/svc/results/detail", &headers).unwrap();
    assert_eq!(plan.path, "./db/api/svc/results/detail.txt");
    assert_eq!(
        plan.moves,
        vec![("./db/api/svc/results.txt".to_string(), "./db/api/svc/results/index.txt".to_string())]
    );
    assert!(run_promotion(&mut plan.promotion, &[]).is_empty());
    config.apply_renames(plan.promotion.renames());
    config.apply_renames(&plan.moves);
    assert_eq!(config.routes.len(), 2);
    assert_eq!(config.routes[0].path, "/api/svc/results");
    assert_eq!(config.routes[0].resource, "./db/api/svc/results/index.txt");
    assert_eq!(config.routes[1].path, "/api/svc/results/detail");
    assert_eq!(config.routes[1].resource, "./db/api/svc/results/detail.txt");
}

#[test]
fn fixture_moves_keep_the_extension_and_skip_siblings() {
    let routes = vec![
        Route { method: RouteMethod::GET, path: "/a".to_string(), resource: "./db/a.json".to_string() },
        Route { method: RouteMethod::POST, path: "/a".to_string(), resource: "./db/a.json".to_string() },
        Route { method: RouteMethod::GET, path: "/ab".to_string(), resource: "./db/ab.txt".to_string() },
        Route { method: RouteMethod::GET, path: "/a/x".to_string(), resource: "./db/a.d/x.txt".to_string() },
    ];
    let folders = vec![".".to_string(), "./db".to_string(), "./db/a".to_string()];
    assert_eq!(
        plan_fixture_moves(&routes, &folders),
        vec![("./db/a.json".to_string(), "./db/a/index.json".to_string())]
    );
}

#[test]
fn renames_repoint_every_matching_route() {
    let mut config = empty_config();
    config.routes = vec![
        Route { method: RouteMethod::GET, path: "/a".to_string(), resource: "./db/a".to_string() },
        Route { method: RouteMethod::POST, path: "/a".to_string(), resource: "./db/a".to_string() },
        Route { method: RouteMethod::GET, path: "/b".to_string(), resource: "./db/b".to_string() },
    ];
    config.apply_renames(&vec![("./db/a".to_string(), "./db/a/index".to_string())]);
    assert_eq!(config.routes[0].resource, "./db/a/index");
    assert_eq!(config.routes[1].resource, "./db/a/index");
    assert_eq!(config.routes[2].resource, "./db/b");
}

#[test]
fn miss_without_build_mode_is_not_found() {
    assert_eq!(on_miss(&None, &Some("http://up".to_string())), MissAction::NotFound);
}

#[test]
fn miss_without_remote_is_not_found() {
    assert_eq!(on_miss(&Some(BuildMode::Write), &None), MissAction::NotFound);
}

#[test]
fn miss_with_remote_fetches() {
    assert_eq!(on_miss(&Some(BuildMode::Write), &Some("http://up".to_string())), MissAction::Fetch);
    assert_eq!(on_miss(&Some(BuildMode::Read), &Some("http://up".to_string())), MissAction::Fetch);
}

#[test]
fn reply_with_body_in_write_mode_is_recorded() {
    assert_eq!(on_reply(BuildMode::Write, Some(200), true), ReplyAction::RecordAndForward);
}

#[test]
fn reply_not_found_is_forwarded_only() {
    assert_eq!(on_reply(BuildMode::Write, Some(404), true), ReplyAction::Forward);
}

#[test]
fn reply_in_read_mode_is_forwarded_only() {
    assert_eq!(on_reply(BuildMode::Read, Some(200), true), ReplyAction::Forward);
}

#[test]
fn no_reply_is_not_found() {
    assert_eq!(on_reply(BuildMode::Write, None, false), ReplyAction::NotFound);
}

#[test]
fn reply_without_body_passes_through() {
    assert_eq!(on_reply(BuildMode::Write, Some(204), false), ReplyAction::PassThrough);
}

#[test]
fn upstream_url_joins_remote_and_uri() {
    assert_eq!(upstream_url("http://localhost", "/api/x?y=1"), "http://localhost/api/x?y=1");
}

#[test]
fn decimal_numbers() {
    assert_eq!(decimal_text(0), "0");
    assert_eq!(decimal_text(7), "7");
    assert_eq!(decimal_text(10), "10");
    assert_eq!(decimal_text(4096), "4096");
}

#[test]
fn ws_locations() {
    assert_eq!(ws_message_location("/chat", 0, false), "./db/chat_ws/0.txt");
    assert_eq!(ws_message_location("/chat", 12, true), "./db/chat_ws/12.json");
}

#[test]
fn ws_messages_detect_json() {
    let payloads = vec![b"{\"a\": 1}".to_vec(), b"hello".to_vec(), vec![0xff, 0xfe]];
    let records = ws_messages("/chat", &payloads);
    assert_eq!(records.len(), 3);
    assert_eq!(records[0].location, "./db/chat_ws/0.json");
    assert_eq!(records[1].location, "./db/chat_ws/1.txt");
    assert_eq!(records[2].location, "./db/chat_ws/2.txt");
    assert!(records.iter().all(|r| r.kind == WsMessageType::Startup && r.time.is_none()));
}
