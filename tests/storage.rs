use std::collections::HashMap;

use moxy::storage::{
    content_type_from_guess, get_content_type, get_folders, get_folders_to_check, get_save_path,
    save_path_with_extension,
};

#[test]
fn get_folders_to_check_should_return_correct_result_1() {
    let input = "./db/api/asdf-service/user/micmine";

    let expected = vec![
        ".",
        "./db",
        "./db/api",
        "./db/api/asdf-service",
        "./db/api/asdf-service/user",
        "./db/api/asdf-service/user/micmine",
    ];

    assert_eq!(get_folders_to_check(input), expected);
}

#[test]
fn get_folders_to_check_should_return_correct_result_2() {
    let input = "./db/a";

    let expected = vec![".", "./db", "./db/a"];

    assert_eq!(get_folders_to_check(input), expected);
}

#[test]
fn get_save_path_add_db_folder() {
    let input = "/api/some-service/micmine";
    let expected = "./db/api/some-service/micmine.txt";

    assert_eq!(get_save_path(input, &HashMap::new()), expected);
}

#[test]
fn get_save_path_add_index_for_folder() {
    let input = "/api/some-service/micmine/";
    let expected = "./db/api/some-service/micmine/index.txt";

    assert_eq!(get_save_path(input, &HashMap::new()), expected);
}

#[test]
fn get_save_path_should_start_with_db() {
    let path = get_save_path("/index.html", &HashMap::new());

    assert!(&path.starts_with("./db"));
}

#[test]
fn get_save_path_should_add_index_if_folder() {
    let path = get_save_path("/", &HashMap::new());

    assert!(&path.ends_with("/index.txt"));
}

#[test]
fn ancestors_of_a_user_path() {
    let expected = vec![
        ".",
        "./db",
        "./db/api",
        "./db/api/svc",
        "./db/api/svc/user",
        "./db/api/svc/user/x",
    ];
    assert_eq!(get_folders_to_check("./db/api/svc/user/x"), expected);
}

#[test]
fn ancestors_of_an_empty_path() {
    assert_eq!(get_folders_to_check(""), vec![""]);
}

#[test]
fn derivation_is_repeatable() {
    let mut headers = HashMap::new();
    headers.insert("content-type".to_string(), "application/json".to_string());
    assert_eq!(get_save_path("/api/svc/x", &headers), get_save_path("/api/svc/x", &headers));
    assert_eq!(get_save_path("/api/svc/x", &HashMap::new()), get_save_path("/api/svc/x", &HashMap::new()));
}

#[test]
fn derivation_defaults_to_txt() {
    assert_eq!(get_save_path("/api/svc/x", &HashMap::new()), "./db/api/svc/x.txt");
}

#[test]
fn derivation_of_root_is_index_txt() {
    assert_eq!(get_save_path("/", &HashMap::new()), "./db/index.txt");
}

#[test]
fn derivation_keeps_json_suffix() {
    assert_eq!(get_save_path("/api/svc/x.json", &HashMap::new()), "./db/api/svc/x.json");
    let mut headers = HashMap::new();
    headers.insert("content-type".to_string(), "image/png".to_string());
    assert_eq!(get_save_path("/api/svc/x.json", &headers), "./db/api/svc/x.json");
    assert_eq!(get_save_path("/api/svc/x.txt", &headers), "./db/api/svc/x.txt");
}

#[test]
fn derivation_uses_content_type_extension() {
    let mut headers = HashMap::new();
    headers.insert("content-type".to_string(), "application/json; charset=utf-8".to_string());
    assert_eq!(get_save_path("/api/svc/x", &headers), "./db/api/svc/x.json");
}

#[test]
fn derivation_ignores_unparsable_content_type() {
    let mut headers = HashMap::new();
    headers.insert("content-type".to_string(), "not a media type".to_string());
    assert_eq!(get_save_path("/api/svc/x", &headers), "./db/api/svc/x.txt");
}

#[test]
fn derivation_with_given_extension() {
    assert_eq!(save_path_with_extension("/a/b", Some("png")), "./db/a/b.png");
    assert_eq!(save_path_with_extension("/a/png", Some("png")), "./db/a/png");
    assert_eq!(save_path_with_extension("/a/", Some("json")), "./db/a/index.json");
    assert_eq!(save_path_with_extension("/a/b.json", Some("png")), "./db/a/b.json");
    assert_eq!(save_path_with_extension("/a/b", None), "./db/a/b.txt");
}

#[test]
fn folder_of_a_fixture() {
    assert_eq!(get_folders("./db/api/x.txt"), "./db/api");
    assert_eq!(get_folders("plain"), "plain");
}

#[test]
fn content_type_of_stored_files() {
    assert_eq!(get_content_type("./db/api/x.json"), "application/json");
    assert_eq!(get_content_type("./db/api/x.png"), "image/png");
    assert_eq!(get_content_type("./db/api/x"), "text/plain");
}

#[test]
fn content_type_from_a_guess() {
    assert_eq!(content_type_from_guess(Some("image/png".to_string())), "image/png");
    assert_eq!(content_type_from_guess(None), "text/plain");
}
