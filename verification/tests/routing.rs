use beepee::form::Form;
use beepee::routing::{
    find_target, find_token, mime_type_of, redirect_target, route, route_with, static_file_name,
    text_ends_with, AuthToken, Method, Page, Route, Target,
};

fn tokens() -> Vec<AuthToken> {
    vec![
        AuthToken { token: "reader".to_string(), write: false },
        AuthToken { token: "writer".to_string(), write: true },
        AuthToken { token: "reader".to_string(), write: true },
    ]
}

#[test]
fn static_path_names_a_file() {
    assert_eq!(static_file_name("/static/style.css"), Some("style.css".to_string()));
    assert_eq!(static_file_name("/static/chart.min.js"), Some("chart.min.js".to_string()));
    assert_eq!(static_file_name("/static/a-b_c.0"), Some("a-b_c.0".to_string()));
    assert_eq!(static_file_name("/static/.."), Some("..".to_string()));
}

#[test]
fn other_paths_name_no_file() {
    assert_eq!(static_file_name("/static/"), None);
    assert_eq!(static_file_name("/static"), None);
    assert_eq!(static_file_name("/static/Style.css"), None);
    assert_eq!(static_file_name("/static/a/b.css"), None);
    assert_eq!(static_file_name("/static/a b"), None);
    assert_eq!(static_file_name("/static/style.css\n"), None);
    assert_eq!(static_file_name("static/style.css"), None);
    assert_eq!(static_file_name("/x/static/style.css"), None);
    assert_eq!(static_file_name("/"), None);
    assert_eq!(static_file_name(""), None);
}

#[test]
fn endings_of_texts() {
    assert!(text_ends_with("style.css", ".css"));
    assert!(text_ends_with(".css", ".css"));
    assert!(text_ends_with("anything", ""));
    assert!(!text_ends_with("css", ".css"));
    assert!(!text_ends_with("style.css.map", ".css"));
}

#[test]
fn media_types_by_ending() {
    assert_eq!(mime_type_of("style.css"), "text/css");
    assert_eq!(mime_type_of("beepee.js"), "text/javascript");
    assert_eq!(mime_type_of("photo.jpg"), "image/jpeg");
    assert_eq!(mime_type_of("photo.jpeg"), "image/jpeg");
    assert_eq!(mime_type_of("chart.png"), "image/png");
    assert_eq!(mime_type_of("readme.txt"), "text/plain; charset=utf-8");
    assert_eq!(mime_type_of("beepee.js.map"), "application/octet-stream");
    assert_eq!(mime_type_of("beepee.ts"), "application/octet-stream");
    assert_eq!(mime_type_of(""), "application/octet-stream");
}

#[test]
fn first_token_with_the_text_counts() {
    assert_eq!(find_token(&tokens(), "reader"), Some(0));
    assert_eq!(find_token(&tokens(), "writer"), Some(1));
    assert_eq!(find_token(&tokens(), "nobody"), None);
    assert_eq!(find_token(&Vec::new(), "reader"), None);
}

#[test]
fn pages_are_shown_and_take_submissions() {
    assert_eq!(find_target("/", Method::Get, false), Target::Show(Page::BloodPressure));
    assert_eq!(find_target("/mass", Method::Get, true), Target::Show(Page::Mass));
    assert_eq!(find_target("/temperature", Method::Post, true), Target::Submit(Page::Temperature));
    assert_eq!(find_target("/sugar", Method::Post, false), Target::ReadOnly);
    assert_eq!(find_target("/sugar", Method::Other, true), Target::OnlyGetAndPost);
}

#[test]
fn exports_know_get_only() {
    assert_eq!(find_target("/api/bp", Method::Get, false), Target::Export(Page::BloodPressure));
    assert_eq!(find_target("/api/mass", Method::Get, false), Target::Export(Page::Mass));
    assert_eq!(
        find_target("/api/temperature", Method::Get, true),
        Target::Export(Page::Temperature)
    );
    assert_eq!(find_target("/api/sugar", Method::Get, true), Target::Export(Page::Sugar));
    assert_eq!(find_target("/api/sugar", Method::Post, true), Target::OnlyGet);
    assert_eq!(find_target("/api/sugar", Method::Other, true), Target::OnlyGet);
}

#[test]
fn unknown_paths_are_not_found() {
    assert_eq!(find_target("/nothing", Method::Get, true), Target::NotFound);
    assert_eq!(find_target("/mass/", Method::Get, true), Target::NotFound);
    assert_eq!(find_target("", Method::Post, true), Target::NotFound);
}

#[test]
fn static_files_need_no_token() {
    assert_eq!(
        route("/static/style.css", None, Method::Get, &tokens()),
        Route::StaticFile("style.css".to_string())
    );
    assert_eq!(
        route("/static/style.css", Some("token=nobody"), Method::Post, &Vec::new()),
        Route::StaticFile("style.css".to_string())
    );
}

#[test]
fn requests_without_a_known_token_are_forbidden() {
    assert_eq!(route("/", None, Method::Get, &tokens()), Route::Forbidden);
    assert_eq!(route("/", Some(""), Method::Get, &tokens()), Route::Forbidden);
    assert_eq!(route("/", Some("tok=reader"), Method::Get, &tokens()), Route::Forbidden);
    assert_eq!(route("/", Some("token=nobody"), Method::Get, &tokens()), Route::Forbidden);
    assert_eq!(route("/nothing", None, Method::Get, &tokens()), Route::Forbidden);
}

#[test]
fn requests_with_a_token_are_routed() {
    assert_eq!(
        route("/", Some("token=reader"), Method::Get, &tokens()),
        Route::Authorized(0, Target::Show(Page::BloodPressure))
    );
    assert_eq!(
        route("/mass", Some("x=1&token=reader"), Method::Post, &tokens()),
        Route::Authorized(0, Target::ReadOnly)
    );
    assert_eq!(
        route("/mass", Some("token=writer"), Method::Post, &tokens()),
        Route::Authorized(1, Target::Submit(Page::Mass))
    );
    assert_eq!(
        route("/nothing", Some("token=writer"), Method::Get, &tokens()),
        Route::Authorized(1, Target::NotFound)
    );
}

#[test]
fn token_in_a_query_is_decoded() {
    let secret = vec![AuthToken { token: "a b&c".to_string(), write: true }];
    assert_eq!(
        route("/api/bp", Some("token=a+b%26c"), Method::Get, &secret),
        Route::Authorized(0, Target::Export(Page::BloodPressure))
    );
}

#[test]
fn last_token_of_a_query_counts() {
    assert_eq!(
        route("/", Some("token=nobody&token=writer"), Method::Get, &tokens()),
        Route::Authorized(1, Target::Show(Page::BloodPressure))
    );
    assert_eq!(
        route("/", Some("token=writer&token=nobody"), Method::Get, &tokens()),
        Route::Forbidden
    );
}

#[test]
fn routing_by_the_pairs_of_a_query() {
    let query = Form::from_pairs(vec![("token".to_string(), "writer".to_string())]);
    assert_eq!(
        route_with("/sugar", Some(&query), Method::Post, &tokens()),
        Route::Authorized(1, Target::Submit(Page::Sugar))
    );
    assert_eq!(route_with("/sugar", None, Method::Post, &tokens()), Route::Forbidden);
}

#[test]
fn redirect_goes_to_the_page_under_the_base_address() {
    assert_eq!(
        redirect_target("https://example.com/bp/", "/?token=abc"),
        Some("https://example.com/bp/?token=abc".to_string())
    );
    assert_eq!(
        redirect_target("https://example.com/bp/", "/mass?token=abc"),
        Some("https://example.com/bp/mass?token=abc".to_string())
    );
    assert_eq!(
        redirect_target("https://example.com/bp/", "///sugar"),
        Some("https://example.com/bp/sugar".to_string())
    );
    assert_eq!(
        redirect_target("https://example.com/bp", "/mass"),
        Some("https://example.com/mass".to_string())
    );
}

#[test]
fn redirect_needs_a_base_address() {
    assert_eq!(redirect_target("not an address", "/mass"), None);
    assert_eq!(redirect_target("", "/mass"), None);
}
