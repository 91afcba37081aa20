use fullstack_gateway::assets::asset_route;
use fullstack_gateway::assets::asset_url_path;
use fullstack_gateway::assets::cache_response_forever;
use fullstack_gateway::assets::chars_of;
use fullstack_gateway::assets::file_name_looks_immutable;
use fullstack_gateway::assets::public_path;
use fullstack_gateway::assets::static_asset_routes;
use fullstack_gateway::assets::walk_descends;
use fullstack_gateway::assets::AssetEntry;
use fullstack_gateway::headers::HeaderLimitReached;
use fullstack_gateway::assets::DirectoryMode;
use http::header::CACHE_CONTROL;
use http::header::HeaderName;
use http::HeaderMap;
use http::HeaderValue;

fn entry(path: &[&str], is_directory: bool) -> AssetEntry {
    AssetEntry { segments: path.iter().map(|s| s.to_string()).collect(), is_directory }
}

fn listing() -> Vec<AssetEntry> {
    vec![
        entry(&["index.html"], false),
        entry(&["favicon.ico"], false),
        entry(&["assets"], true),
        entry(&["assets", "app-dxhA1B2C3.js"], false),
        entry(&["assets", "index.html"], false),
        entry(&["assets", "img"], true),
        entry(&["assets", "img", "logo.png"], false),
        entry(&["bundle-dxh1a2B3c4.wasm"], false),
    ]
}

#[test]
fn fingerprinted_names_are_immutable() {
    assert!(file_name_looks_immutable("bundle-dxh1a2B3c4.wasm"));
    assert!(file_name_looks_immutable("app-dxhA1B2C3.js"));
    assert!(file_name_looks_immutable("app-dxh0123456789abcdefABCDEF.css"));
    assert!(file_name_looks_immutable("-dxh0"));
    assert!(file_name_looks_immutable("app-dxhabc"));
    assert!(file_name_looks_immutable("app-dxhabc.min.js"));
    assert!(file_name_looks_immutable("app-dxhzz-dxhff.js"));
    assert!(file_name_looks_immutable("\u{e9}t\u{e9}-dxhff.css"));
}

#[test]
fn plain_names_are_not_immutable() {
    assert!(!file_name_looks_immutable("bundle.wasm"));
    assert!(!file_name_looks_immutable("app.js"));
    assert!(!file_name_looks_immutable(""));
    assert!(!file_name_looks_immutable("dxh12.js"));
    assert!(!file_name_looks_immutable("app-DXH12.js"));
    assert!(!file_name_looks_immutable("app-dx"));
}

#[test]
fn an_empty_fingerprint_is_not_immutable() {
    assert!(!file_name_looks_immutable("bundle-dxh.wasm"));
    assert!(!file_name_looks_immutable("bundle-dxh"));
    assert!(!file_name_looks_immutable("app-dxhff-dxh.js"));
}

#[test]
fn a_fingerprint_of_other_characters_is_not_immutable() {
    assert!(!file_name_looks_immutable("app-dxh12g4.js"));
    assert!(!file_name_looks_immutable("app-dxh12_34.js"));
    assert!(!file_name_looks_immutable("app-dxh12 .js"));
    assert!(!file_name_looks_immutable("app-dxh12/x.js"));
    assert!(!file_name_looks_immutable("app-dxhff-dxhzz.js"));
    assert!(!file_name_looks_immutable("app-dxh\u{ff11}.js"));
}

#[test]
fn chars_of_gives_each_character() {
    assert_eq!(chars_of("a\u{e9}-d"), vec!['a', '\u{e9}', '-', 'd']);
    assert_eq!(chars_of(""), Vec::<char>::new());
}

#[test]
fn url_path_joins_segments_with_slashes() {
    assert_eq!(asset_url_path(&vec!["assets".to_string(), "app.js".to_string()]), "/assets/app.js");
    assert_eq!(asset_url_path(&vec!["favicon.ico".to_string()]), "/favicon.ico");
    assert_eq!(asset_url_path(&Vec::new()), "/");
    assert_eq!(
        asset_url_path(&vec!["a".to_string(), "b".to_string(), "c d.txt".to_string()]),
        "/a/b/c d.txt"
    );
}

#[test]
fn no_public_directory_gives_no_routes() {
    assert!(static_asset_routes(None, DirectoryMode::Enumerated).is_empty());
    assert!(static_asset_routes(None, DirectoryMode::Live).is_empty());
}

#[test]
fn an_empty_public_directory_gives_no_routes() {
    assert!(static_asset_routes(Some(&Vec::new()), DirectoryMode::Enumerated).is_empty());
}

#[test]
fn enumerated_routes_cover_every_file() {
    let entries = listing();
    let routes = static_asset_routes(Some(&entries), DirectoryMode::Enumerated);
    let seen: Vec<(&str, bool, bool, usize)> = routes
        .iter()
        .map(|r| (r.url_path.as_str(), r.is_immutable, r.is_directory, r.entry))
        .collect();
    assert_eq!(
        seen,
        vec![
            ("/favicon.ico", false, false, 1),
            ("/assets/app-dxhA1B2C3.js", true, false, 3),
            ("/assets/index.html", false, false, 4),
            ("/assets/img/logo.png", false, false, 6),
            ("/bundle-dxh1a2B3c4.wasm", true, false, 7),
        ]
    );
}

#[test]
fn live_routes_hand_directories_to_the_directory_service() {
    let entries = listing();
    let routes = static_asset_routes(Some(&entries), DirectoryMode::Live);
    let seen: Vec<(&str, bool, bool, usize)> = routes
        .iter()
        .map(|r| (r.url_path.as_str(), r.is_immutable, r.is_directory, r.entry))
        .collect();
    assert_eq!(
        seen,
        vec![
            ("/favicon.ico", false, false, 1),
            ("/assets", false, true, 2),
            ("/bundle-dxh1a2B3c4.wasm", true, false, 7),
        ]
    );
}

#[test]
fn the_root_index_gets_no_route() {
    assert!(asset_route(&entry(&["index.html"], false), 0, DirectoryMode::Enumerated).is_none());
    assert!(asset_route(&entry(&["index.html"], false), 0, DirectoryMode::Live).is_none());
    assert!(asset_route(&entry(&["index.html"], true), 0, DirectoryMode::Live).is_none());
    assert!(asset_route(&entry(&[], false), 0, DirectoryMode::Enumerated).is_none());
    let nested = asset_route(&entry(&["docs", "index.html"], false), 5, DirectoryMode::Enumerated)
        .unwrap();
    assert_eq!(nested.url_path, "/docs/index.html");
    assert_eq!(nested.entry, 5);
    assert!(!nested.is_immutable);
    assert!(!nested.is_directory);
}

#[test]
fn a_fingerprint_in_a_directory_name_does_not_count() {
    let route =
        asset_route(&entry(&["v-dxhff", "app.js"], false), 0, DirectoryMode::Enumerated).unwrap();
    assert!(!route.is_immutable);
    assert_eq!(route.url_path, "/v-dxhff/app.js");
}

#[test]
fn cache_forever_sets_the_cache_control() {
    let mut headers = HeaderMap::new();
    headers.append(CACHE_CONTROL, HeaderValue::from_static("no-cache"));
    headers.append(CACHE_CONTROL, HeaderValue::from_static("private"));
    headers.insert("etag", HeaderValue::from_static("\"abc\""));
    let out = cache_response_forever(headers).unwrap();
    let cache: Vec<&[u8]> = out.get_all(CACHE_CONTROL).iter().map(|v| v.as_bytes()).collect();
    assert_eq!(cache, vec![&b"public, max-age=31536000, immutable"[..]]);
    assert_eq!(out.get("etag").unwrap().as_bytes(), b"\"abc\"");
    assert_eq!(out.len(), 2);
}

#[test]
fn cache_forever_on_a_response_without_headers() {
    let out = cache_response_forever(HeaderMap::new()).unwrap();
    assert_eq!(out.get(CACHE_CONTROL).unwrap().as_bytes(), b"public, max-age=31536000, immutable");
    assert_eq!(out.len(), 1);
}

#[test]
fn public_path_prefers_the_environment() {
    assert_eq!(public_path(Some("/srv/public"), Some("/opt/app/public")), Some("/srv/public"));
    assert_eq!(public_path(None, Some("/opt/app/public")), Some("/opt/app/public"));
    assert_eq!(public_path(Some("/srv/public"), None), Some("/srv/public"));
    assert_eq!(public_path::<&str>(None, None), None);
}

#[test]
fn a_walk_descends_into_enumerated_directories_only() {
    assert!(walk_descends(&entry(&["assets"], true), DirectoryMode::Enumerated));
    assert!(walk_descends(&entry(&["assets", "img"], true), DirectoryMode::Enumerated));
    assert!(walk_descends(&entry(&["assets", "index.html"], true), DirectoryMode::Enumerated));
    assert!(!walk_descends(&entry(&["assets"], true), DirectoryMode::Live));
    assert!(!walk_descends(&entry(&["assets"], false), DirectoryMode::Enumerated));
    assert!(!walk_descends(&entry(&["index.html"], true), DirectoryMode::Enumerated));
    assert!(!walk_descends(&entry(&[], true), DirectoryMode::Enumerated));
}

#[test]
fn cache_forever_reports_a_map_that_is_full() {
    let mut headers = HeaderMap::new();
    let mut count: u32 = 0;
    loop {
        let name = HeaderName::from_bytes(format!("h{}", count).as_bytes()).unwrap();
        if headers.try_insert(name, HeaderValue::from_static("v")).is_err() {
            break;
        }
        count += 1;
        assert!(count < 100_000);
    }
    assert_eq!(cache_response_forever(headers).unwrap_err(), HeaderLimitReached);
}

#[test]
fn a_name_is_judged_before_its_extension() {
    assert!(file_name_looks_immutable("a-dxh12.b-dxhzz"));
    assert!(!file_name_looks_immutable("a.b-dxh12"));
    assert!(file_name_looks_immutable("a-dxh12.b-dxh"));
    assert!(!file_name_looks_immutable("a-dxhzz.b-dxh12"));
    assert!(!file_name_looks_immutable(".-dxh12"));
    assert!(file_name_looks_immutable("-dxh12."));
    assert!(!file_name_looks_immutable("app-dxh.12"));
}

#[test]
fn a_name_with_several_dots_is_judged_after_its_last_marker() {
    assert!(file_name_looks_immutable("app-dxhabc.min.js"));
    assert!(file_name_looks_immutable("app.min-dxhabc.js"));
    assert!(file_name_looks_immutable("a.b.c-dxh12"));
    assert!(!file_name_looks_immutable("a-dxh12.b.c-dxhzz"));
    assert!(!file_name_looks_immutable("a-dxh.b.c"));
    assert!(!file_name_looks_immutable("a.b.c"));
}
