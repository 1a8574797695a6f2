use asset_pipeline::asset_url::{classify, resolve, AbsoluteUrl, UrlError, UrlKind};

fn url(text: &str) -> AbsoluteUrl {
    AbsoluteUrl::parse(text).unwrap()
}

#[test]
fn absolute_reference_is_returned_unchanged() {
    let base = url("https://host/pkg/objects/main.json");
    let out = resolve("https://other.net/a/../b.png", &base).unwrap();
    assert_eq!(out.as_str(), "https://other.net/a/../b.png");
}

#[test]
fn relative_reference_is_joined_to_the_directory_of_the_base() {
    let base = url("https://host/pkg/objects/main.json");
    let out = resolve("mesh.glb", &base).unwrap();
    assert_eq!(out.as_str(), "https://host/pkg/objects/mesh.glb");
}

#[test]
fn relative_reference_against_a_directory() {
    let base = url("https://host/pkg/");
    let out = resolve("mesh.glb", &base).unwrap();
    assert_eq!(out.as_str(), "https://host/pkg/mesh.glb");
}

#[test]
fn dot_segments_are_interpreted() {
    let base = url("https://host/a/b/c.json");
    assert_eq!(resolve("../x/./y.png", &base).unwrap().as_str(), "https://host/a/x/y.png");
    assert_eq!(resolve("..", &base).unwrap().as_str(), "https://host/a");
    assert_eq!(resolve("../..", &base).unwrap().as_str(), "https://host/");
}

#[test]
fn rooted_reference_replaces_the_path() {
    let base = url("https://host/a/b/c.json");
    assert_eq!(resolve("/x/y.png", &base).unwrap().as_str(), "https://host/x/y.png");
}

#[test]
fn empty_segments_are_dropped() {
    let base = url("file:///a//b/");
    assert_eq!(resolve("c//d/", &base).unwrap().as_str(), "file:///a/b/c/d");
}

#[test]
fn base_without_path() {
    let base = url("https://host");
    assert_eq!(resolve("a/b", &base).unwrap().as_str(), "https://host/a/b");
}

#[test]
fn empty_reference_is_refused() {
    let base = url("https://host/pkg/");
    assert_eq!(resolve("", &base).unwrap_err(), UrlError::Empty);
}

#[test]
fn reference_above_the_root_is_refused() {
    let base = url("https://host/a/b.json");
    assert_eq!(resolve("../../x", &base).unwrap_err(), UrlError::Malformed);
}

#[test]
fn reference_with_forbidden_character_is_refused() {
    let base = url("https://host/a/b.json");
    assert_eq!(resolve("my mesh.glb", &base).unwrap_err(), UrlError::Malformed);
    assert_eq!(resolve("a\\b", &base).unwrap_err(), UrlError::Malformed);
    assert_eq!(resolve("a\tb", &base).unwrap_err(), UrlError::Malformed);
}

#[test]
fn reference_with_invalid_scheme_is_refused() {
    let base = url("https://host/a/b.json");
    assert_eq!(resolve("://host/x", &base).unwrap_err(), UrlError::Malformed);
    assert_eq!(resolve("1http://host/x", &base).unwrap_err(), UrlError::Malformed);
    assert_eq!(resolve("ht_tp://host/x", &base).unwrap_err(), UrlError::Malformed);
}

#[test]
fn resolving_twice_gives_the_same_url() {
    let base = url("https://host/pkg/objects/main.json");
    let first = resolve("../textures/a.png", &base).unwrap();
    let second = resolve("../textures/a.png", &base).unwrap();
    assert_eq!(first, second);
    assert_eq!(first.as_str(), "https://host/pkg/textures/a.png");
}

#[test]
fn resolution_is_idempotent() {
    let base = url("https://host/pkg/objects/main.json");
    let first = resolve("../textures/a.png", &base).unwrap();
    let again = resolve(first.as_str(), &base).unwrap();
    assert_eq!(again, first);
}

#[test]
fn classify_tells_the_kinds_apart() {
    assert_eq!(classify("https://host/x"), Ok(UrlKind::Absolute));
    assert_eq!(classify("git+ssh://host/x"), Ok(UrlKind::Absolute));
    assert_eq!(classify("a/b.png"), Ok(UrlKind::Relative));
    assert_eq!(classify("/a/b.png"), Ok(UrlKind::Relative));
    assert_eq!(classify(""), Err(UrlError::Empty));
    assert_eq!(classify("a b"), Err(UrlError::Malformed));
    assert_eq!(classify("://x"), Err(UrlError::Malformed));
}

#[test]
fn parse_refuses_a_relative_reference() {
    assert_eq!(AbsoluteUrl::parse("a/b.png").unwrap_err(), UrlError::Relative);
    assert_eq!(AbsoluteUrl::parse("").unwrap_err(), UrlError::Empty);
    assert_eq!(AbsoluteUrl::parse("http ://x").unwrap_err(), UrlError::Malformed);
    assert_eq!(AbsoluteUrl::parse("https://host/x").unwrap().as_str(), "https://host/x");
}

#[test]
fn push_goes_below_the_url_as_a_directory() {
    let root = url("https://host/out");
    assert_eq!(root.push("col").unwrap().as_str(), "https://host/out/col");
    let dir = url("https://host/out/");
    assert_eq!(dir.push("a/b").unwrap().as_str(), "https://host/out/a/b");
    assert_eq!(root.as_directory().as_str(), "https://host/out/");
    assert_eq!(dir.as_directory().as_str(), "https://host/out/");
}

#[test]
fn without_last_keeps_the_scheme() {
    let u = url("https://host/a");
    assert_eq!(u.without_last(2).unwrap().as_str(), "https://host");
    assert_eq!(u.without_last(6).unwrap().as_str(), "https://");
    assert!(u.without_last(7).is_none());
    assert_eq!(u.scheme_length(), 5);
}

#[test]
fn clone_keeps_the_text() {
    let u = url("https://host/a");
    assert_eq!(u.clone().as_str(), "https://host/a");
}
