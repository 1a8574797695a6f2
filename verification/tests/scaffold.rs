use asset_pipeline::identifier::{check, Identifier, IdentifierError};
use asset_pipeline::scaffold::{
    api_dependency, dependency_line, package_manifest, project_file, project_id, ApiDependency,
};
use asset_pipeline::text::{from_chars, replace, to_chars};

#[test]
fn the_project_id_is_the_name_in_snake_case() {
    assert_eq!(project_id("My Project").unwrap().as_str(), "my_project");
    assert_eq!(project_id("tangentCube").unwrap().as_str(), "tangent_cube");
    assert_eq!(project_id("already_snake").unwrap().as_str(), "already_snake");
}

#[test]
fn a_name_that_gives_no_identifier_is_refused() {
    assert_eq!(project_id("").unwrap_err(), IdentifierError::Empty);
    assert_eq!(project_id("3d viewer").unwrap_err(), IdentifierError::BadStart);
    assert_eq!(project_id("caf\u{e9} au lait").unwrap_err(), IdentifierError::BadCharacter);
}

#[test]
fn identifiers_are_checked() {
    assert_eq!(check("my_project_2"), Ok(()));
    assert_eq!(check(""), Err(IdentifierError::Empty));
    assert_eq!(check("_x"), Err(IdentifierError::BadStart));
    assert_eq!(check("Xy"), Err(IdentifierError::BadStart));
    assert_eq!(check("9lives"), Err(IdentifierError::BadStart));
    assert_eq!(check("my-project"), Err(IdentifierError::BadCharacter));
    assert_eq!(check("myProject"), Err(IdentifierError::BadCharacter));
    assert_eq!(Identifier::new("abc".to_string()).unwrap().as_str(), "abc");
    assert_eq!(Identifier::new("a b".to_string()).unwrap_err(), IdentifierError::BadCharacter);
    assert_eq!(Identifier::new("abc".to_string()).unwrap().clone().as_str(), "abc");
}

fn segments(path: &str) -> Vec<String> {
    path.split('/').map(|s| s.to_string()).collect()
}

#[test]
fn an_example_in_the_source_tree_depends_on_the_tree() {
    assert_eq!(api_dependency(&segments("home/me/engine/guest/rust/examples")), ApiDependency::GuestRustRelative);
    assert_eq!(api_dependency(&segments("guest/rust/examples")), ApiDependency::GuestRustRelative);
}

#[test]
fn any_other_project_depends_on_the_registry() {
    assert_eq!(api_dependency(&segments("home/me/projects")), ApiDependency::PkgVersion);
    assert_eq!(api_dependency(&segments("rust/examples")), ApiDependency::PkgVersion);
    assert_eq!(api_dependency(&segments("guest/rust/examples/more")), ApiDependency::PkgVersion);
    assert_eq!(api_dependency(&segments("guest/Rust/examples")), ApiDependency::PkgVersion);
    assert_eq!(api_dependency(&Vec::new()), ApiDependency::PkgVersion);
}

#[test]
fn the_dependency_line() {
    assert_eq!(dependency_line(ApiDependency::PkgVersion, "0.1.1"), "ambient_api = \"0.1.1\"");
    assert_eq!(
        dependency_line(ApiDependency::GuestRustRelative, "0.1.1"),
        "ambient_api = { path = \"../../api\" }"
    );
}

fn replace_text(s: &str, from: &str, to: &str) -> String {
    from_chars(&replace(&to_chars(s), &to_chars(from), &to_chars(to)))
}

#[test]
fn replacing_takes_occurrences_from_the_left() {
    assert_eq!(replace_text("aaaa", "aa", "b"), "bb");
    assert_eq!(replace_text("aaa", "aa", "b"), "ba");
    assert_eq!(replace_text("abcabc", "bc", ""), "aa");
    assert_eq!(replace_text("abc", "x", "y"), "abc");
    assert_eq!(replace_text("abc", "", "y"), "abc");
    assert_eq!(replace_text("", "a", "y"), "");
    assert_eq!(replace_text("ab", "abc", "y"), "ab");
    assert_eq!(replace_text("{{id}} is {{id}}", "{{id}}", "{{id}}!"), "{{id}}! is {{id}}!");
    for (s, from, to) in [("a-b-c", "-", "--"), ("xxyxx", "xx", "y"), ("caf\u{e9}", "\u{e9}", "e")] {
        assert_eq!(replace_text(s, from, to), s.replace(from, to));
    }
}

#[test]
fn the_project_file_names_the_project() {
    let id = project_id("My Project").unwrap();
    let template = "[project]\nid = \"{{id}}\"\nname = \"{{name}}\"\nversion = \"0.0.1\"\n";
    assert_eq!(
        project_file(template, &id, "My Project"),
        "[project]\nid = \"my_project\"\nname = \"My Project\"\nversion = \"0.0.1\"\n"
    );
}

#[test]
fn the_package_manifest_names_the_dependency() {
    let id = project_id("demo").unwrap();
    let template = "[package]\nname = \"{{id}}\"\n\n[dependencies]\nambient_api = { path = \"../../../../guest/rust/api\" }\n";
    assert_eq!(
        package_manifest(template, &id, ApiDependency::PkgVersion, "0.2.0"),
        "[package]\nname = \"demo\"\n\n[dependencies]\nambient_api = \"0.2.0\"\n"
    );
    assert_eq!(
        package_manifest(template, &id, ApiDependency::GuestRustRelative, "0.2.0"),
        "[package]\nname = \"demo\"\n\n[dependencies]\nambient_api = { path = \"../../api\" }\n"
    );
}
