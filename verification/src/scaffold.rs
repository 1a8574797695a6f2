//! What a new project is called and what it depends on.

use vstd::prelude::*;
use vstd::string::StringExecFns;
use convert_case::{Case, Casing};
use crate::identifier::{spec_check, Identifier, IdentifierError};
use crate::text::{from_chars, replace, replaced, to_chars};

verus! {

/// The snake case form of a name, as `convert_case` makes it.
pub uninterp spec fn snake_case(name: Seq<char>) -> Seq<char>;

/// Puts `name` into snake case.
///
/// Trusted: `Casing::to_case` of `convert_case`, called with `Case::Snake`.
/// The contract gives its result a name and claims nothing else of it: the
/// conversion splits at the boundaries of the Unicode graphemes and words
/// of the name, and depends on the name alone.
#[verifier::external_body]
fn to_snake_case(name: &str) -> (id: String)
    ensures
        id@ == snake_case(name@),
{
    name.to_case(Case::Snake)
}

/// The identifier of the project called `name`: the name in snake case,
/// where that is an identifier.
pub fn project_id(name: &str) -> (r: Result<Identifier, IdentifierError>)
    ensures
        match r {
            Ok(id) => id@ == snake_case(name@) && spec_check(snake_case(name@)) is Ok,
            Err(e) => spec_check(snake_case(name@)) == Err::<(), IdentifierError>(e),
        },
{
    Identifier::new(to_snake_case(name))
}

/// Where a new project takes the engine's interface from.
#[derive(Clone, Copy, Debug, PartialEq, Eq, Structural)]
pub enum ApiDependency {
    /// From the registry, in the version of the tool that makes the project.
    PkgVersion,
    /// From the source tree in which the project is made as an example.
    GuestRustRelative,
}

/// The directory with these segments is the examples directory of the
/// source tree: its last three segments are `guest`, `rust`, `examples`.
pub open spec fn is_examples_directory(parent: Seq<Seq<char>>) -> bool {
    let n = parent.len() as int;
    &&& n >= 3
    &&& parent[n - 3] == "guest"@
    &&& parent[n - 2] == "rust"@
    &&& parent[n - 1] == "examples"@
}

pub open spec fn segments_view(parent: Seq<String>) -> Seq<Seq<char>> {
    Seq::new(parent.len(), |i: int| parent[i]@)
}

/// Where a project made in the directory with the segments `parent` takes
/// the engine's interface from.
pub fn api_dependency(parent: &Vec<String>) -> (d: ApiDependency)
    ensures
        d == (if is_examples_directory(segments_view(parent@)) {
            ApiDependency::GuestRustRelative
        } else {
            ApiDependency::PkgVersion
        }),
{
    let n = parent.len();
    if n < 3 {
        return ApiDependency::PkgVersion;
    }
    let guest = "guest".to_owned();
    let rust = "rust".to_owned();
    let examples = "examples".to_owned();
    if parent[n - 3] == guest && parent[n - 2] == rust && parent[n - 1] == examples {
        ApiDependency::GuestRustRelative
    } else {
        ApiDependency::PkgVersion
    }
}

/// The line of the project's manifest that names the engine's interface.
pub open spec fn spec_dependency_line(d: ApiDependency, version: Seq<char>) -> Seq<char> {
    match d {
        ApiDependency::PkgVersion => "ambient_api = \""@ + version + "\""@,
        ApiDependency::GuestRustRelative => "ambient_api = { path = \"../../api\" }"@,
    }
}

/// The line of the project's manifest that names the engine's interface,
/// `version` being the version of the tool that makes the project.
pub fn dependency_line(d: ApiDependency, version: &str) -> (line: String)
    ensures
        line@ == spec_dependency_line(d, version@),
{
    match d {
        ApiDependency::PkgVersion => "ambient_api = \"".to_owned().concat(version).concat("\""),
        ApiDependency::GuestRustRelative => "ambient_api = { path = \"../../api\" }".to_owned(),
    }
}

/// The project file made of `template`: the template with the project's
/// identifier in place of `{{id}}` and its name in place of `{{name}}`.
pub open spec fn spec_project_file(template: Seq<char>, id: Seq<char>, name: Seq<char>) -> Seq<
    char,
> {
    replaced(replaced(template, "{{id}}"@, id), "{{name}}"@, name)
}

/// Makes the project file of the project `name` with the identifier `id`.
pub fn project_file(template: &str, id: &Identifier, name: &str) -> (file: String)
    ensures
        file@ == spec_project_file(template@, id@, name@),
{
    let with_id = replace(&to_chars(template), &to_chars("{{id}}"), &to_chars(id.as_str()));
    let with_name = replace(&with_id, &to_chars("{{name}}"), &to_chars(name));
    from_chars(&with_name)
}

/// The line of the template of a package manifest that names the engine's
/// interface.
pub open spec fn template_dependency_line() -> Seq<char> {
    "ambient_api = { path = \"../../../../guest/rust/api\" }"@
}

/// The package manifest made of `template`: the template with the
/// project's identifier in place of `{{id}}` and `line` in place of the line
/// that names the engine's interface.
pub open spec fn spec_package_manifest(template: Seq<char>, id: Seq<char>, line: Seq<char>) -> Seq<
    char,
> {
    replaced(replaced(template, "{{id}}"@, id), template_dependency_line(), line)
}

/// Makes the package manifest of the project with the identifier `id`,
/// which takes the engine's interface from `dependency`.
pub fn package_manifest(
    template: &str,
    id: &Identifier,
    dependency: ApiDependency,
    version: &str,
) -> (file: String)
    ensures
        file@ == spec_package_manifest(
            template@,
            id@,
            spec_dependency_line(dependency, version@),
        ),
{
    let line = dependency_line(dependency, version);
    let with_id = replace(&to_chars(template), &to_chars("{{id}}"), &to_chars(id.as_str()));
    let with_line = replace(
        &with_id,
        &to_chars("ambient_api = { path = \"../../../../guest/rust/api\" }"),
        &to_chars(line.as_str()),
    );
    from_chars(&with_line)
}

} // verus!
