use asset_pipeline::asset_url::UrlError;
use asset_pipeline::object::{
    manifest_url, recipients, systems, FetchError, LoadBatch, LoadError, LoadRequest,
    ObjectDefinition, ObjectFromUrl, ObjectRefs, ResolvedObject, MANIFEST_NAME,
};

fn refs(model: Option<&str>, collider: Option<&str>, decal: Option<&str>) -> ObjectRefs {
    ObjectRefs {
        model: model.map(|s| s.to_string()),
        collider: collider.map(|s| s.to_string()),
        decal: decal.map(|s| s.to_string()),
    }
}

fn definition(entities: Vec<ObjectRefs>) -> ObjectDefinition {
    ObjectDefinition { entities, warnings: Vec::new() }
}

#[test]
fn model_reference_is_resolved_against_the_origin() {
    let key = ObjectFromUrl("https://host/pkg/objects/main.json".to_string());
    let loaded = key.load(Ok(definition(vec![refs(Some("mesh.glb"), None, None)]))).unwrap();
    assert_eq!(loaded.entities, vec![refs(Some("https://host/pkg/mesh.glb"), None, None)]);
}

#[test]
fn manifest_name_is_appended_where_it_is_missing() {
    let key = ObjectFromUrl("https://host/pkg".to_string());
    assert_eq!(key.manifest().unwrap().as_str(), "https://host/pkg/objects/main.json");
    let loaded = key.load(Ok(definition(vec![refs(Some("mesh.glb"), None, None)]))).unwrap();
    assert_eq!(loaded.entities, vec![refs(Some("https://host/pkg/mesh.glb"), None, None)]);
    assert_eq!(manifest_url("https://host/pkg"), "https://host/pkg/objects/main.json");
    assert_eq!(
        manifest_url("https://host/pkg/objects/main.json"),
        "https://host/pkg/objects/main.json"
    );
    assert_eq!(manifest_url("objects/main.json"), "objects/main.json/objects/main.json");
    assert_eq!(MANIFEST_NAME, "/objects/main.json");
}

#[test]
fn every_kind_of_reference_is_resolved() {
    let key = ObjectFromUrl("https://host/pkg".to_string());
    let loaded = key
        .load(Ok(definition(vec![
            refs(Some("models/a.glb"), Some("colliders/a.json"), None),
            refs(None, None, Some("../shared/decal.json")),
            refs(Some("https://cdn.net/b.glb"), None, None),
        ])))
        .unwrap();
    assert_eq!(
        loaded.entities,
        vec![
            refs(
                Some("https://host/pkg/models/a.glb"),
                Some("https://host/pkg/colliders/a.json"),
                None
            ),
            refs(None, None, Some("https://host/shared/decal.json")),
            refs(Some("https://cdn.net/b.glb"), None, None),
        ]
    );
}

#[test]
fn unparsable_reference_fails_the_whole_load() {
    let key = ObjectFromUrl("https://host/pkg".to_string());
    let result = key.load(Ok(definition(vec![
        refs(Some("ok.glb"), None, None),
        refs(Some("bad mesh.glb"), None, None),
    ])));
    assert_eq!(result, Err(LoadError::Model { entity: 1, cause: UrlError::Malformed }));
}

#[test]
fn empty_reference_fails_the_whole_load() {
    let key = ObjectFromUrl("https://host/pkg".to_string());
    let result = key.load(Ok(definition(vec![refs(None, Some(""), None)])));
    assert_eq!(result, Err(LoadError::Collider { entity: 0, cause: UrlError::Empty }));
    let result = key.load(Ok(definition(vec![refs(None, None, Some("../../../x"))])));
    assert_eq!(result, Err(LoadError::Decal { entity: 0, cause: UrlError::Malformed }));
}

#[test]
fn models_are_resolved_before_colliders_and_decals() {
    let key = ObjectFromUrl("https://host/pkg".to_string());
    let result = key.load(Ok(definition(vec![
        refs(None, Some(""), Some("")),
        refs(Some(""), None, None),
    ])));
    assert_eq!(result, Err(LoadError::Model { entity: 1, cause: UrlError::Empty }));
    let result = key.load(Ok(definition(vec![
        refs(None, None, Some("")),
        refs(None, Some("a b"), None),
    ])));
    assert_eq!(result, Err(LoadError::Collider { entity: 1, cause: UrlError::Malformed }));
}

#[test]
fn warnings_do_not_fail_the_load() {
    let key = ObjectFromUrl("https://host/pkg".to_string());
    let definition = ObjectDefinition {
        entities: vec![refs(Some("mesh.glb"), None, None)],
        warnings: vec!["unknown component".to_string()],
    };
    let loaded = key.load(Ok(definition)).unwrap();
    assert_eq!(loaded.warnings, vec!["unknown component".to_string()]);
    assert_eq!(loaded.entities.len(), 1);
}

#[test]
fn a_document_that_cannot_be_had_fails_the_load() {
    let key = ObjectFromUrl("https://host/pkg".to_string());
    assert_eq!(key.load(Err(FetchError::Unavailable)), Err(LoadError::Fetch));
    assert_eq!(key.load(Err(FetchError::Undecodable)), Err(LoadError::Deserialize));
}

#[test]
fn a_relative_object_url_is_refused() {
    let key = ObjectFromUrl("pkg".to_string());
    assert_eq!(key.manifest().unwrap_err(), LoadError::Url(UrlError::Relative));
    assert_eq!(key.load(Ok(definition(Vec::new()))), Err(LoadError::Url(UrlError::Relative)));
    assert_eq!(key.load(Err(FetchError::Unavailable)), Err(LoadError::Url(UrlError::Relative)));
    let key = ObjectFromUrl("https://ho st/pkg".to_string());
    assert_eq!(key.manifest().unwrap_err(), LoadError::Url(UrlError::Malformed));
}

fn request(entity: u64, url: &str) -> LoadRequest {
    LoadRequest { entity, url: url.to_string() }
}

#[test]
fn requests_for_one_document_make_one_batch() {
    let batches = systems(&vec![
        request(1, "https://host/a"),
        request(2, "https://host/b/objects/main.json"),
        request(3, "https://host/a/objects/main.json"),
        request(4, "https://host/b"),
        request(5, "https://host/a"),
    ]);
    assert_eq!(
        batches,
        vec![
            LoadBatch { url: "https://host/a/objects/main.json".to_string(), entities: vec![1, 3, 5] },
            LoadBatch { url: "https://host/b/objects/main.json".to_string(), entities: vec![2, 4] },
        ]
    );
}

#[test]
fn no_requests_make_no_batch() {
    assert_eq!(systems(&Vec::new()), Vec::<LoadBatch>::new());
}

#[test]
fn a_loaded_object_goes_to_every_entity_that_asked() {
    let batch = LoadBatch { url: "https://host/a/objects/main.json".to_string(), entities: vec![4, 2, 9] };
    let loaded = ResolvedObject { entities: vec![refs(None, None, None)], warnings: Vec::new() };
    assert_eq!(recipients(&batch, &Ok(loaded)), vec![4, 2, 9]);
}

#[test]
fn a_failed_load_updates_nobody() {
    let batch = LoadBatch { url: "https://host/a/objects/main.json".to_string(), entities: vec![4, 2, 9] };
    assert_eq!(recipients(&batch, &Err(LoadError::Fetch)), Vec::<u64>::new());
    let empty = ResolvedObject { entities: Vec::new(), warnings: Vec::new() };
    assert_eq!(recipients(&batch, &Ok(empty)), Vec::<u64>::new());
}
