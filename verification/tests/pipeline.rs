use asset_pipeline::asset_url::{AbsoluteUrl, UrlError};
use asset_pipeline::model_crate::{
    attach, cap_texture, matches_filter, ColliderShape, ColliderTag, ColliderType, Component,
    Length, Material, MaterialFilter, Mesh, ModelCrate, ModelTransform, Object, StructuralError,
    Texture,
};
use asset_pipeline::out_asset::{
    asset_id_from_url, AssetType, OutAsset, OutAssetContent, OutAssetPreview,
};
use asset_pipeline::pipeline::{
    materials_destination, pipeline, true_value, Collider, ConfigError, MaterialOverride,
    ModelImporter, ModelsPipeline, PipelineError, PipelinePbrMaterial,
};

fn material(name: &str, sizes: &[(u32, u32)]) -> Material {
    Material {
        name: name.to_string(),
        textures: sizes.iter().map(|&(width, height)| Some(Texture { width, height })).collect(),
    }
}

fn component(name: &str, value: &str) -> Component {
    Component { name: name.to_string(), value: value.to_string() }
}

fn object(components: Vec<Component>) -> Object {
    Object { collider: None, components }
}

fn model() -> ModelCrate {
    ModelCrate::new(
        vec![Mesh { triangles: 12 }, Mesh { triangles: 0 }],
        vec![material("wood", &[(4096, 1024)]), material("metal", &[(256, 256), (100, 3000)])],
        vec![object(vec![component("mass", "1")]), object(Vec::new())],
    )
}

fn rule(filter: MaterialFilter) -> MaterialOverride {
    MaterialOverride {
        filter,
        material: PipelinePbrMaterial { name: "declared".to_string(), textures: Vec::new() },
    }
}

fn by_name(name: &str) -> MaterialFilter {
    MaterialFilter::ByName { name: name.to_string() }
}

#[test]
fn the_defaults_of_a_configuration() {
    let config = ModelsPipeline::default();
    assert_eq!(config.importer, ModelImporter::Regular);
    assert!(!config.force_assimp);
    assert_eq!(config.collider, Collider::Disabled);
    assert_eq!(config.collider_type, ColliderType::Static);
    assert_eq!(config.cap_texture_sizes, None);
    assert!(!config.collection_of_variants);
    assert!(config.output_objects);
    assert!(config.output_animations);
    assert!(config.object_components.is_empty());
    assert!(config.material_overrides.is_empty());
    assert!(config.transforms.is_empty());
    assert!(true_value());
    assert_eq!(ModelImporter::default(), ModelImporter::Regular);
    assert_eq!(Collider::default(), Collider::Disabled);
}

#[test]
fn transforms_are_applied_in_the_order_of_the_list() {
    let t1 = ModelTransform { code: 1 };
    let t2 = ModelTransform { code: 2 };
    let mut config = ModelsPipeline::default();
    config.transforms = vec![t1, t2];
    let mut crate_ = model();
    assert_eq!(config.apply(&mut crate_, &Vec::new()), Ok(()));
    assert_eq!(crate_.transforms, vec![t1, t2]);

    config.transforms = vec![t2, t1];
    let mut other = model();
    assert_eq!(config.apply(&mut other, &Vec::new()), Ok(()));
    assert_eq!(other.transforms, vec![t2, t1]);
}

#[test]
fn transforms_follow_those_applied_before() {
    let mut crate_ = model();
    assert_eq!(crate_.apply_transform(ModelTransform { code: 7 }), Ok(()));
    let mut config = ModelsPipeline::default();
    config.transforms = vec![ModelTransform { code: 8 }];
    assert_eq!(config.apply(&mut crate_, &Vec::new()), Ok(()));
    assert_eq!(crate_.transforms, vec![ModelTransform { code: 7 }, ModelTransform { code: 8 }]);
}

#[test]
fn the_stages_run_in_their_fixed_order() {
    let mut config = ModelsPipeline::default();
    config.transforms = vec![ModelTransform { code: 3 }];
    config.material_overrides = vec![rule(by_name("wood"))];
    config.cap_texture_sizes = Some(512);
    config.collider = Collider::FromModel;
    config.collider_type = ColliderType::Dynamic;
    config.object_components = vec![component("mass", "2"), component("tint", "red")];
    let mut crate_ = model();
    let resolved = vec![Some(material("oak", &[(2048, 2048)]))];
    assert_eq!(config.apply(&mut crate_, &resolved), Ok(()));
    assert_eq!(crate_.transforms, vec![ModelTransform { code: 3 }]);
    // The override comes before the cap: the replacement is capped too.
    assert_eq!(
        crate_.materials,
        vec![material("oak", &[(512, 512)]), material("metal", &[(256, 256), (17, 512)])]
    );
    assert!(crate_.finalized);
    assert_eq!(crate_.collider, Some(ColliderShape::FromModel));
    assert_eq!(
        crate_.objects,
        vec![
            Object {
                collider: Some(ColliderTag::Kind(ColliderType::Dynamic)),
                components: vec![component("mass", "2"), component("tint", "red")],
            },
            object(Vec::new()),
        ]
    );
    assert_eq!(crate_.meshes, vec![Mesh { triangles: 12 }, Mesh { triangles: 0 }]);
}

#[test]
fn later_rules_override_earlier_ones() {
    let mut config = ModelsPipeline::default();
    config.material_overrides =
        vec![rule(by_name("wood")), rule(MaterialFilter::All), rule(by_name("wood"))];
    let mut crate_ = model();
    let resolved = vec![
        Some(material("oak", &[])),
        Some(material("wood", &[(8, 8)])),
        Some(material("pine", &[])),
    ];
    assert_eq!(config.apply(&mut crate_, &resolved), Ok(()));
    assert_eq!(crate_.materials, vec![material("pine", &[]), material("pine", &[])]);
}

#[test]
fn a_material_that_could_not_be_had_stops_the_pipeline() {
    let mut config = ModelsPipeline::default();
    config.transforms = vec![ModelTransform { code: 3 }];
    config.material_overrides = vec![rule(by_name("wood")), rule(by_name("metal")), rule(MaterialFilter::All)];
    let mut crate_ = model();
    let resolved = vec![Some(material("oak", &[])), None, Some(material("x", &[]))];
    assert_eq!(config.apply(&mut crate_, &resolved), Err(PipelineError::Material { rule: 1 }));
    assert_eq!(crate_.transforms, vec![ModelTransform { code: 3 }]);
    assert_eq!(
        crate_.materials,
        vec![material("oak", &[]), material("metal", &[(256, 256), (100, 3000)])]
    );
    assert!(!crate_.finalized);

    let mut crate_ = model();
    assert_eq!(
        config.apply(&mut crate_, &vec![Some(material("oak", &[]))]),
        Err(PipelineError::Material { rule: 1 })
    );
}

#[test]
fn textures_are_fitted_into_the_cap() {
    assert_eq!(cap_texture(Texture { width: 4096, height: 1024 }, 512), Texture { width: 512, height: 128 });
    assert_eq!(cap_texture(Texture { width: 100, height: 3000 }, 512), Texture { width: 17, height: 512 });
    assert_eq!(cap_texture(Texture { width: 512, height: 512 }, 512), Texture { width: 512, height: 512 });
    assert_eq!(cap_texture(Texture { width: 513, height: 1 }, 512), Texture { width: 512, height: 1 });
    assert_eq!(cap_texture(Texture { width: 1, height: 100_000 }, 16), Texture { width: 1, height: 16 });
    assert_eq!(cap_texture(Texture { width: 0, height: 0 }, 16), Texture { width: 0, height: 0 });
    assert_eq!(
        cap_texture(Texture { width: u32::MAX, height: u32::MAX }, u32::MAX - 1),
        Texture { width: u32::MAX - 1, height: u32::MAX - 1 }
    );
    assert_eq!(cap_texture(Texture { width: 9, height: 3 }, 0), Texture { width: 0, height: 1 });

    let mut crate_ = model();
    crate_.cap_texture_sizes(1024);
    assert_eq!(
        crate_.materials,
        vec![material("wood", &[(1024, 256)]), material("metal", &[(256, 256), (34, 1024)])]
    );
}

#[test]
fn without_a_collider_the_object_is_tagged_so() {
    let config = ModelsPipeline::default();
    let mut crate_ = ModelCrate::new(Vec::new(), Vec::new(), vec![object(Vec::new())]);
    assert_eq!(config.apply(&mut crate_, &Vec::new()), Ok(()));
    assert_eq!(crate_.collider, None);
    assert_eq!(crate_.objects[0].collider, Some(ColliderTag::NoCollider));
}

#[test]
fn a_collider_cannot_be_taken_from_a_model_without_triangles() {
    let mut config = ModelsPipeline::default();
    config.collider = Collider::FromModel;
    let mut crate_ = ModelCrate::new(
        vec![Mesh { triangles: 0 }, Mesh { triangles: 0 }],
        Vec::new(),
        vec![object(Vec::new())],
    );
    assert_eq!(
        config.apply(&mut crate_, &Vec::new()),
        Err(PipelineError::Stage(StructuralError::DegenerateGeometry))
    );
    assert!(crate_.finalized);
    assert_eq!(crate_.collider, None);
    assert_eq!(crate_.objects[0].collider, None);

    let mut crate_ = ModelCrate::new(Vec::new(), Vec::new(), Vec::new());
    assert_eq!(crate_.create_collider_from_model(), Err(StructuralError::DegenerateGeometry));
}

#[test]
fn a_character_collider_takes_the_configured_measures() {
    let mut config = ModelsPipeline::default();
    let radius = Some(Length { bits: 0.5f32.to_bits() });
    config.collider = Collider::Character { radius, height: None };
    config.collider_type = ColliderType::Picking;
    let mut crate_ = model();
    assert_eq!(config.apply(&mut crate_, &Vec::new()), Ok(()));
    assert_eq!(crate_.collider, Some(ColliderShape::Character { radius, height: None }));
    assert_eq!(crate_.objects[0].collider, Some(ColliderTag::Kind(ColliderType::Picking)));
}

#[test]
fn a_root_without_a_child_fails_component_injection() {
    let mut config = ModelsPipeline::default();
    config.object_components = vec![component("mass", "2")];
    let mut crate_ = ModelCrate::new(vec![Mesh { triangles: 1 }], Vec::new(), Vec::new());
    assert_eq!(
        config.apply(&mut crate_, &Vec::new()),
        Err(PipelineError::Stage(StructuralError::MissingRootObject))
    );
    assert!(crate_.finalized);
    assert_eq!(crate_.add_components(&Vec::new()), Err(StructuralError::MissingRootObject));
    assert_eq!(
        crate_.add_component_to_object(ColliderTag::NoCollider),
        Err(StructuralError::MissingRootObject)
    );
}

#[test]
fn a_final_crate_is_refused() {
    let config = ModelsPipeline::default();
    let mut crate_ = model();
    assert_eq!(config.apply(&mut crate_, &Vec::new()), Ok(()));
    let after = crate_.clone();
    assert_eq!(
        config.apply(&mut crate_, &Vec::new()),
        Err(PipelineError::Stage(StructuralError::Finalized))
    );
    assert_eq!(crate_, after);
    assert_eq!(crate_.apply_transform(ModelTransform { code: 1 }), Err(StructuralError::Finalized));
}

#[test]
fn a_wrong_configuration_is_reported_before_any_stage_runs() {
    let mut config = ModelsPipeline::default();
    config.transforms = vec![ModelTransform { code: 1 }];
    config.material_overrides = vec![rule(MaterialFilter::All), rule(by_name(""))];
    config.object_components = vec![component("Not An Identifier", "1")];
    config.cap_texture_sizes = Some(0);
    let mut crate_ = model();
    let before = crate_.clone();
    assert_eq!(config.validate(), Err(ConfigError::MalformedFilter { rule: 1 }));
    assert_eq!(
        config.apply(&mut crate_, &Vec::new()),
        Err(PipelineError::Config(ConfigError::MalformedFilter { rule: 1 }))
    );
    assert_eq!(crate_, before);

    config.material_overrides = Vec::new();
    config.object_components = vec![component("mass", "1"), component("Not An Identifier", "1")];
    assert_eq!(config.validate(), Err(ConfigError::InvalidIdentifier { component: 1 }));

    config.object_components = Vec::new();
    assert_eq!(config.validate(), Err(ConfigError::InvalidTextureSize));
    assert_eq!(
        config.apply(&mut crate_, &Vec::new()),
        Err(PipelineError::Config(ConfigError::InvalidTextureSize))
    );
    assert_eq!(crate_, before);

    config.cap_texture_sizes = Some(1);
    assert_eq!(config.validate(), Ok(()));
}

#[test]
fn a_component_replaces_the_one_of_its_name() {
    let mut components = vec![component("mass", "1"), component("tint", "red")];
    attach(&mut components, component("tint", "blue"));
    attach(&mut components, component("size", "3"));
    assert_eq!(
        components,
        vec![component("mass", "1"), component("tint", "blue"), component("size", "3")]
    );
}

#[test]
fn filters_pick_materials() {
    let wood = material("wood", &[]);
    assert!(matches_filter(&MaterialFilter::All, &wood));
    assert!(matches_filter(&by_name("wood"), &wood));
    assert!(!matches_filter(&by_name("Wood"), &wood));
    let mut crate_ = model();
    crate_.override_material(&by_name("metal"), &material("gold", &[(1, 1)]));
    assert_eq!(crate_.materials, vec![material("wood", &[(4096, 1024)]), material("gold", &[(1, 1)])]);
}

#[test]
fn the_materials_of_a_model_go_below_its_output_path() {
    let root = AbsoluteUrl::parse("https://host/out").unwrap();
    assert_eq!(
        materials_destination(&root, "models/tree.glb").unwrap().as_str(),
        "https://host/out/models/tree.glb/materials"
    );
    assert_eq!(
        materials_destination(&root, "models/").unwrap().as_str(),
        "https://host/out/models/materials"
    );
    assert_eq!(materials_destination(&root, "").unwrap().as_str(), "https://host/out/materials");
    assert_eq!(materials_destination(&root, "../..").unwrap_err(), UrlError::Malformed);
}

fn asset(id: &str) -> OutAsset {
    OutAsset {
        id: id.to_string(),
        type_: AssetType::Model,
        hidden: false,
        name: id.to_uppercase(),
        tags: vec!["tag".to_string()],
        categories: vec!["props".to_string()],
        preview: OutAssetPreview::FromModel { url: format!("https://host/out/{id}") },
        content: OutAssetContent::Content(format!("https://host/out/{id}")),
        source: Some("tree.fbx".to_string()),
    }
}

#[test]
fn three_variants_make_a_collection() {
    let mut config = ModelsPipeline::default();
    config.collection_of_variants = true;
    let root = AbsoluteUrl::parse("https://host/out/trees").unwrap();
    let emitted = pipeline(&config, vec![asset("a"), asset("b"), asset("c")], &root, "forest").unwrap();
    assert_eq!(emitted.len(), 4);
    for (out, id) in emitted.iter().zip(["a", "b", "c"]) {
        assert_eq!(*out, OutAsset { hidden: true, ..asset(id) });
    }
    assert_eq!(
        emitted[3],
        OutAsset {
            id: "host_out_trees_col".to_string(),
            type_: AssetType::Object,
            hidden: false,
            name: "forest".to_string(),
            tags: Vec::new(),
            categories: Vec::new(),
            preview: OutAssetPreview::Plain,
            content: OutAssetContent::Collection(vec![
                "a".to_string(),
                "b".to_string(),
                "c".to_string()
            ]),
            source: None,
        }
    );
}

#[test]
fn one_asset_makes_no_collection() {
    let mut config = ModelsPipeline::default();
    config.collection_of_variants = true;
    let root = AbsoluteUrl::parse("https://host/out").unwrap();
    assert_eq!(pipeline(&config, vec![asset("a")], &root, "forest").unwrap(), vec![asset("a")]);
    assert_eq!(pipeline(&config, Vec::new(), &root, "forest").unwrap(), Vec::new());
}

#[test]
fn no_collection_unless_asked_for() {
    let config = ModelsPipeline::default();
    let root = AbsoluteUrl::parse("https://host/out").unwrap();
    assert_eq!(
        pipeline(&config, vec![asset("a"), asset("b")], &root, "forest").unwrap(),
        vec![asset("a"), asset("b")]
    );
}

#[test]
fn a_collection_needs_a_place() {
    let mut config = ModelsPipeline::default();
    config.collection_of_variants = true;
    let root = AbsoluteUrl::parse("https://host/../out").unwrap();
    assert_eq!(
        pipeline(&config, vec![asset("a"), asset("b")], &root, "forest").unwrap_err(),
        UrlError::Malformed
    );
}

#[test]
fn the_identifier_of_an_asset_comes_from_its_place() {
    let url = AbsoluteUrl::parse("https://host:8999/Content/my-assets/tree.glb").unwrap();
    assert_eq!(asset_id_from_url(&url), "host_8999_Content_my_assets_tree_glb");
    assert_eq!(asset_id_from_url(&url), asset_id_from_url(&url.clone()));
    assert_eq!(asset_id_from_url(&AbsoluteUrl::parse("file://").unwrap()), "");
}
