//! The models pipeline: its configuration and the fixed order in which its
//! stages work on a crate.
//!
//! Whatever the order in which a configuration names them, the stages run
//! as transforms, material overrides, texture capping, finalizing,
//! collider synthesis, component injection.

use vstd::prelude::*;
use relative_path::RelativePath;
use crate::asset_url::{spec_push, url_view, AbsoluteUrl, UrlError};
use crate::identifier::{check, is_identifier};
use crate::model_crate::{
    components_view, has_triangles, spec_attach_all, spec_cap_all, spec_override, ColliderShape,
    ColliderTag, ColliderType, Component, ComponentView, CrateView, FilterView, Length, Material,
    MaterialFilter, MaterialView, Mesh, ModelCrate, ModelTransform, ObjectView, StructuralError,
};
use crate::out_asset::{
    asset_id_from_url, assets_view, spec_asset_id, spec_collection, spec_emit, spec_hide, spec_ids,
    texts_view, AssetType, OutAsset, OutAssetContent, OutAssetPreview, OutAssetView,
};
use crate::seq_util::{first_index, lemma_first_index};

verus! {

/// The default of the settings that are on unless a configuration turns
/// them off.
pub fn true_value() -> (b: bool)
    ensures
        b,
{
    true
}

/// Which importer populates the crate.
#[derive(Clone, Copy, Debug, PartialEq, Eq, Structural)]
pub enum ModelImporter {
    /// The source is a scene or model file in a format read directly.
    Regular,
    /// The source is a bundle of prefabs.
    UnityModels { use_prefabs: bool },
    /// The source is a bundle of scanned surfaces and levels of detail.
    Quixel,
}

impl Default for ModelImporter {
    fn default() -> (r: Self)
        ensures
            r == ModelImporter::Regular,
    {
        ModelImporter::Regular
    }
}

/// How the collision shape of a crate is made.
#[derive(Clone, Copy, Debug, PartialEq, Eq, Structural)]
pub enum Collider {
    /// No shape is made.
    Disabled,
    /// The shape is taken from the finalized geometry.
    FromModel,
    /// The shape is a capsule.
    Character { radius: Option<Length>, height: Option<Length> },
}

impl Default for Collider {
    fn default() -> (r: Self)
        ensures
            r == Collider::Disabled,
    {
        Collider::Disabled
    }
}

/// A material as a configuration declares it: its name and the references
/// of its textures.
#[derive(Clone, Debug, PartialEq, Eq)]
pub struct PipelinePbrMaterial {
    pub name: String,
    pub textures: Vec<String>,
}

/// A rule that replaces the materials that its filter picks.
#[derive(Clone, Debug, PartialEq, Eq)]
pub struct MaterialOverride {
    pub filter: MaterialFilter,
    pub material: PipelinePbrMaterial,
}

/// The configuration of the models pipeline.
#[derive(Clone, Debug, PartialEq, Eq)]
pub struct ModelsPipeline {
    pub importer: ModelImporter,
    /// Use the fallback importer, which reads more formats.
    pub force_assimp: bool,
    pub collider: Collider,
    pub collider_type: ColliderType,
    /// The longest side that a texture may have.
    pub cap_texture_sizes: Option<u32>,
    /// Hide the assets and emit one collection of them all.
    pub collection_of_variants: bool,
    pub output_objects: bool,
    pub output_animations: bool,
    /// Components to attach to the object of each crate.
    pub object_components: Vec<Component>,
    pub material_overrides: Vec<MaterialOverride>,
    pub transforms: Vec<ModelTransform>,
}

impl Default for ModelsPipeline {
    fn default() -> (r: Self)
        ensures
            r.importer == ModelImporter::Regular,
            !r.force_assimp,
            r.collider == Collider::Disabled,
            r.collider_type == ColliderType::Static,
            r.cap_texture_sizes is None,
            !r.collection_of_variants,
            r.output_objects,
            r.output_animations,
            r.object_components@.len() == 0,
            r.material_overrides@.len() == 0,
            r.transforms@.len() == 0,
    {
        ModelsPipeline {
            importer: ModelImporter::Regular,
            force_assimp: false,
            collider: Collider::Disabled,
            collider_type: ColliderType::Static,
            cap_texture_sizes: None,
            collection_of_variants: false,
            output_objects: true_value(),
            output_animations: true_value(),
            object_components: Vec::new(),
            material_overrides: Vec::new(),
            transforms: Vec::new(),
        }
    }
}

/// What the stages read of a configuration.
pub struct PipelineView {
    pub transforms: Seq<ModelTransform>,
    pub filters: Seq<FilterView>,
    pub cap: Option<u32>,
    pub collider: Collider,
    pub collider_type: ColliderType,
    pub components: Seq<ComponentView>,
}

pub open spec fn filters_view(rules: Seq<MaterialOverride>) -> Seq<FilterView> {
    Seq::new(rules.len(), |i: int| rules[i].filter@)
}

impl View for ModelsPipeline {
    type V = PipelineView;

    open spec fn view(&self) -> PipelineView {
        PipelineView {
            transforms: self.transforms@,
            filters: filters_view(self.material_overrides@),
            cap: self.cap_texture_sizes,
            collider: self.collider,
            collider_type: self.collider_type,
            components: components_view(self.object_components@),
        }
    }
}

/// What is wrong with a configuration.
#[derive(Clone, Copy, Debug, PartialEq, Eq, Structural)]
pub enum ConfigError {
    /// The filter of override rule `rule` picks by an empty name.
    MalformedFilter { rule: usize },
    /// The name of component `component` is no identifier.
    InvalidIdentifier { component: usize },
    /// Textures are capped to the size 0.
    InvalidTextureSize,
}

/// Why the pipeline gave up on a crate.
#[derive(Clone, Copy, Debug, PartialEq, Eq, Structural)]
pub enum PipelineError {
    /// The configuration is wrong. No stage has run.
    Config(ConfigError),
    /// The material of override rule `rule` could not be had.
    Material { rule: usize },
    /// A stage found the crate in a state it cannot work on.
    Stage(StructuralError),
}

pub open spec fn is_malformed(f: FilterView) -> bool {
    f matches FilterView::ByName { name } && name.len() == 0
}

pub open spec fn is_bad_component(c: ComponentView) -> bool {
    !is_identifier(c.name)
}

/// What is wrong with the configuration, if anything: the first malformed
/// filter, else the first component whose name is no identifier, else a
/// texture size of 0.
pub open spec fn spec_validate(cfg: PipelineView) -> Result<(), ConfigError> {
    let rule = first_index(cfg.filters, |f: FilterView| is_malformed(f));
    let component = first_index(cfg.components, |c: ComponentView| is_bad_component(c));
    if rule < cfg.filters.len() {
        Err(ConfigError::MalformedFilter { rule: rule as usize })
    } else if component < cfg.components.len() {
        Err(ConfigError::InvalidIdentifier { component: component as usize })
    } else if cfg.cap == Some(0u32) {
        Err(ConfigError::InvalidTextureSize)
    } else {
        Ok(())
    }
}

/// The materials after the override rules were applied in order, each with
/// its material from `resolved`, and the first rule whose material is
/// missing there, at which the stage stops.
pub open spec fn spec_overrides(
    ms: Seq<MaterialView>,
    filters: Seq<FilterView>,
    resolved: Seq<Option<MaterialView>>,
) -> (Seq<MaterialView>, Option<int>)
    decreases filters.len(),
{
    if filters.len() == 0 {
        (ms, None)
    } else {
        let (prev, failed) = spec_overrides(ms, filters.drop_last(), resolved);
        let k = filters.len() - 1;
        if failed is Some {
            (prev, failed)
        } else if k < resolved.len() && resolved[k] is Some {
            (spec_override(prev, filters[k], resolved[k]->Some_0), None)
        } else {
            (prev, Some(k))
        }
    }
}

/// The tag that the object of a crate gets.
pub open spec fn spec_tag(cfg: PipelineView) -> ColliderTag {
    match cfg.collider {
        Collider::Disabled => ColliderTag::NoCollider,
        _ => ColliderTag::Kind(cfg.collider_type),
    }
}

/// The stages from collider synthesis on, which work on a finalized crate.
pub open spec fn spec_finish(cfg: PipelineView, c: CrateView) -> (
    CrateView,
    Result<(), PipelineError>,
) {
    let shaped = match cfg.collider {
        Collider::Disabled => Ok(c),
        Collider::FromModel => if has_triangles(c.meshes) {
            Ok(CrateView { collider: Some(ColliderShape::FromModel), ..c })
        } else {
            Err(StructuralError::DegenerateGeometry)
        },
        Collider::Character { radius, height } => Ok(
            CrateView { collider: Some(ColliderShape::Character { radius, height }), ..c },
        ),
    };
    match shaped {
        Err(e) => (c, Err(PipelineError::Stage(e))),
        Ok(s) => if s.objects.len() == 0 {
            (s, Err(PipelineError::Stage(StructuralError::MissingRootObject)))
        } else {
            let object = ObjectView {
                collider: Some(spec_tag(cfg)),
                components: spec_attach_all(s.objects[0].components, cfg.components),
            };
            (CrateView { objects: s.objects.update(0, object), ..s }, Ok(()))
        },
    }
}

/// The crate after the pipeline worked on it, and how the pipeline ended.
///
/// A wrong configuration and a crate that is final already are refused
/// before any stage runs. A stage that fails leaves the crate as the
/// stages before it made it.
pub open spec fn spec_apply(
    cfg: PipelineView,
    resolved: Seq<Option<MaterialView>>,
    c: CrateView,
) -> (CrateView, Result<(), PipelineError>) {
    match spec_validate(cfg) {
        Err(e) => (c, Err(PipelineError::Config(e))),
        Ok(()) => if c.finalized {
            (c, Err(PipelineError::Stage(StructuralError::Finalized)))
        } else {
            let transformed = CrateView { transforms: c.transforms + cfg.transforms, ..c };
            let (ms, failed) = spec_overrides(transformed.materials, cfg.filters, resolved);
            let overridden = CrateView { materials: ms, ..transformed };
            match failed {
                Some(rule) => (overridden, Err(PipelineError::Material { rule: rule as usize })),
                None => {
                    let capped = match cfg.cap {
                        Some(max) => CrateView {
                            materials: spec_cap_all(overridden.materials, max),
                            ..overridden
                        },
                        None => overridden,
                    };
                    spec_finish(cfg, CrateView { finalized: true, ..capped })
                },
            }
        },
    }
}

pub open spec fn resolved_view(resolved: Seq<Option<Material>>) -> Seq<Option<MaterialView>> {
    Seq::new(
        resolved.len(),
        |i: int|
            match resolved[i] {
                Some(m) => Some(m@),
                None => None,
            },
    )
}

/// The path that joining `path` to `base` gives: `base`, a `/` unless
/// `base` is empty or ends with one, and `path` without a `/` at its start.
pub open spec fn spec_join(base: Seq<char>, path: Seq<char>) -> Seq<char> {
    let tail = if path.len() > 0 && path[0] == '/' {
        path.skip(1)
    } else {
        path
    };
    if base.len() > 0 && base.last() != '/' {
        base + seq!['/'] + tail
    } else {
        base + tail
    }
}

/// Joins the relative path `path` to the relative path `base`.
///
/// Trusted: `RelativePath::join` of `relative_path`, which copies `base`,
/// adds a `/` unless `base` is empty or ends with one, and adds `path`
/// without the `/` that it may start with.
#[verifier::external_body]
fn join_relative(base: &str, path: &str) -> (joined: String)
    ensures
        joined@ == spec_join(base@, path@),
{
    RelativePath::new(base).join(path).into_string()
}

/// Where the textures of the override materials of a model go: the
/// directory `materials` below the model's output path, below `out_root`.
pub fn materials_destination(out_root: &AbsoluteUrl, out_model_path: &str) -> (r: Result<
    AbsoluteUrl,
    UrlError,
>)
    ensures
        url_view(r) == spec_push(out_root@, spec_join(out_model_path@, "materials"@)),
{
    let path = join_relative(out_model_path, "materials");
    out_root.push(path.as_str())
}

impl ModelsPipeline {
    /// Tells what is wrong with the configuration, if anything.
    pub fn validate(&self) -> (r: Result<(), ConfigError>)
        ensures
            r == spec_validate(self@),
    {
        let ghost filters = filters_view(self.material_overrides@);
        let ghost components = components_view(self.object_components@);
        let mut i: usize = 0;
        while i < self.material_overrides.len()
            invariant
                i <= self.material_overrides.len(),
                filters == filters_view(self.material_overrides@),
                filters == self@.filters,
                forall|j: int| 0 <= j < i ==> !is_malformed(#[trigger] filters[j]),
            decreases self.material_overrides.len() - i,
        {
            let malformed = match &self.material_overrides[i].filter {
                MaterialFilter::All => false,
                MaterialFilter::ByName { name } => name.as_str().is_empty(),
            };
            if malformed {
                proof {
                    lemma_first_index(filters, |f: FilterView| is_malformed(f), i as int);
                }
                return Err(ConfigError::MalformedFilter { rule: i });
            }
            i += 1;
        }
        proof {
            lemma_first_index(filters, |f: FilterView| is_malformed(f), i as int);
        }
        let mut k: usize = 0;
        while k < self.object_components.len()
            invariant
                k <= self.object_components.len(),
                components == components_view(self.object_components@),
                components == self@.components,
                filters == self@.filters,
                first_index(filters, |f: FilterView| is_malformed(f)) == filters.len(),
                forall|j: int| 0 <= j < k ==> !is_bad_component(#[trigger] components[j]),
            decreases self.object_components.len() - k,
        {
            if check(self.object_components[k].name.as_str()).is_err() {
                proof {
                    lemma_first_index(
                        components,
                        |c: ComponentView| is_bad_component(c),
                        k as int,
                    );
                }
                return Err(ConfigError::InvalidIdentifier { component: k });
            }
            k += 1;
        }
        proof {
            lemma_first_index(components, |c: ComponentView| is_bad_component(c), k as int);
        }
        match self.cap_texture_sizes {
            Some(0) => Err(ConfigError::InvalidTextureSize),
            _ => Ok(()),
        }
    }

    /// Runs the stages of the pipeline on a crate that an importer has
    /// populated.
    ///
    /// `resolved` holds the material of each override rule, in the order of
    /// the rules, or nothing where the material could not be had.
    pub fn apply(&self, model_crate: &mut ModelCrate, resolved: &Vec<Option<Material>>) -> (r:
        Result<(), PipelineError>)
        ensures
            final(model_crate)@ == spec_apply(self@, resolved_view(resolved@), old(model_crate)@).0,
            r == spec_apply(self@, resolved_view(resolved@), old(model_crate)@).1,
    {
        let ghost cfg = self@;
        let ghost res = resolved_view(resolved@);
        let ghost start = model_crate@;
        match self.validate() {
            Err(e) => {
                return Err(PipelineError::Config(e));
            },
            Ok(()) => {},
        }
        if model_crate.finalized {
            return Err(PipelineError::Stage(StructuralError::Finalized));
        }
        let mut i: usize = 0;
        assert(start.transforms + cfg.transforms.take(0) =~= start.transforms);
        while i < self.transforms.len()
            invariant
                i <= self.transforms.len(),
                cfg == self@,
                !start.finalized,
                model_crate@ == (CrateView {
                    transforms: start.transforms + cfg.transforms.take(i as int),
                    ..start
                }),
            decreases self.transforms.len() - i,
        {
            match model_crate.apply_transform(self.transforms[i]) {
                Ok(()) => {},
                Err(e) => {
                    return Err(PipelineError::Stage(e));
                },
            }
            assert(start.transforms + cfg.transforms.take(i + 1) =~= (start.transforms
                + cfg.transforms.take(i as int)).push(cfg.transforms[i as int]));
            i += 1;
        }
        assert(cfg.transforms.take(self.transforms.len() as int) =~= cfg.transforms);
        let ghost transformed = model_crate@;
        let mut k: usize = 0;
        assert(cfg.filters.take(0) =~= Seq::empty());
        while k < self.material_overrides.len()
            invariant
                k <= self.material_overrides.len(),
                cfg == self@,
                res == resolved_view(resolved@),
                start == old(model_crate)@,
                !start.finalized,
                spec_validate(cfg) is Ok,
                transformed == (CrateView {
                    transforms: start.transforms + cfg.transforms,
                    ..start
                }),
                spec_overrides(transformed.materials, cfg.filters.take(k as int), res).1 is None,
                model_crate@ == (CrateView {
                    materials: spec_overrides(
                        transformed.materials,
                        cfg.filters.take(k as int),
                        res,
                    ).0,
                    ..transformed
                }),
            decreases self.material_overrides.len() - k,
        {
            proof {
                assert(cfg.filters.take(k + 1).drop_last() =~= cfg.filters.take(k as int));
                assert(cfg.filters.take(k + 1)[k as int] == self.material_overrides@[k as int].filter@);
            }
            if k < resolved.len() && resolved[k].is_some() {
                match &resolved[k] {
                    Some(material) => {
                        model_crate.override_material(&self.material_overrides[k].filter, material);
                    },
                    None => {},
                }
            } else {
                proof {
                    lemma_overrides_failed(transformed.materials, cfg.filters, res, k + 1);
                }
                return Err(PipelineError::Material { rule: k });
            }
            k += 1;
        }
        assert(cfg.filters.take(self.material_overrides.len() as int) =~= cfg.filters);
        match self.cap_texture_sizes {
            Some(max) => {
                model_crate.cap_texture_sizes(max);
            },
            None => {},
        }
        model_crate.finalize_model();
        match self.collider {
            Collider::Disabled => {},
            Collider::FromModel => {
                match model_crate.create_collider_from_model() {
                    Ok(()) => {},
                    Err(e) => {
                        return Err(PipelineError::Stage(e));
                    },
                }
            },
            Collider::Character { radius, height } => {
                model_crate.create_character_collider(radius, height);
            },
        }
        let tag = match self.collider {
            Collider::Disabled => ColliderTag::NoCollider,
            _ => ColliderTag::Kind(self.collider_type),
        };
        let ghost shaped = model_crate@;
        match model_crate.add_component_to_object(tag) {
            Ok(()) => {},
            Err(e) => {
                return Err(PipelineError::Stage(e));
            },
        }
        match model_crate.add_components(&self.object_components) {
            Ok(()) => {},
            Err(e) => {
                return Err(PipelineError::Stage(e));
            },
        }
        proof {
            let object = ObjectView {
                collider: Some(spec_tag(cfg)),
                components: spec_attach_all(shaped.objects[0].components, cfg.components),
            };
            assert(model_crate@.objects =~= shaped.objects.update(0, object));
        }
        Ok(())
    }
}

/// The assets that a build emits, `assets` being what the importer of the
/// configuration produced for the package `package_name`, to be written
/// below `out_root`.
///
/// Where the configuration asks for a collection of variants and there is
/// more than one asset, every asset is hidden and a collection of them all
/// comes behind them, named after the package and identified by the place
/// `col` below `out_root`. Else the assets are emitted as they are.
pub fn pipeline(
    config: &ModelsPipeline,
    assets: Vec<OutAsset>,
    out_root: &AbsoluteUrl,
    package_name: &str,
) -> (r: Result<Vec<OutAsset>, UrlError>)
    ensures
        !(config.collection_of_variants && assets@.len() > 1) ==> (r matches Ok(v) && v == assets),
        config.collection_of_variants && assets@.len() > 1 ==> (match spec_push(
            out_root@,
            "col"@,
        ) {
            Err(e) => (r matches Err(x) && x == e),
            Ok(url) => (r matches Ok(v) && assets_view(v@) == spec_emit(
                true,
                assets_view(assets@),
                spec_asset_id(url),
                package_name@,
            )),
        }),
{
    if !(config.collection_of_variants && assets.len() > 1) {
        return Ok(assets);
    }
    let place = match out_root.push("col") {
        Ok(url) => url,
        Err(e) => {
            return Err(e);
        },
    };
    let ghost before = assets_view(assets@);
    let mut assets = assets;
    let mut ids: Vec<String> = Vec::new();
    let mut i: usize = 0;
    while i < assets.len()
        invariant
            i <= assets.len(),
            assets@.len() == before.len(),
            ids@.len() == i,
            forall|k: int| 0 <= k < i ==> (#[trigger] ids@[k])@ == before[k].id,
            forall|k: int|
                0 <= k < i ==> (#[trigger] assets@[k])@ == (OutAssetView {
                    hidden: true,
                    ..before[k]
                }),
            forall|k: int| i <= k < before.len() ==> (#[trigger] assets@[k])@ == before[k],
        decreases assets.len() - i,
    {
        assets[i].hidden = true;
        ids.push(assets[i].id.clone());
        i += 1;
    }
    let ghost hidden = assets_view(assets@);
    assert(hidden =~= spec_hide(before));
    assert(texts_view(ids@) =~= spec_ids(before));
    let collection = OutAsset {
        id: asset_id_from_url(&place),
        type_: AssetType::Object,
        hidden: false,
        name: package_name.to_owned(),
        tags: Vec::new(),
        categories: Vec::new(),
        preview: OutAssetPreview::Plain,
        content: OutAssetContent::Collection(ids),
        source: None,
    };
    proof {
        assert(collection@.tags =~= Seq::<Seq<char>>::empty());
        assert(collection@.categories =~= Seq::<Seq<char>>::empty());
        assert(collection@ == spec_collection(before, spec_asset_id(place@), package_name@));
    }
    assets.push(collection);
    assert(assets_view(assets@) =~= hidden.push(
        spec_collection(before, spec_asset_id(place@), package_name@),
    ));
    Ok(assets)
}

/// A failure of the override stage at some rule is the failure of the
/// whole stage.
pub proof fn lemma_overrides_failed(
    ms: Seq<MaterialView>,
    filters: Seq<FilterView>,
    resolved: Seq<Option<MaterialView>>,
    n: int,
)
    requires
        0 <= n <= filters.len(),
        spec_overrides(ms, filters.take(n), resolved).1 is Some,
    ensures
        spec_overrides(ms, filters, resolved) == spec_overrides(ms, filters.take(n), resolved),
    decreases filters.len() - n,
{
    if n < filters.len() {
        assert(filters.take(n + 1).drop_last() =~= filters.take(n));
        lemma_overrides_failed(ms, filters, resolved, n + 1);
    } else {
        assert(filters.take(n) =~= filters);
    }
}

/// Transforms compose in the order of the list: once the pipeline has run
/// its first stage, the crate holds the transforms it had, followed by the
/// configured ones, first to last, whatever else the configuration holds
/// and however the later stages end.
pub proof fn lemma_transforms_in_order(
    cfg: PipelineView,
    resolved: Seq<Option<MaterialView>>,
    c: CrateView,
)
    requires
        spec_validate(cfg) is Ok,
        !c.finalized,
    ensures
        spec_apply(cfg, resolved, c).0.transforms == c.transforms + cfg.transforms,
{
}

/// Two configured transforms are applied first to last, never the other
/// way round.
pub proof fn lemma_two_transforms(
    cfg: PipelineView,
    resolved: Seq<Option<MaterialView>>,
    c: CrateView,
    t1: ModelTransform,
    t2: ModelTransform,
)
    requires
        spec_validate(cfg) is Ok,
        !c.finalized,
        cfg.transforms == seq![t1, t2],
    ensures
        spec_apply(cfg, resolved, c).0.transforms == c.transforms.push(t1).push(t2),
        t1 != t2 ==> spec_apply(cfg, resolved, c).0.transforms != c.transforms.push(t2).push(t1),
{
    let out = spec_apply(cfg, resolved, c).0.transforms;
    assert(out =~= c.transforms.push(t1).push(t2));
    if t1 != t2 {
        let other = c.transforms.push(t2).push(t1);
        assert(out[c.transforms.len() as int] == t1);
        assert(other[c.transforms.len() as int] == t2);
    }
}

/// The stages run in their fixed order: where the pipeline succeeds, the
/// materials are the overridden ones, capped; the crate is final; and its
/// object carries the collider tag and the configured components.
pub proof fn lemma_stage_order(
    cfg: PipelineView,
    resolved: Seq<Option<MaterialView>>,
    c: CrateView,
)
    requires
        spec_apply(cfg, resolved, c).1 is Ok,
    ensures
        ({
            let out = spec_apply(cfg, resolved, c).0;
            let overridden = spec_overrides(c.materials, cfg.filters, resolved).0;
            &&& out.meshes == c.meshes
            &&& out.transforms == c.transforms + cfg.transforms
            &&& out.materials == (match cfg.cap {
                Some(max) => spec_cap_all(overridden, max),
                None => overridden,
            })
            &&& out.finalized
            &&& out.objects.len() == c.objects.len()
            &&& out.objects.len() > 0
            &&& out.objects[0].collider == Some(spec_tag(cfg))
            &&& out.objects[0].components == spec_attach_all(
                c.objects[0].components,
                cfg.components,
            )
            &&& forall|i: int| 1 <= i < out.objects.len() ==> out.objects[i] == c.objects[i]
        }),
{
}

/// Without collider synthesis the pipeline reads no geometry: the meshes
/// of the crate change neither what it does to the rest of the crate nor
/// how it ends, no shape is made, and the object is tagged as having no
/// collider.
pub proof fn lemma_disabled_reads_no_geometry(
    cfg: PipelineView,
    resolved: Seq<Option<MaterialView>>,
    c: CrateView,
    meshes: Seq<Mesh>,
)
    requires
        cfg.collider == Collider::Disabled,
    ensures
        spec_apply(cfg, resolved, CrateView { meshes, ..c }).1 == spec_apply(cfg, resolved, c).1,
        spec_apply(cfg, resolved, CrateView { meshes, ..c }).0 == (CrateView {
            meshes,
            ..spec_apply(cfg, resolved, c).0
        }),
        spec_apply(cfg, resolved, c).0.collider == c.collider,
        spec_apply(cfg, resolved, c).1 is Ok ==> spec_apply(cfg, resolved, c).0.objects[0].collider
            == Some(ColliderTag::NoCollider),
{
}

/// A collider cannot be taken from a model without triangles: the pipeline
/// ends with a structural error, whatever the rest of the crate holds.
pub proof fn lemma_collider_needs_triangles(
    cfg: PipelineView,
    resolved: Seq<Option<MaterialView>>,
    c: CrateView,
)
    requires
        cfg.collider == Collider::FromModel,
        spec_validate(cfg) is Ok,
        !c.finalized,
        spec_overrides(c.materials, cfg.filters, resolved).1 is None,
        !has_triangles(c.meshes),
    ensures
        spec_apply(cfg, resolved, c).1 == Err::<(), PipelineError>(
            PipelineError::Stage(StructuralError::DegenerateGeometry),
        ),
{
}

/// A character collider is made with the measures that the configuration
/// gives, and the object is tagged with the configured kind.
pub proof fn lemma_character_collider(
    cfg: PipelineView,
    resolved: Seq<Option<MaterialView>>,
    c: CrateView,
)
    requires
        cfg.collider is Character,
        spec_apply(cfg, resolved, c).1 is Ok,
    ensures
        spec_apply(cfg, resolved, c).0.collider == Some(
            ColliderShape::Character {
                radius: cfg.collider->radius,
                height: cfg.collider->height,
            },
        ),
        spec_apply(cfg, resolved, c).0.objects[0].collider == Some(
            ColliderTag::Kind(cfg.collider_type),
        ),
{
}

} // verus!
