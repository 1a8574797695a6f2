//! The model crate: the staging form of one imported asset, and the stages
//! that work on it.
//!
//! The crate holds of the geometry what the pipeline decides on: how many
//! triangles each mesh has and which transforms were applied, in order. Its
//! materials hold the sizes of their textures, and its object world holds
//! the children of its root with their components.

use vstd::prelude::*;
use crate::seq_util::{first_index, lemma_first_index};

verus! {

/// A geometric transform, named by the number under which the geometry
/// code knows it.
#[derive(Clone, Copy, Debug, PartialEq, Eq, Structural)]
pub struct ModelTransform {
    pub code: u64,
}

/// One mesh of the crate.
#[derive(Clone, Copy, Debug, PartialEq, Eq, Structural)]
pub struct Mesh {
    pub triangles: u64,
}

/// The size of a texture, in pixels.
#[derive(Clone, Copy, Debug, PartialEq, Eq, Structural)]
pub struct Texture {
    pub width: u32,
    pub height: u32,
}

/// A material: its name and its texture slots. An empty slot is a texture
/// that the material names but that could not be had.
#[derive(Clone, Debug, PartialEq, Eq)]
pub struct Material {
    pub name: String,
    pub textures: Vec<Option<Texture>>,
}

pub struct MaterialView {
    pub name: Seq<char>,
    pub textures: Seq<Option<Texture>>,
}

impl View for Material {
    type V = MaterialView;

    open spec fn view(&self) -> MaterialView {
        MaterialView { name: self.name@, textures: self.textures@ }
    }
}

/// Which materials an override rule replaces.
#[derive(Clone, Debug, PartialEq, Eq)]
pub enum MaterialFilter {
    /// Every material.
    All,
    /// The materials of this name.
    ByName { name: String },
}

pub enum FilterView {
    All,
    ByName { name: Seq<char> },
}

impl View for MaterialFilter {
    type V = FilterView;

    open spec fn view(&self) -> FilterView {
        match self {
            MaterialFilter::All => FilterView::All,
            MaterialFilter::ByName { name } => FilterView::ByName { name: name@ },
        }
    }
}

/// The physical kind of a collider.
#[derive(Clone, Copy, Debug, PartialEq, Eq, Structural)]
pub enum ColliderType {
    Static,
    Dynamic,
    TriggerArea,
    Picking,
}

/// The tag by which a consumer tells what collider an object has.
#[derive(Clone, Copy, Debug, PartialEq, Eq, Structural)]
pub enum ColliderTag {
    /// The object has no collider.
    NoCollider,
    /// The object has a collider of this kind.
    Kind(ColliderType),
}

/// A length as the bits of a single-precision number.
#[derive(Clone, Copy, Debug, PartialEq, Eq, Structural)]
pub struct Length {
    pub bits: u32,
}

/// The collision shape of a crate.
#[derive(Clone, Copy, Debug, PartialEq, Eq, Structural)]
pub enum ColliderShape {
    /// The shape of the finalized geometry.
    FromModel,
    /// A capsule. A measure that is not given is taken from the bounds of
    /// the model.
    Character { radius: Option<Length>, height: Option<Length> },
}

/// A component of an object.
#[derive(Clone, Debug, PartialEq, Eq)]
pub struct Component {
    pub name: String,
    pub value: String,
}

pub struct ComponentView {
    pub name: Seq<char>,
    pub value: Seq<char>,
}

impl View for Component {
    type V = ComponentView;

    open spec fn view(&self) -> ComponentView {
        ComponentView { name: self.name@, value: self.value@ }
    }
}

/// A child of the root of the object world.
#[derive(Clone, Debug, PartialEq, Eq)]
pub struct Object {
    pub collider: Option<ColliderTag>,
    pub components: Vec<Component>,
}

pub struct ObjectView {
    pub collider: Option<ColliderTag>,
    pub components: Seq<ComponentView>,
}

pub open spec fn components_view(cs: Seq<Component>) -> Seq<ComponentView> {
    Seq::new(cs.len(), |i: int| cs[i]@)
}

impl View for Object {
    type V = ObjectView;

    open spec fn view(&self) -> ObjectView {
        ObjectView { collider: self.collider, components: components_view(self.components@) }
    }
}

/// Why a stage gave up.
#[derive(Clone, Copy, Debug, PartialEq, Eq, Structural)]
pub enum StructuralError {
    /// The geometry is final and takes no transform.
    Finalized,
    /// The geometry has no triangle to take a collision shape from.
    DegenerateGeometry,
    /// The root of the object world has no child.
    MissingRootObject,
}

/// The staging form of one imported asset.
#[derive(Clone, Debug, PartialEq, Eq)]
pub struct ModelCrate {
    pub meshes: Vec<Mesh>,
    /// The transforms applied to the geometry so far, first to last.
    pub transforms: Vec<ModelTransform>,
    pub materials: Vec<Material>,
    /// Set once the geometry and material tables are final.
    pub finalized: bool,
    pub collider: Option<ColliderShape>,
    /// The children of the root of the object world. The first is the
    /// object that the asset stands for.
    pub objects: Vec<Object>,
}

pub struct CrateView {
    pub meshes: Seq<Mesh>,
    pub transforms: Seq<ModelTransform>,
    pub materials: Seq<MaterialView>,
    pub finalized: bool,
    pub collider: Option<ColliderShape>,
    pub objects: Seq<ObjectView>,
}

pub open spec fn materials_view(ms: Seq<Material>) -> Seq<MaterialView> {
    Seq::new(ms.len(), |i: int| ms[i]@)
}

pub open spec fn objects_view(os: Seq<Object>) -> Seq<ObjectView> {
    Seq::new(os.len(), |i: int| os[i]@)
}

impl View for ModelCrate {
    type V = CrateView;

    open spec fn view(&self) -> CrateView {
        CrateView {
            meshes: self.meshes@,
            transforms: self.transforms@,
            materials: materials_view(self.materials@),
            finalized: self.finalized,
            collider: self.collider,
            objects: objects_view(self.objects@),
        }
    }
}

/// The filter `f` picks the material `m`.
pub open spec fn filter_matches(f: FilterView, m: MaterialView) -> bool {
    match f {
        FilterView::All => true,
        FilterView::ByName { name } => m.name == name,
    }
}

/// The materials after each one that `f` picks was replaced by `by`.
pub open spec fn spec_override(ms: Seq<MaterialView>, f: FilterView, by: MaterialView) -> Seq<
    MaterialView,
> {
    Seq::new(
        ms.len(),
        |i: int|
            if filter_matches(f, ms[i]) {
                by
            } else {
                ms[i]
            },
    )
}

/// The size of a texture fitted into a square of side `max`: unchanged
/// where it fits, else scaled down so that its longer side is `max` and
/// its shorter side keeps the proportion, rounded down but not below 1.
pub open spec fn spec_cap(t: Texture, max: u32) -> Texture {
    if t.width <= max && t.height <= max {
        t
    } else if t.width >= t.height {
        Texture { width: max, height: scaled(t.height, max, t.width) }
    } else {
        Texture { width: scaled(t.width, max, t.height), height: max }
    }
}

/// `short * max / long`, but at least 1.
pub open spec fn scaled(short: u32, max: u32, long: u32) -> u32 {
    let q = (short as int * max as int) / (long as int);
    if q < 1 {
        1u32
    } else {
        q as u32
    }
}

pub open spec fn spec_cap_slot(slot: Option<Texture>, max: u32) -> Option<Texture> {
    match slot {
        Some(t) => Some(spec_cap(t, max)),
        None => None,
    }
}

pub open spec fn spec_cap_material(m: MaterialView, max: u32) -> MaterialView {
    MaterialView {
        name: m.name,
        textures: Seq::new(m.textures.len(), |i: int| spec_cap_slot(m.textures[i], max)),
    }
}

pub open spec fn spec_cap_all(ms: Seq<MaterialView>, max: u32) -> Seq<MaterialView> {
    Seq::new(ms.len(), |i: int| spec_cap_material(ms[i], max))
}

/// Some mesh has a triangle.
pub open spec fn has_triangles(meshes: Seq<Mesh>) -> bool {
    exists|i: int| 0 <= i < meshes.len() && (#[trigger] meshes[i]).triangles > 0
}

/// The position of the component called `name`, or the number of
/// components where there is none.
pub open spec fn component_position(cs: Seq<ComponentView>, name: Seq<char>) -> int {
    first_index(cs, |c: ComponentView| c.name == name)
}

/// The components after `c` was attached: it replaces the first component
/// of its name, or is added behind the others.
pub open spec fn spec_attach(cs: Seq<ComponentView>, c: ComponentView) -> Seq<ComponentView> {
    let p = component_position(cs, c.name);
    if 0 <= p < cs.len() {
        cs.update(p, c)
    } else {
        cs.push(c)
    }
}

/// The components after each of `extra` was attached, in order.
pub open spec fn spec_attach_all(cs: Seq<ComponentView>, extra: Seq<ComponentView>) -> Seq<
    ComponentView,
>
    decreases extra.len(),
{
    if extra.len() == 0 {
        cs
    } else {
        spec_attach(spec_attach_all(cs, extra.drop_last()), extra.last())
    }
}

/// A texture fitted into a square of side `max` fits into it, and keeps
/// its size where it fitted before.
pub proof fn lemma_cap_fits(t: Texture, max: u32)
    requires
        max > 0,
    ensures
        spec_cap(t, max).width <= max,
        spec_cap(t, max).height <= max,
        t.width <= max && t.height <= max ==> spec_cap(t, max) == t,
        t.width > 0 && t.height > 0 ==> spec_cap(t, max).width > 0 && spec_cap(t, max).height > 0,
{
    if !(t.width <= max && t.height <= max) {
        if t.width >= t.height {
            lemma_scaled_bound(t.height, max, t.width);
        } else {
            lemma_scaled_bound(t.width, max, t.height);
        }
    }
}

pub proof fn lemma_scaled_bound(short: u32, max: u32, long: u32)
    requires
        short <= long,
        long > 0,
        max > 0,
    ensures
        1 <= scaled(short, max, long) <= max,
        (short as int * max as int) / (long as int) <= max,
{
    let s = short as int;
    let m = max as int;
    let l = long as int;
    assert(s * m <= l * m) by (nonlinear_arith)
        requires
            s <= l,
            m > 0,
    ;
    assert((s * m) / l <= m) by (nonlinear_arith)
        requires
            s * m <= l * m,
            l > 0,
            s >= 0,
            m > 0,
    ;
    assert((s * m) / l >= 0) by (nonlinear_arith)
        requires
            s >= 0,
            m > 0,
            l > 0,
    ;
}

/// A copy of a material.
pub fn clone_material(m: &Material) -> (c: Material)
    ensures
        c@ == m@,
{
    Material { name: m.name.clone(), textures: m.textures.clone() }
}

/// A copy of a component.
pub fn clone_component(c: &Component) -> (d: Component)
    ensures
        d@ == c@,
{
    Component { name: c.name.clone(), value: c.value.clone() }
}

/// Tells whether `filter` picks `material`.
pub fn matches_filter(filter: &MaterialFilter, material: &Material) -> (b: bool)
    ensures
        b == filter_matches(filter@, material@),
{
    match filter {
        MaterialFilter::All => true,
        MaterialFilter::ByName { name } => material.name == *name,
    }
}

/// The size of `t` fitted into a square of side `max`.
pub fn cap_texture(t: Texture, max: u32) -> (c: Texture)
    ensures
        c == spec_cap(t, max),
{
    if t.width <= max && t.height <= max {
        t
    } else if t.width >= t.height {
        Texture { width: max, height: scale(t.height, max, t.width) }
    } else {
        Texture { width: scale(t.width, max, t.height), height: max }
    }
}

fn scale(short: u32, max: u32, long: u32) -> (q: u32)
    requires
        short <= long,
        long > 0,
    ensures
        q == scaled(short, max, long),
{
    if max == 0 {
        assert((short as int * 0) / (long as int) == 0) by (nonlinear_arith)
            requires
                long > 0,
        ;
        return 1;
    }
    proof {
        lemma_scaled_bound(short, max, long);
        assert(short as int * max as int <= 0xffff_ffff * 0xffff_ffff) by (nonlinear_arith)
            requires
                0 <= short <= 0xffff_ffff,
                0 <= max <= 0xffff_ffff,
        ;
    }
    let q: u64 = (short as u64 * max as u64) / (long as u64);
    if q < 1 {
        1
    } else {
        q as u32
    }
}

fn cap_slots(slots: &Vec<Option<Texture>>, max: u32) -> (out: Vec<Option<Texture>>)
    ensures
        out@ == Seq::new(slots@.len(), |i: int| spec_cap_slot(slots@[i], max)),
{
    let mut out: Vec<Option<Texture>> = Vec::new();
    let mut i: usize = 0;
    while i < slots.len()
        invariant
            i <= slots.len(),
            out@.len() == i,
            forall|k: int| 0 <= k < i ==> out@[k] == spec_cap_slot(slots@[k], max),
        decreases slots.len() - i,
    {
        let slot = match slots[i] {
            Some(t) => Some(cap_texture(t, max)),
            None => None,
        };
        out.push(slot);
        i += 1;
    }
    assert(out@ =~= Seq::new(slots@.len(), |i: int| spec_cap_slot(slots@[i], max)));
    out
}

/// Attaches `c` to the components `cs`.
pub fn attach(cs: &mut Vec<Component>, c: Component)
    ensures
        components_view(final(cs)@) == spec_attach(components_view(old(cs)@), c@),
{
    let ghost before = components_view(cs@);
    let mut k: usize = 0;
    while k < cs.len() && cs[k].name != c.name
        invariant
            k <= cs.len(),
            before == components_view(cs@),
            forall|j: int| 0 <= j < k ==> (#[trigger] before[j]).name != c.name@,
        decreases cs.len() - k,
    {
        k += 1;
    }
    proof {
        lemma_first_index(before, |x: ComponentView| x.name == c.name@, k as int);
    }
    let ghost cv = c@;
    if k < cs.len() {
        cs[k] = c;
        assert(components_view(cs@) =~= before.update(k as int, cv));
    } else {
        cs.push(c);
        assert(components_view(cs@) =~= before.push(cv));
    }
}

impl ModelCrate {
    /// A crate as an importer leaves it: with its meshes, materials and
    /// objects, no transform applied, not final and without a collider.
    pub fn new(meshes: Vec<Mesh>, materials: Vec<Material>, objects: Vec<Object>) -> (c: ModelCrate)
        ensures
            c.meshes == meshes,
            c.materials == materials,
            c.objects == objects,
            c.transforms@ == Seq::<ModelTransform>::empty(),
            !c.finalized,
            c.collider is None,
    {
        ModelCrate {
            meshes,
            transforms: Vec::new(),
            materials,
            finalized: false,
            collider: None,
            objects,
        }
    }

    /// A crate as an importer hands it on. An importer that has found no
    /// object to put under the root has failed.
    pub fn imported(meshes: Vec<Mesh>, materials: Vec<Material>, objects: Vec<Object>) -> (r:
        Result<ModelCrate, StructuralError>)
        ensures
            objects@.len() == 0 ==> r == Err::<ModelCrate, StructuralError>(
                StructuralError::MissingRootObject,
            ),
            objects@.len() > 0 ==> r is Ok && ({
                let c = r->Ok_0;
                &&& c.meshes == meshes
                &&& c.materials == materials
                &&& c.objects == objects
                &&& c.transforms@ == Seq::<ModelTransform>::empty()
                &&& !c.finalized
                &&& c.collider is None
            }),
    {
        if objects.len() == 0 {
            return Err(StructuralError::MissingRootObject);
        }
        Ok(ModelCrate::new(meshes, materials, objects))
    }

    /// Applies `transform` to the geometry, behind the transforms applied
    /// before. Final geometry refuses it.
    pub fn apply_transform(&mut self, transform: ModelTransform) -> (r: Result<(), StructuralError>)
        ensures
            old(self).finalized ==> r == Err::<(), StructuralError>(StructuralError::Finalized)
                && *final(self) == *old(self),
            !old(self).finalized ==> r is Ok && final(self)@ == (CrateView {
                transforms: old(self)@.transforms.push(transform),
                ..old(self)@
            }),
    {
        if self.finalized {
            return Err(StructuralError::Finalized);
        }
        self.transforms.push(transform);
        Ok(())
    }

    /// Replaces every material that `filter` picks by `material`.
    pub fn override_material(&mut self, filter: &MaterialFilter, material: &Material)
        ensures
            final(self)@ == (CrateView {
                materials: spec_override(old(self)@.materials, filter@, material@),
                ..old(self)@
            }),
    {
        let ghost before = materials_view(self.materials@);
        let mut i: usize = 0;
        while i < self.materials.len()
            invariant
                i <= self.materials.len(),
                self.materials@.len() == before.len(),
                self.meshes == old(self).meshes,
                self.transforms == old(self).transforms,
                self.finalized == old(self).finalized,
                self.collider == old(self).collider,
                self.objects == old(self).objects,
                before == materials_view(old(self).materials@),
                forall|k: int|
                    0 <= k < i ==> (#[trigger] self.materials@[k])@ == spec_override(
                        before,
                        filter@,
                        material@,
                    )[k],
                forall|k: int| i <= k < before.len() ==> (#[trigger] self.materials@[k])@ == before[k],
            decreases self.materials.len() - i,
        {
            if matches_filter(filter, &self.materials[i]) {
                self.materials[i] = clone_material(material);
            }
            i += 1;
        }
        assert(materials_view(self.materials@) =~= spec_override(before, filter@, material@));
    }

    /// Fits every texture into a square of side `max`.
    pub fn cap_texture_sizes(&mut self, max: u32)
        ensures
            final(self)@ == (CrateView {
                materials: spec_cap_all(old(self)@.materials, max),
                ..old(self)@
            }),
    {
        let ghost before = materials_view(self.materials@);
        let mut i: usize = 0;
        while i < self.materials.len()
            invariant
                i <= self.materials.len(),
                self.materials@.len() == before.len(),
                self.meshes == old(self).meshes,
                self.transforms == old(self).transforms,
                self.finalized == old(self).finalized,
                self.collider == old(self).collider,
                self.objects == old(self).objects,
                before == materials_view(old(self).materials@),
                forall|k: int|
                    0 <= k < i ==> (#[trigger] self.materials@[k])@ == spec_cap_material(
                        before[k],
                        max,
                    ),
                forall|k: int| i <= k < before.len() ==> (#[trigger] self.materials@[k])@ == before[k],
            decreases self.materials.len() - i,
        {
            let capped = cap_slots(&self.materials[i].textures, max);
            self.materials[i].textures = capped;
            i += 1;
        }
        assert(materials_view(self.materials@) =~= spec_cap_all(before, max));
    }

    /// Makes the geometry and material tables final.
    pub fn finalize_model(&mut self)
        ensures
            final(self)@ == (CrateView { finalized: true, ..old(self)@ }),
    {
        self.finalized = true;
    }

    /// Takes the collision shape from the geometry. Geometry without a
    /// triangle has none: the crate is then left as it is.
    pub fn create_collider_from_model(&mut self) -> (r: Result<(), StructuralError>)
        ensures
            has_triangles(old(self)@.meshes) ==> r is Ok && final(self)@ == (CrateView {
                collider: Some(ColliderShape::FromModel),
                ..old(self)@
            }),
            !has_triangles(old(self)@.meshes) ==> r == Err::<(), StructuralError>(
                StructuralError::DegenerateGeometry,
            ) && *final(self) == *old(self),
    {
        let mut i: usize = 0;
        while i < self.meshes.len()
            invariant
                i <= self.meshes.len(),
                *self == *old(self),
                forall|k: int| 0 <= k < i ==> (#[trigger] self.meshes@[k]).triangles == 0,
            decreases self.meshes.len() - i,
        {
            if self.meshes[i].triangles > 0 {
                self.collider = Some(ColliderShape::FromModel);
                return Ok(());
            }
            i += 1;
        }
        Err(StructuralError::DegenerateGeometry)
    }

    /// Gives the crate a capsule as its collision shape.
    pub fn create_character_collider(&mut self, radius: Option<Length>, height: Option<Length>)
        ensures
            final(self)@ == (CrateView {
                collider: Some(ColliderShape::Character { radius, height }),
                ..old(self)@
            }),
    {
        self.collider = Some(ColliderShape::Character { radius, height });
    }

    /// Tags the object of the crate, the first child of the root, with
    /// what collider it has. A root without a child has nothing to tag.
    pub fn add_component_to_object(&mut self, tag: ColliderTag) -> (r: Result<(), StructuralError>)
        ensures
            old(self)@.objects.len() > 0 ==> r is Ok && final(self)@ == (CrateView {
                objects: old(self)@.objects.update(
                    0,
                    ObjectView { collider: Some(tag), ..old(self)@.objects[0] },
                ),
                ..old(self)@
            }),
            old(self)@.objects.len() == 0 ==> r == Err::<(), StructuralError>(
                StructuralError::MissingRootObject,
            ) && *final(self) == *old(self),
    {
        if self.objects.len() == 0 {
            return Err(StructuralError::MissingRootObject);
        }
        self.objects[0].collider = Some(tag);
        assert(objects_view(self.objects@) =~= old(self)@.objects.update(
            0,
            ObjectView { collider: Some(tag), ..old(self)@.objects[0] },
        ));
        Ok(())
    }

    /// Attaches each of `extra`, in order, to the object of the crate, the
    /// first child of the root. A component replaces the one of its name.
    /// A root without a child has nothing to attach to.
    pub fn add_components(&mut self, extra: &Vec<Component>) -> (r: Result<(), StructuralError>)
        ensures
            old(self)@.objects.len() > 0 ==> r is Ok && final(self)@ == (CrateView {
                objects: old(self)@.objects.update(
                    0,
                    ObjectView {
                        components: spec_attach_all(
                            old(self)@.objects[0].components,
                            components_view(extra@),
                        ),
                        ..old(self)@.objects[0]
                    },
                ),
                ..old(self)@
            }),
            old(self)@.objects.len() == 0 ==> r == Err::<(), StructuralError>(
                StructuralError::MissingRootObject,
            ) && *final(self) == *old(self),
    {
        if self.objects.len() == 0 {
            return Err(StructuralError::MissingRootObject);
        }
        let ghost start = components_view(self.objects@[0].components@);
        let ghost ex = components_view(extra@);
        let mut cs: Vec<Component> = Vec::new();
        std::mem::swap(&mut cs, &mut self.objects[0].components);
        let mut i: usize = 0;
        assert(ex.take(0) =~= Seq::empty());
        while i < extra.len()
            invariant
                i <= extra.len(),
                ex == components_view(extra@),
                components_view(cs@) == spec_attach_all(start, ex.take(i as int)),
            decreases extra.len() - i,
        {
            proof {
                assert(ex.take(i + 1).drop_last() =~= ex.take(i as int));
                assert(ex.take(i + 1).last() == extra@[i as int]@);
            }
            attach(&mut cs, clone_component(&extra[i]));
            i += 1;
        }
        assert(ex.take(extra.len() as int) =~= ex);
        self.objects[0].components = cs;
        assert(objects_view(self.objects@) =~= old(self)@.objects.update(
            0,
            ObjectView {
                components: spec_attach_all(start, ex),
                ..old(self)@.objects[0]
            },
        ));
        Ok(())
    }
}

} // verus!
