//! Output assets: what a build emits, and the collection that gathers the
//! variants of one package.

use vstd::prelude::*;
use crate::asset_url::{scheme_len, AbsoluteUrl};
use crate::text::{from_chars, to_chars};

verus! {

/// What kind of thing an asset is.
#[derive(Clone, Copy, Debug, PartialEq, Eq, Structural)]
pub enum AssetType {
    Object,
    Model,
    Animation,
    Image,
    Material,
    Collider,
}

/// What an asset holds.
#[derive(Clone, Debug, PartialEq, Eq)]
pub enum OutAssetContent {
    /// The URL of the artifact.
    Content(String),
    /// The identifiers of the assets that the collection gathers.
    Collection(Vec<String>),
}

pub enum ContentView {
    Content(Seq<char>),
    Collection(Seq<Seq<char>>),
}

pub open spec fn texts_view(ts: Seq<String>) -> Seq<Seq<char>> {
    Seq::new(ts.len(), |i: int| ts[i]@)
}

impl View for OutAssetContent {
    type V = ContentView;

    open spec fn view(&self) -> ContentView {
        match self {
            OutAssetContent::Content(url) => ContentView::Content(url@),
            OutAssetContent::Collection(ids) => ContentView::Collection(texts_view(ids@)),
        }
    }
}

/// How an asset is shown in a browser of assets.
#[derive(Clone, Debug, PartialEq, Eq)]
pub enum OutAssetPreview {
    /// It has no preview.
    Plain,
    /// It is shown as the model at this URL.
    FromModel { url: String },
    /// It is shown as the image at this URL.
    Image { url: String },
}

pub enum PreviewView {
    Plain,
    FromModel { url: Seq<char> },
    Image { url: Seq<char> },
}

impl View for OutAssetPreview {
    type V = PreviewView;

    open spec fn view(&self) -> PreviewView {
        match self {
            OutAssetPreview::Plain => PreviewView::Plain,
            OutAssetPreview::FromModel { url } => PreviewView::FromModel { url: url@ },
            OutAssetPreview::Image { url } => PreviewView::Image { url: url@ },
        }
    }
}

/// One asset that a build has emitted.
#[derive(Clone, Debug, PartialEq, Eq)]
pub struct OutAsset {
    /// The identifier, made from the place the asset is written to.
    pub id: String,
    pub type_: AssetType,
    /// An asset that is hidden is reached through its collection only.
    pub hidden: bool,
    pub name: String,
    pub tags: Vec<String>,
    pub categories: Vec<String>,
    pub preview: OutAssetPreview,
    pub content: OutAssetContent,
    /// Where the asset was imported from.
    pub source: Option<String>,
}

pub struct OutAssetView {
    pub id: Seq<char>,
    pub type_: AssetType,
    pub hidden: bool,
    pub name: Seq<char>,
    pub tags: Seq<Seq<char>>,
    pub categories: Seq<Seq<char>>,
    pub preview: PreviewView,
    pub content: ContentView,
    pub source: Option<Seq<char>>,
}

impl View for OutAsset {
    type V = OutAssetView;

    open spec fn view(&self) -> OutAssetView {
        OutAssetView {
            id: self.id@,
            type_: self.type_,
            hidden: self.hidden,
            name: self.name@,
            tags: texts_view(self.tags@),
            categories: texts_view(self.categories@),
            preview: self.preview@,
            content: self.content@,
            source: match self.source {
                Some(s) => Some(s@),
                None => None,
            },
        }
    }
}

pub open spec fn assets_view(assets: Seq<OutAsset>) -> Seq<OutAssetView> {
    Seq::new(assets.len(), |i: int| assets[i]@)
}

pub open spec fn is_id_char(c: char) -> bool {
    ('a' <= c && c <= 'z') || ('A' <= c && c <= 'Z') || ('0' <= c && c <= '9')
}

/// The identifier of the asset written to `url`: what follows the `://` of
/// the URL, with `_` in place of every character that is no ASCII letter
/// or digit.
pub open spec fn spec_asset_id(url: Seq<char>) -> Seq<char> {
    let place = url.skip(scheme_len(url) + 3);
    Seq::new(
        place.len(),
        |i: int|
            if is_id_char(place[i]) {
                place[i]
            } else {
                '_'
            },
    )
}

/// The identifier of the asset written to `url`. It depends on the URL
/// alone: a build that writes to the same places names its assets alike.
pub fn asset_id_from_url(url: &AbsoluteUrl) -> (id: String)
    ensures
        id@ == spec_asset_id(url@),
{
    let text = to_chars(url.as_str());
    let from = url.scheme_length() + 3;
    let mut out: Vec<char> = Vec::new();
    let mut i: usize = from;
    let ghost place = text@.skip(from as int);
    while i < text.len()
        invariant
            from <= i <= text.len(),
            place == text@.skip(from as int),
            out@.len() == i - from,
            forall|k: int|
                0 <= k < i - from ==> out@[k] == (if is_id_char(place[k]) {
                    place[k]
                } else {
                    '_'
                }),
        decreases text.len() - i,
    {
        let c = text[i];
        if ('a' <= c && c <= 'z') || ('A' <= c && c <= 'Z') || ('0' <= c && c <= '9') {
            out.push(c);
        } else {
            out.push('_');
        }
        i += 1;
    }
    assert(out@ =~= spec_asset_id(url@));
    from_chars(&out)
}

/// The assets, each hidden.
pub open spec fn spec_hide(assets: Seq<OutAssetView>) -> Seq<OutAssetView> {
    Seq::new(assets.len(), |i: int| OutAssetView { hidden: true, ..assets[i] })
}

/// The identifiers of the assets, in order.
pub open spec fn spec_ids(assets: Seq<OutAssetView>) -> Seq<Seq<char>> {
    Seq::new(assets.len(), |i: int| assets[i].id)
}

/// The collection of `assets`: a visible object asset with the identifier
/// `id` and the name `package`, whose content lists the assets.
pub open spec fn spec_collection(assets: Seq<OutAssetView>, id: Seq<char>, package: Seq<char>) -> OutAssetView {
    OutAssetView {
        id,
        type_: AssetType::Object,
        hidden: false,
        name: package,
        tags: Seq::empty(),
        categories: Seq::empty(),
        preview: PreviewView::Plain,
        content: ContentView::Collection(spec_ids(assets)),
        source: None,
    }
}

/// What a build emits for the assets that its importer produced: the
/// assets as they are; or, where a collection of variants is asked for and
/// there is more than one asset, the assets hidden and their collection
/// behind them.
pub open spec fn spec_emit(
    collect: bool,
    assets: Seq<OutAssetView>,
    id: Seq<char>,
    package: Seq<char>,
) -> Seq<OutAssetView> {
    if collect && assets.len() > 1 {
        spec_hide(assets).push(spec_collection(assets, id, package))
    } else {
        assets
    }
}

/// A collection of variants comes behind its members, which are all
/// hidden and otherwise unchanged; it is visible, carries the name of the
/// package, and lists exactly its members: each identifier in its content
/// is that of the asset emitted at the same position before it.
pub proof fn lemma_collection(
    assets: Seq<OutAssetView>,
    id: Seq<char>,
    package: Seq<char>,
)
    requires
        assets.len() > 1,
    ensures
        ({
            let out = spec_emit(true, assets, id, package);
            let n = assets.len() as int;
            &&& out.len() == n + 1
            &&& forall|i: int|
                0 <= i < n ==> (#[trigger] out[i]).hidden && out[i] == (OutAssetView {
                    hidden: true,
                    ..assets[i]
                })
            &&& !out[n].hidden
            &&& out[n].name == package
            &&& out[n].id == id
            &&& out[n].content matches ContentView::Collection(ids)
            &&& ids.len() == n
            &&& forall|i: int| 0 <= i < n ==> #[trigger] ids[i] == out[i].id
        }),
{
}

/// Without a collection the assets are emitted as they are.
pub proof fn lemma_no_collection(
    collect: bool,
    assets: Seq<OutAssetView>,
    id: Seq<char>,
    package: Seq<char>,
)
    requires
        !collect || assets.len() <= 1,
    ensures
        spec_emit(collect, assets, id, package) == assets,
{
}

} // verus!
