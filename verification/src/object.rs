//! Composite objects: documents that are loaded by URL and whose references
//! to models, colliders and decals are resolved against the place the
//! document came from.

use vstd::prelude::*;
use vstd::string::StringExecFns;
use crate::asset_url::{
    is_absolute, lemma_prefix_absolute, lemma_resolve_absolute, lemma_scheme_found, resolve,
    scheme_len, scheme_sep, spec_parse_absolute, spec_resolve, AbsoluteUrl, UrlError,
};
use crate::seq_util::{first_index, lemma_first_index, lemma_first_index_found};
use crate::text::{ends_with, has_suffix, occurs_at, to_chars};

verus! {

/// The name of the document inside an object's package.
pub const MANIFEST_NAME: &'static str = "/objects/main.json";

pub open spec fn manifest_name() -> Seq<char> {
    "/objects/main.json"@
}

/// The URL of the document of the object at `url`: `url` itself where it
/// already ends with the manifest name, else `url` followed by it.
pub open spec fn spec_manifest_url(url: Seq<char>) -> Seq<char> {
    if ends_with(url, manifest_name()) {
        url
    } else {
        url + manifest_name()
    }
}

/// The origin of the document at `manifest`: the directory of the package,
/// which is the manifest's URL without `objects/main.json`.
pub open spec fn spec_origin(manifest: Seq<char>) -> Seq<char> {
    manifest.take(manifest.len() - (manifest_name().len() - 1))
}

/// The URL of the document of the object at `url`.
pub fn manifest_url(url: &str) -> (m: String)
    ensures
        m@ == spec_manifest_url(url@),
{
    let chars = to_chars(url);
    let suffix = to_chars(MANIFEST_NAME);
    if has_suffix(&chars, &suffix) {
        url.to_owned()
    } else {
        url.to_owned().concat(MANIFEST_NAME)
    }
}

/// The references that one entity of a composite object holds.
#[derive(Clone, Debug, PartialEq, Eq)]
pub struct ObjectRefs {
    /// Where the entity's model is.
    pub model: Option<String>,
    /// Where the entity's collider asset is, if it has one.
    pub collider: Option<String>,
    /// Where the entity's decal material is.
    pub decal: Option<String>,
}

pub struct RefsView {
    pub model: Option<Seq<char>>,
    pub collider: Option<Seq<char>>,
    pub decal: Option<Seq<char>>,
}

pub open spec fn opt_view(o: Option<String>) -> Option<Seq<char>> {
    match o {
        Some(s) => Some(s@),
        None => None,
    }
}

impl View for ObjectRefs {
    type V = RefsView;

    open spec fn view(&self) -> RefsView {
        RefsView {
            model: opt_view(self.model),
            collider: opt_view(self.collider),
            decal: opt_view(self.decal),
        }
    }
}

pub open spec fn column_view(c: Seq<Option<String>>) -> Seq<Option<Seq<char>>> {
    Seq::new(c.len(), |i: int| opt_view(c[i]))
}

pub open spec fn entities_view(es: Seq<ObjectRefs>) -> Seq<RefsView> {
    Seq::new(es.len(), |i: int| es[i]@)
}

/// A fetched and decoded composite object, before its references are
/// resolved.
#[derive(Clone, Debug, PartialEq, Eq)]
pub struct ObjectDefinition {
    pub entities: Vec<ObjectRefs>,
    /// What the decoder found wrong without giving up. Never fatal.
    pub warnings: Vec<String>,
}

/// A composite object whose references are all absolute URLs.
#[derive(Clone, Debug, PartialEq, Eq)]
pub struct ResolvedObject {
    pub entities: Vec<ObjectRefs>,
    /// The warnings of the definition, handed on for logging.
    pub warnings: Vec<String>,
}

/// Why the document of an object could not be had.
#[derive(Clone, Copy, Debug, PartialEq, Eq, Structural)]
pub enum FetchError {
    /// The bytes could not be fetched.
    Unavailable,
    /// The bytes are no composite object.
    Undecodable,
}

/// Why a composite object could not be loaded.
#[derive(Clone, Copy, Debug, PartialEq, Eq, Structural)]
pub enum LoadError {
    /// The object's own URL is no absolute URL.
    Url(UrlError),
    /// The document could not be fetched.
    Fetch,
    /// The document could not be decoded.
    Deserialize,
    /// The model reference of entity `entity` does not resolve.
    Model { entity: usize, cause: UrlError },
    /// The collider reference of entity `entity` does not resolve.
    Collider { entity: usize, cause: UrlError },
    /// The decal reference of entity `entity` does not resolve.
    Decal { entity: usize, cause: UrlError },
}

/// One optional reference resolved against `origin`.
pub open spec fn resolve_opt(r: Option<Seq<char>>, origin: Seq<char>) -> Result<
    Option<Seq<char>>,
    UrlError,
> {
    match r {
        None => Ok(None),
        Some(t) => match spec_resolve(t, origin) {
            Ok(u) => Ok(Some(u)),
            Err(e) => Err(e),
        },
    }
}

/// The references of `column` resolved against `origin`, in order, or the
/// position and cause of the first that does not resolve.
pub open spec fn resolve_column(column: Seq<Option<Seq<char>>>, origin: Seq<char>) -> Result<
    Seq<Option<Seq<char>>>,
    (int, UrlError),
>
    decreases column.len(),
{
    if column.len() == 0 {
        Ok(Seq::empty())
    } else {
        match resolve_column(column.drop_last(), origin) {
            Err(e) => Err(e),
            Ok(done) => match resolve_opt(column.last(), origin) {
                Ok(u) => Ok(done.push(u)),
                Err(e) => Err((column.len() - 1, e)),
            },
        }
    }
}

pub open spec fn models(es: Seq<RefsView>) -> Seq<Option<Seq<char>>> {
    Seq::new(es.len(), |i: int| es[i].model)
}

pub open spec fn colliders(es: Seq<RefsView>) -> Seq<Option<Seq<char>>> {
    Seq::new(es.len(), |i: int| es[i].collider)
}

pub open spec fn decals(es: Seq<RefsView>) -> Seq<Option<Seq<char>>> {
    Seq::new(es.len(), |i: int| es[i].decal)
}

pub open spec fn zip(
    ms: Seq<Option<Seq<char>>>,
    cs: Seq<Option<Seq<char>>>,
    ds: Seq<Option<Seq<char>>>,
) -> Seq<RefsView> {
    Seq::new(ms.len(), |i: int| RefsView { model: ms[i], collider: cs[i], decal: ds[i] })
}

/// The entities with every reference resolved against `origin`: first all
/// models, then all colliders, then all decals. The first reference that
/// does not resolve, in that order, fails the whole.
pub open spec fn spec_resolve_entities(es: Seq<RefsView>, origin: Seq<char>) -> Result<
    Seq<RefsView>,
    LoadError,
> {
    match resolve_column(models(es), origin) {
        Err((i, e)) => Err(LoadError::Model { entity: i as usize, cause: e }),
        Ok(ms) => match resolve_column(colliders(es), origin) {
            Err((i, e)) => Err(LoadError::Collider { entity: i as usize, cause: e }),
            Ok(cs) => match resolve_column(decals(es), origin) {
                Err((i, e)) => Err(LoadError::Decal { entity: i as usize, cause: e }),
                Ok(ds) => Ok(zip(ms, cs, ds)),
            },
        },
    }
}

/// What loading the object at `url` gives, `fetched` being what fetching
/// and decoding its document gave.
pub open spec fn spec_load(url: Seq<char>, fetched: Result<Seq<RefsView>, FetchError>) -> Result<
    Seq<RefsView>,
    LoadError,
> {
    match spec_parse_absolute(spec_manifest_url(url)) {
        Err(e) => Err(LoadError::Url(e)),
        Ok(manifest) => match fetched {
            Err(FetchError::Unavailable) => Err(LoadError::Fetch),
            Err(FetchError::Undecodable) => Err(LoadError::Deserialize),
            Ok(es) => spec_resolve_entities(es, spec_origin(manifest)),
        },
    }
}

pub open spec fn fetched_view(fetched: Result<ObjectDefinition, FetchError>) -> Result<
    Seq<RefsView>,
    FetchError,
> {
    match fetched {
        Ok(d) => Ok(entities_view(d.entities@)),
        Err(e) => Err(e),
    }
}

/// An error in a prefix of a column is the error of the whole column.
pub proof fn lemma_column_error(column: Seq<Option<Seq<char>>>, origin: Seq<char>, n: int)
    requires
        0 <= n <= column.len(),
        resolve_column(column.take(n), origin) is Err,
    ensures
        resolve_column(column, origin) == resolve_column(column.take(n), origin),
    decreases column.len() - n,
{
    if n < column.len() {
        assert(column.take(n + 1).drop_last() =~= column.take(n));
        lemma_column_error(column, origin, n + 1);
    } else {
        assert(column.take(n) =~= column);
    }
}

/// A resolved column is as long as the column, and holds absolute URLs
/// where the origin is one.
pub proof fn lemma_column_resolved(column: Seq<Option<Seq<char>>>, origin: Seq<char>)
    requires
        resolve_column(column, origin) is Ok,
    ensures
        resolve_column(column, origin)->Ok_0.len() == column.len(),
        forall|i: int|
            0 <= i < column.len() ==> (#[trigger] resolve_column(column, origin)->Ok_0[i] is Some
                <==> column[i] is Some),
        is_absolute(origin) ==> forall|i: int|
            0 <= i < column.len() ==> (#[trigger] resolve_column(column, origin)->Ok_0[i]
                matches Some(u) ==> is_absolute(u)),
    decreases column.len(),
{
    if column.len() > 0 {
        lemma_column_resolved(column.drop_last(), origin);
        if is_absolute(origin) && column.last() is Some {
            lemma_resolve_absolute(column.last()->Some_0, origin);
        }
    }
}

fn resolve_all(column: &Vec<Option<String>>, origin: &AbsoluteUrl) -> (r: Result<
    Vec<Option<String>>,
    (usize, UrlError),
>)
    ensures
        match r {
            Ok(v) => resolve_column(column_view(column@), origin@) == Ok::<
                Seq<Option<Seq<char>>>,
                (int, UrlError),
            >(column_view(v@)),
            Err((i, e)) => resolve_column(column_view(column@), origin@) == Err::<
                Seq<Option<Seq<char>>>,
                (int, UrlError),
            >((i as int, e)),
        },
{
    let ghost col = column_view(column@);
    let mut out: Vec<Option<String>> = Vec::new();
    let mut i: usize = 0;
    assert(col.take(0) =~= Seq::empty());
    assert(column_view(out@) =~= Seq::empty());
    while i < column.len()
        invariant
            i <= column.len(),
            col == column_view(column@),
            resolve_column(col.take(i as int), origin@) == Ok::<
                Seq<Option<Seq<char>>>,
                (int, UrlError),
            >(column_view(out@)),
        decreases column.len() - i,
    {
        proof {
            assert(col.take(i + 1).drop_last() =~= col.take(i as int));
            assert(col.take(i + 1).last() == opt_view(column@[i as int]));
        }
        let ghost before = column_view(out@);
        match &column[i] {
            None => {
                out.push(None);
                assert(column_view(out@) =~= before.push(None));
            },
            Some(text) => match resolve(text.as_str(), origin) {
                Ok(url) => {
                    let owned = url.as_str().to_owned();
                    out.push(Some(owned));
                    assert(column_view(out@) =~= before.push(Some(url@)));
                },
                Err(e) => {
                    proof {
                        lemma_column_error(col, origin@, i + 1);
                    }
                    return Err((i, e));
                },
            },
        }
        i += 1;
    }
    assert(col.take(column.len() as int) =~= col);
    Ok(out)
}

/// A text followed by a suffix ends with that suffix.
pub proof fn lemma_ends_with_appended(s: Seq<char>, suffix: Seq<char>)
    ensures
        ends_with(s + suffix, suffix),
{
    let whole = s + suffix;
    assert(whole.subrange(whole.len() - suffix.len(), whole.len() as int) =~= suffix);
}

/// The URL of an object's document ends with the manifest name.
pub proof fn lemma_manifest_suffix(url: Seq<char>)
    ensures
        ends_with(spec_manifest_url(url), manifest_name()),
{
    lemma_ends_with_appended(url, manifest_name());
}

/// The origin of a document lies behind the `://` of the document's URL.
proof fn lemma_origin_keeps_scheme(manifest: Seq<char>)
    requires
        is_absolute(manifest),
        ends_with(manifest, manifest_name()),
    ensures
        manifest_name().len() == 18,
        scheme_len(manifest) + 3 + 17 <= manifest.len(),
{
    reveal_strlit("/objects/main.json");
    let name = manifest_name();
    let n = manifest.len() as int;
    let i = scheme_len(manifest);
    lemma_scheme_found(manifest);
    let sep = scheme_sep();
    assert(occurs_at(manifest, sep, i));
    assert(sep.len() == 3);
    assert(manifest.subrange(i, i + 3)[1] == sep[1]);
    assert(manifest.subrange(i, i + 3)[2] == sep[2]);
    assert(manifest[i + 1] == '/');
    assert(manifest[i + 2] == '/');
    let tail = manifest.subrange(n - 18, n);
    assert(tail == name);
    if i + 3 + 17 > n {
        let k = i + 2 - (n - 18);
        assert(1 <= k <= 17);
        assert(tail[k] == manifest[i + 2]);
        assert(tail[k - 1] == manifest[i + 1]);
        assert(name[0] == '/');
        assert(name[1] == 'o');
        assert(name[2] == 'b');
        assert(name[3] == 'j');
        assert(name[4] == 'e');
        assert(name[5] == 'c');
        assert(name[6] == 't');
        assert(name[7] == 's');
        assert(name[8] == '/');
        assert(name[9] == 'm');
        assert(name[10] == 'a');
        assert(name[11] == 'i');
        assert(name[12] == 'n');
        assert(name[13] == '.');
        assert(name[14] == 'j');
        assert(name[15] == 's');
        assert(name[16] == 'o');
        assert(name[17] == 'n');
        assert(false);
    }
}

fn origin_of(manifest: &AbsoluteUrl) -> (o: AbsoluteUrl)
    requires
        ends_with(manifest@, manifest_name()),
    ensures
        o@ == spec_origin(manifest@),
{
    // The text of a URL is known to be an absolute URL.
    let text = manifest.as_str();
    proof {
        lemma_origin_keeps_scheme(text@);
    }
    match manifest.without_last(17) {
        Some(o) => o,
        None => manifest.clone(),
    }
}

fn clone_opt(o: &Option<String>) -> (r: Option<String>)
    ensures
        r == *o,
{
    match o {
        Some(s) => Some(s.clone()),
        None => None,
    }
}

/// The object at a URL, as a key under which it is loaded and cached.
#[derive(Clone, Debug, PartialEq, Eq)]
pub struct ObjectFromUrl(pub String);

/// The URL of the document of the object at `url`, as an absolute URL.
pub open spec fn spec_manifest(url: Seq<char>) -> Result<Seq<char>, LoadError> {
    match spec_parse_absolute(spec_manifest_url(url)) {
        Ok(m) => Ok(m),
        Err(e) => Err(LoadError::Url(e)),
    }
}

impl ObjectFromUrl {
    /// The absolute URL from which the object's document is fetched.
    pub fn manifest(&self) -> (r: Result<AbsoluteUrl, LoadError>)
        ensures
            match r {
                Ok(m) => spec_manifest(self.0@) == Ok::<Seq<char>, LoadError>(m@),
                Err(e) => spec_manifest(self.0@) == Err::<Seq<char>, LoadError>(e),
            },
    {
        let text = manifest_url(self.0.as_str());
        match AbsoluteUrl::parse(text.as_str()) {
            Ok(m) => Ok(m),
            Err(e) => Err(LoadError::Url(e)),
        }
    }

    /// Loads the object, `fetched` being what fetching and decoding the
    /// document at `self.manifest()` gave.
    ///
    /// Every model, collider and decal reference of the document is
    /// resolved against the document's origin. One that does not resolve
    /// fails the load; the warnings of the decoder never do.
    pub fn load(&self, fetched: Result<ObjectDefinition, FetchError>) -> (r: Result<
        ResolvedObject,
        LoadError,
    >)
        ensures
            match r {
                Ok(w) => {
                    &&& spec_load(self.0@, fetched_view(fetched)) == Ok::<Seq<RefsView>, LoadError>(
                        entities_view(w.entities@),
                    )
                    &&& fetched matches Ok(d) && w.warnings == d.warnings
                },
                Err(e) => spec_load(self.0@, fetched_view(fetched)) == Err::<
                    Seq<RefsView>,
                    LoadError,
                >(e),
            },
    {
        let manifest = match self.manifest() {
            Ok(m) => m,
            Err(e) => {
                return Err(e);
            },
        };
        let definition = match fetched {
            Ok(d) => d,
            Err(FetchError::Unavailable) => {
                return Err(LoadError::Fetch);
            },
            Err(FetchError::Undecodable) => {
                return Err(LoadError::Deserialize);
            },
        };
        proof {
            lemma_manifest_suffix(self.0@);
        }
        let origin = origin_of(&manifest);
        let ghost es = entities_view(definition.entities@);
        let entities = &definition.entities;
        let mut ms: Vec<Option<String>> = Vec::new();
        let mut cs: Vec<Option<String>> = Vec::new();
        let mut ds: Vec<Option<String>> = Vec::new();
        let mut i: usize = 0;
        while i < entities.len()
            invariant
                i <= entities.len(),
                ms@.len() == i,
                cs@.len() == i,
                ds@.len() == i,
                forall|k: int| 0 <= k < i ==> ms@[k] == entities@[k].model,
                forall|k: int| 0 <= k < i ==> cs@[k] == entities@[k].collider,
                forall|k: int| 0 <= k < i ==> ds@[k] == entities@[k].decal,
            decreases entities.len() - i,
        {
            ms.push(clone_opt(&entities[i].model));
            cs.push(clone_opt(&entities[i].collider));
            ds.push(clone_opt(&entities[i].decal));
            i += 1;
        }
        proof {
            assert(column_view(ms@) =~= models(es));
            assert(column_view(cs@) =~= colliders(es));
            assert(column_view(ds@) =~= decals(es));
        }
        let ms = match resolve_all(&ms, &origin) {
            Ok(v) => v,
            Err((i, e)) => {
                return Err(LoadError::Model { entity: i, cause: e });
            },
        };
        let cs = match resolve_all(&cs, &origin) {
            Ok(v) => v,
            Err((i, e)) => {
                return Err(LoadError::Collider { entity: i, cause: e });
            },
        };
        let ds = match resolve_all(&ds, &origin) {
            Ok(v) => v,
            Err((i, e)) => {
                return Err(LoadError::Decal { entity: i, cause: e });
            },
        };
        proof {
            lemma_column_resolved(models(es), origin@);
            lemma_column_resolved(colliders(es), origin@);
            lemma_column_resolved(decals(es), origin@);
        }
        let mut out: Vec<ObjectRefs> = Vec::new();
        let mut k: usize = 0;
        while k < ms.len()
            invariant
                k <= ms.len(),
                ms@.len() == cs@.len(),
                ms@.len() == ds@.len(),
                out@.len() == k,
                forall|j: int|
                    0 <= j < k ==> #[trigger] out@[j]@ == (RefsView {
                        model: opt_view(ms@[j]),
                        collider: opt_view(cs@[j]),
                        decal: opt_view(ds@[j]),
                    }),
            decreases ms.len() - k,
        {
            out.push(
                ObjectRefs {
                    model: clone_opt(&ms[k]),
                    collider: clone_opt(&cs[k]),
                    decal: clone_opt(&ds[k]),
                },
            );
            k += 1;
        }
        proof {
            assert(entities_view(out@) =~= zip(
                column_view(ms@),
                column_view(cs@),
                column_view(ds@),
            ));
        }
        Ok(ResolvedObject { entities: out, warnings: definition.warnings })
    }
}

/// The origin of a document whose URL is absolute is an absolute URL.
pub proof fn lemma_origin_absolute(manifest: Seq<char>)
    requires
        is_absolute(manifest),
        ends_with(manifest, manifest_name()),
    ensures
        is_absolute(spec_origin(manifest)),
{
    lemma_origin_keeps_scheme(manifest);
    lemma_prefix_absolute(manifest, manifest.len() - 17);
}

/// Every reference of a loaded object is a well-formed absolute URL.
pub proof fn lemma_loaded_is_resolved(url: Seq<char>, fetched: Result<Seq<RefsView>, FetchError>)
    requires
        spec_load(url, fetched) is Ok,
    ensures
        ({
            let es = spec_load(url, fetched)->Ok_0;
            &&& es.len() == fetched->Ok_0.len()
            &&& forall|i: int|
                0 <= i < es.len() ==> {
                    &&& (#[trigger] es[i]).model matches Some(u) ==> is_absolute(u)
                    &&& es[i].collider matches Some(u) ==> is_absolute(u)
                    &&& es[i].decal matches Some(u) ==> is_absolute(u)
                }
        }),
{
    let manifest = spec_manifest_url(url);
    lemma_manifest_suffix(url);
    lemma_origin_absolute(manifest);
    let origin = spec_origin(manifest);
    let input = fetched->Ok_0;
    lemma_column_resolved(models(input), origin);
    lemma_column_resolved(colliders(input), origin);
    lemma_column_resolved(decals(input), origin);
}

/// An entity that asks for the object at a URL.
#[derive(Clone, Debug, PartialEq, Eq)]
pub struct LoadRequest {
    pub entity: u64,
    pub url: String,
}

pub struct RequestView {
    pub entity: u64,
    pub url: Seq<char>,
}

impl View for LoadRequest {
    type V = RequestView;

    open spec fn view(&self) -> RequestView {
        RequestView { entity: self.entity, url: self.url@ }
    }
}

/// The entities that wait for the object of one document.
#[derive(Clone, Debug, PartialEq, Eq)]
pub struct LoadBatch {
    /// The URL of the document.
    pub url: String,
    /// The entities that asked for it, in the order in which they asked.
    pub entities: Vec<u64>,
}

pub struct BatchView {
    pub url: Seq<char>,
    pub entities: Seq<u64>,
}

impl View for LoadBatch {
    type V = BatchView;

    open spec fn view(&self) -> BatchView {
        BatchView { url: self.url@, entities: self.entities@ }
    }
}

pub open spec fn requests_view(rs: Seq<LoadRequest>) -> Seq<RequestView> {
    Seq::new(rs.len(), |i: int| rs[i]@)
}

pub open spec fn batches_view(bs: Seq<LoadBatch>) -> Seq<BatchView> {
    Seq::new(bs.len(), |i: int| bs[i]@)
}

/// The position of the first batch for `url`, or the number of batches
/// where there is none.
pub open spec fn position(batches: Seq<BatchView>, url: Seq<char>) -> int {
    first_index(batches, |b: BatchView| b.url == url)
}

/// The batches after `entity` asked for the document at `url`: it joins the
/// batch of that document, or starts a new one behind the others.
pub open spec fn add_request(batches: Seq<BatchView>, url: Seq<char>, entity: u64) -> Seq<
    BatchView,
> {
    let p = position(batches, url);
    if 0 <= p < batches.len() {
        batches.update(p, BatchView { url, entities: batches[p].entities.push(entity) })
    } else {
        batches.push(BatchView { url, entities: seq![entity] })
    }
}

/// The batches that the requests of one tick make: one for each document,
/// in the order in which the documents were first asked for.
pub open spec fn spec_coalesce(requests: Seq<RequestView>) -> Seq<BatchView>
    decreases requests.len(),
{
    if requests.len() == 0 {
        Seq::empty()
    } else {
        add_request(
            spec_coalesce(requests.drop_last()),
            spec_manifest_url(requests.last().url),
            requests.last().entity,
        )
    }
}

/// No two batches are for the same document.
pub open spec fn distinct_urls(batches: Seq<BatchView>) -> bool {
    forall|i: int, j: int|
        0 <= i < j < batches.len() ==> (#[trigger] batches[i]).url != (#[trigger] batches[j]).url
}

/// Where no batch before `k` is for `url`, and `k` is one or the end, `k` is
/// the position of `url`.
pub proof fn lemma_position(batches: Seq<BatchView>, url: Seq<char>, k: int)
    requires
        0 <= k <= batches.len(),
        forall|j: int| 0 <= j < k ==> (#[trigger] batches[j]).url != url,
        k == batches.len() || batches[k].url == url,
    ensures
        position(batches, url) == k,
{
    lemma_first_index(batches, |b: BatchView| b.url == url, k);
}

/// The position of `url` is in range, names a batch for `url` where it is
/// below the number of batches, and no batch is for `url` where it is not.
pub proof fn lemma_position_found(batches: Seq<BatchView>, url: Seq<char>)
    ensures
        0 <= position(batches, url) <= batches.len(),
        position(batches, url) < batches.len() ==> batches[position(batches, url)].url == url,
        forall|j: int| 0 <= j < position(batches, url) ==> (#[trigger] batches[j]).url != url,
{
    lemma_first_index_found(batches, |b: BatchView| b.url == url);
}

/// Requests for one document end in one batch: no two batches are for the
/// same document.
pub proof fn lemma_coalesce_distinct(requests: Seq<RequestView>)
    ensures
        distinct_urls(spec_coalesce(requests)),
    decreases requests.len(),
{
    if requests.len() > 0 {
        let before = spec_coalesce(requests.drop_last());
        lemma_coalesce_distinct(requests.drop_last());
        let url = spec_manifest_url(requests.last().url);
        lemma_position_found(before, url);
        let after = spec_coalesce(requests);
        assert forall|i: int, j: int| 0 <= i < j < after.len() implies (#[trigger] after[i]).url != (
        #[trigger] after[j]).url by {
            if i < before.len() && j < before.len() {
                assert(before[i].url != before[j].url);
            }
        }
    }
}

/// Every request is served: the batch for its document holds its entity.
pub proof fn lemma_coalesce_complete(requests: Seq<RequestView>, r: int)
    requires
        0 <= r < requests.len(),
    ensures
        ({
            let batches = spec_coalesce(requests);
            let p = position(batches, spec_manifest_url(requests[r].url));
            &&& 0 <= p < batches.len()
            &&& batches[p].url == spec_manifest_url(requests[r].url)
            &&& batches[p].entities.contains(requests[r].entity)
        }),
    decreases requests.len(),
{
    let before = spec_coalesce(requests.drop_last());
    let last_url = spec_manifest_url(requests.last().url);
    let url = spec_manifest_url(requests[r].url);
    let after = spec_coalesce(requests);
    lemma_position_found(before, last_url);
    let p = position(before, last_url);
    if r == requests.len() - 1 {
        if p < before.len() {
            lemma_position(after, url, p);
            assert(after[p].entities.last() == requests[r].entity);
        } else {
            lemma_position(after, url, before.len() as int);
            assert(after[before.len() as int].entities[0] == requests[r].entity);
        }
    } else {
        lemma_coalesce_complete(requests.drop_last(), r);
        assert(requests.drop_last()[r] == requests[r]);
        let q = position(before, url);
        lemma_position_found(before, url);
        lemma_position(after, url, q);
        let w = choose|w: int| 0 <= w < before[q].entities.len() && before[q].entities[w] == requests[r].entity;
        assert(after[q].entities[w] == requests[r].entity);
    }
}

/// The work of the object system for one tick: the requests of the tick
/// gathered into one batch for each document, so that each document is
/// fetched once and its object handed to every entity that asked for it.
pub fn systems(requests: &Vec<LoadRequest>) -> (batches: Vec<LoadBatch>)
    ensures
        batches_view(batches@) == spec_coalesce(requests_view(requests@)),
{
    let ghost reqs = requests_view(requests@);
    let mut batches: Vec<LoadBatch> = Vec::new();
    let mut i: usize = 0;
    assert(reqs.take(0) =~= Seq::empty());
    assert(batches_view(batches@) =~= Seq::empty());
    while i < requests.len()
        invariant
            i <= requests.len(),
            reqs == requests_view(requests@),
            batches_view(batches@) == spec_coalesce(reqs.take(i as int)),
        decreases requests.len() - i,
    {
        let url = manifest_url(requests[i].url.as_str());
        let entity = requests[i].entity;
        let ghost before = batches_view(batches@);
        proof {
            assert(reqs.take(i + 1).drop_last() =~= reqs.take(i as int));
            assert(reqs.take(i + 1).last() == requests@[i as int]@);
        }
        let mut k: usize = 0;
        while k < batches.len() && batches[k].url != url
            invariant
                k <= batches.len(),
                before == batches_view(batches@),
                forall|j: int| 0 <= j < k ==> (#[trigger] before[j]).url != url@,
            decreases batches.len() - k,
        {
            k += 1;
        }
        proof {
            lemma_position(before, url@, k as int);
        }
        if k < batches.len() {
            batches[k].entities.push(entity);
            assert(batches_view(batches@) =~= add_request(before, url@, entity));
        } else {
            let mut entities: Vec<u64> = Vec::new();
            entities.push(entity);
            batches.push(LoadBatch { url, entities });
            assert(batches_view(batches@) =~= add_request(before, url@, entity));
        }
        i += 1;
    }
    assert(reqs.take(requests.len() as int) =~= reqs);
    batches
}

/// The entities of `batch` that receive the components of its object:
/// all of them where the object was loaded and holds an entity, none where
/// the load failed.
pub open spec fn spec_recipients(batch: BatchView, outcome: Result<Seq<RefsView>, LoadError>) -> Seq<
    u64,
> {
    match outcome {
        Ok(es) => if es.len() > 0 {
            batch.entities
        } else {
            Seq::empty()
        },
        Err(_) => Seq::empty(),
    }
}

pub open spec fn outcome_view(outcome: Result<ResolvedObject, LoadError>) -> Result<
    Seq<RefsView>,
    LoadError,
> {
    match outcome {
        Ok(w) => Ok(entities_view(w.entities@)),
        Err(e) => Err(e),
    }
}

/// The entities of `batch` that receive the components of its object.
pub fn recipients(batch: &LoadBatch, outcome: &Result<ResolvedObject, LoadError>) -> (ids: Vec<u64>)
    ensures
        ids@ == spec_recipients(batch@, outcome_view(*outcome)),
{
    match outcome {
        Ok(w) => if w.entities.len() > 0 {
            batch.entities.clone()
        } else {
            Vec::new()
        },
        Err(_) => Vec::new(),
    }
}

} // verus!
