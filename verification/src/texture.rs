//! Textures that a model names by file: which file of the build job a name
//! stands for, and what becomes of a material whose texture cannot be had.

use vstd::prelude::*;
use crate::asset_url::{split, split_segments, views};
use crate::model_crate::{Material, Texture};
use crate::seq_util::{first_index, lemma_first_index};
use crate::text::{contains, find, from_chars, to_chars};

verus! {

/// Why a material is left without a texture. None of these fails an
/// import: each is logged once, and the slot of the texture stays empty.
#[derive(Clone, Copy, Debug, PartialEq, Eq, Structural)]
pub enum TextureError {
    /// The path that the model gives ends in no file name.
    NoFileName,
    /// No file of the build job has the file name in its path.
    NotAmongSiblings,
    /// The file was found but could not be fetched or decoded.
    DownloadFailed,
}

/// The last segment that is a name: segments that are empty or `.` at the
/// end are passed over, and `..` at the end means that there is none.
pub open spec fn last_name(segs: Seq<Seq<char>>) -> Option<Seq<char>>
    decreases segs.len(),
{
    if segs.len() == 0 {
        None
    } else if segs.last().len() == 0 || segs.last() == seq!['.'] {
        last_name(segs.drop_last())
    } else if segs.last() == seq!['.', '.'] {
        None
    } else {
        Some(segs.last())
    }
}

/// The file name of a `/`-separated path.
pub open spec fn spec_file_name(path: Seq<char>) -> Option<Seq<char>> {
    last_name(split(path))
}

/// The file name of the `/`-separated path `path`, if it ends in one.
pub fn file_name(path: &str) -> (name: Option<String>)
    ensures
        match name {
            Some(n) => spec_file_name(path@) == Some(n@),
            None => spec_file_name(path@) is None,
        },
{
    let chars = to_chars(path);
    let segs = split_segments(&chars);
    let ghost all = views(segs@);
    let mut n: usize = segs.len();
    assert(all.take(n as int) =~= all);
    while n > 0
        invariant
            n <= segs.len(),
            all == views(segs@),
            all == split(path@),
            last_name(all) == last_name(all.take(n as int)),
        decreases n,
    {
        let seg = &segs[n - 1];
        proof {
            assert(all.take(n as int).last() == seg@);
            assert(all.take(n as int).drop_last() =~= all.take(n - 1));
        }
        if seg.len() == 0 {
        } else if seg.len() == 1 && seg[0] == '.' {
            assert(seg@ =~= seq!['.']);
        } else if seg.len() == 2 && seg[0] == '.' && seg[1] == '.' {
            assert(seg@ =~= seq!['.', '.']);
            assert(seg@ != seq!['.']) by {
                assert(seq!['.'].len() == 1);
            }
            return None;
        } else {
            assert(seg@ != seq!['.']) by {
                if seg@ == seq!['.'] {
                    assert(seq!['.'].len() == 1);
                    assert(seq!['.'][0] == '.');
                }
            }
            assert(seg@ != seq!['.', '.']) by {
                if seg@ == seq!['.', '.'] {
                    assert(seq!['.', '.'].len() == 2);
                    assert(seq!['.', '.'][0] == '.');
                    assert(seq!['.', '.'][1] == '.');
                }
            }
            return Some(from_chars(seg));
        }
        n -= 1;
    }
    assert(all.take(0) =~= Seq::<Seq<char>>::empty());
    None
}

pub open spec fn paths_view(files: Seq<String>) -> Seq<Seq<char>> {
    Seq::new(files.len(), |i: int| files[i]@)
}

/// The file of the build job that the texture at `path` stands for: the
/// first whose path holds the file name of `path`.
pub open spec fn spec_lookup(files: Seq<Seq<char>>, path: Seq<char>) -> Result<int, TextureError> {
    match spec_file_name(path) {
        None => Err(TextureError::NoFileName),
        Some(name) => {
            let i = first_index(files, |f: Seq<char>| contains(f, name));
            if i < files.len() {
                Ok(i)
            } else {
                Err(TextureError::NotAmongSiblings)
            }
        },
    }
}

/// Finds, among the files of the build job, the one that the texture at
/// `path` stands for.
pub fn lookup_texture(files: &Vec<String>, path: &str) -> (r: Result<usize, TextureError>)
    ensures
        match r {
            Ok(i) => spec_lookup(paths_view(files@), path@) == Ok::<int, TextureError>(i as int),
            Err(e) => spec_lookup(paths_view(files@), path@) == Err::<int, TextureError>(e),
        },
{
    let name = match file_name(path) {
        Some(n) => n,
        None => {
            return Err(TextureError::NoFileName);
        },
    };
    let needle = to_chars(name.as_str());
    let ghost paths = paths_view(files@);
    let mut i: usize = 0;
    while i < files.len()
        invariant
            i <= files.len(),
            paths == paths_view(files@),
            needle@ == name@,
            spec_file_name(path@) == Some(name@),
            forall|j: int| 0 <= j < i ==> !contains(#[trigger] paths[j], name@),
        decreases files.len() - i,
    {
        let hay = to_chars(files[i].as_str());
        if find(&hay, &needle).is_some() {
            proof {
                lemma_first_index(paths, |f: Seq<char>| contains(f, name@), i as int);
            }
            return Ok(i);
        }
        i += 1;
    }
    proof {
        lemma_first_index(paths, |f: Seq<char>| contains(f, name@), i as int);
    }
    Err(TextureError::NotAmongSiblings)
}

/// The texture that a fetch gave, or why there is none.
pub fn fetched_texture(fetched: Option<Texture>) -> (r: Result<Texture, TextureError>)
    ensures
        r == (match fetched {
            Some(t) => Ok::<Texture, TextureError>(t),
            None => Err::<Texture, TextureError>(TextureError::DownloadFailed),
        }),
{
    match fetched {
        Some(t) => Ok(t),
        None => Err(TextureError::DownloadFailed),
    }
}

/// The texture slots of a material whose textures ended as `found`.
pub open spec fn spec_slots(found: Seq<Result<Texture, TextureError>>) -> Seq<Option<Texture>> {
    Seq::new(
        found.len(),
        |i: int|
            match found[i] {
                Ok(t) => Some(t),
                Err(_) => None,
            },
    )
}

/// The errors among `found`, in order.
pub open spec fn spec_errors(found: Seq<Result<Texture, TextureError>>) -> Seq<TextureError>
    decreases found.len(),
{
    if found.len() == 0 {
        Seq::empty()
    } else {
        match found.last() {
            Ok(_) => spec_errors(found.drop_last()),
            Err(e) => spec_errors(found.drop_last()).push(e),
        }
    }
}

/// Makes the material called `name` of what became of its textures.
///
/// A texture that could not be had leaves its slot empty; the material is
/// made all the same. The errors are returned to be logged, one for each
/// empty slot.
pub fn import_material(name: String, found: &Vec<Result<Texture, TextureError>>) -> (r: (
    Material,
    Vec<TextureError>,
))
    ensures
        r.0.name == name,
        r.0.textures@ == spec_slots(found@),
        r.1@ == spec_errors(found@),
{
    let mut textures: Vec<Option<Texture>> = Vec::new();
    let mut errors: Vec<TextureError> = Vec::new();
    let mut i: usize = 0;
    assert(found@.take(0) =~= Seq::empty());
    while i < found.len()
        invariant
            i <= found.len(),
            textures@ == spec_slots(found@.take(i as int)),
            errors@ == spec_errors(found@.take(i as int)),
        decreases found.len() - i,
    {
        proof {
            assert(found@.take(i + 1).drop_last() =~= found@.take(i as int));
            assert(found@.take(i + 1).last() == found@[i as int]);
        }
        match found[i] {
            Ok(t) => {
                textures.push(Some(t));
            },
            Err(e) => {
                textures.push(None);
                errors.push(e);
            },
        }
        i += 1;
        assert(textures@ =~= spec_slots(found@.take(i as int)));
    }
    assert(found@.take(found.len() as int) =~= found@);
    (Material { name, textures }, errors)
}

/// One error is logged for each texture that could not be had, and for no
/// other: the errors are as many as the empty slots of the material.
pub proof fn lemma_one_error_per_empty_slot(found: Seq<Result<Texture, TextureError>>)
    ensures
        spec_slots(found).len() == found.len(),
        spec_errors(found).len() == spec_slots(found).filter(|s: Option<Texture>| s is None).len(),
    decreases found.len(),
{
    let empty = |s: Option<Texture>| s is None;
    reveal(Seq::filter);
    if found.len() == 0 {
        assert(spec_slots(found) =~= Seq::empty());
    } else {
        lemma_one_error_per_empty_slot(found.drop_last());
        assert(spec_slots(found).drop_last() =~= spec_slots(found.drop_last()));
    }
}

} // verus!
