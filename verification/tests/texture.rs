use asset_pipeline::model_crate::{Mesh, ModelCrate, Object, Texture};
use asset_pipeline::pipeline::ModelsPipeline;
use asset_pipeline::text::{find, from_chars, has_suffix, matches_at, to_chars};
use asset_pipeline::texture::{
    fetched_texture, file_name, import_material, lookup_texture, TextureError,
};

fn files(paths: &[&str]) -> Vec<String> {
    paths.iter().map(|s| s.to_string()).collect()
}

#[test]
fn the_file_name_is_the_last_name_of_the_path() {
    assert_eq!(file_name("textures/wood.png"), Some("wood.png".to_string()));
    assert_eq!(file_name("wood.png"), Some("wood.png".to_string()));
    assert_eq!(file_name("/usr/bin/"), Some("bin".to_string()));
    assert_eq!(file_name("foo.txt/."), Some("foo.txt".to_string()));
    assert_eq!(file_name("foo.txt/.//"), Some("foo.txt".to_string()));
    assert_eq!(file_name("a/...") , Some("...".to_string()));
}

#[test]
fn a_path_that_ends_in_no_name() {
    assert_eq!(file_name("foo.txt/.."), None);
    assert_eq!(file_name(".."), None);
    assert_eq!(file_name("/"), None);
    assert_eq!(file_name("."), None);
    assert_eq!(file_name(""), None);
}

#[test]
fn the_first_sibling_that_holds_the_name_is_taken() {
    let siblings = files(&["models/tree.fbx", "models/tex/bark.png", "backup/bark.png.old", "bark.png"]);
    assert_eq!(lookup_texture(&siblings, "C:/work/tex/bark.png"), Ok(1));
    assert_eq!(lookup_texture(&siblings, "tree.fbx"), Ok(0));
    assert_eq!(lookup_texture(&siblings, "old"), Ok(2));
}

#[test]
fn a_texture_that_no_sibling_holds_is_missing() {
    let siblings = files(&["models/tree.fbx", "models/tex/bark.png"]);
    assert_eq!(lookup_texture(&siblings, "tex/leaf.png"), Err(TextureError::NotAmongSiblings));
    assert_eq!(lookup_texture(&Vec::new(), "leaf.png"), Err(TextureError::NotAmongSiblings));
    assert_eq!(lookup_texture(&siblings, "tex/.."), Err(TextureError::NoFileName));
}

#[test]
fn a_failed_download_is_an_error_of_the_texture() {
    let t = Texture { width: 4, height: 8 };
    assert_eq!(fetched_texture(Some(t)), Ok(t));
    assert_eq!(fetched_texture(None), Err(TextureError::DownloadFailed));
}

#[test]
fn a_missing_texture_leaves_its_slot_empty() {
    let siblings = files(&["models/tree.fbx", "models/tex/bark.png"]);
    let bark = lookup_texture(&siblings, "bark.png").map(|_| Texture { width: 64, height: 64 });
    let leaf = lookup_texture(&siblings, "leaf.png").map(|_| Texture { width: 64, height: 64 });
    let (material, errors) = import_material("tree".to_string(), &vec![bark, leaf]);
    assert_eq!(material.name, "tree");
    assert_eq!(material.textures, vec![Some(Texture { width: 64, height: 64 }), None]);
    assert_eq!(errors, vec![TextureError::NotAmongSiblings]);

    let mut model = ModelCrate::new(
        vec![Mesh { triangles: 12 }],
        vec![material],
        vec![Object { collider: None, components: Vec::new() }],
    );
    assert_eq!(ModelsPipeline::default().apply(&mut model, &Vec::new()), Ok(()));
    assert!(model.finalized);
    assert_eq!(model.materials[0].textures[1], None);
}

#[test]
fn one_error_for_each_missing_texture() {
    let found = vec![
        Err(TextureError::DownloadFailed),
        Ok(Texture { width: 1, height: 1 }),
        Err(TextureError::NoFileName),
        Err(TextureError::NotAmongSiblings),
    ];
    let (material, errors) = import_material("m".to_string(), &found);
    assert_eq!(material.textures.iter().filter(|s| s.is_none()).count(), 3);
    assert_eq!(
        errors,
        vec![TextureError::DownloadFailed, TextureError::NoFileName, TextureError::NotAmongSiblings]
    );
    let (material, errors) = import_material("m".to_string(), &Vec::new());
    assert!(material.textures.is_empty());
    assert!(errors.is_empty());
}

#[test]
fn characters_go_in_and_out_of_strings() {
    assert_eq!(to_chars("a\u{e9}z"), vec!['a', '\u{e9}', 'z']);
    assert_eq!(from_chars(&vec!['a', '\u{e9}', 'z']), "a\u{e9}z");
    assert_eq!(from_chars(&to_chars("")), "");
}

#[test]
fn searching_in_text() {
    let hay = to_chars("abcabc");
    assert_eq!(find(&hay, &to_chars("bc")), Some(1));
    assert_eq!(find(&hay, &to_chars("cb")), None);
    assert_eq!(find(&hay, &to_chars("")), Some(0));
    assert_eq!(find(&to_chars(""), &to_chars("")), Some(0));
    assert_eq!(find(&hay, &to_chars("abcabcd")), None);
    assert_eq!(find(&hay, &to_chars("c")), Some(2));
    assert!(matches_at(&hay, &to_chars("abc"), 3));
    assert!(!matches_at(&hay, &to_chars("abc"), 4));
    assert!(matches_at(&hay, &to_chars(""), 6));
    assert!(!matches_at(&hay, &to_chars(""), 7));
    assert!(has_suffix(&hay, &to_chars("cabc")));
    assert!(!has_suffix(&hay, &to_chars("ab")));
    assert!(has_suffix(&hay, &to_chars("")));
}
