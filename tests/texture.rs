use cubemap_scene::texture::{layers_from_aspect, CubePatch, TextureMeta, ViewDimension};

#[test]
fn stacked_image_becomes_six_layer_cube() {
    let mut m = TextureMeta { width: 512, height: 3072, layers: 1, view: None };
    assert_eq!(m.patch_cubemap(), CubePatch::Reinterpreted);
    assert_eq!(
        m,
        TextureMeta { width: 512, height: 512, layers: 6, view: Some(ViewDimension::Cube) }
    );
    assert!(m.is_cube());
}

#[test]
fn second_patch_changes_nothing() {
    let mut m = TextureMeta { width: 512, height: 3072, layers: 1, view: None };
    m.patch_cubemap();
    let once = m;
    assert_eq!(m.patch_cubemap(), CubePatch::AlreadyLayered);
    assert_eq!(m, once);
}

#[test]
fn square_image_patch_is_idempotent() {
    let mut m = TextureMeta { width: 64, height: 64, layers: 1, view: Some(ViewDimension::D2) };
    assert_eq!(m.patch_cubemap(), CubePatch::Reinterpreted);
    let once = m;
    assert_eq!(once, TextureMeta { width: 64, height: 64, layers: 1, view: Some(ViewDimension::Cube) });
    m.patch_cubemap();
    assert_eq!(m, once);
}

#[test]
fn layered_texture_is_left_alone() {
    let mut m = TextureMeta { width: 64, height: 64, layers: 6, view: Some(ViewDimension::D2Array) };
    let before = m;
    assert_eq!(m.patch_cubemap(), CubePatch::AlreadyLayered);
    assert_eq!(m, before);
    assert!(!m.is_cube());
}

#[test]
fn unstackable_images_are_left_alone() {
    for (w, h) in [(0u32, 600u32), (100, 50), (100, 350)] {
        let mut m = TextureMeta { width: w, height: h, layers: 1, view: None };
        let before = m;
        assert_eq!(m.patch_cubemap(), CubePatch::NotStacked);
        assert_eq!(m, before);
    }
}

#[test]
fn layers_follow_aspect_ratio() {
    assert_eq!(layers_from_aspect(256, 1536), 6);
    assert_eq!(layers_from_aspect(100, 350), 3);
    assert_eq!(layers_from_aspect(100, 50), 0);
    assert_eq!(layers_from_aspect(0, 50), 0);
}
