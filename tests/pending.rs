use cubemap_scene::pending::{setup_cubemaps, Cubemaps, LoadState};
use cubemap_scene::texture::{CubePatch, TextureMeta};

fn stacked_sky() -> TextureMeta {
    TextureMeta { width: 256, height: 1536, layers: 1, view: None }
}

/// Polls one frame with the states `state_of` reports for each pending handle.
fn frame(cubemaps: &mut Cubemaps<u32>, state_of: impl Fn(u32) -> LoadState) -> Vec<u32> {
    let states: Vec<LoadState> = cubemaps.pending().iter().map(|h| state_of(*h)).collect();
    setup_cubemaps(cubemaps, &states)
}

#[test]
fn single_handle_loaded_on_third_frame() {
    let mut cubemaps = Cubemaps::new();
    cubemaps.register(1u32);
    let mut sky = stacked_sky();
    for f in 1..=3u32 {
        let ready = frame(&mut cubemaps, |_| if f == 3 { LoadState::Loaded } else { LoadState::Loading });
        for h in ready {
            assert_eq!(h, 1);
            assert_eq!(sky.patch_cubemap(), CubePatch::Reinterpreted);
        }
        if f < 3 {
            assert_eq!(cubemaps.len(), 1);
            assert!(!sky.is_cube());
        }
    }
    assert!(cubemaps.is_empty());
    assert!(sky.is_cube());
    assert_eq!(sky.layers, 6);
    assert_eq!(sky.height, 256);
}

#[test]
fn two_handles_sizes_over_five_frames() {
    let mut cubemaps = Cubemaps::new();
    cubemaps.register(1u32);
    cubemaps.register(2u32);
    let mut sizes = Vec::new();
    for f in 1..=5u32 {
        frame(&mut cubemaps, |h| {
            let loads_on = if h == 1 { 1 } else { 5 };
            if f >= loads_on { LoadState::Loaded } else { LoadState::Loading }
        });
        sizes.push(cubemaps.len());
    }
    assert_eq!(sizes, vec![1, 1, 1, 1, 0]);
}

#[test]
fn failed_and_loading_handles_are_kept() {
    let mut cubemaps = Cubemaps::new();
    for h in [1u32, 2, 3, 4, 5] {
        cubemaps.register(h);
    }
    let states = vec![
        LoadState::Failed,
        LoadState::Loaded,
        LoadState::NotLoaded,
        LoadState::Loaded,
        LoadState::Unloaded,
    ];
    let ready = setup_cubemaps(&mut cubemaps, &states);
    assert_eq!(ready, vec![2, 4]);
    assert_eq!(cubemaps.pending(), &[1, 3, 5]);
}

#[test]
fn nothing_pending_stays_empty() {
    let mut cubemaps: Cubemaps<u32> = Cubemaps::new();
    assert!(cubemaps.is_empty());
    let ready = setup_cubemaps(&mut cubemaps, &[]);
    assert!(ready.is_empty());
    assert_eq!(cubemaps.len(), 0);
}

#[test]
fn pending_size_never_grows_and_drains() {
    let mut cubemaps = Cubemaps::new();
    for h in 0..8u32 {
        cubemaps.register(h);
    }
    let mut last = cubemaps.len();
    for f in 0..10u32 {
        frame(&mut cubemaps, |h| if h % 4 == f % 4 || f >= 8 { LoadState::Loaded } else { LoadState::Loading });
        assert!(cubemaps.len() <= last);
        last = cubemaps.len();
    }
    assert_eq!(last, 0);
}

#[test]
fn handle_is_handed_back_once() {
    let mut cubemaps = Cubemaps::new();
    cubemaps.register(7u32);
    let mut handed = 0;
    for _ in 0..4 {
        handed += frame(&mut cubemaps, |_| LoadState::Loaded).len();
    }
    assert_eq!(handed, 1);
}

#[test]
fn register_keeps_order() {
    let mut cubemaps = Cubemaps::new();
    cubemaps.register(3u32);
    cubemaps.register(1u32);
    cubemaps.register(2u32);
    assert_eq!(cubemaps.pending(), &[3, 1, 2]);
    assert_eq!(cubemaps.len(), 3);
}
