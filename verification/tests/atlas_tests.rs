use gm8core::atlas::{expand_alpha_map, next_pow2, AtlasBuilder};

fn pixels(w: i32, h: i32) -> Vec<u8> {
    vec![0u8; (w * h * 4) as usize]
}

#[test]
fn packing_example() {
    // max_size = 8. An 8x8 request fills page 0 completely; a 1x1 request
    // then needs a fresh page, since page 0 cannot grow past the maximum.
    let mut atlases = AtlasBuilder::new(8);

    let a = atlases.texture(8, 8, 0, 0, pixels(8, 8)).unwrap();
    assert_eq!(a.atlas_id, 0);
    assert_eq!((a.x, a.y, a.w, a.h), (0, 0, 8, 8));

    let b = atlases.texture(1, 1, 0, 0, pixels(1, 1)).unwrap();
    assert_eq!(b.atlas_id, 1);
    assert_eq!((b.x, b.y, b.w, b.h), (0, 0, 1, 1));

    let (pages, textures) = atlases.into_inner();
    assert_eq!(pages.len(), 2);
    assert_eq!((pages[0].width, pages[0].height), (8, 8));
    assert_eq!((pages[1].width, pages[1].height), (8, 8));
    assert_eq!(textures.len(), 2);
    assert_eq!(textures[0].0, a);
    assert_eq!(textures[1].0, b);
}

fn overlaps(a: (i32, i32, i32, i32), b: (i32, i32, i32, i32)) -> bool {
    !(a.0 + a.2 <= b.0 || b.0 + b.2 <= a.0 || a.1 + a.3 <= b.1 || b.1 + b.3 <= a.1)
}

#[test]
fn placements_in_bounds_and_disjoint() {
    let mut atlases = AtlasBuilder::new(64);
    let sizes = [(16, 16), (32, 8), (8, 32), (16, 48), (48, 16), (64, 64), (1, 1)];
    let mut refs = Vec::new();
    for &(w, h) in sizes.iter() {
        refs.push(atlases.texture(w, h, 0, 0, pixels(w, h)).unwrap());
    }
    let (pages, _) = atlases.into_inner();
    for r in &refs {
        let page = &pages[r.atlas_id];
        assert!(r.x >= 0 && r.y >= 0);
        assert!(r.x + r.w <= page.width);
        assert!(r.y + r.h <= page.height);
    }
    for i in 0..refs.len() {
        for j in 0..i {
            if refs[i].atlas_id == refs[j].atlas_id {
                let a = (refs[i].x, refs[i].y, refs[i].w, refs[i].h);
                let b = (refs[j].x, refs[j].y, refs[j].w, refs[j].h);
                assert!(!overlaps(a, b), "placements {:?} and {:?} overlap", a, b);
            }
        }
    }
}

#[test]
fn packing_deterministic() {
    let sizes = [(16, 16), (32, 8), (8, 32), (16, 48), (48, 16), (64, 64), (3, 5), (7, 7)];
    let mut first = AtlasBuilder::new(64);
    let mut second = AtlasBuilder::new(64);
    for &(w, h) in sizes.iter() {
        let a = first.texture(w, h, 1, 2, pixels(w, h)).unwrap();
        let b = second.texture(w, h, 1, 2, pixels(w, h)).unwrap();
        assert_eq!(a, b);
    }
}

#[test]
fn normalized_origin_in_unit_interval() {
    let mut atlases = AtlasBuilder::new(16);
    for ox in 0..=4 {
        for oy in 0..=4 {
            let r = atlases.texture(4, 4, ox, oy, pixels(4, 4)).unwrap();
            let nx = ox as f32 / r.w as f32;
            let ny = oy as f32 / r.h as f32;
            assert!((0.0..=1.0).contains(&nx));
            assert!((0.0..=1.0).contains(&ny));
        }
    }
}

#[test]
fn page_dims_are_powers_of_two_within_max() {
    let mut atlases = AtlasBuilder::new(256);
    let sizes = [(100, 3), (3, 100), (200, 200), (256, 1), (1, 256), (5, 5)];
    for &(w, h) in sizes.iter() {
        atlases.texture(w, h, 0, 0, pixels(w, h)).unwrap();
    }
    let (pages, _) = atlases.into_inner();
    assert!(!pages.is_empty());
    for p in &pages {
        assert!(p.width > 0 && p.width <= 256);
        assert!(p.height > 0 && p.height <= 256);
        assert_eq!(p.width & (p.width - 1), 0);
        assert_eq!(p.height & (p.height - 1), 0);
    }
}

#[test]
fn oversized_request_refused() {
    let mut atlases = AtlasBuilder::new(8);
    assert!(atlases.texture(9, 1, 0, 0, pixels(9, 1)).is_none());
    assert!(atlases.texture(1, 9, 0, 0, pixels(1, 9)).is_none());
    // The refusal mutated nothing: the next placement is the first.
    let r = atlases.texture(2, 2, 0, 0, pixels(2, 2)).unwrap();
    assert_eq!(r.atlas_id, 0);
    let (pages, textures) = atlases.into_inner();
    assert_eq!(pages.len(), 1);
    assert_eq!(textures.len(), 1);
}

#[test]
fn requests_share_a_page_while_it_fits() {
    // With max 16 the first page starts at min(4096, 16) = 16 a side, so
    // two 8x8 requests both land on page 0.
    let mut atlases = AtlasBuilder::new(16);
    let a = atlases.texture(8, 8, 0, 0, pixels(8, 8)).unwrap();
    let b = atlases.texture(8, 8, 0, 0, pixels(8, 8)).unwrap();
    assert_eq!(a.atlas_id, 0);
    assert_eq!(b.atlas_id, 0);
}

#[test]
fn next_pow2_exact_values() {
    assert_eq!(next_pow2(1), 1);
    assert_eq!(next_pow2(2), 2);
    assert_eq!(next_pow2(3), 4);
    assert_eq!(next_pow2(4), 4);
    assert_eq!(next_pow2(5), 8);
    assert_eq!(next_pow2(1000), 1024);
    assert_eq!(next_pow2(4096), 4096);
}

#[test]
fn expand_alpha_map_exact() {
    let alpha = vec![0x80u8, 0x01];
    let rgba = expand_alpha_map(&alpha);
    assert_eq!(rgba, vec![0xFF, 0xFF, 0xFF, 0x80, 0xFF, 0xFF, 0xFF, 0x01]);
    assert_eq!(expand_alpha_map(&Vec::new()), Vec::<u8>::new());
}
