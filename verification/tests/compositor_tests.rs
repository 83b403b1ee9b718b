use gm8core::compositor::{DrawCmd, RenderCompositor};
use gm8core::instance::{Instance, InstanceStore};
use gm8core::store::Store;
use gm8core::tile::{Tile, TileStore};

fn inst(id: i32) -> Instance {
    Instance { id, x: 0, y: 0, object_index: 0, sprite_index: 0, image_blend: 0, visible: true }
}

fn tile() -> Tile {
    Tile { x: 0, y: 0, background_index: 0, tile_x: 0, tile_y: 0, width: 16, height: 16, blend: 0 }
}

fn cmd_depth(c: &DrawCmd) -> i32 {
    match c {
        DrawCmd::Instance(_, d) => *d,
        DrawCmd::Tile(_, d) => *d,
    }
}

#[test]
fn merge_example() {
    // Instance depths [10, 10, 3] in store order, tile depths [10, 5]:
    // both depth-10 instances are drawn before the depth-10 tile.
    let mut instances: InstanceStore = Store::new();
    let i0 = instances.insert(10, inst(0));
    let i1 = instances.insert(10, inst(1));
    let i2 = instances.insert(3, inst(2));
    let mut tiles: TileStore = Store::new();
    let t0 = tiles.insert(10, tile());
    let t1 = tiles.insert(5, tile());

    instances.draw_sort();
    tiles.draw_sort();
    let mut ic = instances.iter_draw();
    let mut tc = tiles.iter_draw();
    let merged = RenderCompositor::merge(&mut ic, &mut tc);

    assert_eq!(
        merged,
        vec![
            DrawCmd::Instance(i0, 10),
            DrawCmd::Instance(i1, 10),
            DrawCmd::Tile(t0, 10),
            DrawCmd::Tile(t1, 5),
            DrawCmd::Instance(i2, 3),
        ],
    );
    let depths: Vec<_> = merged.iter().map(cmd_depth).collect();
    assert_eq!(depths, vec![10, 10, 10, 5, 3]);
}

#[test]
fn merge_length_is_sum_of_inputs() {
    let mut instances: InstanceStore = Store::new();
    for d in [4, -2, 9, 9] {
        instances.insert(d, inst(d));
    }
    let mut tiles: TileStore = Store::new();
    for d in [7, 0, -5] {
        tiles.insert(d, tile());
    }
    instances.draw_sort();
    tiles.draw_sort();
    let mut ic = instances.iter_draw();
    let mut tc = tiles.iter_draw();
    let merged = RenderCompositor::merge(&mut ic, &mut tc);
    assert_eq!(merged.len(), 4 + 3);
    // and the merged depths never increase
    let depths: Vec<_> = merged.iter().map(cmd_depth).collect();
    assert!(depths.windows(2).all(|w| w[0] >= w[1]));
}

#[test]
fn merge_with_one_empty_store_is_the_other_unchanged() {
    let mut instances: InstanceStore = Store::new();
    let a = instances.insert(8, inst(0));
    let b = instances.insert(2, inst(1));
    let mut tiles: TileStore = Store::new();
    instances.draw_sort();
    tiles.draw_sort();
    let mut ic = instances.iter_draw();
    let mut tc = tiles.iter_draw();
    let merged = RenderCompositor::merge(&mut ic, &mut tc);
    assert_eq!(merged, vec![DrawCmd::Instance(a, 8), DrawCmd::Instance(b, 2)]);

    let mut instances2: InstanceStore = Store::new();
    let mut tiles2: TileStore = Store::new();
    let t = tiles2.insert(1, tile());
    instances2.draw_sort();
    tiles2.draw_sort();
    let mut ic2 = instances2.iter_draw();
    let mut tc2 = tiles2.iter_draw();
    let merged2 = RenderCompositor::merge(&mut ic2, &mut tc2);
    assert_eq!(merged2, vec![DrawCmd::Tile(t, 1)]);
}

#[test]
fn merge_of_two_empty_stores_is_empty() {
    let mut instances: InstanceStore = Store::new();
    let mut tiles: TileStore = Store::new();
    instances.draw_sort();
    tiles.draw_sort();
    let mut ic = instances.iter_draw();
    let mut tc = tiles.iter_draw();
    assert!(RenderCompositor::merge(&mut ic, &mut tc).is_empty());
}
