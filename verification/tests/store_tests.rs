use gm8core::instance::{Instance, InstanceStore};
use gm8core::store::Store;

fn inst(id: i32) -> Instance {
    Instance { id, x: 0, y: 0, object_index: 0, sprite_index: 0, image_blend: 0, visible: true }
}

#[test]
fn insert_get_roundtrip() {
    let mut store: InstanceStore = Store::new();
    let h = store.insert(5, inst(7));
    let got = store.get(h).unwrap();
    assert_eq!(got.id, 7);
    assert_eq!(store.depth(h), Some(5));
}

#[test]
fn get_after_remove_is_none() {
    let mut store: InstanceStore = Store::new();
    let h = store.insert(0, inst(1));
    assert!(store.remove(h));
    assert!(store.get(h).is_none());
    assert!(store.depth(h).is_none());
    // removing again changes nothing and reports it
    assert!(!store.remove(h));
}

#[test]
fn handle_reuse_not_aliased() {
    let mut store: InstanceStore = Store::new();
    let a = store.insert(1, inst(1));
    let b = store.insert(2, inst(2));
    assert!(store.remove(a));
    let c = store.insert(3, inst(3));
    // the new handle aliases neither the removed handle nor any live one
    assert_ne!(c, a);
    assert_ne!(c, b);
    // the removed handle stays dead after its slot is reused
    assert!(store.get(a).is_none());
    assert_eq!(store.get(c).unwrap().id, 3);
    assert_eq!(store.get(b).unwrap().id, 2);
}

#[test]
fn set_depth_changes_order_key() {
    let mut store: InstanceStore = Store::new();
    let h = store.insert(1, inst(1));
    assert!(store.set_depth(h, 42));
    assert_eq!(store.depth(h), Some(42));
    let stale = store.insert(0, inst(0));
    store.remove(stale);
    assert!(!store.set_depth(stale, 9));
}

#[test]
fn draw_sort_orders_by_depth_then_insertion_order() {
    let mut store: InstanceStore = Store::new();
    let a = store.insert(10, inst(0));
    let b = store.insert(10, inst(1));
    let c = store.insert(3, inst(2));
    let d = store.insert(20, inst(3));
    store.draw_sort();
    let mut cursor = store.iter_draw();
    let order: Vec<_> = std::iter::from_fn(|| cursor.next()).collect();
    let handles: Vec<_> = order.iter().map(|e| e.0).collect();
    let depths: Vec<_> = order.iter().map(|e| e.1).collect();
    assert_eq!(depths, vec![20, 10, 10, 3]);
    // equal depths keep insertion order: a before b
    assert_eq!(handles, vec![d, a, b, c]);
}

#[test]
fn draw_sort_keeps_insertion_order_across_slot_reuse() {
    let mut store: InstanceStore = Store::new();
    let a = store.insert(5, inst(0));
    let b = store.insert(5, inst(1));
    store.remove(a);
    // c reuses a's slot, but was inserted after b: it draws after b
    let c = store.insert(5, inst(2));
    assert_eq!(c.index, a.index);
    store.draw_sort();
    let mut cursor = store.iter_draw();
    assert_eq!(cursor.next(), Some((b, 5)));
    assert_eq!(cursor.next(), Some((c, 5)));
    assert_eq!(cursor.next(), None);
}

#[test]
fn removed_records_leave_the_draw_order() {
    let mut store: InstanceStore = Store::new();
    let a = store.insert(5, inst(0));
    let b = store.insert(7, inst(1));
    store.remove(a);
    store.draw_sort();
    let mut cursor = store.iter_draw();
    assert_eq!(cursor.next(), Some((b, 7)));
    assert_eq!(cursor.next(), None);
}

#[test]
fn cursor_is_one_shot() {
    let mut store: InstanceStore = Store::new();
    store.insert(1, inst(0));
    store.draw_sort();
    let mut cursor = store.iter_draw();
    assert!(cursor.next().is_some());
    assert!(cursor.next().is_none());
    assert!(cursor.next().is_none());
}
