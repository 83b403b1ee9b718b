use gm8core::asset::validate::{first_room, objects_resolve};
use gm8core::sound::{SoundBank, SoundHandle};

#[test]
fn first_room_found() {
    let order = vec![2u32, 0];
    let present = vec![true, false, true];
    assert_eq!(first_room(&order, &present), Some(2));
}

#[test]
fn first_room_missing() {
    // empty room order
    assert_eq!(first_room(&Vec::new(), &vec![true]), None);
    // first entry out of range
    assert_eq!(first_room(&vec![3u32], &vec![true, true]), None);
    // first entry names an absent room
    assert_eq!(first_room(&vec![1u32], &vec![true, false]), None);
}

#[test]
fn objects_resolve_checks_every_index() {
    let present = vec![true, false, true];
    assert!(objects_resolve(&vec![0, 2, 0], &present));
    assert!(objects_resolve(&Vec::new(), &present));
    // absent object
    assert!(!objects_resolve(&vec![0, 1], &present));
    // out of range
    assert!(!objects_resolve(&vec![3], &present));
    // negative index
    assert!(!objects_resolve(&vec![-1], &present));
}

#[test]
fn sound_bank_hands_out_sequential_handles() {
    let mut bank: SoundBank<&str> = SoundBank::new();
    let a = bank.add("first");
    let b = bank.add("second");
    assert_eq!(a, SoundHandle(0));
    assert_eq!(b, SoundHandle(1));
    assert_eq!(bank.len(), 2);
    assert_eq!(bank.get(a), Some(&"first"));
    assert_eq!(bank.get(b), Some(&"second"));
    assert_eq!(bank.get(SoundHandle(2)), None);
}
