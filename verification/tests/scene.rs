use rein::scene::{pick_layer_order, Layer, ObjectSlots};

#[test]
fn empty_scene_answers_safely() {
    // An id for slot 3, taken from another store.
    let mut other: ObjectSlots<&str> = ObjectSlots::new();
    let ids: Vec<_> = (0..4).map(|_| other.add("x")).collect();
    assert_eq!(ids[3].index(), 3);

    let mut s: ObjectSlots<&str> = ObjectSlots::new();
    assert!(s.is_empty());
    assert!(s.remove(ids[3]).is_none());
    assert!(s.get(ids[0]).is_none());
    assert_eq!(s.len(), 0);
}

#[test]
fn slots_are_reused_last_freed_first() {
    let mut s: ObjectSlots<u32> = ObjectSlots::new();
    let a = s.add(10);
    let b = s.add(20);
    let c = s.add(30);
    assert_eq!((a.index(), b.index(), c.index()), (0, 1, 2));
    assert_eq!(s.remove(a), Some(10));
    assert_eq!(s.remove(c), Some(30));
    assert_eq!(s.remove(c), None);
    assert_eq!(s.len(), 1);
    // The last freed slot (c's) comes back first, then a's.
    let d = s.add(40);
    let e = s.add(50);
    assert_eq!(d.index(), 2);
    assert_eq!(e.index(), 0);
    assert_eq!(s.get(d), Some(&40));
    assert_eq!(s.get(b), Some(&20));
    assert_eq!(s.ids().iter().map(|i| i.index()).collect::<Vec<_>>(), vec![0, 1, 2]);
    if let Some(x) = s.get_mut(b) {
        *x = 21;
    }
    assert_eq!(s.get(b), Some(&21));
    assert!(s.can_add());
    s.clear();
    assert!(s.is_empty());
    assert_eq!(s.add(1).index(), 0);
}

#[test]
fn layers_default_and_pick_order() {
    assert_eq!(Layer::default(), Layer::Scene);
    assert_eq!(pick_layer_order(), [Layer::Overlay, Layer::Scene, Layer::Ground]);
    assert!(Layer::Ground < Layer::Scene && Layer::Scene < Layer::Overlay);
}
