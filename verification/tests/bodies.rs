use dieselrogue::body::{Body, Held, ItemSlot};
use dieselrogue::components::SlotType;
use dieselrogue::error::Error;

#[test]
fn human_body_has_six_parts_and_two_hands() {
    let b = Body::human_body();
    let names: Vec<&str> = b.parts.iter().map(|p| p.name.as_str()).collect();
    assert_eq!(names, vec!["Head", "Torso", "Left arm", "Right arm", "Left leg", "Right leg"]);
    assert_eq!(b.parts[2].slots, vec![ItemSlot { slot_type: SlotType::SecondaryHand, item: None }]);
    assert_eq!(b.parts[3].slots, vec![ItemSlot { slot_type: SlotType::PrimaryHand, item: None }]);
    assert!(b.parts[0].slots.is_empty() && b.parts[5].slots.is_empty());
}

#[test]
fn what_a_human_can_equip() {
    let b = Body::human_body();
    assert!(b.can_equip(&vec![SlotType::PrimaryHand]));
    assert!(b.can_equip(&vec![SlotType::PrimaryHand, SlotType::SecondaryHand]));
    assert!(!b.can_equip(&vec![SlotType::Headwear]));
    assert!(!b.can_equip(&vec![SlotType::PrimaryHand, SlotType::Headwear]));
    assert!(!b.can_equip(&vec![]));
}

#[test]
fn equipping_swaps_items_and_drops_proxies() {
    let mut b = Body::human_body();
    assert_eq!(b.equip(7, &vec![SlotType::PrimaryHand]).unwrap(), vec![]);
    assert_eq!(b.parts[3].slots[0].item, Some(Held { id: 7, proxy: false }));

    let taken = b.equip(9, &vec![SlotType::PrimaryHand, SlotType::SecondaryHand]).unwrap();
    assert_eq!(taken, vec![Held { id: 7, proxy: false }]);
    assert_eq!(b.parts[3].slots[0].item, Some(Held { id: 9, proxy: false }));
    assert_eq!(b.parts[2].slots[0].item, Some(Held { id: 9, proxy: true }));

    // the proxy in the left hand is not handed back
    assert_eq!(b.equip(11, &vec![SlotType::SecondaryHand]).unwrap(), vec![]);
    assert_eq!(b.parts[2].slots[0].item, Some(Held { id: 11, proxy: false }));

    let e = b.equip(12, &vec![SlotType::Headwear]).unwrap_err();
    assert_eq!((e.error, e.message.as_str()), (Error::UnsolvableSituation, "Cannot equip item"));
    assert_eq!(b.parts[3].slots[0].item, Some(Held { id: 9, proxy: false }));
}
