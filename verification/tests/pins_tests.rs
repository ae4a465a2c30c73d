use rudo::pins::{pin_app, reorder_pins, toggle_pin};

fn pins() -> Vec<String> {
    ["a", "b", "c"].map(str::to_string).to_vec()
}

#[test]
fn moves_pin_before_target() {
    let mut pins = pins();
    assert!(reorder_pins(&mut pins, "c", "a", false));
    assert_eq!(pins, ["c", "a", "b"]);
}

#[test]
fn moves_pin_after_target() {
    let mut pins = pins();
    assert!(reorder_pins(&mut pins, "a", "b", true));
    assert_eq!(pins, ["b", "a", "c"]);
}

#[test]
fn ignores_self_and_unknown_pins() {
    let mut pins = pins();
    assert!(!reorder_pins(&mut pins, "a", "a", false));
    assert!(!reorder_pins(&mut pins, "missing", "a", false));
    assert_eq!(pins, ["a", "b", "c"]);
}

#[test]
fn moves_pin_after_last_and_before_first() {
    let mut pins = pins();
    assert!(reorder_pins(&mut pins, "a", "c", true));
    assert_eq!(pins, ["b", "c", "a"]);
    assert!(reorder_pins(&mut pins, "a", "b", false));
    assert_eq!(pins, ["a", "b", "c"]);
    assert!(!reorder_pins(&mut pins, "a", "missing", true));
    assert_eq!(pins, ["a", "b", "c"]);
}

#[test]
fn toggling_unpins_and_pins_at_the_end() {
    let mut pins = pins();
    assert!(!toggle_pin(&mut pins, "b"));
    assert_eq!(pins, ["a", "c"]);
    assert!(toggle_pin(&mut pins, "b"));
    assert_eq!(pins, ["a", "c", "b"]);
}

#[test]
fn toggling_an_unpinned_app_twice_restores_the_pins() {
    let mut pins = pins();
    assert!(toggle_pin(&mut pins, "d"));
    assert!(!toggle_pin(&mut pins, "d"));
    assert_eq!(pins, ["a", "b", "c"]);
}

#[test]
fn pinning_from_the_picker_is_idempotent() {
    let mut pins = pins();
    assert!(pin_app(&mut pins, "d"));
    assert!(!pin_app(&mut pins, "d"));
    assert_eq!(pins, ["a", "b", "c", "d"]);
}
