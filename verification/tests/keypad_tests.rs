use librchip::keypad::Keypad;

#[test]
fn new_keypad_has_no_keys_down() {
    let k = Keypad::new();
    assert!(k.no_keys_pressed());
    for i in 0..16 {
        assert!(!k.is_pressed(i));
    }
}

#[test]
fn set_key_presses_and_releases_one_key() {
    let mut k = Keypad::new();
    k.set_key(5, true);
    assert!(k.is_pressed(5));
    assert!(!k.no_keys_pressed());
    for i in 0..16 {
        if i != 5 {
            assert!(!k.is_pressed(i));
        }
    }
    k.set_key(5, false);
    assert!(!k.is_pressed(5));
    assert!(k.no_keys_pressed());
}

#[test]
fn releasing_one_key_keeps_the_others() {
    let mut k = Keypad::new();
    k.set_key(2, true);
    k.set_key(9, true);
    k.set_key(2, false);
    assert!(!k.is_pressed(2));
    assert!(k.is_pressed(9));
}

#[test]
fn first_key_is_the_lowest_index() {
    let mut k = Keypad::new();
    k.set_key(11, true);
    assert_eq!(k.get_first_key_pressed(), 11);
    k.set_key(4, true);
    assert_eq!(k.get_first_key_pressed(), 4);
    k.set_key(0, true);
    assert_eq!(k.get_first_key_pressed(), 0);
}

#[test]
fn highest_key_alone_is_found() {
    let mut k = Keypad::new();
    k.set_key(15, true);
    assert_eq!(k.get_first_key_pressed(), 15);
}

#[test]
fn set_keys_replaces_the_whole_mask() {
    let mut k = Keypad::new();
    k.set_key(1, true);
    k.set_keys(0b1000_0000_0000_0000);
    assert!(!k.is_pressed(1));
    assert!(k.is_pressed(15));
    k.set_keys(0);
    assert!(k.no_keys_pressed());
}
