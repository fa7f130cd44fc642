use handoff::ephemeral::source::{EphemeralSource, SLOTS};
use std::rc::Rc;

#[test]
fn source_fresh_mailbox_has_nothing() {
    let mut source = EphemeralSource::<i32>::new();
    assert_eq!(source.get(), None);
    assert_eq!(source.get(), None);
}

#[test]
fn source_holds_one_value() {
    assert_eq!(SLOTS, 2);
    let mut source = EphemeralSource::<i32>::new();
    assert_eq!(source.set(1), Ok(()));
    assert_eq!(source.set(2), Err(2));
    assert_eq!(source.set(3), Err(3));
    assert_eq!(source.get(), Some(1));
    assert_eq!(source.get(), None);
    assert_eq!(source.set(2), Ok(()));
    assert_eq!(source.get(), Some(2));
}

#[test]
fn source_retry_delivers_every_value_once() {
    let mut source = EphemeralSource::<i32>::new();
    let mut expected = 0;
    let mut turned_away = 0;
    let mut state = 99u32;
    let mut offer = 0;
    while expected < 10000 {
        state = state.wrapping_mul(1103515245).wrapping_add(12345);
        if (state >> 16) % 2 == 0 && offer < 10000 {
            match source.set(offer) {
                Ok(()) => offer += 1,
                Err(back) => {
                    assert_eq!(back, offer);
                    turned_away += 1;
                }
            }
        } else if let Some(value) = source.get() {
            assert_eq!(value, expected);
            expected += 1;
        }
    }
    assert_eq!(offer, 10000);
    assert!(turned_away > 0);
    assert_eq!(source.get(), None);
}

#[test]
fn source_hands_back_what_it_was_given() {
    let mut source = EphemeralSource::<(String, Box<[u8]>)>::new();
    let value = (String::from("payload"), vec![0u8, 255].into_boxed_slice());
    assert_eq!(source.set(value.clone()), Ok(()));
    assert_eq!(source.get(), Some(value));
    assert_eq!(source.get(), None);
}

#[test]
fn source_neither_copies_nor_drops_a_value() {
    let token = Rc::new(String::from("one"));
    let mut source = EphemeralSource::<Rc<String>>::new();
    assert!(source.set(Rc::clone(&token)).is_ok());
    assert_eq!(Rc::strong_count(&token), 2);
    let back = source.set(Rc::clone(&token)).unwrap_err();
    assert!(Rc::ptr_eq(&back, &token));
    drop(back);
    assert_eq!(Rc::strong_count(&token), 2);
    let out = source.get().unwrap();
    assert!(Rc::ptr_eq(&out, &token));
    assert_eq!(Rc::strong_count(&token), 2);
    drop(out);
    assert_eq!(Rc::strong_count(&token), 1);
}
