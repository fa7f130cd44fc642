use handoff::ephemeral::smsc::{sink_value, spit_value, EphemeralBuffer, ARENA_SIZE};

#[test]
fn smsc_test_seq_spsc() {
    let mut src = EphemeralBuffer::<i32>::new();

    for i in 0..10000 {
        if sink_value(&mut src, i).is_ok() {
            let tmp = spit_value(&mut src).expect("Failed to produce");
            assert_eq!(tmp, i);
            continue;
        }
        panic!("Failed to consume {}", i);
    }
}

#[test]
fn smsc_fresh_buffer_has_nothing() {
    let mut buffer = EphemeralBuffer::<String>::new();
    assert_eq!(spit_value(&mut buffer), None);
}

#[test]
fn smsc_holds_fifteen_values() {
    assert_eq!(ARENA_SIZE, 16);
    let mut buffer = EphemeralBuffer::<usize>::new();
    for i in 0..15 {
        assert_eq!(sink_value(&mut buffer, i), Ok(()));
    }
    assert_eq!(sink_value(&mut buffer, 15), Err(15));
    assert_eq!(spit_value(&mut buffer), Some(0));
    assert_eq!(sink_value(&mut buffer, 15), Ok(()));
    for i in 1..16 {
        assert_eq!(spit_value(&mut buffer), Some(i));
    }
    assert_eq!(spit_value(&mut buffer), None);
}

#[test]
fn smsc_retry_delivers_every_value_once() {
    let mut buffer = EphemeralBuffer::<i32>::new();
    let mut expected = 0;
    let mut offer = 0;
    while expected < 10000 {
        // The producer runs until it is turned away, then the consumer runs
        // until nothing is left.
        while offer < 10000 {
            match sink_value(&mut buffer, offer) {
                Ok(()) => offer += 1,
                Err(back) => {
                    assert_eq!(back, offer);
                    break;
                }
            }
        }
        while let Some(value) = spit_value(&mut buffer) {
            assert_eq!(value, expected);
            expected += 1;
        }
    }
    assert_eq!(offer, 10000);
    assert_eq!(spit_value(&mut buffer), None);
}

#[test]
fn smsc_hands_back_what_it_was_given() {
    let mut buffer = EphemeralBuffer::<Vec<String>>::new();
    let value = vec![String::from("a"), String::from("bc")];
    assert_eq!(sink_value(&mut buffer, value.clone()), Ok(()));
    assert_eq!(spit_value(&mut buffer), Some(value));
}
