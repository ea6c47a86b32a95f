use osirs::malloc::{Bus, DATA_START, SIZE};

#[test]
fn malloc_scenario_of_the_exercise() {
    let mut bus = Bus::new();
    let p0 = bus.malloc(16).unwrap();
    let p1 = bus.malloc(32).unwrap();
    assert_eq!(p0, 16);
    assert_eq!(p1, 32);
    let x: i32 = 0x44332211;
    let y: i32 = 0x12345678;
    bus.setter(&x.to_ne_bytes(), p0);
    bus.setter(&y.to_ne_bytes(), p1);
    let z = i32::from_ne_bytes(bus.getter(p0, 4).try_into().unwrap());
    let w = i32::from_ne_bytes(bus.getter(p1, 4).try_into().unwrap());
    assert_eq!(x, z);
    assert_eq!(y, w);
    assert!(bus.malloc(2048).is_none());
    assert_eq!(bus.malloc(32), Some(64));
    assert!(bus.malloc(64).is_none());
}

#[test]
fn malloc_initialises_lazily() {
    let mut bus = Bus::new();
    assert!(bus.bytes().iter().all(|&b| b == 0));
    assert_eq!(bus.malloc(0), None);
    assert_eq!(bus.bytes()[0], 0xFF);
    assert_eq!(bus.bytes()[1], 0xFF);
    for i in 2..SIZE {
        assert_eq!(bus.bytes()[i], 0);
    }
    assert_eq!(DATA_START, 16);
}

#[test]
fn malloc_limits() {
    let mut bus = Bus::new();
    assert_eq!(bus.malloc(113), None);
    assert_eq!(bus.malloc(112), Some(16));
    assert_eq!(bus.malloc(1), None);
}

#[test]
fn malloc_marks_bits_in_the_map() {
    let mut bus = Bus::new();
    assert_eq!(bus.malloc(3), Some(16));
    // bytes 16, 17, 18 are bits 0, 1, 2 of map byte 2
    assert_eq!(bus.bytes()[2], 0b111);
    assert_eq!(&bus.bytes()[16..19], &[0, 0, 0]);
    assert_eq!(bus.malloc(6), Some(19));
    assert_eq!(bus.bytes()[2], 0xFF);
    assert_eq!(bus.bytes()[3], 0b1);
}

#[test]
fn storing_zeros_keeps_the_block_taken() {
    let mut bus = Bus::new();
    assert_eq!(bus.malloc(4), Some(16));
    bus.setter(&0u32.to_ne_bytes(), 16);
    assert_eq!(bus.malloc(4), Some(20));
}

#[test]
fn getter_reads_back_setter() {
    let mut bus = Bus::new();
    bus.setter(&[9, 8, 7], 100);
    assert_eq!(bus.getter(100, 3), vec![9, 8, 7]);
    assert_eq!(bus.getter(99, 1), vec![0]);
}
