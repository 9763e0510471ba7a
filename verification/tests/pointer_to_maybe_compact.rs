use compact::pointer_to_maybe_compact::{Deallocation, Inner, PointerToMaybeCompact};

#[test]
fn unset_pointer() {
    let pointer: PointerToMaybeCompact<u8> = PointerToMaybeCompact::default();
    assert!(pointer.is_compact());
    assert_eq!(pointer.ptr(1000), 0);
    assert_eq!(pointer.to_string(), "uninitialized");
    assert_eq!(pointer.deallocate_if_free(4), None);
}

#[test]
fn free_pointer() {
    let mut pointer: PointerToMaybeCompact<u32> = PointerToMaybeCompact::new_free(0x1000);
    assert!(!pointer.is_compact());
    assert_eq!(pointer.ptr(0), 0x1000);
    assert_eq!(pointer.ptr(0x5000), 0x1000);
    assert_eq!(pointer.mut_ptr(7), 0x1000);
    assert_eq!(pointer.to_string(), "Free 0x1000");
    assert_eq!(
        pointer.deallocate_if_free(16),
        Some(Deallocation { address: 0x1000, length: 16 })
    );
    pointer.set_to_free(0);
    assert_eq!(pointer.to_string(), "Free 0x0");
    assert_eq!(pointer.ptr(3), 0);
}

#[test]
fn compact_pointer_follows_its_own_address() {
    let mut pointer: PointerToMaybeCompact<u8> = PointerToMaybeCompact::default();
    pointer.set_to_compact(100, 140);
    assert!(pointer.is_compact());
    assert_eq!(pointer.to_string(), "Compact 40");
    assert_eq!(pointer.ptr(100), 140);
    // moved together with its target, it points to the moved target
    assert_eq!(pointer.ptr(5000), 5040);
    assert_eq!(pointer.deallocate_if_free(1), None);
    pointer.set_to_compact(100, 60);
    assert_eq!(pointer.to_string(), "Compact -40");
    assert_eq!(pointer.ptr(100), 60);
    assert_eq!(pointer.ptr(40), 0);
    pointer.set_to_free(9);
    assert!(!pointer.is_compact());
}

#[test]
fn compact_pointer_at_the_limits_of_the_offset() {
    let mut pointer: PointerToMaybeCompact<u8> = PointerToMaybeCompact::default();
    pointer.set_to_compact(0, 0x7fff_ffff);
    assert_eq!(pointer.to_string(), "Compact 2147483647");
    assert_eq!(pointer.ptr(1), 0x8000_0000);
    pointer.set_to_compact(0x8000_0000, 0);
    assert_eq!(pointer.to_string(), "Compact -2147483648");
    assert_eq!(pointer.ptr(0x8000_0000), 0);
    assert_eq!(pointer.ptr(0x8000_0005), 5);
}

#[test]
fn pointer_bytes() {
    let mut region = vec![0xffu8; 12];
    let mut pointer: PointerToMaybeCompact<u8> = PointerToMaybeCompact::default();
    pointer.write_to(&mut region, 1);
    assert_eq!(region, vec![0xff, 2, 0, 0, 0, 0, 0, 0, 0, 0, 0xff, 0xff]);
    assert_eq!(
        PointerToMaybeCompact::<u8>::read_from(&region, 1).unwrap().to_string(),
        "uninitialized"
    );
    pointer.set_to_compact(10, 8);
    pointer.write_to(&mut region, 2);
    assert_eq!(region, vec![0xff, 2, 1, 0xfe, 0xff, 0xff, 0xff, 0, 0, 0, 0, 0xff]);
    assert_eq!(
        PointerToMaybeCompact::<u8>::read_from(&region, 2).unwrap().to_string(),
        "Compact -2"
    );
    pointer.set_to_free(0x0102_0304_0506_0708);
    pointer.write_to(&mut region, 3);
    assert_eq!(region, vec![0xff, 2, 1, 0, 8, 7, 6, 5, 4, 3, 2, 1]);
    assert_eq!(
        PointerToMaybeCompact::<u8>::read_from(&region, 3).unwrap().to_string(),
        "Free 0x102030405060708"
    );
    // a state byte that stands for nothing
    assert!(PointerToMaybeCompact::<u8>::read_from(&[3, 0, 0, 0, 0, 0, 0, 0, 0], 0).is_none());
    // an unset pointer with a payload
    assert!(PointerToMaybeCompact::<u8>::read_from(&[2, 1, 0, 0, 0, 0, 0, 0, 0], 0).is_none());
    // an offset of more than 32 bits
    assert!(PointerToMaybeCompact::<u8>::read_from(&[1, 0, 0, 0, 0, 1, 0, 0, 0], 0).is_none());
}

#[test]
fn pointer_states() {
    let mut pointer: PointerToMaybeCompact<u64> = PointerToMaybeCompact::default();
    assert_eq!(pointer.state(), Inner::Uninitialized);
    pointer.set_to_compact(20, 12);
    assert_eq!(pointer.state(), Inner::Compact(-8));
    pointer.set_to_free(77);
    assert_eq!(pointer.state(), Inner::Free(77));
    assert_eq!(PointerToMaybeCompact::<u64>::new_free(5).state(), Inner::Free(5));
}
