use compact::compact::Compact;
use compact::compact_option::CompactOption;
use compact::compact_vec::CompactVec;

#[test]
fn basic_option() {
    let mut option: CompactOption<CompactVec<u32>> = CompactOption(Some(CompactVec::new()));

    if let Some(ref mut list) = option.0 {
        list.push(1);
        list.push(2);
        list.push(3);
        assert_eq!(&[1, 2, 3], list.as_slice());
    } else {
        unreachable!()
    }

    let bytes = option.total_size_bytes();
    let mut storage = vec![0u8; bytes];

    option.compact_behind(&mut storage, 0);
    println!("before decompact!");
    if let Some(ref list) = CompactOption::<CompactVec<u32>>::decompact(&storage, 0).0 {
        assert_eq!(&[1, 2, 3], list.as_slice());
    } else {
        unreachable!()
    }
}

#[test]
fn empty_option_takes_no_dynamic_bytes() {
    let option: CompactOption<CompactVec<u32>> = CompactOption(None);
    assert_eq!(option.dynamic_size_bytes(), 0);
    assert_eq!(option.total_size_bytes(), 18);
    assert!(option.is_still_compact());
    let mut region = vec![7u8; 20];
    option.compact(&mut region, 1, 19);
    assert_eq!(region[0], 7);
    assert_eq!(region[1], 0);
    // nothing behind the mark is touched
    assert_eq!(&region[2..], &[7u8; 18]);
    let back = CompactOption::<CompactVec<u32>>::decompact(&region, 1);
    assert!(back.0.is_none());
    assert!(back.is_still_compact());
}

#[test]
fn occupied_option_takes_the_dynamic_bytes_of_its_value() {
    let mut list: CompactVec<u32> = CompactVec::new();
    list.push(5);
    list.push(6);
    assert_eq!(list.dynamic_size_bytes(), 8);
    let option = CompactOption(Some(list));
    assert_eq!(option.dynamic_size_bytes(), 8);
    assert_eq!(option.total_size_bytes(), 1 + 17 + 8);
    assert!(!option.is_still_compact());
    assert_eq!(CompactOption::<CompactVec<u32>>::fixed_size_bytes(), 18);
    let mut region = vec![9u8; 40];
    option.compact(&mut region, 0, 30);
    assert_eq!(region[0], 1);
    // the fixed part of the buffer: a compact pointer from 1 to 30, then the length
    assert_eq!(&region[1..18], &[1, 29, 0, 0, 0, 0, 0, 0, 0, 2, 0, 0, 0, 0, 0, 0, 0]);
    assert_eq!(&region[18..30], &[9u8; 12]);
    assert_eq!(&region[30..38], &[5, 0, 0, 0, 6, 0, 0, 0]);
    assert_eq!(&region[38..], &[9u8; 2]);
    let back = CompactOption::<CompactVec<u32>>::decompact(&region, 0);
    assert_eq!(back.0.unwrap().as_slice(), &[5, 6]);
}

#[test]
fn option_of_a_plain_value() {
    let option: CompactOption<u64> = CompactOption(Some(0x0102030405060708));
    assert_eq!(option.dynamic_size_bytes(), 0);
    assert_eq!(option.total_size_bytes(), 9);
    let mut region = vec![0u8; 9];
    option.compact_behind(&mut region, 0);
    assert_eq!(region, vec![1, 8, 7, 6, 5, 4, 3, 2, 1]);
    let back = CompactOption::<u64>::decompact(&region, 0);
    assert_eq!(back.0, Some(0x0102030405060708));
    assert!(back.is_still_compact());
    let default: CompactOption<u64> = CompactOption::default();
    assert!(default.0.is_none());
    assert_eq!(back.clone().0, Some(0x0102030405060708));
}

#[test]
fn option_is_reached_through_the_wrapper() {
    let mut option: CompactOption<u32> = CompactOption(Some(3));
    assert!(option.is_some());
    assert_eq!(option.as_ref(), Some(&3));
    *option = Some(4);
    assert_eq!(option.0, Some(4));
    assert_eq!(option.take(), Some(4));
    assert!(option.0.is_none());
}
