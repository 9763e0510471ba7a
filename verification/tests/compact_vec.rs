use compact::compact::Compact;
use compact::compact_vec::CompactVec;

#[test]
fn buffer_operations() {
    let mut vec: CompactVec<u32> = CompactVec::new();
    assert!(vec.is_empty());
    assert!(vec.is_still_compact());
    vec.push(1);
    vec.push(2);
    vec.push(3);
    assert!(!vec.is_still_compact());
    assert_eq!(vec.len(), 3);
    assert_eq!(*vec.get(1), 2);
    vec.swap(0, 2);
    assert_eq!(vec.as_slice(), &[3, 2, 1]);
    vec.swap(2, 1);
    assert_eq!(vec.as_slice(), &[3, 1, 2]);
    vec.swap(1, 1);
    assert_eq!(vec.as_slice(), &[3, 1, 2]);
    assert_eq!(vec.replace(1, 7), 1);
    *vec.get_mut(0) += 1;
    assert_eq!(vec.as_slice(), &[4, 7, 2]);
    assert!(vec.contains(&7));
    assert!(!vec.contains(&1));
    assert_eq!(vec.remove(0), 4);
    assert_eq!(vec.as_slice(), &[7, 2]);
    vec.extend_from_copy_slice(&[8, 9]);
    assert_eq!(vec.as_slice(), &[7, 2, 8, 9]);
    vec.as_mut_slice()[3] = 10;
    assert_eq!(vec.pop(), Some(10));
    assert_eq!(vec.clone().into_vec(), vec![7, 2, 8]);
    let mut empty: CompactVec<u32> = CompactVec::with_capacity(3);
    assert!(!empty.is_still_compact());
    assert_eq!(empty.pop(), None);
    assert_eq!(CompactVec::from_vec(vec![1u8, 2]).as_slice(), &[1, 2]);
}

#[test]
fn buffer_layout() {
    let vec = CompactVec::from_vec(vec![0x11223344u32, 0x55667788]);
    assert_eq!(vec.dynamic_size_bytes(), 8);
    assert_eq!(vec.total_size_bytes(), 25);
    assert_eq!(CompactVec::<u32>::fixed_size_bytes(), 17);
    let mut region = vec![0u8; 25];
    vec.compact_behind(&mut region, 0);
    assert_eq!(
        region,
        vec![
            1, 17, 0, 0, 0, 0, 0, 0, 0, // compact pointer, seventeen bytes ahead
            2, 0, 0, 0, 0, 0, 0, 0, // two elements
            0x44, 0x33, 0x22, 0x11, 0x88, 0x77, 0x66, 0x55,
        ]
    );
    let back = CompactVec::<u32>::decompact(&region, 0);
    assert_eq!(back.as_slice(), &[0x11223344, 0x55667788]);
    assert!(!back.is_still_compact());
}

#[test]
fn dynamic_part_before_the_fixed_part() {
    let vec = CompactVec::from_vec(vec![1u8, 2, 3]);
    let mut region = vec![0u8; 20];
    vec.compact(&mut region, 3, 0);
    assert_eq!(&region[..3], &[1, 2, 3]);
    // the offset is minus three
    assert_eq!(&region[3..12], &[1, 0xfd, 0xff, 0xff, 0xff, 0, 0, 0, 0]);
    assert_eq!(CompactVec::<u8>::decompact(&region, 3).as_slice(), &[1, 2, 3]);
}

#[test]
fn nested_buffers_lie_one_behind_the_other() {
    let mut outer: CompactVec<CompactVec<u8>> = CompactVec::new();
    outer.push(CompactVec::from_vec(vec![1, 2, 3]));
    outer.push(CompactVec::new());
    outer.push(CompactVec::from_vec(vec![4]));
    // three fixed parts of seventeen bytes, then four bytes
    assert_eq!(outer.dynamic_size_bytes(), 3 * 17 + 4);
    let total = outer.total_size_bytes();
    assert_eq!(total, 17 + 3 * 17 + 4);
    let mut region = vec![0u8; total];
    outer.compact_behind(&mut region, 0);
    // the elements' own bytes stand behind all fixed parts, in order
    assert_eq!(&region[total - 4..], &[1, 2, 3, 4]);
    // first element: fixed part at 17, bytes at 68
    assert_eq!(&region[17..19], &[1, 51]);
    assert_eq!(region[26], 3);
    // second element: fixed part at 34, its empty share starts at 71
    assert_eq!(&region[34..36], &[1, 37]);
    assert_eq!(region[43], 0);
    // third element: fixed part at 51, bytes at 71
    assert_eq!(&region[51..53], &[1, 20]);
    assert_eq!(region[60], 1);
    let back = CompactVec::<CompactVec<u8>>::decompact(&region, 0);
    assert_eq!(back.len(), 3);
    assert_eq!(back.get(0).as_slice(), &[1, 2, 3]);
    assert_eq!(back.get(1).as_slice(), &[] as &[u8]);
    assert_eq!(back.get(2).as_slice(), &[4]);
}

#[test]
fn plain_values() {
    let mut region = vec![0u8; 32];
    7u8.compact(&mut region, 0, 0);
    0x0102u32.compact(&mut region, 1, 0);
    0x0a0b0c0d0e0fu64.compact(&mut region, 5, 0);
    513usize.compact_behind(&mut region, 13);
    assert_eq!(
        &region[..21],
        &[7, 2, 1, 0, 0, 0xf, 0xe, 0xd, 0xc, 0xb, 0xa, 0, 0, 1, 2, 0, 0, 0, 0, 0, 0]
    );
    assert_eq!(u8::decompact(&region, 0), 7);
    assert_eq!(u32::decompact(&region, 1), 0x0102);
    assert_eq!(u64::decompact(&region, 5), 0x0a0b0c0d0e0f);
    assert_eq!(usize::decompact(&region, 13), 513);
    assert_eq!(5u64.total_size_bytes(), 8);
    assert_eq!(5u32.total_size_bytes(), 4);
    assert_eq!(5u8.total_size_bytes(), 1);
    assert_eq!(5usize.dynamic_size_bytes(), 0);
    assert!(5usize.is_still_compact());
}
