use compact::compact::Compact;
use compact::compact_opaque::Opaque;
use compact::compact_option::CompactOption;
use compact::compact_str::CompactString;
use compact::compact_vec::CompactVec;

#[test]
fn box_has_exactly_the_total_size() {
    let mut list: CompactVec<u32> = CompactVec::new();
    list.push(10);
    list.push(20);
    list.push(30);
    let total = list.total_size_bytes();
    assert_eq!(total, 29);
    let opaque = Opaque::new(list);
    assert_eq!(opaque.as_bytes().len(), 29);
    // the fixed part at the beginning: pointer to the byte behind it, then the length
    assert_eq!(
        &opaque.as_bytes()[..17],
        &[1, 17, 0, 0, 0, 0, 0, 0, 0, 3, 0, 0, 0, 0, 0, 0, 0]
    );
    // who knows the type reads the value back
    let back = CompactVec::<u32>::decompact(opaque.as_bytes(), 0);
    assert_eq!(back.as_slice(), &[10, 20, 30]);
}

#[test]
fn box_is_itself_relocatable() {
    let mut string = CompactString::new();
    string.push_str("boxed");
    let opaque = Opaque::new(CompactOption(Some(string)));
    assert_eq!(opaque.as_bytes().len(), 1 + 17 + 5);
    assert!(!opaque.is_still_compact());
    assert_eq!(opaque.dynamic_size_bytes(), 23);
    let copy = opaque.clone();
    let total = opaque.total_size_bytes();
    let mut region = vec![0u8; total];
    opaque.compact_behind(&mut region, 0);
    let back = Opaque::decompact(&region, 0);
    assert_eq!(back.as_bytes(), copy.as_bytes());
    let inner = CompactOption::<CompactString>::decompact(back.as_bytes(), 0);
    assert_eq!(inner.0.unwrap().as_str(), "boxed");
}
