use compact::compact::Compact;
use compact::compact_str::CompactString;

#[test]
fn push_str_appends() {
    let mut string = CompactString::new();
    assert_eq!(string.as_str(), "");
    assert!(string.is_still_compact());
    string.push_str("hello");
    string.push_str(", wörld");
    assert_eq!(string.as_str(), "hello, wörld");
    assert!(!string.is_still_compact());
    assert_eq!(string.dynamic_size_bytes(), 13);
    assert_eq!(string.total_size_bytes(), 30);
    assert_eq!(string.clone().as_str(), "hello, wörld");
    assert_eq!(CompactString::default().as_str(), "");
}

#[test]
fn string_round_trip() {
    let string = CompactString::from_string(String::from("añb"));
    assert_eq!(string.as_str(), "añb");
    let mut region = vec![0u8; 21];
    string.compact_behind(&mut region, 0);
    assert_eq!(&region[17..], "añb".as_bytes());
    let back = CompactString::decompact(&region, 0);
    assert_eq!(back.as_str(), "añb");
    // the round trip gives a string with heap storage of its own
    assert!(!back.is_still_compact());
}

#[test]
fn string_from_a_string() {
    let string: CompactString = String::from("grüße").into();
    assert_eq!(string.as_str(), "grüße");
    assert_eq!(string.dynamic_size_bytes(), 7);
    assert!(!string.is_still_compact());
    let empty: CompactString = String::new().into();
    assert_eq!(empty.as_str(), "");
    assert_eq!(empty.dynamic_size_bytes(), 0);
}
