use compact::compact::Compact;
use compact::compact_dict::CompactDict;
use compact::compact_vec::CompactVec;

fn elem(n: usize) -> usize {
    (n * n) as usize
}

#[test]
fn very_basic() {
    let mut map: CompactDict<usize, usize> = CompactDict::new();
    map.insert(0, 54);
    assert!(*map.get(0).unwrap() == 54);
    map.insert(1, 48);
    assert!(*map.get(1).unwrap() == 48);
}

#[test]
fn very_basic2() {
    let mut map: CompactDict<usize, usize> = CompactDict::new();
    map.insert(0, 54);
    map.insert(1, 48);
    assert!(*map.get(0).unwrap() == 54);
    assert!(*map.get(1).unwrap() == 48);
}

#[test]
fn basic() {
    let n: usize = 1000;
    let mut map: CompactDict<usize, usize> = CompactDict::new();
    assert!(map.is_empty() == true);
    for i in 0..n {
        let e = elem(i);
        map.insert(i, e);
    }
    assert!(map.is_empty() == false);
    for i in 0..n {
        let test = map.get(i).unwrap();
        let exp = elem(i);
        assert!(*test == exp, " failed exp {:?}  was {:?}", exp, test);
    }
    assert!(map.len() == n as usize);
    assert!(*map.get_mru(n - 1).unwrap() == elem(n - 1));
    assert!(*map.get_mfu(n - 100).unwrap() == elem(n - 100));
    assert!(map.contains_key(n - 300) == true);
    assert!(map.contains_key(n + 1) == false);
    assert!(map.remove(500) == Some(elem(500)));
    assert!(map.get_mru(500).is_none());
}

#[test]
fn iter() {
    let mut map: CompactDict<usize, usize> = CompactDict::new();
    let n = 10;
    assert!(map.is_empty() == true);
    for i in 0..n {
        map.insert(i, i * i);
    }
    for k in map.keys() {
        println!(" k {:?}", k);
    }
    for h in 0..n {
        let mut keys = map.keys();
        assert!(keys.find(|&i| *i == n - 1 - h).is_some());
    }
    for h in 0..n {
        let mut values = map.values();
        assert!(values.find(|i| **i == elem(h)).is_some());
    }
}

#[test]
fn values_mut() {
    let mut map: CompactDict<usize, usize> = CompactDict::new();
    assert!(map.is_empty() == true);
    for n in 0..100 {
        map.insert(n, n * n);
    }
    {
        let values_mut = map.values_mut();
        for i in values_mut.iter_mut() {
            *i = *i + 1;
        }
    }
    for i in 0..100 {
        assert!(*map.get(i).unwrap() == i * i + 1);
    }
}

#[test]
fn pairs() {
    let mut map: CompactDict<usize, usize> = CompactDict::new();
    assert!(map.is_empty() == true);
    for n in 0..100 {
        map.insert(n, n * n);
    }
    for (key, value) in map.pairs() {
        assert!(elem(*key) == *value);
    }
}

#[test]
fn push_at() {
    let mut map: CompactDict<usize, CompactVec<usize>> = CompactDict::new();
    assert!(map.is_empty() == true);
    for n in 0..100 {
        map.push_at(n, elem(n));
        map.push_at(n, elem(n) + 1);
    }

    for n in 0..100 {
        let mut iter = map.get_iter(n);
        assert!(iter.find(|i| **i == elem(n)).is_some());
        assert!(iter.find(|i| **i == elem(n) + 1).is_some());
    }
}

#[test]
fn remove_iter() {
    let mut map: CompactDict<usize, CompactVec<usize>> = CompactDict::new();
    assert!(map.is_empty() == true);
    for n in 0..100 {
        map.push_at(n, elem(n));
        map.push_at(n, elem(n) + 1);
    }
    let mut iter = map.remove_iter(50);
    assert!(iter.find(|i| *i == elem(50)).is_some());
    assert!(iter.find(|i| *i == elem(50) + 1).is_some());
}

fn entries(map: &CompactDict<usize, usize>) -> Vec<(usize, usize)> {
    map.pairs().into_iter().map(|(key, value)| (*key, *value)).collect()
}

#[test]
fn thousand_squares() {
    let mut map: CompactDict<usize, usize> = CompactDict::new();
    for key in 0..1000 {
        assert_eq!(map.insert(key, key * key), None);
    }
    assert_eq!(map.len(), 1000);
    assert_eq!(map.get(500), Some(&250000));
    assert_eq!(map.remove(500), Some(250000));
    assert_eq!(map.get(500), None);
    assert_eq!(map.len(), 999);
    assert_eq!(map.get_mru(999), Some(&998001));
    assert_eq!(entries(&map)[0], (999, 998001));
    // the entry that stood first has taken the place of the one that moved
    assert_eq!(entries(&map)[998], (0, 0));
}

#[test]
fn second_insert_replaces_and_returns_the_first_value() {
    let mut map: CompactDict<usize, usize> = CompactDict::new();
    map.insert(7, 1);
    map.insert(3, 2);
    assert_eq!(map.insert(9, 10), None);
    let len = map.len();
    assert_eq!(map.insert(9, 20), Some(10));
    assert_eq!(map.len(), len);
    assert_eq!(map.get(9), Some(&20));
    assert_eq!(entries(&map), vec![(7, 1), (3, 2), (9, 20)]);
}

#[test]
fn most_recently_used_goes_to_the_front() {
    let mut map: CompactDict<usize, usize> = CompactDict::new();
    for key in 0..5 {
        map.insert(key, key + 100);
    }
    assert_eq!(map.get_mru(3), Some(&103));
    assert_eq!(
        entries(&map),
        vec![(3, 103), (1, 101), (2, 102), (0, 100), (4, 104)]
    );
    assert_eq!(map.get_mru(3), Some(&103));
    assert_eq!(
        entries(&map),
        vec![(3, 103), (1, 101), (2, 102), (0, 100), (4, 104)]
    );
    assert_eq!(map.get_mru(77), None);
    assert_eq!(map.len(), 5);
}

#[test]
fn most_frequently_used_moves_one_step() {
    let mut map: CompactDict<usize, usize> = CompactDict::new();
    for key in 0..5 {
        map.insert(key, key + 100);
    }
    assert_eq!(map.get_mfu(3), Some(&103));
    assert_eq!(
        entries(&map),
        vec![(0, 100), (1, 101), (3, 103), (2, 102), (4, 104)]
    );
    assert_eq!(map.get_mfu(0), Some(&100));
    assert_eq!(
        entries(&map),
        vec![(0, 100), (1, 101), (3, 103), (2, 102), (4, 104)]
    );
    assert_eq!(map.get_mfu(77), None);
}

#[test]
fn removal_keeps_the_order_of_the_others() {
    let mut map: CompactDict<usize, usize> = CompactDict::new();
    for key in 0..5 {
        map.insert(key, key + 100);
    }
    assert_eq!(map.remove(2), Some(102));
    assert_eq!(map.get(2), None);
    assert_eq!(map.len(), 4);
    assert_eq!(entries(&map), vec![(0, 100), (1, 101), (3, 103), (4, 104)]);
    assert_eq!(map.remove(2), None);
    assert_eq!(map.len(), 4);
    assert!(!map.contains_key(2));
}

#[test]
fn get_mut_writes_through() {
    let mut map: CompactDict<usize, usize> = CompactDict::with_capacity(4);
    assert!(map.is_empty());
    map.insert(1, 10);
    map.insert(2, 20);
    *map.get_mut(2).unwrap() += 5;
    assert_eq!(map.get(2), Some(&25));
    assert_eq!(map.get(1), Some(&10));
    assert!(map.get_mut(3).is_none());
}

#[test]
fn from_pairs_and_extend() {
    let mut map: CompactDict<usize, usize> =
        CompactDict::from_iter(vec![(1, 10), (2, 20), (1, 11)]);
    assert_eq!(entries(&map), vec![(1, 11), (2, 20)]);
    map.extend(vec![(3, 30), (2, 21)]);
    assert_eq!(entries(&map), vec![(1, 11), (2, 21), (3, 30)]);
    let empty: CompactDict<usize, usize> = CompactDict::default();
    assert_eq!(empty.len(), 0);
}

#[test]
fn clone_is_independent() {
    let mut map: CompactDict<usize, usize> = CompactDict::new();
    map.insert(1, 10);
    map.insert(2, 20);
    let mut copy = map.clone();
    copy.insert(1, 99);
    assert_eq!(entries(&map), vec![(1, 10), (2, 20)]);
    assert_eq!(entries(&copy), vec![(1, 99), (2, 20)]);
}

#[test]
fn get_iter_of_absent_key_is_empty() {
    let mut map: CompactDict<usize, CompactVec<usize>> = CompactDict::new();
    map.push_at(1, 5);
    map.push_at(1, 6);
    map.push_at(2, 7);
    assert_eq!(map.get_iter(1).copied().collect::<Vec<_>>(), vec![5, 6]);
    assert_eq!(map.get_iter(3).count(), 0);
    assert_eq!(map.remove_iter(3).count(), 0);
    assert_eq!(map.remove_iter(1).collect::<Vec<_>>(), vec![5, 6]);
    assert_eq!(map.len(), 1);
}

#[test]
fn dictionary_sizes() {
    let mut map: CompactDict<usize, usize> = CompactDict::new();
    assert!(map.is_still_compact());
    assert_eq!(map.dynamic_size_bytes(), 0);
    assert_eq!(map.total_size_bytes(), 34);
    map.insert(1, 10);
    map.insert(2, 20);
    assert!(!map.is_still_compact());
    // two keys and two values of eight bytes each
    assert_eq!(map.dynamic_size_bytes(), 32);
    assert_eq!(map.total_size_bytes(), 66);
    assert_eq!(CompactDict::<usize, usize>::fixed_size_bytes(), 34);
}

#[test]
fn dictionary_round_trip() {
    let mut map: CompactDict<usize, CompactVec<usize>> = CompactDict::new();
    map.push_at(4, 40);
    map.push_at(4, 41);
    map.push_at(9, 90);
    let total = map.total_size_bytes();
    // fixed 34; keys 2 * 8; values 2 * 17 fixed and 3 * 8 behind them
    assert_eq!(total, 34 + 16 + 34 + 24);
    let mut region = vec![0xau8; total + 10];
    map.compact_behind(&mut region, 5);
    assert_eq!(&region[..5], &[0xa; 5]);
    assert_eq!(&region[5 + total..], &[0xa; 5]);
    let back = CompactDict::<usize, CompactVec<usize>>::decompact(&region, 5);
    assert_eq!(back.len(), 2);
    assert_eq!(back.get(4).unwrap().as_slice(), &[40, 41]);
    assert_eq!(back.get(9).unwrap().as_slice(), &[90]);
    assert!(!back.is_still_compact());
    // the bytes can be moved as a whole and still be read
    let mut moved = vec![0u8; 3];
    moved.extend_from_slice(&region[5..5 + total]);
    let again = CompactDict::<usize, CompactVec<usize>>::decompact(&moved, 3);
    assert_eq!(again.get(4).unwrap().as_slice(), &[40, 41]);
    assert_eq!(again.get(9).unwrap().as_slice(), &[90]);
}

#[test]
fn storage_decides_whether_a_dictionary_is_compact() {
    let fresh: CompactDict<usize, usize> = CompactDict::new();
    assert!(fresh.is_still_compact());
    let roomy: CompactDict<usize, usize> = CompactDict::with_capacity(8);
    assert!(roomy.is_empty());
    assert!(!roomy.is_still_compact());
    let mut map: CompactDict<usize, usize> = CompactDict::new();
    map.insert(1, 1);
    assert_eq!(map.remove(1), Some(1));
    // the storage stays with the dictionary when the entry leaves
    assert!(map.is_empty());
    assert!(!map.is_still_compact());
    assert!(!map.clone().is_still_compact());
}
