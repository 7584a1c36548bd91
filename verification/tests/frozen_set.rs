use splynters::frozen::FrozenSplinter;
use splynters::splinter::SplinterWrapper;

#[test]
fn frozen_set_answers_as_the_editable_one() {
    let keys: Vec<u32> = vec![0, 1, 5, 300, 65536, 65537, 1 << 24, u32::MAX];
    let set = SplinterWrapper::from_list(keys.clone());
    let frozen = set.clone().freeze();
    assert_eq!(frozen.len(), set.len());
    for key in [0, 1, 2, 5, 299, 300, 301, 65536, 65538, 1 << 24, u32::MAX - 1, u32::MAX] {
        assert_eq!(frozen.contains_key(key), set.contains_key(key));
        assert_eq!(frozen.rank(key), set.rank(key));
    }
    for idx in 0..keys.len() + 2 {
        assert_eq!(frozen.select(idx), set.select(idx));
    }
    assert_eq!(frozen.select(3), Some(300));
    assert_eq!(frozen.rank(300), 4);
}

#[test]
fn frozen_empty_set_holds_nothing() {
    let frozen = SplinterWrapper::new().freeze();
    assert_eq!(frozen.len(), 0);
    assert!(!frozen.contains_key(0));
    assert_eq!(frozen.select(0), None);
    assert_eq!(frozen.rank(u32::MAX), 0);
}

#[test]
fn frozen_bytes_are_the_serialised_set() {
    let mut set = SplinterWrapper::from_list(vec![9, 8, 7]);
    let bytes = set.to_bytes();
    let frozen = FrozenSplinter::from_bytes(bytes.clone()).unwrap();
    assert_eq!(frozen.as_bytes(), &bytes);
    assert_eq!(set.freeze().as_bytes(), &bytes);
}

#[test]
fn thaw_gives_an_independent_editable_set() {
    let frozen = SplinterWrapper::from_list(vec![1, 2, 3]).freeze();
    let mut set = frozen.thaw();
    set.insert(4);
    assert_eq!(set.to_list(), vec![1, 2, 3, 4]);
    assert_eq!(frozen.len(), 3);
    assert!(!frozen.contains_key(4));
    assert_eq!(frozen.thaw().to_list(), vec![1, 2, 3]);
}
