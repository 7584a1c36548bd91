use splynters::splinter::SplinterWrapper;

fn set_of(keys: &[u32]) -> SplinterWrapper {
    SplinterWrapper::from_list(keys.to_vec())
}

fn sample_sets() -> Vec<SplinterWrapper> {
    vec![
        set_of(&[]),
        set_of(&[0]),
        set_of(&[1, 2, 3]),
        set_of(&[2, 3, 4, 70000]),
        set_of(&[u32::MAX, 0, 65535, 65536]),
        SplinterWrapper::from_list((100..400).collect()),
        SplinterWrapper::from_list((0..3000).map(|k| k * 5).collect()),
    ]
}

#[test]
fn inserting_twice_is_inserting_once() {
    for set in sample_sets() {
        for key in [0, 3, 150, 70000, u32::MAX] {
            let mut once = set.clone();
            once.insert(key);
            let mut twice = once.clone();
            assert!(!twice.insert(key));
            assert_eq!(twice.to_list(), once.to_list());
        }
    }
}

#[test]
fn removing_an_absent_key_changes_nothing() {
    for set in sample_sets() {
        let mut edited = set.clone();
        assert!(!edited.discard_key(77777));
        assert!(edited.remove_key(77777).is_err());
        assert_eq!(edited.to_list(), set.to_list());
    }
}

#[test]
fn and_and_or_commute() {
    let sets = sample_sets();
    for a in &sets {
        for b in &sets {
            assert_eq!(a.and(b).to_list(), b.and(a).to_list());
            assert_eq!(a.or(b).to_list(), b.or(a).to_list());
        }
    }
}

#[test]
fn and_associates() {
    let sets = sample_sets();
    for a in &sets {
        for b in &sets {
            for c in &sets {
                assert_eq!(a.and(b).and(c).to_list(), a.and(&b.and(c)).to_list());
            }
        }
    }
}

#[test]
fn xor_with_the_shared_keys_is_the_difference() {
    let sets = sample_sets();
    for a in &sets {
        for b in &sets {
            assert_eq!(a.xor(&a.and(b)).to_list(), a.difference(b).to_list());
        }
    }
}

#[test]
fn sizes_of_and_and_or_add_up() {
    let sets = sample_sets();
    for a in &sets {
        for b in &sets {
            assert_eq!(a.and(b).len() + a.or(b).len(), a.len() + b.len());
        }
    }
    let a = set_of(&[1, 2, 3]);
    let b = set_of(&[2, 3, 4, 70000]);
    assert_eq!(a.and(&b).len(), 2);
    assert_eq!(a.or(&b).len(), 5);
}

#[test]
fn rank_and_select_undo_each_other() {
    for set in sample_sets() {
        for idx in 0..set.len() {
            let key = set.select(idx).unwrap();
            assert_eq!(set.rank(key), idx + 1);
        }
        for key in set.to_list() {
            assert_eq!(set.select(set.rank(key) - 1), Some(key));
        }
        assert_eq!(set.select(set.len()), None);
    }
}

#[test]
fn listing_agrees_with_select() {
    for set in sample_sets() {
        let list = set.to_list();
        assert_eq!(list.len(), set.len());
        for (idx, key) in list.iter().enumerate() {
            assert_eq!(set.select(idx), Some(*key));
        }
        assert!(list.windows(2).all(|pair| pair[0] < pair[1]));
    }
}

#[test]
fn cut_parts_are_disjoint_and_complete() {
    let sets = sample_sets();
    for a in &sets {
        for b in &sets {
            let mut rest = a.clone();
            let removed = rest.cut(b);
            assert_eq!(removed.to_list(), a.and(b).to_list());
            assert_eq!(rest.to_list(), a.difference(b).to_list());
            assert_eq!(removed.and(&rest).len(), 0);
            assert_eq!(removed.or(&rest).to_list(), a.to_list());
        }
    }
}
