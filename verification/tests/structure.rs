use splynters::format::check_structure;
use splynters::frozen::FrozenSplinter;
use splynters::splinter::SplinterWrapper;
use splynters::types::DecodeError;

const FOOTER: usize = 12;

/// CRC-64/NVME, bit by bit.
fn checksum(data: &[u8]) -> u64 {
    let mut crc = u64::MAX;
    for byte in data {
        crc ^= *byte as u64;
        for _ in 0..8 {
            crc = if crc & 1 == 1 { (crc >> 1) ^ 0x9A6C_9329_AC4B_C9B5 } else { crc >> 1 };
        }
    }
    !crc
}

fn sealed(body: &[u8]) -> Vec<u8> {
    let mut buf = body.to_vec();
    buf.extend_from_slice(&checksum(body).to_le_bytes());
    buf.extend_from_slice(&[0x59, 0x11, 0xA7, 0xE2]);
    buf
}

fn shapes() -> Vec<Vec<u32>> {
    vec![
        vec![],
        vec![0],
        vec![u32::MAX],
        vec![1, 5, 300, 65536, 65537],
        (0..300).collect(),
        (0..70000).collect(),
        (0..3000).map(|k| k * 5).collect(),
        (0..2000).map(|k| k * 70001).collect(),
        (0..400).map(|k| k * 16_777_259).collect(),
        (0..40000).filter(|k| k % 7 != 3).collect(),
        (0..100).flat_map(|k| (k * 1_000_000)..(k * 1_000_000 + 50 + k)).collect(),
        (0..256).map(|k| k << 24).collect(),
        (0..300).map(|k| (k << 16) | (k % 9)).collect(),
    ]
}

/// Reads everything from a decoded set; a set that was let through has to answer.
fn read_all(set: &SplinterWrapper) {
    let list = set.to_list();
    assert_eq!(list.len(), set.len());
    assert!(list.windows(2).all(|pair| pair[0] < pair[1]));
    for (idx, key) in list.iter().enumerate().take(50) {
        assert!(set.contains_key(*key));
        assert_eq!(set.select(idx), Some(*key));
        assert_eq!(set.rank(*key), idx + 1);
    }
    assert_eq!(set.select(list.len()), None);
}

#[test]
fn what_to_bytes_writes_is_well_formed() {
    for keys in shapes() {
        let mut set = SplinterWrapper::from_list(keys);
        let bytes = set.to_bytes();
        assert!(check_structure(&bytes));
        assert_eq!(SplinterWrapper::from_bytes(&bytes).unwrap().to_list(), set.to_list());
    }
}

#[test]
fn results_of_the_algebra_serialise_well_formed() {
    let sets: Vec<SplinterWrapper> = shapes().into_iter().map(SplinterWrapper::from_list).collect();
    for a in &sets {
        for b in &sets {
            for mut out in [a.and(b), a.or(b), a.xor(b), a.difference(b)] {
                let bytes = out.to_bytes();
                assert!(check_structure(&bytes));
                assert_eq!(SplinterWrapper::from_bytes(&bytes).unwrap().to_list(), out.to_list());
            }
            let mut rest = a.clone();
            let mut removed = rest.cut(b);
            assert!(check_structure(&rest.to_bytes()));
            assert!(check_structure(&removed.to_bytes()));
        }
    }
}

#[test]
fn edited_sets_serialise_well_formed() {
    let mut set = SplinterWrapper::from_list((0..5000).map(|k| k * 13).collect());
    for key in (0..65000).step_by(13 * 7) {
        let _ = set.discard_key(key);
        assert!(set.insert(key + 1));
    }
    set.discard_many(&(0..2000).map(|k| k * 13).collect());
    let bytes = set.to_bytes();
    assert!(check_structure(&bytes));
    read_all(&SplinterWrapper::from_bytes(&bytes).unwrap());
}

#[test]
fn short_buffers_have_no_structure() {
    assert!(!check_structure(&[]));
    assert!(!check_structure(&[0; 11]));
    assert!(!check_structure(&[0xFF; 12]));
    assert!(check_structure(&sealed(&[0])));
    assert!(check_structure(&sealed(&[1])));
    assert!(!check_structure(&sealed(&[6])));
}

#[test]
fn empty_buffer_is_turned_down() {
    assert_eq!(SplinterWrapper::from_bytes(&[]).err(), Some(DecodeError::Length));
    assert_eq!(FrozenSplinter::from_bytes(vec![]).err(), Some(DecodeError::Length));
}

#[test]
fn smallest_buffers_decode() {
    assert_eq!(SplinterWrapper::from_bytes(&sealed(&[0])).unwrap().len(), 0);
    let full = FrozenSplinter::from_bytes(sealed(&[1])).unwrap();
    assert_eq!(full.len(), 1 << 32);
    assert!(full.contains_key(u32::MAX));
    assert_eq!(full.select(7), Some(7));
    assert_eq!(full.rank(9), 10);
}

#[test]
fn list_out_of_order_is_turned_down() {
    // two four-byte values, count less one, kind 3
    let good = sealed(&[0, 0, 0, 1, 0, 0, 0, 2, 0, 0, 0, 1, 3]);
    assert_eq!(SplinterWrapper::from_bytes(&good).unwrap().to_list(), vec![1, 2]);
    let swapped = sealed(&[0, 0, 0, 2, 0, 0, 0, 1, 0, 0, 0, 1, 3]);
    assert_eq!(SplinterWrapper::from_bytes(&swapped).err(), Some(DecodeError::Validity));
    let repeated = sealed(&[0, 0, 0, 2, 0, 0, 0, 2, 0, 0, 0, 1, 3]);
    assert_eq!(SplinterWrapper::from_bytes(&repeated).err(), Some(DecodeError::Validity));
}

#[test]
fn runs_that_overlap_or_touch_are_turned_down() {
    let good = sealed(&[0, 0, 0, 1, 0, 0, 0, 3, 0, 0, 0, 5, 0, 0, 0, 5, 0, 0, 0, 1, 4]);
    assert_eq!(SplinterWrapper::from_bytes(&good).unwrap().to_list(), vec![1, 2, 3, 5]);
    let touching = sealed(&[0, 0, 0, 1, 0, 0, 0, 3, 0, 0, 0, 4, 0, 0, 0, 5, 0, 0, 0, 1, 4]);
    assert_eq!(SplinterWrapper::from_bytes(&touching).err(), Some(DecodeError::Validity));
    let overlapping = sealed(&[0, 0, 0, 1, 0, 0, 0, 3, 0, 0, 0, 2, 0, 0, 0, 5, 0, 0, 0, 1, 4]);
    assert_eq!(SplinterWrapper::from_bytes(&overlapping).err(), Some(DecodeError::Validity));
    let backwards = sealed(&[0, 0, 0, 3, 0, 0, 0, 1, 0, 0, 0, 0, 4]);
    assert_eq!(SplinterWrapper::from_bytes(&backwards).err(), Some(DecodeError::Validity));
}

#[test]
fn tree_with_a_broken_child_is_turned_down() {
    // child: the three-byte value 7 as a list; tree: distance 0, total less one 0,
    // leading byte 2, one child, kind 5
    let child = [0, 0, 7, 0, 0, 0, 3];
    let index = [0, 0, 0, 0, 0, 0, 0, 0, 2, 0, 5];
    let good = sealed(&[&child[..], &index[..]].concat());
    assert_eq!(SplinterWrapper::from_bytes(&good).unwrap().to_list(), vec![(2 << 24) | 7]);

    let mut bad_kind = child;
    bad_kind[6] = 9;
    let buf = sealed(&[&bad_kind[..], &index[..]].concat());
    assert_eq!(SplinterWrapper::from_bytes(&buf).err(), Some(DecodeError::Validity));

    let mut far = index;
    far[3] = 200;
    let buf = sealed(&[&child[..], &far[..]].concat());
    assert_eq!(SplinterWrapper::from_bytes(&buf).err(), Some(DecodeError::Validity));

    let mut wrong_total = index;
    wrong_total[7] = 4;
    let buf = sealed(&[&child[..], &wrong_total[..]].concat());
    assert_eq!(SplinterWrapper::from_bytes(&buf).err(), Some(DecodeError::Validity));

    let empty_child = [0u8];
    let buf = sealed(&[&empty_child[..], &index[..]].concat());
    assert_eq!(SplinterWrapper::from_bytes(&buf).err(), Some(DecodeError::Validity));
}

#[test]
fn any_changed_byte_is_turned_down_or_decodes_to_a_sound_set() {
    for keys in shapes() {
        let mut set = SplinterWrapper::from_list(keys);
        let bytes = set.to_bytes();
        let body = bytes.len() - FOOTER;
        let step = 1 + body / 400;
        for at in (0..body).rev().step_by(step) {
            for flip in [0x01u8, 0x80, 0xFF] {
                let mut changed = bytes[..body].to_vec();
                changed[at] ^= flip;
                let buf = sealed(&changed);
                match SplinterWrapper::from_bytes(&buf) {
                    Ok(decoded) => {
                        assert!(check_structure(&buf));
                        if decoded.len() < 200_000 {
                            read_all(&decoded);
                        }
                    }
                    Err(e) => assert!(e == DecodeError::Validity || e == DecodeError::Length),
                }
            }
        }
    }
}

#[test]
fn tree_of_shared_children_decodes_and_is_written_anew() {
    // one list of the values 0..=255, which all 256 children of a 16-bit tree share
    let mut body: Vec<u8> = (0..=255).collect();
    body.extend_from_slice(&[255, 3]);
    body.extend_from_slice(&[0; 512]);
    for child in 1..=256u32 {
        body.extend_from_slice(&((child * 256 - 1) as u16).to_be_bytes());
    }
    body.extend_from_slice(&[255, 5]);
    // a 24-bit and a 32-bit tree above it, each with the one child 0
    body.extend_from_slice(&[0, 0, 0, 0, 0xFF, 0xFF, 0, 0, 5]);
    body.extend_from_slice(&[0, 0, 0, 0, 0, 0, 0xFF, 0xFF, 0, 0, 5]);
    let buf = sealed(&body);
    assert!(check_structure(&buf));

    let frozen = FrozenSplinter::from_bytes(buf.clone()).unwrap();
    assert_eq!(frozen.len(), 65536);
    assert_eq!(frozen.select(300), Some(300));
    assert_eq!(frozen.rank(1000), 1001);
    assert_eq!(frozen.to_list(), (0..65536).collect::<Vec<u32>>());

    let mut set = SplinterWrapper::from_bytes(&buf).unwrap();
    assert_eq!(set.len(), 65536);
    let written = set.to_bytes();
    assert!(check_structure(&written));
    assert!(written.len() < buf.len());
    assert_eq!(SplinterWrapper::from_bytes(&written).unwrap().to_list(), set.to_list());
}

#[test]
fn frozen_list_is_the_editable_list() {
    for keys in shapes() {
        let set = SplinterWrapper::from_list(keys);
        assert_eq!(set.clone().freeze().to_list(), set.to_list());
    }
}

#[test]
fn frozen_set_lists_its_keys() {
    let keys: Vec<u32> = vec![9, 70000, 3, 1 << 30];
    let frozen = SplinterWrapper::from_list(keys).freeze();
    assert_eq!(frozen.to_list(), vec![3, 9, 70000, 1 << 30]);
    assert_eq!(SplinterWrapper::new().freeze().to_list(), Vec::<u32>::new());
}
