use wnfs::accumulator::{AccumulatorSetup, NameSegment};
use wnfs::cid::{Cid, CidSet};
use wnfs::forest::{Forest, ForestEntrySerializable, ForestSerializable};
use wnfs::name::Name;

fn cid(bytes: &[u8]) -> Cid {
    Cid::from_bytes(bytes.to_vec())
}

fn sorted_labels(forest: &Forest) -> Vec<Vec<u8>> {
    forest.labels()
}

fn forest_of(entries: &[(&[u8], &[u8])]) -> Forest {
    let mut forest = Forest::new();
    for (label, c) in entries {
        forest.put_encrypted(label.to_vec(), cid(c));
    }
    forest
}

#[test]
fn put_adds_and_never_overwrites() {
    let mut forest = Forest::new();
    assert!(forest.labels().is_empty());
    assert!(forest.get_encrypted_by_label(&[1]).is_none());
    forest.put_encrypted(vec![1], cid(&[10]));
    forest.put_encrypted(vec![1], cid(&[11]));
    forest.put_encrypted(vec![0], cid(&[12]));
    forest.put_encrypted(vec![1], cid(&[10]));
    assert_eq!(sorted_labels(&forest), vec![vec![0], vec![1]]);
    assert_eq!(
        forest.get_encrypted_by_label(&[1]).unwrap().to_vec(),
        vec![cid(&[10]), cid(&[11])]
    );
    assert_eq!(forest.get_encrypted_by_label(&[0]).unwrap().to_vec(), vec![cid(&[12])]);
    assert!(forest.get_encrypted_by_label(&[2]).is_none());
}

#[test]
fn put_set_joins_with_what_is_there() {
    let mut forest = forest_of(&[(&[1], &[5])]);
    forest.put_set(vec![1], &CidSet::from_vec(&vec![cid(&[4]), cid(&[5]), cid(&[6])]));
    forest.put_set(vec![2], &CidSet::singleton(cid(&[7])));
    assert_eq!(
        forest.get_encrypted_by_label(&[1]).unwrap().to_vec(),
        vec![cid(&[4]), cid(&[5]), cid(&[6])]
    );
    assert_eq!(forest.get_encrypted_by_label(&[2]).unwrap().to_vec(), vec![cid(&[7])]);
}

#[test]
fn merge_is_a_join() {
    let a = forest_of(&[(&[1], &[10]), (&[2], &[20]), (&[3], &[30])]);
    let b = forest_of(&[(&[2], &[21]), (&[4], &[40]), (&[3], &[30])]);
    let c = forest_of(&[(&[0], &[1]), (&[2], &[20]), (&[2], &[22])]);

    let ab = a.merge(&b);
    assert!(ab.equals(&b.merge(&a)));
    assert!(a.merge(&a).equals(&a));
    assert!(a.merge(&b).merge(&c).equals(&a.merge(&b.merge(&c))));
    assert!(a.merge(&Forest::new()).equals(&a));
    assert!(Forest::new().merge(&a).equals(&a));
    assert!(!ab.equals(&a));

    assert_eq!(sorted_labels(&ab), vec![vec![1], vec![2], vec![3], vec![4]]);
    assert_eq!(ab.get_encrypted_by_label(&[1]).unwrap().to_vec(), vec![cid(&[10])]);
    assert_eq!(
        ab.get_encrypted_by_label(&[2]).unwrap().to_vec(),
        vec![cid(&[20]), cid(&[21])]
    );
    assert_eq!(ab.get_encrypted_by_label(&[3]).unwrap().to_vec(), vec![cid(&[30])]);
    assert_eq!(ab.get_encrypted_by_label(&[4]).unwrap().to_vec(), vec![cid(&[40])]);
    assert!(ab.clone().equals(&ab));
}

#[test]
fn names_are_filed_under_their_labels() {
    let rng = &mut rand::thread_rng();
    let setup = AccumulatorSetup::from_rsa_2048(rng);
    let a = NameSegment::new(rng);
    let b = NameSegment::new(rng);
    let root = Name::empty(&setup);
    let ab = root.with_segments_added(vec![a.clone(), b.clone()]);
    let ba = root.with_segments_added(vec![b.clone(), a.clone()]);
    let only_a = root.with_segments_added(vec![a.clone()]);

    let mut forest = Forest::new();
    assert!(!forest.has(&ab, &setup));
    assert!(forest.get(&ab, &setup).is_empty());
    forest.put(&ab, cid(&[1]), &setup);
    forest.put(&ba, cid(&[2]), &setup);
    forest.put(&only_a, cid(&[3]), &setup);

    // Both orders of the same segments are one label.
    assert_eq!(sorted_labels(&forest).len(), 2);
    assert!(forest.has(&ab, &setup));
    assert!(forest.has(&ba, &setup));
    assert_eq!(forest.get(&ab, &setup).to_vec(), vec![cid(&[1]), cid(&[2])]);
    assert_eq!(
        forest.get_encrypted(&ba, &setup).unwrap().to_vec(),
        vec![cid(&[1]), cid(&[2])]
    );
    assert_eq!(forest.get(&only_a, &setup).to_vec(), vec![cid(&[3])]);
    assert!(forest.get_encrypted(&root, &setup).is_none());

    let label = ab.into_accumulator(&setup).into_bytes();
    assert_eq!(
        forest.get_encrypted_by_label(&label).unwrap().to_vec(),
        vec![cid(&[1]), cid(&[2])]
    );
}

#[test]
fn many_labels_split_the_buckets() {
    let mut forest = Forest::new();
    let label = |i: u32| i.to_be_bytes().to_vec();
    for i in 0..500u32 {
        forest.put_encrypted(label(i), cid(&i.to_le_bytes()));
    }
    for i in (0..500u32).step_by(7) {
        forest.put_encrypted(label(i), cid(&[0xff]));
    }
    for i in 0..500u32 {
        let found = forest.get_encrypted_by_label(&label(i)).unwrap().to_vec();
        if i % 7 == 0 {
            let mut expected = vec![cid(&i.to_le_bytes()), cid(&[0xff])];
            expected.sort_by(|a, b| a.as_bytes().cmp(b.as_bytes()));
            assert_eq!(found, expected);
        } else {
            assert_eq!(found, vec![cid(&i.to_le_bytes())]);
        }
    }
    assert!(forest.get_encrypted_by_label(&label(500)).is_none());
    assert_eq!(sorted_labels(&forest), (0..500u32).map(label).collect::<Vec<_>>());
    assert_eq!(forest.labels().len(), 500);
}

#[test]
fn a_copy_does_not_follow_later_changes() {
    let mut forest = Forest::new();
    for i in 0..50u8 {
        forest.put_encrypted(vec![i], cid(&[i]));
    }
    let before = forest.clone();
    forest.put_encrypted(vec![7], cid(&[99]));
    forest.put_encrypted(vec![200], cid(&[1]));
    assert_eq!(before.get_encrypted_by_label(&[7]).unwrap().to_vec(), vec![cid(&[7])]);
    assert!(before.get_encrypted_by_label(&[200]).is_none());
    assert_eq!(
        forest.get_encrypted_by_label(&[7]).unwrap().to_vec(),
        vec![cid(&[7]), cid(&[99])]
    );
    assert!(!before.equals(&forest));
    assert!(before.merge(&forest).equals(&forest));
    assert!(forest.merge(&before).equals(&forest));
}

#[test]
fn merge_of_large_forests() {
    let mut a = Forest::new();
    let mut b = Forest::new();
    for i in 0..200u32 {
        a.put_encrypted(i.to_be_bytes().to_vec(), cid(&[1]));
    }
    for i in 100..300u32 {
        b.put_encrypted(i.to_be_bytes().to_vec(), cid(&[2]));
    }
    let ab = a.merge(&b);
    assert!(ab.equals(&b.merge(&a)));
    for i in 0..300u32 {
        let found = ab.get_encrypted_by_label(&i.to_be_bytes()).unwrap().to_vec();
        let expected = match i {
            0..=99 => vec![cid(&[1])],
            100..=199 => vec![cid(&[1]), cid(&[2])],
            _ => vec![cid(&[2])],
        };
        assert_eq!(found, expected);
    }
    assert!(ab.merge(&a).equals(&ab));
    assert!(!ab.equals(&a));
    assert!(!a.equals(&ab));
}

#[test]
fn forest_record_round_trip() {
    let forest = forest_of(&[(&[2], &[21]), (&[1], &[10]), (&[2], &[20]), (&[3], &[30])]);
    let record = forest.to_serializable();
    let listed: Vec<(Vec<u8>, Vec<Cid>)> =
        record.entries.iter().map(|e| (e.label.clone(), e.cids.clone())).collect();
    assert_eq!(
        listed,
        vec![
            (vec![1], vec![cid(&[10])]),
            (vec![2], vec![cid(&[20]), cid(&[21])]),
            (vec![3], vec![cid(&[30])]),
        ]
    );
    let read = Forest::from_serializable(&record);
    assert!(read.equals(&forest));
    assert!(Forest::from_serializable(&Forest::new().to_serializable()).equals(&Forest::new()));

    let mut large = Forest::new();
    for i in 0..300u32 {
        large.put_encrypted(i.to_be_bytes().to_vec(), cid(&[1]));
        large.put_encrypted(i.to_be_bytes().to_vec(), cid(&i.to_le_bytes()));
    }
    let record = large.to_serializable();
    assert_eq!(record.entries.len(), 300);
    assert!(Forest::from_serializable(&record).equals(&large));
}

#[test]
fn forest_records_in_any_form_are_read() {
    let entry = |label: &[u8], cids: &[&[u8]]| ForestEntrySerializable {
        label: label.to_vec(),
        cids: cids.iter().map(|c| cid(c)).collect(),
    };
    // Labels out of order and twice, identifiers out of order and twice, and
    // an entry without identifiers.
    let record = ForestSerializable {
        entries: vec![
            entry(&[2], &[&[7], &[5], &[7]]),
            entry(&[9], &[]),
            entry(&[1], &[&[3]]),
            entry(&[2], &[&[6]]),
        ],
    };
    let read = Forest::from_serializable(&record);
    assert_eq!(read.labels(), vec![vec![1], vec![2]]);
    assert_eq!(read.get_encrypted_by_label(&[1]).unwrap().to_vec(), vec![cid(&[3])]);
    assert_eq!(
        read.get_encrypted_by_label(&[2]).unwrap().to_vec(),
        vec![cid(&[5]), cid(&[6]), cid(&[7])]
    );
    assert!(read.get_encrypted_by_label(&[9]).is_none());
}
