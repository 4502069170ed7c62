use wnfs::cid::{Cid, CidSet};
use wnfs::forest::bucket::Bucket;
use wnfs::forest::hamt::{nibble_at, split, Node, HAMT_BUCKET_SIZE, HAMT_DEPTH, HAMT_FANOUT};

fn set(bytes: &[u8]) -> CidSet {
    CidSet::singleton(Cid::from_bytes(bytes.to_vec()))
}

fn digest(label: &[u8]) -> [u8; 32] {
    blake3::hash(label).into()
}

#[test]
fn nibbles_go_from_the_high_half_to_the_low_half() {
    let mut d = [0u8; 32];
    d[0] = 0xa7;
    d[1] = 0x0f;
    d[31] = 0x3c;
    assert_eq!(nibble_at(&d, 0), 0xa);
    assert_eq!(nibble_at(&d, 1), 0x7);
    assert_eq!(nibble_at(&d, 2), 0x0);
    assert_eq!(nibble_at(&d, 3), 0xf);
    assert_eq!(nibble_at(&d, 62), 0x3);
    assert_eq!(nibble_at(&d, 63), 0xc);
    assert_eq!(HAMT_FANOUT, 16);
    assert_eq!(HAMT_DEPTH, 64);
    assert_eq!(HAMT_BUCKET_SIZE, 3);
}

#[test]
fn buckets_hold_labels_in_order() {
    let mut bucket = Bucket::new();
    assert_eq!(bucket.len(), 0);
    assert!(bucket.get(&[1]).is_none());
    bucket.put_set(vec![2], &set(&[20]));
    bucket.put_set(vec![1], &set(&[10]));
    bucket.put_set(vec![2], &set(&[21]));
    assert_eq!(bucket.len(), 2);
    assert_eq!(bucket.label_at(0), &vec![1]);
    assert_eq!(bucket.label_at(1), &vec![2]);
    assert_eq!(bucket.set_at(0).to_vec(), vec![Cid::from_bytes(vec![10])]);
    assert_eq!(
        bucket.get(&[2]).unwrap().to_vec(),
        vec![Cid::from_bytes(vec![20]), Cid::from_bytes(vec![21])]
    );
    let copy = bucket.clone();
    assert_eq!(copy.len(), 2);
    assert_eq!(copy.get(&[1]).unwrap().to_vec(), vec![Cid::from_bytes(vec![10])]);
}

#[test]
fn a_node_finds_what_was_put() {
    let mut node = Node::empty();
    let labels: Vec<Vec<u8>> = (0..100u8).map(|i| vec![i, i]).collect();
    for label in &labels {
        assert!(node.lookup(0, &digest(label), label).is_none());
        node.put_set(0, &digest(label), label.clone(), &set(label));
    }
    for label in &labels {
        let found = node.lookup(0, &digest(label), label).unwrap();
        assert_eq!(found.to_vec(), vec![Cid::from_bytes(label.clone())]);
    }
    assert!(node.lookup(0, &digest(&[1]), &[1]).is_none());

    // A copy is a node of its own.
    let copy = node.clone();
    node.put_set(0, &digest(&[1]), vec![1], &set(&[1]));
    assert!(copy.lookup(0, &digest(&[1]), &[1]).is_none());
    assert!(node.lookup(0, &digest(&[1]), &[1]).is_some());
}

#[test]
fn split_keeps_what_the_bucket_held() {
    let mut bucket = Bucket::new();
    let labels: Vec<Vec<u8>> = (0..6u8).map(|i| vec![i]).collect();
    for label in &labels {
        bucket.put_set(label.clone(), &set(label));
    }
    for depth in [0usize, 1, 63] {
        let node = split(&bucket, depth);
        for label in &labels {
            let found = node.lookup(depth, &digest(label), label).unwrap();
            assert_eq!(found.to_vec(), vec![Cid::from_bytes(label.clone())]);
        }
        assert!(node.lookup(depth, &digest(&[9]), &[9]).is_none());
    }
}
