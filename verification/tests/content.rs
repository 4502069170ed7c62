use wnfs::accumulator::{AccumulatorSetup, NameSegment};
use wnfs::cid::Cid;
use wnfs::error::FsError;
use wnfs::forest::Forest;
use wnfs::name::Name;
use wnfs::private::content::{
    block_count, create_base_name, create_block_name, encrypt_block, generate_shard_labels,
    split_blocks, PrivateForestContent, MAX_BLOCK_CONTENT_SIZE,
};
use wnfs::private::keys::SnapshotKey;

fn setup() -> AccumulatorSetup {
    AccumulatorSetup::from_rsa_2048(&mut rand::thread_rng())
}

#[test]
fn block_counts() {
    assert_eq!(block_count(0, 4), 0);
    assert_eq!(block_count(1, 4), 1);
    assert_eq!(block_count(4, 4), 1);
    assert_eq!(block_count(5, 4), 2);
    assert_eq!(block_count(8, 4), 2);
    assert_eq!(block_count(9, 4), 3);
    assert_eq!(block_count(usize::MAX, 1), usize::MAX);
    assert_eq!(block_count(usize::MAX, usize::MAX), 1);
    assert_eq!(block_count(MAX_BLOCK_CONTENT_SIZE + 1, MAX_BLOCK_CONTENT_SIZE), 2);
    assert_eq!(MAX_BLOCK_CONTENT_SIZE, 262144 - 24 - 16);
}

#[test]
fn blocks_are_cut_in_order() {
    assert_eq!(split_blocks(&[], 3), Vec::<Vec<u8>>::new());
    assert_eq!(split_blocks(&[1], 3), vec![vec![1]]);
    assert_eq!(split_blocks(&[1, 2, 3], 3), vec![vec![1, 2, 3]]);
    assert_eq!(
        split_blocks(&[1, 2, 3, 4, 5, 6, 7], 3),
        vec![vec![1, 2, 3], vec![4, 5, 6], vec![7]]
    );
    let content: Vec<u8> = (0..100u8).collect();
    let blocks = split_blocks(&content, 7);
    assert_eq!(blocks.len(), 15);
    assert_eq!(blocks.concat(), content);
}

#[test]
fn shard_labels_depend_on_key_index_and_base_only() {
    let setup = setup();
    let key = SnapshotKey([1u8; 32]);
    let base = Name::empty(&setup);
    let labels = generate_shard_labels(&key, 0, 3, &base);
    let again = generate_shard_labels(&key, 0, 3, &base);
    assert_eq!(labels.len(), 3);
    for i in 0..3 {
        assert!(labels[i].equals(&again[i]));
        assert!(labels[i].equals(&create_block_name(&key, i as u64, &base)));
        assert_eq!(labels[i].segment_count(), 1);
    }
    assert!(!labels[0].equals(&labels[1]));
    assert!(!labels[1].equals(&labels[2]));
    // A later start leaves the names of the later blocks as they are.
    let tail = generate_shard_labels(&key, 1, 3, &base);
    assert_eq!(tail.len(), 2);
    assert!(tail[0].equals(&labels[1]));
    assert!(tail[1].equals(&labels[2]));
    assert!(generate_shard_labels(&key, 3, 3, &base).is_empty());
    assert!(generate_shard_labels(&key, 5, 3, &base).is_empty());
    // Another key, other names.
    let other = generate_shard_labels(&SnapshotKey([2u8; 32]), 0, 1, &base);
    assert!(!other[0].equals(&labels[0]));
    // The segment is the hash of the key and the index in little-endian order.
    let mut data = vec![1u8; 32];
    data.extend_from_slice(&2u64.to_le_bytes());
    let segment = NameSegment::new_hashed("wnfs/1.0/segment derivation for file block", &data);
    assert!(labels[2].get_segments()[0].equals(&segment));
}

#[test]
fn base_name_hides_the_blocks_behind_the_key() {
    let setup = setup();
    let key = SnapshotKey([5u8; 32]);
    let file_name = Name::empty(&setup).with_segments_added(vec![NameSegment::new_hashed("t", b"f")]);
    let base = create_base_name(&key, &file_name);
    assert_eq!(base.segment_count(), 2);
    assert!(base.get_segments()[0].equals(&file_name.get_segments()[0]));
    let hiding = NameSegment::new_hashed(
        "wnfs/1.0/hiding segment derivation from content key",
        &[5u8; 32],
    );
    assert!(base.get_segments()[1].equals(&hiding));
}

#[test]
fn same_content_same_key_same_shards() {
    let setup = setup();
    let file_name = Name::empty(&setup);
    let key = SnapshotKey([9u8; 32]);
    let content: Vec<u8> = (0..(2 * MAX_BLOCK_CONTENT_SIZE + 10)).map(|i| (i % 251) as u8).collect();

    let (one, shards_one) = PrivateForestContent::encode(key, &file_name, &content, &setup);
    let (two, shards_two) = PrivateForestContent::encode(key, &file_name, &content, &setup);
    assert_eq!(one.block_count, 3);
    assert_eq!(one.block_content_size, MAX_BLOCK_CONTENT_SIZE as u64);
    assert_eq!(two.block_count, 3);
    assert!(one.base_name.equals(&two.base_name));
    assert_eq!(shards_one.len(), 3);
    for i in 0..3 {
        assert!(shards_one[i].label.equals(&shards_two[i].label));
        assert_eq!(shards_one[i].ciphertext, shards_two[i].ciphertext);
    }
    assert_eq!(shards_one[0].ciphertext.len(), MAX_BLOCK_CONTENT_SIZE + 40);
    assert_eq!(shards_one[2].ciphertext.len(), 10 + 40);

    // A change inside the second block changes that block and no other.
    let mut changed = content.clone();
    changed[MAX_BLOCK_CONTENT_SIZE + 5] ^= 0xff;
    let (_, shards_changed) = PrivateForestContent::encode(key, &file_name, &changed, &setup);
    assert_eq!(shards_changed[0].ciphertext, shards_one[0].ciphertext);
    assert_ne!(shards_changed[1].ciphertext, shards_one[1].ciphertext);
    assert_eq!(shards_changed[2].ciphertext, shards_one[2].ciphertext);
    for i in 0..3 {
        assert!(shards_changed[i].label.equals(&shards_one[i].label));
    }

    let blocks: Vec<Vec<u8>> = shards_changed.into_iter().map(|s| s.ciphertext).collect();
    assert_eq!(one.decrypt_blocks(&blocks).unwrap(), changed);
}

#[test]
fn block_ciphertext_is_bound_to_its_place() {
    let key = SnapshotKey([9u8; 32]);
    let a = encrypt_block(&key, 0, b"block").unwrap();
    assert_eq!(a, encrypt_block(&key, 0, b"block").unwrap());
    assert_ne!(a, encrypt_block(&key, 1, b"block").unwrap());
    assert_ne!(a, encrypt_block(&key, 0, b"clock").unwrap());
    assert_eq!(key.decrypt(&a).unwrap(), b"block".to_vec());
    let mut material = vec![9u8; 32];
    material.extend_from_slice(&0u64.to_le_bytes());
    material.extend_from_slice(b"block");
    let derived = blake3::derive_key("wnfs/1.0/nonce derivation for file block", &material);
    assert_eq!(&a[..24], &derived[..24]);
}

#[test]
fn content_goes_through_the_forest_and_back() {
    let rng = &mut rand::thread_rng();
    let setup = setup();
    let file_name = Name::empty(&setup).with_segments_added(vec![NameSegment::new(rng)]);
    let content: Vec<u8> = (0..(MAX_BLOCK_CONTENT_SIZE + 3)).map(|i| (i % 13) as u8).collect();
    let (external, shards) = PrivateForestContent::new(&file_name, &content, &setup, rng);
    assert_eq!(external.block_count, 2);
    assert_eq!(shards.len(), 2);

    // Nothing in the forest yet.
    let mut forest = Forest::new();
    assert!(matches!(external.shard_cids(&forest, &setup), Err(FsError::LabelNotFound)));

    // "Store" the blocks and file the identifiers.
    let mut blocks = Vec::new();
    let mut cids = Vec::new();
    for (i, shard) in shards.iter().enumerate() {
        let cid = Cid::from_bytes(blake3::hash(&shard.ciphertext).as_bytes().to_vec());
        forest.put(&shard.label, cid.clone(), &setup);
        if i == 0 {
            assert!(matches!(external.shard_cids(&forest, &setup), Err(FsError::LabelNotFound)));
        }
        blocks.push(shard.ciphertext.clone());
        cids.push(cid);
    }
    let labels = external.labels();
    assert_eq!(labels.len(), 2);
    assert!(labels[0].equals(&shards[0].label));
    assert!(labels[1].equals(&shards[1].label));
    assert_eq!(external.shard_cids(&forest, &setup).unwrap(), cids);
    assert_eq!(external.decrypt_blocks(&blocks).unwrap(), content);
}

#[test]
fn the_least_identifier_under_a_label_stands_for_the_block() {
    let rng = &mut rand::thread_rng();
    let setup = setup();
    let (external, shards) = PrivateForestContent::new(&Name::empty(&setup), b"payload", &setup, rng);
    let mut forest = Forest::new();
    forest.put(&shards[0].label, Cid::from_bytes(vec![7]), &setup);
    forest.put(&shards[0].label, Cid::from_bytes(vec![3]), &setup);
    forest.put(&shards[0].label, Cid::from_bytes(vec![5]), &setup);
    assert_eq!(
        external.shard_cids(&forest, &setup).unwrap(),
        vec![Cid::from_bytes(vec![3])]
    );
}

#[test]
fn bad_blocks_are_reported() {
    let rng = &mut rand::thread_rng();
    let setup = setup();
    let content: Vec<u8> = (0..(MAX_BLOCK_CONTENT_SIZE + 1)).map(|i| (i % 7) as u8).collect();
    let (external, shards) = PrivateForestContent::new(&Name::empty(&setup), &content, &setup, rng);
    let blocks: Vec<Vec<u8>> = shards.iter().map(|s| s.ciphertext.clone()).collect();
    assert_eq!(external.decrypt_blocks(&blocks).unwrap(), content);

    // A block is missing.
    assert!(matches!(external.decrypt_blocks(&blocks[..1].to_vec()), Err(FsError::BlockMissing)));
    assert!(matches!(external.decrypt_blocks(&vec![]), Err(FsError::BlockMissing)));
    let mut three = blocks.clone();
    three.push(blocks[1].clone());
    assert!(matches!(external.decrypt_blocks(&three), Err(FsError::BlockMissing)));

    // A block was changed.
    let mut changed = blocks.clone();
    changed[1][30] ^= 1;
    assert!(matches!(external.decrypt_blocks(&changed), Err(FsError::DecryptionFailure)));

    // A block opens, but holds more than a block may.
    let too_long = external.key.encrypt(&vec![0u8; MAX_BLOCK_CONTENT_SIZE + 1], rng).unwrap();
    let oversized = vec![blocks[0].clone(), too_long.clone()];
    assert!(matches!(external.decrypt_blocks(&oversized), Err(FsError::MalformedRecord)));

    // The first bad block decides.
    let mut first_bad = vec![changed[1].clone(), too_long.clone()];
    assert!(matches!(external.decrypt_blocks(&first_bad), Err(FsError::DecryptionFailure)));
    first_bad.swap(0, 1);
    assert!(matches!(external.decrypt_blocks(&first_bad), Err(FsError::MalformedRecord)));

    // Blocks in another order are another content.
    let swapped = vec![blocks[1].clone(), blocks[0].clone()];
    assert_ne!(external.decrypt_blocks(&swapped).unwrap(), content);
}

#[test]
fn empty_content_has_no_blocks() {
    let rng = &mut rand::thread_rng();
    let setup = setup();
    let (external, shards) = PrivateForestContent::new(&Name::empty(&setup), &[], &setup, rng);
    assert_eq!(external.block_count, 0);
    assert!(shards.is_empty());
    assert!(external.labels().is_empty());
    assert_eq!(external.shard_cids(&Forest::new(), &setup).unwrap(), vec![]);
    assert_eq!(external.decrypt_blocks(&vec![]).unwrap(), Vec::<u8>::new());
}
