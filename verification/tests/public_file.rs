use chrono::{TimeZone, Utc};
use futures::executor::block_on;
use std::sync::Arc;
use wnfs::cid::{Cid, CidSet};
use wnfs::error::FsError;
use wnfs::metadata::Metadata;
use wnfs::public::file::{
    PublicDirectorySerializable, PublicFileSerializable, PublicNodeSerializable, StoreStep,
};
use wnfs::public::PublicFile;
use wnfs::traits::Id;
use wnfs::version::{is_readable_wnfs_version, wnfs_version, Version};
use wnfs_common::{BlockStore, MemoryBlockStore, CODEC_DAG_CBOR, CODEC_RAW};

fn put(store: &MemoryBlockStore, bytes: Vec<u8>, codec: u64) -> Cid {
    Cid::from_bytes(block_on(store.put_block(bytes, codec)).unwrap().to_bytes())
}

/// Stores a file the way a caller with a block store does: asks the file for
/// the step, puts the record, and reports the identifier back.
fn store_file(file: &mut Arc<PublicFile>, store: &MemoryBlockStore) -> Cid {
    match file.store() {
        StoreStep::Stored(cid) => cid,
        StoreStep::Put(record) => {
            let cid = put(store, format!("{:?}", record).into_bytes(), CODEC_DAG_CBOR);
            Arc::get_mut(file).unwrap().store_done(cid)
        }
    }
}

#[test]
fn previous_links_get_set() {
    let time = Utc::now().timestamp();
    let store = &MemoryBlockStore::default();

    let content_cid = put(store, b"Hello World".to_vec(), CODEC_RAW);

    let file = &mut PublicFile::new_rc(time, content_cid);
    let previous_cid = &store_file(file, store);
    let next_file = file.prepare_next_revision();

    assert_eq!(
        next_file.previous.to_vec().iter().collect::<Vec<_>>(),
        vec![previous_cid]
    );
}

#[test]
fn prepare_next_revision_shortcuts_if_possible() {
    let time = Utc::now().timestamp();
    let store = &MemoryBlockStore::default();
    let content_cid = put(store, b"Hello World".to_vec(), CODEC_RAW);

    let file = &mut PublicFile::new_rc(time, content_cid);
    let previous_cid = &store_file(file, store);
    let next_file = file.prepare_next_revision();
    let next_file_clone = &mut Arc::new(next_file.clone());
    let yet_another_file = next_file_clone.prepare_next_revision();

    assert_eq!(
        yet_another_file.previous.to_vec().iter().collect::<Vec<_>>(),
        vec![previous_cid]
    );
}

#[test]
fn test_simple_file() {
    let store = &MemoryBlockStore::default();
    let time = Utc.with_ymd_and_hms(1970, 1, 1, 0, 0, 0).unwrap().timestamp();
    let default_cid = Cid::from_bytes(wnfs_common::Cid::default().to_bytes());

    let file = &mut PublicFile::new_rc(time, default_cid.clone());
    let record = match file.store() {
        StoreStep::Put(record) => record,
        StoreStep::Stored(_) => panic!("a new file is not stored yet"),
    };
    let cid = store_file(file, store);

    assert_eq!(record.version, Version::new(1, 0, 0));
    assert_eq!(record.metadata, Metadata { created: 0, modified: 0 });
    assert_eq!(record.userland, default_cid);
    assert!(record.previous.is_empty());
    assert_eq!(file.persisted_as(), &Some(cid));
}

#[test]
fn test_file_with_previous_links() {
    let store = &MemoryBlockStore::default();
    let time = Utc.with_ymd_and_hms(1970, 1, 1, 0, 0, 0).unwrap().timestamp();
    let default_cid = Cid::from_bytes(wnfs_common::Cid::default().to_bytes());

    let file = &mut PublicFile::new_rc(time, default_cid.clone());
    let first = store_file(file, store);

    file.write(time, default_cid.clone());
    let record = match file.store() {
        StoreStep::Put(record) => record,
        StoreStep::Stored(_) => panic!("a written file is to be stored again"),
    };
    let second = store_file(file, store);

    assert_eq!(record.version, Version::new(1, 0, 0));
    assert_eq!(record.metadata, Metadata { created: 0, modified: 0 });
    assert_eq!(record.userland, default_cid);
    assert_eq!(record.previous, vec![first.clone()]);
    assert_ne!(first, second);
}

#[test]
fn new_file_has_no_history() {
    let cid = Cid::from_bytes(vec![1, 2, 3]);
    let file = PublicFile::new(7, cid.clone());
    assert_eq!(file.get_content_cid(), &cid);
    assert_eq!(file.get_metadata(), &Metadata { created: 7, modified: 7 });
    assert!(file.get_previous().is_empty());
    assert!(file.persisted_as().is_none());
}

#[test]
fn storing_twice_without_a_change_keeps_the_identifier() {
    let mut file = PublicFile::new(1, Cid::from_bytes(vec![9]));
    let first = file.store_done(Cid::from_bytes(vec![1, 1]));
    assert_eq!(first, Cid::from_bytes(vec![1, 1]));
    // The second answer of a store is not taken: the file was not changed.
    let kept = file.store_done(Cid::from_bytes(vec![2, 2]));
    assert_eq!(kept, first);
    match file.store() {
        StoreStep::Stored(cid) => assert_eq!(cid, first),
        StoreStep::Put(_) => panic!("a stored file is not put again"),
    }
}

#[test]
fn ratchet_links_back_to_the_first_store_only() {
    let c1 = Cid::from_bytes(vec![0xc1]);
    let c2 = Cid::from_bytes(vec![0xc2]);
    let file = &mut PublicFile::new_rc(10, Cid::from_bytes(vec![0]));
    Arc::get_mut(file).unwrap().store_done(c1.clone());
    file.write(20, Cid::from_bytes(vec![1]));
    assert!(file.persisted_as().is_none());
    assert_eq!(file.get_previous().to_vec(), vec![c1.clone()]);
    assert_eq!(file.get_metadata(), &Metadata { created: 10, modified: 20 });
    assert_eq!(file.get_content_cid(), &Cid::from_bytes(vec![1]));

    // A second change before the next store begins no further revision.
    file.write(30, Cid::from_bytes(vec![2]));
    assert_eq!(file.get_previous().to_vec(), vec![c1.clone()]);

    Arc::get_mut(file).unwrap().store_done(c2.clone());
    file.write(40, Cid::from_bytes(vec![3]));
    assert_eq!(file.get_previous().to_vec(), vec![c2]);
}

#[test]
fn prepare_next_revision_leaves_a_shared_file_alone() {
    let file = &mut PublicFile::new_rc(1, Cid::from_bytes(vec![5]));
    Arc::get_mut(file).unwrap().store_done(Cid::from_bytes(vec![7]));
    let shared = Arc::clone(file);
    file.write(2, Cid::from_bytes(vec![6]));
    // The other holder still sees the stored revision.
    assert_eq!(shared.persisted_as(), &Some(Cid::from_bytes(vec![7])));
    assert_eq!(shared.get_content_cid(), &Cid::from_bytes(vec![5]));
    assert_eq!(file.get_content_cid(), &Cid::from_bytes(vec![6]));
}

#[test]
fn get_metadata_mut_rc_ratchets() {
    let file = &mut PublicFile::new_rc(1, Cid::from_bytes(vec![5]));
    Arc::get_mut(file).unwrap().store_done(Cid::from_bytes(vec![7]));
    file.get_metadata_mut_rc().upsert_mtime(99);
    assert_eq!(file.get_metadata(), &Metadata { created: 1, modified: 99 });
    assert!(file.persisted_as().is_none());
    assert_eq!(file.get_previous().to_vec(), vec![Cid::from_bytes(vec![7])]);

    let mut plain = PublicFile::new(3, Cid::from_bytes(vec![1]));
    plain.get_metadata_mut().upsert_mtime(4);
    assert_eq!(plain.metadata.get_created(), 3);
    assert_eq!(plain.metadata.get_modified(), 4);
}

#[test]
fn record_round_trip() {
    let file = &mut PublicFile::new_rc(5, Cid::from_bytes(vec![1]));
    Arc::get_mut(file).unwrap().store_done(Cid::from_bytes(vec![8, 8]));
    file.write(6, Cid::from_bytes(vec![2]));
    let record = file.to_serializable();
    assert_eq!(record.version, wnfs_version());
    let read = PublicFile::from_serializable(record).unwrap();
    assert!(read == **file);
    assert!(read.persisted_as().is_none());
    assert_eq!(read.get_previous().to_vec(), vec![Cid::from_bytes(vec![8, 8])]);
}

#[test]
fn from_serializable_sorts_and_dedups_links() {
    let a = Cid::from_bytes(vec![1]);
    let b = Cid::from_bytes(vec![1, 0]);
    let c = Cid::from_bytes(vec![2]);
    let record = PublicFileSerializable {
        version: Version::new(1, 0, 0),
        metadata: Metadata::new(0),
        userland: Cid::from_bytes(vec![]),
        previous: vec![c.clone(), a.clone(), b.clone(), a.clone()],
    };
    let file = PublicFile::from_serializable(record).unwrap();
    assert_eq!(file.get_previous().to_vec(), vec![a, b, c]);
}

#[test]
fn version_gate() {
    let record = |version| PublicFileSerializable {
        version,
        metadata: Metadata::new(0),
        userland: Cid::from_bytes(vec![1]),
        previous: vec![],
    };
    let newer = Version::new(2, 0, 0);
    assert!(matches!(
        PublicFile::from_serializable(record(newer)),
        Err(FsError::UnreadableFormatVersion(v)) if v == newer
    ));
    let older = Version::new(0, 9, 9);
    assert!(matches!(
        PublicFile::from_serializable(record(older)),
        Err(FsError::UnreadableFormatVersion(v)) if v == older
    ));
    assert!(PublicFile::from_serializable(record(Version::new(1, 0, 0))).is_ok());
    // Newer than what is written here, by any of the three numbers.
    for newer in [Version::new(1, 0, 1), Version::new(1, 1, 0), Version::new(1, 4, 2)] {
        assert!(matches!(
            PublicFile::from_serializable(record(newer)),
            Err(FsError::UnreadableFormatVersion(v)) if v == newer
        ));
        assert!(matches!(
            PublicFile::from_node_serializable(PublicNodeSerializable::File(record(newer))),
            Err(FsError::UnreadableFormatVersion(v)) if v == newer
        ));
    }

    assert!(is_readable_wnfs_version(&Version::new(1, 0, 0)));
    assert!(!is_readable_wnfs_version(&Version::new(1, 0, 1)));
    assert!(!is_readable_wnfs_version(&Version::new(1, 0, 7)));
    assert!(!is_readable_wnfs_version(&Version::new(1, 1, 0)));
    assert!(!is_readable_wnfs_version(&Version::new(1, 3, 0)));
    assert!(!is_readable_wnfs_version(&Version::new(2, 0, 0)));
    assert!(!is_readable_wnfs_version(&Version::new(0, 1, 0)));
    assert!(!is_readable_wnfs_version(&Version::new(0, 0, 0)));
    assert!(!is_readable_wnfs_version(&Version::new(u64::MAX, 0, 0)));
    assert_eq!(wnfs_version(), Version { major: 1, minor: 0, patch: 0 });
}

#[test]
fn a_directory_record_is_no_file() {
    let dir = PublicNodeSerializable::Dir(PublicDirectorySerializable {
        version: Version::new(1, 0, 0),
        metadata: Metadata::new(0),
        userland: vec![("a".to_string(), Cid::from_bytes(vec![1]))],
        previous: vec![],
    });
    assert!(matches!(
        PublicFile::from_node_serializable(dir),
        Err(FsError::MalformedRecord)
    ));

    let file = PublicFile::new(3, Cid::from_bytes(vec![4]));
    let read = PublicFile::from_node_serializable(file.to_node_serializable()).unwrap();
    assert!(read == file);
}

#[test]
fn equality_ignores_the_stored_identifier() {
    let mut a = PublicFile::new(1, Cid::from_bytes(vec![1]));
    let b = a.clone();
    a.store_done(Cid::from_bytes(vec![9]));
    assert!(a == b);
    let c = PublicFile::new(2, Cid::from_bytes(vec![1]));
    assert!(a != c);
    let d = PublicFile::new(1, Cid::from_bytes(vec![2]));
    assert!(a != d);
    let mut e = a.clone();
    e.previous = CidSet::singleton(Cid::from_bytes(vec![3]));
    assert!(a != e);
    // A clone keeps the stored identifier.
    assert_eq!(a.clone().persisted_as(), &Some(Cid::from_bytes(vec![9])));
}

#[test]
fn ids_tell_nodes_apart() {
    let a = PublicFile::new(1, Cid::from_bytes(vec![1]));
    let b = PublicFile::new(1, Cid::from_bytes(vec![1]));
    assert_eq!(a.get_id(), a.get_id());
    assert_ne!(a.get_id(), b.get_id());
}
