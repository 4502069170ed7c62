use std::sync::Arc;
use wnfs::accumulator::AccumulatorSetup;
use wnfs::cid::Cid;
use wnfs::error::FsError;
use wnfs::forest::Forest;
use wnfs::metadata::Metadata;
use wnfs::name::Name;
use wnfs::accumulator::NameSegment;
use wnfs::private::directory::{
    DirectoryEntrySerializable, PrivateDirectory, PrivateDirectoryContentSerializable, PrivateNode,
};
use wnfs::private::file::FileContent;
use wnfs::private::keys::TemporalKey;
use wnfs::private::node::TemporalAccessKey;
use wnfs::private::walk::{file_handlers, node_handlers, shard_handlers, Opener, Walk, WalkStep};
use wnfs::private::PrivateFile;
use wnfs::traits::Id;
use wnfs::version::Version;

fn setup() -> AccumulatorSetup {
    AccumulatorSetup::from_rsa_2048(&mut rand::thread_rng())
}

fn file(parent: &Name, time: i64) -> PrivateNode {
    PrivateNode::File(Arc::new(PrivateFile::new(parent, time, &mut rand::thread_rng())))
}

#[test]
fn children_are_kept_by_name() {
    let rng = &mut rand::thread_rng();
    let setup = setup();
    let mut dir = PrivateDirectory::new(&Name::empty(&setup), 1, rng);
    assert_eq!(dir.len(), 0);
    assert!(dir.ls().is_empty());
    assert!(dir.lookup_node("a").is_none());

    dir.put_node("b", file(&dir.header.name, 2));
    dir.put_node("a", file(&dir.header.name, 3));
    dir.put_node("ab", PrivateNode::Dir(Arc::new(PrivateDirectory::new(&dir.header.name, 4, rng))));
    dir.put_node("", file(&dir.header.name, 5));
    assert_eq!(dir.len(), 4);
    assert_eq!(
        dir.ls(),
        vec![
            ("".to_string(), Metadata::new(5)),
            ("a".to_string(), Metadata::new(3)),
            ("ab".to_string(), Metadata::new(4)),
            ("b".to_string(), Metadata::new(2)),
        ]
    );
    assert!(dir.lookup_node("a").unwrap().is_file());
    assert!(dir.lookup_node("ab").unwrap().is_dir());
    assert!(dir.lookup_node("c").is_none());
    assert_eq!(dir.lookup_node("b").unwrap().get_metadata(), &Metadata::new(2));

    // A name that is taken gets the new node.
    dir.put_node("a", file(&dir.header.name, 9));
    assert_eq!(dir.len(), 4);
    assert_eq!(dir.lookup_node("a").unwrap().get_metadata(), &Metadata::new(9));
    let header = dir.lookup_node("a").unwrap().get_header();
    assert!(header.name.parent().unwrap().equals(&dir.header.name));

    let (dirs, files) = dir.children();
    assert_eq!(dirs.len(), 1);
    assert_eq!(files.len(), 3);
    assert_eq!(files[1].metadata(), &Metadata::new(9));
    assert_ne!(dir.get_id(), dirs[0].get_id());
}

#[test]
fn directory_record_lists_the_children_with_their_keys() {
    let rng = &mut rand::thread_rng();
    let setup = setup();
    let mut dir = PrivateDirectory::new(&Name::empty(&setup), 1, rng);
    dir.put_node("y", file(&dir.header.name, 2));
    dir.put_node("x", file(&dir.header.name, 3));
    let key = |n: u8| TemporalAccessKey {
        label: vec![n; 256],
        temporal_key: TemporalKey([n; 32]),
        content_cid: Cid::from_bytes(vec![n]),
    };
    let record = dir.to_serializable(Cid::from_bytes(vec![7]), &vec![key(1), key(2)]).unwrap();
    assert_eq!(record.version, Version::new(1, 0, 0));
    assert_eq!(record.header_cid, Cid::from_bytes(vec![7]));
    assert!(record.previous.is_empty());
    assert_eq!(record.metadata, Metadata::new(1));
    assert_eq!(record.entries.len(), 2);
    assert_eq!(record.entries[0].name, "x");
    assert!(!record.entries[0].directory);
    assert_eq!(record.entries[0].label, vec![1; 256]);
    assert_eq!(record.entries[0].temporal_key, [1; 32]);
    assert_eq!(record.entries[0].content_cid, Cid::from_bytes(vec![1]));
    assert_eq!(record.entries[1].name, "y");
    assert_eq!(record.entries[1].content_cid, Cid::from_bytes(vec![2]));
    assert!(matches!(
        dir.to_serializable(Cid::from_bytes(vec![7]), &vec![key(1)]),
        Err(FsError::MalformedRecord)
    ));
}

#[test]
fn walk_visits_files_right_after_their_directory() {
    let rng = &mut rand::thread_rng();
    let setup = setup();
    // root: d1/ (f3), d2/ (d3/ (f4)), f1, f2
    let mut root = PrivateDirectory::new(&Name::empty(&setup), 0, rng);
    let mut d1 = PrivateDirectory::new(&root.header.name, 10, rng);
    d1.put_node("f3", file(&d1.header.name, 3));
    let mut d2 = PrivateDirectory::new(&root.header.name, 20, rng);
    let mut d3 = PrivateDirectory::new(&d2.header.name, 30, rng);
    d3.put_node("f4", file(&d3.header.name, 4));
    d2.put_node("d3", PrivateNode::Dir(Arc::new(d3)));
    root.put_node("f2", file(&root.header.name, 2));
    root.put_node("d1", PrivateNode::Dir(Arc::new(d1)));
    root.put_node("f1", file(&root.header.name, 1));
    root.put_node("d2", PrivateNode::Dir(Arc::new(d2)));

    let mut walk = Walk::new(&Arc::new(root));
    let mut seen = Vec::new();
    loop {
        match walk.next() {
            WalkStep::Dir(dir) => seen.push(("dir", dir.content.metadata.created)),
            WalkStep::File(file) => seen.push(("file", file.content.metadata.created)),
            WalkStep::Done => break,
        }
    }
    assert_eq!(
        seen,
        vec![
            ("dir", 0),
            ("file", 1),
            ("file", 2),
            ("dir", 20),
            ("dir", 30),
            ("file", 4),
            ("dir", 10),
            ("file", 3),
        ]
    );
    assert!(matches!(walk.next(), WalkStep::Done));
}

#[test]
fn handlers_open_the_blocks_of_a_stored_file() {
    let rng = &mut rand::thread_rng();
    let setup = setup();
    let mut forest = Forest::new();
    let (file, shards) = PrivateFile::with_content(&Name::empty(&setup), 0, b"payload", &setup, rng);
    let external = match &file.content.content {
        FileContent::External(external) => external,
        FileContent::Inline { .. } => panic!("the payload is sharded"),
    };
    let temporal_key = file.header.derive_temporal_key();
    let access = TemporalAccessKey {
        label: vec![0; 256],
        temporal_key,
        content_cid: Cid::from_bytes(vec![1]),
    };
    let header_cid = Cid::from_bytes(vec![2]);

    assert!(matches!(shard_handlers(external, &forest, &setup), Err(FsError::LabelNotFound)));
    assert!(matches!(
        file_handlers(&file, &access, header_cid.clone(), &forest, &setup),
        Err(FsError::LabelNotFound)
    ));
    forest.put(&shards[0].label, Cid::from_bytes(vec![3]), &setup);

    let handlers = file_handlers(&file, &access, header_cid.clone(), &forest, &setup).unwrap();
    assert_eq!(handlers.len(), 3);
    assert_eq!(handlers[0].cid, Cid::from_bytes(vec![1]));
    assert_eq!(handlers[1].cid, header_cid);
    assert_eq!(handlers[2].cid, Cid::from_bytes(vec![3]));
    assert!(matches!(handlers[0].opener, Opener::Content(k) if k.0 == temporal_key.derive_snapshot_key().0));
    assert!(matches!(handlers[1].opener, Opener::Header(k) if k.0 == temporal_key.0));
    assert!(matches!(handlers[2].opener, Opener::Shard(k) if k.0 == external.key.0));

    let sealed_content = file.seal_content(b"content record", rng).unwrap();
    let sealed_header = file.seal_header(b"header record").unwrap();
    assert_eq!(handlers[0].opener.open(&sealed_content).unwrap(), b"content record".to_vec());
    assert_eq!(handlers[1].opener.open(&sealed_header).unwrap(), b"header record".to_vec());
    assert_eq!(handlers[2].opener.open(&shards[0].ciphertext).unwrap(), b"payload".to_vec());
    assert!(matches!(handlers[0].opener.open(&sealed_header), Err(FsError::DecryptionFailure)));
    assert!(matches!(handlers[1].opener.open(&sealed_content), Err(FsError::DecryptionFailure)));
    assert!(matches!(handlers[2].opener.open(&sealed_content), Err(FsError::DecryptionFailure)));

    let only_node = node_handlers(&access, header_cid.clone());
    assert_eq!(only_node.len(), 2);
    assert_eq!(shard_handlers(external, &forest, &setup).unwrap().len(), 1);

    let inline = PrivateFile::new(&Name::empty(&setup), 0, rng);
    assert_eq!(file_handlers(&inline, &access, header_cid, &Forest::new(), &setup).unwrap().len(), 2);
}

#[test]
fn directories_ratchet_like_files() {
    let rng = &mut rand::thread_rng();
    let setup = setup();
    let mut dir = PrivateDirectory::new(&Name::empty(&setup), 1, rng);
    dir.put_node("a", file(&dir.header.name, 2));
    let dir = &mut Arc::new(dir);

    dir.prepare_next_revision();
    assert_eq!(dir.header.revision, 0);
    assert!(dir.content.previous.is_empty());

    let c1 = Cid::from_bytes(vec![1]);
    assert_eq!(Arc::get_mut(dir).unwrap().store_done(c1.clone()), c1);
    assert_eq!(Arc::get_mut(dir).unwrap().store_done(Cid::from_bytes(vec![2])), c1);
    assert_eq!(dir.content.persisted_as, Some(c1.clone()));

    let shared = Arc::clone(dir);
    dir.prepare_next_revision().put_node("b", file(&shared.header.name, 3));
    assert_eq!(dir.header.revision, 1);
    assert_eq!(dir.content.persisted_as, None);
    assert_eq!(dir.content.previous.to_vec(), vec![c1.clone()]);
    assert_eq!(dir.len(), 2);
    // Who held the stored revision still holds it.
    assert_eq!(shared.header.revision, 0);
    assert_eq!(shared.content.persisted_as, Some(c1.clone()));
    assert_eq!(shared.len(), 1);

    dir.prepare_next_revision();
    assert_eq!(dir.header.revision, 1);
    assert_eq!(dir.content.previous.to_vec(), vec![c1]);

    let copy = (**dir).clone();
    assert_eq!(copy.ls(), dir.ls());
    assert_eq!(copy.header.revision, 1);
    assert_eq!(copy.header.root_secret, dir.header.root_secret);
}

#[test]
fn directory_record_round_trip() {
    let rng = &mut rand::thread_rng();
    let setup = setup();
    let mut dir = PrivateDirectory::new(&Name::empty(&setup), 1, rng);
    dir.put_node("y", file(&dir.header.name, 2));
    dir.put_node("x", PrivateNode::Dir(Arc::new(PrivateDirectory::new(&dir.header.name, 3, rng))));
    dir.store_done(Cid::from_bytes(vec![1]));
    let mut dir = Arc::new(dir);
    dir.prepare_next_revision();

    let key = |n: u8| TemporalAccessKey {
        label: vec![n; 256],
        temporal_key: TemporalKey([n; 32]),
        content_cid: Cid::from_bytes(vec![n]),
    };
    let record = dir.to_serializable(Cid::from_bytes(vec![7]), &vec![key(1), key(2)]).unwrap();
    assert!(record.entries[0].directory);
    assert!(!record.entries[1].directory);
    let (dirs, files) = dir.children();
    let children = vec![PrivateNode::Dir(dirs[0].clone()), PrivateNode::File(files[0].clone())];
    let read = PrivateDirectory::from_serializable(
        record,
        dir.header.clone(),
        Cid::from_bytes(vec![9]),
        &children,
    )
    .unwrap();
    assert_eq!(read.ls(), dir.ls());
    assert_eq!(read.ls(), vec![("x".to_string(), Metadata::new(3)), ("y".to_string(), Metadata::new(2))]);
    assert!(read.lookup_node("x").unwrap().is_dir());
    assert!(read.lookup_node("y").unwrap().is_file());
    assert_eq!(read.header.revision, 1);
    assert_eq!(read.content.persisted_as, Some(Cid::from_bytes(vec![9])));
    assert_eq!(read.content.previous.to_vec(), vec![Cid::from_bytes(vec![1])]);
    assert_eq!(read.content.metadata, Metadata::new(1));
}

#[test]
fn directory_records_are_checked() {
    let rng = &mut rand::thread_rng();
    let setup = setup();
    let header = || wnfs::private::file::PrivateNodeHeader::with_seed(
        &Name::empty(&setup),
        NameSegment::new_hashed("t", b"d"),
        [1u8; 32],
    );
    let entry = |name: &str| DirectoryEntrySerializable {
        name: name.to_string(),
        directory: false,
        label: vec![0; 256],
        temporal_key: [0; 32],
        content_cid: Cid::from_bytes(vec![1]),
    };
    let record = |version, names: &[&str]| PrivateDirectoryContentSerializable {
        version,
        header_cid: Cid::from_bytes(vec![1]),
        previous: vec![Cid::from_bytes(vec![3]), Cid::from_bytes(vec![2]), Cid::from_bytes(vec![3])],
        metadata: Metadata::new(5),
        entries: names.iter().map(|n| entry(n)).collect(),
    };
    let cid = || Cid::from_bytes(vec![4]);
    let node = |time| file(&Name::empty(&setup), time);

    // The version comes first, whatever else is wrong.
    for newer in [Version::new(1, 0, 1), Version::new(1, 1, 0), Version::new(2, 0, 0), Version::new(0, 9, 0)] {
        assert!(matches!(
            PrivateDirectory::from_serializable(record(newer, &["a"]), header(), cid(), &vec![]),
            Err(FsError::UnreadableFormatVersion(v)) if v == newer
        ));
    }
    assert!(matches!(
        PrivateDirectory::from_serializable(record(Version::new(1, 0, 0), &["a"]), header(), cid(), &vec![]),
        Err(FsError::MalformedRecord)
    ));
    assert!(matches!(
        PrivateDirectory::from_serializable(record(Version::new(1, 0, 0), &[]), header(), cid(), &vec![node(1)]),
        Err(FsError::MalformedRecord)
    ));

    // Entries in any order come out in the order of their names; a name
    // that comes twice keeps the later child.
    let read = PrivateDirectory::from_serializable(
        record(Version::new(1, 0, 0), &["b", "a", "b"]),
        header(),
        cid(),
        &vec![node(1), node(2), node(3)],
    )
    .unwrap();
    assert_eq!(read.ls(), vec![("a".to_string(), Metadata::new(2)), ("b".to_string(), Metadata::new(3))]);
    assert_eq!(read.content.previous.to_vec(), vec![Cid::from_bytes(vec![2]), Cid::from_bytes(vec![3])]);
    assert_eq!(read.content.persisted_as, Some(cid()));
    assert_eq!(read.content.metadata, Metadata::new(5));
    assert_eq!(read.header.root_secret, [1u8; 32]);

    let with_seed = PrivateDirectory::with_seed(&Name::empty(&setup), 8, NameSegment::new(rng), [2u8; 32]);
    assert_eq!(with_seed.header.root_secret, [2u8; 32]);
    assert_eq!(with_seed.header.revision, 0);
    assert_eq!(with_seed.content.metadata, Metadata::new(8));
    assert_eq!(with_seed.len(), 0);
}
