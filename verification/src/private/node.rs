//! What is handed out when a revision is stored, and how a revision is found
//! again: access keys, and the candidates that stand under one label.

use crate::accumulator::AccumulatorSetup;
use crate::cid::{views, Cid};
use crate::error::FsError;
use crate::forest::{cids_at, Forest};
use crate::keyset::copy_bytes;
use crate::private::content::byte_strings;
use crate::private::file::PrivateNodeHeader;
use crate::private::keys::{derived_key, snapshot_key_dsi, SnapshotKey, TemporalKey};
use vstd::prelude::*;

verus! {

/// Read and write access to one revision and those after it: the label of
/// the revision, its temporal key, and the identifier of its content.
#[derive(Debug)]
pub struct TemporalAccessKey {
    pub label: Vec<u8>,
    pub temporal_key: TemporalKey,
    pub content_cid: Cid,
}

/// Read access to one revision: the label of the revision, its snapshot key,
/// and the identifier of its content.
#[derive(Debug)]
pub struct SnapshotAccessKey {
    pub label: Vec<u8>,
    pub snapshot_key: SnapshotKey,
    pub content_cid: Cid,
}

/// The one thing that a caller keeps to get back to what was stored.
#[derive(Debug)]
pub enum AccessKey {
    Temporal(TemporalAccessKey),
    Snapshot(SnapshotAccessKey),
}

impl AccessKey {
    /// The label of the revision.
    pub open spec fn label(&self) -> Seq<u8> {
        match self {
            AccessKey::Temporal(key) => key.label@,
            AccessKey::Snapshot(key) => key.label@,
        }
    }

    /// The identifier of the content of the revision.
    pub open spec fn content_cid(&self) -> Seq<u8> {
        match self {
            AccessKey::Temporal(key) => key.content_cid@,
            AccessKey::Snapshot(key) => key.content_cid@,
        }
    }

    /// The snapshot key that the access key gives: the one it holds, or the
    /// one derived from the temporal key it holds.
    pub open spec fn snapshot_key(&self) -> Seq<u8> {
        match self {
            AccessKey::Temporal(key) => derived_key(snapshot_key_dsi(), key.temporal_key@),
            AccessKey::Snapshot(key) => key.snapshot_key@,
        }
    }

    /// The label of the revision.
    pub fn get_label(&self) -> (label: &Vec<u8>)
        ensures
            label@ == self.label(),
    {
        match self {
            AccessKey::Temporal(key) => &key.label,
            AccessKey::Snapshot(key) => &key.label,
        }
    }

    /// The identifier of the content of the revision.
    pub fn get_content_cid(&self) -> (cid: &Cid)
        ensures
            cid@ == self.content_cid(),
    {
        match self {
            AccessKey::Temporal(key) => &key.content_cid,
            AccessKey::Snapshot(key) => &key.content_cid,
        }
    }

    /// The temporal key, where the access key holds one. A snapshot access
    /// key holds none, and there is no way to one from it.
    pub fn get_temporal_key(&self) -> (key: Option<TemporalKey>)
        ensures
            match self {
                AccessKey::Temporal(held) => key == Some(held.temporal_key),
                AccessKey::Snapshot(_) => key is None,
            },
    {
        match self {
            AccessKey::Temporal(held) => Some(held.temporal_key),
            AccessKey::Snapshot(_) => None,
        }
    }

    /// The snapshot key of the revision.
    pub fn get_snapshot_key(&self) -> (key: SnapshotKey)
        ensures
            key@ == self.snapshot_key(),
    {
        match self {
            AccessKey::Temporal(held) => held.temporal_key.derive_snapshot_key(),
            AccessKey::Snapshot(held) => held.snapshot_key,
        }
    }

    /// The access key cut down to read access to this one revision.
    pub fn derive_snapshot(&self) -> (access: AccessKey)
        ensures
            access is Snapshot,
            access.label() == self.label(),
            access.content_cid() == self.content_cid(),
            access.snapshot_key() == self.snapshot_key(),
    {
        AccessKey::Snapshot(
            SnapshotAccessKey {
                label: copy_bytes(self.get_label().as_slice()),
                snapshot_key: self.get_snapshot_key(),
                content_cid: self.get_content_cid().clone(),
            },
        )
    }
}

/// The access key to a revision that was stored under `content_cid`: the
/// label of its revision name, its temporal key, and the identifier.
pub fn access_key(header: &PrivateNodeHeader, content_cid: &Cid, setup: &AccumulatorSetup) -> (access:
    AccessKey)
    requires
        setup.wf(),
    ensures
        access matches AccessKey::Temporal(key) && {
            &&& key.label@ == header@.revision_name().label_digits(setup.modulus())
            &&& key.temporal_key@ == header@.temporal_key()
            &&& key.content_cid@ == content_cid@
        },
{
    let label = header.get_revision_name().into_accumulator(setup).into_bytes();
    AccessKey::Temporal(
        TemporalAccessKey {
            label: copy_bytes(label.as_slice()),
            temporal_key: header.derive_temporal_key(),
            content_cid: content_cid.clone(),
        },
    )
}

/// What `PrivateFile::store` asks of its caller.
#[derive(Debug)]
pub enum PrivateStoreStep {
    /// The file is stored already: this is the access key to it.
    Stored(AccessKey),
    /// The file is to be stored: its header is sealed with `seal_header`, its
    /// content record with `seal_content`, both are put into the block store,
    /// and the identifier of the content goes to `file_revision` and
    /// `store_done`. The key is the temporal key of the revision.
    Seal(TemporalKey),
}

/// Files a stored revision in the forest: the identifier of its content goes
/// under the label of its revision name, beside what is there. Hands back the
/// access key to the revision.
pub fn file_revision(
    header: &PrivateNodeHeader,
    content_cid: Cid,
    forest: &mut Forest,
    setup: &AccumulatorSetup,
) -> (access: AccessKey)
    requires
        old(forest).wf(),
        setup.wf(),
    ensures
        final(forest).wf(),
        final(forest)@ == old(forest)@.insert(
            header@.revision_name().label_digits(setup.modulus()),
            cids_at(old(forest)@, header@.revision_name().label_digits(setup.modulus())).insert(
                content_cid@,
            ),
        ),
        access matches AccessKey::Temporal(key) && {
            &&& key.label@ == header@.revision_name().label_digits(setup.modulus())
            &&& key.temporal_key@ == header@.temporal_key()
            &&& key.content_cid@ == content_cid@
        },
{
    let access = access_key(header, &content_cid, setup);
    forest.put_encrypted(copy_bytes(access.get_label().as_slice()), content_cid);
    access
}

/// The identifiers that stand under the label of an access key, in
/// increasing order: the candidates for the revision. None is a
/// `LabelNotFound`.
pub fn candidates(access: &AccessKey, forest: &Forest) -> (found: Result<Vec<Cid>, FsError>)
    requires
        forest.wf(),
    ensures
        match found {
            Ok(cids) => {
                &&& forest@.dom().contains(access.label())
                &&& cids@.len() > 0
                &&& views(cids@).to_set() == forest@[access.label()]
                &&& crate::keyset::strictly_increasing(views(cids@))
            },
            Err(e) => e == FsError::LabelNotFound && !forest@.dom().contains(access.label()),
        },
{
    match forest.get_encrypted_by_label(access.get_label().as_slice()) {
        Some(set) => {
            let cids = set.to_vec();
            assert(views(cids@).to_set() =~= set@);
            Ok(cids)
        },
        None => Err(FsError::LabelNotFound),
    }
}

/// The plaintexts of the blocks that open under `key`, in the order of the
/// blocks.
pub open spec fn opened_all(key: SnapshotKey, blocks: Seq<Seq<u8>>) -> Seq<Seq<u8>>
    decreases blocks.len(),
{
    if blocks.len() == 0 {
        Seq::empty()
    } else {
        let front = opened_all(key, blocks.drop_last());
        match key.spec_decrypt(blocks.last()) {
            Some(plaintext) => front.push(plaintext),
            None => front,
        }
    }
}

/// What was found under one label.
#[derive(Debug)]
pub enum Loaded {
    /// The one record that opened under the key.
    One(Vec<u8>),
    /// More than one record opened under the key: a write conflict that the
    /// caller has to settle. All of them are handed out, in the order of their
    /// blocks.
    Conflict(Vec<Vec<u8>>),
}

impl Loaded {
    /// The record, where there is one; a `WriteConflict` where there are
    /// more.
    pub fn single(self) -> (record: Result<Vec<u8>, FsError>)
        ensures
            match self {
                Loaded::One(bytes) => record == Ok::<Vec<u8>, FsError>(bytes),
                Loaded::Conflict(_) => record == Err::<Vec<u8>, FsError>(FsError::WriteConflict),
            },
    {
        match self {
            Loaded::One(bytes) => Ok(bytes),
            Loaded::Conflict(_) => Err(FsError::WriteConflict),
        }
    }
}

/// Opens the blocks that were fetched for the candidates under one label.
/// Blocks that do not open under the key are passed over. None that opens is
/// a `DecryptionFailure`; more than one is a conflict, and none of them is
/// picked.
pub fn open_candidates(key: &SnapshotKey, blocks: &Vec<Vec<u8>>) -> (loaded: Result<Loaded, FsError>)
    ensures
        match loaded {
            Ok(Loaded::One(record)) => opened_all(*key, byte_strings(blocks@)) == seq![record@],
            Ok(Loaded::Conflict(records)) => records@.len() > 1 && byte_strings(records@)
                == opened_all(*key, byte_strings(blocks@)),
            Err(e) => e == FsError::DecryptionFailure && opened_all(*key, byte_strings(blocks@)).len()
                == 0,
        },
{
    let ghost stored = byte_strings(blocks@);
    let mut records: Vec<Vec<u8>> = Vec::new();
    let mut i: usize = 0;
    assert(byte_strings(records@) =~= opened_all(*key, stored.take(0)));
    while i < blocks.len()
        invariant
            i <= blocks@.len(),
            stored == byte_strings(blocks@),
            byte_strings(records@) == opened_all(*key, stored.take(i as int)),
        decreases blocks@.len() - i,
    {
        proof {
            assert(stored.take(i + 1).drop_last() =~= stored.take(i as int));
            assert(stored.take(i + 1).last() == blocks@[i as int]@);
        }
        let ghost before = byte_strings(records@);
        match key.decrypt(blocks[i].as_slice()) {
            Ok(plaintext) => {
                records.push(plaintext);
                assert(byte_strings(records@) =~= before.push(plaintext@));
            },
            Err(_) => {},
        }
        i += 1;
    }
    assert(stored.take(i as int) =~= stored);
    if records.len() == 0 {
        Err(FsError::DecryptionFailure)
    } else if records.len() == 1 {
        let record = records.remove(0);
        assert(opened_all(*key, stored) =~= seq![record@]);
        Ok(Loaded::One(record))
    } else {
        Ok(Loaded::Conflict(records))
    }
}

/// Every block that opens under the key has its plaintext among the opened.
pub proof fn lemma_opened_has(key: SnapshotKey, blocks: Seq<Seq<u8>>, i: int)
    requires
        0 <= i < blocks.len(),
        key.spec_decrypt(blocks[i]) is Some,
    ensures
        opened_all(key, blocks).contains(key.spec_decrypt(blocks[i])->Some_0),
        opened_all(key, blocks).len() > opened_all(key, blocks.take(i)).len(),
    decreases blocks.len(),
{
    let all = opened_all(key, blocks);
    let front = opened_all(key, blocks.drop_last());
    if i == blocks.len() - 1 {
        assert(blocks.take(i) =~= blocks.drop_last());
        assert(all == front.push(key.spec_decrypt(blocks[i])->Some_0));
        assert(all[all.len() - 1] == key.spec_decrypt(blocks[i])->Some_0);
    } else {
        lemma_opened_has(key, blocks.drop_last(), i);
        assert(blocks.drop_last().take(i) =~= blocks.take(i));
        let wanted = key.spec_decrypt(blocks[i])->Some_0;
        let j = choose|j: int| 0 <= j < front.len() && front[j] == wanted;
        assert(all[j] == wanted);
    }
}

/// Where two of the blocks under one label open under the key, both
/// plaintexts are among the opened, which are two or more: the two writers'
/// revisions come up as a conflict, and neither is dropped.
pub proof fn law_conflict_surfaces(key: SnapshotKey, blocks: Seq<Seq<u8>>, i: int, j: int)
    requires
        0 <= i < j < blocks.len(),
        key.spec_decrypt(blocks[i]) is Some,
        key.spec_decrypt(blocks[j]) is Some,
    ensures
        opened_all(key, blocks).len() >= 2,
        opened_all(key, blocks).contains(key.spec_decrypt(blocks[i])->Some_0),
        opened_all(key, blocks).contains(key.spec_decrypt(blocks[j])->Some_0),
{
    lemma_opened_has(key, blocks, i);
    lemma_opened_has(key, blocks, j);
    lemma_opened_has(key, blocks.take(j), i);
    assert(blocks.take(j)[i] == blocks[i]);
}

} // verus!
