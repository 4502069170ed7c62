//! Private file node: a versioned, encrypted file. Its header names it and
//! carries the secret that its keys are derived from; its content points to
//! the revision it replaces and holds the payload, inline or in shards.

use crate::accumulator::{
    hashed_digits, law_add_composes, values_of, AccumulatorSetup, NameAccumulator, NameSegment,
};
use crate::cid::{views, Cid, CidSet};
use crate::error::FsError;
use crate::forest::Forest;
use crate::keyset::{copy_bytes, lemma_sorted_form_unique, sorted_form, strictly_increasing};
use crate::metadata::Metadata;
use crate::name::{lemma_label_digits, Name, NameView};
use crate::number::be_value;
use crate::private::content::{
    block_at, block_ciphertext, blocks_needed, byte_strings, ciphertexts, encodes, hidden_name,
    read_blocks, ForestContentView, PrivateForestContent, Shard, MAX_BLOCK_CONTENT_SIZE,
};
use crate::private::directory::PrivateNode;
use crate::private::node::{access_key, PrivateStoreStep};
use crate::private::keys::{
    derived_key, random_secret, snapshot_key_dsi, temporal_key_dsi, SnapshotKey, TemporalKey,
};
use crate::traits::Id;
use crate::utils::{address_text, make_mut};
use crate::version::{
    current_version, is_readable_wnfs_version, newer, readable, wnfs_version, Version,
};
use rand::rngs::ThreadRng;
use std::sync::Arc;
use vstd::prelude::*;

verus! {

/// The domain separation string of the segment that tells revisions apart.
pub open spec fn revision_segment_dsi() -> Seq<char> {
    "wnfs/1.0/revision segment derivation from temporal key"@
}

/// The header of a private node: its bare name, the root secret of its
/// lineage, and the number of its revision.
#[derive(Debug)]
pub struct PrivateNodeHeader {
    pub name: Name,
    pub root_secret: [u8; 32],
    pub revision: u64,
}

/// What a header is.
pub struct HeaderView {
    pub name: NameView,
    pub root_secret: Seq<u8>,
    pub revision: u64,
}

/// The stored form of a header. The name is stored as the accumulator that
/// it commits to.
#[derive(Debug)]
pub struct PrivateNodeHeaderSerializable {
    pub name: Vec<u8>,
    pub root_secret: [u8; 32],
    pub revision: u64,
}

impl HeaderView {
    /// The temporal key of the revision.
    pub open spec fn temporal_key(self) -> Seq<u8> {
        derived_key(temporal_key_dsi(), TemporalKey::material(self.root_secret, self.revision))
    }

    /// The snapshot key of the revision.
    pub open spec fn snapshot_key(self) -> Seq<u8> {
        derived_key(snapshot_key_dsi(), self.temporal_key())
    }

    /// The name under whose label the revision is filed in the forest: the
    /// bare name, and one segment more, hashed from the temporal key.
    pub open spec fn revision_name(self) -> NameView {
        NameView {
            base: self.name.base,
            segments: self.name.segments.push(
                hashed_digits(revision_segment_dsi(), self.temporal_key()),
            ),
        }
    }

    /// The header of a new node under the name `parent`, with the segment
    /// `segment` of its own and the root secret `root_secret`.
    pub open spec fn seeded(parent: NameView, segment: Seq<u8>, root_secret: Seq<u8>) -> HeaderView {
        HeaderView {
            name: NameView { base: parent.base, segments: parent.segments.push(segment) },
            root_secret,
            revision: 0,
        }
    }

    /// The header of the next revision.
    pub open spec fn advanced(self) -> HeaderView
        recommends
            self.revision < u64::MAX,
    {
        HeaderView { revision: (self.revision + 1) as u64, ..self }
    }
}

impl View for PrivateNodeHeader {
    type V = HeaderView;

    open spec fn view(&self) -> HeaderView {
        HeaderView { name: self.name@, root_secret: self.root_secret@, revision: self.revision }
    }
}

impl Clone for PrivateNodeHeader {
    fn clone(&self) -> (copy: Self)
        ensures
            copy@ == self@,
    {
        PrivateNodeHeader {
            name: self.name.clone(),
            root_secret: self.root_secret,
            revision: self.revision,
        }
    }
}

impl PrivateNodeHeader {
    /// The header of a new node under `parent_bare_name`: the parent's name
    /// and one random segment more, a fresh root secret, revision 0.
    pub fn new(parent_bare_name: &Name, rng: &mut ThreadRng) -> (header: PrivateNodeHeader)
        ensures
            header@.revision == 0,
            header@.name.base == parent_bare_name@.base,
            header@.name.segments.len() == parent_bare_name@.segments.len() + 1,
            header@.name.segments.drop_last() == parent_bare_name@.segments,
            header@.name.segments.last().len() == 32,
    {
        let header = PrivateNodeHeader::with_seed(
            parent_bare_name,
            NameSegment::new(rng),
            random_secret(rng),
        );
        assert(header@.name.segments.drop_last() =~= parent_bare_name@.segments);
        header
    }

    /// The header of a new node under `parent_bare_name`, with the segment
    /// and the root secret that the caller drew: the parent's name and the
    /// segment, the root secret, revision 0.
    pub fn with_seed(parent_bare_name: &Name, segment: NameSegment, root_secret: [u8; 32]) -> (header:
        PrivateNodeHeader)
        ensures
            header@ == HeaderView::seeded(parent_bare_name@, segment.digits(), root_secret@),
    {
        let ghost digits = segment.digits();
        let mut one: Vec<NameSegment> = Vec::new();
        one.push(segment);
        let name = parent_bare_name.with_segments_added(one);
        assert(name@.segments =~= parent_bare_name@.segments.push(digits));
        PrivateNodeHeader { name, root_secret, revision: 0 }
    }

    /// The temporal key of the revision.
    pub fn derive_temporal_key(&self) -> (key: TemporalKey)
        ensures
            key@ == self@.temporal_key(),
    {
        TemporalKey::derive(&self.root_secret, self.revision)
    }

    /// The name under whose label the revision is filed in the forest.
    pub fn get_revision_name(&self) -> (name: Name)
        ensures
            name@ == self@.revision_name(),
    {
        let key = self.derive_temporal_key();
        let mut one: Vec<NameSegment> = Vec::new();
        one.push(
            NameSegment::new_hashed(
                "wnfs/1.0/revision segment derivation from temporal key",
                key.0.as_slice(),
            ),
        );
        let name = self.name.with_segments_added(one);
        assert(name@.segments =~= self@.revision_name().segments);
        name
    }

    /// Steps to the next revision.
    pub fn advance_ratchet(&mut self)
        requires
            old(self).revision < u64::MAX,
        ensures
            final(self)@ == old(self)@.advanced(),
    {
        self.revision = self.revision + 1;
    }

    /// The stored form of the header.
    pub fn to_serializable(&self, setup: &AccumulatorSetup) -> (record:
        PrivateNodeHeaderSerializable)
        requires
            setup.wf(),
        ensures
            record.name@ == self@.name.label_digits(setup.modulus()),
            record.root_secret == self.root_secret,
            record.revision == self.revision,
    {
        let label = self.name.into_accumulator(setup).into_bytes();
        PrivateNodeHeaderSerializable {
            name: copy_bytes(label.as_slice()),
            root_secret: self.root_secret,
            revision: self.revision,
        }
    }

    /// Reads a header from its stored form. The name comes back as the
    /// accumulator alone: its segments are not stored. A name of another
    /// length than 256 bytes is a `MalformedRecord`.
    pub fn from_serializable(record: PrivateNodeHeaderSerializable) -> (header: Result<
        PrivateNodeHeader,
        FsError,
    >)
        ensures
            match header {
                Ok(h) => record.name@.len() == 256 && h@ == (HeaderView {
                    name: NameView { base: record.name@, segments: Seq::empty() },
                    root_secret: record.root_secret@,
                    revision: record.revision,
                }),
                Err(e) => record.name@.len() != 256 && e == FsError::MalformedRecord,
            },
    {
        match NameAccumulator::parse_bytes(record.name.as_slice()) {
            Ok(accumulator) => {
                let name = Name::new(accumulator, Vec::new());
                assert(name@.segments =~= Seq::<Seq<u8>>::empty());
                Ok(
                    PrivateNodeHeader {
                        name,
                        root_secret: record.root_secret,
                        revision: record.revision,
                    },
                )
            },
            Err(e) => Err(e),
        }
    }
}

/// The payload of a file: in the node itself, or in blocks of its own in the
/// forest.
#[derive(Debug)]
pub enum FileContent {
    Inline { data: Vec<u8> },
    External(PrivateForestContent),
}

/// What a payload is.
pub enum ContentView {
    Inline(Seq<u8>),
    External(ForestContentView),
}

impl View for FileContent {
    type V = ContentView;

    open spec fn view(&self) -> ContentView {
        match self {
            FileContent::Inline { data } => ContentView::Inline(data@),
            FileContent::External(content) => ContentView::External(content@),
        }
    }
}

impl Clone for PrivateForestContent {
    fn clone(&self) -> (copy: Self)
        ensures
            copy@ == self@,
            copy.key == self.key,
    {
        PrivateForestContent {
            key: self.key,
            base_name: self.base_name.clone(),
            block_count: self.block_count,
            block_content_size: self.block_content_size,
        }
    }
}

impl Clone for FileContent {
    fn clone(&self) -> (copy: Self)
        ensures
            copy@ == self@,
    {
        match self {
            FileContent::Inline { data } => FileContent::Inline {
                data: copy_bytes(data.as_slice()),
            },
            FileContent::External(content) => FileContent::External(content.clone()),
        }
    }
}

/// The part of a private file that is encrypted under the snapshot key.
#[derive(Debug)]
pub struct PrivateFileContent {
    pub persisted_as: Option<Cid>,
    pub previous: CidSet,
    pub metadata: Metadata,
    pub content: FileContent,
}

/// A file in the private file system.
#[derive(Debug)]
pub struct PrivateFile {
    pub header: PrivateNodeHeader,
    pub content: PrivateFileContent,
}

/// What a private file is: its header, the identifier it was stored under, if
/// it was stored since its last change, the identifiers of the revisions
/// before it in increasing order, its metadata and its payload.
pub struct PrivateFileView {
    pub header: HeaderView,
    pub persisted_as: Option<Seq<u8>>,
    pub previous: Seq<Seq<u8>>,
    pub metadata: Metadata,
    pub content: ContentView,
}

impl PrivateFileView {
    /// The ratchet. A file that was stored becomes the next revision: its
    /// revision number goes up by one, it is no longer marked as stored, and
    /// its one link back is the identifier it was stored under. A file that
    /// was not stored since its last change stays as it is.
    pub open spec fn next_revision(self) -> PrivateFileView {
        match self.persisted_as {
            Some(cid) => PrivateFileView {
                header: self.header.advanced(),
                persisted_as: None,
                previous: seq![cid],
                ..self
            },
            None => self,
        }
    }

    /// The file after the block store answered `cid` to its content. An
    /// identifier that is remembered already stays.
    pub open spec fn stored(self, cid: Seq<u8>) -> PrivateFileView {
        match self.persisted_as {
            Some(_) => self,
            None => PrivateFileView { persisted_as: Some(cid), ..self },
        }
    }

    /// Whether the ratchet can step: a stored file needs a revision number
    /// below the largest.
    pub open spec fn can_advance(self) -> bool {
        self.persisted_as is Some ==> self.header.revision < u64::MAX
    }
}

impl View for PrivateFile {
    type V = PrivateFileView;

    open spec fn view(&self) -> PrivateFileView {
        PrivateFileView {
            header: self.header@,
            persisted_as: match self.content.persisted_as {
                Some(cid) => Some(cid@),
                None => None,
            },
            previous: self.content.previous.keys(),
            metadata: self.content.metadata,
            content: self.content.content@,
        }
    }
}

impl Clone for PrivateFile {
    fn clone(&self) -> (copy: Self)
        ensures
            copy@ == self@,
    {
        PrivateFile {
            header: self.header.clone(),
            content: PrivateFileContent {
                persisted_as: match &self.content.persisted_as {
                    Some(cid) => Some(cid.clone()),
                    None => None,
                },
                previous: self.content.previous.clone(),
                metadata: self.content.metadata,
                content: self.content.content.clone(),
            },
        }
    }
}

/// The stored form of a payload.
#[derive(Debug)]
pub enum FileContentSerializable {
    Inline { data: Vec<u8> },
    External { key: [u8; 32], base_name: Vec<u8>, block_count: u64, block_content_size: u64 },
}

/// The stored form of the content of a private file: what is encrypted under
/// the snapshot key and written to the block store.
#[derive(Debug)]
pub struct PrivateFileContentSerializable {
    pub version: Version,
    pub header_cid: Cid,
    pub previous: Vec<Cid>,
    pub metadata: Metadata,
    pub content: FileContentSerializable,
}

/// What a stored payload is.
pub enum ContentRecord {
    Inline(Seq<u8>),
    External(ForestContentView),
}

/// What a stored content record is.
pub struct PrivateFileRecord {
    pub version: Version,
    pub header_cid: Seq<u8>,
    pub previous: Seq<Seq<u8>>,
    pub metadata: Metadata,
    pub content: ContentRecord,
}

impl View for FileContentSerializable {
    type V = ContentRecord;

    open spec fn view(&self) -> ContentRecord {
        match self {
            FileContentSerializable::Inline { data } => ContentRecord::Inline(data@),
            FileContentSerializable::External {
                key,
                base_name,
                block_count,
                block_content_size,
            } => ContentRecord::External(
                ForestContentView {
                    key: key@,
                    base: base_name@,
                    block_count: *block_count,
                    block_content_size: *block_content_size,
                },
            ),
        }
    }
}

impl View for PrivateFileContentSerializable {
    type V = PrivateFileRecord;

    open spec fn view(&self) -> PrivateFileRecord {
        PrivateFileRecord {
            version: self.version,
            header_cid: self.header_cid@,
            previous: views(self.previous@),
            metadata: self.metadata,
            content: self.content@,
        }
    }
}

impl ContentView {
    /// The stored form of the payload.
    pub open spec fn record(self) -> ContentRecord {
        match self {
            ContentView::Inline(data) => ContentRecord::Inline(data),
            ContentView::External(external) => ContentRecord::External(external),
        }
    }

    /// The payload that a record is read as: none where the accumulator that
    /// the blocks' names start from does not have 256 bytes.
    pub open spec fn from_record(record: ContentRecord) -> Result<ContentView, FsError> {
        match record {
            ContentRecord::Inline(data) => Ok(ContentView::Inline(data)),
            ContentRecord::External(external) => if external.base.len() == 256 {
                Ok(ContentView::External(external))
            } else {
                Err(FsError::MalformedRecord)
            },
        }
    }

    /// A sharded payload starts from an accumulator of 256 bytes.
    pub open spec fn wf(self) -> bool {
        match self {
            ContentView::Inline(_) => true,
            ContentView::External(external) => external.base.len() == 256,
        }
    }
}

impl PrivateFileView {
    /// The record that the content of the file is stored as, beside a header
    /// that was stored under `header_cid`.
    pub open spec fn record(self, header_cid: Seq<u8>) -> PrivateFileRecord {
        PrivateFileRecord {
            version: current_version(),
            header_cid,
            previous: self.previous,
            metadata: self.metadata,
            content: self.content.record(),
        }
    }

    /// The file that a record is read as, with the header `header`, as
    /// fetched under `cid`. A version that is not readable is refused before
    /// anything else is looked at.
    pub open spec fn from_record(record: PrivateFileRecord, header: HeaderView, cid: Seq<u8>) -> Result<
        PrivateFileView,
        FsError,
    > {
        if !readable(record.version) {
            Err(FsError::UnreadableFormatVersion(record.version))
        } else {
            match ContentView::from_record(record.content) {
                Err(e) => Err(e),
                Ok(content) => Ok(
                    PrivateFileView {
                        header,
                        persisted_as: Some(cid),
                        previous: sorted_form(record.previous),
                        metadata: record.metadata,
                        content,
                    },
                ),
            }
        }
    }
}

/// What `get_content` asks of its caller.
#[derive(Debug)]
pub enum ContentStep {
    /// The payload, which the node holds itself.
    Inline(Vec<u8>),
    /// The identifiers of the blocks to fetch from the block store, in order;
    /// the fetched blocks go to `read_content`.
    Fetch(Vec<Cid>),
}

impl PrivateFile {
    /// The links to earlier revisions are held in increasing order.
    pub open spec fn wf(&self) -> bool {
        strictly_increasing(self@.previous)
    }

    /// Creates an empty file under `parent_bare_name`.
    pub fn new(parent_bare_name: &Name, time: i64, rng: &mut ThreadRng) -> (file: PrivateFile)
        ensures
            file.wf(),
            file@.header.revision == 0,
            file@.header.name.base == parent_bare_name@.base,
            file@.header.name.segments.drop_last() == parent_bare_name@.segments,
            file@.header.name.segments.len() == parent_bare_name@.segments.len() + 1,
            file@.persisted_as is None,
            file@.previous == Seq::<Seq<u8>>::empty(),
            file@.metadata == (Metadata { created: time, modified: time }),
            file@.content == ContentView::Inline(Seq::empty()),
    {
        let file = PrivateFile::with_seed(
            parent_bare_name,
            time,
            NameSegment::new(rng),
            random_secret(rng),
        );
        assert(file@.header.name.segments.drop_last() =~= parent_bare_name@.segments);
        file
    }

    /// Creates an empty file under `parent_bare_name`, with the segment and
    /// the root secret that the caller drew.
    pub fn with_seed(
        parent_bare_name: &Name,
        time: i64,
        segment: NameSegment,
        root_secret: [u8; 32],
    ) -> (file: PrivateFile)
        ensures
            file.wf(),
            file@ == (PrivateFileView {
                header: HeaderView::seeded(parent_bare_name@, segment.digits(), root_secret@),
                persisted_as: None,
                previous: Seq::empty(),
                metadata: Metadata { created: time, modified: time },
                content: ContentView::Inline(Seq::empty()),
            }),
    {
        PrivateFile {
            header: PrivateNodeHeader::with_seed(parent_bare_name, segment, root_secret),
            content: PrivateFileContent {
                persisted_as: None,
                previous: CidSet::new(),
                metadata: Metadata::new(time),
                content: FileContent::Inline { data: Vec::new() },
            },
        }
    }

    /// Creates a file under `parent_bare_name` with the payload `content`,
    /// which is cut into shards. The shards are to be put into the block
    /// store, and each identifier that the store answers with filed in the
    /// forest under the label of its shard. Read back under the content key,
    /// the shards give the payload.
    pub fn with_content(
        parent_bare_name: &Name,
        time: i64,
        content: &[u8],
        setup: &AccumulatorSetup,
        rng: &mut ThreadRng,
    ) -> (made: (PrivateFile, Vec<Shard>))
        requires
            setup.wf(),
        ensures
            made.0.wf(),
            made.0@.header.revision == 0,
            made.0@.header.name.base == parent_bare_name@.base,
            made.0@.header.name.segments.drop_last() == parent_bare_name@.segments,
            made.0@.header.name.segments.len() == parent_bare_name@.segments.len() + 1,
            made.0@.persisted_as is None,
            made.0@.previous == Seq::<Seq<u8>>::empty(),
            made.0@.metadata == (Metadata { created: time, modified: time }),
            made.0.content.content matches FileContent::External(external) && {
                &&& external@.base == hidden_name(external@.key, made.0@.header.name).label_digits(
                    setup.modulus(),
                )
                &&& external@.block_count == blocks_needed(
                    content@.len(),
                    MAX_BLOCK_CONTENT_SIZE as nat,
                )
                &&& external@.block_content_size == MAX_BLOCK_CONTENT_SIZE
                &&& made.1@.len() == external@.block_count
                &&& forall|i: int|
                    0 <= i < made.1@.len() ==> (#[trigger] made.1@[i]).label@
                        == external@.shard_name(i as u64)
                &&& forall|i: int|
                    0 <= i < made.1@.len() ==> (#[trigger] made.1@[i]).ciphertext@
                        == block_ciphertext(
                        external.key,
                        i as u64,
                        block_at(content@, MAX_BLOCK_CONTENT_SIZE as nat, i),
                    )
                &&& read_blocks(
                    external.key,
                    MAX_BLOCK_CONTENT_SIZE as nat,
                    ciphertexts(made.1@),
                ) == Ok::<Seq<u8>, FsError>(content@)
            },
    {
        let made = PrivateFile::with_content_and_seed(
            parent_bare_name,
            time,
            content,
            setup,
            NameSegment::new(rng),
            random_secret(rng),
            SnapshotKey::new(rng),
        );
        assert(made.0@.header.name.segments.drop_last() =~= parent_bare_name@.segments);
        made
    }

    /// Creates a file under `parent_bare_name` with the payload `content`,
    /// with the segment, the root secret and the content key that the caller
    /// drew. The same arguments give the same file and the same shards.
    pub fn with_content_and_seed(
        parent_bare_name: &Name,
        time: i64,
        content: &[u8],
        setup: &AccumulatorSetup,
        segment: NameSegment,
        root_secret: [u8; 32],
        key: SnapshotKey,
    ) -> (made: (PrivateFile, Vec<Shard>))
        requires
            setup.wf(),
        ensures
            made.0.wf(),
            made.0@.header == HeaderView::seeded(parent_bare_name@, segment.digits(), root_secret@),
            made.0@.persisted_as is None,
            made.0@.previous == Seq::<Seq<u8>>::empty(),
            made.0@.metadata == (Metadata { created: time, modified: time }),
            made.0.content.content matches FileContent::External(external) && external.key == key
                && encodes(external, made.1@, made.0@.header.name, content@, setup.modulus()),
    {
        let header = PrivateNodeHeader::with_seed(parent_bare_name, segment, root_secret);
        let (external, shards) = PrivateForestContent::encode(key, &header.name, content, setup);
        let file = PrivateFile {
            header,
            content: PrivateFileContent {
                persisted_as: None,
                previous: CidSet::new(),
                metadata: Metadata::new(time),
                content: FileContent::External(external),
            },
        };
        (file, shards)
    }

    /// Makes the file ready for a change. If it was stored, the next revision
    /// begins: the revision number goes up by one, the link back is set to the
    /// identifier it was stored under, and the file is no longer marked as
    /// stored. Otherwise nothing changes. Called twice with no store between,
    /// it begins one revision only.
    pub fn prepare_next_revision(self: &mut Arc<Self>) -> (file: &mut PrivateFile)
        requires
            old(self)@.can_advance(),
        ensures
            file@ == old(self)@.next_revision(),
            old(self).wf() ==> file.wf(),
            **final(self) == *final(file),
    {
        let previous_cid = match &self.content.persisted_as {
            Some(cid) => cid.clone(),
            None => {
                return make_mut(self);
            },
        };
        let cloned = make_mut(self);
        cloned.content.persisted_as = None;
        cloned.content.previous = CidSet::singleton(previous_cid);
        cloned.header.advance_ratchet();
        cloned
    }

    /// Replaces the payload by `content`, cut into shards under a fresh key.
    /// This begins a new revision if the file was stored.
    pub fn set_content(
        self: &mut Arc<Self>,
        time: i64,
        content: &[u8],
        setup: &AccumulatorSetup,
        rng: &mut ThreadRng,
    ) -> (shards: Vec<Shard>)
        requires
            old(self)@.can_advance(),
            setup.wf(),
        ensures
            old(self).wf() ==> final(self).wf(),
            final(self)@.header == old(self)@.next_revision().header,
            final(self)@.persisted_as is None,
            final(self)@.previous == old(self)@.next_revision().previous,
            final(self)@.metadata == (Metadata {
                created: old(self)@.metadata.created,
                modified: time,
            }),
            final(self).content.content matches FileContent::External(external) && {
                &&& external@.block_count == blocks_needed(
                    content@.len(),
                    MAX_BLOCK_CONTENT_SIZE as nat,
                )
                &&& shards@.len() == external@.block_count
                &&& external@.block_content_size == MAX_BLOCK_CONTENT_SIZE
                &&& external@.base == hidden_name(
                    external@.key,
                    final(self)@.header.name,
                ).label_digits(setup.modulus())
                &&& forall|i: int|
                    0 <= i < shards@.len() ==> (#[trigger] shards@[i]).label@
                        == external@.shard_name(i as u64)
                &&& forall|i: int|
                    0 <= i < shards@.len() ==> (#[trigger] shards@[i]).ciphertext@
                        == block_ciphertext(
                        external.key,
                        i as u64,
                        block_at(content@, MAX_BLOCK_CONTENT_SIZE as nat, i),
                    )
                &&& read_blocks(
                    external.key,
                    MAX_BLOCK_CONTENT_SIZE as nat,
                    ciphertexts(shards@),
                ) == Ok::<Seq<u8>, FsError>(content@)
            },
    {
        self.set_content_with_key(time, content, setup, SnapshotKey::new(rng))
    }

    /// Replaces the payload by `content`, cut into shards under the content
    /// key that the caller drew. This begins a new revision if the file was
    /// stored. The same arguments give the same shards.
    pub fn set_content_with_key(
        self: &mut Arc<Self>,
        time: i64,
        content: &[u8],
        setup: &AccumulatorSetup,
        key: SnapshotKey,
    ) -> (shards: Vec<Shard>)
        requires
            old(self)@.can_advance(),
            setup.wf(),
        ensures
            old(self).wf() ==> final(self).wf(),
            final(self)@.header == old(self)@.next_revision().header,
            final(self)@.persisted_as is None,
            final(self)@.previous == old(self)@.next_revision().previous,
            final(self)@.metadata == (Metadata {
                created: old(self)@.metadata.created,
                modified: time,
            }),
            final(self).content.content matches FileContent::External(external) && external.key
                == key && encodes(
                external,
                shards@,
                final(self)@.header.name,
                content@,
                setup.modulus(),
            ),
    {
        let file = self.prepare_next_revision();
        let (external, shards) = PrivateForestContent::encode(key, &file.header.name, content, setup);
        file.content.content = FileContent::External(external);
        file.content.metadata.upsert_mtime(time);
        shards
    }

    /// The first half of reading the payload. An inline payload is handed
    /// out. For a sharded one the identifiers of its blocks are looked up in
    /// the forest; a label that the forest lacks is a `LabelNotFound`.
    pub fn get_content(&self, forest: &Forest, setup: &AccumulatorSetup) -> (step: Result<
        ContentStep,
        FsError,
    >)
        requires
            forest.wf(),
            setup.wf(),
        ensures
            match self.content.content {
                FileContent::Inline { data } => step matches Ok(ContentStep::Inline(bytes))
                    && bytes@ == data@,
                FileContent::External(external) => match step {
                    Ok(ContentStep::Fetch(cids)) => {
                        &&& cids@.len() == external@.block_count
                        &&& forall|i: int|
                            0 <= i < cids@.len() ==> forest@.dom().contains(
                                #[trigger] external@.shard_label(i as u64, setup.modulus()),
                            )
                        &&& forall|i: int|
                            0 <= i < cids@.len() ==> crate::cid::is_least(
                                (#[trigger] cids@[i])@,
                                forest@[external@.shard_label(i as u64, setup.modulus())],
                            )
                    },
                    Ok(ContentStep::Inline(_)) => false,
                    Err(e) => e == FsError::LabelNotFound && exists|i: int|
                        0 <= i < external@.block_count && !forest@.dom().contains(
                            #[trigger] external@.shard_label(i as u64, setup.modulus()),
                        ),
                },
            },
    {
        match &self.content.content {
            FileContent::Inline { data } => Ok(ContentStep::Inline(copy_bytes(data.as_slice()))),
            FileContent::External(external) => match external.shard_cids(forest, setup) {
                Ok(cids) => Ok(ContentStep::Fetch(cids)),
                Err(e) => Err(e),
            },
        }
    }

    /// The second half of reading a sharded payload: decrypts the fetched
    /// blocks in order and joins them. For an inline payload no blocks are
    /// expected: any are a `MalformedRecord`.
    pub fn read_content(&self, blocks: &Vec<Vec<u8>>) -> (content: Result<Vec<u8>, FsError>)
        ensures
            match self.content.content {
                FileContent::Inline { data } => match content {
                    Ok(bytes) => blocks@.len() == 0 && bytes@ == data@,
                    Err(e) => blocks@.len() != 0 && e == FsError::MalformedRecord,
                },
                FileContent::External(external) => match content {
                    Ok(c) => blocks@.len() == external@.block_count && read_blocks(
                        external.key,
                        external@.block_content_size as nat,
                        byte_strings(blocks@),
                    ) == Ok::<Seq<u8>, FsError>(c@),
                    Err(e) => if blocks@.len() != external@.block_count {
                        e == FsError::BlockMissing
                    } else {
                        read_blocks(
                            external.key,
                            external@.block_content_size as nat,
                            byte_strings(blocks@),
                        ) == Err::<Seq<u8>, FsError>(e)
                    },
                },
            },
    {
        match &self.content.content {
            FileContent::Inline { data } => {
                if blocks.len() == 0 {
                    Ok(copy_bytes(data.as_slice()))
                } else {
                    Err(FsError::MalformedRecord)
                }
            },
            FileContent::External(external) => external.decrypt_blocks(blocks),
        }
    }

    /// The file as a node.
    pub fn as_node(&self) -> (node: PrivateNode)
        ensures
            node matches PrivateNode::File(file) && file@ == self@,
    {
        PrivateNode::File(Arc::new(self.clone()))
    }

    /// The metadata of the file.
    pub fn metadata(&self) -> (metadata: &Metadata)
        ensures
            *metadata == self@.metadata,
    {
        &self.content.metadata
    }

    /// The identifier that the file was stored under since its last change.
    pub fn persisted_as(&self) -> (cid: &Option<Cid>)
        ensures
            match cid {
                Some(c) => self@.persisted_as == Some(c@),
                None => self@.persisted_as is None,
            },
    {
        &self.content.persisted_as
    }
}

impl FileContent {
    /// The stored form of the payload.
    pub fn to_serializable(&self) -> (record: FileContentSerializable)
        ensures
            record@ == self@.record(),
    {
        match self {
            FileContent::Inline { data } => FileContentSerializable::Inline {
                data: copy_bytes(data.as_slice()),
            },
            FileContent::External(external) => {
                let base = external.base_name.as_bytes();
                FileContentSerializable::External {
                    key: external.key.0,
                    base_name: copy_bytes(base.as_slice()),
                    block_count: external.block_count,
                    block_content_size: external.block_content_size,
                }
            },
        }
    }

    /// Reads a payload from its stored form.
    pub fn from_serializable(record: FileContentSerializable) -> (content: Result<
        FileContent,
        FsError,
    >)
        ensures
            match content {
                Ok(c) => ContentView::from_record(record@) == Ok::<ContentView, FsError>(c@),
                Err(e) => ContentView::from_record(record@) == Err::<ContentView, FsError>(e),
            },
    {
        match record {
            FileContentSerializable::Inline { data } => Ok(FileContent::Inline { data }),
            FileContentSerializable::External {
                key,
                base_name,
                block_count,
                block_content_size,
            } => match NameAccumulator::parse_bytes(base_name.as_slice()) {
                Ok(accumulator) => Ok(
                    FileContent::External(
                        PrivateForestContent {
                            key: SnapshotKey(key),
                            base_name: accumulator,
                            block_count,
                            block_content_size,
                        },
                    ),
                ),
                Err(e) => Err(e),
            },
        }
    }
}

impl PrivateFile {
    /// The record that the content of the file is stored as, beside a header
    /// that was stored under `header_cid`.
    pub fn to_serializable(&self, header_cid: Cid) -> (record: PrivateFileContentSerializable)
        ensures
            record@ == self@.record(header_cid@),
    {
        PrivateFileContentSerializable {
            version: wnfs_version(),
            header_cid,
            previous: self.content.previous.to_vec(),
            metadata: self.content.metadata,
            content: self.content.content.to_serializable(),
        }
    }

    /// Reads a file from the record of its content, its header, and the
    /// identifier that the record was fetched under. A record whose version is
    /// not readable is refused, before anything else of it is looked at.
    pub fn from_serializable(
        record: PrivateFileContentSerializable,
        header: PrivateNodeHeader,
        cid: Cid,
    ) -> (file: Result<PrivateFile, FsError>)
        ensures
            match file {
                Ok(f) => PrivateFileView::from_record(record@, header@, cid@) == Ok::<
                    PrivateFileView,
                    FsError,
                >(f@) && f.wf(),
                Err(e) => PrivateFileView::from_record(record@, header@, cid@) == Err::<
                    PrivateFileView,
                    FsError,
                >(e),
            },
    {
        if !is_readable_wnfs_version(&record.version) {
            return Err(FsError::UnreadableFormatVersion(record.version));
        }
        let content = match FileContent::from_serializable(record.content) {
            Ok(content) => content,
            Err(e) => {
                return Err(e);
            },
        };
        Ok(
            PrivateFile {
                header,
                content: PrivateFileContent {
                    persisted_as: Some(cid),
                    previous: CidSet::from_vec(&record.previous),
                    metadata: record.metadata,
                    content,
                },
            },
        )
    }

    /// The first step of storing the file. A file that was stored since its
    /// last change is not stored again: the access key to it is handed back.
    /// For any other the temporal key of the revision is handed out, under
    /// which it is to be sealed.
    pub fn store(&self, setup: &AccumulatorSetup) -> (step: PrivateStoreStep)
        requires
            setup.wf(),
        ensures
            match step {
                PrivateStoreStep::Stored(access) => {
                    &&& self@.persisted_as == Some(access.content_cid())
                    &&& access is Temporal
                    &&& access.label() == self@.header.revision_name().label_digits(
                        setup.modulus(),
                    )
                    &&& access.snapshot_key() == self@.header.snapshot_key()
                },
                PrivateStoreStep::Seal(key) => self@.persisted_as is None && key@
                    == self@.header.temporal_key(),
            },
    {
        match &self.content.persisted_as {
            Some(cid) => PrivateStoreStep::Stored(access_key(&self.header, cid, setup)),
            None => PrivateStoreStep::Seal(self.header.derive_temporal_key()),
        }
    }

    /// Wraps the bytes of the header under the temporal key of the revision.
    pub fn seal_header(&self, header_bytes: &[u8]) -> (sealed: Result<Vec<u8>, FsError>)
        ensures
            match sealed {
                Ok(s) => {
                    &&& 1 <= header_bytes@.len() <= u32::MAX
                    &&& s@ == crate::private::keys::key_wrapped(
                        self@.header.temporal_key(),
                        header_bytes@,
                    )
                    &&& crate::private::keys::key_unwrapped(self@.header.temporal_key(), s@)
                        == Some(header_bytes@)
                },
                Err(e) => e == FsError::MalformedRecord && !(1 <= header_bytes@.len()
                    <= u32::MAX),
            },
    {
        self.header.derive_temporal_key().key_wrap_encrypt(header_bytes)
    }

    /// Encrypts the bytes of the content record under the snapshot key of the
    /// revision, with a nonce from `rng`. Whatever the nonce, the snapshot key
    /// of this revision opens the result.
    pub fn seal_content(&self, content_bytes: &[u8], rng: &mut ThreadRng) -> (sealed: Result<
        Vec<u8>,
        FsError,
    >)
        ensures
            match sealed {
                Ok(s) => {
                    &&& content_bytes@.len() / 64 < u32::MAX
                    &&& s@.len() == content_bytes@.len() + 40
                    &&& crate::private::keys::opened(
                        self@.header.snapshot_key(),
                        s@.subrange(0, 24),
                        s@.subrange(24, s@.len() as int),
                    ) == Some(content_bytes@)
                },
                Err(e) => e == FsError::MalformedRecord && content_bytes@.len() / 64 >= u32::MAX,
            },
    {
        let key = self.header.derive_temporal_key().derive_snapshot_key();
        key.encrypt(content_bytes, rng)
    }

    /// Remembers the identifier that the block store answered with to the
    /// content of the file, unless one is remembered already, and hands back
    /// the one that is remembered now.
    pub fn store_done(&mut self, cid: Cid) -> (kept: Cid)
        ensures
            final(self)@ == old(self)@.stored(cid@),
            final(self)@.persisted_as == Some(kept@),
    {
        match &self.content.persisted_as {
            Some(known) => known.clone(),
            None => {
                let kept = cid.clone();
                self.content.persisted_as = Some(cid);
                kept
            },
        }
    }
}

/// A private file that is stored, changed and stored again has one link back,
/// to the identifier of the first store, and a revision number that is higher
/// by exactly one; storing it twice with no change between keeps the first
/// identifier and the revision; and the ratchet steps once only until the
/// file is stored again.
pub proof fn law_private_ratchet(file: PrivateFileView, first: Seq<u8>, second: Seq<u8>)
    requires
        file.persisted_as is None,
        file.header.revision < u64::MAX,
    ensures
        file.stored(first).next_revision().previous == seq![first],
        file.stored(first).next_revision().header.revision == file.header.revision + 1,
        file.stored(first).next_revision().persisted_as is None,
        file.stored(first).stored(second) == file.stored(first),
        file.next_revision() == file,
        file.stored(first).next_revision().next_revision() == file.stored(first).next_revision(),
{
}

/// Reading the record of a file with its header gives the file back.
pub proof fn law_private_record_round_trip(file: PrivateFileView, header_cid: Seq<u8>, cid: Seq<u8>)
    requires
        strictly_increasing(file.previous),
        file.content.wf(),
    ensures
        PrivateFileView::from_record(file.record(header_cid), file.header, cid) == Ok::<
            PrivateFileView,
            FsError,
        >(PrivateFileView { persisted_as: Some(cid), ..file }),
{
    lemma_sorted_form_unique(file.previous, file.previous);
}

/// A header is stored with its name as the accumulator that the name commits
/// to. The header that is read back has the keys of the one that was stored,
/// and its revisions are filed under the same labels.
pub proof fn law_header_round_trip(header: HeaderView, modulus_digits: Seq<u8>)
    requires
        modulus_digits.len() == 256,
        be_value(modulus_digits) > 0,
    ensures
        ({
            let modulus = be_value(modulus_digits);
            let read = HeaderView {
                name: NameView { base: header.name.label_digits(modulus), segments: Seq::empty() },
                ..header
            };
            &&& read.temporal_key() == header.temporal_key()
            &&& read.snapshot_key() == header.snapshot_key()
            &&& read.revision_name().label(modulus) == header.revision_name().label(modulus)
        }),
{
    let modulus = be_value(modulus_digits);
    let stored = header.name.label_digits(modulus);
    let read = HeaderView {
        name: NameView { base: stored, segments: Seq::empty() },
        ..header
    };
    let segment = hashed_digits(revision_segment_dsi(), header.temporal_key());
    let first = values_of(header.name.segments);
    let second = seq![be_value(segment)];
    lemma_label_digits(header.name, modulus_digits);
    law_add_composes(be_value(header.name.base), first, second, modulus);
    assert(values_of(header.revision_name().segments) =~= first + second);
    assert(values_of(read.revision_name().segments) =~= second);
}

/// A record of a version that is not readable is refused with the version
/// named, whatever else it holds; and one of a version newer than the one
/// written here is not readable.
pub proof fn law_private_version_gate(record: PrivateFileRecord, header: HeaderView, cid: Seq<u8>)
    ensures
        !readable(record.version) ==> PrivateFileView::from_record(record, header, cid) == Err::<
            PrivateFileView,
            FsError,
        >(FsError::UnreadableFormatVersion(record.version)),
        newer(record.version, current_version()) ==> PrivateFileView::from_record(
            record,
            header,
            cid,
        ) == Err::<PrivateFileView, FsError>(FsError::UnreadableFormatVersion(record.version)),
        PrivateFileView::from_record(record, header, cid) is Ok ==> readable(record.version),
{
}

impl Id for PrivateFile {
    fn get_id(&self) -> String {
        address_text(&self.header)
    }
}

} // verus!
