//! Public file node: a versioned pointer to content, with links to the
//! revision that it replaces.

use crate::cid::{views, Cid, CidSet};
use crate::keyset::{lemma_sorted_form_unique, sorted_form, strictly_increasing};
use crate::error::FsError;
use crate::metadata::Metadata;
use crate::traits::Id;
use crate::utils::{address_text, make_mut};
use crate::version::{
    current_version, is_readable_wnfs_version, newer, readable, wnfs_version, Version,
};
use std::sync::Arc;
use vstd::prelude::*;

verus! {

/// A file in the public file system.
#[derive(Debug)]
pub struct PublicFile {
    pub persisted_as: Option<Cid>,
    pub metadata: Metadata,
    pub userland: Cid,
    pub previous: CidSet,
}

/// The stored form of a file: what is written to the block store.
#[derive(Debug)]
pub struct PublicFileSerializable {
    pub version: Version,
    pub metadata: Metadata,
    pub userland: Cid,
    pub previous: Vec<Cid>,
}

/// The stored form of a directory.
#[derive(Debug)]
pub struct PublicDirectorySerializable {
    pub version: Version,
    pub metadata: Metadata,
    pub userland: Vec<(String, Cid)>,
    pub previous: Vec<Cid>,
}

/// The stored form of a node: a tagged union of the two kinds.
#[derive(Debug)]
pub enum PublicNodeSerializable {
    File(PublicFileSerializable),
    Dir(PublicDirectorySerializable),
}

/// What `store` asks of its caller.
#[derive(Debug)]
pub enum StoreStep {
    /// The file is in the block store already, under this identifier.
    Stored(Cid),
    /// The record is to be put into the block store; the identifier that the
    /// store answers with goes to `store_done`.
    Put(PublicFileSerializable),
}

/// What a file is: the identifier it was stored under, if it was stored since
/// its last change, its metadata, the identifier of its content, and the
/// identifiers of the revisions before it, in increasing order.
pub struct PublicFileView {
    pub persisted_as: Option<Seq<u8>>,
    pub metadata: Metadata,
    pub userland: Seq<u8>,
    pub previous: Seq<Seq<u8>>,
}

/// What a stored file record is.
pub struct PublicFileRecord {
    pub version: Version,
    pub metadata: Metadata,
    pub userland: Seq<u8>,
    pub previous: Seq<Seq<u8>>,
}

impl PublicFileView {
    /// A new file with content `content`, made at `time`.
    pub open spec fn created(time: i64, content: Seq<u8>) -> PublicFileView {
        PublicFileView {
            persisted_as: None,
            metadata: Metadata { created: time, modified: time },
            userland: content,
            previous: Seq::empty(),
        }
    }

    /// The ratchet. A file that was stored becomes the next revision: it is no
    /// longer marked as stored, and its one link back is the identifier it was
    /// stored under. A file that was not stored since its last change stays as
    /// it is.
    pub open spec fn next_revision(self) -> PublicFileView {
        match self.persisted_as {
            Some(cid) => PublicFileView { persisted_as: None, previous: seq![cid], ..self },
            None => self,
        }
    }

    /// The file after new content was written at `time`.
    pub open spec fn written(self, time: i64, content: Seq<u8>) -> PublicFileView {
        let next = self.next_revision();
        PublicFileView {
            userland: content,
            metadata: Metadata { created: next.metadata.created, modified: time },
            ..next
        }
    }

    /// The file after the block store answered `cid` to its record. An
    /// identifier that is remembered already stays.
    pub open spec fn stored(self, cid: Seq<u8>) -> PublicFileView {
        match self.persisted_as {
            Some(_) => self,
            None => PublicFileView { persisted_as: Some(cid), ..self },
        }
    }

    /// The record that the file is stored as.
    pub open spec fn record(self) -> PublicFileRecord {
        PublicFileRecord {
            version: current_version(),
            metadata: self.metadata,
            userland: self.userland,
            previous: self.previous,
        }
    }

    /// The file that a record is read as: none where the version is not
    /// readable.
    pub open spec fn from_record(record: PublicFileRecord) -> Result<PublicFileView, FsError> {
        if readable(record.version) {
            Ok(
                PublicFileView {
                    persisted_as: None,
                    metadata: record.metadata,
                    userland: record.userland,
                    previous: sorted_form(record.previous),
                },
            )
        } else {
            Err(FsError::UnreadableFormatVersion(record.version))
        }
    }

    /// Equality of files: the identifier a file was stored under does not
    /// count.
    pub open spec fn same_file(self, other: PublicFileView) -> bool {
        &&& self.metadata == other.metadata
        &&& self.userland == other.userland
        &&& self.previous == other.previous
    }
}

impl View for PublicFileSerializable {
    type V = PublicFileRecord;

    open spec fn view(&self) -> PublicFileRecord {
        PublicFileRecord {
            version: self.version,
            metadata: self.metadata,
            userland: self.userland@,
            previous: views(self.previous@),
        }
    }
}

impl View for PublicFile {
    type V = PublicFileView;

    open spec fn view(&self) -> PublicFileView {
        PublicFileView {
            persisted_as: match self.persisted_as {
                Some(cid) => Some(cid@),
                None => None,
            },
            metadata: self.metadata,
            userland: self.userland@,
            previous: self.previous.keys(),
        }
    }
}

impl PublicFile {
    /// The links to earlier revisions are held in increasing order.
    pub open spec fn wf(&self) -> bool {
        strictly_increasing(self@.previous)
    }

    /// Creates a new file with the content identifier `content_cid`.
    pub fn new(time: i64, content_cid: Cid) -> (file: PublicFile)
        ensures
            file@ == PublicFileView::created(time, content_cid@),
            file.wf(),
    {
        PublicFile {
            persisted_as: None,
            metadata: Metadata::new(time),
            userland: content_cid,
            previous: CidSet::new(),
        }
    }

    /// Creates a new file behind an `Arc`.
    pub fn new_rc(time: i64, content_cid: Cid) -> (file: Arc<PublicFile>)
        ensures
            file@ == PublicFileView::created(time, content_cid@),
            file.wf(),
    {
        Arc::new(PublicFile::new(time, content_cid))
    }

    /// Makes the file ready for a change. If it was stored, the next revision
    /// begins: the link back is set to the identifier it was stored under, and
    /// the file is no longer marked as stored. Otherwise nothing changes.
    /// Either way the caller gets the file to itself.
    pub fn prepare_next_revision(self: &mut Arc<Self>) -> (file: &mut PublicFile)
        ensures
            file@ == old(self)@.next_revision(),
            old(self).wf() ==> file.wf(),
            **final(self) == *final(file),
    {
        let previous_cid = match &self.persisted_as {
            Some(cid) => cid.clone(),
            None => {
                return make_mut(self);
            },
        };
        let cloned = make_mut(self);
        cloned.persisted_as = None;
        cloned.previous = CidSet::singleton(previous_cid);
        cloned
    }

    /// Writes a new content identifier to the file. This begins a new
    /// revision if the file was stored.
    pub fn write(self: &mut Arc<Self>, time: i64, content_cid: Cid)
        ensures
            final(self)@ == old(self)@.written(time, content_cid@),
            old(self).wf() ==> final(self).wf(),
    {
        let file = self.prepare_next_revision();
        file.userland = content_cid;
        file.metadata.upsert_mtime(time);
    }

    /// The links to the revisions before this one.
    pub fn get_previous(&self) -> (previous: &CidSet)
        ensures
            previous == self.previous,
    {
        &self.previous
    }

    /// The metadata of the file.
    pub fn get_metadata(&self) -> (metadata: &Metadata)
        ensures
            *metadata == self.metadata,
    {
        &self.metadata
    }

    /// A mutable reference to the metadata of the file.
    pub fn get_metadata_mut(&mut self) -> (metadata: &mut Metadata)
        ensures
            *metadata == old(self).metadata,
            final(self)@ == (PublicFileView { metadata: *final(metadata), ..old(self)@ }),
    {
        &mut self.metadata
    }

    /// A mutable reference to the metadata of the file, after the ratchet.
    pub fn get_metadata_mut_rc(self: &mut Arc<Self>) -> (metadata: &mut Metadata)
        ensures
            *metadata == old(self).metadata,
            final(self)@ == (PublicFileView {
                metadata: *final(metadata),
                ..old(self)@.next_revision()
            }),
    {
        self.prepare_next_revision().get_metadata_mut()
    }

    /// The identifier of the content of the file.
    pub fn get_content_cid(&self) -> (cid: &Cid)
        ensures
            cid@ == self@.userland,
    {
        &self.userland
    }

    /// The identifier that the file was stored under since its last change.
    pub fn persisted_as(&self) -> (cid: &Option<Cid>)
        ensures
            match cid {
                Some(c) => self@.persisted_as == Some(c@),
                None => self@.persisted_as is None,
            },
    {
        &self.persisted_as
    }

    /// The first half of storing the file. A file that was stored since its
    /// last change is not stored again: its identifier is handed back. For any
    /// other the record to put into the block store is handed out.
    pub fn store(&self) -> (step: StoreStep)
        ensures
            match step {
                StoreStep::Stored(cid) => self@.persisted_as == Some(cid@),
                StoreStep::Put(record) => self@.persisted_as is None && record@
                    == self@.record(),
            },
    {
        match &self.persisted_as {
            Some(cid) => StoreStep::Stored(cid.clone()),
            None => StoreStep::Put(self.to_serializable()),
        }
    }

    /// The second half of storing the file: remembers the identifier that the
    /// block store answered with, unless one is remembered already, and hands
    /// back the one that is remembered now.
    pub fn store_done(&mut self, cid: Cid) -> (kept: Cid)
        ensures
            final(self)@ == old(self)@.stored(cid@),
            final(self)@.persisted_as == Some(kept@),
    {
        match &self.persisted_as {
            Some(known) => known.clone(),
            None => {
                let kept = cid.clone();
                self.persisted_as = Some(cid);
                kept
            },
        }
    }

    /// The record that the file is stored as.
    pub fn to_serializable(&self) -> (record: PublicFileSerializable)
        ensures
            record@ == self@.record(),
    {
        PublicFileSerializable {
            version: wnfs_version(),
            metadata: self.metadata,
            userland: self.userland.clone(),
            previous: self.previous.to_vec(),
        }
    }

    /// The stored form of the file as a node.
    pub fn to_node_serializable(&self) -> (node: PublicNodeSerializable)
        ensures
            node matches PublicNodeSerializable::File(record) && record@ == self@.record(),
    {
        PublicNodeSerializable::File(self.to_serializable())
    }

    /// Reads a file from a record. A record whose version is not readable is
    /// refused.
    pub fn from_serializable(serializable: PublicFileSerializable) -> (file: Result<
        PublicFile,
        FsError,
    >)
        ensures
            match file {
                Ok(f) => PublicFileView::from_record(serializable@) == Ok::<
                    PublicFileView,
                    FsError,
                >(f@) && f.wf(),
                Err(e) => PublicFileView::from_record(serializable@) == Err::<
                    PublicFileView,
                    FsError,
                >(e),
            },
    {
        if !is_readable_wnfs_version(&serializable.version) {
            return Err(FsError::UnreadableFormatVersion(serializable.version));
        }
        Ok(
            PublicFile {
                persisted_as: None,
                metadata: serializable.metadata,
                previous: CidSet::from_vec(&serializable.previous),
                userland: serializable.userland,
            },
        )
    }

    /// Reads a file from the stored form of a node. A directory is no file.
    pub fn from_node_serializable(node: PublicNodeSerializable) -> (file: Result<
        PublicFile,
        FsError,
    >)
        ensures
            match node {
                PublicNodeSerializable::File(record) => match file {
                    Ok(f) => PublicFileView::from_record(record@) == Ok::<
                        PublicFileView,
                        FsError,
                    >(f@) && f.wf(),
                    Err(e) => PublicFileView::from_record(record@) == Err::<
                        PublicFileView,
                        FsError,
                    >(e),
                },
                PublicNodeSerializable::Dir(_) => file matches Err(e) && e
                    == FsError::MalformedRecord,
            },
    {
        match node {
            PublicNodeSerializable::File(record) => PublicFile::from_serializable(record),
            PublicNodeSerializable::Dir(_) => Err(FsError::MalformedRecord),
        }
    }
}

impl Id for PublicFile {
    fn get_id(&self) -> String {
        address_text(&self.metadata)
    }
}

impl PartialEq for PublicFile {
    fn eq(&self, other: &Self) -> (same: bool) {
        self.metadata == other.metadata && self.userland == other.userland
            && self.previous.equals(&other.previous)
    }
}

impl vstd::std_specs::cmp::PartialEqSpecImpl for PublicFile {
    open spec fn obeys_eq_spec() -> bool {
        true
    }

    open spec fn eq_spec(&self, other: &Self) -> bool {
        self@.same_file(other@)
    }
}

impl Clone for PublicFile {
    fn clone(&self) -> (copy: Self)
        ensures
            copy@ == self@,
    {
        PublicFile {
            persisted_as: match &self.persisted_as {
                Some(cid) => Some(cid.clone()),
                None => None,
            },
            metadata: self.metadata,
            userland: self.userland.clone(),
            previous: self.previous.clone(),
        }
    }
}

/// A file that is stored, changed and stored again has one link back, to the
/// identifier of the first store; and storing a file twice with no change
/// between keeps the first identifier.
pub proof fn law_ratchet(file: PublicFileView, first: Seq<u8>, second: Seq<u8>, time: i64, content: Seq<u8>)
    requires
        file.persisted_as is None,
    ensures
        file.stored(first).written(time, content).record().previous == seq![first],
        file.stored(first).written(time, content).persisted_as is None,
        file.stored(first).stored(second) == file.stored(first),
        file.next_revision() == file,
        file.stored(first).next_revision().next_revision() == file.stored(first).next_revision(),
{
}

/// Reading the record of a file gives the file back, but for the identifier
/// it was stored under.
pub proof fn law_record_round_trip(file: PublicFileView)
    requires
        strictly_increasing(file.previous),
    ensures
        PublicFileView::from_record(file.record()) == Ok::<PublicFileView, FsError>(
            PublicFileView { persisted_as: None, ..file },
        ),
{
    lemma_sorted_form_unique(file.previous, file.previous);
}

/// A record is read if and only if its version is readable. One of a version
/// newer than the one written here is refused, and the error names the
/// version.
pub proof fn law_version_gate(record: PublicFileRecord)
    ensures
        PublicFileView::from_record(record) is Ok <==> readable(record.version),
        !readable(record.version) ==> PublicFileView::from_record(record) == Err::<
            PublicFileView,
            FsError,
        >(FsError::UnreadableFormatVersion(record.version)),
        newer(record.version, current_version()) ==> PublicFileView::from_record(record) == Err::<
            PublicFileView,
            FsError,
        >(FsError::UnreadableFormatVersion(record.version)),
{
}

} // verus!
