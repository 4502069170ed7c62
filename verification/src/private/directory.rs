//! Private directory node: a versioned, encrypted mapping from the names of
//! its children to the children.

use crate::cid::{views, Cid, CidSet};
use crate::error::FsError;
use crate::private::node::TemporalAccessKey;
use crate::version::{
    current_version, is_readable_wnfs_version, newer, readable, wnfs_version, Version,
};
use crate::keyset::{
    copy_bytes, lemma_increasing_no_duplicates, lemma_paired_at, lemma_paired_insert,
    lemma_paired_update, lemma_sorted_form_unique, paired, sorted_form, strictly_increasing,
    KeySet,
};
use crate::metadata::Metadata;
use crate::accumulator::NameSegment;
use crate::name::Name;
use crate::private::keys::random_secret;
use crate::private::file::{HeaderView, PrivateFile, PrivateNodeHeader};
use crate::traits::Id;
use crate::utils::{address_text, make_mut};
use rand::rngs::ThreadRng;
use std::sync::Arc;
use vstd::prelude::*;

verus! {

/// A node of the private file system.
#[derive(Debug)]
pub enum PrivateNode {
    File(Arc<PrivateFile>),
    Dir(Arc<PrivateDirectory>),
}

/// The part of a private directory that is encrypted under the snapshot key.
/// The children are held in the order of their names.
#[derive(Debug)]
pub struct PrivateDirectoryContent {
    pub persisted_as: Option<Cid>,
    pub previous: CidSet,
    pub metadata: Metadata,
    names: KeySet,
    labels: Vec<String>,
    nodes: Vec<PrivateNode>,
}

/// A directory in the private file system.
#[derive(Debug)]
pub struct PrivateDirectory {
    pub header: PrivateNodeHeader,
    pub content: PrivateDirectoryContent,
}

impl Clone for PrivateDirectory {
    fn clone(&self) -> (copy: Self)
        ensures
            copy.names() == self.names(),
            copy.nodes() == self.nodes(),
            copy.header_view() == self.header_view(),
            copy.metadata_view() == self.metadata_view(),
            copy.previous_view() == self.previous_view(),
            copy.persisted_view() == self.persisted_view(),
            self.wf() ==> copy.wf(),
    {
        let mut labels: Vec<String> = Vec::new();
        let mut nodes: Vec<PrivateNode> = Vec::new();
        let mut i: usize = 0;
        while i < self.content.nodes.len()
            invariant
                i <= self.content.nodes@.len(),
                nodes@ == self.content.nodes@.take(i as int),
            decreases self.content.nodes@.len() - i,
        {
            nodes.push(self.content.nodes[i].clone());
            assert(self.content.nodes@.take(i + 1) =~= self.content.nodes@.take(i as int).push(
                self.content.nodes@[i as int],
            ));
            i += 1;
        }
        assert(self.content.nodes@.take(i as int) =~= self.content.nodes@);
        let mut j: usize = 0;
        while j < self.content.labels.len()
            invariant
                j <= self.content.labels@.len(),
                labels@ == self.content.labels@.take(j as int),
            decreases self.content.labels@.len() - j,
        {
            labels.push(self.content.labels[j].clone());
            assert(self.content.labels@.take(j + 1) =~= self.content.labels@.take(j as int).push(
                self.content.labels@[j as int],
            ));
            j += 1;
        }
        assert(self.content.labels@.take(j as int) =~= self.content.labels@);
        PrivateDirectory {
            header: self.header.clone(),
            content: PrivateDirectoryContent {
                persisted_as: match &self.content.persisted_as {
                    Some(cid) => Some(cid.clone()),
                    None => None,
                },
                previous: self.content.previous.clone(),
                metadata: self.content.metadata,
                names: self.content.names.clone(),
                labels,
                nodes,
            },
        }
    }
}

impl Clone for PrivateNode {
    fn clone(&self) -> (copy: Self)
        ensures
            copy == *self,
    {
        match self {
            PrivateNode::File(file) => PrivateNode::File(file.clone()),
            PrivateNode::Dir(dir) => PrivateNode::Dir(dir.clone()),
        }
    }
}

impl PrivateNode {
    /// Whether the node is a directory.
    pub fn is_dir(&self) -> (dir: bool)
        ensures
            dir == (self is Dir),
    {
        match self {
            PrivateNode::Dir(_) => true,
            PrivateNode::File(_) => false,
        }
    }

    /// Whether the node is a file.
    pub fn is_file(&self) -> (file: bool)
        ensures
            file == (self is File),
    {
        match self {
            PrivateNode::File(_) => true,
            PrivateNode::Dir(_) => false,
        }
    }

    /// The header of the node.
    pub fn get_header(&self) -> (header: &PrivateNodeHeader)
        ensures
            match self {
                PrivateNode::File(file) => *header == file.header,
                PrivateNode::Dir(dir) => *header == dir.header,
            },
    {
        match self {
            PrivateNode::File(file) => &file.header,
            PrivateNode::Dir(dir) => &dir.header,
        }
    }
}

impl PrivateNode {
    /// The metadata of the node.
    pub fn get_metadata(&self) -> (metadata: &Metadata)
        ensures
            *metadata == self.metadata(),
    {
        match self {
            PrivateNode::File(file) => &file.content.metadata,
            PrivateNode::Dir(dir) => &dir.content.metadata,
        }
    }

    /// The metadata of the node.
    pub open spec fn metadata(&self) -> Metadata {
        match self {
            PrivateNode::File(file) => file.content.metadata,
            PrivateNode::Dir(dir) => dir.metadata_view(),
        }
    }
}

/// The stored form of one child of a directory: its name, whether it is a
/// directory itself, and the access key to the revision of it that was
/// stored.
#[derive(Debug)]
pub struct DirectoryEntrySerializable {
    pub name: String,
    pub directory: bool,
    pub label: Vec<u8>,
    pub temporal_key: [u8; 32],
    pub content_cid: Cid,
}

/// The stored form of the content of a private directory.
#[derive(Debug)]
pub struct PrivateDirectoryContentSerializable {
    pub version: Version,
    pub header_cid: Cid,
    pub previous: Vec<Cid>,
    pub metadata: Metadata,
    pub entries: Vec<DirectoryEntrySerializable>,
}

/// What the children of a directory are: for each child's name, as UTF-8
/// bytes, the child.
pub type Entries = Map<Seq<u8>, PrivateNode>;

/// What the stored form of one child is.
pub struct DirectoryEntryRecord {
    pub name: Seq<u8>,
    pub directory: bool,
    pub label: Seq<u8>,
    pub temporal_key: Seq<u8>,
    pub content_cid: Seq<u8>,
}

/// What the stored form of the content of a directory is.
pub struct PrivateDirectoryRecord {
    pub version: Version,
    pub header_cid: Seq<u8>,
    pub previous: Seq<Seq<u8>>,
    pub metadata: Metadata,
    pub entries: Seq<DirectoryEntryRecord>,
}

/// What a directory is: its header, the identifier it was stored under, if it
/// was stored since its last change, the identifiers of the revisions before
/// it in increasing order, its metadata, the names of its children as UTF-8
/// bytes in increasing order, and the children in the order of their names.
pub struct PrivateDirectoryView {
    pub header: HeaderView,
    pub persisted_as: Option<Seq<u8>>,
    pub previous: Seq<Seq<u8>>,
    pub metadata: Metadata,
    pub names: Seq<Seq<u8>>,
    pub nodes: Seq<PrivateNode>,
}

impl View for DirectoryEntrySerializable {
    type V = DirectoryEntryRecord;

    open spec fn view(&self) -> DirectoryEntryRecord {
        DirectoryEntryRecord {
            name: vstd::utf8::encode_utf8(self.name@),
            directory: self.directory,
            label: self.label@,
            temporal_key: self.temporal_key@,
            content_cid: self.content_cid@,
        }
    }
}

impl View for PrivateDirectoryContentSerializable {
    type V = PrivateDirectoryRecord;

    open spec fn view(&self) -> PrivateDirectoryRecord {
        PrivateDirectoryRecord {
            version: self.version,
            header_cid: self.header_cid@,
            previous: views(self.previous@),
            metadata: self.metadata,
            entries: Seq::new(self.entries@.len(), |i: int| self.entries@[i]@),
        }
    }
}

impl View for PrivateDirectory {
    type V = PrivateDirectoryView;

    open spec fn view(&self) -> PrivateDirectoryView {
        PrivateDirectoryView {
            header: self.header_view(),
            persisted_as: self.persisted_view(),
            previous: self.previous_view(),
            metadata: self.metadata_view(),
            names: self.names(),
            nodes: self.nodes(),
        }
    }
}

/// The names of the entries of a record, in the order of the record.
pub open spec fn record_names(entries: Seq<DirectoryEntryRecord>) -> Seq<Seq<u8>> {
    Seq::new(entries.len(), |i: int| entries[i].name)
}

/// The children that come of putting each of `nodes` under the name at its
/// place, one after the other: a name that comes twice keeps the later node.
pub open spec fn entries_of(names: Seq<Seq<u8>>, nodes: Seq<PrivateNode>) -> Entries
    decreases names.len(),
{
    if names.len() == 0 || nodes.len() != names.len() {
        Entries::empty()
    } else {
        entries_of(names.drop_last(), nodes.drop_last()).insert(names.last(), nodes.last())
    }
}

/// The entries hold exactly the names that were put.
pub proof fn lemma_entries_dom(names: Seq<Seq<u8>>, nodes: Seq<PrivateNode>)
    requires
        names.len() == nodes.len(),
    ensures
        forall|k: Seq<u8>| #[trigger] entries_of(names, nodes).dom().contains(k) <==> names.contains(k),
    decreases names.len(),
{
    if names.len() > 0 {
        lemma_entries_dom(names.drop_last(), nodes.drop_last());
        assert forall|k: Seq<u8>| #[trigger]
            entries_of(names, nodes).dom().contains(k) <==> names.contains(k) by {
            let front = entries_of(names.drop_last(), nodes.drop_last());
            assert(entries_of(names, nodes) == front.insert(names.last(), nodes.last()));
            assert(front.dom().contains(k) <==> names.drop_last().contains(k));
            if names.drop_last().contains(k) {
                let j = choose|j: int| 0 <= j < names.drop_last().len() && names.drop_last()[j] == k;
                assert(names[j] == k);
            }
            if k == names.last() {
                assert(names[names.len() - 1] == k);
            }
            if names.contains(k) && k != names.last() {
                let j = choose|j: int| 0 <= j < names.len() && names[j] == k;
                assert(names.drop_last()[j] == k);
            }
        }
    }
}

/// Under names in increasing order each node stands under the name at its
/// place.
pub proof fn lemma_entries_paired(names: Seq<Seq<u8>>, nodes: Seq<PrivateNode>)
    requires
        names.len() == nodes.len(),
        strictly_increasing(names),
    ensures
        entries_of(names, nodes) == paired(names, nodes),
    decreases names.len(),
{
    if names.len() == 0 {
        assert(entries_of(names, nodes) =~= paired(names, nodes));
    } else {
        let front = names.drop_last();
        let last = names.len() - 1;
        assert(strictly_increasing(front)) by {
            assert forall|i: int, j: int| 0 <= i < j < front.len() implies crate::lex::lex_lt(
                #[trigger] front[i],
                #[trigger] front[j],
            ) by {
                assert(crate::lex::lex_lt(names[i], names[j]));
            }
        }
        lemma_entries_paired(front, nodes.drop_last());
        assert(front.insert(last, names.last()) =~= names);
        assert(nodes.drop_last().insert(last, nodes.last()) =~= nodes);
        if front.contains(names.last()) {
            let j = choose|j: int| 0 <= j < front.len() && front[j] == names.last();
            lemma_increasing_no_duplicates(names, j, last);
        }
        lemma_paired_insert(front, nodes.drop_last(), last, names.last(), nodes.last());
    }
}

/// What is stored of the children and of the access keys to them.
pub open spec fn child_entries(
    names: Seq<Seq<u8>>,
    nodes: Seq<PrivateNode>,
    children: Seq<TemporalAccessKey>,
) -> Seq<DirectoryEntryRecord> {
    Seq::new(
        names.len(),
        |i: int|
            DirectoryEntryRecord {
                name: names[i],
                directory: nodes[i] is Dir,
                label: children[i].label@,
                temporal_key: children[i].temporal_key@,
                content_cid: children[i].content_cid@,
            },
    )
}

impl PrivateDirectoryView {
    /// The children by name.
    pub open spec fn entries(self) -> Entries {
        paired(self.names, self.nodes)
    }

    /// The record that the content of the directory is stored as, beside a
    /// header that was stored under `header_cid`, with the access keys to the
    /// children in the order of their names.
    pub open spec fn record(self, header_cid: Seq<u8>, children: Seq<TemporalAccessKey>) -> PrivateDirectoryRecord {
        PrivateDirectoryRecord {
            version: current_version(),
            header_cid,
            previous: self.previous,
            metadata: self.metadata,
            entries: child_entries(self.names, self.nodes, children),
        }
    }

    /// The directory that a record is read as, with the header `header`, as
    /// fetched under `cid`, with the children `nodes` that were loaded for its
    /// entries, in the order of the record. A version that is not readable is
    /// refused before anything else is looked at; then another number of
    /// children than the record has entries.
    pub open spec fn from_record(
        record: PrivateDirectoryRecord,
        header: HeaderView,
        cid: Seq<u8>,
        nodes: Seq<PrivateNode>,
    ) -> Result<PrivateDirectoryView, FsError> {
        if !readable(record.version) {
            Err(FsError::UnreadableFormatVersion(record.version))
        } else if nodes.len() != record.entries.len() {
            Err(FsError::MalformedRecord)
        } else {
            let names = sorted_form(record_names(record.entries));
            let entries = entries_of(record_names(record.entries), nodes);
            Ok(
                PrivateDirectoryView {
                    header,
                    persisted_as: Some(cid),
                    previous: sorted_form(record.previous),
                    metadata: record.metadata,
                    names,
                    nodes: Seq::new(names.len(), |i: int| entries[names[i]]),
                },
            )
        }
    }
}

/// Reading the record of a directory, with its header and its children, gives
/// the directory back.
pub proof fn law_directory_round_trip(
    dir: PrivateDirectoryView,
    header_cid: Seq<u8>,
    children: Seq<TemporalAccessKey>,
    cid: Seq<u8>,
)
    requires
        strictly_increasing(dir.names),
        strictly_increasing(dir.previous),
        dir.names.len() == dir.nodes.len(),
    ensures
        PrivateDirectoryView::from_record(
            dir.record(header_cid, children),
            dir.header,
            cid,
            dir.nodes,
        ) == Ok::<PrivateDirectoryView, FsError>(
            PrivateDirectoryView { persisted_as: Some(cid), ..dir },
        ),
{
    let record = dir.record(header_cid, children);
    assert(record_names(record.entries) =~= dir.names);
    lemma_sorted_form_unique(dir.names, dir.names);
    lemma_sorted_form_unique(dir.previous, dir.previous);
    lemma_entries_paired(dir.names, dir.nodes);
    let entries = entries_of(dir.names, dir.nodes);
    assert(Seq::new(dir.names.len(), |i: int| entries[dir.names[i]]) =~= dir.nodes) by {
        assert forall|i: int| 0 <= i < dir.names.len() implies entries[dir.names[i]]
            == dir.nodes[i] by {
            lemma_paired_at(dir.names, dir.nodes, i);
        }
    }
}

/// A directory record of a version that is not readable is refused with the
/// version named, whatever else it holds; and one of a version newer than the
/// one written here is not readable.
pub proof fn law_directory_version_gate(
    record: PrivateDirectoryRecord,
    header: HeaderView,
    cid: Seq<u8>,
    nodes: Seq<PrivateNode>,
)
    ensures
        !readable(record.version) ==> PrivateDirectoryView::from_record(record, header, cid, nodes)
            == Err::<PrivateDirectoryView, FsError>(
            FsError::UnreadableFormatVersion(record.version),
        ),
        newer(record.version, current_version()) ==> !readable(record.version),
{
}

impl PrivateDirectory {
    /// The names of the children, as UTF-8 bytes, in increasing order.
    pub closed spec fn names(&self) -> Seq<Seq<u8>> {
        self.content.names.keys()
    }

    /// The children, in the order of their names.
    pub closed spec fn nodes(&self) -> Seq<PrivateNode> {
        self.content.nodes@
    }

    /// The children by name.
    pub open spec fn entries(&self) -> Entries {
        paired(self.names(), self.nodes())
    }

    /// The header of the directory.
    pub closed spec fn header_view(&self) -> HeaderView {
        self.header@
    }

    /// The metadata of the directory.
    pub closed spec fn metadata_view(&self) -> Metadata {
        self.content.metadata
    }

    /// The identifiers of the revisions before this one, in increasing order.
    pub closed spec fn previous_view(&self) -> Seq<Seq<u8>> {
        self.content.previous.keys()
    }

    /// The identifier that the directory was stored under since its last
    /// change.
    pub closed spec fn persisted_view(&self) -> Option<Seq<u8>> {
        match self.content.persisted_as {
            Some(cid) => Some(cid@),
            None => None,
        }
    }

    /// Whether the ratchet can step: a stored directory needs a revision
    /// number below the largest.
    pub open spec fn can_advance(&self) -> bool {
        self.persisted_view() is Some ==> self.header_view().revision < u64::MAX
    }

    /// The names are held in increasing order, each with its child, and the
    /// links to earlier revisions are in order too.
    pub closed spec fn wf(&self) -> bool {
        &&& self.content.names.wf()
        &&& self.content.nodes@.len() == self.content.names.keys().len()
        &&& self.content.labels@.len() == self.content.names.keys().len()
        &&& forall|i: int|
            0 <= i < self.content.labels@.len() ==> vstd::utf8::encode_utf8(
                (#[trigger] self.content.labels@[i])@,
            ) == self.content.names.keys()[i]
        &&& self.content.previous.wf()
    }

    /// An empty directory under `parent_bare_name`.
    pub fn new(parent_bare_name: &Name, time: i64, rng: &mut ThreadRng) -> (dir: PrivateDirectory)
        ensures
            dir.wf(),
            dir.entries() == Entries::empty(),
            dir.names().len() == 0,
            dir.header_view().revision == 0,
            dir.header_view().name.base == parent_bare_name@.base,
            dir.header_view().name.segments.drop_last() == parent_bare_name@.segments,
            dir.header_view().name.segments.len() == parent_bare_name@.segments.len() + 1,
            dir.metadata_view() == (Metadata { created: time, modified: time }),
            dir.previous_view() == Seq::<Seq<u8>>::empty(),
            dir.persisted_view() is None,
    {
        let dir = PrivateDirectory::with_seed(
            parent_bare_name,
            time,
            NameSegment::new(rng),
            random_secret(rng),
        );
        assert(dir.header_view().name.segments.drop_last() =~= parent_bare_name@.segments);
        dir
    }

    /// An empty directory under `parent_bare_name`, with the segment and the
    /// root secret that the caller drew.
    pub fn with_seed(
        parent_bare_name: &Name,
        time: i64,
        segment: NameSegment,
        root_secret: [u8; 32],
    ) -> (dir: PrivateDirectory)
        ensures
            dir.wf(),
            dir.entries() == Entries::empty(),
            dir.names().len() == 0,
            dir.header_view() == HeaderView::seeded(
                parent_bare_name@,
                segment.digits(),
                root_secret@,
            ),
            dir.metadata_view() == (Metadata { created: time, modified: time }),
            dir.previous_view() == Seq::<Seq<u8>>::empty(),
            dir.persisted_view() is None,
    {
        let dir = PrivateDirectory {
            header: PrivateNodeHeader::with_seed(parent_bare_name, segment, root_secret),
            content: PrivateDirectoryContent {
                persisted_as: None,
                previous: CidSet::new(),
                metadata: Metadata::new(time),
                names: KeySet::new(),
                labels: Vec::new(),
                nodes: Vec::new(),
            },
        };
        assert(dir.entries() =~= Entries::empty());
        dir
    }

    /// The number of children.
    pub fn len(&self) -> (n: usize)
        requires
            self.wf(),
        ensures
            n == self.names().len(),
    {
        self.content.names.len()
    }

    /// Puts `node` into the directory under `name`, in place of what stands
    /// under that name.
    pub fn put_node(&mut self, name: &str, node: PrivateNode)
        requires
            old(self).wf(),
        ensures
            final(self).wf(),
            final(self).entries() == old(self).entries().insert(
                vstd::utf8::encode_utf8(name@),
                node,
            ),
            final(self).header_view() == old(self).header_view(),
            final(self).metadata_view() == old(self).metadata_view(),
            final(self).previous_view() == old(self).previous_view(),
            final(self).persisted_view() == old(self).persisted_view(),
    {
        let ghost names0 = self.names();
        let ghost nodes0 = self.nodes();
        let ghost key = vstd::utf8::encode_utf8(name@);
        let placed = self.content.names.insert(copy_bytes(name.as_bytes()));
        let i = placed.0;
        if placed.1 {
            self.content.labels.insert(i, name.to_owned());
            self.content.nodes.insert(i, node);
            proof {
                lemma_paired_insert(names0, nodes0, i as int, key, node);
                assert(self.nodes() =~= nodes0.insert(i as int, node));
                assert forall|j: int|
                    0 <= j < self.content.labels@.len() implies vstd::utf8::encode_utf8(
                    (#[trigger] self.content.labels@[j])@,
                ) == self.content.names.keys()[j] by {
                    if j < i {
                        assert(self.content.labels@[j] == old(self).content.labels@[j]);
                    } else if j > i {
                        assert(self.content.labels@[j] == old(self).content.labels@[j - 1]);
                    }
                }
            }
        } else {
            let _ = self.content.nodes.remove(i);
            self.content.nodes.insert(i, node);
            proof {
                lemma_paired_update(names0, nodes0, i as int, node);
                assert(self.nodes() =~= nodes0.update(i as int, node));
            }
        }
    }

    /// The child under `name`, if there is one.
    pub fn lookup_node(&self, name: &str) -> (found: Option<&PrivateNode>)
        requires
            self.wf(),
        ensures
            match found {
                Some(node) => self.entries().dom().contains(vstd::utf8::encode_utf8(name@))
                    && *node == self.entries()[vstd::utf8::encode_utf8(name@)],
                None => !self.entries().dom().contains(vstd::utf8::encode_utf8(name@)),
            },
    {
        match self.content.names.index_of(name.as_bytes()) {
            Some(i) => {
                proof {
                    lemma_paired_at(self.names(), self.nodes(), i as int);
                }
                Some(&self.content.nodes[i])
            },
            None => None,
        }
    }

    /// The names of the children with their metadata, in the order of the
    /// names.
    pub fn ls(&self) -> (listing: Vec<(String, Metadata)>)
        requires
            self.wf(),
        ensures
            listing@.len() == self.names().len(),
            forall|i: int|
                0 <= i < listing@.len() ==> {
                    &&& vstd::utf8::encode_utf8((#[trigger] listing@[i]).0@) == self.names()[i]
                    &&& self.entries().dom().contains(self.names()[i])
                    &&& listing@[i].1 == self.entries()[self.names()[i]].metadata()
                },
    {
        let mut listing: Vec<(String, Metadata)> = Vec::new();
        let mut i: usize = 0;
        while i < self.content.nodes.len()
            invariant
                self.wf(),
                i <= self.content.nodes@.len(),
                listing@.len() == i,
                forall|j: int|
                    0 <= j < i ==> {
                        &&& vstd::utf8::encode_utf8((#[trigger] listing@[j]).0@) == self.names()[j]
                        &&& self.entries().dom().contains(self.names()[j])
                        &&& listing@[j].1 == self.entries()[self.names()[j]].metadata()
                    },
            decreases self.content.nodes@.len() - i,
        {
            proof {
                lemma_paired_at(self.names(), self.nodes(), i as int);
            }
            let name = self.content.labels[i].clone();
            let metadata = *self.content.nodes[i].get_metadata();
            listing.push((name, metadata));
            i += 1;
        }
        listing
    }

    /// Makes the directory ready for a change. If it was stored, the next
    /// revision begins: the revision number goes up by one, the link back is
    /// set to the identifier it was stored under, and the directory is no
    /// longer marked as stored. Otherwise nothing changes.
    pub fn prepare_next_revision(self: &mut Arc<Self>) -> (dir: &mut PrivateDirectory)
        requires
            old(self).can_advance(),
        ensures
            old(self).wf() ==> dir.wf(),
            dir.entries() == old(self).entries(),
            dir.metadata_view() == old(self).metadata_view(),
            dir.persisted_view() is None,
            match old(self).persisted_view() {
                Some(cid) => dir.previous_view() == seq![cid] && dir.header_view() == old(
                    self,
                ).header_view().advanced(),
                None => dir.previous_view() == old(self).previous_view() && dir.header_view()
                    == old(self).header_view(),
            },
            **final(self) == *final(dir),
    {
        let previous_cid = match &self.content.persisted_as {
            Some(cid) => cid.clone(),
            None => {
                return make_mut(self);
            },
        };
        let cloned = make_mut(self);
        cloned.content.persisted_as = None;
        cloned.content.previous = CidSet::singleton(previous_cid);
        cloned.header.advance_ratchet();
        cloned
    }

    /// Remembers the identifier that the block store answered with to the
    /// content of the directory, unless one is remembered already, and hands
    /// back the one that is remembered now.
    pub fn store_done(&mut self, cid: Cid) -> (kept: Cid)
        ensures
            final(self).persisted_view() == match old(self).persisted_view() {
                Some(known) => Some(known),
                None => Some(cid@),
            },
            final(self).persisted_view() == Some(kept@),
            final(self).entries() == old(self).entries(),
            final(self).header_view() == old(self).header_view(),
            final(self).metadata_view() == old(self).metadata_view(),
            final(self).previous_view() == old(self).previous_view(),
            old(self).wf() ==> final(self).wf(),
    {
        match &self.content.persisted_as {
            Some(known) => known.clone(),
            None => {
                let kept = cid.clone();
                self.content.persisted_as = Some(cid);
                kept
            },
        }
    }

    /// The record that the content of the directory is stored as, beside a
    /// header that was stored under `header_cid`. The children have to be
    /// stored first: `children` holds the access key to each, in the order of
    /// the names. Another number of keys than there are children is a
    /// `MalformedRecord`.
    pub fn to_serializable(&self, header_cid: Cid, children: &Vec<TemporalAccessKey>) -> (record:
        Result<PrivateDirectoryContentSerializable, FsError>)
        requires
            self.wf(),
        ensures
            match record {
                Ok(r) => {
                    &&& children@.len() == self.names().len()
                    &&& r@ == self@.record(header_cid@, children@)
                    &&& r.version == current_version()
                    &&& r.header_cid@ == header_cid@
                    &&& views(r.previous@) == self.previous_view()
                    &&& r.metadata == self.metadata_view()
                    &&& r.entries@.len() == self.names().len()
                    &&& forall|i: int|
                        0 <= i < r.entries@.len() ==> {
                            &&& vstd::utf8::encode_utf8((#[trigger] r.entries@[i]).name@)
                                == self.names()[i]
                            &&& r.entries@[i].directory == (self.nodes()[i] is Dir)
                            &&& r.entries@[i].label@ == children@[i].label@
                            &&& r.entries@[i].temporal_key@ == children@[i].temporal_key@
                            &&& r.entries@[i].content_cid@ == children@[i].content_cid@
                        }
                },
                Err(e) => e == FsError::MalformedRecord && children@.len() != self.names().len(),
            },
    {
        if children.len() != self.content.labels.len() {
            return Err(FsError::MalformedRecord);
        }
        let mut entries: Vec<DirectoryEntrySerializable> = Vec::new();
        let mut i: usize = 0;
        while i < children.len()
            invariant
                self.wf(),
                i <= children@.len(),
                children@.len() == self.content.labels@.len(),
                entries@.len() == i,
                forall|j: int|
                    0 <= j < i ==> {
                        &&& vstd::utf8::encode_utf8((#[trigger] entries@[j]).name@)
                            == self.names()[j]
                        &&& entries@[j].directory == (self.nodes()[j] is Dir)
                        &&& entries@[j].label@ == children@[j].label@
                        &&& entries@[j].temporal_key@ == children@[j].temporal_key@
                        &&& entries@[j].content_cid@ == children@[j].content_cid@
                    },
            decreases children@.len() - i,
        {
            entries.push(
                DirectoryEntrySerializable {
                    name: self.content.labels[i].clone(),
                    directory: self.content.nodes[i].is_dir(),
                    label: copy_bytes(children[i].label.as_slice()),
                    temporal_key: children[i].temporal_key.0,
                    content_cid: children[i].content_cid.clone(),
                },
            );
            i += 1;
        }
        let record = PrivateDirectoryContentSerializable {
            version: wnfs_version(),
            header_cid,
            previous: self.content.previous.to_vec(),
            metadata: self.content.metadata,
            entries,
        };
        assert(record@.entries =~= child_entries(self.names(), self.nodes(), children@));
        Ok(record)
    }

    /// Reads a directory from the record of its content, its header, the
    /// identifier that the record was fetched under, and the children that
    /// were loaded for the entries of the record, in the order of the record.
    /// A record whose version is not readable is refused, before anything
    /// else of it is looked at; another number of children than the record
    /// has entries is a `MalformedRecord`.
    pub fn from_serializable(
        record: PrivateDirectoryContentSerializable,
        header: PrivateNodeHeader,
        cid: Cid,
        children: &Vec<PrivateNode>,
    ) -> (dir: Result<PrivateDirectory, FsError>)
        ensures
            match dir {
                Ok(d) => PrivateDirectoryView::from_record(record@, header@, cid@, children@)
                    == Ok::<PrivateDirectoryView, FsError>(d@) && d.wf(),
                Err(e) => PrivateDirectoryView::from_record(record@, header@, cid@, children@)
                    == Err::<PrivateDirectoryView, FsError>(e),
            },
    {
        if !is_readable_wnfs_version(&record.version) {
            return Err(FsError::UnreadableFormatVersion(record.version));
        }
        if children.len() != record.entries.len() {
            return Err(FsError::MalformedRecord);
        }
        let ghost names = record_names(record@.entries);
        let mut dir = PrivateDirectory {
            header,
            content: PrivateDirectoryContent {
                persisted_as: Some(cid),
                previous: CidSet::from_vec(&record.previous),
                metadata: record.metadata,
                names: KeySet::new(),
                labels: Vec::new(),
                nodes: Vec::new(),
            },
        };
        let ghost start = dir@;
        assert(dir.entries() =~= entries_of(names.take(0), children@.take(0)));
        let mut i: usize = 0;
        while i < children.len()
            invariant
                i <= children@.len(),
                children@.len() == record.entries@.len(),
                names == record_names(record@.entries),
                dir.wf(),
                dir.entries() == entries_of(names.take(i as int), children@.take(i as int)),
                dir@.header == start.header,
                dir@.persisted_as == start.persisted_as,
                dir@.previous == start.previous,
                dir@.metadata == start.metadata,
            decreases children@.len() - i,
        {
            proof {
                assert(names.take(i + 1).drop_last() =~= names.take(i as int));
                assert(children@.take(i + 1).drop_last() =~= children@.take(i as int));
                assert(names.take(i + 1).last() == record@.entries[i as int].name);
                assert(record@.entries[i as int] == record.entries@[i as int]@);
            }
            dir.put_node(record.entries[i].name.as_str(), children[i].clone());
            i += 1;
        }
        proof {
            assert(names.take(i as int) =~= names);
            assert(children@.take(i as int) =~= children@);
            let entries = entries_of(names, children@);
            lemma_entries_dom(names, children@);
            assert forall|k: Seq<u8>| dir.names().contains(k) <==> names.contains(k) by {
                assert(dir.entries().dom().contains(k) == dir.names().contains(k));
            }
            lemma_sorted_form_unique(dir.names(), names);
            assert(dir.nodes() =~= Seq::new(dir.names().len(), |j: int| entries[dir.names()[j]])) by {
                assert forall|j: int| 0 <= j < dir.names().len() implies entries[dir.names()[j]]
                    == dir.nodes()[j] by {
                    lemma_paired_at(dir.names(), dir.nodes(), j);
                }
            }
        }
        Ok(dir)
    }

    /// The children that are directories and those that are files, each in
    /// the order of their names: what a walk over the tree visits next.
    pub fn children(&self) -> (split: (Vec<Arc<PrivateDirectory>>, Vec<Arc<PrivateFile>>))
        ensures
            split.0@ == dirs_of(self.nodes()),
            split.1@ == files_of(self.nodes()),
    {
        let mut dirs: Vec<Arc<PrivateDirectory>> = Vec::new();
        let mut files: Vec<Arc<PrivateFile>> = Vec::new();
        let mut i: usize = 0;
        while i < self.content.nodes.len()
            invariant
                i <= self.content.nodes@.len(),
                dirs@ == dirs_of(self.nodes().take(i as int)),
                files@ == files_of(self.nodes().take(i as int)),
            decreases self.content.nodes@.len() - i,
        {
            proof {
                assert(self.nodes().take(i + 1).drop_last() =~= self.nodes().take(i as int));
                assert(self.nodes().take(i + 1).last() == self.content.nodes@[i as int]);
            }
            match &self.content.nodes[i] {
                PrivateNode::Dir(dir) => {
                    dirs.push(dir.clone());
                },
                PrivateNode::File(file) => {
                    files.push(file.clone());
                },
            }
            i += 1;
        }
        assert(self.nodes().take(i as int) =~= self.nodes());
        (dirs, files)
    }
}

/// The directories among `nodes`, in order.
pub open spec fn dirs_of(nodes: Seq<PrivateNode>) -> Seq<Arc<PrivateDirectory>>
    decreases nodes.len(),
{
    if nodes.len() == 0 {
        Seq::empty()
    } else {
        match nodes.last() {
            PrivateNode::Dir(dir) => dirs_of(nodes.drop_last()).push(dir),
            PrivateNode::File(_) => dirs_of(nodes.drop_last()),
        }
    }
}

/// The files among `nodes`, in order.
pub open spec fn files_of(nodes: Seq<PrivateNode>) -> Seq<Arc<PrivateFile>>
    decreases nodes.len(),
{
    if nodes.len() == 0 {
        Seq::empty()
    } else {
        match nodes.last() {
            PrivateNode::File(file) => files_of(nodes.drop_last()).push(file),
            PrivateNode::Dir(_) => files_of(nodes.drop_last()),
        }
    }
}

impl Id for PrivateDirectory {
    fn get_id(&self) -> String {
        address_text(&self.header)
    }
}

} // verus!
