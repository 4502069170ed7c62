//! Walking a private tree after it was stored: in which order its nodes come
//! up, and which key opens which of their blocks.

use crate::accumulator::AccumulatorSetup;
use crate::cid::{is_least, Cid};
use crate::error::FsError;
use crate::forest::Forest;
use crate::private::content::PrivateForestContent;
use crate::private::directory::{dirs_of, files_of, PrivateDirectory};
use crate::private::file::{FileContent, PrivateFile};
use crate::private::keys::{derived_key, snapshot_key_dsi, SnapshotKey, TemporalKey};
use crate::private::node::TemporalAccessKey;
use std::sync::Arc;
use vstd::prelude::*;

verus! {

/// How the bytes of a block are opened.
#[derive(Debug, Clone, Copy)]
pub enum Opener {
    /// The content of a node: decrypted under its snapshot key.
    Content(SnapshotKey),
    /// The header of a node: unwrapped under its temporal key.
    Header(TemporalKey),
    /// One block of a sharded payload: decrypted under the content key.
    Shard(SnapshotKey),
}

/// A block, and how it is opened.
#[derive(Debug)]
pub struct BlockHandler {
    pub cid: Cid,
    pub opener: Opener,
}

impl Opener {
    /// What opening makes of the bytes of a block.
    pub open spec fn spec_open(self, bytes: Seq<u8>) -> Option<Seq<u8>> {
        match self {
            Opener::Content(key) => key.spec_decrypt(bytes),
            Opener::Header(key) => key.spec_key_wrap_decrypt(bytes),
            Opener::Shard(key) => key.spec_decrypt(bytes),
        }
    }

    /// Opens the bytes of a block. Any failure is a `DecryptionFailure`.
    pub fn open(&self, bytes: &[u8]) -> (opened: Result<Vec<u8>, FsError>)
        ensures
            match opened {
                Ok(plain) => self.spec_open(bytes@) == Some(plain@),
                Err(e) => e == FsError::DecryptionFailure && self.spec_open(bytes@) is None,
            },
    {
        match self {
            Opener::Content(key) => key.decrypt(bytes),
            Opener::Header(key) => key.key_wrap_decrypt(bytes),
            Opener::Shard(key) => key.decrypt(bytes),
        }
    }
}

/// The handlers for a node that was stored: its content opens under the
/// snapshot key of its revision, its header under the temporal key.
pub fn node_handlers(access: &TemporalAccessKey, header_cid: Cid) -> (handlers: Vec<BlockHandler>)
    ensures
        handlers@.len() == 2,
        handlers@[0].cid@ == access.content_cid@,
        handlers@[0].opener matches Opener::Content(key) && key@ == derived_key(
            snapshot_key_dsi(),
            access.temporal_key@,
        ),
        handlers@[1].cid@ == header_cid@,
        handlers@[1].opener matches Opener::Header(key) && key == access.temporal_key,
{
    let mut handlers: Vec<BlockHandler> = Vec::new();
    handlers.push(
        BlockHandler {
            cid: access.content_cid.clone(),
            opener: Opener::Content(access.temporal_key.derive_snapshot_key()),
        },
    );
    handlers.push(BlockHandler { cid: header_cid, opener: Opener::Header(access.temporal_key) });
    handlers
}

/// The handlers for the blocks of a sharded payload: for each block the least
/// identifier under its label, which opens under the content key. A label
/// that the forest lacks is a `LabelNotFound`.
pub fn shard_handlers(content: &PrivateForestContent, forest: &Forest, setup: &AccumulatorSetup) -> (handlers:
    Result<Vec<BlockHandler>, FsError>)
    requires
        forest.wf(),
        setup.wf(),
    ensures
        match handlers {
            Ok(found) => {
                &&& found@.len() == content@.block_count
                &&& forall|i: int|
                    0 <= i < found@.len() ==> forest@.dom().contains(
                        #[trigger] content@.shard_label(i as u64, setup.modulus()),
                    )
                &&& forall|i: int|
                    0 <= i < found@.len() ==> {
                        &&& is_least(
                            (#[trigger] found@[i]).cid@,
                            forest@[content@.shard_label(i as u64, setup.modulus())],
                        )
                        &&& found@[i].opener == Opener::Shard(content.key)
                    }
            },
            Err(e) => e == FsError::LabelNotFound && exists|i: int|
                0 <= i < content@.block_count && !forest@.dom().contains(
                    #[trigger] content@.shard_label(i as u64, setup.modulus()),
                ),
        },
{
    let cids = match content.shard_cids(forest, setup) {
        Ok(cids) => cids,
        Err(e) => {
            return Err(e);
        },
    };
    let mut found: Vec<BlockHandler> = Vec::new();
    let mut i: usize = 0;
    while i < cids.len()
        invariant
            i <= cids@.len(),
            found@.len() == i,
            forall|j: int|
                0 <= j < i ==> (#[trigger] found@[j]).cid@ == cids@[j]@ && found@[j].opener
                    == Opener::Shard(content.key),
        decreases cids@.len() - i,
    {
        found.push(BlockHandler { cid: cids[i].clone(), opener: Opener::Shard(content.key) });
        i += 1;
    }
    assert forall|j: int| 0 <= j < found@.len() implies is_least(
        (#[trigger] found@[j]).cid@,
        forest@[content@.shard_label(j as u64, setup.modulus())],
    ) by {
        assert(found@[j].cid@ == cids@[j]@);
    }
    Ok(found)
}

/// The handlers for a file that was stored: those of the node, then those of
/// its shards where its payload is sharded.
pub fn file_handlers(
    file: &PrivateFile,
    access: &TemporalAccessKey,
    header_cid: Cid,
    forest: &Forest,
    setup: &AccumulatorSetup,
) -> (handlers: Result<Vec<BlockHandler>, FsError>)
    requires
        forest.wf(),
        setup.wf(),
    ensures
        match file.content.content {
            FileContent::Inline { .. } => handlers matches Ok(found) && found@.len() == 2
                && found@[0].cid@ == access.content_cid@ && found@[1].cid@ == header_cid@,
            FileContent::External(external) => match handlers {
                Ok(found) => {
                    &&& found@.len() == 2 + external@.block_count
                    &&& found@[0].cid@ == access.content_cid@
                    &&& found@[1].cid@ == header_cid@
                    &&& forall|i: int|
                        0 <= i < external@.block_count ==> forest@.dom().contains(
                            #[trigger] external@.shard_label(i as u64, setup.modulus()),
                        )
                    &&& forall|i: int|
                        2 <= i < found@.len() ==> {
                            &&& is_least(
                                (#[trigger] found@[i]).cid@,
                                forest@[external@.shard_label((i - 2) as u64, setup.modulus())],
                            )
                            &&& found@[i].opener == Opener::Shard(external.key)
                        }
                },
                Err(e) => e == FsError::LabelNotFound && exists|i: int|
                    0 <= i < external@.block_count && !forest@.dom().contains(
                        #[trigger] external@.shard_label(i as u64, setup.modulus()),
                    ),
            },
        },
{
    let mut handlers = node_handlers(access, header_cid);
    match &file.content.content {
        FileContent::Inline { .. } => Ok(handlers),
        FileContent::External(external) => {
            let mut shards = match shard_handlers(external, forest, setup) {
                Ok(shards) => shards,
                Err(e) => {
                    return Err(e);
                },
            };
            let ghost first = handlers@;
            let ghost rest = shards@;
            handlers.append(&mut shards);
            assert(handlers@ == first + rest);
            assert forall|i: int| 2 <= i < handlers@.len() implies {
                &&& is_least(
                    (#[trigger] handlers@[i]).cid@,
                    forest@[external@.shard_label((i - 2) as u64, setup.modulus())],
                )
                &&& handlers@[i].opener == Opener::Shard(external.key)
            } by {
                assert(handlers@[i] == rest[i - 2]);
            }
            Ok(handlers)
        },
    }
}

/// A walk over a tree of private nodes: the directories that are still to be
/// visited, the last one first, and the files of the directory that was
/// visited last.
#[derive(Debug)]
pub struct Walk {
    stack: Vec<Arc<PrivateDirectory>>,
    files: Vec<Arc<PrivateFile>>,
}

/// The node that a walk comes to next.
#[derive(Debug)]
pub enum WalkStep {
    Dir(Arc<PrivateDirectory>),
    File(Arc<PrivateFile>),
    Done,
}

impl Walk {
    /// The directories still to be visited; the last is visited first.
    pub closed spec fn stack(&self) -> Seq<Arc<PrivateDirectory>> {
        self.stack@
    }

    /// The files that come before the next directory.
    pub closed spec fn files(&self) -> Seq<Arc<PrivateFile>> {
        self.files@
    }

    /// A walk that starts at `root_dir`.
    pub fn new(root_dir: &Arc<PrivateDirectory>) -> (walk: Walk)
        ensures
            walk.stack() == seq![*root_dir],
            walk.files() == Seq::<Arc<PrivateFile>>::empty(),
    {
        let mut stack: Vec<Arc<PrivateDirectory>> = Vec::new();
        stack.push(root_dir.clone());
        Walk { stack, files: Vec::new() }
    }

    /// The next node of the walk. The files of a directory come right after
    /// it, in the order of their names; then the directory that was found
    /// last is visited, whose own directories go on top of the stack.
    pub fn next(&mut self) -> (step: WalkStep)
        ensures
            match step {
                WalkStep::File(file) => {
                    &&& old(self).files().len() > 0
                    &&& file == old(self).files()[0]
                    &&& final(self).files() == old(self).files().drop_first()
                    &&& final(self).stack() == old(self).stack()
                },
                WalkStep::Dir(dir) => {
                    &&& old(self).files().len() == 0
                    &&& old(self).stack().len() > 0
                    &&& dir == old(self).stack().last()
                    &&& final(self).stack() == old(self).stack().drop_last() + dirs_of(
                        dir.nodes(),
                    )
                    &&& final(self).files() == files_of(dir.nodes())
                },
                WalkStep::Done => {
                    &&& old(self).files().len() == 0
                    &&& old(self).stack().len() == 0
                    &&& final(self).files() == old(self).files()
                    &&& final(self).stack() == old(self).stack()
                },
            },
    {
        if self.files.len() > 0 {
            let file = self.files.remove(0);
            assert(self.files@ =~= old(self).files@.drop_first());
            return WalkStep::File(file);
        }
        match self.stack.pop() {
            Some(dir) => {
                let (mut dirs, files) = dir.children();
                self.stack.append(&mut dirs);
                self.files = files;
                WalkStep::Dir(dir)
            },
            None => WalkStep::Done,
        }
    }
}

} // verus!
