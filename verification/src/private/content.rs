//! Sharded file content: a payload is split into blocks of one size, each
//! block is encrypted by itself, and each is stored under a label that can be
//! computed from the content key, the block's index and the file's name.

use crate::accumulator::{hashed_digits, AccumulatorSetup, NameAccumulator, NameSegment};
use crate::cid::{is_least, Cid};
use crate::error::FsError;
use crate::forest::Forest;
use crate::keyset::copy_bytes;
use crate::name::{Name, NameView};
use crate::private::keys::{append_bytes, blake3_derive_key, derived_key, SnapshotKey};
use rand::rngs::ThreadRng;
use vstd::bytes::{spec_u64_to_le_bytes, u64_to_le_bytes};
use vstd::prelude::*;
use vstd::slice::slice_subrange;

verus! {

/// The most content bytes that one block holds: a block of the backing store,
/// less the nonce and the tag.
pub const MAX_BLOCK_CONTENT_SIZE: usize = 262104;

/// The domain separation string of the segment that hides a file's blocks.
pub open spec fn hiding_segment_dsi() -> Seq<char> {
    "wnfs/1.0/hiding segment derivation from content key"@
}

/// The domain separation string of the segment of one block.
pub open spec fn block_segment_dsi() -> Seq<char> {
    "wnfs/1.0/segment derivation for file block"@
}

/// The number of blocks of `size` bytes that `len` bytes take.
pub open spec fn blocks_needed(len: nat, size: nat) -> nat
    recommends
        size > 0,
{
    ((len + size - 1) / (size as int)) as nat
}

/// Block `i` of `content`, cut into blocks of `size` bytes.
pub open spec fn block_at(content: Seq<u8>, size: nat, i: int) -> Seq<u8> {
    content.subrange(
        i * size,
        if (i + 1) * size < content.len() {
            (i + 1) * size
        } else {
            content.len() as int
        },
    )
}

/// The blocks of `content`, in order.
pub open spec fn blocks_of(content: Seq<u8>, size: nat) -> Seq<Seq<u8>> {
    Seq::new(blocks_needed(content.len(), size), |i: int| block_at(content, size, i))
}

/// The blocks put together again.
pub open spec fn joined(blocks: Seq<Seq<u8>>) -> Seq<u8>
    decreases blocks.len(),
{
    if blocks.len() == 0 {
        Seq::empty()
    } else {
        joined(blocks.drop_last()) + blocks.last()
    }
}

/// The domain separation string of the nonce of one block.
pub open spec fn block_nonce_dsi() -> Seq<char> {
    "wnfs/1.0/nonce derivation for file block"@
}

/// The nonce that block `index` with the bytes `block` is encrypted under: the
/// first 24 bytes of a key derived from the content key, the index and the
/// block. The same block at the same place under the same key always gets
/// the same nonce, and so the same ciphertext.
pub open spec fn block_nonce(key: Seq<u8>, index: u64, block: Seq<u8>) -> Seq<u8> {
    derived_key(block_nonce_dsi(), key + spec_u64_to_le_bytes(index) + block).subrange(0, 24)
}

/// The stored form of block `index` with the bytes `block`.
pub open spec fn block_ciphertext(key: SnapshotKey, index: u64, block: Seq<u8>) -> Seq<u8> {
    key.spec_encrypt(block_nonce(key@, index, block), block)
}

/// The name of block `index` of the content with key `key` under `base`: the
/// base name, and one segment more, hashed from the key and the index.
pub open spec fn block_name(key: Seq<u8>, index: u64, base: NameView) -> NameView {
    NameView {
        base: base.base,
        segments: base.segments.push(
            hashed_digits(block_segment_dsi(), key + spec_u64_to_le_bytes(index)),
        ),
    }
}

/// The name under which the blocks of a file are hidden: the file's name, and
/// one segment more, hashed from the content key.
pub open spec fn hidden_name(key: Seq<u8>, file: NameView) -> NameView {
    NameView {
        base: file.base,
        segments: file.segments.push(hashed_digits(hiding_segment_dsi(), key)),
    }
}

/// Facts about cutting `len` bytes into blocks of `size`.
pub proof fn lemma_blocks_needed(len: nat, size: nat)
    requires
        size > 0,
    ensures
        blocks_needed(len, size) * size >= len,
        len > 0 ==> (blocks_needed(len, size) - 1) * size < len,
        len == 0 ==> blocks_needed(len, size) == 0,
{
    let n = blocks_needed(len, size) as int;
    let s = size as int;
    let l = len as int;
    assert(n == (l + s - 1) / s);
    assert(n * s <= l + s - 1 && l + s - 1 < n * s + s) by (nonlinear_arith)
        requires
            n == (l + s - 1) / s,
            s > 0,
            l >= 0,
    ;
    assert((n - 1) * s == n * s - s) by (nonlinear_arith);
    if l == 0 {
        assert(n == 0) by (nonlinear_arith)
            requires
                n * s <= s - 1,
                s > 0,
                n >= 0,
        ;
    }
}

/// The first `k` blocks, joined, are the content up to the end of block `k`.
proof fn lemma_joined_prefix(content: Seq<u8>, size: nat, k: int)
    requires
        size > 0,
        0 <= k <= blocks_needed(content.len(), size),
    ensures
        joined(blocks_of(content, size).take(k)) == content.take(
            if k * size < content.len() {
                k * size
            } else {
                content.len() as int
            },
        ),
    decreases k,
{
    let blocks = blocks_of(content, size);
    let s = size as int;
    let len = content.len() as int;
    lemma_blocks_needed(content.len(), size);
    if k == 0 {
        assert(0 * s == 0) by (nonlinear_arith);
        assert(joined(blocks.take(0)) =~= content.take(0));
    } else {
        lemma_joined_prefix(content, size, k - 1);
        assert(blocks.take(k).drop_last() =~= blocks.take(k - 1));
        assert(blocks.take(k).last() == block_at(content, size, k - 1));
        let n = blocks_needed(content.len(), size) as int;
        assert((k - 1) * s < len) by (nonlinear_arith)
            requires
                (n - 1) * s < len,
                k <= n,
                s > 0,
        ;
        assert((k - 1 + 1) * s == k * s) by (nonlinear_arith);
        assert(k * s == (k - 1) * s + s) by (nonlinear_arith);
        let end = if k * s < len {
            k * s
        } else {
            len
        };
        assert(content.take((k - 1) * s) + content.subrange((k - 1) * s, end) =~= content.take(
            end,
        ));
    }
}

/// Cutting content into blocks and joining the blocks gives the content back.
pub proof fn law_blocks_rejoin(content: Seq<u8>, size: nat)
    requires
        size > 0,
    ensures
        joined(blocks_of(content, size)) == content,
{
    let n = blocks_needed(content.len(), size) as int;
    lemma_blocks_needed(content.len(), size);
    lemma_joined_prefix(content, size, n);
    assert(blocks_of(content, size).take(n) =~= blocks_of(content, size));
    assert(content.take(content.len() as int) =~= content);
}

/// Changing bytes inside one block leaves every other block as it was.
pub proof fn law_other_blocks_unchanged(before: Seq<u8>, after: Seq<u8>, size: nat, changed: int)
    requires
        size > 0,
        before.len() == after.len(),
        forall|p: int|
            0 <= p < before.len() && !(changed * size <= p < (changed + 1) * size) ==> before[p]
                == after[p],
    ensures
        blocks_of(before, size).len() == blocks_of(after, size).len(),
        forall|i: int|
            0 <= i < blocks_of(before, size).len() && i != changed ==> blocks_of(before, size)[i]
                == blocks_of(after, size)[i],
{
    let s = size as int;
    lemma_blocks_needed(before.len(), size);
    assert forall|i: int|
        0 <= i < blocks_of(before, size).len() && i != changed implies blocks_of(before, size)[i]
        == blocks_of(after, size)[i] by {
        let n = blocks_needed(before.len(), size) as int;
        assert(0 <= i * s) by (nonlinear_arith)
            requires
                i >= 0,
                s > 0,
        ;
        assert(i * s < before.len()) by (nonlinear_arith)
            requires
                (n - 1) * s < before.len(),
                i <= n - 1,
                s > 0,
        ;
        assert((i + 1) * s == i * s + s) by (nonlinear_arith);
        if i < changed {
            assert((i + 1) * s <= changed * s) by (nonlinear_arith)
                requires
                    i + 1 <= changed,
                    s > 0,
            ;
        } else {
            assert((changed + 1) * s <= i * s) by (nonlinear_arith)
                requires
                    changed + 1 <= i,
                    s > 0,
            ;
        }
        assert(block_at(before, size, i) =~= block_at(after, size, i));
    }
}

/// The number of blocks of `size` bytes that `len` bytes take.
pub fn block_count(len: usize, size: usize) -> (count: usize)
    requires
        size > 0,
    ensures
        count == blocks_needed(len as nat, size as nat),
{
    let full = len / size;
    assert(len % size != 0 ==> full < len) by (nonlinear_arith)
        requires
            full == len / size,
            size > 0,
    ;
    let count = if len % size == 0 {
        full
    } else {
        full + 1
    };
    proof {
        let l = len as int;
        let s = size as int;
        assert(l == s * (l / s) + l % s && 0 <= l % s < s) by (nonlinear_arith)
            requires
                s > 0,
                l >= 0,
        ;
        let q = l / s;
        let r = l % s;
        if r == 0 {
            assert((q * s + s - 1) / s == q) by (nonlinear_arith)
                requires
                    s > 0,
            ;
            assert(s * q == q * s) by (nonlinear_arith);
        } else {
            assert((q * s + r + s - 1) / s == q + 1) by (nonlinear_arith)
                requires
                    s > 0,
                    0 < r < s,
            ;
            assert(s * q == q * s) by (nonlinear_arith);
        }
    }
    count
}

/// Cuts `content` into blocks of `size` bytes; the last may be shorter.
pub fn split_blocks(content: &[u8], size: usize) -> (blocks: Vec<Vec<u8>>)
    requires
        size > 0,
    ensures
        blocks@.len() == blocks_needed(content@.len(), size as nat),
        forall|i: int| 0 <= i < blocks@.len() ==> blocks@[i]@ == block_at(content@, size as nat, i),
{
    let count = block_count(content.len(), size);
    let mut blocks: Vec<Vec<u8>> = Vec::new();
    let mut i: usize = 0;
    proof {
        lemma_blocks_needed(content@.len(), size as nat);
    }
    while i < count
        invariant
            size > 0,
            i <= count,
            count == blocks_needed(content@.len(), size as nat),
            (count - 1) * size < content@.len() || count == 0,
            content@.len() <= usize::MAX,
            blocks@.len() == i,
            forall|j: int| 0 <= j < i ==> blocks@[j]@ == block_at(content@, size as nat, j),
        decreases count - i,
    {
        proof {
            let s = size as int;
            let k = i as int;
            let c = count as int;
            assert(k * s < content@.len() && k * s >= 0) by (nonlinear_arith)
                requires
                    (c - 1) * s < content@.len(),
                    0 <= k <= c - 1,
                    s > 0,
            ;
            assert((k + 1) * s == k * s + s) by (nonlinear_arith);
        }
        let start = i * size;
        let end = if content.len() - start <= size {
            content.len()
        } else {
            start + size
        };
        blocks.push(copy_bytes(slice_subrange(content, start, end)));
        i += 1;
    }
    blocks
}

/// The name under which the blocks of a file are hidden.
pub fn create_base_name(key: &SnapshotKey, file_name: &Name) -> (base: Name)
    ensures
        base@ == hidden_name(key@, file_name@),
{
    let segment = NameSegment::new_hashed(
        "wnfs/1.0/hiding segment derivation from content key",
        key.0.as_slice(),
    );
    let mut one: Vec<NameSegment> = Vec::new();
    one.push(segment);
    let base = file_name.with_segments_added(one);
    assert(base@.segments =~= hidden_name(key@, file_name@).segments);
    base
}

/// The name of block `index`.
pub fn create_block_name(key: &SnapshotKey, index: u64, base_name: &Name) -> (name: Name)
    ensures
        name@ == block_name(key@, index, base_name@),
{
    let mut data: Vec<u8> = Vec::new();
    append_bytes(&mut data, key.0.as_slice());
    let counter = u64_to_le_bytes(index);
    append_bytes(&mut data, counter.as_slice());
    let segment = NameSegment::new_hashed(
        "wnfs/1.0/segment derivation for file block",
        data.as_slice(),
    );
    let mut one: Vec<NameSegment> = Vec::new();
    one.push(segment);
    let name = base_name.with_segments_added(one);
    assert(name@.segments =~= block_name(key@, index, base_name@).segments);
    name
}

/// The names of the blocks from `index` up to `block_count`, in order. They
/// depend on the key, the indices and the base name alone.
pub fn generate_shard_labels(key: &SnapshotKey, index: u64, block_count: u64, base_name: &Name) -> (labels:
    Vec<Name>)
    ensures
        labels@.len() == if index < block_count {
            block_count - index
        } else {
            0
        },
        forall|i: int|
            0 <= i < labels@.len() ==> labels@[i]@ == block_name(
                key@,
                (index + i) as u64,
                base_name@,
            ),
{
    let mut labels: Vec<Name> = Vec::new();
    let mut at: u64 = index;
    while at < block_count
        invariant
            index <= at,
            at <= block_count || at == index,
            labels@.len() == at - index,
            forall|i: int|
                0 <= i < labels@.len() ==> labels@[i]@ == block_name(
                    key@,
                    (index + i) as u64,
                    base_name@,
                ),
        decreases block_count - at,
    {
        labels.push(create_block_name(key, at, base_name));
        at += 1;
    }
    labels
}

/// Encrypts block `index` under the nonce derived for it.
pub fn encrypt_block(key: &SnapshotKey, index: u64, block: &[u8]) -> (ciphertext: Result<
    Vec<u8>,
    FsError,
>)
    ensures
        match ciphertext {
            Ok(c) => {
                &&& block@.len() / 64 < u32::MAX
                &&& c@ == block_ciphertext(*key, index, block@)
                &&& key.spec_decrypt(c@) == Some(block@)
            },
            Err(e) => e == FsError::MalformedRecord && block@.len() / 64 >= u32::MAX,
        },
{
    let mut material: Vec<u8> = Vec::new();
    append_bytes(&mut material, key.0.as_slice());
    let counter = u64_to_le_bytes(index);
    append_bytes(&mut material, counter.as_slice());
    append_bytes(&mut material, block);
    let derived = blake3_derive_key("wnfs/1.0/nonce derivation for file block", material.as_slice());
    let nonce = slice_subrange(derived.as_slice(), 0, 24);
    key.encrypt_under(nonce, block)
}

/// A block that is ready to be put into the block store: its ciphertext, and
/// the name under whose label the identifier that the store answers with is
/// to be filed in the forest.
#[derive(Debug)]
pub struct Shard {
    pub label: Name,
    pub ciphertext: Vec<u8>,
}

/// The ciphertexts of a sequence of shards.
pub open spec fn ciphertexts(shards: Seq<Shard>) -> Seq<Seq<u8>> {
    Seq::new(shards.len(), |i: int| shards[i].ciphertext@)
}

/// The byte strings of a sequence of byte vectors.
pub open spec fn byte_strings(blocks: Seq<Vec<u8>>) -> Seq<Seq<u8>> {
    Seq::new(blocks.len(), |i: int| blocks[i]@)
}

/// What reading stored blocks gives under a key: the decrypted blocks in one
/// piece, or the error of the first bad block, which is `DecryptionFailure`
/// for one that does not open and `MalformedRecord` for one that holds more
/// than `size` bytes.
pub open spec fn read_blocks(key: SnapshotKey, size: nat, blocks: Seq<Seq<u8>>) -> Result<
    Seq<u8>,
    FsError,
>
    decreases blocks.len(),
{
    if blocks.len() == 0 {
        Ok(Seq::empty())
    } else {
        match read_blocks(key, size, blocks.drop_last()) {
            Err(e) => Err(e),
            Ok(front) => match key.spec_decrypt(blocks.last()) {
                None => Err(FsError::DecryptionFailure),
                Some(block) => if block.len() > size {
                    Err(FsError::MalformedRecord)
                } else {
                    Ok(front + block)
                },
            },
        }
    }
}

/// An error among the first blocks is the error of the whole.
proof fn lemma_read_error_stays(key: SnapshotKey, size: nat, blocks: Seq<Seq<u8>>, k: int)
    requires
        0 <= k <= blocks.len(),
        read_blocks(key, size, blocks.take(k)) is Err,
    ensures
        read_blocks(key, size, blocks) == read_blocks(key, size, blocks.take(k)),
    decreases blocks.len() - k,
{
    if k == blocks.len() {
        assert(blocks.take(k) =~= blocks);
    } else {
        assert(blocks.take(k + 1).drop_last() =~= blocks.take(k));
        lemma_read_error_stays(key, size, blocks, k + 1);
    }
}

/// Blocks that open to the blocks of some content, none over `size` bytes,
/// read as that content.
proof fn lemma_read_cut(key: SnapshotKey, size: nat, stored: Seq<Seq<u8>>, plain: Seq<Seq<u8>>)
    requires
        stored.len() == plain.len(),
        forall|i: int|
            0 <= i < stored.len() ==> key.spec_decrypt(#[trigger] stored[i]) == Some(plain[i])
                && plain[i].len() <= size,
    ensures
        read_blocks(key, size, stored) == Ok::<Seq<u8>, FsError>(joined(plain)),
    decreases stored.len(),
{
    if stored.len() > 0 {
        lemma_read_cut(key, size, stored.drop_last(), plain.drop_last());
        assert(key.spec_decrypt(stored[stored.len() - 1]) == Some(plain[plain.len() - 1]));
    }
}

/// The content of a file that is kept outside its node, in blocks of its own
/// in the forest.
#[derive(Debug)]
pub struct PrivateForestContent {
    pub key: SnapshotKey,
    pub base_name: NameAccumulator,
    pub block_count: u64,
    pub block_content_size: u64,
}

/// What external content is: its key, the digits of the accumulator that its
/// blocks' names start from, the number of blocks and the size of a block.
pub struct ForestContentView {
    pub key: Seq<u8>,
    pub base: Seq<u8>,
    pub block_count: u64,
    pub block_content_size: u64,
}

impl ForestContentView {
    /// The name of block `index`.
    pub open spec fn shard_name(self, index: u64) -> NameView {
        block_name(self.key, index, NameView { base: self.base, segments: Seq::empty() })
    }

    /// The label that block `index` is filed under.
    pub open spec fn shard_label(self, index: u64, modulus: nat) -> Seq<u8> {
        self.shard_name(index).label_digits(modulus)
    }
}

impl View for PrivateForestContent {
    type V = ForestContentView;

    open spec fn view(&self) -> ForestContentView {
        ForestContentView {
            key: self.key@,
            base: self.base_name.digits(),
            block_count: self.block_count,
            block_content_size: self.block_content_size,
        }
    }
}

/// `shards` are the blocks of `content`, in order, as `external` holds them
/// for the file with the name `file_name`: each under the name of its block,
/// each encrypted under the content key and the nonce derived for it.
pub open spec fn encodes(
    external: PrivateForestContent,
    shards: Seq<Shard>,
    file_name: NameView,
    content: Seq<u8>,
    modulus: nat,
) -> bool {
    &&& external@.base == hidden_name(external@.key, file_name).label_digits(modulus)
    &&& external@.block_count == blocks_needed(content.len(), MAX_BLOCK_CONTENT_SIZE as nat)
    &&& external@.block_content_size == MAX_BLOCK_CONTENT_SIZE
    &&& shards.len() == external@.block_count
    &&& forall|i: int|
        0 <= i < shards.len() ==> (#[trigger] shards[i]).label@ == external@.shard_name(i as u64)
    &&& forall|i: int|
        0 <= i < shards.len() ==> (#[trigger] shards[i]).ciphertext@ == block_ciphertext(
            external.key,
            i as u64,
            block_at(content, MAX_BLOCK_CONTENT_SIZE as nat, i),
        )
    &&& read_blocks(external.key, MAX_BLOCK_CONTENT_SIZE as nat, ciphertexts(shards)) == Ok::<
        Seq<u8>,
        FsError,
    >(content)
}

impl PrivateForestContent {
    /// Prepares `content` for the forest under the key `key`: cuts it into
    /// blocks and encrypts each under a nonce derived from the key, the
    /// block's index and the block. The shards come back in the order of the
    /// blocks. The same content under the same key gives the same shards; read
    /// back under the key they give the content.
    pub fn encode(key: SnapshotKey, file_name: &Name, content: &[u8], setup: &AccumulatorSetup) -> (made:
        (PrivateForestContent, Vec<Shard>))
        requires
            setup.wf(),
        ensures
            made.0.key == key,
            encodes(made.0, made.1@, file_name@, content@, setup.modulus()),
            made.0@.base == hidden_name(key@, file_name@).label_digits(setup.modulus()),
            made.0@.block_count == blocks_needed(content@.len(), MAX_BLOCK_CONTENT_SIZE as nat),
            made.0@.block_content_size == MAX_BLOCK_CONTENT_SIZE,
            made.1@.len() == made.0@.block_count,
            forall|i: int|
                0 <= i < made.1@.len() ==> (#[trigger] made.1@[i]).label@ == made.0@.shard_name(
                    i as u64,
                ),
            forall|i: int|
                0 <= i < made.1@.len() ==> (#[trigger] made.1@[i]).ciphertext@ == block_ciphertext(
                    key,
                    i as u64,
                    block_at(content@, MAX_BLOCK_CONTENT_SIZE as nat, i),
                ),
            read_blocks(key, MAX_BLOCK_CONTENT_SIZE as nat, ciphertexts(made.1@)) == Ok::<
                Seq<u8>,
                FsError,
            >(content@),
    {
        let base_name = create_base_name(&key, file_name).into_accumulator(setup);
        let blocks = split_blocks(content, MAX_BLOCK_CONTENT_SIZE);
        let base = Name::new(base_name.clone(), Vec::new());
        assert(base@.segments =~= Seq::<Seq<u8>>::empty());
        let mut shards: Vec<Shard> = Vec::new();
        let mut i: usize = 0;
        let ghost size = MAX_BLOCK_CONTENT_SIZE as nat;
        while i < blocks.len()
            invariant
                i <= blocks@.len(),
                size == MAX_BLOCK_CONTENT_SIZE,
                blocks@.len() == blocks_needed(content@.len(), size),
                forall|j: int| 0 <= j < blocks@.len() ==> blocks@[j]@ == block_at(content@, size, j),
                base@ == (NameView { base: base_name.digits(), segments: Seq::empty() }),
                shards@.len() == i,
                forall|j: int|
                    0 <= j < i ==> (#[trigger] shards@[j]).label@ == block_name(
                        key@,
                        j as u64,
                        base@,
                    ),
                forall|j: int|
                    0 <= j < i ==> (#[trigger] shards@[j]).ciphertext@ == block_ciphertext(
                        key,
                        j as u64,
                        block_at(content@, size, j),
                    ),
                forall|j: int|
                    0 <= j < i ==> key.spec_decrypt((#[trigger] shards@[j]).ciphertext@) == Some(
                        block_at(content@, size, j),
                    ),
            decreases blocks@.len() - i,
        {
            let label = create_block_name(&key, i as u64, &base);
            proof {
                assert(blocks@[i as int]@ == block_at(content@, size, i as int));
                assert(blocks@[i as int]@.len() <= size) by {
                    lemma_block_len(content@, size, i as int);
                }
            }
            let ciphertext = match encrypt_block(&key, i as u64, blocks[i].as_slice()) {
                Ok(c) => c,
                // A block is far shorter than what the cipher takes.
                Err(_) => vstd::pervasive::unreached(),
            };
            shards.push(Shard { label, ciphertext });
            i += 1;
        }
        let made = PrivateForestContent {
            key,
            base_name,
            block_count: blocks.len() as u64,
            block_content_size: MAX_BLOCK_CONTENT_SIZE as u64,
        };
        proof {
            let stored = ciphertexts(shards@);
            let plain = blocks_of(content@, size);
            assert forall|j: int| 0 <= j < stored.len() implies key.spec_decrypt(
                #[trigger] stored[j],
            ) == Some(plain[j]) && plain[j].len() <= size by {
                assert(key.spec_decrypt(shards@[j].ciphertext@) == Some(block_at(content@, size, j)));
                lemma_block_len(content@, size, j);
            }
            lemma_read_cut(key, size, stored, plain);
            law_blocks_rejoin(content@, size);
        }
        (made, shards)
    }

    /// Prepares `content` for the forest under a fresh key drawn from `rng`.
    pub fn new(file_name: &Name, content: &[u8], setup: &AccumulatorSetup, rng: &mut ThreadRng) -> (made:
        (PrivateForestContent, Vec<Shard>))
        requires
            setup.wf(),
        ensures
            made.0@.base == hidden_name(made.0@.key, file_name@).label_digits(setup.modulus()),
            made.0@.block_count == blocks_needed(content@.len(), MAX_BLOCK_CONTENT_SIZE as nat),
            made.0@.block_content_size == MAX_BLOCK_CONTENT_SIZE,
            made.1@.len() == made.0@.block_count,
            forall|i: int|
                0 <= i < made.1@.len() ==> (#[trigger] made.1@[i]).label@ == made.0@.shard_name(
                    i as u64,
                ),
            forall|i: int|
                0 <= i < made.1@.len() ==> (#[trigger] made.1@[i]).ciphertext@ == block_ciphertext(
                    made.0.key,
                    i as u64,
                    block_at(content@, MAX_BLOCK_CONTENT_SIZE as nat, i),
                ),
            read_blocks(made.0.key, MAX_BLOCK_CONTENT_SIZE as nat, ciphertexts(made.1@)) == Ok::<
                Seq<u8>,
                FsError,
            >(content@),
    {
        Self::encode(SnapshotKey::new(rng), file_name, content, setup)
    }

    /// The names of the blocks, in order.
    pub fn labels(&self) -> (labels: Vec<Name>)
        ensures
            labels@.len() == self@.block_count,
            forall|i: int| 0 <= i < labels@.len() ==> labels@[i]@ == self@.shard_name(i as u64),
    {
        let base = Name::new(self.base_name.clone(), Vec::new());
        assert(base@.segments =~= Seq::<Seq<u8>>::empty());
        generate_shard_labels(&self.key, 0, self.block_count, &base)
    }

    /// The identifiers of the blocks, in order, as the forest has them: for
    /// each block the least identifier under its label. A label that the
    /// forest lacks is a `LabelNotFound`.
    pub fn shard_cids(&self, forest: &Forest, setup: &AccumulatorSetup) -> (cids: Result<
        Vec<Cid>,
        FsError,
    >)
        requires
            forest.wf(),
            setup.wf(),
        ensures
            match cids {
                Ok(found) => {
                    &&& found@.len() == self@.block_count
                    &&& forall|i: int|
                        0 <= i < found@.len() ==> forest@.dom().contains(
                            #[trigger] self@.shard_label(i as u64, setup.modulus()),
                        )
                    &&& forall|i: int|
                        0 <= i < found@.len() ==> is_least(
                            (#[trigger] found@[i])@,
                            forest@[self@.shard_label(i as u64, setup.modulus())],
                        )
                },
                Err(e) => e == FsError::LabelNotFound && exists|i: int|
                    0 <= i < self@.block_count && !forest@.dom().contains(
                        #[trigger] self@.shard_label(i as u64, setup.modulus()),
                    ),
            },
    {
        let labels = self.labels();
        let mut found: Vec<Cid> = Vec::new();
        let mut i: usize = 0;
        while i < labels.len()
            invariant
                i <= labels@.len(),
                forest.wf(),
                setup.wf(),
                labels@.len() == self@.block_count,
                forall|j: int| 0 <= j < labels@.len() ==> labels@[j]@ == self@.shard_name(j as u64),
                found@.len() == i,
                forall|j: int|
                    0 <= j < i ==> forest@.dom().contains(
                        #[trigger] self@.shard_label(j as u64, setup.modulus()),
                    ),
                forall|j: int|
                    0 <= j < i ==> is_least(
                        (#[trigger] found@[j])@,
                        forest@[self@.shard_label(j as u64, setup.modulus())],
                    ),
            decreases labels@.len() - i,
        {
            match forest.get_encrypted(&labels[i], setup) {
                Some(set) => {
                    let cid = set.least();
                    assert(labels@[i as int]@ == self@.shard_name(i as u64));
                    assert(forest@.dom().contains(self@.shard_label(i as u64, setup.modulus())));
                    assert(is_least(cid@, forest@[self@.shard_label(i as u64, setup.modulus())]));
                    found.push(cid);
                },
                None => {
                    assert(!forest@.dom().contains(self@.shard_label(i as u64, setup.modulus())));
                    return Err(FsError::LabelNotFound);
                },
            }
            i += 1;
        }
        Ok(found)
    }

    /// Puts fetched blocks together: decrypts each in order and joins them.
    /// Another number of blocks than the content has is a `BlockMissing`;
    /// otherwise the first bad block decides the error.
    pub fn decrypt_blocks(&self, blocks: &Vec<Vec<u8>>) -> (content: Result<Vec<u8>, FsError>)
        ensures
            match content {
                Ok(c) => blocks@.len() == self@.block_count && read_blocks(
                    self.key,
                    self@.block_content_size as nat,
                    byte_strings(blocks@),
                ) == Ok::<Seq<u8>, FsError>(c@),
                Err(e) => if blocks@.len() != self@.block_count {
                    e == FsError::BlockMissing
                } else {
                    read_blocks(
                        self.key,
                        self@.block_content_size as nat,
                        byte_strings(blocks@),
                    ) == Err::<Seq<u8>, FsError>(e)
                },
            },
    {
        if blocks.len() as u64 != self.block_count {
            return Err(FsError::BlockMissing);
        }
        let ghost stored = byte_strings(blocks@);
        let ghost size = self.block_content_size as nat;
        let mut content: Vec<u8> = Vec::new();
        let mut i: usize = 0;
        while i < blocks.len()
            invariant
                i <= blocks@.len(),
                blocks@.len() == self.block_count,
                stored == byte_strings(blocks@),
                size == self.block_content_size,
                read_blocks(self.key, size, stored.take(i as int)) == Ok::<Seq<u8>, FsError>(
                    content@,
                ),
            decreases blocks@.len() - i,
        {
            proof {
                assert(stored.take(i + 1).drop_last() =~= stored.take(i as int));
                assert(stored.take(i + 1).last() == blocks@[i as int]@);
            }
            match self.key.decrypt(blocks[i].as_slice()) {
                Ok(block) => {
                    if block.len() as u64 > self.block_content_size {
                        proof {
                            lemma_read_error_stays(self.key, size, stored, i + 1);
                        }
                        return Err(FsError::MalformedRecord);
                    }
                    append_bytes(&mut content, block.as_slice());
                },
                Err(e) => {
                    proof {
                        lemma_read_error_stays(self.key, size, stored, i + 1);
                    }
                    return Err(e);
                },
            }
            i += 1;
        }
        assert(stored.take(i as int) =~= stored);
        Ok(content)
    }
}

/// No block is longer than the block size.
proof fn lemma_block_len(content: Seq<u8>, size: nat, i: int)
    requires
        size > 0,
        0 <= i < blocks_needed(content.len(), size),
    ensures
        block_at(content, size, i).len() <= size,
        0 <= i * size < content.len(),
{
    let s = size as int;
    let n = blocks_needed(content.len(), size) as int;
    lemma_blocks_needed(content.len(), size);
    assert(0 <= i * s && i * s < content.len()) by (nonlinear_arith)
        requires
            (n - 1) * s < content.len(),
            0 <= i <= n - 1,
            s > 0,
    ;
    assert((i + 1) * s == i * s + s) by (nonlinear_arith);
}

} // verus!
