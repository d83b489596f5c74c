//! An upload that is still being assembled from its chunks.

use crate::bucket::MAX_BLOB_SIZE_BYTES;
use crate::collections::vec_set::VecSet;
use crate::types::{AccessorId, FileId, TimestampMillis, UserId};
use vstd::arithmetic::div_mod::lemma_fundamental_div_mod;
use vstd::prelude::*;

verus! {

/// The number of chunks that carry `total_size` bytes in chunks of `chunk_size` bytes: the
/// quotient rounded up. A declaration with no bytes or with empty chunks has no chunk.
pub open spec fn chunk_count_of(chunk_size: u32, total_size: u64) -> int {
    if chunk_size == 0 || total_size == 0 {
        0
    } else {
        (total_size - 1) / (chunk_size as int) + 1
    }
}

/// The number of bytes that chunk `index` must carry: `chunk_size` for every chunk but the
/// last, and what is left for the last.
pub open spec fn expected_chunk_size_of(chunk_size: u32, total_size: u64, index: int) -> int {
    if index == chunk_count_of(chunk_size, total_size) - 1 {
        (total_size - 1) % (chunk_size as int) + 1
    } else {
        chunk_size as int
    }
}

/// `buffer` with `chunk` copied over the bytes from position `start` on.
pub open spec fn write_at(buffer: Seq<u8>, start: int, chunk: Seq<u8>) -> Seq<u8> {
    Seq::new(
        buffer.len(),
        |i: int|
            if start <= i < start + chunk.len() {
                chunk[i - start]
            } else {
                buffer[i]
            },
    )
}

/// Every chunk of a declaration with bytes lies inside the blob, the chunks do not overlap
/// and the last one ends where the blob ends.
pub proof fn lemma_chunk_bounds(chunk_size: u32, total_size: u64, index: int)
    requires
        0 <= index < chunk_count_of(chunk_size, total_size),
    ensures
        chunk_size > 0,
        total_size > 0,
        1 <= expected_chunk_size_of(chunk_size, total_size, index) <= chunk_size,
        0 <= index * chunk_size,
        index * chunk_size + expected_chunk_size_of(chunk_size, total_size, index) <= total_size,
        index == chunk_count_of(chunk_size, total_size) - 1 ==> index * chunk_size
            + expected_chunk_size_of(chunk_size, total_size, index) == total_size,
        index < chunk_count_of(chunk_size, total_size) - 1 ==> (index + 1) * chunk_size
            < total_size,
        chunk_count_of(chunk_size, total_size) <= total_size,
{
    let c = chunk_size as int;
    let t = total_size - 1;
    let q = t / c;
    let r = t % c;
    lemma_fundamental_div_mod(t, c);
    assert(t == c * q + r);
    assert(0 <= r < c);
    assert(q >= 0) by (nonlinear_arith)
        requires
            t == c * q + r,
            0 <= r < c,
            t >= 0,
    ;
    assert(q <= t) by (nonlinear_arith)
        requires
            t == c * q + r,
            0 <= r,
            c >= 1,
            q >= 0,
    ;
    assert(0 <= index * c) by (nonlinear_arith)
        requires
            0 <= index,
            0 < c,
    ;
    if index < q {
        assert((index + 1) * c <= q * c) by (nonlinear_arith)
            requires
                index + 1 <= q,
                0 < c,
        ;
        assert((index + 1) * c == index * c + c) by (nonlinear_arith);
        assert(q * c == c * q) by (nonlinear_arith);
    } else {
        assert(index * c == c * q) by (nonlinear_arith)
            requires
                index == q,
        ;
    }
}

/// The number of chunks that carry `total_size` bytes in chunks of `chunk_size` bytes.
pub fn calc_chunk_count(chunk_size: u32, total_size: u64) -> (count: u32)
    requires
        chunk_count_of(chunk_size, total_size) <= u32::MAX,
    ensures
        count == chunk_count_of(chunk_size, total_size),
{
    if chunk_size == 0 || total_size == 0 {
        0
    } else {
        let count: u64 = (total_size - 1) / (chunk_size as u64) + 1;
        count as u32
    }
}

/// The sizes that did not agree when a chunk was refused.
#[derive(Clone, Copy, Debug, PartialEq, Eq, Structural)]
pub struct ChunkSizeMismatch {
    pub expected_size: u32,
    pub actual_size: u32,
}

/// What became of a chunk handed to a pending file.
#[derive(Clone, Copy, Debug, PartialEq, Eq, Structural)]
pub enum AddChunkResult {
    Success,
    ChunkAlreadyExists,
    ChunkIndexTooHigh,
    ChunkSizeMismatch(ChunkSizeMismatch),
}

/// One chunk of an upload together with the declaration of the whole upload.
pub struct UploadChunkArgs {
    pub file_id: FileId,
    pub hash: crate::types::Hash,
    pub mime_type: String,
    pub accessors: Vec<AccessorId>,
    pub chunk_index: u32,
    pub chunk_size: u32,
    pub total_size: u64,
    pub bytes: Vec<u8>,
}

/// A chunk as the store takes it: the request, who sent it and when.
pub struct PutChunkArgs {
    pub uploaded_by: UserId,
    pub file_id: FileId,
    pub hash: crate::types::Hash,
    pub mime_type: String,
    pub accessors: Vec<AccessorId>,
    pub chunk_index: u32,
    pub chunk_size: u32,
    pub total_size: u64,
    pub bytes: Vec<u8>,
    pub now: TimestampMillis,
}

impl PutChunkArgs {
    /// The request `upload_chunk_args`, sent by `uploaded_by` at time `now`.
    pub open spec fn of(
        uploaded_by: UserId,
        upload_chunk_args: UploadChunkArgs,
        now: TimestampMillis,
    ) -> PutChunkArgs {
        PutChunkArgs {
            uploaded_by,
            file_id: upload_chunk_args.file_id,
            hash: upload_chunk_args.hash,
            mime_type: upload_chunk_args.mime_type,
            accessors: upload_chunk_args.accessors,
            chunk_index: upload_chunk_args.chunk_index,
            chunk_size: upload_chunk_args.chunk_size,
            total_size: upload_chunk_args.total_size,
            bytes: upload_chunk_args.bytes,
            now,
        }
    }

    /// The request `upload_chunk_args`, sent by `uploaded_by` at time `now`.
    pub fn new(uploaded_by: UserId, upload_chunk_args: UploadChunkArgs, now: TimestampMillis) -> (args:
        Self)
        ensures
            args == PutChunkArgs::of(uploaded_by, upload_chunk_args, now),
    {
        PutChunkArgs {
            uploaded_by,
            file_id: upload_chunk_args.file_id,
            hash: upload_chunk_args.hash,
            mime_type: upload_chunk_args.mime_type,
            accessors: upload_chunk_args.accessors,
            chunk_index: upload_chunk_args.chunk_index,
            chunk_size: upload_chunk_args.chunk_size,
            total_size: upload_chunk_args.total_size,
            bytes: upload_chunk_args.bytes,
            now,
        }
    }

    /// The pending file that this declaration opens, before any chunk is absorbed.
    pub open spec fn fresh(&self) -> PendingFileView {
        PendingFileView {
            uploaded_by: self.uploaded_by,
            created: self.now,
            hash: self.hash,
            mime_type: self.mime_type@,
            accessors: self.accessors@.to_set(),
            chunk_size: self.chunk_size,
            total_size: self.total_size,
            remaining_chunks: Set::new(
                |i: u32| i < chunk_count_of(self.chunk_size, self.total_size),
            ),
            bytes: Seq::new(self.total_size as nat, |i: int| 0u8),
        }
    }
}

/// The model of a pending file.
pub struct PendingFileView {
    pub uploaded_by: UserId,
    pub created: TimestampMillis,
    pub hash: crate::types::Hash,
    pub mime_type: Seq<char>,
    pub accessors: Set<AccessorId>,
    pub chunk_size: u32,
    pub total_size: u64,
    pub remaining_chunks: Set<u32>,
    pub bytes: Seq<u8>,
}

impl PendingFileView {
    /// The number of chunks of the upload.
    pub open spec fn chunk_count(self) -> int {
        chunk_count_of(self.chunk_size, self.total_size)
    }

    /// The number of bytes that chunk `index` must carry.
    pub open spec fn expected_chunk_size(self, index: int) -> int {
        expected_chunk_size_of(self.chunk_size, self.total_size, index)
    }

    /// The blob is not too big, the buffer has the size of the blob and only chunks of the
    /// upload are still awaited.
    pub open spec fn well_formed(self) -> bool {
        &&& self.total_size <= MAX_BLOB_SIZE_BYTES
        &&& self.bytes.len() == self.total_size
        &&& self.accessors.finite()
        &&& self.remaining_chunks.finite()
        &&& forall|i: u32| self.remaining_chunks.contains(i) ==> i < self.chunk_count()
    }

    /// Whether every chunk has been absorbed.
    pub open spec fn is_completed(self) -> bool {
        self.remaining_chunks == Set::<u32>::empty()
    }

    /// What a chunk with number `index` and `len` bytes meets: the first of the three checks
    /// that it fails, or success.
    pub open spec fn check(self, index: u32, len: nat) -> AddChunkResult {
        if index >= self.chunk_count() {
            AddChunkResult::ChunkIndexTooHigh
        } else if len != self.expected_chunk_size(index as int) {
            AddChunkResult::ChunkSizeMismatch(
                ChunkSizeMismatch {
                    expected_size: self.expected_chunk_size(index as int) as u32,
                    actual_size: if len > u32::MAX {
                        u32::MAX
                    } else {
                        len as u32
                    },
                },
            )
        } else if !self.remaining_chunks.contains(index) {
            AddChunkResult::ChunkAlreadyExists
        } else {
            AddChunkResult::Success
        }
    }

    /// The pending file once chunk `index` has been copied to its place.
    pub open spec fn absorb(self, index: u32, chunk: Seq<u8>) -> PendingFileView {
        PendingFileView {
            remaining_chunks: self.remaining_chunks.remove(index),
            bytes: write_at(self.bytes, index * self.chunk_size, chunk),
            ..self
        }
    }

    /// The pending file after a chunk was offered: the chunk is absorbed when it passes the
    /// checks, and nothing changes when it does not.
    pub open spec fn offer(self, index: u32, chunk: Seq<u8>) -> PendingFileView {
        if self.check(index, chunk.len()) is Success {
            self.absorb(index, chunk)
        } else {
            self
        }
    }

    /// Where chunk `index` starts in the blob.
    pub open spec fn chunk_start(self, index: u32) -> int {
        index * self.chunk_size
    }

    /// The bytes that `content` has at the place of chunk `index`.
    pub open spec fn chunk_of(self, content: Seq<u8>, index: u32) -> Seq<u8> {
        content.subrange(
            self.chunk_start(index),
            self.chunk_start(index) + self.expected_chunk_size(index as int),
        )
    }

    /// Whether the buffer holds at the place of chunk `index` what `content` holds there.
    pub open spec fn chunk_matches(self, content: Seq<u8>, index: u32) -> bool {
        self.chunk_of(self.bytes, index) == self.chunk_of(content, index)
    }

    /// Whether the buffer holds, for every chunk that is no longer awaited, the bytes that
    /// `content` has at that chunk's place.
    pub open spec fn agrees_with(self, content: Seq<u8>) -> bool {
        forall|index: u32|
            index < self.chunk_count() && !self.remaining_chunks.contains(index)
                ==> #[trigger] self.chunk_matches(content, index)
    }
}

/// A pending file that has just been opened agrees with any content: it has absorbed nothing.
pub proof fn lemma_fresh_agrees(args: PutChunkArgs, content: Seq<u8>)
    ensures
        args.fresh().agrees_with(content),
{
}

/// Absorbing the chunk that `content` has at a place keeps the pending file in agreement
/// with `content`.
pub proof fn lemma_absorb_agrees(p: PendingFileView, index: u32, chunk: Seq<u8>, content: Seq<u8>)
    requires
        p.well_formed(),
        content.len() == p.total_size,
        p.agrees_with(content),
        p.check(index, chunk.len()) is Success,
        chunk == p.chunk_of(content, index),
    ensures
        p.absorb(index, chunk).agrees_with(content),
{
    let q = p.absorb(index, chunk);
    let c = p.chunk_size as int;
    lemma_chunk_bounds(p.chunk_size, p.total_size, index as int);
    assert forall|other: u32|
        other < q.chunk_count() && !q.remaining_chunks.contains(other) implies #[trigger] q.chunk_matches(
        content,
        other,
    ) by {
        lemma_chunk_bounds(p.chunk_size, p.total_size, other as int);
        let start = q.chunk_start(other);
        let len = q.expected_chunk_size(other as int);
        if other == index {
            assert(q.chunk_of(q.bytes, other) =~= q.chunk_of(content, other));
        } else {
            assert(p.chunk_matches(content, other));
            if other < index {
                assert((other + 1) * c <= index * c) by (nonlinear_arith)
                    requires
                        other + 1 <= index,
                        0 < c,
                ;
                assert((other + 1) * c == other * c + c) by (nonlinear_arith);
            } else {
                assert((index + 1) * c <= other * c) by (nonlinear_arith)
                    requires
                        index + 1 <= other,
                        0 < c,
                ;
                assert((index + 1) * c == index * c + c) by (nonlinear_arith);
            }
            assert(q.chunk_of(q.bytes, other) =~= p.chunk_of(p.bytes, other));
        }
    }
}

/// A pending file that awaits no chunk and agrees with `content` holds `content`.
pub proof fn lemma_completed_holds_content(p: PendingFileView, content: Seq<u8>)
    requires
        p.well_formed(),
        content.len() == p.total_size,
        p.agrees_with(content),
        p.is_completed(),
        p.chunk_size > 0,
    ensures
        p.bytes == content,
{
    assert forall|pos: int| 0 <= pos < p.bytes.len() implies p.bytes[pos] == content[pos] by {
        let c = p.chunk_size as int;
        {
            let t = p.total_size - 1;
            let index = pos / c;
            let offset = pos % c;
            lemma_fundamental_div_mod(pos, c);
            lemma_fundamental_div_mod(t, c);
            assert(0 <= index) by (nonlinear_arith)
                requires
                    pos == c * index + offset,
                    0 <= offset < c,
                    pos >= 0,
            ;
            assert(index <= t / c) by (nonlinear_arith)
                requires
                    pos == c * index + offset,
                    t == c * (t / c) + (t % c),
                    0 <= offset < c,
                    0 <= t % c < c,
                    pos <= t,
            ;
            assert(c * index == index * c) by (nonlinear_arith);
            let i = index as u32;
            lemma_chunk_bounds(p.chunk_size, p.total_size, index);
            assert(i < p.chunk_count());
            assert(!p.remaining_chunks.contains(i));
            assert(p.chunk_matches(content, i));
            let start = p.chunk_start(i);
            let len = p.expected_chunk_size(index);
            assert(offset < len) by {
                if index == p.chunk_count() - 1 {
                    assert(index * c + len == p.total_size);
                }
            }
            assert(p.chunk_of(p.bytes, i)[offset] == p.bytes[start + offset]);
            assert(p.chunk_of(content, i)[offset] == content[start + offset]);
        }
    }
    assert(p.bytes =~= content);
}

/// The pending file `p` after the chunks of `content` with the numbers `order` were offered
/// to it, one after the other.
pub open spec fn after_chunks(p: PendingFileView, content: Seq<u8>, order: Seq<u32>) -> PendingFileView
    decreases order.len(),
{
    if order.len() == 0 {
        p
    } else {
        after_chunks(p, content, order.drop_last()).offer(
            order.last(),
            p.chunk_of(content, order.last()),
        )
    }
}

/// An upload gives back what was submitted, in whatever order the chunks arrive.
///
/// When each chunk of `content` is offered once to the pending file that `args` opens, every
/// chunk is accepted, no chunk is awaited at the end and the buffer holds `content`.
pub proof fn lemma_chunks_in_any_order(args: PutChunkArgs, content: Seq<u8>, order: Seq<u32>)
    requires
        args.total_size <= MAX_BLOB_SIZE_BYTES,
        content.len() == args.total_size,
        args.chunk_size > 0,
        order.no_duplicates(),
        forall|i: u32| i < chunk_count_of(args.chunk_size, args.total_size) <==> order.contains(i),
    ensures
        after_chunks(args.fresh(), content, order).is_completed(),
        after_chunks(args.fresh(), content, order).bytes == content,
        forall|k: int|
            0 <= k < order.len() ==> after_chunks(
                args.fresh(),
                content,
                order.subrange(0, k),
            ).check(#[trigger] order[k], args.fresh().chunk_of(content, order[k]).len())
                is Success,
{
    let p = args.fresh();
    lemma_chunks_prefix(args, content, order, order.len() as int);
    assert(order.subrange(0, order.len() as int) =~= order);
    let q = after_chunks(p, content, order);
    assert forall|i: u32| !q.remaining_chunks.contains(i) by {
        assert(q.remaining_chunks.contains(i) <==> i < chunk_count_of(
            args.chunk_size,
            args.total_size,
        ) && !order.subrange(0, order.len() as int).contains(i));
    }
    assert(q.remaining_chunks =~= Set::<u32>::empty());
    lemma_completed_holds_content(q, content);
    assert forall|k: int| 0 <= k < order.len() implies after_chunks(
        p,
        content,
        order.subrange(0, k),
    ).check(#[trigger] order[k], p.chunk_of(content, order[k]).len()) is Success by {
        lemma_chunks_prefix(args, content, order, k);
        assert(order.contains(order[k]));
        lemma_chunk_bounds(args.chunk_size, args.total_size, order[k] as int);
        assert(!order.subrange(0, k).contains(order[k])) by {
            if order.subrange(0, k).contains(order[k]) {
                let j = order.subrange(0, k).index_of(order[k]);
                assert(order[j] == order[k]);
            }
        }
    }
}

/// The pending file that a declaration within the size limit opens is well formed.
pub proof fn lemma_fresh_well_formed(args: PutChunkArgs)
    requires
        args.total_size <= MAX_BLOB_SIZE_BYTES,
    ensures
        args.fresh().well_formed(),
{
    broadcast use vstd::seq_lib::seq_to_set_is_finite;

    let count = chunk_count_of(args.chunk_size, args.total_size);
    if 0 < count {
        lemma_chunk_bounds(args.chunk_size, args.total_size, 0);
    }
    let numbers = Seq::new(count as nat, |i: int| i as u32);
    assert forall|i: u32| numbers.to_set().contains(i) <==> i < count by {
        if i < count {
            assert(numbers[i as int] == i);
        }
        if numbers.contains(i) {
            let j = numbers.index_of(i);
            assert(numbers[j] == i);
        }
    }
    assert(args.fresh().remaining_chunks =~= numbers.to_set());
}

/// After the first `n` chunks of `order` the pending file is well formed, agrees with
/// `content` and awaits the chunks that were not offered yet.
proof fn lemma_chunks_prefix(args: PutChunkArgs, content: Seq<u8>, order: Seq<u32>, n: int)
    requires
        args.total_size <= MAX_BLOB_SIZE_BYTES,
        content.len() == args.total_size,
        args.chunk_size > 0,
        order.no_duplicates(),
        forall|i: u32| i < chunk_count_of(args.chunk_size, args.total_size) <==> order.contains(i),
        0 <= n <= order.len(),
    ensures
        after_chunks(args.fresh(), content, order.subrange(0, n)).well_formed(),
        after_chunks(args.fresh(), content, order.subrange(0, n)).agrees_with(content),
        after_chunks(args.fresh(), content, order.subrange(0, n)).chunk_size == args.chunk_size,
        after_chunks(args.fresh(), content, order.subrange(0, n)).total_size == args.total_size,
        forall|i: u32|
            after_chunks(args.fresh(), content, order.subrange(0, n)).remaining_chunks.contains(i)
                <==> i < chunk_count_of(args.chunk_size, args.total_size) && !order.subrange(
                0,
                n,
            ).contains(i),
    decreases n,
{
    let p = args.fresh();
    if n == 0 {
        assert(order.subrange(0, 0) =~= Seq::<u32>::empty());
        lemma_fresh_well_formed(args);
    } else {
        lemma_chunks_prefix(args, content, order, n - 1);
        let before = order.subrange(0, n - 1);
        let now = order.subrange(0, n);
        let index = order[n - 1];
        assert(now.drop_last() =~= before);
        assert(now.last() == index);
        let q = after_chunks(p, content, before);
        let chunk = p.chunk_of(content, index);
        assert(order.contains(index));
        lemma_chunk_bounds(args.chunk_size, args.total_size, index as int);
        assert(!before.contains(index)) by {
            if before.contains(index) {
                let j = before.index_of(index);
                assert(order[j] == order[n - 1]);
            }
        }
        assert(q.check(index, chunk.len()) is Success);
        assert(chunk == q.chunk_of(content, index));
        lemma_absorb_agrees(q, index, chunk, content);
        let r = q.absorb(index, chunk);
        assert(after_chunks(p, content, now) == r);
        assert forall|i: u32|
            r.remaining_chunks.contains(i) <==> i < chunk_count_of(
                args.chunk_size,
                args.total_size,
            ) && !now.contains(i) by {
            if before.contains(i) {
                let j = before.index_of(i);
                assert(now[j] == i);
            }
            if now.contains(i) {
                let j = now.index_of(i);
                if j < n - 1 {
                    assert(before[j] == i);
                }
            }
            if i == index {
                assert(now[n - 1] == i);
            }
        }
    }
}

/// The last chunk carries a whole chunk when the size of the blob is a multiple of the size
/// of a chunk, and the remainder when it is not.
pub proof fn lemma_last_chunk_size(chunk_size: u32, total_size: u64)
    requires
        chunk_size > 0,
        total_size > 0,
    ensures
        expected_chunk_size_of(
            chunk_size,
            total_size,
            chunk_count_of(chunk_size, total_size) - 1,
        ) == (if total_size % (chunk_size as u64) == 0 {
            chunk_size as int
        } else {
            (total_size % (chunk_size as u64)) as int
        }),
{
    let c = chunk_size as int;
    let t = total_size as int;
    lemma_fundamental_div_mod(t - 1, c);
    lemma_fundamental_div_mod(t, c);
    let q1 = (t - 1) / c;
    let r1 = (t - 1) % c;
    let q = t / c;
    let r = t % c;
    if r1 == c - 1 {
        assert(t == c * (q1 + 1)) by (nonlinear_arith)
            requires
                t - 1 == c * q1 + r1,
                r1 == c - 1,
        ;
        vstd::arithmetic::div_mod::lemma_mod_multiples_basic(q1 + 1, c);
        assert(c * (q1 + 1) == (q1 + 1) * c) by (nonlinear_arith);
    } else {
        assert(t == q1 * c + (r1 + 1)) by (nonlinear_arith)
            requires
                t - 1 == c * q1 + r1,
        ;
        vstd::arithmetic::div_mod::lemma_fundamental_div_mod_converse(t, c, q1, r1 + 1);
    }
}

/// An upload that is still being assembled.
pub struct PendingFile {
    pub uploaded_by: UserId,
    pub created: TimestampMillis,
    pub hash: crate::types::Hash,
    pub mime_type: String,
    pub accessors: VecSet<AccessorId>,
    pub chunk_size: u32,
    pub total_size: u64,
    pub remaining_chunks: VecSet<u32>,
    pub bytes: Vec<u8>,
}

impl View for PendingFile {
    type V = PendingFileView;

    open spec fn view(&self) -> PendingFileView {
        PendingFileView {
            uploaded_by: self.uploaded_by,
            created: self.created,
            hash: self.hash,
            mime_type: self.mime_type@,
            accessors: self.accessors@,
            chunk_size: self.chunk_size,
            total_size: self.total_size,
            remaining_chunks: self.remaining_chunks@,
            bytes: self.bytes@,
        }
    }
}

impl PendingFile {
    /// The two sets are sound and the model is well formed.
    pub open spec fn wf(&self) -> bool {
        &&& self.accessors.wf()
        &&& self.remaining_chunks.wf()
        &&& self@.well_formed()
    }

    /// The number of chunks of the upload.
    pub fn chunk_count(&self) -> (count: u32)
        requires
            self.wf(),
        ensures
            count == self@.chunk_count(),
    {
        proof {
            if 0 < chunk_count_of(self.chunk_size, self.total_size) {
                lemma_chunk_bounds(self.chunk_size, self.total_size, 0);
            }
        }
        calc_chunk_count(self.chunk_size, self.total_size)
    }

    /// Whether the pending file is well formed: the blob is not too big, the buffer has the
    /// size of the blob and only chunks of the upload are awaited.
    pub fn is_well_formed(&self) -> (r: bool)
        requires
            self.accessors.wf(),
            self.remaining_chunks.wf(),
        ensures
            r == self@.well_formed(),
    {
        proof {
            self.accessors.lemma_order();
            self.remaining_chunks.lemma_order();
        }
        if self.total_size > MAX_BLOB_SIZE_BYTES {
            return false;
        }
        if self.bytes.len() as u64 != self.total_size {
            return false;
        }
        proof {
            if 0 < chunk_count_of(self.chunk_size, self.total_size) {
                lemma_chunk_bounds(self.chunk_size, self.total_size, 0);
            }
        }
        let count = calc_chunk_count(self.chunk_size, self.total_size);
        let n = self.remaining_chunks.len();
        let mut i: usize = 0;
        while i < n
            invariant
                i <= n,
                n == self.remaining_chunks.order().len(),
                count == self@.chunk_count(),
                forall|j: int| 0 <= j < i ==> self.remaining_chunks.order()[j] < count,
            decreases n - i,
        {
            if self.remaining_chunks.at(i) >= count {
                return false;
            }
            i += 1;
        }
        proof {
            assert forall|k: u32| self@.remaining_chunks.contains(k) implies k < self@.chunk_count() by {
                let j = self.remaining_chunks.order().index_of(k);
                assert(self.remaining_chunks.order()[j] == k);
            }
        }
        true
    }

    /// Whether every chunk has been absorbed.
    pub fn is_completed(&self) -> (r: bool)
        requires
            self.wf(),
        ensures
            r == self@.is_completed(),
    {
        self.remaining_chunks.is_empty()
    }

    /// The number of bytes that chunk `chunk_index` must carry, or `None` when the upload has
    /// no such chunk.
    pub fn expected_chunk_size(&self, chunk_index: u32) -> (r: Option<u32>)
        requires
            self.wf(),
        ensures
            r == if chunk_index < self@.chunk_count() {
                Some(self@.expected_chunk_size(chunk_index as int) as u32)
            } else {
                None
            },
            r is Some ==> r->0 == self@.expected_chunk_size(chunk_index as int),
    {
        let count = self.chunk_count();
        if chunk_index >= count {
            None
        } else {
            proof {
                lemma_chunk_bounds(self.chunk_size, self.total_size, chunk_index as int);
            }
            if chunk_index == count - 1 {
                let rest: u64 = (self.total_size - 1) % (self.chunk_size as u64);
                Some((rest + 1) as u32)
            } else {
                Some(self.chunk_size)
            }
        }
    }

    /// Offers a chunk to the pending file.
    ///
    /// The chunk is checked in this order: its number must be one of the upload's, its size
    /// the one expected at that number, and the chunk still awaited. A chunk that passes is
    /// copied to its place and no longer awaited; one that fails changes nothing.
    pub fn add_chunk(&mut self, chunk_index: u32, bytes: Vec<u8>) -> (r: AddChunkResult)
        requires
            old(self).wf(),
        ensures
            final(self).wf(),
            r == old(self)@.check(chunk_index, bytes@.len()),
            final(self)@ == old(self)@.offer(chunk_index, bytes@),
    {
        let expected = match self.expected_chunk_size(chunk_index) {
            None => {
                return AddChunkResult::ChunkIndexTooHigh;
            },
            Some(expected) => expected,
        };
        if bytes.len() != expected as usize {
            let actual_size: u32 = if bytes.len() > u32::MAX as usize {
                u32::MAX
            } else {
                bytes.len() as u32
            };
            return AddChunkResult::ChunkSizeMismatch(
                ChunkSizeMismatch { expected_size: expected, actual_size },
            );
        }
        if !self.remaining_chunks.contains(&chunk_index) {
            return AddChunkResult::ChunkAlreadyExists;
        }
        self.remaining_chunks.remove(&chunk_index);
        proof {
            lemma_chunk_bounds(self.chunk_size, self.total_size, chunk_index as int);
            assert(self.chunk_size * chunk_index == chunk_index * self.chunk_size)
                by (nonlinear_arith);
        }
        let start: usize = ((self.chunk_size as u64) * (chunk_index as u64)) as usize;
        let ghost before = self.bytes@;
        let mut i: usize = 0;
        while i < bytes.len()
            invariant
                i <= bytes@.len(),
                start + bytes@.len() <= self.bytes@.len() <= MAX_BLOB_SIZE_BYTES,
                self.bytes@.len() == before.len(),
                self.bytes@ == write_at(before, start as int, bytes@.subrange(0, i as int)),
                self.uploaded_by == old(self).uploaded_by,
                self.created == old(self).created,
                self.hash == old(self).hash,
                self.mime_type == old(self).mime_type,
                self.accessors == old(self).accessors,
                self.chunk_size == old(self).chunk_size,
                self.total_size == old(self).total_size,
                self.remaining_chunks@ == old(self).remaining_chunks@.remove(chunk_index),
                self.remaining_chunks.wf(),
            decreases bytes@.len() - i,
        {
            self.bytes.set(start + i, bytes[i]);
            proof {
                assert(self.bytes@ =~= write_at(
                    before,
                    start as int,
                    bytes@.subrange(0, i + 1),
                ));
            }
            i += 1;
        }
        proof {
            assert(bytes@.subrange(0, bytes@.len() as int) =~= bytes@);
            assert(self@.remaining_chunks.finite());
        }
        AddChunkResult::Success
    }

    /// Opens the pending file that `args` declares and offers it the chunk that `args`
    /// carries. Returns the pending file and what became of the chunk.
    pub fn from(args: PutChunkArgs) -> (r: (PendingFile, AddChunkResult))
        requires
            args.total_size <= MAX_BLOB_SIZE_BYTES,
        ensures
            r.0.wf(),
            r.1 == args.fresh().check(args.chunk_index, args.bytes@.len()),
            r.0@ == args.fresh().offer(args.chunk_index, args.bytes@),
    {
        proof {
            if 0 < chunk_count_of(args.chunk_size, args.total_size) {
                lemma_chunk_bounds(args.chunk_size, args.total_size, 0);
            }
        }
        let chunk_count = calc_chunk_count(args.chunk_size, args.total_size);
        let buffer: Vec<u8> = vec![0u8; args.total_size as usize];
        let mut pending_file = PendingFile {
            uploaded_by: args.uploaded_by,
            created: args.now,
            hash: args.hash,
            mime_type: args.mime_type,
            accessors: VecSet::from_vec(&args.accessors),
            chunk_size: args.chunk_size,
            total_size: args.total_size,
            remaining_chunks: VecSet::below(chunk_count),
            bytes: buffer,
        };
        proof {
            broadcast use vstd::seq_lib::seq_to_set_is_finite;

            pending_file.remaining_chunks.lemma_order();
            assert(pending_file@.bytes =~= args.fresh().bytes);
            assert(pending_file@.remaining_chunks =~= args.fresh().remaining_chunks);
            assert(pending_file@ == args.fresh());
        }
        let result = pending_file.add_chunk(args.chunk_index, args.bytes);
        (pending_file, result)
    }
}

} // verus!
