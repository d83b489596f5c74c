//! Identifiers shared by buckets and the index.

use vstd::prelude::*;

verus! {

/// Names one logical upload.
pub type FileId = u128;

/// Names one reference to a blob: the older name for a file.
pub type BlobId = u128;

/// Milliseconds since the Unix epoch.
pub type TimestampMillis = u64;

/// A 32-byte content digest.
pub type Hash = [u8; 32];

/// A user is known by its principal.
pub type UserId = Principal;

/// An accessor is known by its principal.
pub type AccessorId = Principal;

/// A canister (a bucket or the index) is known by its principal.
pub type CanisterId = Principal;

/// The greatest number of bytes in a principal.
pub const MAX_PRINCIPAL_LENGTH: usize = 29;

/// Tells the index that a user has started to upload a file.
#[derive(Clone, Copy, Debug, PartialEq, Eq)]
pub struct FileAdded {
    pub uploaded_by: UserId,
    pub file_id: FileId,
    pub hash: crate::types::Hash,
    pub size: u64,
}

/// Tells the index that a file is gone, and whether its blob went with it.
#[derive(Clone, Copy, Debug, PartialEq, Eq)]
pub struct FileRemoved {
    pub file_id: FileId,
    pub uploaded_by: UserId,
    pub hash: crate::types::Hash,
    pub blob_deleted: bool,
}

/// Tells the index that a user refers to a blob in a bucket.
#[derive(Clone, Copy, Debug, PartialEq, Eq)]
pub struct BlobReferenceAdded {
    pub uploaded_by: UserId,
    pub blob_id: FileId,
    pub blob_hash: crate::types::Hash,
    pub blob_size: u64,
}

/// Tells the index that a user no longer refers to a blob, and whether the bucket has
/// deleted the bytes.
#[derive(Clone, Copy, Debug, PartialEq, Eq)]
pub struct BlobReferenceRemoved {
    pub uploaded_by: UserId,
    pub blob_hash: crate::types::Hash,
    pub blob_deleted: bool,
}

impl BlobReferenceAdded {
    /// The report that tells of the upload `added`, with a blob reference for the file.
    pub open spec fn of(added: FileAdded) -> BlobReferenceAdded {
        BlobReferenceAdded {
            uploaded_by: added.uploaded_by,
            blob_id: added.file_id,
            blob_hash: added.hash,
            blob_size: added.size,
        }
    }

    /// Tells of an upload in terms of a blob reference.
    pub fn from(added: FileAdded) -> (r: BlobReferenceAdded)
        ensures
            r == BlobReferenceAdded::of(added),
    {
        BlobReferenceAdded {
            uploaded_by: added.uploaded_by,
            blob_id: added.file_id,
            blob_hash: added.hash,
            blob_size: added.size,
        }
    }
}

impl BlobReferenceRemoved {
    /// The report that tells of the deletion `removed`, without the name of the file.
    pub open spec fn of(removed: FileRemoved) -> BlobReferenceRemoved {
        BlobReferenceRemoved {
            uploaded_by: removed.uploaded_by,
            blob_hash: removed.hash,
            blob_deleted: removed.blob_deleted,
        }
    }

    /// Tells of a deletion in terms of a blob reference.
    pub fn from(removed: FileRemoved) -> (r: BlobReferenceRemoved)
        ensures
            r == BlobReferenceRemoved::of(removed),
    {
        BlobReferenceRemoved {
            uploaded_by: removed.uploaded_by,
            blob_hash: removed.hash,
            blob_deleted: removed.blob_deleted,
        }
    }
}

/// Why the index did not accept a reference.
#[derive(Clone, Copy, Debug, PartialEq, Eq)]
pub enum BlobReferenceRejectedReason {
    AllowanceReached,
    UserNotFound,
}

/// Tells a bucket that the index did not accept a reference.
#[derive(Clone, Copy, Debug, PartialEq, Eq)]
pub struct BlobReferenceRejected {
    pub blob_id: FileId,
    pub reason: BlobReferenceRejectedReason,
}

/// A user's allowance, now and as it would be after an operation.
#[derive(Clone, Copy, Debug, PartialEq, Eq)]
pub struct ProjectedAllowance {
    pub byte_limit: u64,
    pub bytes_used: u64,
    pub bytes_used_after_upload: u64,
    pub bytes_used_after_operation: u64,
}

/// The version of a canister's code.
#[derive(Clone, Copy, Debug, PartialEq, Eq)]
pub struct Version {
    pub major: u32,
    pub minor: u32,
    pub patch: u32,
}

/// The code of a canister and its version.
pub struct CanisterWasm {
    pub version: Version,
    pub module: Vec<u8>,
}

/// An amount of cycles.
pub type Cycles = u128;

/// What the host tells of the request at hand: who sent it and when.
#[derive(Clone, Copy, Debug, PartialEq, Eq)]
pub struct Environment {
    pub caller: Principal,
    pub now: TimestampMillis,
}

/// A value that can be compared for equality in executable code, so that it can key a
/// container.
pub trait Key: Sized + Copy {
    /// Whether the two keys are the same value.
    fn same(&self, other: &Self) -> (r: bool)
        ensures
            r == (*self == *other),
    ;
}

impl Key for u32 {
    fn same(&self, other: &Self) -> (r: bool) {
        *self == *other
    }
}

impl Key for u128 {
    fn same(&self, other: &Self) -> (r: bool) {
        *self == *other
    }
}

impl Key for [u8; 32] {
    fn same(&self, other: &Self) -> (r: bool) {
        let mut i: usize = 0;
        while i < 32
            invariant
                i <= 32,
                forall|j: int| 0 <= j < i ==> self@[j] == other@[j],
            decreases 32 - i,
        {
            if self[i] != other[i] {
                return false;
            }
            i += 1;
        }
        assert(*self =~= *other);
        true
    }
}

/// An opaque identity of at most 29 bytes.
///
/// The bytes past `len` are always zero, so two principals are equal exactly when their byte
/// strings are.
#[derive(Clone, Copy, Debug, PartialEq, Eq, Hash)]
pub struct Principal {
    len: u8,
    bytes: [u8; 29],
}

impl View for Principal {
    type V = Seq<u8>;

    /// The bytes of the principal.
    closed spec fn view(&self) -> Seq<u8> {
        self.bytes@.subrange(0, self.len as int)
    }
}

impl Principal {
    /// The length is in range and the unused tail is zero.
    pub closed spec fn wf(&self) -> bool {
        &&& self.len <= 29
        &&& forall|i: int| self.len <= i < 29 ==> self.bytes@[i] == 0
    }

    /// Two well-formed principals with the same bytes are the same principal.
    pub proof fn lemma_view_injective(a: Principal, b: Principal)
        requires
            a.wf(),
            b.wf(),
            a@ == b@,
        ensures
            a == b,
    {
        assert(a.len == b.len) by {
            assert(a@.len() == a.len);
            assert(b@.len() == b.len);
        }
        assert forall|i: int| 0 <= i < 29 implies a.bytes@[i] == b.bytes@[i] by {
            if i < a.len {
                assert(a@[i] == a.bytes@[i]);
                assert(b@[i] == b.bytes@[i]);
            }
        }
        assert(a.bytes =~= b.bytes);
    }

    /// The principal with the given bytes, or `None` when there are more than 29 of them.
    pub fn from_slice(bytes: &[u8]) -> (r: Option<Principal>)
        ensures
            match r {
                Some(p) => bytes@.len() <= MAX_PRINCIPAL_LENGTH && p.wf() && p@ == bytes@,
                None => bytes@.len() > MAX_PRINCIPAL_LENGTH,
            },
    {
        if bytes.len() > MAX_PRINCIPAL_LENGTH {
            return None;
        }
        let mut buffer: [u8; 29] = [0u8; 29];
        let mut i: usize = 0;
        while i < bytes.len()
            invariant
                i <= bytes@.len() <= 29,
                forall|j: int| 0 <= j < i ==> buffer@[j] == bytes@[j],
                forall|j: int| i <= j < 29 ==> buffer@[j] == 0,
            decreases bytes@.len() - i,
        {
            buffer[i] = bytes[i];
            i += 1;
        }
        let p = Principal { len: bytes.len() as u8, bytes: buffer };
        assert(p@ =~= bytes@);
        Some(p)
    }

    /// The bytes of the principal.
    pub fn to_vec(&self) -> (r: Vec<u8>)
        requires
            self.wf(),
        ensures
            r@ == self@,
    {
        let mut out: Vec<u8> = Vec::new();
        let mut i: usize = 0;
        while i < self.len as usize
            invariant
                i <= self.len <= 29,
                out@ == self.bytes@.subrange(0, i as int),
            decreases self.len - i,
        {
            out.push(self.bytes[i]);
            assert(self.bytes@.subrange(0, i as int).push(self.bytes@[i as int])
                =~= self.bytes@.subrange(0, i + 1));
            i += 1;
        }
        out
    }
}

impl Key for Principal {
    fn same(&self, other: &Self) -> (r: bool) {
        if self.len != other.len {
            return false;
        }
        let mut i: usize = 0;
        while i < 29
            invariant
                i <= 29,
                forall|j: int| 0 <= j < i ==> self.bytes@[j] == other.bytes@[j],
            decreases 29 - i,
        {
            if self.bytes[i] != other.bytes[i] {
                return false;
            }
            i += 1;
        }
        assert(self.bytes =~= other.bytes);
        true
    }
}

} // verus!
