//! What a bucket tells the index: references that users added and dropped.

use crate::index::buckets::has_bucket;
use crate::index::data::{DataView, RuntimeState};
use crate::types::{BlobReferenceAdded, BlobReferenceRejected, BlobReferenceRemoved, CanisterId};
use vstd::prelude::*;

verus! {

/// One report of a bucket.
#[derive(Clone, Copy, Debug, PartialEq, Eq)]
pub enum Event {
    BlobReferenceAdded(BlobReferenceAdded),
    BlobReferenceRemoved(BlobReferenceRemoved),
}

/// The reports of a bucket since its last batch, oldest first.
pub struct Args {
    pub events: Vec<Event>,
}

/// The references that the index did not accept, in the order of their reports.
pub struct SuccessResult {
    pub rejected: Vec<BlobReferenceRejected>,
}

/// The answer of the index to a batch.
pub enum Response {
    /// Every report was taken.
    Success(SuccessResult),
    /// The report at this position releases a blob that is bigger than what its user is
    /// charged. The reports before it were taken, this one and those after it were not.
    AccountsBroken(usize),
}

impl DataView {
    /// Whether `event` can be taken: a release must not take more off a user's charge than
    /// the user is charged.
    pub open spec fn can_take(self, event: Event) -> bool {
        match event {
            Event::BlobReferenceAdded(_) => true,
            Event::BlobReferenceRemoved(removed) => self.can_refund(removed),
        }
    }

    /// The index after the report `event` from `bucket`.
    pub open spec fn take(self, bucket: CanisterId, event: Event) -> DataView {
        match event {
            Event::BlobReferenceAdded(added) => self.add_blob_reference(bucket, added),
            Event::BlobReferenceRemoved(removed) => self.remove_blob_reference(removed),
        }
    }

    /// The index after the reports `events` from `bucket`, taken in order.
    pub open spec fn take_all(self, bucket: CanisterId, events: Seq<Event>) -> DataView
        decreases events.len(),
    {
        if events.len() == 0 {
            self
        } else {
            self.take_all(bucket, events.drop_last()).take(bucket, events.last())
        }
    }

    /// Whether each of the reports `events` from `bucket` can be taken when its turn comes.
    pub open spec fn can_take_all(self, bucket: CanisterId, events: Seq<Event>) -> bool {
        forall|i: int|
            0 <= i < events.len() ==> self.take_all(bucket, events.subrange(0, i)).can_take(
                #[trigger] events[i],
            )
    }

    /// The references among `events` that the index does not accept, in order.
    pub open spec fn rejections(self, bucket: CanisterId, events: Seq<Event>) -> Seq<
        BlobReferenceRejected,
    >
        decreases events.len(),
    {
        if events.len() == 0 {
            Seq::empty()
        } else {
            let before = self.rejections(bucket, events.drop_last());
            match events.last() {
                Event::BlobReferenceAdded(added) => match self.take_all(
                    bucket,
                    events.drop_last(),
                ).add_blob_reference_result(added) {
                    Err(rejected) => before.push(rejected),
                    Ok(_) => before,
                },
                Event::BlobReferenceRemoved(_) => before,
            }
        }
    }
}

/// Whether `after` and `response` are what a batch `args` from the calling bucket makes of
/// `before`.
///
/// The reports are taken in order: a reference added is charged to its user or rejected, a
/// reference dropped is refunded. The answer lists the rejections. A release that would
/// take more off a user's charge than the user is charged stops the batch where it stands.
pub open spec fn reports_taken(
    before: RuntimeState,
    args: Args,
    after: RuntimeState,
    response: Response,
) -> bool {
    let v = before.data@;
    let bucket = before.env.caller;
    &&& after.env == before.env
    &&& match response {
        Response::Success(result) => {
            &&& v.can_take_all(bucket, args.events@)
            &&& after.data@ == v.take_all(bucket, args.events@)
            &&& result.rejected@ == v.rejections(bucket, args.events@)
        },
        Response::AccountsBroken(i) => {
            &&& i < args.events@.len()
            &&& v.can_take_all(bucket, args.events@.subrange(0, i as int))
            &&& !v.take_all(bucket, args.events@.subrange(0, i as int)).can_take(
                args.events@[i as int],
            )
            &&& after.data@ == v.take_all(bucket, args.events@.subrange(0, i as int))
        },
    }
}

/// Takes a batch from the caller, if the caller is a bucket that the index knows. Any other
/// caller is turned away: `None`, and nothing changes.
pub fn c2c_sync_bucket(args: Args, runtime_state: &mut RuntimeState) -> (r: Option<Response>)
    requires
        old(runtime_state).data.wf(),
    ensures
        final(runtime_state).data.wf(),
        match r {
            Some(response) => has_bucket(
                old(runtime_state).data@.buckets,
                old(runtime_state).env.caller,
            ) && reports_taken(*old(runtime_state), args, *final(runtime_state), response),
            None => !has_bucket(old(runtime_state).data@.buckets, old(runtime_state).env.caller)
                && *final(runtime_state) == *old(runtime_state),
        },
{
    if runtime_state.is_caller_bucket() {
        Some(c2c_sync_bucket_impl(args, runtime_state))
    } else {
        None
    }
}

/// Takes a batch from the bucket that calls.
///
/// The reports are taken in order: a reference added is charged to its user or rejected, a
/// reference dropped is refunded. The answer lists the rejections. A release that would
/// take more off a user's charge than the user is charged stops the batch where it stands.
pub fn c2c_sync_bucket_impl(args: Args, runtime_state: &mut RuntimeState) -> (r: Response)
    requires
        old(runtime_state).data.wf(),
    ensures
        final(runtime_state).data.wf(),
        reports_taken(*old(runtime_state), args, *final(runtime_state), r),
{
    let ghost v = runtime_state.data@;
    let ghost events = args.events@;
    let bucket = runtime_state.env.caller;
    let mut rejected: Vec<BlobReferenceRejected> = Vec::new();
    let mut i: usize = 0;
    while i < args.events.len()
        invariant
            i <= events.len(),
            events == args.events@,
            v == old(runtime_state).data@,
            bucket == old(runtime_state).env.caller,
            runtime_state.env == old(runtime_state).env,
            runtime_state.data.wf(),
            v.can_take_all(bucket, events.subrange(0, i as int)),
            runtime_state.data@ == v.take_all(bucket, events.subrange(0, i as int)),
            rejected@ == v.rejections(bucket, events.subrange(0, i as int)),
        decreases events.len() - i,
    {
        let event = args.events[i];
        let ghost prefix = events.subrange(0, i as int);
        let ghost next = events.subrange(0, i + 1);
        proof {
            assert(next.drop_last() =~= prefix);
            assert(next.last() == event);
        }
        match event {
            Event::BlobReferenceAdded(added) => {
                match runtime_state.data.add_blob_reference(bucket, added) {
                    Err(rejection) => {
                        rejected.push(rejection);
                    },
                    Ok(_) => {},
                }
            },
            Event::BlobReferenceRemoved(removed) => {
                let size = match runtime_state.data.blob_buckets.get(&removed.blob_hash) {
                    Some(record) => if record.users.contains(&removed.uploaded_by) {
                        Some(record.size)
                    } else {
                        None
                    },
                    None => None,
                };
                let short = match size {
                    None => false,
                    Some(size) => match runtime_state.data.users.get(&removed.uploaded_by) {
                        Some(user) => user.bytes_used < size,
                        None => false,
                    },
                };
                if short {
                    return Response::AccountsBroken(i);
                }
                runtime_state.data.remove_blob_reference(bucket, removed);
            },
        }
        proof {
            assert forall|k: int| 0 <= k < next.len() implies v.take_all(
                bucket,
                next.subrange(0, k),
            ).can_take(#[trigger] next[k]) by {
                assert(next.subrange(0, k) =~= events.subrange(0, k));
                if k < i {
                    assert(prefix.subrange(0, k) =~= events.subrange(0, k));
                    assert(prefix[k] == next[k]);
                }
            }
        }
        i += 1;
    }
    proof {
        assert(events.subrange(0, events.len() as int) =~= events);
    }
    Response::Success(SuccessResult { rejected })
}

} // verus!
