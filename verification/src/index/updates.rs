//! The requests that change the state of the index.

use crate::index::add_user;
use crate::index::bucket_sync_state::EventToSync;
use crate::index::data::{DataView, RuntimeState, UserRecord};
use vstd::prelude::*;

verus! {

impl DataView {
    /// The users once `args` has been taken: a new user starts with nothing charged, and a
    /// user that the index knows stays as it is.
    pub open spec fn users_after_add(self, args: add_user::Args) -> Map<
        crate::types::UserId,
        UserRecord,
    > {
        if self.users.contains_key(args.user_id) {
            self.users
        } else {
            self.users.insert(
                args.user_id,
                UserRecord { byte_limit: args.byte_limit, bytes_used: 0 },
            )
        }
    }
}

/// Whether `after` and `response` are what the request `args` to admit a user makes of
/// `before`.
///
/// A user that the index knows is refused and nothing changes. A new user starts with
/// nothing charged, and the event that tells of the user has joined the queue of every
/// bucket.
pub open spec fn user_added(
    before: RuntimeState,
    args: add_user::Args,
    after: RuntimeState,
    response: add_user::Response,
) -> bool {
    &&& after.env == before.env
    &&& response == (if before.data@.users.contains_key(args.user_id) {
        add_user::Response::UserAlreadyExists
    } else {
        add_user::Response::Success
    })
    &&& after.data@.users == before.data@.users_after_add(args)
    &&& after.data@.blob_buckets == before.data@.blob_buckets
    &&& after.data@.service_principals == before.data@.service_principals
    &&& after.data@.buckets.len() == before.data@.buckets.len()
    &&& forall|i: int|
        0 <= i < before.data@.buckets.len() ==> #[trigger] after.data@.buckets[i] == (
        if response is Success {
            before.data@.buckets[i].with_event(EventToSync::UserAdded(args.user_id))
        } else {
            before.data@.buckets[i]
        })
    &&& response is UserAlreadyExists ==> after.data@ == before.data@
    &&& before.data@.accounted() ==> after.data@.accounted()
}

/// Admits a user on behalf of the caller, if the caller is a service principal. Any other
/// caller is turned away: `None`, and nothing changes.
pub fn add_user(args: add_user::Args, runtime_state: &mut RuntimeState) -> (r: Option<
    add_user::Response,
>)
    requires
        old(runtime_state).data.wf(),
    ensures
        final(runtime_state).data.wf(),
        match r {
            Some(response) => old(runtime_state).data@.service_principals.contains(
                old(runtime_state).env.caller,
            ) && user_added(*old(runtime_state), args, *final(runtime_state), response),
            None => !old(runtime_state).data@.service_principals.contains(
                old(runtime_state).env.caller,
            ) && *final(runtime_state) == *old(runtime_state),
        },
{
    if runtime_state.is_caller_service_principal() {
        Some(add_user_impl(args, runtime_state))
    } else {
        None
    }
}

/// Admits a user with the given allowance and tells every bucket of it.
///
/// A user that the index knows is refused and nothing changes. A new user starts with
/// nothing charged, and the event that tells of the user joins the queue of every bucket.
pub fn add_user_impl(args: add_user::Args, runtime_state: &mut RuntimeState) -> (r:
    add_user::Response)
    requires
        old(runtime_state).data.wf(),
    ensures
        final(runtime_state).data.wf(),
        user_added(*old(runtime_state), args, *final(runtime_state), r),
{
    if runtime_state.data.users.contains_key(&args.user_id) {
        return add_user::Response::UserAlreadyExists;
    }
    runtime_state.data.users.insert(
        args.user_id,
        UserRecord { byte_limit: args.byte_limit, bytes_used: 0 },
    );
    runtime_state.data.buckets.sync_event(EventToSync::UserAdded(args.user_id));
    proof {
        let v = old(runtime_state).data@;
        let w = runtime_state.data@;
        if v.accounted() {
            assert forall|u: crate::types::UserId| #[trigger] w.users.contains_key(u) implies w.users[u].bytes_used
                == crate::collections::map_sum::sum_values(w.charges(u)) by {
                if u == args.user_id {
                    assert forall|h: crate::types::Hash| !w.charges(u).contains_key(h) by {
                        if w.charges(u).contains_key(h) {
                            assert(crate::index::blob_buckets::user_refers_to(v.blob_buckets, u, h));
                        }
                    }
                    assert(w.charges(u) =~= Map::<crate::types::Hash, nat>::empty());
                    crate::collections::map_sum::lemma_sum_empty::<crate::types::Hash>();
                } else {
                    assert(v.users.contains_key(u));
                    assert(w.charges(u) =~= v.charges(u));
                }
            }
            assert forall|u: crate::types::UserId, h: crate::types::Hash| #[trigger]
                crate::index::blob_buckets::user_refers_to(w.blob_buckets, u, h) implies w.users.contains_key(
                u,
            ) by {
                assert(crate::index::blob_buckets::user_refers_to(v.blob_buckets, u, h));
            }
        }
    }
    add_user::Response::Success
}

} // verus!
