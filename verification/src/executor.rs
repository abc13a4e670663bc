//! Executing a verified action against the store.

use vstd::prelude::*;
use crate::action::{Action, ActionView, Status};
use crate::store::{Store, StoreError, StoreView, lemma_with_monitor, lemma_without_monitor};

verus! {

/// What executing `a` against `s` reports: whether the store changed, or why
/// the action could not be executed.
pub open spec fn outcome(a: ActionView, s: StoreView) -> Result<bool, StoreError> {
    match a {
        ActionView::Subscribe { email, node_id } => if s.watches(email, node_id) {
            Ok(false)
        } else if s.next_id == u64::MAX {
            Err(StoreError::IdsExhausted)
        } else {
            Ok(true)
        },
        ActionView::Unsubscribe { email, node_id } => Ok(s.watches(email, node_id)),
        ActionView::ConfirmEmail { .. } => Ok(false),
    }
}

/// The store that executing `a` against `s` leaves.
pub open spec fn executed(a: ActionView, s: StoreView) -> StoreView {
    if outcome(a, s) == Ok::<bool, StoreError>(true) {
        match a {
            ActionView::Subscribe { email, node_id } => s.with_monitor(
                email,
                node_id,
                Status::Unknown,
            ),
            ActionView::Unsubscribe { email, node_id } => s.without_monitor(email, node_id),
            ActionView::ConfirmEmail { .. } => s,
        }
    } else {
        s
    }
}

/// Executing an action leaves a well-formed store well-formed.
pub proof fn law_executed_well_formed(a: ActionView, s: StoreView)
    requires
        s.wf(),
    ensures
        executed(a, s).wf(),
{
    if outcome(a, s) == Ok::<bool, StoreError>(true) {
        match a {
            ActionView::Subscribe { email, node_id } => {
                lemma_with_monitor(s, email, node_id, Status::Unknown);
            },
            ActionView::Unsubscribe { email, node_id } => {
                lemma_without_monitor(s, email, node_id);
            },
            ActionView::ConfirmEmail { .. } => {},
        }
    }
}

/// Executing an action a second time changes nothing: once an execution has
/// succeeded, executing the same action against the store that it left reports
/// no change and leaves that store as it is.
pub proof fn law_execute_twice(a: ActionView, s: StoreView)
    requires
        s.wf(),
        outcome(a, s) is Ok,
    ensures
        outcome(a, executed(a, s)) == Ok::<bool, StoreError>(false),
        executed(a, executed(a, s)) == executed(a, s),
{
    if outcome(a, s) == Ok::<bool, StoreError>(true) {
        match a {
            ActionView::Subscribe { email, node_id } => {
                lemma_with_monitor(s, email, node_id, Status::Unknown);
            },
            ActionView::Unsubscribe { email, node_id } => {
                lemma_without_monitor(s, email, node_id);
            },
            ActionView::ConfirmEmail { .. } => {},
        }
    }
}

/// A store that cannot execute an action is left as it was.
pub proof fn law_failure_changes_nothing(a: ActionView, s: StoreView)
    requires
        outcome(a, s) is Err,
    ensures
        executed(a, s) == s,
{
}

/// Applies `action` to `store`. A subscription is added where the address does
/// not watch the node yet, with nothing notified so far; it is removed where
/// the address watches the node. The result says whether the store changed.
pub fn execute(action: &Action, store: &mut Store) -> (r: Result<bool, StoreError>)
    requires
        old(store)@.wf(),
    ensures
        r == outcome(action@, old(store)@),
        final(store)@ == executed(action@, old(store)@),
        final(store)@.wf(),
        r is Ok ==> outcome(action@, final(store)@) == Ok::<bool, StoreError>(false),
        r is Ok ==> executed(action@, final(store)@) == final(store)@,
{
    proof {
        if outcome(action@, old(store)@) is Ok {
            law_execute_twice(action@, old(store)@);
        }
    }
    match action {
        Action::Subscribe { email, node_id } => {
            if store.find_monitor(email, node_id).is_some() {
                Ok(false)
            } else if store.next_id() == u64::MAX {
                Err(StoreError::IdsExhausted)
            } else {
                store.insert_monitor(email.clone(), node_id.clone(), Status::Unknown);
                Ok(true)
            }
        },
        Action::Unsubscribe { email, node_id } => {
            let removed = store.delete_monitor(email, node_id);
            Ok(removed)
        },
        Action::ConfirmEmail { .. } => Ok(false),
    }
}

} // verus!
