//! The requests a subscriber can make, and the status a node can be in.

use vstd::prelude::*;

verus! {

/// What is known about a node at one point in time.
#[derive(Clone, Copy, Debug, PartialEq, Eq, Structural)]
pub enum Status {
    Online,
    Offline,
    Unknown,
}

/// One requested mutation of the subscriptions. Every variant carries the
/// address that authorizes it.
#[derive(Clone, Debug, PartialEq, Eq)]
pub enum Action {
    Subscribe { email: String, node_id: String },
    Unsubscribe { email: String, node_id: String },
    ConfirmEmail { email: String },
}

/// The mathematical value of an [`Action`].
pub ghost enum ActionView {
    Subscribe { email: Seq<char>, node_id: Seq<char> },
    Unsubscribe { email: Seq<char>, node_id: Seq<char> },
    ConfirmEmail { email: Seq<char> },
}

impl View for Action {
    type V = ActionView;

    open spec fn view(&self) -> ActionView {
        match *self {
            Action::Subscribe { email, node_id } => ActionView::Subscribe {
                email: email@,
                node_id: node_id@,
            },
            Action::Unsubscribe { email, node_id } => ActionView::Unsubscribe {
                email: email@,
                node_id: node_id@,
            },
            Action::ConfirmEmail { email } => ActionView::ConfirmEmail { email: email@ },
        }
    }
}

impl ActionView {
    /// The address that authorizes the action.
    pub open spec fn email(self) -> Seq<char> {
        match self {
            ActionView::Subscribe { email, .. } => email,
            ActionView::Unsubscribe { email, .. } => email,
            ActionView::ConfirmEmail { email } => email,
        }
    }
}

impl Action {
    /// The address that authorizes the action.
    pub fn email(&self) -> (r: &String)
        ensures
            r@ == self@.email(),
    {
        match self {
            Action::Subscribe { email, .. } => email,
            Action::Unsubscribe { email, .. } => email,
            Action::ConfirmEmail { email } => email,
        }
    }
}

} // verus!
