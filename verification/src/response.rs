//! What the tracker answers to an announce.

use vstd::prelude::*;
use crate::{Peer, PeerModel};

verus! {

/// Mathematical model of a response.
pub enum ResponseModel {
    Error { failure_reason: Option<Seq<char>> },
    PeerList { interval: u32, peers: Seq<PeerModel> },
}

/// The tracker's answer to an announce.
#[derive(Debug)]
pub enum Response {
    /// The request failed
    Error {
        /// An optional error message
        failure_reason: Option<String>,
    },
    /// A list of connected peers
    PeerList {
        /// Refresh interval of the list
        interval: u32,
        /// Available peers
        peers: Vec<Peer>,
    },
}

impl View for Response {
    type V = ResponseModel;

    open spec fn view(&self) -> ResponseModel {
        match self {
            Response::Error { failure_reason } => ResponseModel::Error {
                failure_reason: match failure_reason {
                    Some(reason) => Some(reason@),
                    None => None,
                },
            },
            Response::PeerList { interval, peers } => ResponseModel::PeerList {
                interval: *interval,
                peers: peers@.map_values(|p: Peer| p@),
            },
        }
    }
}

/// Whether two lists hold the same peers in the same order.
fn same_peers(a: &Vec<Peer>, b: &Vec<Peer>) -> (same: bool)
    ensures
        same == (a@.map_values(|p: Peer| p@) == b@.map_values(|p: Peer| p@)),
{
    let ghost left = a@.map_values(|p: Peer| p@);
    let ghost right = b@.map_values(|p: Peer| p@);
    if a.len() != b.len() {
        assert(left.len() != right.len());
        return false;
    }
    let mut i: usize = 0;
    while i < a.len()
        invariant
            i <= a.len(),
            a.len() == b.len(),
            left == a@.map_values(|p: Peer| p@),
            right == b@.map_values(|p: Peer| p@),
            forall|k: int| 0 <= k < i ==> left[k] == right[k],
        decreases a.len() - i,
    {
        if !(a[i] == b[i]) {
            assert(left[i as int] != right[i as int]);
            return false;
        }
        i = i + 1;
    }
    assert(left =~= right);
    true
}

impl PartialEq for Response {
    fn eq(&self, other: &Response) -> (same: bool) {
        match (self, other) {
            (Response::Error { failure_reason: None }, Response::Error { failure_reason: None }) => {
                true
            },
            (
                Response::Error { failure_reason: Some(mine) },
                Response::Error { failure_reason: Some(theirs) },
            ) => *mine == *theirs,
            (
                Response::PeerList { interval: mine, peers: my_peers },
                Response::PeerList { interval: theirs, peers: their_peers },
            ) => *mine == *theirs && same_peers(my_peers, their_peers),
            _ => false,
        }
    }
}

impl Eq for Response {

}

impl vstd::std_specs::cmp::PartialEqSpecImpl for Response {
    open spec fn obeys_eq_spec() -> bool {
        true
    }

    open spec fn eq_spec(&self, other: &Response) -> bool {
        self@ == other@
    }
}

impl Response {
    /// The failure response that carries `description` as its reason.
    pub fn from_description(description: String) -> (response: Response)
        ensures
            response@ == (ResponseModel::Error { failure_reason: Some(description@) }),
    {
        Response::Error { failure_reason: Some(description) }
    }

    /// The failure response for an error: its reason is the text that the
    /// error displays as.
    pub fn from_error<E: core::fmt::Display>(error: &E) -> (response: Response)
        ensures
            response@ matches ResponseModel::Error { failure_reason: Some(reason) }
                && exists|text: String|
                text@ == reason && #[trigger] vstd::string::to_string_from_display_ensures::<E>(
                    error,
                    text,
                ),
    {
        let description = error.to_string();
        Response::from_description(description)
    }
}

} // verus!
