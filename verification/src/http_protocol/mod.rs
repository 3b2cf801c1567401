//! What the broker answers to each request of its HTTP interface, on plain
//! values: the status of the answer and what its body holds.


pub mod general_handlers;
pub mod state;
pub mod subscription_handlers;
pub mod topic_handlers;


pub mod types;

use vstd::prelude::*;

verus! {

/// The status of an answer.
#[derive(Clone, Copy, Debug, PartialEq, Eq, Structural)]
pub enum Status {
    /// The request was carried out.
    Success,
    /// The request created what it named.
    Created,
    /// What the request was to create exists already.
    Conflict,
    /// What the request named does not exist.
    NotFound,
}

impl Status {
    /// The HTTP status code.
    pub open spec fn spec_code(self) -> u16 {
        match self {
            Status::Success => 200,
            Status::Created => 201,
            Status::Conflict => 409,
            Status::NotFound => 404,
        }
    }

    /// The HTTP status code.
    pub fn code(&self) -> (c: u16)
        ensures
            c == self.spec_code(),
    {
        match self {
            Status::Success => 200,
            Status::Created => 201,
            Status::Conflict => 409,
            Status::NotFound => 404,
        }
    }

    /// The status of an answer to a request to create something: whether it
    /// was created or was there already.
    pub open spec fn creation(created: bool) -> Status {
        if created {
            Status::Created
        } else {
            Status::Conflict
        }
    }

    /// The status of an answer to a request to delete something: whether it
    /// was there.
    pub open spec fn deletion(existed: bool) -> Status {
        if existed {
            Status::Success
        } else {
            Status::NotFound
        }
    }
}

} // verus!
