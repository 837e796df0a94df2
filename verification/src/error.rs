//! The gateway's error type.
use vstd::prelude::*;

verus! {

/// Errors raised while serving a request.
#[derive(Debug)]
pub enum RZError {
    Validation(String),
    RoomzinUnreachable(String),
    Timeout,
    Internal(String),
    Network(String),
}

/// Abstract view of [`RZError`]: the variant and its message as characters.
pub enum RZErrorView {
    Validation(Seq<char>),
    RoomzinUnreachable(Seq<char>),
    Timeout,
    Internal(Seq<char>),
    Network(Seq<char>),
}

impl View for RZError {
    type V = RZErrorView;

    open spec fn view(&self) -> RZErrorView {
        match self {
            RZError::Validation(m) => RZErrorView::Validation(m@),
            RZError::RoomzinUnreachable(m) => RZErrorView::RoomzinUnreachable(m@),
            RZError::Timeout => RZErrorView::Timeout,
            RZError::Internal(m) => RZErrorView::Internal(m@),
            RZError::Network(m) => RZErrorView::Network(m@),
        }
    }
}

/// A validation error carrying the given message.
pub fn validation_error(msg: &str) -> (e: RZError)
    ensures
        e@ == RZErrorView::Validation(msg@),
{
    RZError::Validation(msg.to_owned())
}

/// An internal error carrying the given message.
pub fn internal_error(msg: &str) -> (e: RZError)
    ensures
        e@ == RZErrorView::Internal(msg@),
{
    RZError::Internal(msg.to_owned())
}

} // verus!
