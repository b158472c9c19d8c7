//! The error that planning reports.

use vstd::prelude::*;

verus! {

/// Who has to act on an error.
#[derive(Clone, Copy, Debug, PartialEq, Eq, Structural)]
pub enum CubeErrorCauseType {
    /// The data model or the query has to change.
    User,
    /// The planner was asked for something it does not handle.
    Internal,
}

/// An error with its message.
#[derive(Debug)]
pub struct CubeError {
    pub cause: CubeErrorCauseType,
    pub message: String,
}

/// The content of a [`CubeError`].
pub struct CubeErrorView {
    pub cause: CubeErrorCauseType,
    pub message: Seq<char>,
}

impl View for CubeError {
    type V = CubeErrorView;

    open spec fn view(&self) -> CubeErrorView {
        CubeErrorView { cause: self.cause, message: self.message@ }
    }
}

pub open spec fn user_error(message: Seq<char>) -> CubeErrorView {
    CubeErrorView { cause: CubeErrorCauseType::User, message }
}

pub open spec fn internal_error(message: Seq<char>) -> CubeErrorView {
    CubeErrorView { cause: CubeErrorCauseType::Internal, message }
}

impl CubeError {
    pub fn user(message: String) -> (error: Self)
        ensures
            error@ == user_error(message@),
    {
        CubeError { cause: CubeErrorCauseType::User, message }
    }

    pub fn internal(message: String) -> (error: Self)
        ensures
            error@ == internal_error(message@),
    {
        CubeError { cause: CubeErrorCauseType::Internal, message }
    }
}

} // verus!
