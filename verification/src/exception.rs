//! The two kinds of failure the library tells apart.
use vstd::prelude::*;

verus! {

/// A failure, with a message for the log.
#[derive(Debug, Clone, PartialEq, Eq)]
pub enum Exception {
    /// Transient: the attempt is dropped and the next pass tries again.
    Retryable(String),
    /// Permanent: trying again will not help.
    NonRetryable(String),
}

/// Mathematical value of an [`Exception`].
pub enum ExceptionView {
    Retryable(Seq<char>),
    NonRetryable(Seq<char>),
}

impl View for Exception {
    type V = ExceptionView;

    open spec fn view(&self) -> ExceptionView {
        match self {
            Exception::Retryable(message) => ExceptionView::Retryable(message@),
            Exception::NonRetryable(message) => ExceptionView::NonRetryable(message@),
        }
    }
}

impl Exception {
    /// Whether trying again may help.
    pub fn is_retryable(&self) -> (retryable: bool)
        ensures
            retryable == (self@ is Retryable),
    {
        match self {
            Exception::Retryable(_) => true,
            Exception::NonRetryable(_) => false,
        }
    }
}

} // verus!
