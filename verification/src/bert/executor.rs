//! Completions of the batching runtime as an encoder hands them to their consumers.
//!
//! The runtime owns reservation and readiness. A result leaves it device-resident and
//! incomplete, and the consumer receives it with its pool charge and its producer
//! completion dependency attached.

use crate::batch::executor::{Completed, Rejection, RequestId, Terminal};
use crate::bert::encoder::{charge, EncoderSubmission};
use crate::bert::request::EncoderConstraint;
use crate::foundation::pool::PoolLease;
use vstd::prelude::*;

verus! {

/// One terminal encoder completion.
///
/// A request that executed is returned as an [`EncoderResult`] that owns its device storage
/// and the pool charge covering it together. A request that never executed is returned as
/// its own rejection or cancellation, which carries neither.
#[derive(Debug)]
pub enum EncoderCompletion<S> {
    /// The request executed and its device-resident result is ready to be awaited.
    Result(EncoderResult<S>),
    /// The request was refused before any device work; nothing is retained.
    Rejected { request: RequestId, rejection: Rejection<EncoderConstraint> },
    /// The request was cancelled; nothing is retained.
    Cancelled { request: RequestId },
}

/// One completed encoder request handed to its consumer.
///
/// The device-resident result and the pool charge covering it travel together, so a
/// consumer cannot release the bytes while the storage is still readable.
#[derive(Debug)]
pub struct EncoderResult<S> {
    request: RequestId,
    submission: S,
    lease: Option<PoolLease>,
}

/// What a result holds.
pub struct EncoderResultView<S> {
    pub request: RequestId,
    pub submission: S,
    pub lease: Option<PoolLease>,
}

impl<S> View for EncoderResult<S> {
    type V = EncoderResultView<S>;

    closed spec fn view(&self) -> EncoderResultView<S> {
        EncoderResultView {
            request: self.request,
            submission: self.submission,
            lease: self.lease,
        }
    }
}

impl<S> EncoderCompletion<S> {
    /// Take a runtime completion, keeping the result with its charge.
    #[must_use]
    pub fn from_completed(completed: Completed<S, EncoderConstraint>) -> (r: Self)
        ensures
            match completed.outcome {
                Terminal::Output(submission) => {
                    &&& r is Result
                    &&& r->Result_0@ == (EncoderResultView {
                        request: completed.request,
                        submission,
                        lease: completed.lease,
                    })
                },
                Terminal::Rejected(rejection) => r == (EncoderCompletion::<S>::Rejected {
                    request: completed.request,
                    rejection,
                }),
                Terminal::Cancelled => r == (EncoderCompletion::<S>::Cancelled {
                    request: completed.request,
                }),
            },
    {
        let request = completed.request();
        let (outcome, lease) = completed.into_parts();
        match outcome {
            Terminal::Output(submission) => EncoderCompletion::Result(
                EncoderResult { request, submission, lease },
            ),
            Terminal::Rejected(rejection) => EncoderCompletion::Rejected { request, rejection },
            Terminal::Cancelled => EncoderCompletion::Cancelled { request },
        }
    }
}

impl<S> EncoderResult<S> {
    #[must_use]
    pub fn request(&self) -> (r: RequestId)
        ensures
            r == self@.request,
    {
        self.request
    }

    #[must_use]
    pub fn submission(&self) -> (r: &S)
        ensures
            *r == self@.submission,
    {
        &self.submission
    }

    /// The pool charge covering this result's storage.
    #[must_use]
    pub fn lease(&self) -> (r: Option<&PoolLease>)
        ensures
            match self@.lease {
                Some(lease) => r == Some(&lease),
                None => r is None,
            },
    {
        self.lease.as_ref()
    }

    /// Pool bytes this result keeps reserved until it is given up.
    #[must_use]
    pub fn retained_bytes(&self) -> (r: u64)
        ensures
            r == charge(self@.lease),
    {
        match &self.lease {
            Some(lease) => lease.bytes(),
            None => 0,
        }
    }

    /// Give the result up: its device state and the charge that covered it, together.
    #[must_use]
    pub fn into_parts(self) -> (r: (S, Option<PoolLease>))
        ensures
            r == (self@.submission, self@.lease),
    {
        (self.submission, self.lease)
    }
}

impl<B> EncoderResult<EncoderSubmission<B>> {
    /// Bytes this result holds on the device until it is given up.
    #[must_use]
    pub fn device_bytes(&self) -> (r: u64)
        ensures
            ({
                let lengths = self@.submission@.lengths;
                r == (if 4 * (lengths.floats() + lengths.ids()) <= usize::MAX {
                    4 * (lengths.floats() + lengths.ids())
                } else {
                    usize::MAX as int
                })
            }),
    {
        self.submission.device_bytes()
    }
}

} // verus!
