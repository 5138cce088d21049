//! Notes that people write on a review: input data, not certificates of an evaluator.
use crate::digest::Digest;
use crate::input::InputError;
use crate::text::byte_len;
use crate::uuid::Uuid;
use vstd::prelude::*;
use vstd::utf8::encode_utf8;

verus! {

/// A session.
#[derive(Clone, Copy, Debug, PartialEq, Eq, PartialOrd, Ord, Hash, Structural)]
pub struct SessionId(pub Uuid);

/// What was decided on a review.
#[derive(Clone, Copy, Debug, PartialEq, Eq, Structural)]
pub enum Disposition {
    Approved,
    ChangesRequested,
    Comment,
}

impl Disposition {
    pub open spec fn spec_label(self) -> Seq<char> {
        match self {
            Disposition::Approved => "Approved"@,
            Disposition::ChangesRequested => "ChangesRequested"@,
            Disposition::Comment => "Comment"@,
        }
    }

    /// How a decision is shown.
    pub fn label(self) -> (r: &'static str)
        ensures
            r@ == self.spec_label(),
    {
        match self {
            Disposition::Approved => "Approved",
            Disposition::ChangesRequested => "ChangesRequested",
            Disposition::Comment => "Comment",
        }
    }
}

/// A note on the source of a review.
#[derive(Debug, PartialEq, Eq)]
pub struct ReviewFeedback {
    pub version: u32,
    pub session: SessionId,
    pub manifest: Digest,
    pub source_identity: Digest,
    pub disposition: Disposition,
    pub body: String,
}

/// Why a note is refused: its size, given what it reads as, and given the identity of the
/// source that its manifest names, where that is a valid one.
pub open spec fn feedback_refusal(
    size: usize,
    feedback: Option<ReviewFeedback>,
    source: Option<Digest>,
) -> Option<InputError> {
    if size > 69632 {
        Some(InputError::Invalid("review feedback exceeds its bound"))
    } else {
        match feedback {
            None => Some(InputError::Json),
            Some(feedback) => if feedback.version != 1 || encode_utf8(feedback.body@).len()
                > 65536 {
                Some(InputError::Invalid("unsupported review feedback"))
            } else {
                match source {
                    None => Some(
                        InputError::Integrity("review feedback has no valid source manifest"),
                    ),
                    Some(source) => if source != feedback.source_identity {
                        Some(InputError::Integrity("review feedback source identity mismatch"))
                    } else {
                        None
                    },
                }
            },
        }
    }
}

/// Takes a note that was read back.
pub fn read(size: usize, feedback: Option<ReviewFeedback>, source: Option<Digest>) -> (r: Result<
    ReviewFeedback,
    InputError,
>)
    ensures
        match r {
            Ok(taken) => feedback == Some(taken) && feedback_refusal(size, feedback, source)
                is None,
            Err(error) => feedback_refusal(size, feedback, source) == Some(error),
        },
{
    if size > 69632 {
        return Err(InputError::Invalid("review feedback exceeds its bound"));
    }
    let feedback = match feedback {
        None => return Err(InputError::Json),
        Some(feedback) => feedback,
    };
    if feedback.version != 1 || byte_len(feedback.body.as_str()) > 65536 {
        return Err(InputError::Invalid("unsupported review feedback"));
    }
    match source {
        None => Err(InputError::Integrity("review feedback has no valid source manifest")),
        Some(source) => if source != feedback.source_identity {
            Err(InputError::Integrity("review feedback source identity mismatch"))
        } else {
            Ok(feedback)
        },
    }
}

} // verus!
