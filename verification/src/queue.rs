//! Submissions that wait while Pi works.
use crate::json::{Json, Tree};
use crate::text::copy;
use std::sync::Arc;
use vstd::prelude::*;

verus! {

/// When a queued message is delivered: within the running turn, or after it.
#[derive(Clone, Copy, Debug, PartialEq, Eq, Structural)]
pub enum QueueMode {
    Steer,
    FollowUp,
}

/// An attachment, shared between the draft, the queue and recovery.
pub type SharedImage = Arc<Json>;

/// A message to send, with its attachments.
pub struct DraftSubmission {
    pub text: String,
    pub images: Vec<SharedImage>,
    pub mode: QueueMode,
}

/// What a [`DraftSubmission`] holds.
#[verifier::ext_equal]
pub struct DraftView {
    pub text: Seq<char>,
    pub images: Seq<Tree>,
    pub mode: QueueMode,
}

/// What some attachments hold.
pub open spec fn image_trees(images: Seq<SharedImage>) -> Seq<Tree> {
    Seq::new(images.len(), |i: int| images[i]@)
}

impl View for DraftSubmission {
    type V = DraftView;

    open spec fn view(&self) -> DraftView {
        DraftView { text: self.text@, images: image_trees(self.images@), mode: self.mode }
    }
}

/// The same attachments, shared.
pub fn share_images(images: &Vec<SharedImage>) -> (out: Vec<SharedImage>)
    ensures
        out@ == images@,
{
    let mut out: Vec<SharedImage> = Vec::new();
    let mut i: usize = 0;
    while i < images.len()
        invariant
            i <= images@.len(),
            out@ == images@.take(i as int),
        decreases images@.len() - i,
    {
        out.push(images[i].clone());
        i = i + 1;
        assert(images@.take(i as int) =~= images@.take(i - 1).push(images@[i - 1]));
    }
    assert(images@.take(i as int) =~= images@);
    out
}

impl DraftSubmission {
    /// The same submission, its attachments shared.
    pub fn share(&self) -> (r: Self)
        ensures
            r@ == self@,
    {
        DraftSubmission {
            text: copy(self.text.as_str()),
            images: share_images(&self.images),
            mode: self.mode,
        }
    }
}

}
