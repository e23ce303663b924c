//! The orchestration seams: the batcher and translator interfaces, the
//! unit of work handed to a worker, and the supervisor's per-event step.
//! The concurrent driving loop itself (task spawning, channels, HTTP) lives
//! outside the library; the decisions it takes per event are here.

use vstd::prelude::*;

use crate::textures::TextureLine;
use crate::textures::Textures;
use crate::textures::TranslatedLine;
use crate::textures::spec_apply_change;

verus! {

/// One unit of work: a prompt payload and the inclusive line-index range it
/// covers.
pub type BatchPackage<T> = (Vec<T>, (usize, usize));

/// A failed translation request; the worker loop retries the same batch.
pub struct TranslateError {
    pub message: String,
}

/// Groups consecutive lines into one prompt payload.
pub trait Batchizer<T>: Sized {
    /// How many consecutive lines the batch starting at `index` consumes.
    spec fn spec_size(&self, lines: Seq<TextureLine>, index: int) -> int;

    /// What the produced payload looks like.
    spec fn spec_post(&self, lines: Seq<TextureLine>, index: int, msgs: Seq<T>, size: int) -> bool;

    fn batchize(&self, textures: &Textures, index: usize) -> (r: (Vec<T>, usize))
        ensures
            r.1 as int == self.spec_size(textures.lines@, index as int),
            self.spec_post(textures.lines@, index as int, r.0@, r.1 as int),
    ;

    /// A batch starting inside the lines consumes at least one line and
    /// stays inside them.
    proof fn spec_size_progress(&self, lines: Seq<TextureLine>, index: int)
        requires
            0 <= index < lines.len(),
        ensures
            1 <= self.spec_size(lines, index),
            index + self.spec_size(lines, index) <= lines.len(),
    ;
}

/// Performs one translation request for one batch.  This is the seam the
/// shell's transport stands behind: the library states nothing of the
/// request's outcome, and the worker loop treats every failure as
/// retryable.
pub trait TranslateClient<T>: Sized {
    fn request(&self, batch_and_range: &BatchPackage<T>) -> Result<TranslatedLine, TranslateError>;
}

/// A translator backend that dispatches batches to concurrent workers.
pub trait ConcurrentTranslate<T>: Sized {
    type Client;

    /// What holds of the queue the backend builds.
    spec fn spec_queue_wf(&self, textures: &Textures) -> bool;

    /// Everything the backend itself pins about the queue it builds.
    spec fn spec_queue_post(&self, textures: &Textures, r: Seq<BatchPackage<T>>) -> bool;

    /// Whether the queue's payloads come from the batchizer (rather than
    /// from a backend-specific split such as fixed-size reprocessing).
    spec fn spec_queue_from_batchizer(&self, textures: &Textures) -> bool;

    /// The relation between the backend's state before and after creating
    /// one client, and the client handed out.
    spec fn spec_client_step(&self, next: Self, c: Self::Client) -> bool;

    /// What must hold of the backend before a client can be created.
    spec fn spec_client_pre(&self) -> bool;

    fn create_batch_queue<F: Batchizer<T>>(&self, batchizer: &F, textures: &Textures) -> (r: Vec<
        BatchPackage<T>,
    >)
        requires
            self.spec_queue_wf(textures),
        ensures
            forall|q: int|
                0 <= q < r@.len() ==> (#[trigger] r@[q]).1.0 <= r@[q].1.1 < textures.lines@.len(),
            self.spec_queue_post(textures, r@),
            self.spec_queue_from_batchizer(textures) ==> forall|q: int|
                0 <= q < r@.len() ==> {
                    &&& batchizer.spec_post(
                        textures.lines@,
                        (#[trigger] r@[q]).1.0 as int,
                        r@[q].0@,
                        r@[q].1.1 - r@[q].1.0 + 1,
                    )
                    &&& r@[q].1.1 - r@[q].1.0 + 1 == batchizer.spec_size(
                        textures.lines@,
                        r@[q].1.0 as int,
                    )
                },
    ;

    fn create_client(&mut self) -> (r: Self::Client)
        requires
            old(self).spec_client_pre(),
        ensures
            old(self).spec_client_step(*final(self), r),
    ;

    fn max_concurrent(&self) -> i32;
}

/// One event the supervisor can receive: a finished translation, or a
/// completion signal carrying the number of translators that finished.
pub enum TranslateEvent {
    Line(TranslatedLine),
    Closed(i32),
}

/// One step of the supervisor loop.  A finished translation is recorded in
/// the mutable `Textures`; a completion signal decrements the wait counter.
/// The first result says whether a checkpoint is due now (the periodic
/// timer fired, or everything finished); the second whether the loop is
/// done.
pub fn supervisor_step(
    textures: &mut Textures,
    wait: &mut i32,
    ev: TranslateEvent,
    timer_due: bool,
) -> (r: (bool, bool))
    requires
        ev matches TranslateEvent::Line(l) ==> l.batch_range.0 < old(textures).lines@.len(),
        ev matches TranslateEvent::Closed(n) ==> i32::MIN <= *old(wait) - n <= i32::MAX,
    ensures
        ({
            match ev {
                TranslateEvent::Line(l) => {
                    &&& *final(wait) == *old(wait)
                    &&& final(textures).curr_index == l.batch_range.1
                    &&& final(textures).name == old(textures).name
                    &&& final(textures).lines@.len() == old(textures).lines@.len()
                    &&& forall|k: int|
                        0 <= k < old(textures).lines@.len() && k != l.batch_range.0
                            ==> final(textures).lines@[k] == old(textures).lines@[k]
                    &&& final(textures).lines@[l.batch_range.0 as int].translated@
                        == spec_apply_change(
                        old(textures).lines@[l.batch_range.0 as int].translated@,
                        l,
                    )
                    &&& r.0 == timer_due
                },
                TranslateEvent::Closed(n) => {
                    &&& *final(wait) == *old(wait) - n
                    &&& *final(textures) == *old(textures)
                    &&& r.0 == (*final(wait) <= 0)
                },
            }
        }),
        r.1 == (*final(wait) <= 0),
{
    match ev {
        TranslateEvent::Line(l) => {
            textures.update(l);
            let done = *wait <= 0;
            (timer_due, done)
        },
        TranslateEvent::Closed(n) => {
            *wait = *wait - n;
            let done = *wait <= 0;
            (done, done)
        },
    }
}

} // verus!
