use crate::crawl::CrawlError;
use crate::prelude::SuiResult;
use std::collections::BTreeMap;
use vstd::prelude::*;

verus! {

/// Progress is reported once every this many packages.
pub const PROGRESS_EVERY: usize = 50;

/// The disassembled modules of one package, to be written onto its row.
pub struct ContentUpdate {
    pub package_id: String,
    pub content: BTreeMap<String, String>,
}

/// The content backfill: the packages whose rows still lack content, in the
/// order the store listed them, and how far the pass has got. The pass ends
/// at the first package whose request or write fails; the rows it did not
/// reach keep no content and are picked up again by the next pass.
pub struct Backfill {
    pub pending: Vec<String>,
    pub next: usize,
    pub failed: bool,
}

pub open spec fn backfill_initial(pending: Vec<String>) -> Backfill {
    Backfill { pending, next: 0, failed: false }
}

/// The pass still has a package to request.
pub open spec fn wants_more(b: Backfill) -> bool {
    !b.failed && b.next < b.pending.len()
}

/// One transition: the pass after the node answered the request for the
/// package `pending[next]`, and the update to write.
pub open spec fn backfill_step(b: Backfill, answer: SuiResult) -> (Backfill, Result<ContentUpdate, CrawlError>) {
    match answer {
        SuiResult::Package { details, .. } => (
            Backfill { pending: b.pending, next: (b.next + 1) as usize, failed: false },
            Ok(ContentUpdate { package_id: b.pending[b.next as int], content: details.data.disassembled }),
        ),
        SuiResult::Event { .. } => (
            Backfill { pending: b.pending, next: b.next, failed: true },
            Err(CrawlError::NotAPackage),
        ),
    }
}

/// A whole pass against a node that answers its successive requests with
/// `answers`: the pass at the end, the updates written in order, and the
/// number of packages requested.
pub open spec fn backfill_run(b: Backfill, answers: Seq<SuiResult>) -> (Backfill, Seq<ContentUpdate>, nat)
    decreases answers.len(),
{
    if !wants_more(b) || answers.len() == 0 {
        (b, Seq::empty(), 0)
    } else {
        let (next, out) = backfill_step(b, answers[0]);
        let written = match out {
            Ok(u) => seq![u],
            Err(_) => Seq::empty(),
        };
        let (last, rest, n) = backfill_run(next, answers.drop_first());
        (last, written + rest, n + 1)
    }
}

/// The modules that a package answer carries.
pub open spec fn package_content(answer: SuiResult) -> BTreeMap<String, String>
    recommends
        answer is Package,
{
    match answer {
        SuiResult::Package { details, .. } => details.data.disassembled,
        SuiResult::Event { .. } => vstd::pervasive::arbitrary(),
    }
}

impl Backfill {
    pub fn new(pending: Vec<String>) -> (r: Backfill)
        ensures
            r == backfill_initial(pending),
    {
        Backfill { pending, next: 0, failed: false }
    }

    /// The package to request next, if the pass is not over.
    pub fn next_package(&self) -> (r: Option<&String>)
        ensures
            wants_more(*self) ==> r == Some(&self.pending[self.next as int]),
            !wants_more(*self) ==> r is None,
    {
        if !self.failed && self.next < self.pending.len() {
            Some(&self.pending[self.next])
        } else {
            None
        }
    }

    /// Takes the node's answer for the package `pending[next]`. A package
    /// answer gives the update that writes its modules onto that package's
    /// row; an answer of the event shape fails the pass.
    pub fn on_response(&mut self, answer: SuiResult) -> (r: Result<ContentUpdate, CrawlError>)
        requires
            wants_more(*old(self)),
        ensures
            *final(self) == backfill_step(*old(self), answer).0,
            r == backfill_step(*old(self), answer).1,
    {
        match answer {
            SuiResult::Package { details, .. } => {
                let package_id = self.pending[self.next].clone();
                self.next = self.next + 1;
                Ok(ContentUpdate { package_id, content: details.data.disassembled })
            },
            SuiResult::Event { .. } => {
                self.failed = true;
                Err(CrawlError::NotAPackage)
            },
        }
    }

    /// A request or a write failed: the pass ends here.
    pub fn on_failure(&mut self)
        ensures
            final(self).pending == old(self).pending,
            final(self).next == old(self).next,
            final(self).failed,
    {
        self.failed = true;
    }
}

/// Whether progress is reported after the package at position `index`.
pub fn reports_progress(index: usize) -> (r: bool)
    ensures
        r == (index % PROGRESS_EVERY == 0),
{
    index % PROGRESS_EVERY == 0
}

proof fn lemma_backfill_from(b: Backfill, answers: Seq<SuiResult>)
    requires
        !b.failed,
        b.next <= b.pending.len(),
        answers.len() >= b.pending.len() - b.next,
        forall|i: int| 0 <= i < b.pending.len() - b.next ==> answers[i] is Package,
    ensures
        backfill_run(b, answers).2 == b.pending.len() - b.next,
        backfill_run(b, answers).1.len() == b.pending.len() - b.next,
        forall|i: int|
            0 <= i < b.pending.len() - b.next ==> (#[trigger] backfill_run(b, answers).1[i]).package_id
                == b.pending[b.next + i] && backfill_run(b, answers).1[i].content == package_content(
                answers[i],
            ),
        backfill_run(b, answers).0.next == b.pending.len(),
        !backfill_run(b, answers).0.failed,
    decreases b.pending.len() - b.next,
{
    if b.next < b.pending.len() {
        let (next, out) = backfill_step(b, answers[0]);
        let rest = answers.drop_first();
        assert forall|i: int| 0 <= i < next.pending.len() - next.next implies rest[i] is Package by {
            assert(rest[i] == answers[i + 1]);
        }
        lemma_backfill_from(next, rest);
        let tail = backfill_run(next, rest).1;
        assert forall|i: int| 0 <= i < b.pending.len() - b.next implies (#[trigger] backfill_run(
            b,
            answers,
        ).1[i]).package_id == b.pending[b.next + i] && backfill_run(b, answers).1[i].content
            == package_content(answers[i]) by {
            if i > 0 {
                assert(backfill_run(b, answers).1[i] == tail[i - 1]);
                assert(rest[i - 1] == answers[i]);
            }
        }
    }
}

/// Backfill selectivity: a pass over the packages whose rows lack content,
/// against a node that answers each request with a package, requests each of
/// them exactly once and writes exactly one update per package, onto that
/// package's row, with the modules of its answer, and onto no other row.
pub proof fn lemma_backfill_touches_pending_only(pending: Vec<String>, answers: Seq<SuiResult>)
    requires
        answers.len() >= pending.len(),
        forall|i: int| 0 <= i < pending.len() ==> answers[i] is Package,
    ensures
        backfill_run(backfill_initial(pending), answers).2 == pending.len(),
        backfill_run(backfill_initial(pending), answers).1.len() == pending.len(),
        forall|i: int|
            0 <= i < pending.len() ==> (#[trigger] backfill_run(
                backfill_initial(pending),
                answers,
            ).1[i]).package_id == pending[i] && backfill_run(backfill_initial(pending), answers).1[i].content
                == package_content(answers[i]),
        !backfill_run(backfill_initial(pending), answers).0.failed,
{
    lemma_backfill_from(backfill_initial(pending), answers);
}

} // verus!
