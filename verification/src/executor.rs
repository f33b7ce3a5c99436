//! The download pass: the planned downloads are made one after the other, and
//! the first answer that is no success ends the pass.

use vstd::prelude::*;
use crate::client::{check_download_status, is_success, status_outcome, AuthError};
use crate::controller::Failure;
use crate::planner::{lemma_rerun_after_break, planned, written, Download, Target};

verus! {

/// The number of downloads that a pass over `n` planned downloads saves when
/// its requests are answered by `statuses`, in order: those before the first
/// answer that is no success.
pub open spec fn saved_after(n: nat, statuses: Seq<u16>) -> nat
    decreases statuses.len(),
{
    if n == 0 || statuses.len() == 0 || !is_success(statuses[0]) {
        0
    } else {
        1 + saved_after((n - 1) as nat, statuses.skip(1))
    }
}

/// What ends such a pass early, if anything does: the meaning of the first
/// answer that is no success.
pub open spec fn failure_after(n: nat, statuses: Seq<u16>) -> Option<Failure> {
    let k = saved_after(n, statuses);
    if k < n && k < statuses.len() {
        match status_outcome(statuses[k as int]) {
            Ok(_) => None,
            Err(failure) => Some(failure),
        }
    } else {
        None
    }
}

/// While every answer so far is a success, the pass has saved as many
/// downloads as there were answers and goes on with the rest.
pub proof fn lemma_saved_split(n: nat, statuses: Seq<u16>, i: int)
    requires
        0 <= i <= n,
        i <= statuses.len(),
        forall|j: int| 0 <= j < i ==> is_success(#[trigger] statuses[j]),
    ensures
        saved_after(n, statuses) == i + saved_after((n - i) as nat, statuses.skip(i)),
    decreases i,
{
    if i == 0 {
        assert(statuses.skip(0) =~= statuses);
    } else {
        assert(is_success(statuses[0]));
        let rest = statuses.skip(1);
        assert forall|j: int| 0 <= j < i - 1 implies is_success(#[trigger] rest[j]) by {
            assert(rest[j] == statuses[j + 1]);
        }
        lemma_saved_split((n - 1) as nat, rest, i - 1);
        assert(rest.skip(i - 1) =~= statuses.skip(i));
    }
}

/// A pass stops at the first answer that is no success: the downloads before
/// it are saved, the one it answers and those behind it are not, and the pass
/// ends with what that answer means.
pub proof fn lemma_pass_stops_at_first_failure(n: nat, statuses: Seq<u16>, i: int)
    requires
        0 <= i < n,
        i < statuses.len(),
        forall|j: int| 0 <= j < i ==> is_success(#[trigger] statuses[j]),
        !is_success(statuses[i]),
    ensures
        saved_after(n, statuses) == i,
        failure_after(n, statuses) == Some(status_outcome(statuses[i])->Err_0),
        statuses[i] == 403 ==> failure_after(n, statuses) == Some(Failure::AuthExpired),
{
    lemma_saved_split(n, statuses, i);
    assert(statuses.skip(i)[0] == statuses[i]);
}

/// After a pass that an answer ended early, the next pass fetches exactly
/// what the broken one had not saved: in the directory that holds what was
/// there and what the broken pass wrote, the plan is the rest of the first
/// plan, from the download that was turned away on.
pub proof fn lemma_next_pass_fetches_the_rest(
    targets: Seq<Target>,
    existing: Set<Seq<char>>,
    statuses: Seq<u16>,
    i: int,
)
    requires
        0 <= i < planned(targets, existing).len(),
        i < statuses.len(),
        forall|j: int| 0 <= j < i ==> is_success(#[trigger] statuses[j]),
        !is_success(statuses[i]),
    ensures
        saved_after(planned(targets, existing).len(), statuses) == i,
        planned(
            targets,
            existing.union(
                written(
                    planned(targets, existing).take(
                        saved_after(planned(targets, existing).len(), statuses) as int,
                    ),
                ),
            ),
        ) == planned(targets, existing).skip(i),
{
    lemma_pass_stops_at_first_failure(planned(targets, existing).len(), statuses, i);
    lemma_rerun_after_break(targets, existing, i);
}

/// A pass over the planned downloads, one request at a time.
pub struct DownloadPass {
    work: Vec<Download>,
    saved: usize,
    failure: Option<Failure>,
}

impl DownloadPass {
    /// The planned downloads.
    pub closed spec fn spec_work(&self) -> Seq<Download> {
        self.work@
    }

    /// The number of downloads saved so far.
    pub closed spec fn spec_saved(&self) -> nat {
        self.saved as nat
    }

    /// What has ended the pass early, if anything has.
    pub closed spec fn spec_failure(&self) -> Option<Failure> {
        self.failure
    }

    /// No more downloads were saved than were planned.
    pub closed spec fn wf(&self) -> bool {
        self.saved <= self.work.len()
    }

    /// A download is due: the pass has not ended, early or otherwise.
    pub open spec fn due(&self) -> bool {
        self.spec_failure() is None && self.spec_saved() < self.spec_work().len()
    }

    /// A pass that has saved nothing yet.
    pub fn new(work: Vec<Download>) -> (pass: DownloadPass)
        ensures
            pass.wf(),
            pass.spec_work() == work@,
            pass.spec_saved() == 0,
            pass.spec_failure() is None,
    {
        DownloadPass { work, saved: 0, failure: None }
    }

    /// The position, among the planned downloads, of the one to make next;
    /// `None` once all are saved or an answer has ended the pass.
    pub fn next_download(&self) -> (r: Option<usize>)
        requires
            self.wf(),
        ensures
            r is Some <==> self.due(),
            r is Some ==> r == Some(self.spec_saved() as usize),
    {
        if self.failure.is_none() && self.saved < self.work.len() {
            Some(self.saved)
        } else {
            None
        }
    }

    /// The planned download at `position`.
    pub fn download(&self, position: usize) -> (d: &Download)
        requires
            position < self.spec_work().len(),
        ensures
            *d == self.spec_work()[position as int],
    {
        &self.work[position]
    }

    /// Takes in the status that answered the download that was due. A success
    /// counts the download as saved; anything else ends the pass. Where no
    /// download was due the pass stays as it is.
    pub fn record(&mut self, status: u16) -> (r: Result<(), Failure>)
        requires
            old(self).wf(),
        ensures
            final(self).wf(),
            final(self).spec_work() == old(self).spec_work(),
            r == status_outcome(status),
            !old(self).due() ==> *final(self) == *old(self),
            old(self).due() && r is Ok ==> final(self).spec_saved() == old(self).spec_saved() + 1
                && final(self).spec_failure() is None,
            old(self).due() && r is Err ==> final(self).spec_saved() == old(self).spec_saved()
                && final(self).spec_failure() == Some(r->Err_0),
    {
        let outcome = check_download_status(status);
        if self.failure.is_none() && self.saved < self.work.len() {
            match outcome {
                Ok(_) => {
                    self.saved = self.saved + 1;
                },
                Err(failure) => {
                    self.failure = Some(failure);
                },
            }
        }
        outcome
    }

    /// The number of downloads saved so far.
    pub fn saved(&self) -> (r: usize)
        ensures
            r == self.spec_saved(),
    {
        self.saved
    }

    /// What has ended the pass early, if anything has.
    pub fn failure(&self) -> (r: Option<Failure>)
        ensures
            r == self.spec_failure(),
    {
        self.failure
    }

    /// Whether the pass was ended by an expired session.
    pub fn expired(&self) -> (r: Result<(), AuthError>)
        ensures
            r is Err <==> self.spec_failure() == Some(Failure::AuthExpired),
    {
        match self.failure {
            Some(Failure::AuthExpired) => Err(AuthError),
            _ => Ok(()),
        }
    }
}

/// The pass over `work` whose requests are answered by `statuses`, in order:
/// it saves the downloads before the first answer that is no success, and
/// asks for nothing behind that answer.
pub fn run_pass(work: Vec<Download>, statuses: &Vec<u16>) -> (pass: DownloadPass)
    ensures
        pass.wf(),
        pass.spec_work() == work@,
        pass.spec_saved() == saved_after(work@.len(), statuses@),
        pass.spec_failure() == failure_after(work@.len(), statuses@),
{
    let ghost n = work@.len();
    let mut pass = DownloadPass::new(work);
    let mut i: usize = 0;
    while i < statuses.len() && pass.next_download().is_some()
        invariant
            pass.wf(),
            pass.spec_work().len() == n,
            pass.spec_work() == work@,
            i <= statuses.len(),
            pass.spec_failure() is None ==> pass.spec_saved() == i && forall|j: int|
                0 <= j < i ==> is_success(#[trigger] statuses@[j]),
            pass.spec_failure() is Some ==> pass.spec_saved() == saved_after(n, statuses@)
                && pass.spec_failure() == failure_after(n, statuses@),
        decreases statuses.len() - i,
    {
        proof {
            if !is_success(statuses@[i as int]) {
                lemma_pass_stops_at_first_failure(n, statuses@, i as int);
            }
        }
        let _ = pass.record(statuses[i]);
        i += 1;
    }
    proof {
        if pass.spec_failure() is None {
            lemma_saved_split(n, statuses@, i as int);
            let rest = statuses@.skip(i as int);
            assert(n - i == 0 || rest.len() == 0);
        }
    }
    pass
}

} // verus!
