//! The run controller: the phases of a run and what moves it from one to the
//! next.

use vstd::prelude::*;

verus! {

/// Where a run stands.
#[derive(Clone, Copy, Debug, PartialEq, Eq, Structural)]
pub enum Phase {
    /// No session, or one that has expired.
    Unauthenticated,
    /// Logged in; nothing has been asked of the feed yet.
    Authenticated,
    /// Reading the pages of the feed.
    Enumerating,
    /// Fetching the items that are wanted.
    Downloading,
    /// A whole pass over the items went through.
    Done,
}

/// What happened since the last step.
#[derive(Clone, Copy, Debug, PartialEq, Eq, Structural)]
pub enum Event {
    /// The login was accepted.
    LoggedIn,
    /// The first page of the feed was asked for.
    ListingStarted,
    /// The last page of the feed was read.
    ListingComplete,
    /// Every item was handled.
    PassComplete,
    /// A request was turned away: the session has expired.
    AuthExpired,
}

/// What the caller has to do in a phase.
#[derive(Clone, Copy, Debug, PartialEq, Eq, Structural)]
pub enum Action {
    /// Start from a fresh session and log in.
    Login,
    /// Start reading the feed at its first page.
    StartListing,
    /// Read the next page of the feed.
    ReadListing,
    /// Fetch the items that are wanted.
    Download,
    /// Nothing is left to do.
    Stop,
}

/// What can go wrong in a run.
#[derive(Clone, Copy, Debug, PartialEq, Eq, Structural)]
pub enum Failure {
    /// The login page was unusable, or the login was turned down.
    AuthFailure,
    /// The session expired in the middle of the run.
    AuthExpired,
    /// A page of the feed held no usable listing.
    ParseFailure,
    /// An item of unknown media type or content type.
    ClassificationError,
    /// The network failed.
    TransportError,
}

/// The phase that follows `phase` on `event`. An event that the phase does not
/// wait for leaves it as it is.
pub open spec fn next_phase(phase: Phase, event: Event) -> Phase {
    match (phase, event) {
        (Phase::Unauthenticated, Event::LoggedIn) => Phase::Authenticated,
        (Phase::Authenticated, Event::ListingStarted) => Phase::Enumerating,
        (Phase::Enumerating, Event::ListingComplete) => Phase::Downloading,
        (Phase::Enumerating, Event::AuthExpired) => Phase::Unauthenticated,
        (Phase::Downloading, Event::PassComplete) => Phase::Done,
        (Phase::Downloading, Event::AuthExpired) => Phase::Unauthenticated,
        _ => phase,
    }
}

/// The phase in which a run that starts in `phase` stands after `events`.
pub open spec fn phase_after(phase: Phase, events: Seq<Event>) -> Phase
    decreases events.len(),
{
    if events.len() == 0 {
        phase
    } else {
        next_phase(phase_after(phase, events.drop_last()), events.last())
    }
}

/// The number of pass-completing steps: those taken in the download phase on
/// the news that every item was handled.
pub open spec fn completed_passes(phase: Phase, events: Seq<Event>) -> nat
    decreases events.len(),
{
    if events.len() == 0 {
        0
    } else {
        let before = completed_passes(phase, events.drop_last());
        if phase_after(phase, events.drop_last()) == Phase::Downloading && events.last()
            == Event::PassComplete {
            before + 1
        } else {
            before
        }
    }
}

/// The phase that follows `phase` on `event`.
pub fn step(phase: Phase, event: Event) -> (next: Phase)
    ensures
        next == next_phase(phase, event),
        next == Phase::Done <==> phase == Phase::Done || (phase == Phase::Downloading && event
            == Event::PassComplete),
        event == Event::AuthExpired && (phase == Phase::Downloading || phase
            == Phase::Enumerating) ==> next == Phase::Unauthenticated,
{
    match (phase, event) {
        (Phase::Unauthenticated, Event::LoggedIn) => Phase::Authenticated,
        (Phase::Authenticated, Event::ListingStarted) => Phase::Enumerating,
        (Phase::Enumerating, Event::ListingComplete) => Phase::Downloading,
        (Phase::Enumerating, Event::AuthExpired) => Phase::Unauthenticated,
        (Phase::Downloading, Event::PassComplete) => Phase::Done,
        (Phase::Downloading, Event::AuthExpired) => Phase::Unauthenticated,
        _ => phase,
    }
}

/// How a run goes on after `failure`: an expired session is reported to the
/// run as an event, and the run logs in again; anything else ends the run.
pub fn recover(failure: Failure) -> (event: Option<Event>)
    ensures
        event is Some <==> failure == Failure::AuthExpired,
        event is Some ==> event == Some(Event::AuthExpired),
{
    match failure {
        Failure::AuthExpired => Some(Event::AuthExpired),
        _ => None,
    }
}

/// What the caller has to do in `phase`.
pub fn action(phase: Phase) -> (a: Action)
    ensures
        a == match phase {
            Phase::Unauthenticated => Action::Login,
            Phase::Authenticated => Action::StartListing,
            Phase::Enumerating => Action::ReadListing,
            Phase::Downloading => Action::Download,
            Phase::Done => Action::Stop,
        },
        a == Action::Stop <==> phase == Phase::Done,
{
    match phase {
        Phase::Unauthenticated => Action::Login,
        Phase::Authenticated => Action::StartListing,
        Phase::Enumerating => Action::ReadListing,
        Phase::Downloading => Action::Download,
        Phase::Done => Action::Stop,
    }
}

/// A run that starts without a session stands in `Done` exactly when exactly
/// one download pass has gone through to its end, and in no other case has any
/// pass done so: an expired session never completes a pass, and nothing
/// follows the one that completes.
pub proof fn lemma_done_iff_pass_completed(events: Seq<Event>)
    ensures
        phase_after(Phase::Unauthenticated, events) == Phase::Done <==> completed_passes(
            Phase::Unauthenticated,
            events,
        ) == 1,
        completed_passes(Phase::Unauthenticated, events) <= 1,
    decreases events.len(),
{
    if events.len() > 0 {
        lemma_done_iff_pass_completed(events.drop_last());
    }
}

/// `Done` is final: no event leads out of it.
pub proof fn lemma_done_is_final(events: Seq<Event>)
    ensures
        phase_after(Phase::Done, events) == Phase::Done,
    decreases events.len(),
{
    if events.len() > 0 {
        lemma_done_is_final(events.drop_last());
    }
}

} // verus!
