//! The edge- and level-triggered echo server: how it hands out connection
//! tokens, what it does with each event, and what it does after each read
//! from a ready connection.

use vstd::prelude::*;

verus! {

/// The token under which the listening socket is registered.
pub const SERVER: usize = 0;

/// How connections are registered for readiness.
#[derive(Debug, Clone, Copy, PartialEq, Eq, Structural)]
pub enum ReadMode {
    /// Readiness is reported while data is waiting: one read per event is
    /// enough.
    Level,
    /// Readiness is reported once per arrival: the connection must be read
    /// until it would block.
    Edge,
}

/// The `-e` option, which selects edge-triggered mode.
pub open spec fn edge_flag() -> Seq<char> {
    seq!['-', 'e']
}

/// The mode the command line asks for: edge-triggered when the first
/// argument is `-e`, level-triggered otherwise.
pub open spec fn mode_for(args: Seq<Seq<char>>) -> ReadMode {
    if args.len() > 1 && args[1] == edge_flag() {
        ReadMode::Edge
    } else {
        ReadMode::Level
    }
}

/// Picks the read mode from the command line.
pub fn read_mode(args: &Vec<String>) -> (mode: ReadMode)
    ensures
        mode == mode_for(args.deep_view()),
        mode == ReadMode::Edge <==> (args@.len() > 1 && args@[1]@ == seq!['-', 'e']),
{
    let edge = String::from_str("-e");
    proof {
        reveal_strlit("-e");
        assert(edge@ =~= edge_flag());
    }
    if args.len() > 1 && args[1] == edge {
        ReadMode::Edge
    } else {
        ReadMode::Level
    }
}

/// Hands out the token `*current` and moves the counter past it.
pub fn next(current: &mut usize) -> (token: usize)
    requires
        *old(current) < usize::MAX,
    ensures
        token == *old(current),
        *final(current) == *old(current) + 1,
{
    let token = *current;
    *current = *current + 1;
    token
}

/// What to do with one readiness event.
#[derive(Debug, Clone, Copy, PartialEq, Eq, Structural)]
pub enum EventAction {
    /// The listener is ready: accept a connection and register it.
    Accept,
    /// A registered connection is readable: read it in the given mode.
    Read(ReadMode),
    /// Nothing to do.
    Ignore,
}

/// Decides what an event for `token` asks for: the listener's token means a
/// new connection; a registered connection that is readable is read.
pub fn on_event(token: usize, registered: bool, readable: bool, mode: ReadMode) -> (action:
    EventAction)
    ensures
        token == SERVER ==> action == EventAction::Accept,
        token != SERVER && registered && readable ==> action == EventAction::Read(mode),
        token != SERVER && !(registered && readable) ==> action == EventAction::Ignore,
{
    if token == SERVER {
        EventAction::Accept
    } else if registered && readable {
        EventAction::Read(mode)
    } else {
        EventAction::Ignore
    }
}

/// What one read from a connection gave.
#[derive(Debug, Clone, Copy, PartialEq, Eq, Structural)]
pub enum ReadOutcome {
    /// The read returned this many bytes; none means the peer closed.
    Read(usize),
    /// No data is waiting now.
    WouldBlock,
    /// A signal interrupted the read before any data came.
    Interrupted,
    /// Any other error.
    Failed,
}

/// What to do after one read.
#[derive(Debug, Clone, Copy, PartialEq, Eq, Structural)]
pub enum ReadStep {
    /// Read again without reporting anything.
    Retry,
    /// Report the data, then read again.
    ReportAndContinue,
    /// Report the data and stop reading until the next event.
    ReportAndStop,
    /// Stop reading until the next event.
    Stop,
    /// The peer closed: report it, deregistering the connection first when
    /// `deregister` is set, and stop.
    Closed { deregister: bool },
    /// Stop and hand the error on.
    Fail,
}

/// The step after a read in the given mode.
pub open spec fn read_step_spec(mode: ReadMode, outcome: ReadOutcome) -> ReadStep {
    match outcome {
        ReadOutcome::Read(n) => if n == 0 {
            ReadStep::Closed { deregister: mode == ReadMode::Level }
        } else if mode == ReadMode::Level {
            ReadStep::ReportAndStop
        } else {
            ReadStep::ReportAndContinue
        },
        ReadOutcome::WouldBlock => ReadStep::Stop,
        ReadOutcome::Interrupted => ReadStep::Retry,
        ReadOutcome::Failed => ReadStep::Fail,
    }
}

/// Decides what follows a read from a ready connection.
///
/// In level-triggered mode one batch of data per event is reported, since
/// the event comes again while data is waiting; a closed connection is
/// deregistered. In edge-triggered mode the connection is read until it would
/// block, since no further event comes for data already there.
pub fn read_step(mode: ReadMode, outcome: ReadOutcome) -> (step: ReadStep)
    ensures
        step == read_step_spec(mode, outcome),
        outcome matches ReadOutcome::Read(n) && n > 0 && mode == ReadMode::Level ==> step
            == ReadStep::ReportAndStop,
        outcome matches ReadOutcome::Read(n) && n > 0 && mode == ReadMode::Edge ==> step
            == ReadStep::ReportAndContinue,
        (step == ReadStep::ReportAndStop || step == ReadStep::ReportAndContinue) ==> (
        outcome matches ReadOutcome::Read(n) && n > 0),
        outcome == ReadOutcome::Read(0) ==> step == (ReadStep::Closed {
            deregister: mode == ReadMode::Level,
        }),
        outcome == ReadOutcome::WouldBlock ==> step == ReadStep::Stop,
        outcome == ReadOutcome::Interrupted ==> step == ReadStep::Retry,
        outcome == ReadOutcome::Failed ==> step == ReadStep::Fail,
{
    proof {
        lemma_data_is_reported(mode, outcome);
    }
    match outcome {
        ReadOutcome::Read(n) => {
            if n == 0 {
                ReadStep::Closed { deregister: mode == ReadMode::Level }
            } else {
                match mode {
                    ReadMode::Level => ReadStep::ReportAndStop,
                    ReadMode::Edge => ReadStep::ReportAndContinue,
                }
            }
        },
        ReadOutcome::WouldBlock => ReadStep::Stop,
        ReadOutcome::Interrupted => ReadStep::Retry,
        ReadOutcome::Failed => ReadStep::Fail,
    }
}

/// The step reads again exactly when it is a retry or a report that
/// continues.
pub open spec fn reads_again(step: ReadStep) -> bool {
    step == ReadStep::Retry || step == ReadStep::ReportAndContinue
}

/// In level-triggered mode reading never goes on after data has been
/// reported; in edge-triggered mode it goes on after every batch of data and
/// ends only when the connection would block, closes or fails. In both modes
/// an interrupted read is retried and only a closed connection is
/// deregistered, and only in level-triggered mode.
pub proof fn lemma_read_modes(outcome: ReadOutcome)
    ensures
        outcome matches ReadOutcome::Read(n) && n > 0 ==> !reads_again(
            read_step_spec(ReadMode::Level, outcome),
        ) && reads_again(read_step_spec(ReadMode::Edge, outcome)),
        !reads_again(read_step_spec(ReadMode::Edge, outcome)) <==> (outcome matches ReadOutcome::Read(
            n,
        ) && n == 0) || outcome == ReadOutcome::WouldBlock || outcome == ReadOutcome::Failed,
        outcome == ReadOutcome::Interrupted ==> read_step_spec(ReadMode::Level, outcome)
            == ReadStep::Retry && read_step_spec(ReadMode::Edge, outcome) == ReadStep::Retry,
        read_step_spec(ReadMode::Edge, outcome) != (ReadStep::Closed { deregister: true }),
{
}

/// Whatever a read returned, data that was read is reported: a read of
/// `n > 0` bytes, of any size up to the buffer's, is reported and ends the
/// handling in level-triggered mode and is reported and followed by another
/// read in edge-triggered mode; and nothing but data is ever reported. A
/// closed connection (a read of no bytes) is the only one dropped, a read
/// that would block waits for the next event, an interrupted read is
/// retried, and any other error is handed on, in both modes.
pub proof fn lemma_data_is_reported(mode: ReadMode, outcome: ReadOutcome)
    ensures
        outcome matches ReadOutcome::Read(n) && n > 0 && mode == ReadMode::Level ==> read_step_spec(
            mode,
            outcome,
        ) == ReadStep::ReportAndStop,
        outcome matches ReadOutcome::Read(n) && n > 0 && mode == ReadMode::Edge ==> read_step_spec(
            mode,
            outcome,
        ) == ReadStep::ReportAndContinue,
        (read_step_spec(mode, outcome) == ReadStep::ReportAndStop || read_step_spec(mode, outcome)
            == ReadStep::ReportAndContinue) ==> (outcome matches ReadOutcome::Read(n) && n > 0),
        outcome == ReadOutcome::Read(0) ==> read_step_spec(mode, outcome) == (ReadStep::Closed {
            deregister: mode == ReadMode::Level,
        }),
        outcome == ReadOutcome::WouldBlock ==> read_step_spec(mode, outcome) == ReadStep::Stop,
        outcome == ReadOutcome::Interrupted ==> read_step_spec(mode, outcome) == ReadStep::Retry,
        outcome == ReadOutcome::Failed ==> read_step_spec(mode, outcome) == ReadStep::Fail,
{
}

/// The command line selects edge-triggered mode exactly when its first
/// argument is `-e`.
pub proof fn lemma_mode_from_first_argument(args: Seq<Seq<char>>)
    ensures
        mode_for(args) == ReadMode::Edge <==> (args.len() > 1 && args[1] == seq!['-', 'e']),
{
}

} // verus!
