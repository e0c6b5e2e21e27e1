//! Refusing unsafe kills, and reporting the outcome of killing several
//! processes.
use vstd::prelude::*;
use crate::model::Ident;
use crate::text::{chars_of, contains_chars, contains_seq, dec_i64, dec_int, push_all, push_str, string_of};

verus! {

/// Error type for kill operation failures.
#[derive(Debug)]
pub enum KillError {
    InvalidPid(i32),
    RefusePid1,
    RefuseSelf,
    MissingIdentity,
    IdentityMismatch,
    System(String),
}

/// The text of a kill error.
pub open spec fn kill_error_text(e: KillError) -> Seq<char> {
    match e {
        KillError::InvalidPid(pid) => "invalid pid "@ + dec_int(pid as int),
        KillError::RefusePid1 => "refusing to kill pid 1"@,
        KillError::RefuseSelf => "refusing to kill self"@,
        KillError::MissingIdentity => "missing process identity; refusing to kill"@,
        KillError::IdentityMismatch => "process identity changed (pid reused?)"@,
        KillError::System(s) => s@,
    }
}

impl KillError {
    /// The message of the error.
    pub fn message(&self) -> (r: String)
        ensures
            r@ == kill_error_text(*self),
    {
        match self {
            KillError::InvalidPid(pid) => {
                let mut v: Vec<char> = Vec::new();
                push_str(&mut v, "invalid pid ");
                let d = dec_i64(*pid as i64);
                push_all(&mut v, &d);
                string_of(v.as_slice())
            },
            KillError::RefusePid1 => string_of(chars_of("refusing to kill pid 1").as_slice()),
            KillError::RefuseSelf => string_of(chars_of("refusing to kill self").as_slice()),
            KillError::MissingIdentity => string_of(
                chars_of("missing process identity; refusing to kill").as_slice(),
            ),
            KillError::IdentityMismatch => string_of(
                chars_of("process identity changed (pid reused?)").as_slice(),
            ),
            KillError::System(s) => string_of(chars_of(s.as_str()).as_slice()),
        }
    }
}

/// The error, if any, for killing `pid` when the current process is
/// `self_pid`: no pid, pid 1 and the current process are refused.
pub open spec fn pid_refusal(pid: i32, self_pid: u32) -> Option<KillError> {
    if pid <= 0 {
        Some(KillError::InvalidPid(pid))
    } else if pid == 1 {
        Some(KillError::RefusePid1)
    } else if pid == self_pid as i32 {
        Some(KillError::RefuseSelf)
    } else {
        None
    }
}

/// Verifies that a PID is valid and safe to kill; `self_pid` is the id of
/// the current process.
pub fn check_kill_pid(pid: i32, self_pid: u32) -> (r: Result<(), KillError>)
    ensures
        match pid_refusal(pid, self_pid) {
            Some(e) => r == Err::<(), KillError>(e),
            None => r is Ok,
        },
{
    if pid <= 0 {
        return Err(KillError::InvalidPid(pid));
    }
    if pid == 1 {
        return Err(KillError::RefusePid1);
    }
    if pid == self_pid as i32 {
        return Err(KillError::RefuseSelf);
    }
    Ok(())
}

/// Verifies that process identity is valid before killing: the pid must be
/// safe to kill and the start token known.
pub fn require_ident(id: Ident, self_pid: u32) -> (r: Result<(), KillError>)
    ensures
        match pid_refusal(id.pid, self_pid) {
            Some(e) => r == Err::<(), KillError>(e),
            None => if id.start == 0 {
                r == Err::<(), KillError>(KillError::MissingIdentity)
            } else {
                r is Ok
            },
        },
{
    check_kill_pid(id.pid, self_pid)?;
    if id.start == 0 {
        return Err(KillError::MissingIdentity);
    }
    Ok(())
}

/// Compares the start token read now with the one recorded: an error in
/// reading is passed on, a different token means the pid was reused.
pub fn verify_start(id: Ident, current: Result<u64, KillError>) -> (r: Result<(), KillError>)
    ensures
        match current {
            Err(e) => r == Err::<(), KillError>(e),
            Ok(t) => if t != id.start {
                r == Err::<(), KillError>(KillError::IdentityMismatch)
            } else {
                r is Ok
            },
        },
{
    let cur = current?;
    if cur != id.start {
        return Err(KillError::IdentityMismatch);
    }
    Ok(())
}

/// The error says that the process no longer exists.
pub open spec fn is_esrch_error(e: KillError) -> bool {
    match e {
        KillError::System(s) => contains_seq(s@, "No such process"@) || contains_seq(s@, "ESRCH"@),
        _ => false,
    }
}

/// Whether a kill failed only because the process was already gone.
pub fn is_esrch(e: &KillError) -> (r: bool)
    ensures
        r == is_esrch_error(*e),
{
    match e {
        KillError::System(s) => {
            let t = chars_of(s.as_str());
            contains_chars(&t, &chars_of("No such process")) || contains_chars(
                &t,
                &chars_of("ESRCH"),
            )
        },
        _ => false,
    }
}

/// Where a kill sequence stands: what it waits for next.
#[derive(Clone, Copy, PartialEq, Eq, Structural, Debug)]
pub enum KillPhase {
    /// Nothing done yet; waiting for [`KillEvent::Begin`].
    Start,
    /// Waiting for the start token read before SIGTERM.
    CheckBeforeTerm,
    /// Waiting for the outcome of SIGTERM.
    TermSent,
    /// Waiting for a start token read within the grace period, or word that
    /// the period is over.
    Polling,
    /// Waiting for the pause between two reads to end.
    Sleeping,
    /// Waiting for the start token read before SIGKILL.
    CheckBeforeKill,
    /// Waiting for the outcome of SIGKILL.
    KillSent,
    /// The sequence is over.
    Done,
}

/// What the caller reports to the kill sequence.
pub enum KillEvent {
    /// Start the sequence.
    Begin,
    /// The start token of the pid, read now.
    Token(Result<u64, KillError>),
    /// The outcome of sending the signal asked for.
    Signalled(Result<(), KillError>),
    /// The start token read within the grace period of two seconds after
    /// SIGTERM, or `None` when the period is over.
    Polled(Option<Result<u64, KillError>>),
    /// The pause of 50 ms asked for is over.
    Slept,
}

/// The work that the kill sequence asks of the caller.
pub enum KillAction {
    /// Read the start token of the pid and report it ([`KillEvent::Token`]).
    ReadToken,
    /// Send SIGTERM and report the outcome ([`KillEvent::Signalled`]).
    SendTerm,
    /// Within two seconds of SIGTERM, read the start token; report it, or
    /// that the time is over ([`KillEvent::Polled`]).
    PollToken,
    /// Pause 50 ms and report it ([`KillEvent::Slept`]).
    Sleep,
    /// Send SIGKILL and report the outcome ([`KillEvent::Signalled`]).
    SendKill,
    /// The sequence is over with this result.
    Finish(Result<(), KillError>),
    /// The event was not the one awaited; nothing to do.
    Nothing,
}

/// The checks before a signal: the pid may be killed, its start token is
/// known, and the token read now (`current`) is that token.
pub open spec fn signal_check(id: Ident, self_pid: u32, current: Result<u64, KillError>) -> Result<(), KillError> {
    match pid_refusal(id.pid, self_pid) {
        Some(e) => Err(e),
        None => if id.start == 0 {
            Err(KillError::MissingIdentity)
        } else {
            match current {
                Err(e) => Err(e),
                Ok(t) => if t != id.start {
                    Err(KillError::IdentityMismatch)
                } else {
                    Ok(())
                },
            }
        },
    }
}

/// The end of a sequence on an error: a process that no longer exists
/// counts as killed.
pub open spec fn ended(e: KillError) -> KillAction {
    if is_esrch_error(e) {
        KillAction::Finish(Ok(()))
    } else {
        KillAction::Finish(Err(e))
    }
}

/// The kill sequence: check the identity, send SIGTERM after checking the
/// start token, read the token every 50 ms for two seconds and stop as soon
/// as it differs (the process is gone), then send SIGKILL after checking the
/// token again. A process that no longer exists when signalled counts as
/// killed; any other failure ends the sequence with its error.
pub open spec fn kill_transition(id: Ident, self_pid: u32, phase: KillPhase, event: KillEvent) -> (
    KillPhase,
    KillAction,
) {
    match phase {
        KillPhase::Start => match event {
            KillEvent::Begin => match pid_refusal(id.pid, self_pid) {
                Some(e) => (KillPhase::Done, KillAction::Finish(Err(e))),
                None => if id.start == 0 {
                    (KillPhase::Done, KillAction::Finish(Err(KillError::MissingIdentity)))
                } else {
                    (KillPhase::CheckBeforeTerm, KillAction::ReadToken)
                },
            },
            _ => (phase, KillAction::Nothing),
        },
        KillPhase::CheckBeforeTerm => match event {
            KillEvent::Token(t) => match signal_check(id, self_pid, t) {
                Ok(_) => (KillPhase::TermSent, KillAction::SendTerm),
                Err(e) => (KillPhase::Done, ended(e)),
            },
            _ => (phase, KillAction::Nothing),
        },
        KillPhase::TermSent => match event {
            KillEvent::Signalled(o) => match o {
                Ok(_) => (KillPhase::Polling, KillAction::PollToken),
                Err(e) => (KillPhase::Done, ended(e)),
            },
            _ => (phase, KillAction::Nothing),
        },
        KillPhase::Polling => match event {
            KillEvent::Polled(p) => match p {
                Some(t) => if t == Ok::<u64, KillError>(id.start) {
                    (KillPhase::Sleeping, KillAction::Sleep)
                } else {
                    (KillPhase::Done, KillAction::Finish(Ok(())))
                },
                None => (KillPhase::CheckBeforeKill, KillAction::ReadToken),
            },
            _ => (phase, KillAction::Nothing),
        },
        KillPhase::Sleeping => match event {
            KillEvent::Slept => (KillPhase::Polling, KillAction::PollToken),
            _ => (phase, KillAction::Nothing),
        },
        KillPhase::CheckBeforeKill => match event {
            KillEvent::Token(t) => match signal_check(id, self_pid, t) {
                Ok(_) => (KillPhase::KillSent, KillAction::SendKill),
                Err(e) => (KillPhase::Done, ended(e)),
            },
            _ => (phase, KillAction::Nothing),
        },
        KillPhase::KillSent => match event {
            KillEvent::Signalled(o) => match o {
                Ok(_) => (KillPhase::Done, KillAction::Finish(Ok(()))),
                Err(e) => (KillPhase::Done, ended(e)),
            },
            _ => (phase, KillAction::Nothing),
        },
        KillPhase::Done => (phase, KillAction::Nothing),
    }
}

/// The event reports an error saying that the process no longer exists.
pub open spec fn reports_gone(event: KillEvent) -> bool {
    match event {
        KillEvent::Token(Err(e)) => is_esrch_error(e),
        KillEvent::Signalled(Err(e)) => is_esrch_error(e),
        _ => false,
    }
}

/// A kill sequence succeeds only when the process was signalled or is gone:
/// after SIGKILL was delivered, when the start token changed or could not be
/// read during the grace period, or when an error says the process no longer
/// exists. A signal that fails for any other reason ends the sequence with
/// that error, and a refused identity ends it with the refusal.
pub proof fn law_kill_outcomes(id: Ident, self_pid: u32, phase: KillPhase, event: KillEvent)
    ensures
        kill_transition(id, self_pid, phase, event).1 == KillAction::Finish(Ok(())) ==> (phase
            == KillPhase::KillSent && (event matches KillEvent::Signalled(Ok(_)))) || (phase
            == KillPhase::Polling && (event matches KillEvent::Polled(Some(t)) && t != Ok::<
            u64,
            KillError,
        >(id.start))) || reports_gone(event),
        (phase == KillPhase::TermSent || phase == KillPhase::KillSent) && (event matches KillEvent::Signalled(
            Err(e),
        ) && !is_esrch_error(e)) ==> kill_transition(id, self_pid, phase, event) == (
            KillPhase::Done,
            KillAction::Finish(Err(event->Signalled_0->Err_0)),
        ),
        phase == KillPhase::Start && event == KillEvent::Begin && pid_refusal(id.pid, self_pid)
            is Some ==> kill_transition(id, self_pid, phase, event) == (
            KillPhase::Done,
            KillAction::Finish(Err(pid_refusal(id.pid, self_pid)->0)),
        ),
{
}

fn ended_exec(e: KillError) -> (r: KillAction)
    ensures
        r == ended(e),
{
    if is_esrch(&e) {
        KillAction::Finish(Ok(()))
    } else {
        KillAction::Finish(Err(e))
    }
}

fn signal_check_exec(id: Ident, self_pid: u32, current: Result<u64, KillError>) -> (r: Result<(), KillError>)
    ensures
        r == signal_check(id, self_pid, current),
{
    match require_ident(id, self_pid) {
        Err(e) => Err(e),
        Ok(_) => match verify_start(id, current) {
            Ok(_) => Ok(()),
            Err(e) => Err(e),
        },
    }
}

/// One step of the kill sequence of the process `id` (`self_pid` is the id
/// of the current process): from the phase and the event the caller
/// reports, the next phase and the work to do. SIGTERM and SIGKILL are only
/// ever asked for right after a read of the start token that found it
/// unchanged, for a pid that may be killed.
pub fn kill_next(id: Ident, self_pid: u32, phase: KillPhase, event: KillEvent) -> (r: (
    KillPhase,
    KillAction,
))
    ensures
        r == kill_transition(id, self_pid, phase, event),
        (r.1 is SendTerm || r.1 is SendKill) ==> (event matches KillEvent::Token(Ok(t)) && t
            == id.start && pid_refusal(id.pid, self_pid) is None && id.start != 0),
{
    match phase {
        KillPhase::Start => match event {
            KillEvent::Begin => match require_ident(id, self_pid) {
                Err(e) => (KillPhase::Done, KillAction::Finish(Err(e))),
                Ok(()) => (KillPhase::CheckBeforeTerm, KillAction::ReadToken),
            },
            _ => (phase, KillAction::Nothing),
        },
        KillPhase::CheckBeforeTerm => match event {
            KillEvent::Token(t) => match signal_check_exec(id, self_pid, t) {
                Ok(()) => (KillPhase::TermSent, KillAction::SendTerm),
                Err(e) => (KillPhase::Done, ended_exec(e)),
            },
            _ => (phase, KillAction::Nothing),
        },
        KillPhase::TermSent => match event {
            KillEvent::Signalled(o) => match o {
                Ok(()) => (KillPhase::Polling, KillAction::PollToken),
                Err(e) => (KillPhase::Done, ended_exec(e)),
            },
            _ => (phase, KillAction::Nothing),
        },
        KillPhase::Polling => match event {
            KillEvent::Polled(p) => match p {
                Some(Ok(v)) => if v == id.start {
                    (KillPhase::Sleeping, KillAction::Sleep)
                } else {
                    (KillPhase::Done, KillAction::Finish(Ok(())))
                },
                Some(Err(_)) => (KillPhase::Done, KillAction::Finish(Ok(()))),
                None => (KillPhase::CheckBeforeKill, KillAction::ReadToken),
            },
            _ => (phase, KillAction::Nothing),
        },
        KillPhase::Sleeping => match event {
            KillEvent::Slept => (KillPhase::Polling, KillAction::PollToken),
            _ => (phase, KillAction::Nothing),
        },
        KillPhase::CheckBeforeKill => match event {
            KillEvent::Token(t) => match signal_check_exec(id, self_pid, t) {
                Ok(()) => (KillPhase::KillSent, KillAction::SendKill),
                Err(e) => (KillPhase::Done, ended_exec(e)),
            },
            _ => (phase, KillAction::Nothing),
        },
        KillPhase::KillSent => match event {
            KillEvent::Signalled(o) => match o {
                Ok(()) => (KillPhase::Done, KillAction::Finish(Ok(()))),
                Err(e) => (KillPhase::Done, ended_exec(e)),
            },
            _ => (phase, KillAction::Nothing),
        },
        KillPhase::Done => (phase, KillAction::Nothing),
    }
}

/// The check before terminating a process at once (as on Windows): the
/// start token read now (`current`) must be the recorded one; an error in
/// reading it counts as a changed identity.
pub fn same_process(id: Ident, current: Result<u64, KillError>) -> (r: Result<(), KillError>)
    ensures
        current == Ok::<u64, KillError>(id.start) ==> r is Ok,
        current != Ok::<u64, KillError>(id.start) ==> r == Err::<(), KillError>(
            KillError::IdentityMismatch,
        ),
{
    match current {
        Ok(t) => if t == id.start {
            Ok(())
        } else {
            Err(KillError::IdentityMismatch)
        },
        Err(_) => Err(KillError::IdentityMismatch),
    }
}

/// The report line of one failed kill.
pub open spec fn failure_line(id: Ident, e: KillError) -> Seq<char> {
    "pid "@ + dec_int(id.pid as int) + ": "@ + kill_error_text(e)
}

/// The report lines of the failed kills, in order.
pub open spec fn failure_lines(ids: Seq<Ident>, outcomes: Seq<Result<(), KillError>>) -> Seq<
    Seq<char>,
>
    decreases ids.len(),
{
    if ids.len() == 0 || outcomes.len() == 0 {
        seq![]
    } else {
        let rest = failure_lines(ids.drop_last(), outcomes.drop_last());
        match outcomes.last() {
            Ok(_) => rest,
            Err(e) => rest.push(failure_line(ids.last(), e)),
        }
    }
}

/// Lines joined with newlines.
pub open spec fn join_lines(lines: Seq<Seq<char>>) -> Seq<char>
    decreases lines.len(),
{
    if lines.len() == 0 {
        seq![]
    } else if lines.len() == 1 {
        lines[0]
    } else {
        join_lines(lines.drop_last()) + seq!['\n'] + lines.last()
    }
}

/// Kills all specified processes, continuing on error and joining failures:
/// `outcomes[k]` is what killing `ids[k]` gave. Succeeds when every kill
/// did; otherwise the error holds one line `pid <pid>: <error>` per failure.
pub fn kill_all(ids: &[Ident], outcomes: &[Result<(), KillError>]) -> (r: Result<(), String>)
    requires
        ids@.len() == outcomes@.len(),
    ensures
        failure_lines(ids@, outcomes@).len() == 0 ==> r is Ok,
        failure_lines(ids@, outcomes@).len() > 0 ==> (r matches Err(m) && m@ == join_lines(
            failure_lines(ids@, outcomes@),
        )),
{
    let mut text: Vec<char> = Vec::new();
    let mut count: usize = 0;
    let mut i: usize = 0;
    while i < ids.len()
        invariant
            i <= ids@.len() == outcomes@.len(),
            count == failure_lines(ids@.take(i as int), outcomes@.take(i as int)).len(),
            text@ == join_lines(failure_lines(ids@.take(i as int), outcomes@.take(i as int))),
            count <= i,
        decreases ids.len() - i,
    {
        let ghost before = failure_lines(ids@.take(i as int), outcomes@.take(i as int));
        assert(ids@.take(i + 1).drop_last() =~= ids@.take(i as int));
        assert(outcomes@.take(i + 1).drop_last() =~= outcomes@.take(i as int));
        match &outcomes[i] {
            Ok(_) => {},
            Err(e) => {
                if count > 0 {
                    text.push('\n');
                }
                push_str(&mut text, "pid ");
                let d = dec_i64(ids[i].pid as i64);
                push_all(&mut text, &d);
                push_str(&mut text, ": ");
                let m = e.message();
                push_str(&mut text, m.as_str());
                let ghost line = failure_line(ids@[i as int], *e);
                assert(before.push(line).drop_last() =~= before);
                if count > 0 {
                    assert(text@ =~= join_lines(before) + seq!['\n'] + line);
                } else {
                    assert(text@ =~= line);
                }
                count = count + 1;
            },
        }
        i = i + 1;
    }
    assert(ids@.take(ids.len() as int) =~= ids@);
    assert(outcomes@.take(ids.len() as int) =~= outcomes@);
    if count == 0 {
        Ok(())
    } else {
        Err(string_of(text.as_slice()))
    }
}

} // verus!
