use vstd::prelude::*;

use crate::errors::AgentError;
use crate::executor::StepOutcome;
use crate::inspect;
use crate::inspect::EntryRecord;
use crate::timestamp::Timestamp;

verus! {

/// The external step the orchestrator asks its caller to perform next:
/// transfer the certificate chain file, transfer the private key file, or
/// execute the remote reload command.
#[derive(Clone, Copy, Debug, PartialEq, Eq, Structural)]
pub enum RemoteStep {
    TransferChain,
    TransferKey,
    ExecReload,
}

/// Where one run stands.  The three `Await` phases name the remote step
/// whose outcome the run waits for; the rest are terminal.
#[derive(Clone, Copy, Debug, PartialEq, Eq, Structural)]
pub enum Phase {
    AwaitChain,
    AwaitKey,
    AwaitReload,
    Synced,
    UpToDate,
    Failed,
}

/// One run of the agent from the freshness comparison on: the inspected
/// local certificate instant, the last-synced instant the run started
/// with (replaced by the new instant once all remote steps succeed), and
/// the phase the run stands in.
#[derive(Clone, Copy, Debug, PartialEq, Eq, Structural)]
pub struct SyncSession {
    pub local: Timestamp,
    pub cache: Timestamp,
    pub phase: Phase,
}

/// The freshness decision: a run synchronizes exactly when the local
/// certificate is strictly newer than the last-synced instant.
pub open spec fn spec_start(local: Timestamp, cache: Timestamp) -> SyncSession {
    SyncSession {
        local,
        cache,
        phase: if local.micros > cache.micros {
            Phase::AwaitChain
        } else {
            Phase::UpToDate
        },
    }
}

/// One transition of the run: success advances to the next remote step,
/// any failure of a pending step ends the run as `Failed`, and terminal
/// phases never move.  The two instants never change here.
pub open spec fn spec_step(s: SyncSession, o: StepOutcome) -> SyncSession {
    if o is Succeeded {
        match s.phase {
            Phase::AwaitChain => SyncSession { phase: Phase::AwaitKey, ..s },
            Phase::AwaitKey => SyncSession { phase: Phase::AwaitReload, ..s },
            Phase::AwaitReload => SyncSession { phase: Phase::Synced, ..s },
            _ => s,
        }
    } else {
        match s.phase {
            Phase::AwaitChain => SyncSession { phase: Phase::Failed, ..s },
            Phase::AwaitKey => SyncSession { phase: Phase::Failed, ..s },
            Phase::AwaitReload => SyncSession { phase: Phase::Failed, ..s },
            _ => s,
        }
    }
}

/// The remote step a phase waits for; `None` in every terminal phase.
pub open spec fn spec_next_step(s: SyncSession) -> Option<RemoteStep> {
    match s.phase {
        Phase::AwaitChain => Some(RemoteStep::TransferChain),
        Phase::AwaitKey => Some(RemoteStep::TransferKey),
        Phase::AwaitReload => Some(RemoteStep::ExecReload),
        _ => None,
    }
}

/// Recording the new last-synced instant after a fully successful run.
pub open spec fn spec_commit(s: SyncSession, now: Timestamp) -> SyncSession {
    SyncSession { cache: now, ..s }
}

/// An absent or unreadable cache reads as the sentinel minimum, so a first
/// run always judges the local certificate newer.
pub open spec fn spec_cache_or_sentinel(cached: Option<Timestamp>) -> Timestamp {
    match cached {
        Some(t) => t,
        None => Timestamp { micros: i64::MIN },
    }
}

/// How a run begins: a failed inspection aborts it before any remote
/// action, and otherwise the freshness comparison decides.
pub open spec fn spec_begin(
    inspection: Result<Timestamp, AgentError>,
    cached: Option<Timestamp>,
) -> Result<SyncSession, AgentError> {
    match inspection {
        Ok(local) => Ok(spec_start(local, spec_cache_or_sentinel(cached))),
        Err(e) => Err(e),
    }
}

impl SyncSession {
    /// Compare the inspected local instant against the cached one and
    /// open the run in the phase that comparison dictates.
    pub fn start(local: Timestamp, cache: Timestamp) -> (s: SyncSession)
        ensures
            s == spec_start(local, cache),
    {
        if local.newer_than(&cache) {
            SyncSession { local, cache, phase: Phase::AwaitChain }
        } else {
            SyncSession { local, cache, phase: Phase::UpToDate }
        }
    }

    /// The remote step the caller must perform now, if any.
    pub fn next_step(&self) -> (r: Option<RemoteStep>)
        ensures
            r == spec_next_step(*self),
    {
        match self.phase {
            Phase::AwaitChain => Some(RemoteStep::TransferChain),
            Phase::AwaitKey => Some(RemoteStep::TransferKey),
            Phase::AwaitReload => Some(RemoteStep::ExecReload),
            _ => None,
        }
    }

    /// Feed back the outcome of the step last asked for.
    pub fn record_outcome(&mut self, o: StepOutcome)
        ensures
            *final(self) == spec_step(*old(self), o),
    {
        match o {
            StepOutcome::Succeeded => {
                match self.phase {
                    Phase::AwaitChain => {
                        self.phase = Phase::AwaitKey;
                    },
                    Phase::AwaitKey => {
                        self.phase = Phase::AwaitReload;
                    },
                    Phase::AwaitReload => {
                        self.phase = Phase::Synced;
                    },
                    _ => {},
                }
            },
            _ => {
                match self.phase {
                    Phase::AwaitChain => {
                        self.phase = Phase::Failed;
                    },
                    Phase::AwaitKey => {
                        self.phase = Phase::Failed;
                    },
                    Phase::AwaitReload => {
                        self.phase = Phase::Failed;
                    },
                    _ => {},
                }
            },
        }
    }

    /// Record the given instant as the new last-synced one; only a run in
    /// which every remote step succeeded may do so.
    pub fn commit_instant(&mut self, now: Timestamp)
        requires
            old(self).phase is Synced,
        ensures
            *final(self) == spec_commit(*old(self), now),
    {
        self.cache = now;
    }

    /// Record the current wall-clock instant as the new last-synced one.
    /// The clock promises nothing of its value, so nothing more is said of
    /// the new instant itself.
    pub fn commit_now(&mut self)
        requires
            old(self).phase is Synced,
        ensures
            final(self).local == old(self).local,
            final(self).phase == old(self).phase,
    {
        let mut t = self.cache;
        t.bump();
        self.commit_instant(t);
    }
}

/// Open the run from the inspection verdict and the loaded cache.
pub fn begin_run(inspection: Result<Timestamp, AgentError>, cached: Option<Timestamp>) -> (r:
    Result<SyncSession, AgentError>)
    ensures
        r == spec_begin(inspection, cached),
{
    match inspection {
        Ok(local) => {
            let cache = match cached {
                Some(t) => t,
                None => Timestamp::new(),
            };
            Ok(SyncSession::start(local, cache))
        },
        Err(e) => Err(e),
    }
}

/// Law: no transition moves the inspected instant or the cached instant;
/// the cached instant changes only at the final commit of a fully
/// successful run.
pub proof fn lemma_step_preserves_instants(s: SyncSession, o: StepOutcome)
    ensures
        spec_step(s, o).local == s.local,
        spec_step(s, o).cache == s.cache,
{
}

/// Law: when the local certificate is newer than the cached instant, the
/// run asks for exactly the two transfers and then the one remote
/// execution, in that order; the cached instant is untouched throughout,
/// and once all three steps succeed the run is synced, asks for nothing
/// more, and commits an instant no older than the local certificate.
pub proof fn lemma_newer_certificate_syncs(local: Timestamp, cache: Timestamp, now: Timestamp)
    requires
        local.micros > cache.micros,
        now.micros >= local.micros,
    ensures
        spec_next_step(spec_start(local, cache)) == Some(RemoteStep::TransferChain),
        spec_next_step(spec_step(spec_start(local, cache), StepOutcome::Succeeded)) == Some(
            RemoteStep::TransferKey,
        ),
        spec_next_step(
            spec_step(
                spec_step(spec_start(local, cache), StepOutcome::Succeeded),
                StepOutcome::Succeeded,
            ),
        ) == Some(RemoteStep::ExecReload),
        spec_step(
            spec_step(
                spec_step(spec_start(local, cache), StepOutcome::Succeeded),
                StepOutcome::Succeeded,
            ),
            StepOutcome::Succeeded,
        ).phase is Synced,
        spec_next_step(
            spec_step(
                spec_step(
                    spec_step(spec_start(local, cache), StepOutcome::Succeeded),
                    StepOutcome::Succeeded,
                ),
                StepOutcome::Succeeded,
            ),
        ) is None,
        spec_step(
            spec_step(
                spec_step(spec_start(local, cache), StepOutcome::Succeeded),
                StepOutcome::Succeeded,
            ),
            StepOutcome::Succeeded,
        ).cache == cache,
        spec_commit(
            spec_step(
                spec_step(
                    spec_step(spec_start(local, cache), StepOutcome::Succeeded),
                    StepOutcome::Succeeded,
                ),
                StepOutcome::Succeeded,
            ),
            now,
        ).cache == now,
        spec_commit(
            spec_step(
                spec_step(
                    spec_step(spec_start(local, cache), StepOutcome::Succeeded),
                    StepOutcome::Succeeded,
                ),
                StepOutcome::Succeeded,
            ),
            now,
        ).cache.micros >= local.micros,
{
}

/// Law: a failed pending step ends the run at once: the run is `Failed`,
/// asks for no further step, keeps the cached instant, and no later
/// outcome moves it again.  With the first transfer failing this is
/// exactly: no second transfer, no remote execution, cache unchanged.
pub proof fn lemma_failure_halts_run(s: SyncSession, o: StepOutcome)
    requires
        spec_next_step(s) is Some,
        !(o is Succeeded),
    ensures
        spec_step(s, o).phase is Failed,
        spec_next_step(spec_step(s, o)) is None,
        spec_step(s, o).cache == s.cache,
        spec_step(s, o).local == s.local,
        forall|later: StepOutcome| spec_step(spec_step(s, o), later) == spec_step(s, o),
{
}

/// Law: after a run that synchronized and committed an instant no older
/// than the local certificate, a second run with the certificate
/// unchanged judges the server up to date and performs no remote step;
/// so does every further such run.
pub proof fn lemma_second_run_up_to_date(local: Timestamp, committed: Timestamp)
    requires
        committed.micros >= local.micros,
    ensures
        spec_start(local, committed).phase is UpToDate,
        spec_next_step(spec_start(local, committed)) is None,
        forall|o: StepOutcome| spec_step(spec_start(local, committed), o) == spec_start(
            local,
            committed,
        ),
{
}

/// Law: a directory whose entries are readable but hold no certificate
/// material fails inspection as a data error, and a run begun from that
/// verdict never opens a session, so no remote action is attempted.
pub proof fn lemma_no_certificates_no_remote_action(
    entries: Seq<EntryRecord>,
    cached: Option<Timestamp>,
)
    requires
        forall|i: int|
            0 <= i < entries.len() ==> !inspect::qualifies(#[trigger] entries[i]) && !(entries[i]
                is Unreadable),
    ensures
        inspect::spec_inspect(entries) == Err::<int, AgentError>(AgentError::Data),
        spec_begin(Err(AgentError::Data), cached) == Err::<SyncSession, AgentError>(
            AgentError::Data,
        ),
{
    assert(!inspect::any_blocks(entries)) by {
        if inspect::any_blocks(entries) {
            let j = choose|j: int|
                0 <= j < entries.len() && inspect::entry_blocks(#[trigger] entries[j]);
            assert(!inspect::qualifies(entries[j]) && !(entries[j] is Unreadable));
        }
    }
    assert(!inspect::has_qualifying(entries)) by {
        if inspect::has_qualifying(entries) {
            let j = choose|j: int| 0 <= j < entries.len() && inspect::qualifies(
                #[trigger] entries[j],
            );
        }
    }
}

} // verus!
