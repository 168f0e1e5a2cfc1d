//! The termination state machine.
//!
//! One playback run is reconciled out of the signals the playback engine
//! delivers: end-of-stream stops it normally, an error stops it with the
//! error's details, and a volume-changed signal of exactly zero stops it as
//! silence reached. Every other signal leaves it running. The first terminal
//! signal decides the one outcome of the session; everything after it is
//! ignored.

use vstd::prelude::*;

verus! {

/// A signal delivered by the playback engine. Volume levels are in
/// micro-units, `crate::volume::VOLUME_UNIT` standing for full volume.
#[derive(Debug, Clone, PartialEq, Eq)]
pub enum PlaySignal {
    EndOfStream,
    Error(String),
    VolumeChanged(u64),
    Other,
}

/// The single terminal reason a playback session ended.
#[derive(Debug, Clone, PartialEq, Eq)]
pub enum TerminationOutcome {
    NormalEndOfStream,
    PlaybackError(String),
    SilenceReached,
}

/// What one signal decides while the session is running.
pub open spec fn signal_outcome(sig: PlaySignal) -> Option<TerminationOutcome> {
    match sig {
        PlaySignal::EndOfStream => Some(TerminationOutcome::NormalEndOfStream),
        PlaySignal::Error(details) => Some(TerminationOutcome::PlaybackError(details)),
        PlaySignal::VolumeChanged(v) => if v == 0 {
            Some(TerminationOutcome::SilenceReached)
        } else {
            None
        },
        PlaySignal::Other => None,
    }
}

/// The outcome of a whole delivery sequence: what the first terminal signal
/// decides, or nothing when none is terminal.
pub open spec fn first_outcome(sigs: Seq<PlaySignal>) -> Option<TerminationOutcome>
    decreases sigs.len(),
{
    if sigs.len() == 0 {
        None
    } else {
        match signal_outcome(sigs[0]) {
            Some(o) => Some(o),
            None => first_outcome(sigs.skip(1)),
        }
    }
}

/// The state machine: running until the first terminal signal, stopped with
/// its outcome from then on.
pub struct PlaybackEventReconciler {
    outcome: Option<TerminationOutcome>,
}

impl PlaybackEventReconciler {
    /// The outcome reached so far; the session runs while it is `None`.
    pub closed spec fn spec_outcome(&self) -> Option<TerminationOutcome> {
        self.outcome
    }

    /// A reconciler for a fresh session, still running.
    pub fn new() -> (r: PlaybackEventReconciler)
        ensures
            r.spec_outcome() is None,
    {
        PlaybackEventReconciler { outcome: None }
    }

    /// Whether a terminal outcome has been reached.
    pub fn is_stopped(&self) -> (b: bool)
        ensures
            b == (self.spec_outcome() is Some),
    {
        match &self.outcome {
            Some(_) => true,
            None => false,
        }
    }

    /// The outcome reached, while the machine keeps it.
    pub fn outcome(&self) -> (r: &Option<TerminationOutcome>)
        ensures
            *r == self.spec_outcome(),
    {
        &self.outcome
    }

    /// Hands the outcome out, consuming the machine.
    pub fn into_outcome(self) -> (r: Option<TerminationOutcome>)
        ensures
            r == self.spec_outcome(),
    {
        self.outcome
    }

    /// Feeds one signal. While running, the signal alone decides whether the
    /// session stops and with which outcome; once stopped, every further
    /// signal is ignored, so exactly one outcome is produced per session.
    pub fn observe(&mut self, sig: PlaySignal)
        ensures
            old(self).spec_outcome() is Some ==> *final(self) == *old(self),
            old(self).spec_outcome() is None ==> final(self).spec_outcome() == signal_outcome(
                sig,
            ),
    {
        if self.is_stopped() {
            return;
        }
        match sig {
            PlaySignal::EndOfStream => {
                self.outcome = Some(TerminationOutcome::NormalEndOfStream);
            },
            PlaySignal::Error(details) => {
                self.outcome = Some(TerminationOutcome::PlaybackError(details));
            },
            PlaySignal::VolumeChanged(v) => {
                if v == 0 {
                    self.outcome = Some(TerminationOutcome::SilenceReached);
                }
            },
            PlaySignal::Other => {},
        }
    }
}

/// Reconciles a whole delivery sequence in order: the result is what the
/// first terminal signal decides, and the signals after it have no effect.
pub fn reconcile_signals(signals: Vec<PlaySignal>) -> (r: Option<TerminationOutcome>)
    ensures
        r == first_outcome(signals@),
{
    let ghost all = signals@;
    let mut rec = PlaybackEventReconciler::new();
    let mut rest = signals;
    while rest.len() > 0
        invariant
            rec.spec_outcome() is Some ==> rec.spec_outcome() == first_outcome(all),
            rec.spec_outcome() is None ==> first_outcome(all) == first_outcome(rest@),
        decreases rest@.len(),
    {
        let ghost before = rest@;
        let sig = rest.remove(0);
        proof {
            assert(before.remove(0) =~= before.skip(1));
        }
        rec.observe(sig);
    }
    rec.into_outcome()
}

} // verus!
