use sleep_fade::fade::FadeSession;
use sleep_fade::reconcile::{
    reconcile_signals, PlaySignal, PlaybackEventReconciler, TerminationOutcome,
};

#[test]
fn zero_volume_signal_stops_as_silence() {
    let out = reconcile_signals(vec![
        PlaySignal::VolumeChanged(800_000),
        PlaySignal::VolumeChanged(0),
        PlaySignal::EndOfStream,
    ]);
    // the end-of-stream after the terminal signal is ignored
    assert_eq!(out, Some(TerminationOutcome::SilenceReached));
}

#[test]
fn end_of_stream_stops_normally() {
    let out = reconcile_signals(vec![PlaySignal::EndOfStream]);
    assert_eq!(out, Some(TerminationOutcome::NormalEndOfStream));
}

#[test]
fn error_signal_carries_its_details() {
    let out = reconcile_signals(vec![PlaySignal::Error(String::from("disk read failed"))]);
    assert_eq!(
        out,
        Some(TerminationOutcome::PlaybackError(String::from("disk read failed")))
    );
}

#[test]
fn nonzero_volume_and_other_signals_keep_running() {
    let out = reconcile_signals(vec![
        PlaySignal::Other,
        PlaySignal::VolumeChanged(1),
        PlaySignal::VolumeChanged(999_999),
    ]);
    assert_eq!(out, None);
}

#[test]
fn first_terminal_signal_wins() {
    let out = reconcile_signals(vec![
        PlaySignal::EndOfStream,
        PlaySignal::Error(String::from("late")),
    ]);
    assert_eq!(out, Some(TerminationOutcome::NormalEndOfStream));
}

#[test]
fn machine_ignores_signals_once_stopped() {
    let mut rec = PlaybackEventReconciler::new();
    assert!(!rec.is_stopped());
    rec.observe(PlaySignal::VolumeChanged(500_000));
    assert!(!rec.is_stopped());
    rec.observe(PlaySignal::Error(String::from("boom")));
    assert!(rec.is_stopped());
    rec.observe(PlaySignal::EndOfStream);
    rec.observe(PlaySignal::VolumeChanged(0));
    assert_eq!(
        rec.into_outcome(),
        Some(TerminationOutcome::PlaybackError(String::from("boom")))
    );
}

#[test]
fn empty_delivery_never_stops() {
    let out = reconcile_signals(vec![]);
    assert_eq!(out, None);
}

#[test]
fn scheduler_silence_feeds_the_reconciler() {
    // a two-second session: the volume the scheduler emits at the target,
    // observed back as a volume-changed signal, stops the session as silence
    let s = FadeSession::new(2);
    let mut rec = PlaybackEventReconciler::new();
    rec.observe(PlaySignal::VolumeChanged(s.volume_at(1)));
    assert!(!rec.is_stopped());
    rec.observe(PlaySignal::VolumeChanged(s.volume_at(2)));
    assert_eq!(rec.into_outcome(), Some(TerminationOutcome::SilenceReached));
}
