use limusic::decks::{
    enqueue_route, idle_deck, mpv_log_level, DeckEvent, DeckReport, DeckState, EnqueueRoute,
    MpvLogLevel, Preload, Crossfade, deferred_preload,
};

#[test]
fn a_late_load_of_a_cancelled_preload_is_not_faded_into() {
    let mut p = Preload::new();
    p.arm();
    assert!(!p.cancel());
    p.file_loaded(false);
    assert!(!p.loaded);
    // Armed again and left alone, the next load is ready.
    p.arm();
    p.file_loaded(false);
    assert!(p.loaded);
    // The live deck's own loads say nothing about the preload.
    let mut q = Preload::new();
    q.file_loaded(true);
    assert!(!q.loaded);
    // A cancel reports the waiting track so it can be stopped.
    assert!(p.cancel());
    assert!(!p.loaded);
}

#[test]
fn playing_follows_pause_and_idle() {
    let mut p = Preload::new();
    let mut d = DeckState::new();
    let o = d.on_event(DeckEvent::IdleActive(false), true, &mut p);
    assert_eq!(o.playing_now, Some(true));
    let o = d.on_event(DeckEvent::Other, true, &mut p);
    assert_eq!(o.playing_now, None);
    let o = d.on_event(DeckEvent::Pause(true), true, &mut p);
    assert_eq!(o.playing_now, Some(false));
    assert!(!d.may_crossfade(true));
    let o = d.on_event(DeckEvent::Pause(false), false, &mut p);
    // The idle deck changes its own state but tells nobody.
    assert_eq!(o.playing_now, None);
    assert!(d.playing);
    assert!(d.may_crossfade(true));
    assert!(!d.may_crossfade(false));
}

#[test]
fn only_the_live_deck_reports_track_ends_and_failures() {
    let mut p = Preload::new();
    let mut d = DeckState::new();
    assert_eq!(d.on_event(DeckEvent::EndFile { eof: true }, true, &mut p).report, Some(DeckReport::TrackEnded));
    assert_eq!(d.on_event(DeckEvent::EndFile { eof: false }, true, &mut p).report, None);
    assert_eq!(d.on_event(DeckEvent::EndFile { eof: true }, false, &mut p).report, None);
    assert_eq!(d.on_event(DeckEvent::Failed, true, &mut p).report, Some(DeckReport::TrackFailed));
    // A failure on the idle deck is a dead preload: dropped, and nothing waits there any more.
    p.arm();
    p.file_loaded(false);
    assert!(p.loaded);
    assert_eq!(d.on_event(DeckEvent::Failed, false, &mut p).report, None);
    assert!(!p.loaded);
}

#[test]
fn decks_and_log_levels() {
    assert_eq!(idle_deck(0), 1);
    assert_eq!(idle_deck(1), 0);
    assert_eq!(mpv_log_level("fatal"), MpvLogLevel::Error);
    assert_eq!(mpv_log_level("error"), MpvLogLevel::Error);
    assert_eq!(mpv_log_level("warn"), MpvLogLevel::Warn);
    assert_eq!(mpv_log_level("v"), MpvLogLevel::Info);
}

#[test]
fn a_queued_track_goes_where_it_can_fade_in() {
    assert_eq!(enqueue_route(0, true), EnqueueRoute::Append);
    assert_eq!(enqueue_route(5000, true), EnqueueRoute::Hold);
    assert_eq!(enqueue_route(5000, false), EnqueueRoute::Preload);
}

#[test]
fn the_live_deck_forwards_positions_and_durations() {
    let mut p = Preload::new();
    let mut d = DeckState::new();
    assert_eq!(d.on_event(DeckEvent::Position, true, &mut p).report, Some(DeckReport::Position));
    assert_eq!(d.on_event(DeckEvent::Duration, true, &mut p).report, Some(DeckReport::Duration));
    assert_eq!(d.on_event(DeckEvent::Position, false, &mut p).report, None);
    assert_eq!(d.on_event(DeckEvent::Other, true, &mut p).report, None);
}

#[test]
fn playing_reports_alternate_from_true() {
    let mut p = Preload::new();
    let mut d = DeckState::new();
    let events = [
        DeckEvent::Pause(false),
        DeckEvent::IdleActive(false),
        DeckEvent::Position,
        DeckEvent::Pause(true),
        DeckEvent::Pause(true),
        DeckEvent::Failed,
        DeckEvent::Pause(false),
        DeckEvent::IdleActive(true),
    ];
    let reports: Vec<bool> =
        events.iter().filter_map(|e| d.on_event(*e, true, &mut p).playing_now).collect();
    assert_eq!(reports, vec![true, false, true, false]);
}

#[test]
fn a_crossfade_swaps_decks_and_hands_back_what_waited() {
    let mut p = Preload::new();
    p.arm();
    p.file_loaded(false);
    let mut c = Crossfade::new();
    let g = c.begin(&mut p);
    assert_eq!(c.active, 1);
    assert!(c.fading);
    assert!(!p.loaded);
    assert!(c.hold("next-url".into()));
    assert!(c.still_current(g));
    assert_eq!(c.finish(), Some("next-url".to_string()));
    assert!(!c.fading);
    assert_eq!(c.finish(), None);
    assert!(!c.hold("later".into()));
}

#[test]
fn a_cancelled_fade_is_noticed() {
    let mut p = Preload::new();
    let mut c = Crossfade::new();
    assert!(!c.cancel());
    let g = c.begin(&mut p);
    assert!(c.cancel());
    assert!(!c.still_current(g));
    assert_eq!(deferred_preload(Some("u".into()), 5000), Some("u".to_string()));
    assert_eq!(deferred_preload(Some("u".into()), 0), None);
}
