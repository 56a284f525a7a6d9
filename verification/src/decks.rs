//! What the player's two decks decide as their events arrive: which deck may speak, when a track
//! counts as playing, and when the track waiting on the idle deck is ready to fade in.
//!
//! Crossfading keeps two decoders: the live deck is what the app hears, the idle one holds the
//! next track loaded and paused. The decoders, their threads and the volume ramp stay outside;
//! this module is the state they consult.

use vstd::prelude::*;
use crate::text::str_eq;

verus! {

/// The generation after `g`: a counter that wraps, so any number of cancels keep moving it on.
pub open spec fn next_gen(g: u64) -> u64 {
    if g == u64::MAX {
        0
    } else {
        (g + 1) as u64
    }
}

/// The idle deck's preload, as both decks share it. A preload is armed under the current
/// generation before its load starts; a cancel moves the generation on, so that a load already in
/// flight, finishing after the cancel, cannot mark a track nobody wants as ready.
#[derive(Debug, Clone, Copy, PartialEq, Eq, Structural)]
pub struct Preload {
    pub generation: u64,
    pub armed: u64,
    pub loaded: bool,
}

/// A preload armed under the current generation.
pub open spec fn armed(p: Preload) -> Preload {
    Preload { armed: p.generation, ..p }
}

/// A cancelled preload: the generation moves on and nothing waits on the idle deck.
pub open spec fn cancelled(p: Preload) -> Preload {
    Preload { generation: next_gen(p.generation), loaded: false, ..p }
}

/// A deck finished opening its file: the idle deck's load counts as ready when it was armed under
/// the generation still current. The live deck's own loads say nothing about the preload.
pub open spec fn after_file_loaded(p: Preload, live: bool) -> Preload {
    if !live && p.armed == p.generation {
        Preload { loaded: true, ..p }
    } else {
        p
    }
}

impl Preload {
    /// Nothing preloaded yet.
    pub fn new() -> (p: Preload)
        ensures
            p.generation == 0 && p.armed == 0 && !p.loaded,
    {
        Preload { generation: 0, armed: 0, loaded: false }
    }

    /// Arms a preload under the current generation; called before its load starts.
    pub fn arm(&mut self)
        ensures
            *final(self) == armed(*old(self)),
    {
        self.armed = self.generation;
    }

    /// Cancels the preload. Answers whether a track was waiting, which the caller then stops.
    pub fn cancel(&mut self) -> (was_loaded: bool)
        ensures
            *final(self) == cancelled(*old(self)),
            was_loaded == old(self).loaded,
    {
        let was = self.loaded;
        self.generation = if self.generation == u64::MAX {
            0
        } else {
            self.generation + 1
        };
        self.loaded = false;
        was
    }

    /// A deck reported its file open; `live` is whether it is the deck the app hears.
    pub fn file_loaded(&mut self, live: bool)
        ensures
            *final(self) == after_file_loaded(*old(self), live),
    {
        if !live && self.armed == self.generation {
            self.loaded = true;
        }
    }

    /// The preload died on the idle deck before anyone heard it: nothing waits there any more.
    pub fn failed(&mut self)
        ensures
            *final(self) == (Preload { loaded: false, ..*old(self) }),
    {
        self.loaded = false;
    }
}

/// A load that was cancelled after it was armed never becomes the track a crossfade fades into,
/// even when its file opens later; a load nobody cancelled does.
pub proof fn lemma_cancelled_preload_stays_cancelled(p: Preload)
    ensures
        !after_file_loaded(cancelled(armed(p)), false).loaded,
        after_file_loaded(armed(p), false).loaded,
{
}

/// What a deck reports.
#[derive(Debug, Clone, Copy, PartialEq, Eq, Structural)]
pub enum DeckEvent {
    /// The `pause` property changed.
    Pause(bool),
    /// The `idle-active` property changed.
    IdleActive(bool),
    /// The deck finished opening a file.
    FileLoaded,
    /// The file ended: `eof` when it played to its end, otherwise it was stopped on purpose.
    EndFile { eof: bool },
    /// The file failed to play.
    Failed,
    /// The playback position changed (its value stays with the caller).
    Position,
    /// The track's duration became known (its value stays with the caller).
    Duration,
    /// Anything else (a log line, an end by a stop): nothing to report.
    Other,
}

/// What the app is told after a deck event.
#[derive(Debug, Clone, Copy, PartialEq, Eq, Structural)]
pub enum DeckReport {
    /// Forward the new position.
    Position,
    /// Forward the new duration.
    Duration,
    TrackEnded,
    TrackFailed,
}

/// One deck's view of its own playback: playing is "not paused and not idle", derived from the
/// two properties as they change, never polled.
#[derive(Debug, Clone, Copy, PartialEq, Eq, Structural)]
pub struct DeckState {
    pub paused: bool,
    pub idle: bool,
    pub playing: bool,
}

/// What one event does: the report for the app (only the live deck's reach it; a failure on the
/// idle deck is a dead preload, not the track being heard), and a change of playing state to tell
/// it (again only for the live deck).
pub struct DeckOutcome {
    pub report: Option<DeckReport>,
    pub playing_now: Option<bool>,
}

/// The deck's state after an event.
pub open spec fn deck_after(s: DeckState, ev: DeckEvent) -> DeckState {
    let paused = match ev {
        DeckEvent::Pause(p) => p,
        _ => s.paused,
    };
    let idle = match ev {
        DeckEvent::IdleActive(i) => i,
        _ => s.idle,
    };
    match ev {
        DeckEvent::Failed => s,
        _ => DeckState { paused, idle, playing: !paused && !idle },
    }
}

/// The report an event gives the app, for a deck that is live or not.
pub open spec fn deck_report(ev: DeckEvent, live: bool) -> Option<DeckReport> {
    if !live {
        None
    } else {
        match ev {
            DeckEvent::Position => Some(DeckReport::Position),
            DeckEvent::Duration => Some(DeckReport::Duration),
            DeckEvent::EndFile { eof: true } => Some(DeckReport::TrackEnded),
            DeckEvent::Failed => Some(DeckReport::TrackFailed),
            _ => None,
        }
    }
}

impl DeckState {
    /// Before anything is loaded: not paused, idle, so not playing.
    pub fn new() -> (s: DeckState)
        ensures
            !s.paused && s.idle && !s.playing,
    {
        DeckState { paused: false, idle: true, playing: false }
    }

    /// Takes in one event of this deck; `live` is whether it is the deck the app hears.
    pub fn on_event(&mut self, ev: DeckEvent, live: bool, preload: &mut Preload) -> (o: DeckOutcome)
        ensures
            *final(self) == deck_after(*old(self), ev),
            o.report == deck_report(ev, live),
            o.playing_now == if live && !(ev is Failed) && final(self).playing != old(
                self,
            ).playing {
                Some(final(self).playing)
            } else {
                None
            },
            *final(preload) == match ev {
                DeckEvent::FileLoaded => after_file_loaded(*old(preload), live),
                DeckEvent::Failed => if live {
                    *old(preload)
                } else {
                    Preload { loaded: false, ..*old(preload) }
                },
                _ => *old(preload),
            },
    {
        match ev {
            DeckEvent::Failed => {
                if !live {
                    preload.failed();
                    return DeckOutcome { report: None, playing_now: None };
                }
                return DeckOutcome { report: Some(DeckReport::TrackFailed), playing_now: None };
            },
            DeckEvent::Pause(p) => {
                self.paused = p;
            },
            DeckEvent::IdleActive(i) => {
                self.idle = i;
            },
            DeckEvent::FileLoaded => {
                preload.file_loaded(live);
            },
            _ => {},
        }
        let report = if live {
            match ev {
                DeckEvent::Position => Some(DeckReport::Position),
                DeckEvent::Duration => Some(DeckReport::Duration),
                DeckEvent::EndFile { eof: true } => Some(DeckReport::TrackEnded),
                _ => None,
            }
        } else {
            None
        };
        let now = !self.paused && !self.idle;
        let mut playing_now = None;
        if now != self.playing {
            self.playing = now;
            if live {
                playing_now = Some(now);
            }
        }
        DeckOutcome { report, playing_now }
    }

    /// Whether a position tick may start a crossfade: only on the live deck, and not while paused
    /// or idle (a seek into the last seconds of a paused track must not start the next one).
    pub fn may_crossfade(&self, live: bool) -> (b: bool)
        ensures
            b == (live && !self.paused && !self.idle),
    {
        live && !self.paused && !self.idle
    }
}

/// The other deck.
pub fn idle_deck(active: usize) -> (d: usize)
    requires
        active <= 1,
    ensures
        d == 1 - active,
{
    1 - active
}

/// How loud one of the player's own log lines is logged.
#[derive(Debug, Clone, Copy, PartialEq, Eq, Structural)]
pub enum MpvLogLevel {
    Error,
    Warn,
    Info,
}

/// The player's `fatal` and `error` lines log as errors, `warn` as warnings, and everything else
/// as info, so that lines asked for at a verbose level are not filtered away.
pub fn mpv_log_level(level: &str) -> (r: MpvLogLevel)
    ensures
        r == if level@ == "fatal"@ || level@ == "error"@ {
            MpvLogLevel::Error
        } else if level@ == "warn"@ {
            MpvLogLevel::Warn
        } else {
            MpvLogLevel::Info
        },
{
    if str_eq(level, "fatal") || str_eq(level, "error") {
        MpvLogLevel::Error
    } else if str_eq(level, "warn") {
        MpvLogLevel::Warn
    } else {
        MpvLogLevel::Info
    }
}


/// Where the next track goes when it is queued up.
#[derive(Debug, Clone, Copy, PartialEq, Eq, Structural)]
pub enum EnqueueRoute {
    /// Crossfade off: onto the live deck's own playlist, to follow gaplessly.
    Append,
    /// A fade is running, and the idle deck is the one fading out: held until the fade ends.
    Hold,
    /// Loaded paused and silent on the idle deck, ready to fade in.
    Preload,
}

/// Where a queued track goes, given the crossfade length (0 is off) and whether a fade is running.
/// An appended entry could only start once the live one stopped, the opposite of an overlap.
pub fn enqueue_route(crossfade_ms: u64, fading: bool) -> (r: EnqueueRoute)
    ensures
        r == if crossfade_ms == 0 {
            EnqueueRoute::Append
        } else if fading {
            EnqueueRoute::Hold
        } else {
            EnqueueRoute::Preload
        },
{
    if crossfade_ms == 0 {
        EnqueueRoute::Append
    } else if fading {
        EnqueueRoute::Hold
    } else {
        EnqueueRoute::Preload
    }
}


/// A deck's state after a run of events.
pub open spec fn deck_run(s: DeckState, evs: Seq<DeckEvent>) -> DeckState
    decreases evs.len(),
{
    if evs.len() == 0 {
        s
    } else {
        deck_after(deck_run(s, evs.drop_last()), evs.last())
    }
}

/// The playing states a live deck reports over a run of events, in order: one whenever an event
/// other than a failure changes "not paused and not idle".
pub open spec fn playing_reports(s: DeckState, evs: Seq<DeckEvent>) -> Seq<bool>
    decreases evs.len(),
{
    if evs.len() == 0 {
        Seq::empty()
    } else {
        let before = deck_run(s, evs.drop_last());
        let after = deck_after(before, evs.last());
        let earlier = playing_reports(s, evs.drop_last());
        if !(evs.last() is Failed) && after.playing != before.playing {
            earlier.push(after.playing)
        } else {
            earlier
        }
    }
}

/// Playing reports alternate, the first one flips the state the deck started in, and the last one
/// is the state the deck is in. From a fresh deck (not playing) the first report is `true`.
pub proof fn lemma_playing_reports_alternate(s: DeckState, evs: Seq<DeckEvent>)
    requires
        s.playing == (!s.paused && !s.idle),
    ensures
        forall|i: int|
            0 <= i < playing_reports(s, evs).len() - 1 ==> #[trigger] playing_reports(s, evs)[i]
                != playing_reports(s, evs)[i + 1],
        playing_reports(s, evs).len() > 0 ==> playing_reports(s, evs)[0] == !s.playing,
        playing_reports(s, evs).len() > 0 ==> playing_reports(s, evs).last() == deck_run(
            s,
            evs,
        ).playing,
        playing_reports(s, evs).len() == 0 ==> deck_run(s, evs).playing == s.playing,
        deck_run(s, evs).playing == (!deck_run(s, evs).paused && !deck_run(s, evs).idle),
    decreases evs.len(),
{
    if evs.len() > 0 {
        lemma_playing_reports_alternate(s, evs.drop_last());
        let r = playing_reports(s, evs);
        let e = playing_reports(s, evs.drop_last());
        if r.len() > e.len() {
            assert forall|i: int| 0 <= i < r.len() - 1 implies #[trigger] r[i] != r[i + 1] by {
                if i + 1 < e.len() {
                    assert(r[i] == e[i] && r[i + 1] == e[i + 1]);
                } else {
                    assert(r[i] == e[i]);
                }
            }
        }
    }
}


/// The crossfade as the decks share it: which deck is live, whether a fade is running, the fade
/// generation a cancel moves on, and a lookahead that arrived mid-fade and waits for the deck
/// that is still fading out.
#[derive(Debug)]
pub struct Crossfade {
    pub active: usize,
    pub fading: bool,
    pub generation: u64,
    pub pending: Option<String>,
}

impl Crossfade {
    /// Deck 0 live, no fade, nothing held.
    pub fn new() -> (c: Crossfade)
        ensures
            c.active == 0 && !c.fading && c.generation == 0 && c.pending is None,
    {
        Crossfade { active: 0, fading: false, generation: 0, pending: None }
    }

    /// The overlap starts: the preloaded deck becomes the live one (so the app moves on to the
    /// next track now, with the audio), nothing waits on the idle deck any more, and the fade is
    /// marked running. Answers the generation the ramp runs under, read before the fade is
    /// marked, so that a cancel landing at once is still noticed.
    pub fn begin(&mut self, preload: &mut Preload) -> (g: u64)
        requires
            old(self).active <= 1,
        ensures
            g == old(self).generation,
            final(self).active == 1 - old(self).active,
            final(self).fading,
            final(self).generation == old(self).generation,
            final(self).pending == old(self).pending,
            *final(preload) == (Preload { loaded: false, ..*old(preload) }),
    {
        preload.loaded = false;
        let g = self.generation;
        self.fading = true;
        self.active = 1 - self.active;
        g
    }

    /// A pause, a seek or a skip cuts a running fade short: the generation moves on, and the
    /// answer says whether a fade was running (the caller then pauses the deck going out).
    pub fn cancel(&mut self) -> (cut: bool)
        ensures
            cut == old(self).fading,
            final(self).generation == if old(self).fading {
                next_gen(old(self).generation)
            } else {
                old(self).generation
            },
            final(self).active == old(self).active,
            final(self).fading == old(self).fading,
            final(self).pending == old(self).pending,
    {
        if !self.fading {
            return false;
        }
        self.generation = if self.generation == u64::MAX {
            0
        } else {
            self.generation + 1
        };
        true
    }

    /// Whether the ramp started under `g` may go on: no cancel since.
    pub fn still_current(&self, g: u64) -> (b: bool)
        ensures
            b == (self.generation == g),
    {
        self.generation == g
    }

    /// A lookahead arriving while a fade runs is held for the end of the fade (the idle deck is
    /// the one still fading out); otherwise it is not held, and goes onto the idle deck now.
    pub fn hold(&mut self, url: String) -> (held: bool)
        ensures
            held == old(self).fading,
            held ==> final(self).pending == Some(url),
            !held ==> final(self).pending == old(self).pending,
            final(self).active == old(self).active,
            final(self).fading == old(self).fading,
            final(self).generation == old(self).generation,
    {
        if self.fading {
            self.pending = Some(url);
            true
        } else {
            false
        }
    }

    /// The fade ended, however it ended: no fade runs any more, and a lookahead held meanwhile is
    /// handed back, once.
    pub fn finish(&mut self) -> (r: Option<String>)
        ensures
            r == old(self).pending,
            final(self).pending is None,
            !final(self).fading,
            final(self).active == old(self).active,
            final(self).generation == old(self).generation,
    {
        self.fading = false;
        let r = self.pending.take();
        r
    }
}

/// What becomes of a lookahead handed back at the end of a fade: preloaded on the free deck,
/// unless crossfading was switched off meanwhile (the next change is then a gapless one).
pub fn deferred_preload(handed: Option<String>, crossfade_ms: u64) -> (r: Option<String>)
    ensures
        r == if crossfade_ms > 0 {
            handed
        } else {
            None
        },
{
    if crossfade_ms > 0 {
        handed
    } else {
        None
    }
}

/// A cancel is always noticed: once it has moved the generation on, the ramp started before it no
/// longer matches.
pub proof fn lemma_cancel_is_noticed(g: u64)
    ensures
        next_gen(g) != g,
{
}

} // verus!
