//! The system tray: whether it can bring the window back, its menu, and its icon's pixels.

use vstd::prelude::*;
use crate::text::str_eq;

verus! {

/// Whether a tray icon actually exists for the user to click. Optimistic: it starts available,
/// and only a backend that finds no tray host clears it.
pub struct TrayState {
    present: bool,
}

impl TrayState {
    /// Whether the tray is there.
    pub closed spec fn is_present(self) -> bool {
        self.present
    }

    /// A desktop with a working tray is the default.
    pub fn new() -> (t: TrayState)
        ensures
            t.is_present(),
    {
        TrayState { present: true }
    }

    /// Records what the backend found: whether a tray host answered.
    pub fn set_available(&mut self, present: bool)
        ensures
            final(self).is_present() == present,
    {
        self.present = present;
    }
}

/// Can the window be brought back from the tray? Closing to a tray that isn't there would leave
/// the app running with no window, so closing checks this first.
pub fn available(tray: &TrayState) -> (b: bool)
    ensures
        b == tray.is_present(),
{
    tray.present
}


/// What a tray menu entry does.
#[derive(Debug, Clone, Copy, PartialEq, Eq, Structural)]
pub enum TrayAction {
    /// Bring the main window back.
    Show,
    /// Keep the playback position, then quit.
    Quit,
    /// Keep the playback position, then relaunch.
    Restart,
    /// Resume, or toggle pause.
    PlayPause,
    Next,
    Previous,
    /// An entry this app does not know: nothing happens.
    Ignore,
}

/// The action behind the menu entry `id`.
pub open spec fn tray_action_of(id: Seq<char>) -> TrayAction {
    if id == "show"@ {
        TrayAction::Show
    } else if id == "quit"@ {
        TrayAction::Quit
    } else if id == "restart"@ {
        TrayAction::Restart
    } else if id == "play_pause"@ {
        TrayAction::PlayPause
    } else if id == "next"@ {
        TrayAction::Next
    } else if id == "prev"@ {
        TrayAction::Previous
    } else {
        TrayAction::Ignore
    }
}

/// What the tray menu entry `id` does.
pub fn tray_action(id: &str) -> (r: TrayAction)
    ensures
        r == tray_action_of(id@),
{
    if str_eq(id, "show") {
        TrayAction::Show
    } else if str_eq(id, "quit") {
        TrayAction::Quit
    } else if str_eq(id, "restart") {
        TrayAction::Restart
    } else if str_eq(id, "play_pause") {
        TrayAction::PlayPause
    } else if str_eq(id, "next") {
        TrayAction::Next
    } else if str_eq(id, "prev") {
        TrayAction::Previous
    } else {
        TrayAction::Ignore
    }
}

/// An entry of the tray menu: a label and the id it reports, or a separator.
pub enum TrayEntry {
    Item { label: &'static str, id: &'static str },
    Separator,
}

/// The menu entry `(label, id)`; a separator where both are empty.
pub open spec fn entry_is(e: TrayEntry, label: Seq<char>, id: Seq<char>) -> bool {
    match e {
        TrayEntry::Item { label: l, id: i } => l@ == label && i@ == id && label.len() > 0,
        TrayEntry::Separator => label.len() == 0 && id.len() == 0,
    }
}

/// The tray menu, top to bottom, as `(label, id)` with separators as empty pairs. The middle
/// entry offers what a click would do: pause while playing, play otherwise.
pub open spec fn tray_menu_spec(playing: bool) -> Seq<(Seq<char>, Seq<char>)> {
    seq![
        ("Show Limusic"@, "show"@),
        (Seq::empty(), Seq::empty()),
        (if playing { "Pause"@ } else { "Play"@ }, "play_pause"@),
        ("Next"@, "next"@),
        ("Previous"@, "prev"@),
        (Seq::empty(), Seq::empty()),
        ("Restart"@, "restart"@),
        ("Quit"@, "quit"@),
    ]
}

/// The tray menu.
pub fn tray_menu(playing: bool) -> (r: Vec<TrayEntry>)
    ensures
        r@.len() == tray_menu_spec(playing).len(),
        forall|i: int|
            0 <= i < r@.len() ==> entry_is(
                #[trigger] r@[i],
                tray_menu_spec(playing)[i].0,
                tray_menu_spec(playing)[i].1,
            ),
{
    proof {
        reveal_strlit("Show Limusic");
        reveal_strlit("Pause");
        reveal_strlit("Play");
        reveal_strlit("Next");
        reveal_strlit("Previous");
        reveal_strlit("Restart");
        reveal_strlit("Quit");
    }
    let toggle = if playing {
        "Pause"
    } else {
        "Play"
    };
    let r = vec![
        TrayEntry::Item { label: "Show Limusic", id: "show" },
        TrayEntry::Separator,
        TrayEntry::Item { label: toggle, id: "play_pause" },
        TrayEntry::Item { label: "Next", id: "next" },
        TrayEntry::Item { label: "Previous", id: "prev" },
        TrayEntry::Separator,
        TrayEntry::Item { label: "Restart", id: "restart" },
        TrayEntry::Item { label: "Quit", id: "quit" },
    ];
    proof {
        assert forall|i: int| 0 <= i < r@.len() implies entry_is(
            #[trigger] r@[i],
            tray_menu_spec(playing)[i].0,
            tray_menu_spec(playing)[i].1,
        ) by {
            if i == 0 {
            } else if i == 1 {
            } else if i == 2 {
            } else if i == 3 {
            } else if i == 4 {
            } else if i == 5 {
            } else if i == 6 {
            } else {
            }
        }
    }
    r
}

/// The icon's pixels as the tray protocol wants them: each whole RGBA pixel turned to ARGB (the
/// alpha byte moved to the front); bytes past the last whole pixel stay as they are.
pub open spec fn argb_byte(rgba: Seq<u8>, i: int) -> u8 {
    if i < rgba.len() / 4 * 4 {
        if i % 4 == 0 {
            rgba[i + 3]
        } else {
            rgba[i - 1]
        }
    } else {
        rgba[i]
    }
}

/// RGBA to ARGB, pixel by pixel.
pub fn argb_pixels(rgba: &[u8]) -> (r: Vec<u8>)
    ensures
        r@.len() == rgba@.len(),
        forall|i: int| 0 <= i < r@.len() ==> #[trigger] r@[i] == argb_byte(rgba@, i),
{
    let n = rgba.len();
    let whole = n / 4 * 4;
    let mut out: Vec<u8> = Vec::new();
    let mut i: usize = 0;
    while i < n
        invariant
            n == rgba@.len(),
            whole == n / 4 * 4,
            whole <= n,
            i <= n,
            out@.len() == i,
            forall|j: int| 0 <= j < i ==> #[trigger] out@[j] == argb_byte(rgba@, j),
        decreases n - i,
    {
        let b = if i < whole {
            if i % 4 == 0 {
                proof {
                    assert(i + 3 < whole) by (nonlinear_arith)
                        requires
                            i < whole,
                            i % 4 == 0,
                            whole % 4 == 0,
                    ;
                }
                rgba[i + 3]
            } else {
                rgba[i - 1]
            }
        } else {
            rgba[i]
        };
        out.push(b);
        i += 1;
    }
    out
}

} // verus!
