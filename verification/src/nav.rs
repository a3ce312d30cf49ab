//! Navigation decisions of the main window: what Back does, how the remote
//! moves the browse focus, tab switches, paging, the search debounce and
//! the sleep timer. The window runs the resulting actions.

use vstd::prelude::*;

use crate::browse::{Tab, LIST_PAGE};
use crate::text::{chars_of, push_all, push_decimal, string_of};

verus! {

/// What the Back key does.
#[derive(Debug, Clone, Copy, PartialEq, Eq, Structural)]
pub enum BackAction {
    /// The embedded player handles it as Escape.
    PlayerEscape,
    /// Close the open series page (and its episode list).
    CloseSeriesDetail,
    /// Close the open film page.
    CloseVodDetail,
    /// At the root: finish the activity.
    FinishActivity,
}

/// Back goes to the player first, then closes a series page, then a film
/// page, and finishes the activity at the root.
pub fn nav_back(player_embedded: bool, series_open: bool, vod_open: bool) -> (r: BackAction)
    ensures
        r == (if player_embedded {
            BackAction::PlayerEscape
        } else if series_open {
            BackAction::CloseSeriesDetail
        } else if vod_open {
            BackAction::CloseVodDetail
        } else {
            BackAction::FinishActivity
        }),
{
    if player_embedded {
        BackAction::PlayerEscape
    } else if series_open {
        BackAction::CloseSeriesDetail
    } else if vod_open {
        BackAction::CloseVodDetail
    } else {
        BackAction::FinishActivity
    }
}

/// The browse focus after a remote step of `delta` rows over `len` rows:
/// backwards it stops at 0, forwards at the last row; none on an empty list.
pub open spec fn focus_after(len: nat, focus: nat, delta: int) -> Option<nat> {
    if len == 0 {
        None
    } else if delta < 0 {
        Some(if focus >= -delta {
            (focus + delta) as nat
        } else {
            0
        })
    } else {
        Some(if focus + delta < len - 1 {
            (focus + delta) as nat
        } else {
            (len - 1) as nat
        })
    }
}

/// Moves the browse focus by `delta` rows.
pub fn browse_focus_step(len: usize, focus: usize, delta: i32) -> (r: Option<usize>)
    ensures
        match r {
            Some(f) => focus_after(len as nat, focus as nat, delta as int) == Some(f as nat),
            None => focus_after(len as nat, focus as nat, delta as int) is None,
        },
{
    if len == 0 {
        return None;
    }
    if delta < 0 {
        let back: u64 = if delta == i32::MIN {
            0x8000_0000
        } else {
            (-delta) as u64
        };
        if focus as u64 >= back {
            Some(focus - back as usize)
        } else {
            Some(0)
        }
    } else {
        let last = len - 1;
        if focus >= last || delta as usize >= last - focus {
            Some(last)
        } else {
            Some(focus + delta as usize)
        }
    }
}

/// The browse list limit after "load more": one page more, at most 10 000.
pub fn load_more_limit(limit: usize) -> (r: usize)
    ensures
        r == (if limit + LIST_PAGE < 10000 {
            limit + LIST_PAGE
        } else {
            10000
        }),
{
    if limit >= 10000 - LIST_PAGE {
        10000
    } else {
        limit + LIST_PAGE
    }
}

/// What entering a tab starts, beyond resetting the browse state.
#[derive(Debug, Clone, Copy, PartialEq, Eq, Structural)]
pub struct TabEntry {
    /// Detect the player backends (first visit of the settings).
    pub detect_backends: bool,
    /// Select the "all" VOD category.
    pub vod_all: bool,
    /// Select the "all" series category.
    pub series_all: bool,
    /// Start the background VOD enrichment (once per session).
    pub start_vod_enrich: bool,
    /// Fetch the programme guide of the visible channels.
    pub fetch_epg: bool,
}

/// Entering `tab`: the VOD and series tabs land on "all", the settings
/// detect the backends once, the VOD tab starts the enrichment once, and
/// the live and guide tabs fetch the guide.
pub fn tab_entry(tab: Tab, backends_known: bool, vod_enrich_started: bool) -> (r: TabEntry)
    ensures
        r == (TabEntry {
            detect_backends: tab == Tab::Settings && !backends_known,
            vod_all: tab == Tab::Vod,
            series_all: tab == Tab::Series,
            start_vod_enrich: tab == Tab::Vod && !vod_enrich_started,
            fetch_epg: tab == Tab::Live || tab == Tab::Epg,
        }),
{
    TabEntry {
        detect_backends: tab == Tab::Settings && !backends_known,
        vod_all: tab == Tab::Vod,
        series_all: tab == Tab::Series,
        start_vod_enrich: tab == Tab::Vod && !vod_enrich_started,
        fetch_epg: tab == Tab::Live || tab == Tab::Epg,
    }
}

/// The generation after an edit (wrapping at the top).
pub open spec fn next_generation(g: u64) -> u64 {
    if g == u64::MAX {
        0
    } else {
        (g + 1) as u64
    }
}

/// The search box debounce: each edit bumps a generation, and a delayed
/// apply only runs for the latest one.
pub struct SearchDebounce {
    pub generation: u64,
}

impl SearchDebounce {
    pub fn new() -> (r: Self)
        ensures
            r.generation == 0,
    {
        SearchDebounce { generation: 0 }
    }

    /// The text changed: the generation to apply after the delay.
    pub fn changed(&mut self) -> (r: u64)
        ensures
            r == final(self).generation,
            final(self).generation == next_generation(old(self).generation),
    {
        self.generation = if self.generation == u64::MAX {
            0
        } else {
            self.generation + 1
        };
        self.generation
    }

    /// A delayed apply of generation `gen` runs only when no edit came after it.
    pub fn is_current(&self, gen: u64) -> (r: bool)
        ensures
            r == (gen == self.generation),
    {
        gen == self.generation
    }
}

/// The sleep timer steps: off, 15, 30, 60 minutes, off.
pub open spec fn sleep_next(cur: Option<u32>) -> Option<u32> {
    match cur {
        None => Some(15),
        Some(m) => if m == 15 {
            Some(30)
        } else if m == 30 {
            Some(60)
        } else {
            None
        },
    }
}

/// The next sleep timer setting.
pub fn next_sleep_mins(cur: Option<u32>) -> (r: Option<u32>)
    ensures
        r == sleep_next(cur),
{
    match cur {
        None => Some(15),
        Some(15) => Some(30),
        Some(30) => Some(60),
        _ => None,
    }
}

pub open spec fn sleep_text(mins: Option<u32>) -> Seq<char> {
    match mins {
        Some(m) => "Veille dans "@ + crate::text::dec_chars(m as nat) + " min"@,
        None => "Veille off"@,
    }
}

/// The status line of the sleep timer.
pub fn sleep_status(mins: Option<u32>) -> (r: String)
    ensures
        r@ == sleep_text(mins),
{
    match mins {
        Some(m) => {
            let mut out = chars_of("Veille dans ");
            push_decimal(&mut out, m as u64);
            let tail = chars_of(" min");
            push_all(&mut out, tail.as_slice());
            string_of(out.as_slice())
        },
        None => {
            let out = chars_of("Veille off");
            string_of(out.as_slice())
        },
    }
}

/// A key press as the window reports it (the keys the player and the TV
/// remote use; `Character` holds the typed text).
pub enum KeyPress {
    Space,
    MediaPlayPause,
    Play,
    Pause,
    Enter,
    ArrowLeft,
    ArrowRight,
    ArrowUp,
    ArrowDown,
    Escape,
    GoBack,
    BrowserBack,
    Character(String),
    Other,
}

pub enum KeyView {
    Space,
    MediaPlayPause,
    Play,
    Pause,
    Enter,
    ArrowLeft,
    ArrowRight,
    ArrowUp,
    ArrowDown,
    Escape,
    GoBack,
    BrowserBack,
    Character(Seq<char>),
    Other,
}

pub open spec fn key_view(k: &KeyPress) -> KeyView {
    match k {
        KeyPress::Space => KeyView::Space,
        KeyPress::MediaPlayPause => KeyView::MediaPlayPause,
        KeyPress::Play => KeyView::Play,
        KeyPress::Pause => KeyView::Pause,
        KeyPress::Enter => KeyView::Enter,
        KeyPress::ArrowLeft => KeyView::ArrowLeft,
        KeyPress::ArrowRight => KeyView::ArrowRight,
        KeyPress::ArrowUp => KeyView::ArrowUp,
        KeyPress::ArrowDown => KeyView::ArrowDown,
        KeyPress::Escape => KeyView::Escape,
        KeyPress::GoBack => KeyView::GoBack,
        KeyPress::BrowserBack => KeyView::BrowserBack,
        KeyPress::Character(s) => KeyView::Character(s@),
        KeyPress::Other => KeyView::Other,
    }
}

/// A player shortcut.
#[derive(Debug, Clone, Copy, PartialEq, Eq, Structural)]
pub enum PlayerHotkey {
    TogglePause,
    SeekBack,
    SeekFwd,
    SeekBackBig,
    SeekFwdBig,
    VolumeUp,
    VolumeDown,
    Mute,
    Fullscreen,
    Escape,
    Stop,
    Restart,
    Speed,
    Loop,
    Screenshot,
    FrameStep,
}

/// The shortcut of a typed character (`Ctrl+S` for a screenshot).
pub open spec fn char_hotkey(t: Seq<char>, control: bool) -> Option<PlayerHotkey> {
    if t == "m"@ || t == "M"@ {
        Some(PlayerHotkey::Mute)
    } else if t == "f"@ || t == "F"@ {
        Some(PlayerHotkey::Fullscreen)
    } else if t == "r"@ || t == "R"@ {
        Some(PlayerHotkey::Restart)
    } else if t == "["@ {
        Some(PlayerHotkey::Speed)
    } else if t == "l"@ || t == "L"@ {
        Some(PlayerHotkey::Loop)
    } else if (t == "s"@ || t == "S"@) && control {
        Some(PlayerHotkey::Screenshot)
    } else if t == "."@ {
        Some(PlayerHotkey::FrameStep)
    } else {
        None
    }
}

/// The player shortcut of a key press not already taken by a widget:
/// play/pause keys and Enter toggle pause, arrows seek (Shift for big
/// steps) and change the volume, Escape and Back leave.
pub open spec fn hotkey_of(k: KeyView, shift: bool, control: bool, captured: bool) -> Option<PlayerHotkey> {
    if captured {
        None
    } else {
        match k {
            KeyView::Space | KeyView::MediaPlayPause | KeyView::Play | KeyView::Pause
            | KeyView::Enter => Some(PlayerHotkey::TogglePause),
            KeyView::ArrowLeft => Some(if shift {
                PlayerHotkey::SeekBackBig
            } else {
                PlayerHotkey::SeekBack
            }),
            KeyView::ArrowRight => Some(if shift {
                PlayerHotkey::SeekFwdBig
            } else {
                PlayerHotkey::SeekFwd
            }),
            KeyView::ArrowUp => Some(PlayerHotkey::VolumeUp),
            KeyView::ArrowDown => Some(PlayerHotkey::VolumeDown),
            KeyView::Escape | KeyView::GoBack | KeyView::BrowserBack => Some(PlayerHotkey::Escape),
            KeyView::Character(t) => char_hotkey(t, control),
            KeyView::Other => None,
        }
    }
}

fn text_is(t: &[char], lit: &str) -> (r: bool)
    ensures
        r == (t@ == lit@),
{
    let l = chars_of(lit);
    crate::text::chars_eq(t, l.as_slice())
}

/// The player shortcut of a key press.
pub fn player_hotkey(key: &KeyPress, shift: bool, control: bool, captured: bool) -> (r: Option<
    PlayerHotkey,
>)
    ensures
        r == hotkey_of(key_view(key), shift, control, captured),
{
    if captured {
        return None;
    }
    match key {
        KeyPress::Space | KeyPress::MediaPlayPause | KeyPress::Play | KeyPress::Pause
        | KeyPress::Enter => Some(PlayerHotkey::TogglePause),
        KeyPress::ArrowLeft => Some(
            if shift {
                PlayerHotkey::SeekBackBig
            } else {
                PlayerHotkey::SeekBack
            },
        ),
        KeyPress::ArrowRight => Some(
            if shift {
                PlayerHotkey::SeekFwdBig
            } else {
                PlayerHotkey::SeekFwd
            },
        ),
        KeyPress::ArrowUp => Some(PlayerHotkey::VolumeUp),
        KeyPress::ArrowDown => Some(PlayerHotkey::VolumeDown),
        KeyPress::Escape | KeyPress::GoBack | KeyPress::BrowserBack => Some(PlayerHotkey::Escape),
        KeyPress::Character(s) => {
            let t = chars_of(s.as_str());
            let ts = t.as_slice();
            if text_is(ts, "m") || text_is(ts, "M") {
                Some(PlayerHotkey::Mute)
            } else if text_is(ts, "f") || text_is(ts, "F") {
                Some(PlayerHotkey::Fullscreen)
            } else if text_is(ts, "r") || text_is(ts, "R") {
                Some(PlayerHotkey::Restart)
            } else if text_is(ts, "[") {
                Some(PlayerHotkey::Speed)
            } else if text_is(ts, "l") || text_is(ts, "L") {
                Some(PlayerHotkey::Loop)
            } else if (text_is(ts, "s") || text_is(ts, "S")) && control {
                Some(PlayerHotkey::Screenshot)
            } else if text_is(ts, ".") {
                Some(PlayerHotkey::FrameStep)
            } else {
                None
            }
        },
        KeyPress::Other => None,
    }
}

/// Seconds a seek shortcut moves (none for other shortcuts).
pub fn hotkey_seek_secs(hk: PlayerHotkey) -> (r: Option<i32>)
    ensures
        r == match hk {
            PlayerHotkey::SeekBack => Some(-10i32),
            PlayerHotkey::SeekFwd => Some(10i32),
            PlayerHotkey::SeekBackBig => Some(-30i32),
            PlayerHotkey::SeekFwdBig => Some(30i32),
            _ => None,
        },
{
    match hk {
        PlayerHotkey::SeekBack => Some(-10),
        PlayerHotkey::SeekFwd => Some(10),
        PlayerHotkey::SeekBackBig => Some(-30),
        PlayerHotkey::SeekFwdBig => Some(30),
        _ => None,
    }
}

/// What Escape does in the player.
#[derive(Debug, Clone, Copy, PartialEq, Eq, Structural)]
pub enum EscapeAction {
    LeaveFullscreen,
    ClosePanel,
    StopAndClose,
}

/// Escape leaves full screen first, then closes an open side panel, and
/// otherwise stops playback and closes the player.
pub fn escape_action(fullscreen: bool, panel_open: bool) -> (r: EscapeAction)
    ensures
        r == (if fullscreen {
            EscapeAction::LeaveFullscreen
        } else if panel_open {
            EscapeAction::ClosePanel
        } else {
            EscapeAction::StopAndClose
        }),
{
    if fullscreen {
        EscapeAction::LeaveFullscreen
    } else if panel_open {
        EscapeAction::ClosePanel
    } else {
        EscapeAction::StopAndClose
    }
}

/// A TV remote key while browsing.
#[derive(Debug, Clone, Copy, PartialEq, Eq, Structural)]
pub enum RemoteNav {
    Back,
    FocusDelta(i32),
    Activate,
}

/// The browse action of a remote key not taken by a widget: Back, the
/// arrows step the focus (up and left back, down and right forward), Enter
/// activates.
pub open spec fn remote_nav_of(k: KeyView, captured: bool) -> Option<RemoteNav> {
    if captured {
        None
    } else {
        match k {
            KeyView::GoBack | KeyView::BrowserBack | KeyView::Escape => Some(RemoteNav::Back),
            KeyView::ArrowUp | KeyView::ArrowLeft => Some(RemoteNav::FocusDelta(-1i32)),
            KeyView::ArrowDown | KeyView::ArrowRight => Some(RemoteNav::FocusDelta(1i32)),
            KeyView::Enter => Some(RemoteNav::Activate),
            _ => None,
        }
    }
}

/// The browse action of a remote key.
pub fn remote_nav(key: &KeyPress, captured: bool) -> (r: Option<RemoteNav>)
    ensures
        r == remote_nav_of(key_view(key), captured),
{
    if captured {
        return None;
    }
    match key {
        KeyPress::GoBack | KeyPress::BrowserBack | KeyPress::Escape => Some(RemoteNav::Back),
        KeyPress::ArrowUp | KeyPress::ArrowLeft => Some(RemoteNav::FocusDelta(-1)),
        KeyPress::ArrowDown | KeyPress::ArrowRight => Some(RemoteNav::FocusDelta(1)),
        KeyPress::Enter => Some(RemoteNav::Activate),
        _ => None,
    }
}

/// Posters to warm after a load: 56 per mosaic column, between 160 and
/// 560, and no more than the browse list holds.
pub fn art_warm_target(cols: usize, browse_len: usize) -> (r: usize)
    ensures
        r == ({
            let c: int = if cols == 0 {
                1
            } else {
                cols as int
            };
            let w: int = if c * 56 > usize::MAX {
                usize::MAX as int
            } else {
                c * 56
            };
            let t: int = if w < 160 {
                160
            } else if w > 560 {
                560
            } else {
                w
            };
            if t < browse_len {
                t
            } else {
                browse_len as int
            }
        }),
{
    let c = if cols == 0 {
        1
    } else {
        cols
    };
    let w = if c > usize::MAX / 56 {
        usize::MAX
    } else {
        c * 56
    };
    let t = if w < 160 {
        160
    } else if w > 560 {
        560
    } else {
        w
    };
    if t < browse_len {
        t
    } else {
        browse_len
    }
}

/// Whether the background poster warm-up runs after a browse rebuild: the
/// list is not empty and no detail page covers it.
pub fn art_warm_active(browse_len: usize, vod_detail_open: bool, tab: Tab, series_detail_open: bool) -> (r:
    bool)
    ensures
        r == (browse_len > 0 && !vod_detail_open && !(tab == Tab::Series && series_detail_open)),
{
    browse_len > 0 && !vod_detail_open && !(tab == Tab::Series && series_detail_open)
}

/// The browse focus once a new index of `len` rows arrives: kept when it
/// is still on a row, else moved to the last row (0 for an empty index).
pub fn focus_after_rebuild(focus: usize, len: usize) -> (r: usize)
    ensures
        r == (if focus < len {
            focus as int
        } else if len > 0 {
            len - 1
        } else {
            0
        }),
{
    if focus < len {
        focus
    } else if len > 0 {
        len - 1
    } else {
        0
    }
}

} // verus!
