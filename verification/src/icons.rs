//! Named Material Symbols icons used across the player chrome, with their
//! asset file names and the ASCII glyphs shown where raster icons are missing.

use vstd::prelude::*;

verus! {

/// Named icons used across the chrome.
#[derive(Debug, Clone, Copy, PartialEq, Eq, Hash, Structural)]
pub enum Icon {
    LiveTv,
    Movie,
    Series,
    Favorite,
    Epg,
    Sources,
    Settings,
    Add,
    Delete,
    Refresh,
    Paste,
    Play,
    Pause,
    VolumeUp,
    VolumeOff,
    Fullscreen,
    Close,
    More,
    Search,
    FolderOpen,
    Diagnose,
    Check,
    Replay10,
    Forward10,
    Stop,
    Playlist,
}

/// ASCII-safe glyph of an icon.
pub open spec fn glyph_of(icon: Icon) -> Seq<char> {
    match icon {
        Icon::LiveTv => "TV"@,
        Icon::Movie => "VID"@,
        Icon::Series => "SER"@,
        Icon::Favorite => "*"@,
        Icon::Epg => "EPG"@,
        Icon::Sources => "SRC"@,
        Icon::Settings => "SET"@,
        Icon::Add => "+"@,
        Icon::Delete => "x"@,
        Icon::Refresh => "R"@,
        Icon::Paste => "P"@,
        Icon::Play => ">"@,
        Icon::Pause => "||"@,
        Icon::VolumeUp => "VOL"@,
        Icon::VolumeOff => "MUT"@,
        Icon::Fullscreen => "FS"@,
        Icon::Close => "X"@,
        Icon::More => "..."@,
        Icon::Search => "?"@,
        Icon::FolderOpen => "DIR"@,
        Icon::Diagnose => "DIA"@,
        Icon::Check => "OK"@,
        Icon::Replay10 => "-10"@,
        Icon::Forward10 => "+10"@,
        Icon::Stop => "[]"@,
        Icon::Playlist => "PL"@,
    }
}

/// Asset path of the vector icon.
pub open spec fn svg_asset_of(icon: Icon) -> Seq<char> {
    match icon {
        Icon::LiveTv => "icons/live_tv.svg"@,
        Icon::Movie => "icons/movie.svg"@,
        Icon::Series => "icons/video_library.svg"@,
        Icon::Favorite => "icons/favorite.svg"@,
        Icon::Epg => "icons/calendar_month.svg"@,
        Icon::Sources => "icons/dns.svg"@,
        Icon::Settings => "icons/settings.svg"@,
        Icon::Add => "icons/add.svg"@,
        Icon::Delete => "icons/delete.svg"@,
        Icon::Refresh => "icons/refresh.svg"@,
        Icon::Paste => "icons/content_paste.svg"@,
        Icon::Play => "icons/play_arrow.svg"@,
        Icon::Pause => "icons/pause.svg"@,
        Icon::VolumeUp => "icons/volume_up.svg"@,
        Icon::VolumeOff => "icons/volume_off.svg"@,
        Icon::Fullscreen => "icons/fullscreen.svg"@,
        Icon::Close => "icons/close.svg"@,
        Icon::More => "icons/more_horiz.svg"@,
        Icon::Search => "icons/search.svg"@,
        Icon::FolderOpen => "icons/folder_open.svg"@,
        Icon::Diagnose => "icons/science.svg"@,
        Icon::Check => "icons/check.svg"@,
        Icon::Replay10 => "icons/replay_10.svg"@,
        Icon::Forward10 => "icons/forward_10.svg"@,
        Icon::Stop => "icons/stop.svg"@,
        Icon::Playlist => "icons/playlist_play.svg"@,
    }
}

/// Asset path of the raster (white silhouette) icon.
pub open spec fn png_asset_of(icon: Icon) -> Seq<char> {
    match icon {
        Icon::LiveTv => "icons/png/live_tv.png"@,
        Icon::Movie => "icons/png/movie.png"@,
        Icon::Series => "icons/png/video_library.png"@,
        Icon::Favorite => "icons/png/favorite.png"@,
        Icon::Epg => "icons/png/calendar_month.png"@,
        Icon::Sources => "icons/png/dns.png"@,
        Icon::Settings => "icons/png/settings.png"@,
        Icon::Add => "icons/png/add.png"@,
        Icon::Delete => "icons/png/delete.png"@,
        Icon::Refresh => "icons/png/refresh.png"@,
        Icon::Paste => "icons/png/content_paste.png"@,
        Icon::Play => "icons/png/play_arrow.png"@,
        Icon::Pause => "icons/png/pause.png"@,
        Icon::VolumeUp => "icons/png/volume_up.png"@,
        Icon::VolumeOff => "icons/png/volume_off.png"@,
        Icon::Fullscreen => "icons/png/fullscreen.png"@,
        Icon::Close => "icons/png/close.png"@,
        Icon::More => "icons/png/more_horiz.png"@,
        Icon::Search => "icons/png/search.png"@,
        Icon::FolderOpen => "icons/png/folder_open.png"@,
        Icon::Diagnose => "icons/png/science.png"@,
        Icon::Check => "icons/png/check.png"@,
        Icon::Replay10 => "icons/png/replay_10.png"@,
        Icon::Forward10 => "icons/png/forward_10.png"@,
        Icon::Stop => "icons/png/stop.png"@,
        Icon::Playlist => "icons/png/playlist_play.png"@,
    }
}

impl Icon {
    /// Vector asset (`assets/<path>`) embedded for desktop rendering.
    pub fn svg_asset(self) -> (r: &'static str)
        ensures
            r@ == svg_asset_of(self),
    {
        match self {
            Icon::LiveTv => "icons/live_tv.svg",
            Icon::Movie => "icons/movie.svg",
            Icon::Series => "icons/video_library.svg",
            Icon::Favorite => "icons/favorite.svg",
            Icon::Epg => "icons/calendar_month.svg",
            Icon::Sources => "icons/dns.svg",
            Icon::Settings => "icons/settings.svg",
            Icon::Add => "icons/add.svg",
            Icon::Delete => "icons/delete.svg",
            Icon::Refresh => "icons/refresh.svg",
            Icon::Paste => "icons/content_paste.svg",
            Icon::Play => "icons/play_arrow.svg",
            Icon::Pause => "icons/pause.svg",
            Icon::VolumeUp => "icons/volume_up.svg",
            Icon::VolumeOff => "icons/volume_off.svg",
            Icon::Fullscreen => "icons/fullscreen.svg",
            Icon::Close => "icons/close.svg",
            Icon::More => "icons/more_horiz.svg",
            Icon::Search => "icons/search.svg",
            Icon::FolderOpen => "icons/folder_open.svg",
            Icon::Diagnose => "icons/science.svg",
            Icon::Check => "icons/check.svg",
            Icon::Replay10 => "icons/replay_10.svg",
            Icon::Forward10 => "icons/forward_10.svg",
            Icon::Stop => "icons/stop.svg",
            Icon::Playlist => "icons/playlist_play.svg",
        }
    }

    /// Raster asset (`assets/<path>`) tinted at draw time on GLES.
    pub fn png_asset(self) -> (r: &'static str)
        ensures
            r@ == png_asset_of(self),
    {
        match self {
            Icon::LiveTv => "icons/png/live_tv.png",
            Icon::Movie => "icons/png/movie.png",
            Icon::Series => "icons/png/video_library.png",
            Icon::Favorite => "icons/png/favorite.png",
            Icon::Epg => "icons/png/calendar_month.png",
            Icon::Sources => "icons/png/dns.png",
            Icon::Settings => "icons/png/settings.png",
            Icon::Add => "icons/png/add.png",
            Icon::Delete => "icons/png/delete.png",
            Icon::Refresh => "icons/png/refresh.png",
            Icon::Paste => "icons/png/content_paste.png",
            Icon::Play => "icons/png/play_arrow.png",
            Icon::Pause => "icons/png/pause.png",
            Icon::VolumeUp => "icons/png/volume_up.png",
            Icon::VolumeOff => "icons/png/volume_off.png",
            Icon::Fullscreen => "icons/png/fullscreen.png",
            Icon::Close => "icons/png/close.png",
            Icon::More => "icons/png/more_horiz.png",
            Icon::Search => "icons/png/search.png",
            Icon::FolderOpen => "icons/png/folder_open.png",
            Icon::Diagnose => "icons/png/science.png",
            Icon::Check => "icons/png/check.png",
            Icon::Replay10 => "icons/png/replay_10.png",
            Icon::Forward10 => "icons/png/forward_10.png",
            Icon::Stop => "icons/png/stop.png",
            Icon::Playlist => "icons/png/playlist_play.png",
        }
    }

    /// ASCII-safe glyph (no emoji) used when no raster is available.
    pub fn text_glyph(self) -> (r: &'static str)
        ensures
            r@ == glyph_of(self),
    {
        match self {
            Icon::LiveTv => "TV",
            Icon::Movie => "VID",
            Icon::Series => "SER",
            Icon::Favorite => "*",
            Icon::Epg => "EPG",
            Icon::Sources => "SRC",
            Icon::Settings => "SET",
            Icon::Add => "+",
            Icon::Delete => "x",
            Icon::Refresh => "R",
            Icon::Paste => "P",
            Icon::Play => ">",
            Icon::Pause => "||",
            Icon::VolumeUp => "VOL",
            Icon::VolumeOff => "MUT",
            Icon::Fullscreen => "FS",
            Icon::Close => "X",
            Icon::More => "...",
            Icon::Search => "?",
            Icon::FolderOpen => "DIR",
            Icon::Diagnose => "DIA",
            Icon::Check => "OK",
            Icon::Replay10 => "-10",
            Icon::Forward10 => "+10",
            Icon::Stop => "[]",
            Icon::Playlist => "PL",
        }
    }

}

/// Every icon's fallback glyph is one to three ASCII characters (no emoji),
/// and no two icons share a glyph.
pub proof fn law_glyphs_ascii_and_distinct(a: Icon, b: Icon)
    ensures
        1 <= glyph_of(a).len() <= 3,
        forall|i: int| 0 <= i < glyph_of(a).len() ==> (#[trigger] glyph_of(a)[i] as u32) < 128,
        a != b ==> glyph_of(a) != glyph_of(b),
{
    reveal_strlit("TV");
    reveal_strlit("VID");
    reveal_strlit("SER");
    reveal_strlit("*");
    reveal_strlit("EPG");
    reveal_strlit("SRC");
    reveal_strlit("SET");
    reveal_strlit("+");
    reveal_strlit("x");
    reveal_strlit("R");
    reveal_strlit("P");
    reveal_strlit(">");
    reveal_strlit("||");
    reveal_strlit("VOL");
    reveal_strlit("MUT");
    reveal_strlit("FS");
    reveal_strlit("X");
    reveal_strlit("...");
    reveal_strlit("?");
    reveal_strlit("DIR");
    reveal_strlit("DIA");
    reveal_strlit("OK");
    reveal_strlit("-10");
    reveal_strlit("+10");
    reveal_strlit("[]");
    reveal_strlit("PL");
    let ga = glyph_of(a);
    let gb = glyph_of(b);
    if a != b && ga == gb {
        assert(ga.len() == gb.len());
        assert(ga[0] == gb[0]);
        assert(ga[ga.len() - 1] == gb[gb.len() - 1]);
    }
}

} // verus!
