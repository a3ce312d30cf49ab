use fluxplay::icons::Icon;

#[test]
fn glyphs_are_short_ascii_and_distinct() {
    let all = [
        Icon::LiveTv,
        Icon::Movie,
        Icon::Series,
        Icon::Favorite,
        Icon::Epg,
        Icon::Sources,
        Icon::Settings,
        Icon::Add,
        Icon::Delete,
        Icon::Refresh,
        Icon::Paste,
        Icon::Play,
        Icon::Pause,
        Icon::VolumeUp,
        Icon::VolumeOff,
        Icon::Fullscreen,
        Icon::Close,
        Icon::More,
        Icon::Search,
        Icon::FolderOpen,
        Icon::Diagnose,
        Icon::Check,
        Icon::Replay10,
        Icon::Forward10,
        Icon::Stop,
        Icon::Playlist,
    ];
    for (i, a) in all.iter().enumerate() {
        let g = a.text_glyph();
        assert!(!g.is_empty() && g.len() <= 3 && g.is_ascii(), "{g}");
        for b in all.iter().skip(i + 1) {
            assert_ne!(g, b.text_glyph());
        }
    }
    assert_eq!(Icon::Pause.text_glyph(), "||");
}
