use fluxplay::catalog::Channel;
use fluxplay::playback::{mosaic_meta_line, playlist_neighbor};

fn ch(id: &str, group: Option<&str>) -> Channel {
    Channel {
        id: id.to_string(),
        name: format!("Channel {id}"),
        stream_url: format!("http://s/{id}"),
        logo: None,
        tvg_logo: None,
        group: group.map(|g| g.to_string()),
        kind: fluxplay::catalog::ContentKind::Live,
        source_id: None,
    }
}

fn channels() -> Vec<Channel> {
    vec![
        ch("a", Some("News")),
        ch("b", Some("Sport")),
        ch("c", Some("News")),
        ch("d", None),
        ch("e", Some("News")),
    ]
}

#[test]
fn zap_moves_within_all_channels_and_wraps() {
    let chs = channels();
    assert_eq!(playlist_neighbor(&chs, None, Some("a"), 1).unwrap().id, "b");
    assert_eq!(playlist_neighbor(&chs, None, Some("a"), -1).unwrap().id, "e");
    assert_eq!(playlist_neighbor(&chs, None, Some("e"), 1).unwrap().id, "a");
    assert_eq!(playlist_neighbor(&chs, None, Some("c"), 7).unwrap().id, "e");
}

#[test]
fn zap_moves_within_selected_group() {
    let chs = channels();
    assert_eq!(playlist_neighbor(&chs, Some("News"), Some("a"), 1).unwrap().id, "c");
    assert_eq!(playlist_neighbor(&chs, Some("News"), Some("a"), -1).unwrap().id, "e");
    assert_eq!(playlist_neighbor(&chs, Some("News"), Some("e"), 1).unwrap().id, "a");
}

#[test]
fn zap_from_unknown_channel_starts_at_first() {
    let chs = channels();
    assert_eq!(playlist_neighbor(&chs, Some("News"), Some("zz"), 1).unwrap().id, "c");
    assert_eq!(playlist_neighbor(&chs, Some("News"), Some("zz"), 0).unwrap().id, "a");
}

#[test]
fn zap_needs_current_and_channels() {
    let chs = channels();
    assert!(playlist_neighbor(&chs, None, None, 1).is_none());
    assert!(playlist_neighbor(&chs, Some("Kids"), Some("a"), 1).is_none());
    assert!(playlist_neighbor(&Vec::new(), None, Some("a"), 1).is_none());
}

#[test]
fn meta_line_parts() {
    assert_eq!(
        mosaic_meta_line(Some("2021"), Some(" Drama , Crime"), Some("7.4"), "Film"),
        "2021 · Drama · ★ 7.4"
    );
    assert_eq!(mosaic_meta_line(None, Some("Comedy"), Some("0"), "Film"), "Comedy");
    assert_eq!(mosaic_meta_line(Some(""), Some(" ,x"), Some("0.0"), "Série"), "Série");
    assert_eq!(mosaic_meta_line(None, None, Some("8"), "Film"), "★ 8");
}

fn show() -> fluxplay::catalog::SeriesItem {
    let ep = |id: &str, title: &str| fluxplay::catalog::Episode {
        id: id.to_string(),
        title: title.to_string(),
        stream_url: format!("http://s/{id}.mkv"),
    };
    fluxplay::catalog::SeriesItem {
        id: "s".to_string(),
        name: "Dark".to_string(),
        cover: None,
        banner: None,
        category_id: None,
        plot: None,
        actors: None,
        director: None,
        writer: None,
        runtime: None,
        rated: None,
        awards: None,
        language: None,
        country: None,
        genre: None,
        year: None,
        rating: None,
        imdb_id: None,
        seasons: vec![
            fluxplay::catalog::Season { number: 1, episodes: vec![ep("e1", "Secrets"), ep("e2", "Lies")] },
            fluxplay::catalog::Season { number: 2, episodes: vec![] },
            fluxplay::catalog::Season { number: 3, episodes: vec![ep("e3", "Past")] },
        ],
        source_id: None,
    }
}

#[test]
fn series_queue_and_position() {
    let (q, pos) = fluxplay::playback::series_queue(&show(), "http://s/e2.mkv");
    let titles: Vec<&str> = q.iter().map(|e| e.0.as_str()).collect();
    assert_eq!(titles, vec!["Dark — Secrets", "Dark — Lies", "Dark — Past"]);
    assert_eq!(q[2].1, "http://s/e3.mkv");
    assert_eq!(pos, 1);
    let (_, none) = fluxplay::playback::series_queue(&show(), "http://other");
    assert_eq!(none, 0);
}

#[test]
fn next_episode_to_prefetch() {
    let (q, _) = fluxplay::playback::series_queue(&show(), "");
    let cur = "http://s/e2.mkv";
    assert_eq!(
        fluxplay::playback::next_episode_prefetch(true, true, true, cur, None, &q, 1),
        Some("http://s/e3.mkv".to_string())
    );
    assert_eq!(fluxplay::playback::next_episode_prefetch(true, true, true, cur, Some(cur), &q, 1), None);
    assert_eq!(fluxplay::playback::next_episode_prefetch(true, true, false, cur, None, &q, 1), None);
    assert_eq!(fluxplay::playback::next_episode_prefetch(false, true, true, cur, None, &q, 1), None);
    assert_eq!(fluxplay::playback::next_episode_prefetch(true, true, true, cur, None, &q, 2), None);
}

#[test]
fn episode_list_rows() {
    let rows = fluxplay::playback::episode_rows(&show());
    assert_eq!(
        rows,
        vec![
            fluxplay::playback::EpisodeRow::Header(1),
            fluxplay::playback::EpisodeRow::Episode { season_idx: 0, ep_idx: 0 },
            fluxplay::playback::EpisodeRow::Episode { season_idx: 0, ep_idx: 1 },
            fluxplay::playback::EpisodeRow::Header(2),
            fluxplay::playback::EpisodeRow::Header(3),
            fluxplay::playback::EpisodeRow::Episode { season_idx: 2, ep_idx: 0 },
        ]
    );
}

#[test]
fn zap_forward_then_back_returns() {
    let chs = channels();
    for id in ["a", "b", "c", "d", "e"] {
        let next = playlist_neighbor(&chs, None, Some(id), 1).unwrap();
        assert_eq!(playlist_neighbor(&chs, None, Some(&next.id), -1).unwrap().id, id);
    }
}
