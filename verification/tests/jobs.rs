use fluxplay::browse::{build_browse_index, truncate_ui, BrowseIndex, Tab};
use fluxplay::icons::Icon;
use fluxplay::jobs::{for_each_chunk, progress_label, status_suffix_from, JobMeters, JobProgress};

#[test]
fn progress_labels() {
    assert_eq!(progress_label("ingest", 0, 0), None);
    assert_eq!(progress_label("ingest", 40, 100), Some("ingest 40%".to_string()));
    assert_eq!(progress_label("ingest", 100, 100), Some("ingest ok".to_string()));
    assert_eq!(progress_label("index", 999, 1000), Some("index 99%".to_string()));
    // The scaled count saturates, so huge totals read low.
    assert_eq!(progress_label("x", u64::MAX - 1, u64::MAX), Some("x 1%".to_string()));
}

#[test]
fn status_suffix_parts() {
    assert_eq!(status_suffix_from(None, (0, 0), None, (0, 0), (0, 0)), "");
    assert_eq!(
        status_suffix_from(
            Some("ingest 40%".to_string()),
            (40, 100),
            Some("index ok".to_string()),
            (5, 5),
            (3, 24)
        ),
        " · ingest 40% · images 3/24"
    );
}

#[test]
fn meters_and_progress() {
    let p = JobProgress::new(10);
    p.add_done(4);
    p.tick();
    assert_eq!(p.snapshot(), (5, 10));
    assert_eq!(p.label_fr("ingest"), Some("ingest 50%".to_string()));
    p.reset(0);
    assert_eq!(p.snapshot(), (0, 0));
    let m = JobMeters::new();
    assert_eq!(m.bump_browse_gen(), 1);
    assert_eq!(m.browse_gen(), 1);
    m.images.set_total(24);
    m.images.set_done(3);
    assert_eq!(m.status_suffix_fr(), " · images 3/24");
}

#[test]
fn chunks_visit_everything_in_order() {
    let items: Vec<u32> = (0..10).collect();
    let mut seen: Vec<Vec<u32>> = Vec::new();
    let p = JobProgress::new(0);
    let r = for_each_chunk(&items, 4, Some(&p), |c: &[u32]| {
        seen.push(c.to_vec());
        Ok(())
    });
    assert!(r.is_ok());
    assert_eq!(seen, vec![vec![0, 1, 2, 3], vec![4, 5, 6, 7], vec![8, 9]]);
    assert_eq!(p.snapshot(), (10, 10));
    let mut calls = 0;
    let e = for_each_chunk(&items, 0, None, |_c: &[u32]| {
        calls += 1;
        if calls == 2 {
            Err("stop".to_string())
        } else {
            Ok(())
        }
    });
    assert_eq!(e, Err("stop".to_string()));
    assert_eq!(calls, 2);
}

#[test]
fn ui_truncation_and_tabs() {
    assert_eq!(truncate_ui("Télévision", 4), "Télé…");
    assert_eq!(truncate_ui("abc", 3), "abc");
    assert_eq!(Tab::Live.label(), "Télévision");
    assert_eq!(Tab::all().len(), 7);
    assert_eq!(Tab::all()[0], Tab::Live);
    assert_eq!(Icon::Play.svg_asset(), "icons/play_arrow.svg");
    assert_eq!(Icon::Stop.png_asset(), "icons/png/stop.png");
}

#[test]
fn browse_index_filters_live_rows() {
    let live = vec![
        (0usize, "France 24".to_string(), Some("News".to_string())),
        (1usize, "Eurosport".to_string(), Some("Sport".to_string())),
        (2usize, "BFM".to_string(), Some("News".to_string())),
    ];
    let p = JobProgress::new(0);
    let idx = build_browse_index(
        Tab::Live,
        "",
        Some("News".to_string()),
        None,
        None,
        &live,
        &Vec::new(),
        &Vec::new(),
        None,
        None,
        &p,
    );
    assert_eq!(idx.window(0, idx.len()), vec![0, 2]);
    let q = build_browse_index(
        Tab::Live,
        "SPORT",
        None,
        None,
        None,
        &live,
        &Vec::new(),
        &Vec::new(),
        None,
        None,
        &p,
    );
    assert_eq!(q.window(0, q.len()), vec![1]);
    let none = build_browse_index(
        Tab::Live,
        "zzz",
        None,
        None,
        None,
        &live,
        &Vec::new(),
        &Vec::new(),
        None,
        None,
        &p,
    );
    assert!(matches!(none, BrowseIndex::Empty));
}

#[test]
fn browse_index_uses_search_hits() {
    let vod = vec![
        (0usize, "v1".to_string(), "Alien".to_string(), Some("10".to_string())),
        (1usize, "v2".to_string(), "Aliens".to_string(), Some("11".to_string())),
        (2usize, "v3".to_string(), "Heat".to_string(), Some("10".to_string())),
    ];
    let p = JobProgress::new(0);
    let hits = build_browse_index(
        Tab::Vod,
        "alien",
        None,
        Some("*".to_string()),
        None,
        &Vec::new(),
        &vod,
        &Vec::new(),
        Some(vec!["v2".to_string()]),
        None,
        &p,
    );
    assert_eq!(hits.window(0, hits.len()), vec![1]);
    let like = build_browse_index(
        Tab::Vod,
        "alien",
        None,
        Some("10".to_string()),
        None,
        &Vec::new(),
        &vod,
        &Vec::new(),
        None,
        None,
        &p,
    );
    assert_eq!(like.window(0, like.len()), vec![0]);
}

#[test]
fn chunks_stop_at_first_error_and_count_done() {
    let items: Vec<u32> = (0..10).collect();
    let p = JobProgress::new(0);
    let mut seen: Vec<Vec<u32>> = Vec::new();
    let r = for_each_chunk(&items, 3, Some(&p), |c: &[u32]| {
        seen.push(c.to_vec());
        if seen.len() == 2 {
            Err("bad chunk".to_string())
        } else {
            Ok(())
        }
    });
    assert_eq!(r, Err("bad chunk".to_string()));
    assert_eq!(seen, vec![vec![0, 1, 2], vec![3, 4, 5]]);
    assert_eq!(p.snapshot(), (3, 10));
    let mut calls = 0;
    let empty: Vec<u32> = Vec::new();
    assert!(for_each_chunk(&empty, 4, None, |_c: &[u32]| {
        calls += 1;
        Ok(())
    })
    .is_ok());
    assert_eq!(calls, 0);
}
