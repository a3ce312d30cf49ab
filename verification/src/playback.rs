//! Small rules of the player and the mosaic: zapping to the neighbouring
//! channel, and the metadata line under a poster.

use vstd::prelude::*;

use crate::catalog::{Channel, ChannelView};
use crate::text::{chars_of, opt_view, push_all, string_of, trim};

verus! {

/// The channels a zap moves through: those of the selected group, or all.
pub open spec fn zap_list(chs: Seq<ChannelView>, group: Option<Seq<char>>) -> Seq<ChannelView> {
    crate::catalog::keep_where(
        chs,
        |c: ChannelView|
            match group {
                Some(g) => c.group == Some(g),
                None => true,
            },
    )
}

/// Position of the first channel with this id (0 when absent).
pub open spec fn zap_position(list: Seq<ChannelView>, id: Seq<char>) -> int
    decreases list.len(),
{
    if list.len() == 0 {
        0
    } else if list[0].id == id {
        0
    } else if exists|k: int| 0 <= k < list.len() && (#[trigger] list[k]).id == id {
        1 + zap_position(list.skip(1), id)
    } else {
        0
    }
}

/// The channel `delta` steps from the current one in the zap list,
/// wrapping around; none without a current channel or an empty list.
pub open spec fn neighbor(
    chs: Seq<ChannelView>,
    group: Option<Seq<char>>,
    current: Option<Seq<char>>,
    delta: i32,
) -> Option<ChannelView> {
    match current {
        None => None,
        Some(id) => {
            let list = zap_list(chs, group);
            if list.len() == 0 {
                None
            } else {
                Some(list[(zap_position(list, id) + delta) % (list.len() as int)])
            }
        },
    }
}

proof fn lemma_zap_position(list: Seq<ChannelView>, id: Seq<char>, i: int)
    requires
        0 <= i < list.len(),
        list[i].id == id,
        forall|k: int| 0 <= k < i ==> (#[trigger] list[k]).id != id,
    ensures
        zap_position(list, id) == i,
    decreases i,
{
    if i > 0 {
        assert(list[0].id != id);
        assert(list.skip(1)[i - 1] == list[i]);
        assert forall|k: int| 0 <= k < i - 1 implies (#[trigger] list.skip(1)[k]).id != id by {
            assert(list.skip(1)[k] == list[k + 1]);
        }
        lemma_zap_position(list.skip(1), id, i - 1);
    }
}

proof fn lemma_zap_position_absent(list: Seq<ChannelView>, id: Seq<char>)
    requires
        forall|k: int| 0 <= k < list.len() ==> (#[trigger] list[k]).id != id,
    ensures
        zap_position(list, id) == 0,
{
    if list.len() > 0 {
        assert(list[0].id != id);
    }
}

/// Zapping forward then back returns to the channel one started from, when
/// the channels of the list have distinct ids.
pub proof fn law_zap_round_trip(chs: Seq<ChannelView>, group: Option<Seq<char>>, cur: int)
    requires
        0 <= cur < zap_list(chs, group).len(),
        forall|i: int, j: int|
            0 <= i < j < zap_list(chs, group).len() ==> (#[trigger] zap_list(chs, group)[i]).id
                != (#[trigger] zap_list(chs, group)[j]).id,
    ensures
        ({
            let list = zap_list(chs, group);
            let next = neighbor(chs, group, Some(list[cur].id), 1i32);
            next matches Some(n) && neighbor(chs, group, Some(n.id), -1i32) == Some(list[cur])
        }),
{
    let list = zap_list(chs, group);
    let n = list.len() as int;
    let id = list[cur].id;
    assert forall|k: int| 0 <= k < cur implies (#[trigger] list[k]).id != id by {
    }
    lemma_zap_position(list, id, cur);
    let p = (cur + 1) % n;
    assert(0 <= p < n);
    let nid = list[p].id;
    assert forall|k: int| 0 <= k < p implies (#[trigger] list[k]).id != nid by {
    }
    lemma_zap_position(list, nid, p);
    assert(((cur + 1) % n + -1) % n == cur) by {
        if cur + 1 < n {
            assert((cur + 1) % n == cur + 1) by (nonlinear_arith)
                requires
                    0 <= cur + 1 < n,
            ;
            assert((cur + 1 - 1) % n == cur) by (nonlinear_arith)
                requires
                    0 <= cur < n,
            ;
        } else {
            assert(cur + 1 == n);
            assert((cur + 1) % n == 0) by (nonlinear_arith)
                requires
                    cur + 1 == n,
                    n > 0,
            ;
            assert((0 + -1) % n == n - 1) by (nonlinear_arith)
                requires
                    n > 0,
            ;
        }
    }
}

/// The channel to zap to from `current`, `delta` steps away among the
/// channels of `selected_group` (all channels when none is selected).
/// The current channel's position plus `delta` must fit in an `i32`.
pub fn playlist_neighbor(
    channels: &Vec<Channel>,
    selected_group: Option<&str>,
    current: Option<&str>,
    delta: i32,
) -> (r: Option<Channel>)
    requires
        channels.len() <= 0x7fff_ffff,
        crate::art::str_view(current) matches Some(id) ==> zap_position(
            zap_list(crate::catalog::channel_views(channels@), crate::art::str_view(selected_group)),
            id,
        ) + delta <= 0x7fff_ffff,
    ensures
        match r {
            Some(c) => neighbor(
                crate::catalog::channel_views(channels@),
                crate::art::str_view(selected_group),
                crate::art::str_view(current),
                delta,
            ) == Some(c@),
            None => neighbor(
                crate::catalog::channel_views(channels@),
                crate::art::str_view(selected_group),
                crate::art::str_view(current),
                delta,
            ) is None,
        },
{
    let cur = match current {
        Some(c) => c,
        None => {
            return None;
        },
    };
    let ghost chs = crate::catalog::channel_views(channels@);
    let ghost group = crate::art::str_view(selected_group);
    let ghost p = |c: ChannelView|
        match group {
            Some(g) => c.group == Some(g),
            None => true,
        };
    let gsel: Option<String> = match selected_group {
        Some(g) => {
            let gc = chars_of(g);
            Some(string_of(gc.as_slice()))
        },
        None => None,
    };
    let mut list: Vec<usize> = Vec::new();
    let mut i: usize = 0;
    while i < channels.len()
        invariant
            i <= channels.len(),
            chs == crate::catalog::channel_views(channels@),
            opt_view(gsel) == group,
            p == (|c: ChannelView|
                match group {
                    Some(g) => c.group == Some(g),
                    None => true,
                }),
            list@.map_values(|k: usize| chs[k as int]) == crate::catalog::keep_where(
                chs.take(i as int),
                p,
            ),
            forall|t: int| 0 <= t < list.len() ==> (#[trigger] list@[t]) < i,
            list.len() <= i,
        decreases channels.len() - i,
    {
        let ghost pre = chs.take(i + 1);
        assert(pre.drop_last() =~= chs.take(i as int));
        assert(pre.last() == channels@[i as int]@);
        let keep = match &gsel {
            Some(g) => match &channels[i].group {
                Some(cg) => crate::gpu::str_eq(cg, g),
                None => false,
            },
            None => true,
        };
        let ghost before = list@.map_values(|k: usize| chs[k as int]);
        if keep {
            list.push(i);
            assert(list@.map_values(|k: usize| chs[k as int]) =~= before.push(chs[i as int]));
        }
        i += 1;
    }
    assert(chs.take(i as int) =~= chs);
    let ghost lv = list@.map_values(|k: usize| chs[k as int]);
    assert(lv == zap_list(chs, group));
    if list.len() == 0 {
        return None;
    }
    let cur_s = {
        let cc = chars_of(cur);
        string_of(cc.as_slice())
    };
    let mut idx: usize = 0;
    let mut found = false;
    let mut j: usize = 0;
    while j < list.len() && !found
        invariant
            j <= list.len(),
            idx < list.len(),
            list.len() <= channels.len(),
            lv == list@.map_values(|k: usize| chs[k as int]),
            forall|t: int| 0 <= t < list.len() ==> (#[trigger] list@[t]) < channels.len(),
            chs == crate::catalog::channel_views(channels@),
            cur_s@ == cur@,
            !found ==> idx == 0,
            found ==> idx < list.len() && lv[idx as int].id == cur@ && forall|k: int|
                0 <= k < idx ==> (#[trigger] lv[k]).id != cur@,
            !found ==> forall|k: int| 0 <= k < j ==> (#[trigger] lv[k]).id != cur@,
        decreases list.len() - j,
    {
        let k = list[j];
        assert(lv[j as int] == chs[k as int]);
        assert(chs[k as int] == channels@[k as int]@);
        if crate::gpu::str_eq(&channels[k].id, &cur_s) {
            idx = j;
            found = true;
        }
        j += 1;
    }
    proof {
        if found {
            lemma_zap_position(lv, cur@, idx as int);
            assert(zap_position(lv, cur@) == idx);
        } else {
            assert(j == list.len());
            lemma_zap_position_absent(lv, cur@);
            assert(zap_position(lv, cur@) == 0);
            assert(idx == 0);
        }
    }
    let n = list.len() as u64;
    let next: usize = if delta >= 0 {
        ((idx as u64 + delta as u64) % n) as usize
    } else {
        let d: u64 = if delta == i32::MIN {
            0x8000_0000
        } else {
            (-delta) as u64
        };
        let dm = d % n;
        ((idx as u64 + (n - dm)) % n) as usize
    };
    assert(next < list.len());
    assert(lv[next as int] == chs[list@[next as int] as int]);
    assert(chs[list@[next as int] as int] == channels@[list@[next as int] as int]@);
    proof {
        let a = idx as int + delta as int;
        let ni = n as int;
        if delta < 0 {
            let d = -(delta as int);
            let q = d / ni;
            let dm = d % ni;
            vstd::arithmetic::div_mod::lemma_fundamental_div_mod(d, ni);
            assert(d == ni * q + dm);
            assert(a == (idx as int + ni - dm) + ni * (-(q + 1))) by (nonlinear_arith)
                requires
                    a == idx as int - d,
                    d == ni * q + dm,
            ;
            vstd::arithmetic::div_mod::lemma_mod_multiples_vanish(
                -(q + 1),
                idx as int + ni - dm,
                ni,
            );
            assert(ni * (-(q + 1)) + (idx as int + ni - dm) == a);
            assert(next as int == (idx as int + ni - dm) % ni);
            assert(next as int == a % ni);
        } else {
            assert(next as int == a % ni);
        }
        assert(zap_position(lv, cur@) == idx);
        assert(neighbor(chs, group, Some(cur@), delta) == Some(lv[next as int]));
    }
    Some(channels[list[next]].clone())
}

/// The parts of a poster's metadata line: the year, the first genre, and
/// the rating (not 0) after a star.
pub open spec fn meta_parts(year: Option<Seq<char>>, genre: Option<Seq<char>>, rating: Option<Seq<char>>) -> Seq<Seq<char>> {
    let y = match year {
        Some(v) => if v.len() > 0 {
            seq![v]
        } else {
            seq![]
        },
        None => seq![],
    };
    let g = match genre {
        Some(v) => if v.len() > 0 && trim(crate::display::first_piece(v, ',')).len() > 0 {
            seq![trim(crate::display::first_piece(v, ','))]
        } else {
            seq![]
        },
        None => seq![],
    };
    let r = match rating {
        Some(v) => if v.len() > 0 && v != "0"@ && v != "0.0"@ {
            seq!['★', ' '] + v
        } else {
            seq![]
        },
        None => seq![],
    };
    y + g + if r.len() > 0 {
        seq![r]
    } else {
        seq![]
    }
}

/// The metadata line: the parts joined with ` · `, or the fallback.
pub open spec fn meta_line(
    year: Option<Seq<char>>,
    genre: Option<Seq<char>>,
    rating: Option<Seq<char>>,
    fallback: Seq<char>,
) -> Seq<char> {
    let parts = meta_parts(year, genre, rating);
    if parts.len() == 0 {
        fallback
    } else {
        crate::android::joined(parts)
    }
}


/// The metadata line under a poster: year, first genre and rating (after
/// a star, unless 0) joined with ` · `, or `fallback` when none is known.
pub fn mosaic_meta_line(
    year: Option<&str>,
    genre: Option<&str>,
    rating: Option<&str>,
    fallback: &str,
) -> (r: String)
    ensures
        r@ == meta_line(
            crate::art::str_view(year),
            crate::art::str_view(genre),
            crate::art::str_view(rating),
            fallback@,
        ),
{
    let ghost parts = meta_parts(
        crate::art::str_view(year),
        crate::art::str_view(genre),
        crate::art::str_view(rating),
    );
    let mut items: Vec<Vec<char>> = Vec::new();
    match year {
        Some(y) => {
            let yc = chars_of(y);
            if yc.len() > 0 {
                items.push(yc);
            }
        },
        None => {},
    }
    match genre {
        Some(g) => {
            let gc = chars_of(g);
            if gc.len() > 0 {
                let head = crate::display::first_piece_exec(gc.as_slice(), ',');
                let t = crate::text::trim_exec(head.as_slice());
                if t.len() > 0 {
                    items.push(t);
                }
            }
        },
        None => {},
    }
    match rating {
        Some(rt) => {
            let rc = chars_of(rt);
            let zero = chars_of("0");
            let zero2 = chars_of("0.0");
            if rc.len() > 0 && !crate::text::chars_eq(rc.as_slice(), zero.as_slice())
                && !crate::text::chars_eq(rc.as_slice(), zero2.as_slice()) {
                let mut v: Vec<char> = Vec::new();
                v.push('★');
                v.push(' ');
                push_all(&mut v, rc.as_slice());
                assert(v@ =~= seq!['★', ' '] + rc@);
                items.push(v);
            }
        },
        None => {},
    }
    assert(crate::text::views(items@) =~= parts);
    if items.len() == 0 {
        let fc = chars_of(fallback);
        return string_of(fc.as_slice());
    }
    let ghost pv = crate::text::views(items@);
    let mut out = crate::text::sub_chars(items[0].as_slice(), 0, items[0].len());
    assert(out@ =~= pv[0]);
    assert(pv.take(1) =~= seq![pv[0]]);
    let sep = chars_of(" · ");
    let mut j: usize = 1;
    while j < items.len()
        invariant
            1 <= j <= items.len(),
            pv == crate::text::views(items@),
            sep@ == " · "@,
            out@ == crate::android::joined(pv.take(j as int)),
        decreases items.len() - j,
    {
        assert(pv.take(j + 1).drop_last() =~= pv.take(j as int));
        assert(pv.take(j + 1).last() == items@[j as int]@);
        push_all(&mut out, sep.as_slice());
        push_all(&mut out, items[j].as_slice());
        j += 1;
    }
    assert(pv.take(j as int) =~= pv);
    string_of(out.as_slice())
}

/// Queue entries of a season: `"{series} — {episode}"` and the URL.
pub open spec fn season_entries(name: Seq<char>, eps: Seq<crate::catalog::EpisodeView>) -> Seq<
    (Seq<char>, Seq<char>),
> {
    eps.map_values(|e: crate::catalog::EpisodeView| (name + " — "@ + e.1, e.2))
}

/// The play queue of a series, season by season.
pub open spec fn series_queue_of(name: Seq<char>, seasons: Seq<crate::catalog::SeasonView>) -> Seq<
    (Seq<char>, Seq<char>),
>
    decreases seasons.len(),
{
    if seasons.len() == 0 {
        seq![]
    } else {
        series_queue_of(name, seasons.drop_last()) + season_entries(name, seasons.last().episodes)
    }
}

/// Position of the first entry with this URL.
pub open spec fn find_url(q: Seq<(Seq<char>, Seq<char>)>, url: Seq<char>) -> Option<nat>
    decreases q.len(),
{
    if q.len() == 0 {
        None
    } else if q[0].1 == url {
        Some(0)
    } else {
        match find_url(q.skip(1), url) {
            Some(k) => Some(k + 1),
            None => None,
        }
    }
}

proof fn lemma_find_url_from(q: Seq<(Seq<char>, Seq<char>)>, url: Seq<char>, i: int)
    requires
        0 <= i <= q.len(),
        forall|k: int| 0 <= k < i ==> (#[trigger] q[k]).1 != url,
    ensures
        find_url(q, url) == match find_url(q.skip(i), url) {
            Some(k) => Some((k + i) as nat),
            None => None::<nat>,
        },
    decreases i,
{
    if i > 0 {
        assert(q[0].1 != url);
        assert forall|k: int| 0 <= k < i - 1 implies (#[trigger] q.skip(1)[k]).1 != url by {
            assert(q.skip(1)[k] == q[k + 1]);
        }
        lemma_find_url_from(q.skip(1), url, i - 1);
        assert(q.skip(1).skip(i - 1) =~= q.skip(i));
    } else {
        assert(q.skip(0) =~= q);
    }
}

pub open spec fn queue_views(q: Seq<(String, String)>) -> Seq<(Seq<char>, Seq<char>)> {
    q.map_values(|e: (String, String)| (e.0@, e.1@))
}

/// The play queue of a series and the position of the episode playing at
/// `current_url` (0 when it is not in the queue).
pub fn series_queue(series: &crate::catalog::SeriesItem, current_url: &str) -> (r: (
    Vec<(String, String)>,
    usize,
))
    ensures
        queue_views(r.0@) == series_queue_of(series@.name, series@.seasons),
        r.1 == match find_url(queue_views(r.0@), current_url@) {
            Some(k) => k,
            None => 0,
        },
{
    let ghost ss = series@.seasons;
    let ghost name = series@.name;
    let sep = chars_of(" — ");
    let nc = chars_of(series.name.as_str());
    let mut q: Vec<(String, String)> = Vec::new();
    let mut si: usize = 0;
    while si < series.seasons.len()
        invariant
            si <= series.seasons.len(),
            ss == series@.seasons,
            name == series@.name,
            nc@ == series.name@,
            sep@ == " — "@,
            queue_views(q@) == series_queue_of(name, ss.take(si as int)),
        decreases series.seasons.len() - si,
    {
        let season = &series.seasons[si];
        let ghost base = queue_views(q@);
        let ghost eps = season@.episodes;
        assert(ss.take(si + 1).drop_last() =~= ss.take(si as int));
        assert(ss.take(si + 1).last() == season@);
        let mut ei: usize = 0;
        while ei < season.episodes.len()
            invariant
                ei <= season.episodes.len(),
                eps == season@.episodes,
                nc@ == name,
                sep@ == " — "@,
                queue_views(q@) == base + season_entries(name, eps.take(ei as int)),
            decreases season.episodes.len() - ei,
        {
            let ep = &season.episodes[ei];
            let mut title = crate::text::sub_chars(nc.as_slice(), 0, nc.len());
            push_all(&mut title, sep.as_slice());
            let tc = chars_of(ep.title.as_str());
            push_all(&mut title, tc.as_slice());
            assert(nc@.subrange(0, nc@.len() as int) =~= nc@);
            assert(title@ =~= name + " — "@ + ep.title@);
            let ghost before = queue_views(q@);
            let entry = (string_of(title.as_slice()), ep.stream_url.clone());
            assert(eps[ei as int] == (ep.id@, ep.title@, ep.stream_url@));
            q.push(entry);
            assert(queue_views(q@) =~= before.push((name + " — "@ + eps[ei as int].1, eps[ei as int].2)));
            assert(eps.take(ei + 1) =~= eps.take(ei as int).push(eps[ei as int]));
            assert(season_entries(name, eps.take(ei + 1)) =~= season_entries(name, eps.take(ei as int)).push(
                (name + " — "@ + eps[ei as int].1, eps[ei as int].2),
            ));
            ei += 1;
        }
        assert(eps.take(ei as int) =~= eps);
        si += 1;
    }
    assert(ss.take(si as int) =~= ss);
    let ghost qv = queue_views(q@);
    let mut pos: usize = 0;
    let mut found = false;
    let mut k: usize = 0;
    while k < q.len()
        invariant_except_break
            !found,
            pos == 0,
        invariant
            k <= q.len(),
            qv == queue_views(q@),
            forall|j: int| 0 <= j < k ==> (#[trigger] qv[j]).1 != current_url@,
        ensures
            k <= q.len(),
            forall|j: int| 0 <= j < k ==> (#[trigger] qv[j]).1 != current_url@,
            found ==> k < q.len() && qv[k as int].1 == current_url@ && pos == k,
            !found ==> k == q.len() && pos == 0,
        decreases q.len() - k,
    {
        assert(qv[k as int] == (q@[k as int].0@, q@[k as int].1@));
        let cur = current_url.to_string();
        assert(cur@ == current_url@);
        if crate::gpu::str_eq(&q[k].1, &cur) {
            found = true;
            pos = k;
            break;
        }
        k += 1;
    }
    proof {
        lemma_find_url_from(qv, current_url@, k as int);
        if found {
            assert(qv.skip(k as int)[0] == qv[k as int]);
        } else {
            assert(qv.skip(k as int).len() == 0);
        }
    }
    (q, pos)
}

/// The next episode to download ahead: when the option is on, a series
/// plays past the threshold, the current URL was not handled yet, and the
/// queue has an entry after `idx`; that entry's URL.
pub open spec fn next_prefetch(
    enabled: bool,
    playing_series: bool,
    past_threshold: bool,
    current_url: Seq<char>,
    armed_for: Option<Seq<char>>,
    queue: Seq<(Seq<char>, Seq<char>)>,
    idx: nat,
) -> Option<Seq<char>> {
    if !enabled || !playing_series || !past_threshold || armed_for == Some(current_url) {
        None
    } else if idx + 1 < queue.len() {
        Some(queue[idx + 1 as int].1)
    } else {
        None
    }
}

/// The URL of the next episode to download ahead, if any; the caller then
/// remembers `current_url` as handled.
pub fn next_episode_prefetch(
    enabled: bool,
    playing_series: bool,
    past_threshold: bool,
    current_url: &str,
    armed_for: Option<&str>,
    queue: &Vec<(String, String)>,
    idx: usize,
) -> (r: Option<String>)
    ensures
        opt_view(r) == next_prefetch(
            enabled,
            playing_series,
            past_threshold,
            current_url@,
            crate::art::str_view(armed_for),
            queue_views(queue@),
            idx as nat,
        ),
{
    if !enabled || !playing_series || !past_threshold {
        return None;
    }
    match armed_for {
        Some(a) => {
            let ac = chars_of(a);
            let cc = chars_of(current_url);
            if crate::text::chars_eq(ac.as_slice(), cc.as_slice()) {
                return None;
            }
        },
        None => {},
    }
    if idx < queue.len() && idx + 1 < queue.len() {
        assert(queue_views(queue@)[idx + 1 as int] == (queue@[idx + 1 as int].0@, queue@[idx + 1 as int].1@));
        Some(queue[idx + 1].1.clone())
    } else {
        None
    }
}

/// A row of the episode list: a season header, or an episode by season
/// and episode position.
#[derive(Debug, Clone, Copy, PartialEq, Eq, Structural)]
pub enum EpisodeRow {
    Header(u32),
    Episode { season_idx: usize, ep_idx: usize },
}

/// Rows of one season: its header, then its episodes.
pub open spec fn season_rows(si: nat, number: u32, n: nat) -> Seq<EpisodeRow> {
    seq![EpisodeRow::Header(number)] + Seq::new(
        n,
        |e: int| EpisodeRow::Episode { season_idx: si as usize, ep_idx: e as usize },
    )
}

/// The episode list of a series: each season's header followed by its episodes.
pub open spec fn episode_rows_of(seasons: Seq<crate::catalog::SeasonView>) -> Seq<EpisodeRow>
    decreases seasons.len(),
{
    if seasons.len() == 0 {
        seq![]
    } else {
        episode_rows_of(seasons.drop_last()) + season_rows(
            (seasons.len() - 1) as nat,
            seasons.last().number,
            seasons.last().episodes.len(),
        )
    }
}

/// The episode list of the open series.
pub fn episode_rows(series: &crate::catalog::SeriesItem) -> (r: Vec<EpisodeRow>)
    ensures
        r@ == episode_rows_of(series@.seasons),
{
    let ghost ss = series@.seasons;
    let mut out: Vec<EpisodeRow> = Vec::new();
    let mut si: usize = 0;
    while si < series.seasons.len()
        invariant
            si <= series.seasons.len(),
            ss == series@.seasons,
            out@ == episode_rows_of(ss.take(si as int)),
        decreases series.seasons.len() - si,
    {
        let season = &series.seasons[si];
        assert(ss.take(si + 1).drop_last() =~= ss.take(si as int));
        assert(ss.take(si + 1).last() == season@);
        let ghost base = out@;
        out.push(EpisodeRow::Header(season.number));
        let n = season.episodes.len();
        assert(season@.episodes.len() == n);
        let mut ei: usize = 0;
        while ei < n
            invariant
                ei <= n,
                out@ == base + season_rows(si as nat, season.number, ei as nat),
            decreases n - ei,
        {
            out.push(EpisodeRow::Episode { season_idx: si, ep_idx: ei });
            assert(season_rows(si as nat, season.number, (ei + 1) as nat) =~= season_rows(
                si as nat,
                season.number,
                ei as nat,
            ).push(EpisodeRow::Episode { season_idx: si, ep_idx: ei }));
            ei += 1;
        }
        si += 1;
    }
    assert(ss.take(si as int) =~= ss);
    out
}

} // verus!
