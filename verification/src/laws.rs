//! Properties of the library as a whole, proved over the specifications of
//! the functions they relate.

use vstd::prelude::*;

use crate::art::{
    bad_image, fetch_action, usable_copy, FetchAction, FetchEvent, MAX_IMAGE_BYTES, host_of, host_resting, request_step, soft_fail_step, CacheView, OutcomeView, HOST_COOLDOWN_MS,
    HOST_FAIL_TRIP, URL_SOFT_FAIL_MS,
};
use crate::catalog::{
    bytes_lt, category_rec, channel_rec, enc, episode_total, first_by_key, hex_of, insert_rec, key_lt,
    apply_skipped, sha256_of, sort_recs, CategoryView, ChannelView, Rec, SourceApply, key_seen, series_kept, series_rec, spine_bytes,
    vod_kept, vod_rec, BundleView, SeriesView, Text, VodView,
};
use crate::display::{clamp, pref_rate, period_of, MAX_HZ, MIN_HZ};
use crate::gpu::{any_tier, of_tier, topology_of, DeviceView, GpuDecodePolicy, GpuTier};
use crate::sources::{cred_key, demo_stripped, is_demo_name, sanitized, SourceKind, SourceView};

verus! {

/// A browse index over the whole catalog maps every window of positions to
/// the same catalog indices.
pub proof fn law_identity_window(len: nat, start: int, end: int)
    requires
        0 <= start <= end <= len,
    ensures
        Seq::new(len, |i: int| i as usize).subrange(start, end) == Seq::new(
            (end - start) as nat,
            |k: int| (start + k) as usize,
        ),
{
    assert(Seq::new(len, |i: int| i as usize).subrange(start, end) =~= Seq::new(
        (end - start) as nat,
        |k: int| (start + k) as usize,
    ));
}

/// Keeping the stored metadata of a VOD item a second time changes nothing.
pub proof fn law_vod_keep_meta_idempotent(p: VodView, o: VodView)
    ensures
        vod_kept(vod_kept(p, o), o) == vod_kept(p, o),
{
}

/// Keeping the stored metadata of a series a second time changes nothing.
pub proof fn law_series_keep_meta_idempotent(p: SeriesView, o: SeriesView)
    ensures
        series_kept(series_kept(p, o), o) == series_kept(p, o),
{
}

/// After sanitizing, no two enabled Xtream sources share an account.
pub proof fn law_no_shared_account(ss: Seq<SourceView>, i: int, j: int)
    requires
        0 <= i < j < ss.len(),
        sanitized(ss)[i].enabled,
        sanitized(ss)[j].enabled,
        ss[i].kind == SourceKind::Xtream,
        ss[j].kind == SourceKind::Xtream,
        cred_key(ss[i]) is Some,
    ensures
        cred_key(ss[i]) != cred_key(ss[j]),
{
    let t = sanitized(ss);
    assert(t[i].enabled == crate::sources::stays_enabled(ss, i));
    assert(t[j].enabled == crate::sources::stays_enabled(ss, j));
    if cred_key(ss[i]) == cred_key(ss[j]) {
        assert(ss[i].enabled);
        assert(crate::sources::account_seen_before(ss, j));
        assert(false);
    }
}

/// With a real profile present, no demo entry is left, and every real
/// profile stays.
pub proof fn law_demo_stripped(ss: Seq<SourceView>)
    requires
        exists|j: int| 0 <= j < ss.len() && !is_demo_name((#[trigger] ss[j]).name),
    ensures
        forall|k: int|
            0 <= k < demo_stripped(ss).len() ==> !is_demo_name(
                (#[trigger] demo_stripped(ss)[k]).name,
            ),
        forall|k: int|
            0 <= k < ss.len() && !is_demo_name((#[trigger] ss[k]).name) ==> demo_stripped(
                ss,
            ).contains(ss[k]),
{
    lemma_keep_where_props(ss, |s: SourceView| !is_demo_name(s.name));
}

/// What `keep_where` keeps: exactly the elements satisfying the predicate.
pub proof fn lemma_keep_where_props<A>(s: Seq<A>, p: spec_fn(A) -> bool)
    ensures
        forall|k: int|
            0 <= k < crate::catalog::keep_where(s, p).len() ==> p(
                #[trigger] crate::catalog::keep_where(s, p)[k],
            ),
        forall|k: int| 0 <= k < s.len() && p(#[trigger] s[k]) ==> crate::catalog::keep_where(
            s,
            p,
        ).contains(s[k]),
    decreases s.len(),
{
    if s.len() > 0 {
        let d = s.drop_last();
        lemma_keep_where_props(d, p);
        let r = crate::catalog::keep_where(d, p);
        assert forall|k: int| 0 <= k < s.len() && p(#[trigger] s[k]) implies crate::catalog::keep_where(
            s,
            p,
        ).contains(s[k]) by {
            if k < s.len() - 1 {
                assert(d[k] == s[k]);
                assert(r.contains(s[k]));
                let t = choose|t: int| 0 <= t < r.len() && r[t] == s[k];
                if p(s.last()) {
                    assert(r.push(s.last())[t] == s[k]);
                }
            } else {
                assert(r.push(s.last())[r.len() as int] == s[k]);
            }
        }
    }
}

/// Reloading a source leaves at most one item per id.
pub proof fn law_first_by_key_unique<A>(s: Seq<A>, key: spec_fn(A) -> Text)
    ensures
        forall|i: int, j: int|
            0 <= i < j < first_by_key(s, key).len() ==> key(#[trigger] first_by_key(s, key)[i])
                != key(#[trigger] first_by_key(s, key)[j]),
    decreases s.len(),
{
    if s.len() > 0 {
        let d = s.drop_last();
        law_first_by_key_unique(d, key);
        lemma_first_by_key_from(d, key);
        let r = first_by_key(d, key);
        if !key_seen(d, key, key(s.last())) {
            let r2 = r.push(s.last());
            assert forall|i: int, j: int|
                0 <= i < j < r2.len() implies key(#[trigger] r2[i]) != key(#[trigger] r2[j]) by {
                if j == r.len() {
                    assert(r2[i] == r[i]);
                    if key(r[i]) == key(s.last()) {
                        let t = choose|t: int| 0 <= t < d.len() && d[t] == r[i];
                        assert(key_seen(d, key, key(s.last())));
                    }
                } else {
                    assert(r2[i] == r[i]);
                    assert(r2[j] == r[j]);
                }
            }
        }
    }
}

/// Every element kept by `first_by_key` comes from the input.
pub proof fn lemma_first_by_key_from<A>(s: Seq<A>, key: spec_fn(A) -> Text)
    ensures
        forall|i: int|
            0 <= i < first_by_key(s, key).len() ==> exists|t: int|
                0 <= t < s.len() && s[t] == #[trigger] first_by_key(s, key)[i],
    decreases s.len(),
{
    if s.len() > 0 {
        let d = s.drop_last();
        lemma_first_by_key_from(d, key);
        let r = first_by_key(d, key);
        assert forall|i: int| 0 <= i < first_by_key(s, key).len() implies exists|t: int|
            0 <= t < s.len() && s[t] == #[trigger] first_by_key(s, key)[i] by {
            if i < r.len() {
                let t = choose|t: int| 0 <= t < d.len() && d[t] == r[i];
                assert(s[t] == d[t]);
                if !key_seen(d, key, key(s.last())) {
                    assert(r.push(s.last())[i] == r[i]);
                }
            } else {
                assert(first_by_key(s, key)[i] == s.last());
                assert(s[s.len() - 1] == s.last());
            }
        }
    }
}

/// Two dumps with the same spine (ids, URLs, names, art, categories, season
/// and episode counts) have the same checksum input, whatever their
/// enrichment (plot, cast, ratings, ids), owner, EPG or episode contents.
pub proof fn law_checksum_ignores_enrichment(a: BundleView, b: BundleView)
    requires
        a.categories == b.categories,
        a.channels.len() == b.channels.len(),
        forall|k: int| 0 <= k < a.channels.len() ==> channel_rec(#[trigger] a.channels[k]) == channel_rec(b.channels[k]),
        a.vod.len() == b.vod.len(),
        forall|k: int|
            0 <= k < a.vod.len() ==> {
                let x = #[trigger] a.vod[k];
                let y = b.vod[k];
                x.id == y.id && x.stream_url == y.stream_url && x.name == y.name && x.poster
                    == y.poster && x.category_id == y.category_id
            },
        a.series.len() == b.series.len(),
        forall|k: int|
            0 <= k < a.series.len() ==> {
                let x = #[trigger] a.series[k];
                let y = b.series[k];
                x.id == y.id && x.name == y.name && x.cover == y.cover && x.banner == y.banner
                    && x.category_id == y.category_id && x.seasons.len() == y.seasons.len()
                    && episode_total(x.seasons) == episode_total(y.seasons)
            },
    ensures
        spine_bytes(a) == spine_bytes(b),
{
    assert(a.channels.map_values(|c: crate::catalog::ChannelView| channel_rec(c)) =~= b.channels.map_values(
        |c: crate::catalog::ChannelView| channel_rec(c),
    ));
    assert(a.vod.map_values(|v: VodView| vod_rec(v)) =~= b.vod.map_values(|v: VodView| vod_rec(v)));
    assert(a.series.map_values(|v: SeriesView| series_rec(v)) =~= b.series.map_values(
        |v: SeriesView| series_rec(v),
    ));
}

/// A request never takes the fetches in flight past the cap.
pub proof fn law_inflight_cap(c: CacheView, u: Seq<char>, src: Option<u128>, now: u64)
    requires
        c.inflight.finite(),
        c.inflight.len() <= c.max_inflight,
    ensures
        request_step(c, u, src, now).0.inflight.finite(),
        request_step(c, u, src, now).0.inflight.len() <= c.max_inflight,
{
}

/// A permanently failed URL is skipped and changes nothing.
pub proof fn law_failed_url_skipped(c: CacheView, u: Seq<char>, src: Option<u128>, now: u64)
    requires
        c.failed.contains(u),
    ensures
        request_step(c, u, src, now) == (c, OutcomeView::Skip),
{
}

/// A host one failure away from the trip count rests after one more
/// transient failure, and requests for its URLs are skipped while it rests.
pub proof fn law_host_trips(c: CacheView, u: Seq<char>, h: Seq<char>, now: u64)
    requires
        host_of(u) == Some(h),
        c.hosts.contains_key(h),
        c.hosts[h] == ((HOST_FAIL_TRIP - 1) as u32, None::<u64>),
        now + HOST_COOLDOWN_MS <= u64::MAX,
    ensures
        host_resting(soft_fail_step(c, u, now), u, now),
{
}

/// A URL that just failed transiently is skipped until it has rested.
pub proof fn law_soft_failed_url_rests(c: CacheView, u: Seq<char>, src: Option<u128>, now: u64, later: u64)
    requires
        now + HOST_COOLDOWN_MS <= u64::MAX,
        now <= later < now + URL_SOFT_FAIL_MS,
    ensures
        request_step(soft_fail_step(c, u, now), u, src, later).1 == OutcomeView::Skip,
{
    let c2 = soft_fail_step(c, u, now);
    assert(c2.soft.contains_key(u));
    assert(c2.soft[u] == now + URL_SOFT_FAIL_MS);
}

/// The devices of a tier, listed, are of that tier; there is one when some
/// device has it.
pub proof fn lemma_of_tier(ds: Seq<DeviceView>, t: GpuTier)
    ensures
        forall|k: int| 0 <= k < of_tier(ds, t).len() ==> (#[trigger] of_tier(ds, t)[k]).1 == t,
        any_tier(ds, t) ==> of_tier(ds, t).len() > 0,
    decreases ds.len(),
{
    if ds.len() > 0 {
        let d = ds.drop_last();
        lemma_of_tier(d, t);
        let r = of_tier(d, t);
        if ds.last().1 == t {
            assert forall|k: int| 0 <= k < r.push(ds.last()).len() implies (#[trigger] r.push(
                ds.last(),
            )[k]).1 == t by {
                if k < r.len() {
                    assert(r.push(ds.last())[k] == r[k]);
                }
            }
        }
        if any_tier(ds, t) && ds.last().1 != t {
            let i = choose|i: int| 0 <= i < ds.len() && (#[trigger] ds[i]).1 == t;
            assert(d[i] == ds[i]);
            assert(any_tier(d, t));
        }
    }
}

/// On a hybrid machine, by default the integrated GPU drives the display,
/// the discrete one decodes, and frames take the copy path.
pub proof fn law_hybrid_topology(ds: Seq<DeviceView>)
    requires
        any_tier(ds, GpuTier::Discrete),
        any_tier(ds, GpuTier::Integrated),
    ensures
        topology_of(ds, None).display.1 == GpuTier::Integrated,
        topology_of(ds, None).decode.1 == GpuTier::Discrete,
        topology_of(ds, None).policy == GpuDecodePolicy::StrongDecodeCopy,
{
    lemma_of_tier(ds, GpuTier::Discrete);
    lemma_of_tier(ds, GpuTier::Integrated);
    let i = choose|i: int| 0 <= i < ds.len() && (#[trigger] ds[i]).1 == GpuTier::Discrete;
    assert(ds.len() > 0);
    assert(of_tier(ds, GpuTier::Integrated)[0].1 == GpuTier::Integrated);
    assert(of_tier(ds, GpuTier::Discrete)[0].1 == GpuTier::Discrete);
}

/// An environment override wins over the user's choice and the automatic
/// rate, within `MIN_HZ..=MAX_HZ`.
pub proof fn law_env_override_wins(fixed_hz: Option<u32>, v: u32, auto_hz: u32)
    ensures
        pref_rate(fixed_hz, Some(v), auto_hz) == clamp(v as int, MIN_HZ as int, MAX_HZ as int),
{
}

/// A faster rate never gets a longer tick period.
pub proof fn law_period_monotone(h1: u32, h2: u32)
    requires
        h1 <= h2,
    ensures
        period_of(h1) >= period_of(h2),
{
    let a: int = if h1 == 0 {
        1
    } else {
        h1 as int
    };
    let b: int = if h2 == 0 {
        1
    } else {
        h2 as int
    };
    assert(a <= b);
    let q = (2000 + b) / (2 * b);
    assert(q * (2 * b) <= 2000 + b) by (nonlinear_arith)
        requires
            b >= 1,
            q == (2000 + b) / (2 * b),
    ;
    assert(q >= 0) by (nonlinear_arith)
        requires
            b >= 1,
            q == (2000 + b) / (2 * b),
    ;
    assert(q * (2 * a) <= 2000 + a) by (nonlinear_arith)
        requires
            1 <= a <= b,
            q >= 0,
            q * (2 * b) <= 2000 + b,
    ;
    assert(q <= (2000 + a) / (2 * a)) by (nonlinear_arith)
        requires
            a >= 1,
            q >= 0,
            q * (2 * a) <= 2000 + a,
    ;
}

/// A download makes at most two attempts: the second one never asks for
/// another.
pub proof fn law_at_most_two_attempts(ev: FetchEvent)
    ensures
        fetch_action(1, ev) != FetchAction::RetryAfterPause,
{
}

/// Only a body that is neither HTML nor oversized is stored.
pub proof fn law_stored_bodies_fit(attempt: u8, len: usize, html: bool)
    ensures
        fetch_action(attempt, FetchEvent::Body { len, html }) == FetchAction::Store <==> (!html
            && len <= MAX_IMAGE_BYTES),
{
}

/// A disk copy served without a download is one that the cache would keep.
pub proof fn law_usable_copy_is_image(bytes: Seq<u8>)
    requires
        usable_copy(bytes),
    ensures
        !bad_image(bytes),
{
}

/// A later edit of the search text makes every earlier pending search stale.
pub proof fn law_debounce_latest_wins(g: u64)
    ensures
        crate::nav::next_generation(g) != g,
{
}

/// The window always starts with at least one profile.
pub proof fn law_boot_has_a_profile(ss: Seq<SourceView>, demo_id: u128)
    ensures
        crate::sources::boot_list(ss, demo_id).len() > 0,
{
}

/// A prefetch batch never starts more fetches than it has room for.
pub proof fn law_prefetch_within_room(c: CacheView, urls: Seq<Seq<char>>, room: nat, now: u64)
    ensures
        crate::art::prefetch_run(c, urls, room, now).1.len() <= room,
    decreases urls.len(),
{
    if urls.len() > 0 && room > 0 {
        let step = request_step(c, crate::art::normalized_url(urls[0]), None, now);
        match step.1 {
            OutcomeView::Fetch { url, source_id } => {
                law_prefetch_within_room(step.0, urls.skip(1), (room - 1) as nat, now);
            },
            _ => {
                law_prefetch_within_room(step.0, urls.skip(1), room, now);
            },
        }
    }
}

/// An image stored with bytes that are an image is then held in memory.
pub proof fn law_stored_image_is_held(c: CacheView, url: Seq<char>, bytes: Seq<u8>)
    requires
        !bad_image(bytes),
    ensures
        crate::art::handle_index(crate::art::insert_step(c, url, bytes).0.handles, url) is Some,
{
    let r = crate::art::insert_step(c, url, bytes).0;
    let c0 = CacheView {
        soft: crate::art::landed(c, url).soft.remove(url),
        ..crate::art::landed(c, url)
    };
    let c1 = match host_of(url) {
        Some(h) => CacheView { hosts: c0.hosts.remove(h), ..c0 },
        None => c0,
    };
    match crate::art::handle_index(c1.handles, url) {
        Some(i) => {
            let hs = c1.handles;
            assert(exists|j: int| 0 <= j < hs.len() && (#[trigger] hs[j]).0 == url);
            let j = choose|j: int| 0 <= j < hs.len() && (#[trigger] hs[j]).0 == url;
            assert(r.handles[j].0 == url);
        },
        None => {
            let kept = crate::art::evicted(c1.handles).0;
            let k = crate::art::next_stamp(c1.clock);
            assert(r.handles == kept.push((url, k)));
            assert(r.handles[kept.len() as int].0 == url);
        },
    }
}

proof fn lemma_bytes_lt_irreflexive(a: Seq<u8>)
    ensures
        !bytes_lt(a, a),
    decreases a.len(),
{
    if a.len() > 0 {
        lemma_bytes_lt_irreflexive(a.skip(1));
    }
}

proof fn lemma_bytes_lt_transitive(a: Seq<u8>, b: Seq<u8>, c: Seq<u8>)
    requires
        bytes_lt(a, b),
        bytes_lt(b, c),
    ensures
        bytes_lt(a, c),
    decreases a.len(),
{
    if a.len() > 0 && a[0] == b[0] && b[0] == c[0] {
        lemma_bytes_lt_transitive(a.skip(1), b.skip(1), c.skip(1));
    }
}

proof fn lemma_bytes_lt_total(a: Seq<u8>, b: Seq<u8>)
    requires
        a != b,
    ensures
        bytes_lt(a, b) || bytes_lt(b, a),
    decreases a.len(),
{
    if a.len() == 0 {
        if b.len() == 0 {
            assert(a =~= b);
        }
    } else if b.len() > 0 && a[0] == b[0] {
        if a.skip(1) == b.skip(1) {
            assert(a.skip(1).len() == b.skip(1).len());
            assert forall|i: int| 0 <= i < a.len() implies a[i] == b[i] by {
                if i > 0 {
                    assert(a[i] == a.skip(1)[i - 1]);
                    assert(b[i] == b.skip(1)[i - 1]);
                }
            }
            assert(a =~= b);
        }
        lemma_bytes_lt_total(a.skip(1), b.skip(1));
    }
}

proof fn lemma_key_lt_irreflexive(a: Seq<Seq<u8>>)
    ensures
        !key_lt(a, a),
    decreases a.len(),
{
    if a.len() > 0 {
        lemma_key_lt_irreflexive(a.skip(1));
    }
}

proof fn lemma_key_lt_transitive(a: Seq<Seq<u8>>, b: Seq<Seq<u8>>, c: Seq<Seq<u8>>)
    requires
        key_lt(a, b),
        key_lt(b, c),
    ensures
        key_lt(a, c),
    decreases a.len(),
{
    if a.len() > 0 && b.len() > 0 && c.len() > 0 {
        if a[0] == b[0] && b[0] == c[0] {
            lemma_key_lt_transitive(a.skip(1), b.skip(1), c.skip(1));
        } else if a[0] != b[0] && b[0] != c[0] {
            lemma_bytes_lt_transitive(a[0], b[0], c[0]);
            if a[0] == c[0] {
                lemma_bytes_lt_irreflexive(a[0]);
            }
        }
    }
}

proof fn lemma_key_lt_total(a: Seq<Seq<u8>>, b: Seq<Seq<u8>>)
    requires
        a != b,
    ensures
        key_lt(a, b) || key_lt(b, a),
    decreases a.len(),
{
    if a.len() == 0 {
        if b.len() == 0 {
            assert(a =~= b);
        }
    } else if b.len() > 0 {
        if a[0] == b[0] {
            if a.skip(1) == b.skip(1) {
                assert(a.skip(1).len() == b.skip(1).len());
                assert forall|i: int| 0 <= i < a.len() implies a[i] == b[i] by {
                    if i > 0 {
                        assert(a[i] == a.skip(1)[i - 1]);
                        assert(b[i] == b.skip(1)[i - 1]);
                    }
                }
                assert(a =~= b);
            }
            lemma_key_lt_total(a.skip(1), b.skip(1));
        } else {
            lemma_bytes_lt_total(a[0], b[0]);
        }
    }
}

/// Records whose keys never decrease.
pub open spec fn recs_sorted(s: Seq<Rec>) -> bool {
    forall|i: int, j: int| 0 <= i < j < s.len() ==> !key_lt(#[trigger] s[j].0, #[trigger] s[i].0)
}

proof fn lemma_insert_rec(s: Seq<Rec>, x: Rec)
    requires
        recs_sorted(s),
    ensures
        recs_sorted(insert_rec(s, x)),
        insert_rec(s, x).to_multiset() == s.to_multiset().insert(x),
    decreases s.len(),
{
    broadcast use vstd::seq_lib::group_to_multiset_ensures;

    if s.len() == 0 {
        assert(seq![x] =~= s.push(x));
    } else if key_lt(x.0, s[0].0) {
        let r = insert_rec(s, x);
        assert(r =~= s.insert(0, x));
        assert forall|i: int, j: int| 0 <= i < j < r.len() implies !key_lt(
            #[trigger] r[j].0,
            #[trigger] r[i].0,
        ) by {
            if i == 0 {
                assert(r[j] == s[j - 1]);
                if key_lt(s[j - 1].0, x.0) {
                    lemma_key_lt_transitive(s[j - 1].0, x.0, s[0].0);
                    if j - 1 == 0 {
                        lemma_key_lt_irreflexive(s[0].0);
                    } else {
                        assert(!key_lt(s[j - 1].0, s[0].0));
                    }
                }
            } else {
                assert(r[i] == s[i - 1]);
                assert(r[j] == s[j - 1]);
            }
        }
    } else {
        let t = s.skip(1);
        assert forall|i: int, j: int| 0 <= i < j < t.len() implies !key_lt(
            #[trigger] t[j].0,
            #[trigger] t[i].0,
        ) by {
            assert(t[i] == s[i + 1]);
            assert(t[j] == s[j + 1]);
        }
        lemma_insert_rec(t, x);
        let ins = insert_rec(t, x);
        let r = insert_rec(s, x);
        assert(r =~= ins.insert(0, s[0]));
        assert(s =~= t.insert(0, s[0]));
        assert forall|i: int, j: int| 0 <= i < j < r.len() implies !key_lt(
            #[trigger] r[j].0,
            #[trigger] r[i].0,
        ) by {
            assert(r[j] == ins[j - 1]);
            if i == 0 {
                let e = ins[j - 1];
                assert(ins.to_multiset().count(e) > 0);
                assert(t.to_multiset().insert(x).count(e) > 0);
                if e != x {
                    assert(t.to_multiset().count(e) > 0);
                    assert(t.contains(e));
                    let k = choose|k: int| 0 <= k < t.len() && t[k] == e;
                    assert(s[k + 1] == e);
                }
            } else {
                assert(r[i] == ins[i - 1]);
            }
        }
    }
}

pub(crate) proof fn lemma_sort_recs(s: Seq<Rec>)
    ensures
        recs_sorted(sort_recs(s)),
        sort_recs(s).to_multiset() == s.to_multiset(),
    decreases s.len(),
{
    broadcast use vstd::seq_lib::group_to_multiset_ensures;

    if s.len() > 0 {
        lemma_sort_recs(s.drop_last());
        lemma_insert_rec(sort_recs(s.drop_last()), s.last());
        assert(s =~= s.drop_last().push(s.last()));
    } else {
        assert(s =~= Seq::<Rec>::empty());
    }
}

/// Records with equal keys are equal records.
spec fn keys_determine(s: Seq<Rec>) -> bool {
    forall|i: int, j: int|
        0 <= i < s.len() && 0 <= j < s.len() && (#[trigger] s[i]).0 == (#[trigger] s[j]).0 ==> s[i]
            == s[j]
}

proof fn lemma_sorted_recs_unique(x: Seq<Rec>, y: Seq<Rec>)
    requires
        recs_sorted(x),
        recs_sorted(y),
        x.to_multiset() == y.to_multiset(),
        keys_determine(x),
    ensures
        x == y,
    decreases x.len(),
{
    broadcast use vstd::seq_lib::group_to_multiset_ensures;

    if x.len() == 0 {
        vstd::seq_lib::to_multiset_len(x);
        vstd::seq_lib::to_multiset_len(y);
        assert(y.len() == 0);
        assert(x =~= y);
    } else {
        vstd::seq_lib::to_multiset_len(x);
        vstd::seq_lib::to_multiset_len(y);
        assert(y.len() == x.len());
        assert(x.to_multiset().count(y[0]) > 0);
        assert(x.contains(y[0]));
        let i = choose|i: int| 0 <= i < x.len() && x[i] == y[0];
        assert(y.to_multiset().count(x[0]) > 0);
        assert(y.contains(x[0]));
        let j = choose|j: int| 0 <= j < y.len() && y[j] == x[0];
        if i > 0 {
            assert(!key_lt(x[i].0, x[0].0));
        } else {
            lemma_key_lt_irreflexive(x[0].0);
        }
        if j > 0 {
            assert(!key_lt(y[j].0, y[0].0));
        } else {
            lemma_key_lt_irreflexive(y[0].0);
        }
        if x[0].0 != y[0].0 {
            lemma_key_lt_total(x[0].0, y[0].0);
        }
        assert(x[0] == x[i]);
        let x1 = x.drop_first();
        let y1 = y.drop_first();
        assert(x.remove(0) =~= x1);
        assert(y.remove(0) =~= y1);
        assert(x1.to_multiset() == x.to_multiset().remove(x[0]));
        assert(y1.to_multiset() == y.to_multiset().remove(y[0]));
        assert forall|a: int, b: int| 0 <= a < j && a < b < x1.len() implies !key_lt(
            #[trigger] x1[b].0,
            #[trigger] x1[a].0,
        ) by {
            assert(x1[a] == x[a + 1]);
            assert(x1[b] == x[b + 1]);
        }
        assert forall|a: int, b: int| 0 <= a < b < x1.len() implies !key_lt(
            #[trigger] x1[b].0,
            #[trigger] x1[a].0,
        ) by {
            assert(x1[a] == x[a + 1]);
            assert(x1[b] == x[b + 1]);
        }
        assert forall|a: int, b: int| 0 <= a < b < y1.len() implies !key_lt(
            #[trigger] y1[b].0,
            #[trigger] y1[a].0,
        ) by {
            assert(y1[a] == y[a + 1]);
            assert(y1[b] == y[b + 1]);
        }
        assert forall|a: int, b: int|
            0 <= a < x1.len() && 0 <= b < x1.len() && (#[trigger] x1[a]).0 == (
            #[trigger] x1[b]).0 implies x1[a] == x1[b] by {
            assert(x1[a] == x[a + 1]);
            assert(x1[b] == x[b + 1]);
        }
        lemma_sorted_recs_unique(x1, y1);
        assert(x =~= y) by {
            assert forall|k: int| 0 <= k < x.len() implies x[k] == y[k] by {
                if k > 0 {
                    assert(x[k] == x1[k - 1]);
                    assert(y[k] == y1[k - 1]);
                }
            }
        }
    }
}

proof fn lemma_map_values_permuted<A, B>(s: Seq<A>, t: Seq<A>, f: spec_fn(A) -> B)
    requires
        s.to_multiset() == t.to_multiset(),
    ensures
        s.map_values(f).to_multiset() == t.map_values(f).to_multiset(),
    decreases s.len(),
{
    broadcast use vstd::seq_lib::group_to_multiset_ensures;

    if s.len() == 0 {
        vstd::seq_lib::to_multiset_len(s);
        vstd::seq_lib::to_multiset_len(t);
        assert(t.len() == 0);
        assert(s.map_values(f) =~= t.map_values(f));
    } else {
        let x = s.last();
        let s1 = s.drop_last();
        assert(s =~= s1.push(x));
        assert(t.to_multiset().count(x) > 0);
        assert(t.contains(x));
        let i = choose|i: int| 0 <= i < t.len() && t[i] == x;
        let t1 = t.remove(i);
        assert(t1.to_multiset() == t.to_multiset().remove(x));
        assert(s1.to_multiset() == s.to_multiset().remove(x));
        lemma_map_values_permuted(s1, t1, f);
        assert(s.map_values(f) =~= s1.map_values(f).push(f(x)));
        assert(t.map_values(f).remove(i) =~= t1.map_values(f));
        assert(t.map_values(f)[i] == f(x));
        assert(t.map_values(f).to_multiset().remove(f(x)) == t1.map_values(f).to_multiset());
        assert(t.map_values(f).to_multiset().count(f(x)) > 0) by {
            assert(t.map_values(f).contains(f(x)));
        }
        assert(t.map_values(f).to_multiset() =~= t1.map_values(f).to_multiset().insert(f(x)));
    }
}

/// Sorting two arrangements of the same records gives one sequence when
/// records with equal keys are equal.
proof fn lemma_sort_recs_permuted(s: Seq<Rec>, t: Seq<Rec>)
    requires
        s.to_multiset() == t.to_multiset(),
        keys_determine(s),
    ensures
        sort_recs(s) == sort_recs(t),
{
    broadcast use vstd::seq_lib::group_to_multiset_ensures;

    lemma_sort_recs(s);
    lemma_sort_recs(t);
    let x = sort_recs(s);
    assert forall|a: int, b: int|
        0 <= a < x.len() && 0 <= b < x.len() && (#[trigger] x[a]).0 == (#[trigger] x[b]).0 implies x[a]
        == x[b] by {
        assert(x.to_multiset().count(x[a]) > 0);
        assert(x.to_multiset().count(x[b]) > 0);
        assert(s.contains(x[a]));
        assert(s.contains(x[b]));
        let ia = choose|k: int| 0 <= k < s.len() && s[k] == x[a];
        let ib = choose|k: int| 0 <= k < s.len() && s[k] == x[b];
        assert(s[ia].0 == s[ib].0);
    }
    lemma_sorted_recs_unique(x, sort_recs(t));
}

/// Reordering the categories, channels, VOD or series of a dump leaves its
/// checksum unchanged, as long as channel, VOD and series ids are unique
/// within their list.
pub proof fn law_checksum_ignores_order(a: BundleView, b: BundleView)
    requires
        a.categories.to_multiset() == b.categories.to_multiset(),
        a.channels.to_multiset() == b.channels.to_multiset(),
        a.vod.to_multiset() == b.vod.to_multiset(),
        a.series.to_multiset() == b.series.to_multiset(),
        forall|i: int, j: int|
            0 <= i < j < a.channels.len() ==> (#[trigger] a.channels[i]).id != (
            #[trigger] a.channels[j]).id,
        forall|i: int, j: int|
            0 <= i < j < a.vod.len() ==> (#[trigger] a.vod[i]).id != (#[trigger] a.vod[j]).id,
        forall|i: int, j: int|
            0 <= i < j < a.series.len() ==> (#[trigger] a.series[i]).id != (
            #[trigger] a.series[j]).id,
    ensures
        spine_bytes(a) == spine_bytes(b),
        hex_of(sha256_of(spine_bytes(a))) == hex_of(sha256_of(spine_bytes(b))),
{
    broadcast use vstd::utf8::encode_utf8_decode_utf8;

    let fc = |c: CategoryView| category_rec(c);
    let fh = |c: ChannelView| channel_rec(c);
    let fv = |v: VodView| vod_rec(v);
    let fs = |v: SeriesView| series_rec(v);
    let mc = a.categories.map_values(fc);
    let mh = a.channels.map_values(fh);
    let mv = a.vod.map_values(fv);
    let ms = a.series.map_values(fs);
    lemma_map_values_permuted(a.categories, b.categories, fc);
    lemma_map_values_permuted(a.channels, b.channels, fh);
    lemma_map_values_permuted(a.vod, b.vod, fv);
    lemma_map_values_permuted(a.series, b.series, fs);
    assert forall|i: int, j: int|
        0 <= i < mc.len() && 0 <= j < mc.len() && (#[trigger] mc[i]).0 == (#[trigger] mc[j]).0 implies mc[i]
        == mc[j] by {
        assert(mc[i].0[0] == mc[j].0[0]);
        assert(mc[i].0[1] == mc[j].0[1]);
        assert(mc[i].0[2] == mc[j].0[2]);
    }
    assert forall|i: int, j: int|
        0 <= i < mh.len() && 0 <= j < mh.len() && (#[trigger] mh[i]).0 == (#[trigger] mh[j]).0 implies mh[i]
        == mh[j] by {
        assert(mh[i].0[0] == mh[j].0[0]);
        assert(enc(a.channels[i].id) == enc(a.channels[j].id));
        assert(vstd::utf8::decode_utf8(enc(a.channels[i].id)) == a.channels[i].id);
        assert(vstd::utf8::decode_utf8(enc(a.channels[j].id)) == a.channels[j].id);
        if i < j {
            assert(a.channels[i].id != a.channels[j].id);
        } else if j < i {
            assert(a.channels[j].id != a.channels[i].id);
        }
    }
    assert forall|i: int, j: int|
        0 <= i < mv.len() && 0 <= j < mv.len() && (#[trigger] mv[i]).0 == (#[trigger] mv[j]).0 implies mv[i]
        == mv[j] by {
        assert(mv[i].0[0] == mv[j].0[0]);
        assert(enc(a.vod[i].id) == enc(a.vod[j].id));
        assert(vstd::utf8::decode_utf8(enc(a.vod[i].id)) == a.vod[i].id);
        assert(vstd::utf8::decode_utf8(enc(a.vod[j].id)) == a.vod[j].id);
        if i < j {
            assert(a.vod[i].id != a.vod[j].id);
        } else if j < i {
            assert(a.vod[j].id != a.vod[i].id);
        }
    }
    assert forall|i: int, j: int|
        0 <= i < ms.len() && 0 <= j < ms.len() && (#[trigger] ms[i]).0 == (#[trigger] ms[j]).0 implies ms[i]
        == ms[j] by {
        assert(ms[i].0[0] == ms[j].0[0]);
        assert(enc(a.series[i].id) == enc(a.series[j].id));
        assert(vstd::utf8::decode_utf8(enc(a.series[i].id)) == a.series[i].id);
        assert(vstd::utf8::decode_utf8(enc(a.series[j].id)) == a.series[j].id);
        if i < j {
            assert(a.series[i].id != a.series[j].id);
        } else if j < i {
            assert(a.series[j].id != a.series[i].id);
        }
    }
    lemma_sort_recs_permuted(mc, b.categories.map_values(fc));
    lemma_sort_recs_permuted(mh, b.channels.map_values(fh));
    lemma_sort_recs_permuted(mv, b.vod.map_values(fv));
    lemma_sort_recs_permuted(ms, b.series.map_values(fs));
}

/// Re-applying a portal dump once the checksum its apply reported is stored
/// rewrites nothing: the next apply of the same dump is skipped as
/// unchanged, and so is one of the dump reordered (ids unique) or with
/// other enrichment.
pub proof fn law_reapply_unchanged(first: SourceApply, part: BundleView, again: BundleView)
    requires
        first.checksum@ == hex_of(sha256_of(spine_bytes(part))),
        spine_bytes(again) == spine_bytes(part),
    ensures
        apply_skipped(Some(first.checksum@), part),
        apply_skipped(Some(first.checksum@), again),
{
}

} // verus!
