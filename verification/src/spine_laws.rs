//! Laws on the portal checksum: every spine field of an item takes part in
//! the checksum input.

use vstd::prelude::*;

use crate::catalog::{
    category_rec, channel_rec, enc, enc_or_empty, insert_rec, key_lt, rec_bytes, series_rec, sort_recs,
    spine_bytes, vod_rec, BundleView, CategoryView, ChannelView, Rec, SeriesView, VodView,
};

verus! {

proof fn lemma_insert_rec_map(t: Seq<Rec>, x: Rec, f: spec_fn(Rec) -> Rec)
    requires
        forall|r: Rec| (#[trigger] f(r)).0 == r.0,
    ensures
        insert_rec(t.map_values(f), f(x)) == insert_rec(t, x).map_values(f),
    decreases t.len(),
{
    let tm = t.map_values(f);
    if t.len() == 0 {
        assert(seq![f(x)] =~= seq![x].map_values(f));
    } else {
        assert(tm[0] == f(t[0]));
        assert(f(x).0 == x.0);
        assert(f(t[0]).0 == t[0].0);
        if key_lt(x.0, t[0].0) {
            assert(seq![f(x)] + tm =~= (seq![x] + t).map_values(f));
        } else {
            assert(tm.skip(1) =~= t.skip(1).map_values(f));
            lemma_insert_rec_map(t.skip(1), x, f);
            assert(seq![tm[0]] + insert_rec(tm.skip(1), f(x)) =~= (seq![t[0]] + insert_rec(
                t.skip(1),
                x,
            )).map_values(f));
        }
    }
}

proof fn lemma_sort_recs_map(s: Seq<Rec>, f: spec_fn(Rec) -> Rec)
    requires
        forall|r: Rec| (#[trigger] f(r)).0 == r.0,
    ensures
        sort_recs(s.map_values(f)) == sort_recs(s).map_values(f),
    decreases s.len(),
{
    let sm = s.map_values(f);
    if s.len() == 0 {
        assert(sort_recs(s).map_values(f) =~= seq![]);
    } else {
        assert(sm.drop_last() =~= s.drop_last().map_values(f));
        assert(sm.last() == f(s.last()));
        lemma_sort_recs_map(s.drop_last(), f);
        lemma_insert_rec_map(sort_recs(s.drop_last()), s.last(), f);
    }
}

proof fn lemma_rec_bytes_concat(a: Seq<Rec>, b: Seq<Rec>)
    ensures
        rec_bytes(a + b) == rec_bytes(a) + rec_bytes(b),
    decreases b.len(),
{
    if b.len() == 0 {
        assert(a + b =~= a);
        assert(rec_bytes(a) + seq![] =~= rec_bytes(a));
    } else {
        lemma_rec_bytes_concat(a, b.drop_last());
        assert((a + b).drop_last() =~= a + b.drop_last());
        assert((a + b).last() == b.last());
        assert(rec_bytes(a) + rec_bytes(b.drop_last()) + b.last().1 =~= rec_bytes(a) + (rec_bytes(
            b.drop_last(),
        ) + b.last().1));
    }
}

proof fn lemma_middle_differs<A>(p: Seq<A>, u: Seq<A>, v: Seq<A>, r: Seq<A>)
    requires
        u != v,
    ensures
        p + u + r != p + v + r,
{
    if p + u + r == p + v + r {
        assert((p + u + r).len() == p.len() + u.len() + r.len());
        assert((p + v + r).len() == p.len() + v.len() + r.len());
        assert(u.len() == v.len());
        assert forall|i: int| 0 <= i < u.len() implies u[i] == v[i] by {
            assert((p + u + r)[p.len() + i] == u[i]);
            assert((p + v + r)[p.len() + i] == v[i]);
        }
        assert(u =~= v);
    }
}

/// In a reordering of a list whose keys are all different, the element
/// with a given key stands at one place only.
proof fn lemma_single_place(big: Seq<Rec>, s: Seq<Rec>, k: int, j1: int, j2: int)
    requires
        big.to_multiset() == s.to_multiset(),
        forall|a: int, b: int| 0 <= a < b < s.len() ==> (#[trigger] s[a]).0 != (#[trigger] s[b]).0,
        0 <= k < s.len(),
        0 <= j1 < big.len(),
        0 <= j2 < big.len(),
        big[j1] == s[k],
        big[j2] == s[k],
    ensures
        j1 == j2,
{
    broadcast use vstd::seq_lib::group_to_multiset_ensures;

    if j1 != j2 {
        let x = s[k];
        let r = big.remove(j1);
        let jj = if j2 < j1 { j2 } else { j2 - 1 };
        assert(r[jj] == x);
        assert(r.contains(x));
        assert(r.to_multiset().count(x) > 0);
        assert(r.to_multiset() == big.to_multiset().remove(x));
        let t = s.remove(k);
        assert(t.to_multiset() == s.to_multiset().remove(x));
        assert(t.to_multiset().count(x) > 0);
        assert(t.contains(x));
        let i = choose|i: int| 0 <= i < t.len() && t[i] == x;
        let i0 = if i < k { i } else { i + 1 };
        assert(s[i0] == x);
        if i0 < k {
            assert(s[i0].0 != s[k].0);
        } else {
            assert(s[k].0 != s[i0].0);
        }
    }
}

/// Changing the bytes of one record (keys all different, key kept) changes
/// the byte stream of the sorted records.
proof fn lemma_sorted_stream_sees_change(s: Seq<Rec>, k: int, y: Rec)
    requires
        0 <= k < s.len(),
        forall|a: int, b: int| 0 <= a < b < s.len() ==> (#[trigger] s[a]).0 != (#[trigger] s[b]).0,
        y.0 == s[k].0,
        y.1 != s[k].1,
    ensures
        rec_bytes(sort_recs(s)) != rec_bytes(sort_recs(s.update(k, y))),
{
    broadcast use vstd::seq_lib::group_to_multiset_ensures;

    let x = s[k];
    let f = |r: Rec| if r.0 == x.0 { y } else { r };
    assert forall|r: Rec| (#[trigger] f(r)).0 == r.0 by {}
    assert forall|i: int| 0 <= i < s.len() implies s.map_values(f)[i] == s.update(k, y)[i] by {
        if i < k {
            assert(s[i].0 != s[k].0);
        } else if i > k {
            assert(s[k].0 != s[i].0);
        }
    }
    assert(s.map_values(f) =~= s.update(k, y));
    lemma_sort_recs_map(s, f);
    crate::laws::lemma_sort_recs(s);
    let big = sort_recs(s);
    assert(s.to_multiset().count(x) > 0);
    assert(big.to_multiset().count(x) > 0);
    assert(big.contains(x));
    let j = choose|j: int| 0 <= j < big.len() && big[j] == x;
    assert forall|i: int| 0 <= i < big.len() implies big.map_values(f)[i] == big.update(j, y)[i] by {
        if i != j && big[i].0 == x.0 {
            assert(big.to_multiset().count(big[i]) > 0);
            assert(s.contains(big[i]));
            let t = choose|t: int| 0 <= t < s.len() && s[t] == big[i];
            if t < k {
                assert(s[t].0 != s[k].0);
            } else if t > k {
                assert(s[k].0 != s[t].0);
            }
            lemma_single_place(big, s, k, i, j);
        }
    }
    assert(big.map_values(f) =~= big.update(j, y));
    let pre = big.take(j);
    let post = big.skip(j + 1);
    assert(big =~= pre + seq![x] + post);
    assert(big.update(j, y) =~= pre + seq![y] + post);
    lemma_rec_bytes_concat(pre + seq![x], post);
    lemma_rec_bytes_concat(pre, seq![x]);
    lemma_rec_bytes_concat(pre + seq![y], post);
    lemma_rec_bytes_concat(pre, seq![y]);
    assert(seq![x].drop_last() =~= Seq::<Rec>::empty());
    assert(seq![y].drop_last() =~= Seq::<Rec>::empty());
    assert(rec_bytes(Seq::<Rec>::empty()) == Seq::<u8>::empty());
    assert(Seq::<u8>::empty() + x.1 =~= x.1);
    assert(Seq::<u8>::empty() + y.1 =~= y.1);
    assert(rec_bytes(seq![x]) == x.1);
    assert(rec_bytes(seq![y]) == y.1);
    lemma_middle_differs(rec_bytes(pre), x.1, y.1, rec_bytes(post));
}

/// Replacing one vod item by one with the same id but other checksum bytes
/// changes the checksum input, when vod ids are unique.
proof fn lemma_vod_change_seen(a: BundleView, k: int, w: VodView)
    requires
        0 <= k < a.vod.len(),
        forall|i: int, j: int|
            0 <= i < j < a.vod.len() ==> (#[trigger] a.vod[i]).id != (#[trigger] a.vod[j]).id,
        w.id == a.vod[k].id,
        vod_rec(w).1 != vod_rec(a.vod[k]).1,
    ensures
        spine_bytes(a) != spine_bytes(BundleView { vod: a.vod.update(k, w), ..a }),
{
    broadcast use vstd::utf8::encode_utf8_decode_utf8;

    let b = BundleView { vod: a.vod.update(k, w), ..a };
    let f = |x: VodView| vod_rec(x);
    let m = a.vod.map_values(f);
    assert(b.vod.map_values(f) =~= m.update(k, vod_rec(w)));
    assert forall|i: int, j: int| 0 <= i < j < m.len() implies (#[trigger] m[i]).0 != (
    #[trigger] m[j]).0 by {
        if m[i].0 == m[j].0 {
            assert(m[i].0[0] == m[j].0[0]);
            assert(vstd::utf8::decode_utf8(enc(a.vod[i].id)) == a.vod[i].id);
            assert(vstd::utf8::decode_utf8(enc(a.vod[j].id)) == a.vod[j].id);
        }
    }
    lemma_sorted_stream_sees_change(m, k, vod_rec(w));
    let cs = rec_bytes(sort_recs(a.categories.map_values(|c: CategoryView| category_rec(c))));
    let hs = rec_bytes(sort_recs(a.channels.map_values(|c: ChannelView| channel_rec(c))));
    let vs = rec_bytes(sort_recs(a.vod.map_values(|v: VodView| vod_rec(v))));
    let ss = rec_bytes(sort_recs(a.series.map_values(|v: SeriesView| series_rec(v))));
    let hb = rec_bytes(sort_recs(b.channels.map_values(|c: ChannelView| channel_rec(c))));
    let vb = rec_bytes(sort_recs(b.vod.map_values(|v: VodView| vod_rec(v))));
    let sb = rec_bytes(sort_recs(b.series.map_values(|v: SeriesView| series_rec(v))));
    assert(spine_bytes(a) == cs + hs + vs + ss);
    assert(spine_bytes(b) == cs + hb + vb + sb);
    assert(b.channels == a.channels && b.series == a.series);
    assert(vs != vb);
    lemma_middle_differs(cs + hs, vs, vb, ss);
}

/// Replacing one channel item by one with the same id but other checksum bytes
/// changes the checksum input, when channel ids are unique.
proof fn lemma_channel_change_seen(a: BundleView, k: int, w: ChannelView)
    requires
        0 <= k < a.channels.len(),
        forall|i: int, j: int|
            0 <= i < j < a.channels.len() ==> (#[trigger] a.channels[i]).id != (#[trigger] a.channels[j]).id,
        w.id == a.channels[k].id,
        channel_rec(w).1 != channel_rec(a.channels[k]).1,
    ensures
        spine_bytes(a) != spine_bytes(BundleView { channels: a.channels.update(k, w), ..a }),
{
    broadcast use vstd::utf8::encode_utf8_decode_utf8;

    let b = BundleView { channels: a.channels.update(k, w), ..a };
    let f = |x: ChannelView| channel_rec(x);
    let m = a.channels.map_values(f);
    assert(b.channels.map_values(f) =~= m.update(k, channel_rec(w)));
    assert forall|i: int, j: int| 0 <= i < j < m.len() implies (#[trigger] m[i]).0 != (
    #[trigger] m[j]).0 by {
        if m[i].0 == m[j].0 {
            assert(m[i].0[0] == m[j].0[0]);
            assert(vstd::utf8::decode_utf8(enc(a.channels[i].id)) == a.channels[i].id);
            assert(vstd::utf8::decode_utf8(enc(a.channels[j].id)) == a.channels[j].id);
        }
    }
    lemma_sorted_stream_sees_change(m, k, channel_rec(w));
    let cs = rec_bytes(sort_recs(a.categories.map_values(|c: CategoryView| category_rec(c))));
    let hs = rec_bytes(sort_recs(a.channels.map_values(|c: ChannelView| channel_rec(c))));
    let vs = rec_bytes(sort_recs(a.vod.map_values(|v: VodView| vod_rec(v))));
    let ss = rec_bytes(sort_recs(a.series.map_values(|v: SeriesView| series_rec(v))));
    let hb = rec_bytes(sort_recs(b.channels.map_values(|c: ChannelView| channel_rec(c))));
    let vb = rec_bytes(sort_recs(b.vod.map_values(|v: VodView| vod_rec(v))));
    let sb = rec_bytes(sort_recs(b.series.map_values(|v: SeriesView| series_rec(v))));
    assert(spine_bytes(a) == cs + hs + vs + ss);
    assert(spine_bytes(b) == cs + hb + vb + sb);
    assert(b.vod == a.vod && b.series == a.series);
    assert(hs != hb);
    lemma_middle_differs(cs, hs, hb, vs + ss);
    assert(cs + hs + vs + ss =~= cs + hs + (vs + ss));
    assert(cs + hb + vs + ss =~= cs + hb + (vs + ss));
}

/// Replacing one series item by one with the same id but other checksum bytes
/// changes the checksum input, when series ids are unique.
proof fn lemma_series_change_seen(a: BundleView, k: int, w: SeriesView)
    requires
        0 <= k < a.series.len(),
        forall|i: int, j: int|
            0 <= i < j < a.series.len() ==> (#[trigger] a.series[i]).id != (#[trigger] a.series[j]).id,
        w.id == a.series[k].id,
        series_rec(w).1 != series_rec(a.series[k]).1,
    ensures
        spine_bytes(a) != spine_bytes(BundleView { series: a.series.update(k, w), ..a }),
{
    broadcast use vstd::utf8::encode_utf8_decode_utf8;

    let b = BundleView { series: a.series.update(k, w), ..a };
    let f = |x: SeriesView| series_rec(x);
    let m = a.series.map_values(f);
    assert(b.series.map_values(f) =~= m.update(k, series_rec(w)));
    assert forall|i: int, j: int| 0 <= i < j < m.len() implies (#[trigger] m[i]).0 != (
    #[trigger] m[j]).0 by {
        if m[i].0 == m[j].0 {
            assert(m[i].0[0] == m[j].0[0]);
            assert(vstd::utf8::decode_utf8(enc(a.series[i].id)) == a.series[i].id);
            assert(vstd::utf8::decode_utf8(enc(a.series[j].id)) == a.series[j].id);
        }
    }
    lemma_sorted_stream_sees_change(m, k, series_rec(w));
    let cs = rec_bytes(sort_recs(a.categories.map_values(|c: CategoryView| category_rec(c))));
    let hs = rec_bytes(sort_recs(a.channels.map_values(|c: ChannelView| channel_rec(c))));
    let vs = rec_bytes(sort_recs(a.vod.map_values(|v: VodView| vod_rec(v))));
    let ss = rec_bytes(sort_recs(a.series.map_values(|v: SeriesView| series_rec(v))));
    let hb = rec_bytes(sort_recs(b.channels.map_values(|c: ChannelView| channel_rec(c))));
    let vb = rec_bytes(sort_recs(b.vod.map_values(|v: VodView| vod_rec(v))));
    let sb = rec_bytes(sort_recs(b.series.map_values(|v: SeriesView| series_rec(v))));
    assert(spine_bytes(a) == cs + hs + vs + ss);
    assert(spine_bytes(b) == cs + hb + vb + sb);
    assert(b.channels == a.channels && b.vod == a.vod);
    assert(ss != sb);
    lemma_middle_differs(cs + hs + vs, ss, sb, Seq::<u8>::empty());
    assert(cs + hs + vs + ss + Seq::<u8>::empty() =~= cs + hs + vs + ss);
    assert(cs + hs + vs + sb + Seq::<u8>::empty() =~= cs + hs + vs + sb);
}


/// A text, a missing one read as empty.
pub open spec fn text_or_empty(t: Option<Seq<char>>) -> Seq<char> {
    match t {
        Some(x) => x,
        None => seq![],
    }
}

proof fn lemma_enc_or_empty(t: Option<Seq<char>>)
    ensures
        enc_or_empty(t) == enc(text_or_empty(t)),
{
    if t is None {
        assert(vstd::utf8::encode_utf8(Seq::<char>::empty()) =~= Seq::<u8>::empty()) by {
            reveal_with_fuel(vstd::utf8::encode_utf8, 1);
        }
    }
}

/// Renaming one film (VOD ids unique) changes the checksum input: the name
/// is part of the spine.
pub proof fn law_checksum_sees_vod_name(a: BundleView, k: int, name: Seq<char>)
    requires
        0 <= k < a.vod.len(),
        forall|i: int, j: int|
            0 <= i < j < a.vod.len() ==> (#[trigger] a.vod[i]).id != (#[trigger] a.vod[j]).id,
        name != a.vod[k].name,
    ensures
        spine_bytes(a) != spine_bytes(
            BundleView { vod: a.vod.update(k, VodView { name: name, ..a.vod[k] }), ..a },
        ),
{
    broadcast use vstd::utf8::encode_utf8_decode_utf8;

    let v = a.vod[k];
    let w = VodView { name: name, ..v };
    let pre = enc(v.id) + seq![0u8] + enc(v.stream_url) + seq![0u8];
    let post = seq![0u8] + enc_or_empty(v.poster) + seq![0u8] + enc_or_empty(v.category_id) + seq![0xffu8];
    assert(vod_rec(v).1 =~= pre + enc(v.name) + post);
    assert(vod_rec(w).1 =~= pre + enc(name) + post);
    assert(enc(v.name) != enc(name)) by {
        if enc(v.name) == enc(name) {
            assert(vstd::utf8::decode_utf8(enc(v.name)) == vstd::utf8::decode_utf8(enc(name)));
        }
    }
    lemma_middle_differs(pre, enc(v.name), enc(name), post);
    lemma_vod_change_seen(a, k, w);
}

/// Changing one film's stream URL (VOD ids unique) changes the checksum input.
pub proof fn law_checksum_sees_vod_url(a: BundleView, k: int, url: Seq<char>)
    requires
        0 <= k < a.vod.len(),
        forall|i: int, j: int|
            0 <= i < j < a.vod.len() ==> (#[trigger] a.vod[i]).id != (#[trigger] a.vod[j]).id,
        url != a.vod[k].stream_url,
    ensures
        spine_bytes(a) != spine_bytes(
            BundleView { vod: a.vod.update(k, VodView { stream_url: url, ..a.vod[k] }), ..a },
        ),
{
    broadcast use vstd::utf8::encode_utf8_decode_utf8;

    let v = a.vod[k];
    let w = VodView { stream_url: url, ..v };
    let pre = enc(v.id) + seq![0u8];
    let post = seq![0u8] + enc(v.name) + seq![0u8] + enc_or_empty(v.poster) + seq![0u8] + enc_or_empty(v.category_id) + seq![0xffu8];
    assert(vod_rec(v).1 =~= pre + enc(v.stream_url) + post);
    assert(vod_rec(w).1 =~= pre + enc(url) + post);
    assert(enc(v.stream_url) != enc(url)) by {
        if enc(v.stream_url) == enc(url) {
            assert(vstd::utf8::decode_utf8(enc(v.stream_url)) == vstd::utf8::decode_utf8(enc(url)));
        }
    }
    lemma_middle_differs(pre, enc(v.stream_url), enc(url), post);
    lemma_vod_change_seen(a, k, w);
}

/// Giving one film another poster (VOD ids unique; a missing poster reads
/// as an empty one) changes the checksum input.
pub proof fn law_checksum_sees_vod_poster(a: BundleView, k: int, poster: Option<Seq<char>>)
    requires
        0 <= k < a.vod.len(),
        forall|i: int, j: int|
            0 <= i < j < a.vod.len() ==> (#[trigger] a.vod[i]).id != (#[trigger] a.vod[j]).id,
        text_or_empty(poster) != text_or_empty(a.vod[k].poster),
    ensures
        spine_bytes(a) != spine_bytes(
            BundleView { vod: a.vod.update(k, VodView { poster: poster, ..a.vod[k] }), ..a },
        ),
{
    broadcast use vstd::utf8::encode_utf8_decode_utf8;

    let v = a.vod[k];
    let w = VodView { poster: poster, ..v };
    lemma_enc_or_empty(v.poster);
    lemma_enc_or_empty(poster);
    let pre = enc(v.id) + seq![0u8] + enc(v.stream_url) + seq![0u8] + enc(v.name) + seq![0u8];
    let post = seq![0u8] + enc_or_empty(v.category_id) + seq![0xffu8];
    assert(vod_rec(v).1 =~= pre + enc(text_or_empty(v.poster)) + post);
    assert(vod_rec(w).1 =~= pre + enc(text_or_empty(poster)) + post);
    assert(enc(text_or_empty(v.poster)) != enc(text_or_empty(poster))) by {
        if enc(text_or_empty(v.poster)) == enc(text_or_empty(poster)) {
            assert(vstd::utf8::decode_utf8(enc(text_or_empty(v.poster))) == vstd::utf8::decode_utf8(enc(text_or_empty(poster))));
        }
    }
    lemma_middle_differs(pre, enc(text_or_empty(v.poster)), enc(text_or_empty(poster)), post);
    lemma_vod_change_seen(a, k, w);
}

/// Moving one film to another category (VOD ids unique; no category reads
/// as an empty one) changes the checksum input.
pub proof fn law_checksum_sees_vod_category(a: BundleView, k: int, cat: Option<Seq<char>>)
    requires
        0 <= k < a.vod.len(),
        forall|i: int, j: int|
            0 <= i < j < a.vod.len() ==> (#[trigger] a.vod[i]).id != (#[trigger] a.vod[j]).id,
        text_or_empty(cat) != text_or_empty(a.vod[k].category_id),
    ensures
        spine_bytes(a) != spine_bytes(
            BundleView { vod: a.vod.update(k, VodView { category_id: cat, ..a.vod[k] }), ..a },
        ),
{
    broadcast use vstd::utf8::encode_utf8_decode_utf8;

    let v = a.vod[k];
    let w = VodView { category_id: cat, ..v };
    lemma_enc_or_empty(v.category_id);
    lemma_enc_or_empty(cat);
    let pre = enc(v.id) + seq![0u8] + enc(v.stream_url) + seq![0u8] + enc(v.name) + seq![0u8] + enc_or_empty(v.poster) + seq![0u8];
    let post = seq![0xffu8];
    assert(vod_rec(v).1 =~= pre + enc(text_or_empty(v.category_id)) + post);
    assert(vod_rec(w).1 =~= pre + enc(text_or_empty(cat)) + post);
    assert(enc(text_or_empty(v.category_id)) != enc(text_or_empty(cat))) by {
        if enc(text_or_empty(v.category_id)) == enc(text_or_empty(cat)) {
            assert(vstd::utf8::decode_utf8(enc(text_or_empty(v.category_id))) == vstd::utf8::decode_utf8(enc(text_or_empty(cat))));
        }
    }
    lemma_middle_differs(pre, enc(text_or_empty(v.category_id)), enc(text_or_empty(cat)), post);
    lemma_vod_change_seen(a, k, w);
}

/// Renaming one channel (channel ids unique) changes the checksum input.
pub proof fn law_checksum_sees_channel_name(a: BundleView, k: int, name: Seq<char>)
    requires
        0 <= k < a.channels.len(),
        forall|i: int, j: int|
            0 <= i < j < a.channels.len() ==> (#[trigger] a.channels[i]).id != (#[trigger] a.channels[j]).id,
        name != a.channels[k].name,
    ensures
        spine_bytes(a) != spine_bytes(
            BundleView { channels: a.channels.update(k, ChannelView { name: name, ..a.channels[k] }), ..a },
        ),
{
    broadcast use vstd::utf8::encode_utf8_decode_utf8;

    let v = a.channels[k];
    let w = ChannelView { name: name, ..v };
    let pre = enc(v.id) + seq![0u8] + enc(v.stream_url) + seq![0u8];
    let post = seq![0u8] + enc_or_empty(v.logo) + seq![0u8] + enc_or_empty(v.group) + seq![0xffu8];
    assert(channel_rec(v).1 =~= pre + enc(v.name) + post);
    assert(channel_rec(w).1 =~= pre + enc(name) + post);
    assert(enc(v.name) != enc(name)) by {
        if enc(v.name) == enc(name) {
            assert(vstd::utf8::decode_utf8(enc(v.name)) == vstd::utf8::decode_utf8(enc(name)));
        }
    }
    lemma_middle_differs(pre, enc(v.name), enc(name), post);
    lemma_channel_change_seen(a, k, w);
}

/// Changing one channel's stream URL (channel ids unique) changes the
/// checksum input.
pub proof fn law_checksum_sees_channel_url(a: BundleView, k: int, url: Seq<char>)
    requires
        0 <= k < a.channels.len(),
        forall|i: int, j: int|
            0 <= i < j < a.channels.len() ==> (#[trigger] a.channels[i]).id != (#[trigger] a.channels[j]).id,
        url != a.channels[k].stream_url,
    ensures
        spine_bytes(a) != spine_bytes(
            BundleView { channels: a.channels.update(k, ChannelView { stream_url: url, ..a.channels[k] }), ..a },
        ),
{
    broadcast use vstd::utf8::encode_utf8_decode_utf8;

    let v = a.channels[k];
    let w = ChannelView { stream_url: url, ..v };
    let pre = enc(v.id) + seq![0u8];
    let post = seq![0u8] + enc(v.name) + seq![0u8] + enc_or_empty(v.logo) + seq![0u8] + enc_or_empty(v.group) + seq![0xffu8];
    assert(channel_rec(v).1 =~= pre + enc(v.stream_url) + post);
    assert(channel_rec(w).1 =~= pre + enc(url) + post);
    assert(enc(v.stream_url) != enc(url)) by {
        if enc(v.stream_url) == enc(url) {
            assert(vstd::utf8::decode_utf8(enc(v.stream_url)) == vstd::utf8::decode_utf8(enc(url)));
        }
    }
    lemma_middle_differs(pre, enc(v.stream_url), enc(url), post);
    lemma_channel_change_seen(a, k, w);
}

/// Renaming one series (series ids unique) changes the checksum input.
pub proof fn law_checksum_sees_series_name(a: BundleView, k: int, name: Seq<char>)
    requires
        0 <= k < a.series.len(),
        forall|i: int, j: int|
            0 <= i < j < a.series.len() ==> (#[trigger] a.series[i]).id != (#[trigger] a.series[j]).id,
        name != a.series[k].name,
    ensures
        spine_bytes(a) != spine_bytes(
            BundleView { series: a.series.update(k, SeriesView { name: name, ..a.series[k] }), ..a },
        ),
{
    broadcast use vstd::utf8::encode_utf8_decode_utf8;

    let v = a.series[k];
    let w = SeriesView { name: name, ..v };
    let pre = enc(v.id) + seq![0u8];
    let post = seq![0u8] + enc_or_empty(v.cover) + seq![0u8] + enc_or_empty(v.banner) + seq![0u8] + enc_or_empty(v.category_id) + seq![0u8] + crate::catalog::le_bytes(v.seasons.len(), crate::catalog::word_bytes()) + crate::catalog::le_bytes(crate::catalog::episode_total(v.seasons), crate::catalog::word_bytes()) + seq![0xffu8];
    assert(series_rec(v).1 =~= pre + enc(v.name) + post);
    assert(series_rec(w).1 =~= pre + enc(name) + post);
    assert(enc(v.name) != enc(name)) by {
        if enc(v.name) == enc(name) {
            assert(vstd::utf8::decode_utf8(enc(v.name)) == vstd::utf8::decode_utf8(enc(name)));
        }
    }
    lemma_middle_differs(pre, enc(v.name), enc(name), post);
    lemma_series_change_seen(a, k, w);
}


/// Giving one channel another logo (channel ids unique; a missing logo reads
/// as an empty one) changes the checksum input.
pub proof fn law_checksum_sees_channel_logo(a: BundleView, k: int, logo: Option<Seq<char>>)
    requires
        0 <= k < a.channels.len(),
        forall|i: int, j: int|
            0 <= i < j < a.channels.len() ==> (#[trigger] a.channels[i]).id != (#[trigger] a.channels[j]).id,
        text_or_empty(logo) != text_or_empty(a.channels[k].logo),
    ensures
        spine_bytes(a) != spine_bytes(
            BundleView { channels: a.channels.update(k, ChannelView { logo: logo, ..a.channels[k] }), ..a },
        ),
{
    broadcast use vstd::utf8::encode_utf8_decode_utf8;

    let v = a.channels[k];
    let w = ChannelView { logo: logo, ..v };
    lemma_enc_or_empty(v.logo);
    lemma_enc_or_empty(logo);
    let pre = enc(v.id) + seq![0u8] + enc(v.stream_url) + seq![0u8] + enc(v.name) + seq![0u8];
    let post = seq![0u8] + enc_or_empty(v.group) + seq![0xffu8];
    assert(channel_rec(v).1 =~= pre + enc(text_or_empty(v.logo)) + post);
    assert(channel_rec(w).1 =~= pre + enc(text_or_empty(logo)) + post);
    assert(enc(text_or_empty(v.logo)) != enc(text_or_empty(logo))) by {
        if enc(text_or_empty(v.logo)) == enc(text_or_empty(logo)) {
            assert(vstd::utf8::decode_utf8(enc(text_or_empty(v.logo))) == vstd::utf8::decode_utf8(enc(text_or_empty(logo))));
        }
    }
    lemma_middle_differs(pre, enc(text_or_empty(v.logo)), enc(text_or_empty(logo)), post);
    lemma_channel_change_seen(a, k, w);
}

/// Moving one channel to another group (channel ids unique; no group reads
/// as an empty one) changes the checksum input.
pub proof fn law_checksum_sees_channel_group(a: BundleView, k: int, group: Option<Seq<char>>)
    requires
        0 <= k < a.channels.len(),
        forall|i: int, j: int|
            0 <= i < j < a.channels.len() ==> (#[trigger] a.channels[i]).id != (#[trigger] a.channels[j]).id,
        text_or_empty(group) != text_or_empty(a.channels[k].group),
    ensures
        spine_bytes(a) != spine_bytes(
            BundleView { channels: a.channels.update(k, ChannelView { group: group, ..a.channels[k] }), ..a },
        ),
{
    broadcast use vstd::utf8::encode_utf8_decode_utf8;

    let v = a.channels[k];
    let w = ChannelView { group: group, ..v };
    lemma_enc_or_empty(v.group);
    lemma_enc_or_empty(group);
    let pre = enc(v.id) + seq![0u8] + enc(v.stream_url) + seq![0u8] + enc(v.name) + seq![0u8] + enc_or_empty(v.logo) + seq![0u8];
    let post = seq![0xffu8];
    assert(channel_rec(v).1 =~= pre + enc(text_or_empty(v.group)) + post);
    assert(channel_rec(w).1 =~= pre + enc(text_or_empty(group)) + post);
    assert(enc(text_or_empty(v.group)) != enc(text_or_empty(group))) by {
        if enc(text_or_empty(v.group)) == enc(text_or_empty(group)) {
            assert(vstd::utf8::decode_utf8(enc(text_or_empty(v.group))) == vstd::utf8::decode_utf8(enc(text_or_empty(group))));
        }
    }
    lemma_middle_differs(pre, enc(text_or_empty(v.group)), enc(text_or_empty(group)), post);
    lemma_channel_change_seen(a, k, w);
}

/// Giving one series another cover (series ids unique; a missing cover reads
/// as an empty one) changes the checksum input.
pub proof fn law_checksum_sees_series_cover(a: BundleView, k: int, cover: Option<Seq<char>>)
    requires
        0 <= k < a.series.len(),
        forall|i: int, j: int|
            0 <= i < j < a.series.len() ==> (#[trigger] a.series[i]).id != (#[trigger] a.series[j]).id,
        text_or_empty(cover) != text_or_empty(a.series[k].cover),
    ensures
        spine_bytes(a) != spine_bytes(
            BundleView { series: a.series.update(k, SeriesView { cover: cover, ..a.series[k] }), ..a },
        ),
{
    broadcast use vstd::utf8::encode_utf8_decode_utf8;

    let v = a.series[k];
    let w = SeriesView { cover: cover, ..v };
    lemma_enc_or_empty(v.cover);
    lemma_enc_or_empty(cover);
    let pre = enc(v.id) + seq![0u8] + enc(v.name) + seq![0u8];
    let post = seq![0u8] + enc_or_empty(v.banner) + seq![0u8] + enc_or_empty(v.category_id) + seq![0u8] + crate::catalog::le_bytes(v.seasons.len(), crate::catalog::word_bytes()) + crate::catalog::le_bytes(crate::catalog::episode_total(v.seasons), crate::catalog::word_bytes()) + seq![0xffu8];
    assert(series_rec(v).1 =~= pre + enc(text_or_empty(v.cover)) + post);
    assert(series_rec(w).1 =~= pre + enc(text_or_empty(cover)) + post);
    assert(enc(text_or_empty(v.cover)) != enc(text_or_empty(cover))) by {
        if enc(text_or_empty(v.cover)) == enc(text_or_empty(cover)) {
            assert(vstd::utf8::decode_utf8(enc(text_or_empty(v.cover))) == vstd::utf8::decode_utf8(enc(text_or_empty(cover))));
        }
    }
    lemma_middle_differs(pre, enc(text_or_empty(v.cover)), enc(text_or_empty(cover)), post);
    lemma_series_change_seen(a, k, w);
}

/// Giving one series another banner (series ids unique; a missing banner
/// reads as an empty one) changes the checksum input.
pub proof fn law_checksum_sees_series_banner(a: BundleView, k: int, banner: Option<Seq<char>>)
    requires
        0 <= k < a.series.len(),
        forall|i: int, j: int|
            0 <= i < j < a.series.len() ==> (#[trigger] a.series[i]).id != (#[trigger] a.series[j]).id,
        text_or_empty(banner) != text_or_empty(a.series[k].banner),
    ensures
        spine_bytes(a) != spine_bytes(
            BundleView { series: a.series.update(k, SeriesView { banner: banner, ..a.series[k] }), ..a },
        ),
{
    broadcast use vstd::utf8::encode_utf8_decode_utf8;

    let v = a.series[k];
    let w = SeriesView { banner: banner, ..v };
    lemma_enc_or_empty(v.banner);
    lemma_enc_or_empty(banner);
    let pre = enc(v.id) + seq![0u8] + enc(v.name) + seq![0u8] + enc_or_empty(v.cover) + seq![0u8];
    let post = seq![0u8] + enc_or_empty(v.category_id) + seq![0u8] + crate::catalog::le_bytes(v.seasons.len(), crate::catalog::word_bytes()) + crate::catalog::le_bytes(crate::catalog::episode_total(v.seasons), crate::catalog::word_bytes()) + seq![0xffu8];
    assert(series_rec(v).1 =~= pre + enc(text_or_empty(v.banner)) + post);
    assert(series_rec(w).1 =~= pre + enc(text_or_empty(banner)) + post);
    assert(enc(text_or_empty(v.banner)) != enc(text_or_empty(banner))) by {
        if enc(text_or_empty(v.banner)) == enc(text_or_empty(banner)) {
            assert(vstd::utf8::decode_utf8(enc(text_or_empty(v.banner))) == vstd::utf8::decode_utf8(enc(text_or_empty(banner))));
        }
    }
    lemma_middle_differs(pre, enc(text_or_empty(v.banner)), enc(text_or_empty(banner)), post);
    lemma_series_change_seen(a, k, w);
}

/// Moving one series to another category (series ids unique; no category
/// reads as an empty one) changes the checksum input.
pub proof fn law_checksum_sees_series_category(a: BundleView, k: int, cat: Option<Seq<char>>)
    requires
        0 <= k < a.series.len(),
        forall|i: int, j: int|
            0 <= i < j < a.series.len() ==> (#[trigger] a.series[i]).id != (#[trigger] a.series[j]).id,
        text_or_empty(cat) != text_or_empty(a.series[k].category_id),
    ensures
        spine_bytes(a) != spine_bytes(
            BundleView { series: a.series.update(k, SeriesView { category_id: cat, ..a.series[k] }), ..a },
        ),
{
    broadcast use vstd::utf8::encode_utf8_decode_utf8;

    let v = a.series[k];
    let w = SeriesView { category_id: cat, ..v };
    lemma_enc_or_empty(v.category_id);
    lemma_enc_or_empty(cat);
    let pre = enc(v.id) + seq![0u8] + enc(v.name) + seq![0u8] + enc_or_empty(v.cover) + seq![0u8] + enc_or_empty(v.banner) + seq![0u8];
    let post = seq![0u8] + crate::catalog::le_bytes(v.seasons.len(), crate::catalog::word_bytes()) + crate::catalog::le_bytes(crate::catalog::episode_total(v.seasons), crate::catalog::word_bytes()) + seq![0xffu8];
    assert(series_rec(v).1 =~= pre + enc(text_or_empty(v.category_id)) + post);
    assert(series_rec(w).1 =~= pre + enc(text_or_empty(cat)) + post);
    assert(enc(text_or_empty(v.category_id)) != enc(text_or_empty(cat))) by {
        if enc(text_or_empty(v.category_id)) == enc(text_or_empty(cat)) {
            assert(vstd::utf8::decode_utf8(enc(text_or_empty(v.category_id))) == vstd::utf8::decode_utf8(enc(text_or_empty(cat))));
        }
    }
    lemma_middle_differs(pre, enc(text_or_empty(v.category_id)), enc(text_or_empty(cat)), post);
    lemma_series_change_seen(a, k, w);
}


/// `256^k`.
pub open spec fn pow256(k: nat) -> nat
    decreases k,
{
    if k == 0 {
        1
    } else {
        256 * pow256((k - 1) as nat)
    }
}

proof fn lemma_le_bytes_len(n: nat, k: nat)
    ensures
        crate::catalog::le_bytes(n, k).len() == k,
    decreases k,
{
    if k > 0 {
        lemma_le_bytes_len(n / 256, (k - 1) as nat);
    }
}

proof fn lemma_le_bytes_injective(n: nat, m: nat, k: nat)
    requires
        n < pow256(k),
        m < pow256(k),
        crate::catalog::le_bytes(n, k) == crate::catalog::le_bytes(m, k),
    ensures
        n == m,
    decreases k,
{
    if k > 0 {
        let bn = crate::catalog::le_bytes(n, k);
        let bm = crate::catalog::le_bytes(m, k);
        assert(bn[0] == bm[0]);
        assert(((n % 256) as u8) as nat == n % 256);
        assert(((m % 256) as u8) as nat == m % 256);
        assert(bn.skip(1) =~= crate::catalog::le_bytes(n / 256, (k - 1) as nat));
        assert(bm.skip(1) =~= crate::catalog::le_bytes(m / 256, (k - 1) as nat));
        let p = pow256((k - 1) as nat);
        assert(n / 256 < p) by (nonlinear_arith)
            requires
                n < 256 * p,
        ;
        assert(m / 256 < p) by (nonlinear_arith)
            requires
                m < 256 * p,
        ;
        lemma_le_bytes_injective(n / 256, m / 256, (k - 1) as nat);
        assert(n == 256 * (n / 256) + n % 256) by (nonlinear_arith);
        assert(m == 256 * (m / 256) + m % 256) by (nonlinear_arith);
    }
}

proof fn lemma_word_room()
    ensures
        pow256(crate::catalog::word_bytes()) >= 0x1_0000_0000,
{
    assert(pow256(4) == 0x1_0000_0000) by {
        reveal_with_fuel(pow256, 5);
    }
    assert(pow256(8) == 0x1_0000_0000_0000_0000) by {
        reveal_with_fuel(pow256, 9);
    }
    assert(crate::catalog::word_bytes() == 4 || crate::catalog::word_bytes() == 8);
}

proof fn lemma_front_differs<A>(x1: Seq<A>, y1: Seq<A>, x2: Seq<A>, y2: Seq<A>)
    requires
        x1.len() == x2.len(),
        x1 != x2,
    ensures
        x1 + y1 != x2 + y2,
{
    if x1 + y1 == x2 + y2 {
        assert forall|i: int| 0 <= i < x1.len() implies x1[i] == x2[i] by {
            assert((x1 + y1)[i] == x1[i]);
            assert((x2 + y2)[i] == x2[i]);
        }
        assert(x1 =~= x2);
    }
}

/// Giving one series a different number of seasons, or the same number with
/// a different number of episodes in all (series ids unique, counts below
/// 2^32), changes the checksum input.
pub proof fn law_checksum_sees_series_counts(a: BundleView, k: int, seasons: Seq<crate::catalog::SeasonView>)
    requires
        0 <= k < a.series.len(),
        forall|i: int, j: int|
            0 <= i < j < a.series.len() ==> (#[trigger] a.series[i]).id != (#[trigger] a.series[j]).id,
        seasons.len() < 0x1_0000_0000,
        a.series[k].seasons.len() < 0x1_0000_0000,
        crate::catalog::episode_total(seasons) < 0x1_0000_0000,
        crate::catalog::episode_total(a.series[k].seasons) < 0x1_0000_0000,
        seasons.len() != a.series[k].seasons.len() || crate::catalog::episode_total(seasons)
            != crate::catalog::episode_total(a.series[k].seasons),
    ensures
        spine_bytes(a) != spine_bytes(
            BundleView { series: a.series.update(k, SeriesView { seasons: seasons, ..a.series[k] }), ..a },
        ),
{
    let v = a.series[k];
    let w = SeriesView { seasons: seasons, ..v };
    let wb = crate::catalog::word_bytes();
    lemma_word_room();
    let n1 = v.seasons.len();
    let n2 = seasons.len();
    let e1 = crate::catalog::episode_total(v.seasons);
    let e2 = crate::catalog::episode_total(seasons);
    let x1 = crate::catalog::le_bytes(n1, wb);
    let x2 = crate::catalog::le_bytes(n2, wb);
    let y1 = crate::catalog::le_bytes(e1, wb);
    let y2 = crate::catalog::le_bytes(e2, wb);
    lemma_le_bytes_len(n1, wb);
    lemma_le_bytes_len(n2, wb);
    let pre = enc(v.id) + seq![0u8] + enc(v.name) + seq![0u8] + enc_or_empty(v.cover) + seq![0u8]
        + enc_or_empty(v.banner) + seq![0u8] + enc_or_empty(v.category_id) + seq![0u8];
    let post = seq![0xffu8];
    assert(series_rec(v).1 =~= pre + (x1 + y1) + post);
    assert(series_rec(w).1 =~= pre + (x2 + y2) + post);
    if n1 != n2 {
        if x1 == x2 {
            lemma_le_bytes_injective(n1, n2, wb);
        }
        lemma_front_differs(x1, y1, x2, y2);
    } else {
        assert(x1 == x2);
        if y1 == y2 {
            lemma_le_bytes_injective(e1, e2, wb);
        }
        assert(x1 + y1 != x2 + y2) by {
            if x1 + y1 == x2 + y2 {
                lemma_middle_differs(x1, y1, y2, Seq::<u8>::empty());
                assert(x1 + y1 + Seq::<u8>::empty() =~= x1 + y1);
                assert(x2 + y2 + Seq::<u8>::empty() =~= x2 + y2);
            }
        }
    }
    lemma_middle_differs(pre, x1 + y1, x2 + y2, post);
    lemma_series_change_seen(a, k, w);
}

} // verus!
