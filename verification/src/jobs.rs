//! Shared job progress counters and chunked iteration helpers.
//!
//! The counters are atomics so worker threads can bump them while the UI
//! reads snapshots; the values read back are therefore whatever the other
//! threads last stored, and the label builders take the snapshot as input.

use std::sync::atomic::AtomicU64;
use std::sync::atomic::Ordering;
use std::sync::Arc;

use vstd::prelude::*;

use crate::text::{dec_chars, push_all, push_decimal, string_of};

verus! {

/// Default row batch size for chunked upserts / index builds.
pub const DEFAULT_CHUNK: usize = 4000;

/// Lock-free progress pair (`done` / `total`) for the status bar.
#[derive(Debug, Default)]
pub struct JobProgress {
    pub done: AtomicU64,
    pub total: AtomicU64,
}

/// `done * 100`, saturating at `u64::MAX`.
pub open spec fn sat_percent_scale(done: u64) -> nat {
    if done * 100 > u64::MAX {
        u64::MAX as nat
    } else {
        (done * 100) as nat
    }
}

/// Integer percentage shown while a job runs: `min(done*100 / total, 99)`.
pub open spec fn running_percent(done: u64, total: u64) -> nat
    recommends
        total > 0,
{
    let p = sat_percent_scale(done) / (total as nat);
    if p > 99 {
        99
    } else {
        p
    }
}

/// Label of one progress pair: nothing while `total == 0`, `"<name> ok"` once
/// `done >= total`, otherwise `"<name> <pct>%"`.
pub open spec fn progress_label_spec(name: Seq<char>, done: u64, total: u64) -> Option<Seq<char>> {
    if total == 0 {
        None
    } else if done >= total {
        Some(name + seq![' ', 'o', 'k'])
    } else {
        Some(name + seq![' '] + dec_chars(running_percent(done, total)) + seq!['%'])
    }
}

/// The character view of an optional string.
pub open spec fn opt_string_view(s: Option<String>) -> Option<Seq<char>> {
    match s {
        Some(t) => Some(t@),
        None => None,
    }
}

/// French short label for a progress snapshot (`ingest 40%`, `ingest ok`).
pub fn progress_label(name: &str, done: u64, total: u64) -> (r: Option<String>)
    ensures
        opt_string_view(r) == progress_label_spec(name@, done, total),
{
    if total == 0 {
        return None;
    }
    let name_chars = crate::text::chars_of(name);
    let mut out: Vec<char> = Vec::new();
    push_all(&mut out, name_chars.as_slice());
    if done >= total {
        out.push(' ');
        out.push('o');
        out.push('k');
        let s = string_of(out.as_slice());
        assert(s@ =~= name@ + seq![' ', 'o', 'k']);
        return Some(s);
    }
    let scaled: u64 = if done > u64::MAX / 100 {
        u64::MAX
    } else {
        done * 100
    };
    let q: u64 = scaled / total;
    let pct: u64 = if q > 99 {
        99
    } else {
        q
    };
    assert(pct as nat == running_percent(done, total));
    out.push(' ');
    push_decimal(&mut out, pct);
    out.push('%');
    let s = string_of(out.as_slice());
    assert(s@ =~= name@ + seq![' '] + dec_chars(running_percent(done, total)) + seq!['%']);
    Some(s)
}

impl JobProgress {
    pub fn new(total: u64) -> Self {
        Self { done: AtomicU64::new(0), total: AtomicU64::new(total) }
    }

    pub fn set_total(&self, total: u64) {
        self.total.store(total, Ordering::Relaxed);
    }

    pub fn reset(&self, total: u64) {
        self.total.store(total, Ordering::Relaxed);
        self.done.store(0, Ordering::Relaxed);
    }

    /// Adds `n` to `done` (wrapping, as the atomic add does).
    pub fn add_done(&self, n: u64) {
        self.done.fetch_add(n, Ordering::Relaxed);
    }

    pub fn set_done(&self, n: u64) {
        self.done.store(n, Ordering::Relaxed);
    }

    pub fn tick(&self) {
        self.done.fetch_add(1, Ordering::Relaxed);
    }

    /// Current `(done, total)`; other threads may store between the two loads.
    pub fn snapshot(&self) -> (u64, u64) {
        (self.done.load(Ordering::Relaxed), self.total.load(Ordering::Relaxed))
    }

    /// French short label of the current snapshot, e.g. `ingest 40%`.
    pub fn label_fr(&self, name: &str) -> (r: Option<String>)
        ensures
            exists|done: u64, total: u64|
                opt_string_view(r) == progress_label_spec(name@, done, total),
    {
        let (done, total) = self.snapshot();
        progress_label(name, done, total)
    }
}

/// Status-bar suffix from meter readings: each of `ingest` / `index` is kept
/// when its label exists and the pair read after it is still running, the
/// image meter shows `images d/t` while running; parts are joined by ` · `
/// and prefixed by ` · `, the empty string when no part is kept.
pub open spec fn status_parts(
    ingest_label: Option<Seq<char>>,
    ingest_now: (u64, u64),
    index_label: Option<Seq<char>>,
    index_now: (u64, u64),
    images_now: (u64, u64),
) -> Seq<Seq<char>> {
    let p1: Seq<Seq<char>> = match ingest_label {
        Some(l) => if ingest_now.0 < ingest_now.1 { seq![l] } else { seq![] },
        None => seq![],
    };
    let p2: Seq<Seq<char>> = match index_label {
        Some(l) => if index_now.0 < index_now.1 { p1.push(l) } else { p1 },
        None => p1,
    };
    if images_now.1 > 0 && images_now.0 < images_now.1 {
        p2.push(
            seq!['i', 'm', 'a', 'g', 'e', 's', ' '] + dec_chars(images_now.0 as nat) + seq!['/']
                + dec_chars(images_now.1 as nat),
        )
    } else {
        p2
    }
}

/// ` · ` (space, middle dot, space).
pub open spec fn dot_sep() -> Seq<char> {
    seq![' ', '\u{b7}', ' ']
}

/// Each part prefixed by the separator, concatenated.
pub open spec fn prefixed_join(parts: Seq<Seq<char>>) -> Seq<char>
    decreases parts.len(),
{
    if parts.len() == 0 {
        seq![]
    } else {
        prefixed_join(parts.drop_last()) + dot_sep() + parts.last()
    }
}

fn push_prefixed(out: &mut Vec<char>, part: &[char], Ghost(parts): Ghost<Seq<Seq<char>>>)
    requires
        old(out)@ == prefixed_join(parts),
    ensures
        final(out)@ == prefixed_join(parts.push(part@)),
{
    out.push(' ');
    out.push('\u{b7}');
    out.push(' ');
    push_all(out, part);
    assert(parts.push(part@).drop_last() =~= parts);
    assert(final(out)@ =~= prefixed_join(parts) + dot_sep() + part@) by {
        assert(prefixed_join(parts.push(part@)) == prefixed_join(parts) + dot_sep() + part@);
    }
}

/// Builds the status suffix from readings taken by the caller.
pub fn status_suffix_from(
    ingest_label: Option<String>,
    ingest_now: (u64, u64),
    index_label: Option<String>,
    index_now: (u64, u64),
    images_now: (u64, u64),
) -> (r: String)
    ensures
        r@ == prefixed_join(
            status_parts(
                opt_string_view(ingest_label),
                ingest_now,
                opt_string_view(index_label),
                index_now,
                images_now,
            ),
        ),
{
    let ghost parts = status_parts(
        opt_string_view(ingest_label),
        ingest_now,
        opt_string_view(index_label),
        index_now,
        images_now,
    );
    let ghost mut acc: Seq<Seq<char>> = seq![];
    let mut out: Vec<char> = Vec::new();
    assert(out@ =~= prefixed_join(acc));
    match ingest_label {
        Some(l) => {
            if ingest_now.0 < ingest_now.1 {
                let cs = crate::text::chars_of(l.as_str());
                push_prefixed(&mut out, cs.as_slice(), Ghost(acc));
                proof {
                    acc = acc.push(l@);
                }
            }
        },
        None => {},
    }
    match index_label {
        Some(l) => {
            if index_now.0 < index_now.1 {
                let cs = crate::text::chars_of(l.as_str());
                push_prefixed(&mut out, cs.as_slice(), Ghost(acc));
                proof {
                    acc = acc.push(l@);
                }
            }
        },
        None => {},
    }
    if images_now.1 > 0 && images_now.0 < images_now.1 {
        let mut part: Vec<char> = Vec::new();
        push_all(&mut part, &['i', 'm', 'a', 'g', 'e', 's', ' ']);
        push_decimal(&mut part, images_now.0);
        part.push('/');
        push_decimal(&mut part, images_now.1);
        assert(part@ =~= seq!['i', 'm', 'a', 'g', 'e', 's', ' '] + dec_chars(images_now.0 as nat)
            + seq!['/'] + dec_chars(images_now.1 as nat));
        push_prefixed(&mut out, part.as_slice(), Ghost(acc));
        proof {
            acc = acc.push(part@);
        }
    }
    assert(acc =~= parts);
    string_of(out.as_slice())
}

/// Process-wide job meters: the UI reads snapshots, workers bump the atomics.
#[derive(Debug, Clone, Default)]
pub struct JobMeters {
    pub ingest: Arc<JobProgress>,
    pub browse_index: Arc<JobProgress>,
    pub images: Arc<JobProgress>,
    pub browse_gen: Arc<AtomicU64>,
}

impl JobMeters {
    pub fn new() -> Self {
        Self {
            ingest: Arc::new(JobProgress::new(0)),
            browse_index: Arc::new(JobProgress::new(0)),
            images: Arc::new(JobProgress::new(0)),
            browse_gen: Arc::new(AtomicU64::new(0)),
        }
    }

    /// Bumps the browse generation and returns the new value (the value
    /// before the bump, plus one, wrapping like the atomic).
    pub fn bump_browse_gen(&self) -> u64 {
        let prev = self.browse_gen.fetch_add(1, Ordering::Relaxed);
        prev.wrapping_add(1)
    }

    pub fn browse_gen(&self) -> u64 {
        self.browse_gen.load(Ordering::Relaxed)
    }

    /// Compact French status suffix (` · ingest 40% · images 3/24`).
    pub fn status_suffix_fr(&self) -> (r: String)
        ensures
            r@.len() == 0 || r@.subrange(0, 3) == dot_sep(),
            exists|d1: u64, t1: u64, d2: u64, t2: u64, now: ((u64, u64), (u64, u64), (u64, u64))|
                r@ == prefixed_join(
                    status_parts(
                        progress_label_spec("ingest"@, d1, t1),
                        now.0,
                        progress_label_spec("index"@, d2, t2),
                        now.1,
                        now.2,
                    ),
                ),
    {
        let ingest_label = self.ingest.label_fr("ingest");
        let ingest_now = self.ingest.snapshot();
        let index_label = self.browse_index.label_fr("index");
        let index_now = self.browse_index.snapshot();
        let images_now = self.images.snapshot();
        let r = status_suffix_from(ingest_label, ingest_now, index_label, index_now, images_now);
        proof {
            let (d1, t1) = choose|d: u64, t: u64|
                opt_string_view(ingest_label) == progress_label_spec("ingest"@, d, t);
            let (d2, t2) = choose|d: u64, t: u64|
                opt_string_view(index_label) == progress_label_spec("index"@, d, t);
            let now = (ingest_now, index_now, images_now);
            assert(r@ == prefixed_join(
                status_parts(
                    progress_label_spec("ingest"@, d1, t1),
                    now.0,
                    progress_label_spec("index"@, d2, t2),
                    now.1,
                    now.2,
                ),
            ));
            lemma_prefixed_join_starts_with_sep(
                status_parts(
                    opt_string_view(ingest_label),
                    ingest_now,
                    opt_string_view(index_label),
                    index_now,
                    images_now,
                ),
            );
        }
        r
    }
}

/// The consecutive chunks of `items` of length `chunk` (the last may be shorter).
pub open spec fn chunks_of<T>(items: Seq<T>, chunk: nat) -> Seq<Seq<T>>
    recommends
        chunk >= 1,
    decreases items.len(),
{
    if items.len() == 0 || chunk == 0 {
        seq![]
    } else if items.len() <= chunk {
        seq![items]
    } else {
        seq![items.take(chunk as int)] + chunks_of(items.skip(chunk as int), chunk)
    }
}

/// The callback was called once per entry of `pieces`, in order: `fs` are
/// its states at those calls, the first being `f0`, and call `k` took a
/// slice holding `pieces[k]` and returned `outs[k]`.
pub open spec fn calls_made<T, F: FnMut(&[T]) -> Result<(), String>>(
    f0: F,
    fs: Seq<F>,
    pieces: Seq<Seq<T>>,
    outs: Seq<Result<(), String>>,
) -> bool {
    &&& fs.len() == pieces.len()
    &&& outs.len() == pieces.len()
    &&& fs.len() > 0 ==> fs[0] == f0
    &&& forall|k: int| 0 <= k < fs.len() ==> call_on(#[trigger] fs[k], pieces[k], outs[k])
}

/// The callback in state `f`, called on a slice holding `piece`, returned `out`.
pub open spec fn call_on<T, F: FnMut(&[T]) -> Result<(), String>>(
    f: F,
    piece: Seq<T>,
    out: Result<(), String>,
) -> bool {
    exists|s: &[T]| #![trigger call_ensures(f, (s,), out)] s@ == piece && call_ensures(f, (s,), out)
}

/// `n` successes.
pub open spec fn all_ok(n: nat) -> Seq<Result<(), String>> {
    Seq::new(n, |k: int| Ok(()))
}

/// `chunk` clamped to at least one.
pub open spec fn effective_chunk(chunk: usize) -> nat {
    if chunk < 1 {
        1
    } else {
        chunk as nat
    }
}

proof fn lemma_chunks_step<T>(items: Seq<T>, off: int, end: int, chunk: nat)
    requires
        chunk >= 1,
        0 <= off < items.len(),
        end == if items.len() - off < chunk { items.len() as int } else { off + chunk },
    ensures
        chunks_of(items.skip(off), chunk) =~= seq![items.subrange(off, end)] + chunks_of(
            items.skip(end),
            chunk,
        ),
{
    let rest = items.skip(off);
    if rest.len() <= chunk {
        assert(rest =~= items.subrange(off, end));
        assert(items.skip(end).len() == 0);
        assert(chunks_of(items.skip(end), chunk) =~= seq![]);
    } else {
        assert(rest.take(chunk as int) =~= items.subrange(off, end));
        assert(rest.skip(chunk as int) =~= items.skip(end));
    }
}

/// Calls `on_chunk` on consecutive slices of at most `chunk` items (at
/// least one), stopping at the first error. `progress`, when given, is
/// reset to `(0, items.len())` and advanced by each chunk's length.
///
/// The contract lists, in order, the slice each chunk hands to `on_chunk`
/// and what that call returned, starting from the callback as passed in.
/// A call's effect on what the callback captures is not modelled (the
/// callback value reads the same before and after a call), so the number of
/// calls is not itself stated.
pub fn for_each_chunk<T, F>(
    items: &[T],
    chunk: usize,
    progress: Option<&JobProgress>,
    mut on_chunk: F,
) -> (r: Result<(), String>) where F: FnMut(&[T]) -> Result<(), String>
    requires
        forall|f: F, s: &[T]| call_requires(f, (s,)),
    ensures
        r is Ok ==> exists|fs: Seq<F>|
            #[trigger] calls_made(
                on_chunk,
                fs,
                chunks_of(items@, effective_chunk(chunk)),
                all_ok(chunks_of(items@, effective_chunk(chunk)).len()),
            ),
        r is Err ==> exists|k: int, fs: Seq<F>|
            0 <= k < chunks_of(items@, effective_chunk(chunk)).len() && #[trigger] calls_made(
                on_chunk,
                fs,
                chunks_of(items@, effective_chunk(chunk)).take(k + 1),
                all_ok(k as nat).push(r),
            ),
{
    let size: usize = if chunk < 1 {
        1
    } else {
        chunk
    };
    let ghost all = chunks_of(items@, size as nat);
    assert(all == chunks_of(items@, effective_chunk(chunk)));
    match progress {
        Some(p) => {
            p.set_total(items.len() as u64);
            p.set_done(0);
        },
        None => {},
    }
    let ghost f0 = on_chunk;
    let ghost mut fs: Seq<F> = seq![];
    let mut failed: Option<String> = None;
    let mut offset: usize = 0;
    let ghost mut k: int = 0;
    assert(items@.skip(0) =~= items@);
    assert(calls_made(f0, fs, all.take(0), all_ok(0)));
    while offset < items.len() && failed.is_none()
        invariant
            offset <= items.len(),
            size >= 1,
            0 <= k <= all.len(),
            forall|f: F, s: &[T]| call_requires(f, (s,)),
            all == chunks_of(items@, size as nat),
            all == chunks_of(items@, effective_chunk(chunk)),
            all =~= all.take(k) + chunks_of(items@.skip(offset as int), size as nat),
            failed is None ==> calls_made(f0, fs, all.take(k), all_ok(k as nat)),
            failed is None && k == 0 ==> on_chunk == f0,
            failed matches Some(e) ==> k < all.len() && calls_made(
                f0,
                fs,
                all.take(k + 1),
                all_ok(k as nat).push(Err(e)),
            ),
        decreases items.len() - offset + (if failed is None {
            1int
        } else {
            0int
        }),
    {
        let end: usize = if items.len() - offset < size {
            items.len()
        } else {
            offset + size
        };
        proof {
            lemma_chunks_step(items@, offset as int, end as int, size as nat);
        }
        let piece = vstd::slice::slice_subrange(items, offset, end);
        assert(all =~= all.take(k) + (seq![piece@] + chunks_of(items@.skip(end as int), size as nat)));
        assert(all[k] == piece@);
        let ghost before = on_chunk;
        let res = on_chunk(piece);
        assert(call_ensures(before, (piece,), res));
        let ghost fs1 = fs.push(before);
        assert(all.take(k + 1) =~= all.take(k).push(piece@));
        assert(fs.len() == k);
        assert(fs1.len() == k + 1);
        assert(fs1[0] == f0);
        assert(k + 1 <= all.len());
        assert(all.take(k + 1).len() == k + 1);
        match res {
            Ok(u) => {
                assert(res == Ok::<(), String>(u));
                assert(u == ());
                assert(call_ensures(before, (piece,), Ok::<(), String>(())));
                proof {
                    let outs = all_ok((k + 1) as nat);
                    assert(outs =~= all_ok(k as nat).push(Ok(())));
                    assert forall|j: int| 0 <= j < fs1.len() implies call_on(
                        #[trigger] fs1[j],
                        all.take(k + 1)[j],
                        outs[j],
                    ) by {
                        if j < k {
                            assert(fs1[j] == fs[j]);
                            assert(outs[j] == all_ok(k as nat)[j]);
                            assert(all.take(k + 1)[j] == all.take(k)[j]);
                            assert(call_on(fs[j], all.take(k)[j], all_ok(k as nat)[j]));
                        } else {
                            assert(outs[j] == Ok::<(), String>(()));
                            assert(call_ensures(fs1[j], (piece,), outs[j]));
                            assert(call_on(fs1[j], all.take(k + 1)[j], outs[j]));
                        }
                    }
                    assert(calls_made(f0, fs1, all.take(k + 1), outs));
                }
                match progress {
                    Some(p) => {
                        p.add_done((end - offset) as u64);
                    },
                    None => {},
                }
                offset = end;
                proof {
                    fs = fs1;
                    k = k + 1;
                }
            },
            Err(e) => {
                proof {
                    let outs = all_ok(k as nat).push(Err(e));
                    assert forall|j: int| 0 <= j < fs1.len() implies call_on(
                        #[trigger] fs1[j],
                        all.take(k + 1)[j],
                        outs[j],
                    ) by {
                        if j < k {
                            assert(fs1[j] == fs[j]);
                            assert(outs[j] == all_ok(k as nat)[j]);
                            assert(all.take(k + 1)[j] == all.take(k)[j]);
                            assert(call_on(fs[j], all.take(k)[j], all_ok(k as nat)[j]));
                        } else {
                            assert(call_ensures(fs1[j], (piece,), outs[j]));
                            assert(call_on(fs1[j], all.take(k + 1)[j], outs[j]));
                        }
                    }
                    assert(calls_made(f0, fs1, all.take(k + 1), outs));
                    fs = fs1;
                }
                failed = Some(e);
            },
        }
    }
    match failed {
        Some(e) => {
            let r: Result<(), String> = Err(e);
            assert(calls_made(
                f0,
                fs,
                chunks_of(items@, effective_chunk(chunk)).take(k + 1),
                all_ok(k as nat).push(r),
            ));
            r
        },
        None => {
            assert(items@.skip(offset as int).len() == 0);
            assert(all.take(k) =~= all);
            Ok(())
        },
    }
}

proof fn lemma_prefixed_join_starts_with_sep(parts: Seq<Seq<char>>)
    ensures
        prefixed_join(parts).len() == 0 || (prefixed_join(parts).len() >= 3
            && prefixed_join(parts).subrange(0, 3) == dot_sep()),
    decreases parts.len(),
{
    if parts.len() > 0 {
        lemma_prefixed_join_starts_with_sep(parts.drop_last());
        let prev = prefixed_join(parts.drop_last());
        if prev.len() == 0 {
            assert((prev + dot_sep() + parts.last()).subrange(0, 3) =~= dot_sep());
        } else {
            assert((prev + dot_sep() + parts.last()).subrange(0, 3) =~= prev.subrange(0, 3));
        }
    }
}

} // verus!
