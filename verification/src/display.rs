//! Host display probing: parsers for `xrandr` / `wlr-randr` / DRM mode
//! text and `lspci` GPU lines, and the runtime budgets derived from them.

use vstd::prelude::*;

use crate::decimal::{
    at_least, at_least_exec, at_most, at_most_exec, decimal_of, digit_run, is_digit, parse_decimal,
    parse_u32, parse_u32_spec, round_to_u32, round_to_u32_exec,
};
use crate::gpu::{tier_label, GpuTier};
use crate::text::{
    chars_of, contains_chars, first_index, first_occurrence, find_char_from, has_sub, last_index,
    ascii_lower, ascii_upper, dec_chars, lines_exec, lines_of, push_all, push_decimal, remove_all, to_upper,
    starts_with, starts_with_chars, string_of, trim, trim_exec, views, words, words_exec,
};

verus! {

/// A monitor mode: connector name, refresh rate (Hz), width, height.
pub type Mode = (String, u32, u32, u32);

pub open spec fn mode_view(m: Option<Mode>) -> Option<(Seq<char>, u32, u32, u32)> {
    match m {
        Some(m) => Some((m.0@, m.1, m.2, m.3)),
        None => None,
    }
}

pub open spec fn unwrap_or_zero(o: Option<u32>) -> u32 {
    match o {
        Some(v) => v,
        None => 0,
    }
}

/// `"1920x1080"` → `(1920, 1080)`: split at the first `x` of the trimmed
/// text, the height keeps its leading digits; unparsable parts read as 0.
pub open spec fn mode_wh(mode: Seq<char>) -> (u32, u32) {
    let t = trim(mode);
    match first_index(t, 'x') {
        None => (0, 0),
        Some(i) => {
            let w = t.take(i as int);
            let h0 = t.skip(i as int + 1);
            let h = h0.take(digit_run(h0) as int);
            (unwrap_or_zero(parse_u32_spec(w)), unwrap_or_zero(parse_u32_spec(h)))
        },
    }
}

/// Width and height of a mode such as `"1920x1080"`.
pub fn parse_mode_wh(mode: &[char]) -> (r: (u32, u32))
    ensures
        r == mode_wh(mode@),
{
    let t = trim_exec(mode);
    assert(t@.skip(0) =~= t@);
    proof {
        crate::text::lemma_first_index_bound(t@, 'x');
    }
    match find_char_from(t.as_slice(), 'x', 0) {
        None => {
            assert(t@.skip(0) =~= t@);
            (0, 0)
        },
        Some(i) => {
            assert(t@.skip(0) =~= t@);
            let w = crate::text::sub_chars(t.as_slice(), 0, i);
            let h0 = crate::text::sub_chars(t.as_slice(), i + 1, t.len());
            let n = crate::decimal::digit_run_from(h0.as_slice(), 0);
            assert(h0@.skip(0) =~= h0@);
            proof {
                crate::decimal::lemma_digit_run_bound(h0@);
            }
            let h = crate::text::sub_chars(h0.as_slice(), 0, n);
            assert(w@ =~= t@.take(i as int));
            assert(h0@ =~= t@.skip(i + 1));
            assert(h@ =~= h0@.take(n as int));
            let wv = match parse_u32(w.as_slice()) {
                Some(v) => v,
                None => 0,
            };
            let hv = match parse_u32(h.as_slice()) {
                Some(v) => v,
                None => 0,
            };
            (wv, hv)
        },
    }
}

/// The trailing run of `*` / `+` markers removed.
pub open spec fn strip_marks(s: Seq<char>) -> Seq<char>
    decreases s.len(),
{
    if s.len() > 0 && (s.last() == '*' || s.last() == '+') {
        strip_marks(s.drop_last())
    } else {
        s
    }
}

fn strip_marks_exec(s: &[char]) -> (r: Vec<char>)
    ensures
        r@ == strip_marks(s@),
{
    let mut e = s.len();
    assert(s@.take(e as int) =~= s@);
    while e > 0 && (s[e - 1] == '*' || s[e - 1] == '+')
        invariant
            e <= s.len(),
            strip_marks(s@) == strip_marks(s@.take(e as int)),
        decreases e,
    {
        assert(s@.take(e as int).drop_last() =~= s@.take(e - 1));
        e -= 1;
    }
    let r = crate::text::sub_chars(s, 0, e);
    assert(r@ =~= s@.take(e as int));
    assert(s@.take(s.len() as int) =~= s@);
    r
}

/// A refresh-rate token accepted by the `xrandr` reader: markers stripped,
/// a number between 20 and 360 inclusive, rounded.
pub open spec fn xrandr_rate(tok: Seq<char>) -> Option<u32> {
    match decimal_of(strip_marks(tok)) {
        Some(d) => if at_least(d, 20) && at_most(d, 360) {
            Some(round_to_u32(d))
        } else {
            None
        },
        None => None,
    }
}

fn xrandr_rate_exec(tok: &[char]) -> (r: Option<u32>)
    ensures
        r == xrandr_rate(tok@),
{
    let t = strip_marks_exec(tok);
    match parse_decimal(t.as_slice()) {
        Some(d) => {
            if at_least_exec(d, 20) && at_most_exec(d, 360) {
                Some(round_to_u32_exec(d))
            } else {
                None
            }
        },
        None => None,
    }
}

/// Some line of the output is a `primary` line starting with `name`.
pub open spec fn has_primary(all: Seq<Seq<char>>, name: Seq<char>) -> bool {
    exists|i: int| 0 <= i < all.len() && has_sub(all[i], " primary"@) && starts_with(all[i], name)
}

/// The rate of a token marked `*` (the current rate); none for other tokens.
pub open spec fn starred_rate(tok: Seq<char>) -> Option<u32> {
    if has_sub(tok, seq!['*']) {
        xrandr_rate(tok)
    } else {
        None
    }
}

/// Scans the rate tokens of a mode line: the accepted `*`-marked rate becomes
/// the best mode; with `stop` it ends the whole parse.
pub open spec fn scan_rates(
    toks: Seq<Seq<char>>,
    name: Seq<char>,
    mw: u32,
    mh: u32,
    best: Option<(Seq<char>, u32, u32, u32)>,
    stop: bool,
) -> (Option<(Seq<char>, u32, u32, u32)>, bool)
    decreases toks.len(),
{
    if toks.len() == 0 {
        (best, false)
    } else {
        match starred_rate(toks[0]) {
            Some(hz) => {
                let b = Some((name, hz, mw, mh));
                if stop {
                    (b, true)
                } else {
                    scan_rates(toks.skip(1), name, mw, mh, b, stop)
                }
            },
            None => scan_rates(toks.skip(1), name, mw, mh, best, stop),
        }
    }
}

/// The `xrandr` reader over the remaining lines. A ` connected` line names
/// the current output (a ` primary` one always, otherwise only the first);
/// a line of the current output holding `*` is a current mode line.
pub open spec fn xrandr_fold(
    lines: Seq<Seq<char>>,
    all: Seq<Seq<char>>,
    current: Option<Seq<char>>,
    best: Option<(Seq<char>, u32, u32, u32)>,
) -> Option<(Seq<char>, u32, u32, u32)>
    decreases lines.len(),
{
    if lines.len() == 0 {
        best
    } else {
        let line = lines[0];
        let rest = lines.skip(1);
        if has_sub(line, " connected"@) {
            let ws = words(line);
            if ws.len() == 0 {
                None
            } else {
                let cur = if has_sub(line, " primary"@) {
                    Some(ws[0])
                } else if current is None {
                    Some(ws[0])
                } else {
                    current
                };
                xrandr_fold(rest, all, cur, best)
            }
        } else {
            match current {
                None => xrandr_fold(rest, all, current, best),
                Some(name) => {
                    let t = trim(line);
                    if !has_sub(t, seq!['*']) {
                        xrandr_fold(rest, all, current, best)
                    } else {
                        let ws = words(t);
                        if ws.len() == 0 {
                            None
                        } else {
                            let (mw, mh) = mode_wh(ws[0]);
                            let (b, ret) = scan_rates(
                                ws.skip(1),
                                name,
                                mw,
                                mh,
                                best,
                                has_primary(all, name),
                            );
                            if ret {
                                b
                            } else {
                                xrandr_fold(rest, all, current, b)
                            }
                        }
                    }
                },
            }
        }
    }
}

/// Current mode from `xrandr` output (the `*`-marked rate): `(name, hz, w, h)`.
pub open spec fn xrandr_mode(out: Seq<char>) -> Option<(Seq<char>, u32, u32, u32)> {
    xrandr_fold(lines_of(out), lines_of(out), None, None)
}

fn has_primary_exec(all: &Vec<Vec<char>>, name: &[char], Ghost(lines): Ghost<Seq<Seq<char>>>) -> (r:
    bool)
    requires
        views(all@) == lines,
    ensures
        r == has_primary(lines, name@),
{
    let pat = chars_of(" primary");
    let mut i: usize = 0;
    while i < all.len()
        invariant
            i <= all.len(),
            views(all@) == lines,
            pat@ == " primary"@,
            forall|k: int|
                0 <= k < i ==> !(has_sub(lines[k], " primary"@) && starts_with(lines[k], name@)),
        decreases all.len() - i,
    {
        assert(lines[i as int] == all@[i as int]@);
        if contains_chars(all[i].as_slice(), pat.as_slice()) && starts_with_chars(
            all[i].as_slice(),
            name,
        ) {
            return true;
        }
        i += 1;
    }
    false
}

spec fn vec_opt_view(c: Option<Vec<char>>) -> Option<Seq<char>> {
    match c {
        Some(c) => Some(c@),
        None => None,
    }
}

spec fn best_view(b: Option<(Vec<char>, u32, u32, u32)>) -> Option<(Seq<char>, u32, u32, u32)> {
    match b {
        Some(b) => Some((b.0@, b.1, b.2, b.3)),
        None => None,
    }
}

fn opt_mode(name: &Vec<char>, hz: u32, w: u32, h: u32) -> (r: Option<Mode>)
    ensures
        mode_view(r) == Some((name@, hz, w, h)),
{
    Some((string_of(name.as_slice()), hz, w, h))
}

/// Parses `xrandr` output: the current (`*`) mode of the primary output, or
/// of the first connected output. Returns `(name, hz, w, h)`.
pub fn parse_xrandr(out: &str) -> (r: Option<Mode>)
    ensures
        mode_view(r) == xrandr_mode(out@),
{
    let oc = chars_of(out);
    let lines = lines_exec(oc.as_slice());
    let ghost all = views(lines@);
    let connected = chars_of(" connected");
    let primary = chars_of(" primary");
    let mut current: Option<Vec<char>> = None;
    let mut best: Option<(Vec<char>, u32, u32, u32)> = None;
    let mut i: usize = 0;
    assert(all.skip(0) =~= all);
    while i < lines.len()
        invariant
            i <= lines.len(),
            all == views(lines@),
            all == lines_of(out@),
            connected@ == " connected"@,
            primary@ == " primary"@,
            xrandr_mode(out@) == xrandr_fold(
                all.skip(i as int),
                all,
                vec_opt_view(current),
                best_view(best),
            ),
        decreases lines.len() - i,
    {
        let line = &lines[i];
        let ghost best_v = best_view(best);
        assert(all.skip(i as int)[0] == line@);
        assert(all.skip(i as int).skip(1) =~= all.skip(i + 1));
        if contains_chars(line.as_slice(), connected.as_slice()) {
            let ws = words_exec(line.as_slice());
            if ws.len() == 0 {
                return None;
            }
            let name = ws[0].clone();
            assert(name@ == words(line@)[0]);
            if contains_chars(line.as_slice(), primary.as_slice()) {
                current = Some(name);
            } else if current.is_none() {
                current = Some(name);
            }
            i += 1;
            continue;
        }
        match &current {
            None => {
                i += 1;
                continue;
            },
            Some(name) => {
                let t = trim_exec(line.as_slice());
                assert(['*']@ =~= seq!['*']);
                if !contains_chars(t.as_slice(), &['*']) {
                    i += 1;
                    continue;
                }
                let ws = words_exec(t.as_slice());
                if ws.len() == 0 {
                    return None;
                }
                let (mw, mh) = parse_mode_wh(ws[0].as_slice());
                let stop = has_primary_exec(&lines, name.as_slice(), Ghost(all));
                let ghost toks = views(ws@).skip(1);
                let ghost cur_v = vec_opt_view(current);
                proof {
                    assert(cur_v == Some(name@));
                    assert(views(ws@) == words(t@));
                    assert(views(ws@)[0] == ws@[0]@);
                }
                let mut k: usize = 1;
                assert(views(ws@).skip(1).skip(0) =~= toks);
                while k < ws.len()
                    invariant
                        1 <= k <= ws.len(),
                        toks == views(ws@).skip(1),
                        xrandr_mode(out@) == ({
                            let (b, ret) = scan_rates(
                                toks.skip(k - 1),
                                name@,
                                mw,
                                mh,
                                best_view(best),
                                stop,
                            );
                            if ret {
                                b
                            } else {
                                xrandr_fold(all.skip(i + 1), all, cur_v, b)
                            }
                        }),
                    decreases ws.len() - k,
                {
                    assert(toks.skip(k - 1)[0] == ws@[k as int]@);
                    assert(toks.skip(k - 1).skip(1) =~= toks.skip(k as int));
                    assert(['*']@ =~= seq!['*']);
                    let starred = contains_chars(ws[k].as_slice(), &['*']);
                    let rate = if starred {
                        xrandr_rate_exec(ws[k].as_slice())
                    } else {
                        None
                    };
                    assert(rate == starred_rate(ws@[k as int]@));
                    match rate {
                        Some(hz) => {
                            if stop {
                                return opt_mode(name, hz, mw, mh);
                            }
                            let nm = crate::text::sub_chars(name.as_slice(), 0, name.len());
                            assert(nm@ =~= name@);
                            best = Some((nm, hz, mw, mh));
                        },
                        None => {},
                    }
                    k += 1;
                }
                assert(toks.skip(k - 1) =~= seq![]);
                i += 1;
            },
        }
    }
    assert(all.skip(i as int) =~= seq![]);
    match best {
        Some(b) => Some((string_of(b.0.as_slice()), b.1, b.2, b.3)),
        None => None,
    }
}


/// The text before the first `c` (all of `s` when there is none).
pub open spec fn first_piece(s: Seq<char>, c: char) -> Seq<char> {
    match first_index(s, c) {
        Some(j) => s.take(j as int),
        None => s,
    }
}

/// The text after the last `c` (all of `s` when there is none).
pub open spec fn last_piece(s: Seq<char>, c: char) -> Seq<char> {
    match last_index(s, c) {
        Some(j) => s.skip(j as int + 1),
        None => s,
    }
}

pub fn first_piece_exec(s: &[char], c: char) -> (r: Vec<char>)
    ensures
        r@ == first_piece(s@, c),
{
    assert(s@.skip(0) =~= s@);
    proof {
        crate::text::lemma_first_index_bound(s@, c);
    }
    match find_char_from(s, c, 0) {
        Some(j) => {
            let r = crate::text::sub_chars(s, 0, j);
            assert(r@ =~= s@.take(j as int));
            r
        },
        None => {
            let r = crate::text::sub_chars(s, 0, s.len());
            assert(r@ =~= s@);
            r
        },
    }
}

pub fn last_piece_exec(s: &[char], c: char) -> (r: Vec<char>)
    ensures
        r@ == last_piece(s@, c),
{
    match crate::text::rfind_char(s, c) {
        Some(j) => {
            let r = crate::text::sub_chars(s, j + 1, s.len());
            assert(r@ =~= s@.skip(j as int + 1));
            r
        },
        None => {
            let r = crate::text::sub_chars(s, 0, s.len());
            assert(r@ =~= s@);
            r
        },
    }
}

/// A line of a `current` block of `wlr-randr`, such as
/// `"1920x1080 px, 59.961002 Hz (preferred)"`. `None`: the line gives no
/// answer; `Some(r)`: the parse ends with `r`.
pub open spec fn wlr_mode_line(t: Seq<char>, name: Option<Seq<char>>) -> Option<
    Option<(Seq<char>, u32, u32, u32)>,
> {
    match first_occurrence(t, " Hz"@) {
        None => None,
        Some(idx) => {
            let before = t.take(idx as int);
            let (mw, mh) = mode_wh(trim(remove_all(first_piece(before, ','), " px"@)));
            let ws = words(trim(last_piece(before, ',')));
            if ws.len() == 0 {
                Some(None)
            } else {
                match decimal_of(ws.last()) {
                    Some(d) => match name {
                        Some(n) => Some(Some((n, round_to_u32(d), mw, mh))),
                        None => None,
                    },
                    None => None,
                }
            }
        },
    }
}

/// An output header line: not empty and not indented.
pub open spec fn is_header(line: Seq<char>) -> bool {
    line.len() > 0 && line[0] != ' ' && line[0] != '\t'
}

/// A line that ends the `current` block.
pub open spec fn ends_block(t: Seq<char>) -> bool {
    starts_with(t, "position"@) || starts_with(t, "transform"@) || starts_with(t, "scale"@)
}

/// A mode line of a `Modes:` list tagged as the current mode, such as
/// `"1920x1080 px, 59.961002 Hz (preferred, current)"`.
pub open spec fn tagged_current(t: Seq<char>) -> bool {
    match first_occurrence(t, " Hz"@) {
        Some(idx) => has_sub(t.skip(idx as int), "current"@),
        None => false,
    }
}

fn tagged_current_exec(t: &[char]) -> (r: bool)
    ensures
        r == tagged_current(t@),
{
    let hz_pat = chars_of(" Hz");
    match crate::text::find_sub(t, hz_pat.as_slice()) {
        None => false,
        Some(idx) => {
            let rest = crate::text::sub_chars(t, idx, t.len());
            assert(rest@ =~= t@.skip(idx as int));
            let cur = chars_of("current");
            crate::text::contains_chars(rest.as_slice(), cur.as_slice())
        },
    }
}

/// The `wlr-randr` reader over the remaining lines.
pub open spec fn wlr_fold(lines: Seq<Seq<char>>, name: Option<Seq<char>>, block: bool) -> Option<
    (Seq<char>, u32, u32, u32),
>
    decreases lines.len(),
{
    if lines.len() == 0 {
        None
    } else {
        let line = lines[0];
        let rest = lines.skip(1);
        if is_header(line) {
            let ws = words(line);
            wlr_fold(
                rest,
                if ws.len() > 0 {
                    Some(ws[0])
                } else {
                    None
                },
                false,
            )
        } else {
            let t = trim(line);
            if t == "current"@ || starts_with(t, "current "@) {
                wlr_fold(rest, name, true)
            } else if block {
                match wlr_mode_line(t, name) {
                    Some(r) => r,
                    None => wlr_fold(rest, name, !ends_block(t)),
                }
            } else if tagged_current(t) {
                match wlr_mode_line(t, name) {
                    Some(r) => r,
                    None => wlr_fold(rest, name, block),
                }
            } else {
                wlr_fold(rest, name, block)
            }
        }
    }
}

/// Current mode from `wlr-randr` output: `(name, hz, w, h)`.
pub open spec fn wlr_mode(out: Seq<char>) -> Option<(Seq<char>, u32, u32, u32)> {
    wlr_fold(lines_of(out), None, false)
}

spec fn opt_mode_view(r: Option<Option<Mode>>) -> Option<Option<(Seq<char>, u32, u32, u32)>> {
    match r {
        Some(m) => Some(mode_view(m)),
        None => None,
    }
}

fn wlr_mode_line_exec(t: &[char], name: &Option<Vec<char>>) -> (r: Option<Option<Mode>>)
    ensures
        opt_mode_view(r) == wlr_mode_line(t@, vec_opt_view(*name)),
{
    let hz_pat = chars_of(" Hz");
    match crate::text::find_sub(t, hz_pat.as_slice()) {
        None => None,
        Some(idx) => {
            let before = crate::text::sub_chars(t, 0, idx);
            assert(before@ =~= t@.take(idx as int));
            let first = first_piece_exec(before.as_slice(), ',');
            let px = chars_of(" px");
            let cleaned = crate::text::remove_all_exec(first.as_slice(), px.as_slice());
            let cleaned_t = trim_exec(cleaned.as_slice());
            let (mw, mh) = parse_mode_wh(cleaned_t.as_slice());
            let last = last_piece_exec(before.as_slice(), ',');
            let last_t = trim_exec(last.as_slice());
            let ws = words_exec(last_t.as_slice());
            if ws.len() == 0 {
                return Some(None);
            }
            let rate = &ws[ws.len() - 1];
            assert(views(ws@).last() == rate@);
            match parse_decimal(rate.as_slice()) {
                Some(d) => match name {
                    Some(n) => Some(opt_mode(n, round_to_u32_exec(d), mw, mh)),
                    None => None,
                },
                None => None,
            }
        },
    }
}

/// Parses `wlr-randr` output: the current mode of the first output that has
/// one, listed under a `current` line or tagged `current` in its mode list.
/// Returns `(name, hz, w, h)`.
#[verifier::rlimit(50)]
pub fn parse_wlr_randr(out: &str) -> (r: Option<Mode>)
    ensures
        mode_view(r) == wlr_mode(out@),
{
    let oc = chars_of(out);
    let lines = lines_exec(oc.as_slice());
    let ghost all = views(lines@);
    let current_w = chars_of("current");
    let current_sp = chars_of("current ");
    let position = chars_of("position");
    let transform = chars_of("transform");
    let scale = chars_of("scale");
    let mut name: Option<Vec<char>> = None;
    let mut block = false;
    let mut i: usize = 0;
    assert(all.skip(0) =~= all);
    while i < lines.len()
        invariant
            i <= lines.len(),
            all == views(lines@),
            current_w@ == "current"@,
            current_sp@ == "current "@,
            position@ == "position"@,
            transform@ == "transform"@,
            scale@ == "scale"@,
            wlr_mode(out@) == wlr_fold(all.skip(i as int), vec_opt_view(name), block),
        decreases lines.len() - i,
    {
        let line = &lines[i];
        assert(all.skip(i as int)[0] == line@);
        assert(all.skip(i as int).skip(1) =~= all.skip(i + 1));
        if line.len() > 0 && line[0] != ' ' && line[0] != '\t' {
            let ws = words_exec(line.as_slice());
            if ws.len() > 0 {
                name = Some(crate::text::sub_chars(ws[0].as_slice(), 0, ws[0].len()));
                assert(ws@[0]@.subrange(0, ws@[0]@.len() as int) =~= ws@[0]@);
                assert(views(ws@)[0] == ws@[0]@);
            } else {
                name = None;
            }
            block = false;
        } else {
            let t = trim_exec(line.as_slice());
            if crate::text::chars_eq(t.as_slice(), current_w.as_slice()) || starts_with_chars(
                t.as_slice(),
                current_sp.as_slice(),
            ) {
                block = true;
            } else if block {
                match wlr_mode_line_exec(t.as_slice(), &name) {
                    Some(r) => {
                        return r;
                    },
                    None => {
                        if starts_with_chars(t.as_slice(), position.as_slice())
                            || starts_with_chars(t.as_slice(), transform.as_slice())
                            || starts_with_chars(t.as_slice(), scale.as_slice()) {
                            block = false;
                        }
                    },
                }
            } else if tagged_current_exec(t.as_slice()) {
                match wlr_mode_line_exec(t.as_slice(), &name) {
                    Some(r) => {
                        return r;
                    },
                    None => {},
                }
            }
        }
        i += 1;
    }
    assert(all.skip(i as int) =~= seq![]);
    None
}


/// The run of digits and `.` at the start of `s`.
pub open spec fn number_run(s: Seq<char>) -> nat
    decreases s.len(),
{
    if s.len() > 0 && (is_digit(s[0]) || s[0] == '.') {
        1 + number_run(s.skip(1))
    } else {
        0
    }
}

proof fn lemma_number_run_step(s: Seq<char>, i: int)
    requires
        0 <= i <= s.len(),
        forall|k: int| 0 <= k < i ==> (is_digit(#[trigger] s[k]) || s[k] == '.'),
    ensures
        number_run(s) == i + number_run(s.skip(i)),
    decreases i,
{
    if i > 0 {
        assert(s.skip(1).skip(i - 1) =~= s.skip(i));
        assert forall|k: int| 0 <= k < i - 1 implies (is_digit(#[trigger] s.skip(1)[k])
            || s.skip(1)[k] == '.') by {
            assert(s.skip(1)[k] == s[k + 1]);
        }
        lemma_number_run_step(s.skip(1), i - 1);
        assert(is_digit(s[0]) || s[0] == '.');
    } else {
        assert(s.skip(0) =~= s);
    }
}

/// Refresh rate of a DRM mode line such as `"1920x1080@60.00"`: the number
/// after the first `@`, when it reads as at least 20, rounded.
pub open spec fn drm_mode_hz(line: Seq<char>) -> Option<u32> {
    match first_index(line, '@') {
        None => None,
        Some(j) => {
            let rest = line.skip(j as int + 1);
            let num = rest.take(number_run(rest) as int);
            match decimal_of(num) {
                Some(d) => if at_least(d, 20) {
                    Some(round_to_u32(d))
                } else {
                    None
                },
                None => None,
            }
        },
    }
}

/// Refresh rate (Hz) of a DRM mode line.
pub fn parse_drm_mode_hz(line: &[char]) -> (r: Option<u32>)
    ensures
        r == drm_mode_hz(line@),
{
    assert(line@.skip(0) =~= line@);
    proof {
        crate::text::lemma_first_index_bound(line@, '@');
    }
    match find_char_from(line, '@', 0) {
        None => None,
        Some(j) => {
            let rest = crate::text::sub_chars(line, j + 1, line.len());
            assert(rest@ =~= line@.skip(j as int + 1));
            let mut n: usize = 0;
            while n < rest.len() && (('0' <= rest[n] && rest[n] <= '9') || rest[n] == '.')
                invariant
                    n <= rest.len(),
                    forall|k: int| 0 <= k < n ==> (is_digit(#[trigger] rest@[k]) || rest@[k] == '.'),
                decreases rest.len() - n,
            {
                n += 1;
            }
            proof {
                lemma_number_run_step(rest@, n as int);
                if n < rest.len() {
                    assert(!(is_digit(rest@.skip(n as int)[0]) || rest@.skip(n as int)[0] == '.'));
                } else {
                    assert(rest@.skip(n as int).len() == 0);
                }
            }
            let num = crate::text::sub_chars(rest.as_slice(), 0, n);
            assert(num@ =~= rest@.take(n as int));
            match parse_decimal(num.as_slice()) {
                Some(d) => {
                    if at_least_exec(d, 20) {
                        Some(round_to_u32_exec(d))
                    } else {
                        None
                    }
                },
                None => None,
            }
        },
    }
}

/// Preference rank of a DRM connector: eDP, then DP, then HDMI, then others.
pub open spec fn connector_rank(name: Seq<char>) -> u8 {
    let u = ascii_upper(name);
    if has_sub(u, "EDP"@) {
        0
    } else if has_sub(u, "DP"@) {
        1
    } else if has_sub(u, "HDMI"@) {
        2
    } else {
        3
    }
}

/// Preference rank of a DRM connector name (lower is preferred).
pub fn rank_connector(name: &[char]) -> (r: u8)
    ensures
        r == connector_rank(name@),
{
    let u = to_upper(name);
    let edp = chars_of("EDP");
    let dp = chars_of("DP");
    let hdmi = chars_of("HDMI");
    if contains_chars(u.as_slice(), edp.as_slice()) {
        0
    } else if contains_chars(u.as_slice(), dp.as_slice()) {
        1
    } else if contains_chars(u.as_slice(), hdmi.as_slice()) {
        2
    } else {
        3
    }
}

/// Tick period for a rate: `1000 / hz` ms rounded half up (`hz` of 0 read
/// as 1), kept within 8..=1000.
pub open spec fn period_of(hz: u32) -> u64 {
    let h: int = if hz == 0 {
        1
    } else {
        hz as int
    };
    let q = (2000 + h) / (2 * h);
    if q < 8 {
        8
    } else if q > 1000 {
        1000
    } else {
        q as u64
    }
}

/// Milliseconds between ticks at `hz`.
pub fn period_ms(hz: u32) -> (r: u64)
    ensures
        r == period_of(hz),
        8 <= r <= 1000,
{
    let h: u64 = if hz == 0 {
        1
    } else {
        hz as u64
    };
    let q = (2000 + h) / (2 * h);
    if q < 8 {
        8
    } else if q > 1000 {
        1000
    } else {
        q
    }
}


/// Refresh assumed when nothing could be probed.
pub const DEFAULT_HZ: u32 = 60;

/// Lowest rate any budget resolves to.
pub const MIN_HZ: u32 = 24;

/// Highest monitor rate taken into account.
pub const MAX_HZ: u32 = 240;

/// Soft present never needs to exceed this even on 360 Hz panels.
pub const SOFT_PRESENT_MAX: u32 = 120;

/// Highest GUI tick rate.
pub const GUI_CAP_MAX: u32 = 120;

/// Windowing session of the host.
#[derive(Debug, Clone, Copy, PartialEq, Eq, Structural)]
pub enum DisplaySession {
    Wayland,
    X11,
    Android,
    Unknown,
}

pub open spec fn session_label(s: DisplaySession) -> Seq<char> {
    match s {
        DisplaySession::Wayland => "Wayland"@,
        DisplaySession::X11 => "X11"@,
        DisplaySession::Android => "Android"@,
        DisplaySession::Unknown => "?"@,
    }
}

impl DisplaySession {
    /// Display name of the session.
    pub fn label(self) -> (r: &'static str)
        ensures
            r@ == session_label(self),
    {
        match self {
            DisplaySession::Wayland => "Wayland",
            DisplaySession::X11 => "X11",
            DisplaySession::Android => "Android",
            DisplaySession::Unknown => "?",
        }
    }
}

/// The session from the environment: Android always; otherwise Wayland when
/// `WAYLAND_DISPLAY` is set and not empty, X11 when `DISPLAY` is.
pub fn session_from_env(android: bool, wayland_set: bool, x11_set: bool) -> (r: DisplaySession)
    ensures
        r == (if android {
            DisplaySession::Android
        } else if wayland_set {
            DisplaySession::Wayland
        } else if x11_set {
            DisplaySession::X11
        } else {
            DisplaySession::Unknown
        }),
{
    if android {
        DisplaySession::Android
    } else if wayland_set {
        DisplaySession::Wayland
    } else if x11_set {
        DisplaySession::X11
    } else {
        DisplaySession::Unknown
    }
}

/// What was probed about the host.
pub struct DisplayProbe {
    pub monitor_name: String,
    pub monitor_hz: u32,
    /// Active mode width / height when known (0 = unknown).
    pub monitor_w: u32,
    pub monitor_h: u32,
    pub gpu_name: String,
    pub gpu_tier: GpuTier,
    pub cpu_logical: u32,
    pub cpu_arch: String,
    pub session: DisplaySession,
    pub os_label: String,
    /// Laptop running on battery (false when unknown).
    pub on_battery: bool,
    pub source: String,
}

/// Derived concurrency / quality knobs.
#[derive(Debug, Clone, Copy, PartialEq, Eq, Structural)]
pub struct RuntimeTuning {
    /// Metadata lookups in flight (1..=6).
    pub meta_parallel: usize,
    /// Parallel image fetch + decode tasks (4..=32).
    pub image_inflight: usize,
    /// Prefetch batch per refresh (6..=24, at most `image_inflight`).
    pub image_prefetch: usize,
    /// Virtual mosaic overscan rows (6..=20).
    pub virtual_overscan: usize,
    /// Longest image edge before upload.
    pub decode_edge_px: u32,
    /// Portal HTTP overlap, kept low on purpose.
    pub portal_parallel: usize,
}

/// Environment overrides of the automatic choices.
pub struct CapsOverrides {
    pub monitor_hz: Option<u32>,
    pub gui_fps: Option<u32>,
    pub video_fps: Option<u32>,
    pub meta_parallel: Option<u32>,
    pub image_inflight: Option<u32>,
    /// Soft video at UHD is allowed (capped to 60).
    pub soft_uhd: bool,
}

/// The probe with the rates resolved from it.
pub struct DisplayCaps {
    pub probe: DisplayProbe,
    pub gui_hz: u32,
    pub video_hz: u32,
    pub tuning: RuntimeTuning,
}

pub open spec fn clamp(v: int, lo: int, hi: int) -> int {
    if v < lo {
        lo
    } else if v > hi {
        hi
    } else {
        v
    }
}

pub open spec fn min(a: int, b: int) -> int {
    if a < b {
        a
    } else {
        b
    }
}

pub open spec fn max(a: int, b: int) -> int {
    if a > b {
        a
    } else {
        b
    }
}

fn clamp_u32(v: u32, lo: u32, hi: u32) -> (r: u32)
    requires
        lo <= hi,
    ensures
        r == clamp(v as int, lo as int, hi as int),
{
    if v < lo {
        lo
    } else if v > hi {
        hi
    } else {
        v
    }
}

fn clamp_usize(v: usize, lo: usize, hi: usize) -> (r: usize)
    requires
        lo <= hi,
    ensures
        r == clamp(v as int, lo as int, hi as int),
{
    if v < lo {
        lo
    } else if v > hi {
        hi
    } else {
        v
    }
}

/// A fixed preference or an environment override, else the automatic rate,
/// always within `MIN_HZ..=MAX_HZ`.
pub open spec fn pref_rate(fixed_hz: Option<u32>, env: Option<u32>, auto_hz: u32) -> u32 {
    match env {
        Some(v) => clamp(v as int, MIN_HZ as int, MAX_HZ as int) as u32,
        None => match fixed_hz {
            Some(f) => clamp(f as int, MIN_HZ as int, MAX_HZ as int) as u32,
            None => clamp(auto_hz as int, MIN_HZ as int, MAX_HZ as int) as u32,
        },
    }
}

/// Resolves a rate preference (`fixed_hz` is the user's fixed cap, if any).
pub fn resolve_pref(fixed_hz: Option<u32>, env: Option<u32>, auto_hz: u32) -> (r: u32)
    ensures
        r == pref_rate(fixed_hz, env, auto_hz),
        MIN_HZ <= r <= MAX_HZ,
{
    match env {
        Some(v) => clamp_u32(v, MIN_HZ, MAX_HZ),
        None => match fixed_hz {
            Some(f) => clamp_u32(f, MIN_HZ, MAX_HZ),
            None => clamp_u32(auto_hz, MIN_HZ, MAX_HZ),
        },
    }
}

/// Base frame budget of a GPU tier.
pub open spec fn tier_budget(tier: GpuTier) -> u32 {
    match tier {
        GpuTier::Discrete => 120,
        GpuTier::Integrated => 60,
        GpuTier::Unknown => 90,
    }
}

/// GUI frame budget: the tier budget, at most 60 on battery.
pub open spec fn gui_budget(tier: GpuTier, on_battery: bool) -> u32 {
    if on_battery {
        min(tier_budget(tier) as int, 60) as u32
    } else {
        tier_budget(tier)
    }
}

fn gui_budget_exec(tier: GpuTier, on_battery: bool) -> (r: u32)
    ensures
        r == gui_budget(tier, on_battery),
{
    let base: u32 = match tier {
        GpuTier::Discrete => 120,
        GpuTier::Integrated => 60,
        GpuTier::Unknown => 90,
    };
    if on_battery && base > 60 {
        60
    } else {
        base
    }
}

/// Soft video frame budget for a stage size (720p assumed when unknown):
/// stepped by pixel count so that a one-pixel resize does not flap.
pub open spec fn soft_budget(
    tier: GpuTier,
    stage_wh: Option<(u32, u32)>,
    on_battery: bool,
    soft_uhd: bool,
) -> u32 {
    let (w, h) = match stage_wh {
        Some(wh) => wh,
        None => (1280u32, 720u32),
    };
    let pixels = min(w * h, u32::MAX as int);
    let base = gui_budget(tier, on_battery) as int;
    let discrete = tier == GpuTier::Discrete;
    (if soft_uhd {
        min(base, 60)
    } else if pixels > 2560 * 1440 {
        min(base, 30)
    } else if pixels > 1920 * 1080 {
        min(
            base,
            if discrete {
                60
            } else {
                45
            },
        )
    } else if pixels > 1280 * 720 {
        min(
            base,
            if discrete {
                120
            } else {
                60
            },
        )
    } else {
        base
    }) as u32
}

fn min_u32(a: u32, b: u32) -> (r: u32)
    ensures
        r == min(a as int, b as int),
{
    if a < b {
        a
    } else {
        b
    }
}

/// Frame budget of the soft video path.
pub fn soft_video_budget(
    tier: GpuTier,
    stage_wh: Option<(u32, u32)>,
    on_battery: bool,
    soft_uhd: bool,
) -> (r: u32)
    ensures
        r == soft_budget(tier, stage_wh, on_battery, soft_uhd),
{
    let (w, h) = match stage_wh {
        Some(wh) => wh,
        None => (1280u32, 720u32),
    };
    assert((w as u64) * (h as u64) <= 0xffff_ffff_ffff_ffff) by (nonlinear_arith)
        requires
            w <= 0xffff_ffff,
            h <= 0xffff_ffff,
    ;
    let wide = (w as u64) * (h as u64);
    let pixels: u32 = if wide > 0xffff_ffff {
        0xffff_ffff
    } else {
        wide as u32
    };
    let base = gui_budget_exec(tier, on_battery);
    let discrete = tier == GpuTier::Discrete;
    if soft_uhd {
        min_u32(base, 60)
    } else if pixels > 2560 * 1440 {
        min_u32(base, 30)
    } else if pixels > 1920 * 1080 {
        min_u32(
            base,
            if discrete {
                60
            } else {
                45
            },
        )
    } else if pixels > 1280 * 720 {
        min_u32(
            base,
            if discrete {
                120
            } else {
                60
            },
        )
    } else {
        base
    }
}


/// Metadata parallelism for a core count: more cores do not buy more
/// parallel lookups beyond a handful (the APIs rate-limit).
pub open spec fn meta_auto(cores: u32) -> int {
    if cores <= 2 {
        2
    } else if cores <= 4 {
        3
    } else if cores <= 8 {
        4
    } else {
        5
    }
}

/// Image fetches in flight before the refresh and battery adjustments.
pub open spec fn inflight_base(tier: GpuTier, cores: u32) -> int {
    match tier {
        GpuTier::Discrete => if cores >= 8 {
            28
        } else {
            22
        },
        GpuTier::Integrated => if cores >= 8 {
            16
        } else {
            12
        },
        GpuTier::Unknown => if cores >= 8 {
            20
        } else {
            14
        },
    }
}

/// Image fetches in flight: more headroom at high refresh, less at low
/// refresh, two thirds (at least 6) on battery.
pub open spec fn inflight_auto(tier: GpuTier, cores: u32, gui_hz: u32, on_battery: bool) -> int {
    let b = inflight_base(tier, cores);
    let r = if gui_hz >= 120 {
        b + 4
    } else if gui_hz <= 48 {
        max(b - 4, 0)
    } else {
        b
    };
    if on_battery {
        max(r * 2 / 3, 6)
    } else {
        r
    }
}

/// Overscan rows: by refresh, two more on tall panels, four fewer (at
/// least 6) on battery.
pub open spec fn overscan_of(gui_hz: u32, monitor_h: u32, on_battery: bool) -> int {
    let b: int = if gui_hz >= 120 {
        18
    } else if gui_hz >= 75 {
        14
    } else {
        10
    };
    let t = if monitor_h >= 1440 {
        b + 2
    } else {
        b
    };
    if on_battery {
        max(max(t - 4, 0), 6)
    } else {
        t
    }
}

/// Image decode edge: large on wide or discrete setups, small on small panels.
pub open spec fn decode_edge_of(tier: GpuTier, monitor_w: u32) -> u32 {
    if monitor_w >= 2560 || tier == GpuTier::Discrete {
        480
    } else if monitor_w > 0 && monitor_w <= 1366 {
        320
    } else {
        400
    }
}

/// Most poster/logo fetches started ahead of the visible mosaic at once.
pub const MAX_ART_PREFETCH: usize = 8;

pub open spec fn tuning_of(
    tier: GpuTier,
    cpu_logical: u32,
    monitor_w: u32,
    monitor_h: u32,
    on_battery: bool,
    gui_hz: u32,
    meta_env: Option<u32>,
    inflight_env: Option<u32>,
) -> RuntimeTuning {
    let cores: u32 = if cpu_logical == 0 {
        1
    } else {
        cpu_logical
    };
    let meta = match meta_env {
        Some(v) => v as int,
        None => meta_auto(cores),
    };
    let inflight = match inflight_env {
        Some(v) => v as int,
        None => inflight_auto(tier, cores, gui_hz, on_battery),
    };
    let image_inflight = clamp(inflight, 4, 32);
    RuntimeTuning {
        meta_parallel: clamp(meta, 1, 6) as usize,
        image_inflight: image_inflight as usize,
        image_prefetch: min(min(max((gui_hz / 8) as int, 6), MAX_ART_PREFETCH as int), image_inflight)
            as usize,
        virtual_overscan: overscan_of(gui_hz, monitor_h, on_battery) as usize,
        decode_edge_px: decode_edge_of(tier, monitor_w),
        portal_parallel: 2,
    }
}

/// Concurrency knobs for a probe and the resolved GUI rate. `meta_env` and
/// `inflight_env` are the `FLUXPLAY_META_PARALLEL` / `FLUXPLAY_IMAGE_INFLIGHT`
/// overrides.
pub fn derive_tuning(
    probe: &DisplayProbe,
    gui_hz: u32,
    meta_env: Option<u32>,
    inflight_env: Option<u32>,
) -> (r: RuntimeTuning)
    ensures
        r == tuning_of(
            probe.gpu_tier,
            probe.cpu_logical,
            probe.monitor_w,
            probe.monitor_h,
            probe.on_battery,
            gui_hz,
            meta_env,
            inflight_env,
        ),
        1 <= r.meta_parallel <= 6,
        4 <= r.image_inflight <= 32,
        r.image_prefetch <= r.image_inflight,
        r.image_prefetch <= MAX_ART_PREFETCH,
        r.portal_parallel == 2,
{
    let cores: u32 = if probe.cpu_logical == 0 {
        1
    } else {
        probe.cpu_logical
    };
    let meta_parallel = match meta_env {
        Some(v) => clamp_u32(v, 1, 6) as usize,
        None => clamp_usize(meta_auto_exec(cores), 1, 6),
    };
    let image_inflight = match inflight_env {
        Some(v) => clamp_u32(v, 4, 32) as usize,
        None => clamp_usize(inflight_auto_exec(probe.gpu_tier, cores, gui_hz, probe.on_battery), 4, 32),
    };
    let g8 = gui_hz / 8;
    let pf0: u32 = if g8 > 6 {
        g8
    } else {
        6
    };
    let pf1: usize = if pf0 > MAX_ART_PREFETCH as u32 {
        MAX_ART_PREFETCH
    } else {
        pf0 as usize
    };
    let image_prefetch = if pf1 < image_inflight {
        pf1
    } else {
        image_inflight
    };
    RuntimeTuning {
        meta_parallel,
        image_inflight,
        image_prefetch,
        virtual_overscan: overscan_exec(gui_hz, probe.monitor_h, probe.on_battery),
        decode_edge_px: decode_edge_exec(probe.gpu_tier, probe.monitor_w),
        portal_parallel: 2,
    }
}

fn meta_auto_exec(cores: u32) -> (r: usize)
    ensures
        r == meta_auto(cores),
{
    if cores <= 2 {
        2
    } else if cores <= 4 {
        3
    } else if cores <= 8 {
        4
    } else {
        5
    }
}

fn inflight_auto_exec(tier: GpuTier, cores: u32, gui_hz: u32, on_battery: bool) -> (r: usize)
    ensures
        r == inflight_auto(tier, cores, gui_hz, on_battery),
{
    let big = cores >= 8;
    let mut inflight: usize = match tier {
        GpuTier::Discrete => if big {
            28
        } else {
            22
        },
        GpuTier::Integrated => if big {
            16
        } else {
            12
        },
        GpuTier::Unknown => if big {
            20
        } else {
            14
        },
    };
    if gui_hz >= 120 {
        inflight = inflight + 4;
    } else if gui_hz <= 48 {
        inflight = if inflight >= 4 {
            inflight - 4
        } else {
            0
        };
    }
    if on_battery {
        let t = inflight * 2 / 3;
        inflight = if t > 6 {
            t
        } else {
            6
        };
    }
    inflight
}

fn overscan_exec(gui_hz: u32, monitor_h: u32, on_battery: bool) -> (r: usize)
    ensures
        r == overscan_of(gui_hz, monitor_h, on_battery),
{
    let mut overscan: usize = if gui_hz >= 120 {
        18
    } else if gui_hz >= 75 {
        14
    } else {
        10
    };
    if monitor_h >= 1440 {
        overscan = overscan + 2;
    }
    if on_battery {
        let t = if overscan >= 4 {
            overscan - 4
        } else {
            0
        };
        overscan = if t > 6 {
            t
        } else {
            6
        };
    }
    overscan
}

fn decode_edge_exec(tier: GpuTier, monitor_w: u32) -> (r: u32)
    ensures
        r == decode_edge_of(tier, monitor_w),
{
    if monitor_w >= 2560 || tier == GpuTier::Discrete {
        480
    } else if monitor_w > 0 && monitor_w <= 1366 {
        320
    } else {
        400
    }
}

/// Monitor rate after the override, within `MIN_HZ..=MAX_HZ`.
pub open spec fn caps_monitor_hz(probe_hz: u32, env: Option<u32>) -> u32 {
    clamp(
        match env {
            Some(v) => v,
            None => probe_hz,
        } as int,
        MIN_HZ as int,
        MAX_HZ as int,
    ) as u32
}

/// Automatic GUI rate: monitor, GPU budget and `GUI_CAP_MAX`, the lowest.
pub open spec fn gui_auto(monitor_hz: u32, tier: GpuTier, on_battery: bool) -> u32 {
    min(min(monitor_hz as int, gui_budget(tier, on_battery) as int), GUI_CAP_MAX as int) as u32
}

/// Automatic video rate: monitor, soft budget and `SOFT_PRESENT_MAX`, the
/// lowest, then at most two above the content rate (never below `MIN_HZ`).
pub open spec fn video_auto(
    monitor_hz: u32,
    soft: u32,
    content_fps_ceil: Option<u32>,
) -> u32 {
    let a = min(min(monitor_hz as int, soft as int), SOFT_PRESENT_MAX as int);
    (match content_fps_ceil {
        Some(c) => min(a, max(min(c + 2, u32::MAX as int), MIN_HZ as int)),
        None => a,
    }) as u32
}

/// Resolves GUI / video rates and tuning from a probe. `gui_fixed` and
/// `video_fixed` are the user's fixed caps; `content_fps_ceil` is the
/// rounded-up content frame rate when the estimate is stable.
pub fn resolve_caps(
    gui_fixed: Option<u32>,
    video_fixed: Option<u32>,
    stage_wh: Option<(u32, u32)>,
    content_fps_ceil: Option<u32>,
    probe: DisplayProbe,
    env: &CapsOverrides,
) -> (r: DisplayCaps)
    ensures
        ({
            let mhz = caps_monitor_hz(probe.monitor_hz, env.monitor_hz);
            let gui = pref_rate(gui_fixed, env.gui_fps, gui_auto(mhz, probe.gpu_tier, probe.on_battery));
            let soft = soft_budget(probe.gpu_tier, stage_wh, probe.on_battery, env.soft_uhd);
            let video = pref_rate(video_fixed, env.video_fps, video_auto(mhz, soft, content_fps_ceil));
            &&& r.probe == (DisplayProbe { monitor_hz: mhz, ..probe })
            &&& r.gui_hz == clamp(gui as int, MIN_HZ as int, GUI_CAP_MAX as int)
            &&& r.video_hz == clamp(video as int, MIN_HZ as int, SOFT_PRESENT_MAX as int)
            &&& r.tuning == tuning_of(
                probe.gpu_tier,
                probe.cpu_logical,
                probe.monitor_w,
                probe.monitor_h,
                probe.on_battery,
                gui,
                env.meta_parallel,
                env.image_inflight,
            )
        }),
        MIN_HZ <= r.gui_hz <= GUI_CAP_MAX,
        MIN_HZ <= r.video_hz <= SOFT_PRESENT_MAX,
{
    let mhz = clamp_u32(
        match env.monitor_hz {
            Some(v) => v,
            None => probe.monitor_hz,
        },
        MIN_HZ,
        MAX_HZ,
    );
    let soft = soft_video_budget(probe.gpu_tier, stage_wh, probe.on_battery, env.soft_uhd);
    let gpu_gui = gui_budget_exec(probe.gpu_tier, probe.on_battery);
    let gui = resolve_pref(gui_fixed, env.gui_fps, min_u32(min_u32(mhz, gpu_gui), GUI_CAP_MAX));
    let mut vauto = min_u32(min_u32(mhz, soft), SOFT_PRESENT_MAX);
    match content_fps_ceil {
        Some(c) => {
            let capped0 = if c > 0xffff_ffff - 2 {
                0xffff_ffff
            } else {
                c + 2
            };
            let capped = if capped0 > MIN_HZ {
                capped0
            } else {
                MIN_HZ
            };
            vauto = min_u32(vauto, capped);
        },
        None => {},
    }
    let video = resolve_pref(video_fixed, env.video_fps, vauto);
    let probe = DisplayProbe { monitor_hz: mhz, ..probe };
    let tuning = derive_tuning(&probe, gui, env.meta_parallel, env.image_inflight);
    DisplayCaps {
        probe,
        gui_hz: clamp_u32(gui, MIN_HZ, GUI_CAP_MAX),
        video_hz: clamp_u32(video, MIN_HZ, SOFT_PRESENT_MAX),
        tuning,
    }
}

impl DisplayCaps {
    /// GUI tick period in milliseconds.
    pub fn gui_period_ms(&self) -> (r: u64)
        ensures
            r == period_of(self.gui_hz),
    {
        period_ms(self.gui_hz)
    }

    /// Video tick period in milliseconds.
    pub fn video_period_ms(&self) -> (r: u64)
        ensures
            r == period_of(self.video_hz),
    {
        period_ms(self.video_hz)
    }
}


pub open spec fn caps_summary(c: DisplayCaps) -> Seq<char> {
    let p = c.probe;
    let res = if p.monitor_w > 0 && p.monitor_h > 0 {
        dec_chars(p.monitor_w as nat) + "×"@ + dec_chars(p.monitor_h as nat) + " "@
    } else {
        seq![]
    };
    let bat = if p.on_battery {
        " · batterie"@
    } else {
        seq![]
    };
    p.os_label@ + " · "@ + p.monitor_name@ + res + "@ "@ + dec_chars(p.monitor_hz as nat)
        + " Hz · "@ + session_label(p.session) + " · GPU "@ + p.gpu_name@ + " ("@ + tier_label(
        p.gpu_tier,
    ) + ") · CPU "@ + dec_chars(p.cpu_logical as nat) + "×"@ + p.cpu_arch@ + " · GUI "@
        + dec_chars(c.gui_hz as nat) + " fps · vidéo "@ + dec_chars(c.video_hz as nat)
        + " fps · meta×"@ + dec_chars(c.tuning.meta_parallel as nat) + " img×"@ + dec_chars(
        c.tuning.image_inflight as nat,
    ) + bat
}

fn push_lit(out: &mut Vec<char>, s: &str)
    ensures
        final(out)@ == old(out)@ + s@,
{
    let c = chars_of(s);
    push_all(out, c.as_slice());
}

fn push_text(out: &mut Vec<char>, s: &String)
    ensures
        final(out)@ == old(out)@ + s@,
{
    push_lit(out, s.as_str());
}

impl DisplayCaps {
    /// One-line description of the host and the resolved rates.
    #[verifier::rlimit(40)]
    pub fn summary_line(&self) -> (r: String)
        ensures
            r@ == caps_summary(*self),
    {
        let p = &self.probe;
        let mut out: Vec<char> = Vec::new();
        push_text(&mut out, &p.os_label);
        push_lit(&mut out, " · ");
        push_text(&mut out, &p.monitor_name);
        if p.monitor_w > 0 && p.monitor_h > 0 {
            push_decimal(&mut out, p.monitor_w as u64);
            push_lit(&mut out, "×");
            push_decimal(&mut out, p.monitor_h as u64);
            push_lit(&mut out, " ");
        }
        push_lit(&mut out, "@ ");
        push_decimal(&mut out, p.monitor_hz as u64);
        push_lit(&mut out, " Hz · ");
        push_lit(&mut out, p.session.label());
        push_lit(&mut out, " · GPU ");
        push_text(&mut out, &p.gpu_name);
        push_lit(&mut out, " (");
        push_lit(&mut out, p.gpu_tier.label());
        push_lit(&mut out, ") · CPU ");
        push_decimal(&mut out, p.cpu_logical as u64);
        push_lit(&mut out, "×");
        push_text(&mut out, &p.cpu_arch);
        push_lit(&mut out, " · GUI ");
        push_decimal(&mut out, self.gui_hz as u64);
        push_lit(&mut out, " fps · vidéo ");
        push_decimal(&mut out, self.video_hz as u64);
        push_lit(&mut out, " fps · meta×");
        push_decimal(&mut out, self.tuning.meta_parallel as u64);
        push_lit(&mut out, " img×");
        push_decimal(&mut out, self.tuning.image_inflight as u64);
        if p.on_battery {
            push_lit(&mut out, " · batterie");
        }
        assert(out@ =~= caps_summary(*self));
        string_of(out.as_slice())
    }
}

/// A monitor found by one of the probes: name, Hz, width, height, source.
pub type MonitorFound = (String, u32, u32, u32, String);

pub open spec fn found_view(f: Option<MonitorFound>) -> Option<
    (Seq<char>, u32, u32, u32, Seq<char>),
> {
    match f {
        Some(f) => Some((f.0@, f.1, f.2, f.3, f.4@)),
        None => None,
    }
}

pub open spec fn with_source(m: Option<(Seq<char>, u32, u32, u32)>, src: Seq<char>) -> Option<
    (Seq<char>, u32, u32, u32, Seq<char>),
> {
    match m {
        Some(m) => Some((m.0, m.1, m.2, m.3, src)),
        None => None,
    }
}

fn tag_source(m: Mode, src: &str) -> (r: MonitorFound)
    ensures
        found_view(Some(r)) == with_source(mode_view(Some(m)), src@),
{
    let c = chars_of(src);
    (m.0, m.1, m.2, m.3, string_of(c.as_slice()))
}

/// The first monitor found, trying `xrandr`, then `wlr-randr`, then DRM sysfs.
pub fn probe_monitor(xrandr: Option<Mode>, wlr: Option<Mode>, drm: Option<Mode>) -> (r: Option<
    MonitorFound,
>)
    ensures
        found_view(r) == (if xrandr is Some {
            with_source(mode_view(xrandr), "xrandr"@)
        } else if wlr is Some {
            with_source(mode_view(wlr), "wlr-randr"@)
        } else {
            with_source(mode_view(drm), "drm"@)
        }),
{
    match xrandr {
        Some(m) => Some(tag_source(m, "xrandr")),
        None => match wlr {
            Some(m) => Some(tag_source(m, "wlr-randr")),
            None => match drm {
                Some(m) => Some(tag_source(m, "drm")),
                None => None,
            },
        },
    }
}

/// Assembles the probe; without a monitor it falls back to "Écran" at
/// `DEFAULT_HZ`, size unknown.
pub fn assemble_probe(
    monitor: Option<MonitorFound>,
    gpu_name: String,
    gpu_tier: GpuTier,
    cpu_logical: u32,
    cpu_arch: String,
    session: DisplaySession,
    os_label: String,
    on_battery: bool,
) -> (r: DisplayProbe)
    ensures
        r.gpu_name == gpu_name,
        r.gpu_tier == gpu_tier,
        r.cpu_logical == cpu_logical,
        r.cpu_arch == cpu_arch,
        r.session == session,
        r.os_label == os_label,
        r.on_battery == on_battery,
        match found_view(monitor) {
            Some(m) => r.monitor_name@ == m.0 && r.monitor_hz == clamp(
                m.1 as int,
                MIN_HZ as int,
                MAX_HZ as int,
            ) && r.monitor_w == m.2 && r.monitor_h == m.3 && r.source@ == m.4,
            None => r.monitor_name@ == "Écran"@ && r.monitor_hz == DEFAULT_HZ && r.monitor_w == 0
                && r.monitor_h == 0 && r.source@ == "fallback"@,
        },
{
    match monitor {
        Some(m) => DisplayProbe {
            monitor_name: m.0,
            monitor_hz: clamp_u32(m.1, MIN_HZ, MAX_HZ),
            monitor_w: m.2,
            monitor_h: m.3,
            gpu_name,
            gpu_tier,
            cpu_logical,
            cpu_arch,
            session,
            os_label,
            on_battery,
            source: m.4,
        },
        None => {
            let n = chars_of("Écran");
            let f = chars_of("fallback");
            DisplayProbe {
                monitor_name: string_of(n.as_slice()),
                monitor_hz: DEFAULT_HZ,
                monitor_w: 0,
                monitor_h: 0,
                gpu_name,
                gpu_tier,
                cpu_logical,
                cpu_arch,
                session,
                os_label,
                on_battery,
                source: string_of(f.as_slice()),
            }
        },
    }
}


/// `s` without leading copies of `c`.
pub open spec fn strip_leading(s: Seq<char>, c: char) -> Seq<char>
    decreases s.len(),
{
    if s.len() > 0 && s[0] == c {
        strip_leading(s.skip(1), c)
    } else {
        s
    }
}

/// `s` without trailing copies of `c`.
pub open spec fn strip_trailing(s: Seq<char>, c: char) -> Seq<char>
    decreases s.len(),
{
    if s.len() > 0 && s.last() == c {
        strip_trailing(s.drop_last(), c)
    } else {
        s
    }
}

/// `str::trim_matches(c)`.
pub open spec fn trim_char(s: Seq<char>, c: char) -> Seq<char> {
    strip_trailing(strip_leading(s, c), c)
}

pub fn trim_char_exec(s: &[char], c: char) -> (r: Vec<char>)
    ensures
        r@ == trim_char(s@, c),
{
    let mut a: usize = 0;
    assert(s@.skip(0) =~= s@);
    while a < s.len() && s[a] == c
        invariant
            a <= s.len(),
            strip_leading(s@, c) == strip_leading(s@.skip(a as int), c),
        decreases s.len() - a,
    {
        assert(s@.skip(a as int).skip(1) =~= s@.skip(a + 1));
        a += 1;
    }
    let ghost lead = s@.skip(a as int);
    assert(strip_leading(lead, c) == lead);
    let mut e = s.len();
    assert(lead =~= s@.subrange(a as int, e as int));
    while e > a && s[e - 1] == c
        invariant
            a <= e <= s.len(),
            lead == s@.skip(a as int),
            strip_trailing(lead, c) == strip_trailing(s@.subrange(a as int, e as int), c),
        decreases e,
    {
        assert(s@.subrange(a as int, e as int).drop_last() =~= s@.subrange(a as int, e - 1));
        e -= 1;
    }
    crate::text::sub_chars(s, a, e)
}

/// The `NAME=` / `VERSION_ID=` values of os-release lines (the last of each wins).
pub open spec fn release_fields(
    lines: Seq<Seq<char>>,
    name: Option<Seq<char>>,
    ver: Option<Seq<char>>,
) -> (Option<Seq<char>>, Option<Seq<char>>)
    decreases lines.len(),
{
    if lines.len() == 0 {
        (name, ver)
    } else {
        let l = lines[0];
        if starts_with(l, "NAME="@) {
            release_fields(lines.skip(1), Some(trim_char(l.skip(5), '"')), ver)
        } else if starts_with(l, "VERSION_ID="@) {
            release_fields(lines.skip(1), name, Some(trim_char(l.skip(11), '"')))
        } else {
            release_fields(lines.skip(1), name, ver)
        }
    }
}

/// OS label from the text of `/etc/os-release` (`None` when unreadable):
/// `NAME VERSION_ID`, or `NAME`, or `Linux`.
pub open spec fn os_label_of(text: Option<Seq<char>>) -> Seq<char> {
    match text {
        None => "Linux"@,
        Some(t) => match release_fields(lines_of(t), None, None) {
            (Some(n), Some(v)) => n + " "@ + v,
            (Some(n), None) => n,
            _ => "Linux"@,
        },
    }
}

/// OS label of a Linux host from its os-release text.
pub fn os_label_from_release(text: Option<&str>) -> (r: String)
    ensures
        r@ == os_label_of(match text {
            Some(t) => Some(t@),
            None => None,
        }),
{
    let linux = chars_of("Linux");
    let t = match text {
        Some(t) => t,
        None => {
            return string_of(linux.as_slice());
        },
    };
    let tc = chars_of(t);
    let lines = lines_exec(tc.as_slice());
    let ghost all = views(lines@);
    proof {
        reveal_strlit("NAME=");
        reveal_strlit("VERSION_ID=");
        reveal_strlit(" ");
    }
    let name_p = chars_of("NAME=");
    let ver_p = chars_of("VERSION_ID=");
    let mut name: Option<Vec<char>> = None;
    let mut ver: Option<Vec<char>> = None;
    let mut i: usize = 0;
    assert(all.skip(0) =~= all);
    while i < lines.len()
        invariant
            i <= lines.len(),
            all == views(lines@),
            all == lines_of(t@),
            name_p@ == "NAME="@,
            "NAME="@.len() == 5,
            "VERSION_ID="@.len() == 11,
            ver_p@ == "VERSION_ID="@,
            release_fields(all, None, None) == release_fields(
                all.skip(i as int),
                vec_opt_view(name),
                vec_opt_view(ver),
            ),
        decreases lines.len() - i,
    {
        let l = &lines[i];
        assert(all.skip(i as int)[0] == l@);
        assert(all.skip(i as int).skip(1) =~= all.skip(i + 1));
        if starts_with_chars(l.as_slice(), name_p.as_slice()) {
            let rest = crate::text::sub_chars(l.as_slice(), 5, l.len());
            assert(rest@ =~= l@.skip(5));
            name = Some(trim_char_exec(rest.as_slice(), '"'));
        } else if starts_with_chars(l.as_slice(), ver_p.as_slice()) {
            let rest = crate::text::sub_chars(l.as_slice(), 11, l.len());
            assert(rest@ =~= l@.skip(11));
            ver = Some(trim_char_exec(rest.as_slice(), '"'));
        }
        i += 1;
    }
    assert(all.skip(i as int) =~= seq![]);
    match (name, ver) {
        (Some(n), Some(v)) => {
            let mut out = n;
            out.push(' ');
            push_all(&mut out, v.as_slice());
            assert(out@ =~= n@ + " "@ + v@);
            string_of(out.as_slice())
        },
        (Some(n), None) => string_of(n.as_slice()),
        _ => string_of(linux.as_slice()),
    }
}

/// ASCII case-insensitive equality (`str::eq_ignore_ascii_case`).
pub open spec fn eq_ignore_case(a: Seq<char>, b: Seq<char>) -> bool {
    ascii_lower(a) == ascii_lower(b)
}

pub fn eq_ignore_case_exec(a: &[char], b: &[char]) -> (r: bool)
    ensures
        r == eq_ignore_case(a@, b@),
{
    let la = crate::text::to_lower(a);
    let lb = crate::text::to_lower(b);
    crate::text::chars_eq(la.as_slice(), lb.as_slice())
}

/// A power supply (its `type` and `status` files) that is a discharging battery.
pub open spec fn discharging_battery(kind: Seq<char>, status: Seq<char>) -> bool {
    eq_ignore_case(trim(kind), "Battery"@) && eq_ignore_case(trim(status), "Discharging"@)
}

/// Running on battery: some power supply is a discharging battery.
pub fn on_battery_from_supplies(supplies: &Vec<(String, String)>) -> (r: bool)
    ensures
        r == exists|i: int|
            0 <= i < supplies.len() && discharging_battery(
                (#[trigger] supplies@[i]).0@,
                supplies@[i].1@,
            ),
{
    let battery = chars_of("Battery");
    let discharging = chars_of("Discharging");
    let mut i: usize = 0;
    while i < supplies.len()
        invariant
            i <= supplies.len(),
            battery@ == "Battery"@,
            discharging@ == "Discharging"@,
            forall|k: int|
                0 <= k < i ==> !discharging_battery(
                    (#[trigger] supplies@[k]).0@,
                    supplies@[k].1@,
                ),
        decreases supplies.len() - i,
    {
        let kind = chars_of(supplies[i].0.as_str());
        let kt = trim_exec(kind.as_slice());
        if eq_ignore_case_exec(kt.as_slice(), battery.as_slice()) {
            let st = chars_of(supplies[i].1.as_str());
            let stt = trim_exec(st.as_slice());
            if eq_ignore_case_exec(stt.as_slice(), discharging.as_slice()) {
                return true;
            }
        }
        i += 1;
    }
    false
}


/// `str::trim_start_matches(p)` for a non-empty pattern.
pub open spec fn strip_prefix_all(s: Seq<char>, p: Seq<char>) -> Seq<char>
    decreases s.len(),
{
    if p.len() > 0 && starts_with(s, p) {
        strip_prefix_all(s.skip(p.len() as int), p)
    } else {
        s
    }
}

fn strip_prefix_all_exec(s: &[char], p: &[char]) -> (r: Vec<char>)
    ensures
        r@ == strip_prefix_all(s@, p@),
{
    let mut a: usize = 0;
    assert(s@.skip(0) =~= s@);
    if p.len() == 0 {
        return crate::text::sub_chars(s, 0, s.len());
    }
    while p.len() <= s.len() - a && crate::text::matches_at(s, p, a)
        invariant
            a <= s.len(),
            p@.len() > 0,
            strip_prefix_all(s@, p@) == strip_prefix_all(s@.skip(a as int), p@),
        decreases s.len() - a,
    {
        assert(s@.skip(a as int).take(p@.len() as int) =~= s@.subrange(a as int, a + p@.len()));
        assert(s@.skip(a as int).skip(p@.len() as int) =~= s@.skip(a + p@.len()));
        a = a + p.len();
    }
    proof {
        if a + p@.len() <= s@.len() {
            assert(s@.skip(a as int).take(p@.len() as int) =~= s@.subrange(a as int, a + p@.len()));
        }
    }
    let r = crate::text::sub_chars(s, a, s.len());
    assert(r@ =~= s@.skip(a as int));
    r
}

/// Connector name without its `cardN-` prefix (cards 0 to 2).
pub open spec fn nice_connector(name: Seq<char>) -> Seq<char> {
    strip_prefix_all(strip_prefix_all(strip_prefix_all(name, "card0-"@), "card1-"@), "card2-"@)
}

/// `(hz, w, h)` of the first mode line with a width; 60 Hz when the line has no rate.
pub open spec fn first_mode(lines: Seq<Seq<char>>) -> (u32, u32, u32)
    decreases lines.len(),
{
    if lines.len() == 0 {
        (DEFAULT_HZ, 0, 0)
    } else {
        let (w, h) = mode_wh(crate::display::first_piece(lines[0], '@'));
        if w > 0 {
            (
                match drm_mode_hz(lines[0]) {
                    Some(hz) => hz,
                    None => DEFAULT_HZ,
                },
                w,
                h,
            )
        } else {
            first_mode(lines.skip(1))
        }
    }
}

/// A `/sys/class/drm` entry (name, `status`, `modes`) as a monitor, when it
/// is a connected connector.
pub open spec fn drm_entry(name: Seq<char>, status: Seq<char>, modes: Seq<char>) -> Option<
    (Seq<char>, u32, u32, u32),
> {
    if !has_sub(name, seq!['-']) || starts_with(name, "render"@) {
        None
    } else if !eq_ignore_case(trim(status), "connected"@) {
        None
    } else {
        let (hz, w, h) = first_mode(lines_of(modes));
        Some((nice_connector(name), hz, w, h))
    }
}

/// The preferred connected connector: lowest rank, earliest first.
pub open spec fn best_drm(
    entries: Seq<(Seq<char>, Seq<char>, Seq<char>)>,
    best: Option<(Seq<char>, u32, u32, u32)>,
) -> Option<(Seq<char>, u32, u32, u32)>
    decreases entries.len(),
{
    if entries.len() == 0 {
        best
    } else {
        let e = entries[0];
        match drm_entry(e.0, e.1, e.2) {
            Some(c) => {
                let next = match best {
                    Some(b) => if connector_rank(c.0) < connector_rank(b.0) {
                        Some(c)
                    } else {
                        best
                    },
                    None => Some(c),
                };
                best_drm(entries.skip(1), next)
            },
            None => best_drm(entries.skip(1), best),
        }
    }
}

pub open spec fn entry_views(es: Seq<(String, String, String)>) -> Seq<(Seq<char>, Seq<char>, Seq<char>)> {
    es.map_values(|e: (String, String, String)| (e.0@, e.1@, e.2@))
}

fn first_mode_exec(modes: &[char]) -> (r: (u32, u32, u32))
    ensures
        r == first_mode(lines_of(modes@)),
{
    let lines = lines_exec(modes);
    let ghost all = views(lines@);
    let mut i: usize = 0;
    assert(all.skip(0) =~= all);
    while i < lines.len()
        invariant
            i <= lines.len(),
            all == views(lines@),
            first_mode(lines_of(modes@)) == first_mode(all.skip(i as int)),
        decreases lines.len() - i,
    {
        let line = &lines[i];
        assert(all.skip(i as int)[0] == line@);
        assert(all.skip(i as int).skip(1) =~= all.skip(i + 1));
        let head = first_piece_exec(line.as_slice(), '@');
        let (w, h) = parse_mode_wh(head.as_slice());
        if w > 0 {
            let hz = match parse_drm_mode_hz(line.as_slice()) {
                Some(hz) => hz,
                None => DEFAULT_HZ,
            };
            return (hz, w, h);
        }
        i += 1;
    }
    assert(all.skip(i as int) =~= seq![]);
    (DEFAULT_HZ, 0, 0)
}

fn drm_entry_exec(name: &String, status: &String, modes: &String) -> (r: Option<(Vec<char>, u32, u32, u32)>)
    ensures
        match r {
            Some(m) => drm_entry(name@, status@, modes@) == Some((m.0@, m.1, m.2, m.3)),
            None => drm_entry(name@, status@, modes@) is None,
        },
{
    let n = chars_of(name.as_str());
    let render = chars_of("render");
    assert(['-']@ =~= seq!['-']);
    if !contains_chars(n.as_slice(), &['-']) || starts_with_chars(n.as_slice(), render.as_slice()) {
        return None;
    }
    let st = chars_of(status.as_str());
    let stt = trim_exec(st.as_slice());
    let connected = chars_of("connected");
    if !eq_ignore_case_exec(stt.as_slice(), connected.as_slice()) {
        return None;
    }
    let m = chars_of(modes.as_str());
    let (hz, w, h) = first_mode_exec(m.as_slice());
    let c0 = chars_of("card0-");
    let c1 = chars_of("card1-");
    let c2 = chars_of("card2-");
    let a = strip_prefix_all_exec(n.as_slice(), c0.as_slice());
    let b = strip_prefix_all_exec(a.as_slice(), c1.as_slice());
    let nice = strip_prefix_all_exec(b.as_slice(), c2.as_slice());
    Some((nice, hz, w, h))
}

/// Picks the monitor from `/sys/class/drm` entries `(name, status, modes)`:
/// connected connectors only, eDP preferred, then DP, then HDMI.
pub fn select_drm_connector(entries: &Vec<(String, String, String)>) -> (r: Option<Mode>)
    ensures
        mode_view(r) == best_drm(entry_views(entries@), None),
{
    let ghost es = entry_views(entries@);
    let mut best: Option<(Vec<char>, u32, u32, u32)> = None;
    let mut best_rank: u8 = 0;
    let mut i: usize = 0;
    assert(es.skip(0) =~= es);
    while i < entries.len()
        invariant
            i <= entries.len(),
            es == entry_views(entries@),
            best_drm(es, None) == best_drm(es.skip(i as int), best_view(best)),
            best matches Some(b) ==> best_rank == connector_rank(b.0@),
        decreases entries.len() - i,
    {
        let e = &entries[i];
        assert(es.skip(i as int)[0] == (e.0@, e.1@, e.2@));
        assert(es.skip(i as int).skip(1) =~= es.skip(i + 1));
        match drm_entry_exec(&e.0, &e.1, &e.2) {
            Some(c) => {
                let rank = rank_connector(c.0.as_slice());
                let replace = match &best {
                    Some(_) => rank < best_rank,
                    None => true,
                };
                if replace {
                    best = Some(c);
                    best_rank = rank;
                }
            },
            None => {},
        }
        i += 1;
    }
    assert(es.skip(i as int) =~= seq![]);
    match best {
        Some(b) => Some((string_of(b.0.as_slice()), b.1, b.2, b.3)),
        None => None,
    }
}


/// Seconds after which the monitor probe is redone (hotplug, moved window).
pub const PROBE_STALE_SECS: u64 = 5;

/// The span that `Duration::from_secs(secs)` stands for.
pub uninterp spec fn secs_duration(secs: u64) -> std::time::Duration;

/// `Duration::from_secs`: a span of `secs` whole seconds. The contract
/// names the value by its argument alone; the span is opaque here.
#[verifier::external_body]
fn duration_from_secs(secs: u64) -> (r: std::time::Duration)
    ensures
        r == secs_duration(secs),
{
    std::time::Duration::from_secs(secs)
}

/// How long before the monitor is probed again: `PROBE_STALE_SECS` seconds.
pub fn probe_stale_after() -> (r: std::time::Duration)
    ensures
        r == secs_duration(PROBE_STALE_SECS),
{
    duration_from_secs(PROBE_STALE_SECS)
}

} // verus!
