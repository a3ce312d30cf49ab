//! Character-level helpers shared by the parsers and label builders.

use vstd::prelude::*;

verus! {

/// Appends one character to a string (`String::push`).
#[verifier::external_body]
pub(crate) fn push_char(s: &mut String, c: char)
    ensures
        final(s)@ == old(s)@.push(c),
{
    s.push(c);
}

/// The characters of a string slice, in order.
pub fn chars_of(s: &str) -> (v: Vec<char>)
    ensures
        v@ == s@,
{
    let mut v: Vec<char> = Vec::new();
    for c in it: s.chars()
        invariant
            v@ == it.seq().take(it.index() as int),
    {
        v.push(c);
    }
    v
}

/// A string holding exactly the given characters.
pub fn string_of(v: &[char]) -> (s: String)
    ensures
        s@ == v@,
{
    let mut s = String::new();
    let mut i: usize = 0;
    while i < v.len()
        invariant
            i <= v.len(),
            s@ == v@.take(i as int),
        decreases v.len() - i,
    {
        push_char(&mut s, v[i]);
        assert(v@.take(i as int).push(v@[i as int]) =~= v@.take(i + 1));
        i += 1;
    }
    assert(v@.take(v.len() as int) =~= v@);
    s
}


/// The ASCII digit for `d < 10`.
pub open spec fn digit_char(d: nat) -> char {
    ((48 + d) as u8) as char
}

/// Decimal rendering of a natural number, most significant digit first, no padding.
pub open spec fn dec_chars(n: nat) -> Seq<char>
    decreases n,
{
    if n < 10 {
        seq![digit_char(n)]
    } else {
        dec_chars(n / 10).push(digit_char(n % 10))
    }
}

/// Appends the decimal rendering of `n` to `out`.
pub fn push_decimal(out: &mut Vec<char>, n: u64)
    ensures
        final(out)@ == old(out)@ + dec_chars(n as nat),
    decreases n,
{
    if n >= 10 {
        push_decimal(out, n / 10);
    }
    let d: u64 = n % 10;
    let c: char = ((48u8 + (d as u8)) as char);
    assert(c == digit_char(d as nat));
    out.push(c);
}

/// Appends every character of `s` to `out`.
pub fn push_all(out: &mut Vec<char>, s: &[char])
    ensures
        final(out)@ == old(out)@ + s@,
{
    let mut i: usize = 0;
    while i < s.len()
        invariant
            i <= s.len(),
            out@ == old(out)@ + s@.take(i as int),
        decreases s.len() - i,
    {
        out.push(s[i]);
        assert(s@.take(i as int).push(s@[i as int]) =~= s@.take(i + 1));
        i += 1;
    }
    assert(s@.take(s.len() as int) =~= s@);
}


/// ASCII lower-casing of one character (non-ASCII letters unchanged).
pub open spec fn lower_char(c: char) -> char {
    if 'A' <= c && c <= 'Z' {
        ((c as u32) + 32) as char
    } else {
        c
    }
}

/// ASCII upper-casing of one character (non-ASCII letters unchanged).
pub open spec fn upper_char(c: char) -> char {
    if 'a' <= c && c <= 'z' {
        ((c as u32) - 32) as char
    } else {
        c
    }
}

/// `str::to_ascii_lowercase` on the character view.
pub open spec fn ascii_lower(s: Seq<char>) -> Seq<char> {
    s.map_values(|c: char| lower_char(c))
}

/// `str::to_ascii_uppercase` on the character view.
pub open spec fn ascii_upper(s: Seq<char>) -> Seq<char> {
    s.map_values(|c: char| upper_char(c))
}

/// `needle` occurs in `hay` starting at `i`.
pub open spec fn occurs_at(hay: Seq<char>, needle: Seq<char>, i: int) -> bool {
    0 <= i && i + needle.len() <= hay.len() && hay.subrange(i, i + needle.len()) == needle
}

/// `needle` occurs somewhere in `hay` (the empty needle always does).
pub open spec fn has_sub(hay: Seq<char>, needle: Seq<char>) -> bool {
    exists|i: int| occurs_at(hay, needle, i)
}

/// `hay` starts with `prefix`.
pub open spec fn starts_with(hay: Seq<char>, prefix: Seq<char>) -> bool {
    prefix.len() <= hay.len() && hay.take(prefix.len() as int) == prefix
}

/// `hay` ends with `suffix`.
pub open spec fn ends_with(hay: Seq<char>, suffix: Seq<char>) -> bool {
    suffix.len() <= hay.len() && hay.skip(hay.len() - suffix.len()) == suffix
}

pub fn lower_one(c: char) -> (r: char)
    ensures
        r == lower_char(c),
{
    if 'A' <= c && c <= 'Z' {
        let u: u32 = (c as u32) + 32;
        assert(u < 0xD800);
        char_from_ascii(u)
    } else {
        c
    }
}

pub fn upper_one(c: char) -> (r: char)
    ensures
        r == upper_char(c),
{
    if 'a' <= c && c <= 'z' {
        let u: u32 = (c as u32) - 32;
        char_from_ascii(u)
    } else {
        c
    }
}

/// The character with an ASCII code point.
fn char_from_ascii(u: u32) -> (r: char)
    requires
        u < 128,
    ensures
        r == u as char,
{
    let b: u8 = u as u8;
    b as char
}

/// ASCII lower-cased copy of a character sequence.
pub fn to_lower(v: &[char]) -> (r: Vec<char>)
    ensures
        r@ == ascii_lower(v@),
{
    let mut r: Vec<char> = Vec::new();
    let mut i: usize = 0;
    while i < v.len()
        invariant
            i <= v.len(),
            r@ =~= ascii_lower(v@.take(i as int)),
        decreases v.len() - i,
    {
        r.push(lower_one(v[i]));
        i += 1;
        assert(ascii_lower(v@.take(i as int)) =~= ascii_lower(v@.take(i - 1)).push(lower_char(v@[i - 1])));
    }
    assert(v@.take(v.len() as int) =~= v@);
    r
}

/// ASCII upper-cased copy of a character sequence.
pub fn to_upper(v: &[char]) -> (r: Vec<char>)
    ensures
        r@ == ascii_upper(v@),
{
    let mut r: Vec<char> = Vec::new();
    let mut i: usize = 0;
    while i < v.len()
        invariant
            i <= v.len(),
            r@ =~= ascii_upper(v@.take(i as int)),
        decreases v.len() - i,
    {
        r.push(upper_one(v[i]));
        i += 1;
        assert(ascii_upper(v@.take(i as int)) =~= ascii_upper(v@.take(i - 1)).push(upper_char(v@[i - 1])));
    }
    assert(v@.take(v.len() as int) =~= v@);
    r
}

/// Whether `needle` occurs in `hay` at position `i`.
pub fn matches_at(hay: &[char], needle: &[char], i: usize) -> (r: bool)
    ensures
        r == occurs_at(hay@, needle@, i as int),
{
    if i > hay.len() || needle.len() > hay.len() - i {
        return false;
    }
    let mut j: usize = 0;
    while j < needle.len()
        invariant
            j <= needle.len(),
            i + needle.len() <= hay.len(),
            forall|k: int| 0 <= k < j ==> hay@[i + k] == needle@[k],
        decreases needle.len() - j,
    {
        if hay[i + j] != needle[j] {
            assert(hay@.subrange(i as int, i + needle.len())[j as int] != needle@[j as int]);
            return false;
        }
        j += 1;
    }
    assert(hay@.subrange(i as int, i + needle.len()) =~= needle@);
    true
}

/// Substring search (`str::contains`).
pub fn contains_chars(hay: &[char], needle: &[char]) -> (r: bool)
    ensures
        r == has_sub(hay@, needle@),
{
    if needle.len() > hay.len() {
        return false;
    }
    let last = hay.len() - needle.len();
    let mut i: usize = 0;
    loop
        invariant
            last == hay.len() - needle.len(),
            i <= last,
            forall|k: int| 0 <= k < i ==> !occurs_at(hay@, needle@, k),
        decreases last - i,
    {
        if matches_at(hay, needle, i) {
            return true;
        }
        if i == last {
            assert forall|k: int| !occurs_at(hay@, needle@, k) by {
                if 0 <= k && k <= i {
                }
            }
            return false;
        }
        i += 1;
    }
}

/// Prefix test (`str::starts_with`).
pub fn starts_with_chars(hay: &[char], prefix: &[char]) -> (r: bool)
    ensures
        r == starts_with(hay@, prefix@),
{
    let r = matches_at(hay, prefix, 0);
    assert(r ==> hay@.take(prefix@.len() as int) =~= hay@.subrange(0, prefix@.len() as int));
    assert(starts_with(hay@, prefix@) ==> hay@.take(prefix@.len() as int) =~= hay@.subrange(0, prefix@.len() as int));
    r
}

/// Suffix test (`str::ends_with`).
pub fn ends_with_chars(hay: &[char], suffix: &[char]) -> (r: bool)
    ensures
        r == ends_with(hay@, suffix@),
{
    if suffix.len() > hay.len() {
        return false;
    }
    let start = hay.len() - suffix.len();
    let r = matches_at(hay, suffix, start);
    assert(hay@.skip(start as int) =~= hay@.subrange(start as int, hay@.len() as int));
    r
}

/// Equality of two character sequences.
pub fn chars_eq(a: &[char], b: &[char]) -> (r: bool)
    ensures
        r == (a@ == b@),
{
    if a.len() != b.len() {
        return false;
    }
    let r = matches_at(a, b, 0);
    assert(r ==> a@ =~= a@.subrange(0, b@.len() as int));
    assert(a@ == b@ ==> a@ =~= a@.subrange(0, b@.len() as int));
    r
}


/// The character view of an optional string.
pub open spec fn opt_chars(s: Option<String>) -> Option<Seq<char>> {
    match s {
        Some(t) => Some(t@),
        None => None,
    }
}

/// Whether an optional string is present and equal to `want`.
pub fn opt_is(o: &Option<String>, want: &[char]) -> (r: bool)
    ensures
        r == (opt_chars(*o) == Some(want@)),
{
    match o {
        Some(s) => {
            let cs = chars_of(s.as_str());
            chars_eq(cs.as_slice(), want)
        },
        None => false,
    }
}


/// `char::is_whitespace` (Unicode `White_Space`).
pub open spec fn is_ws(c: char) -> bool {
    c == ' ' || ('\t' <= c && c <= '\r') || c == '\u{85}' || c == '\u{a0}' || c == '\u{1680}' || (
    '\u{2000}' <= c && c <= '\u{200a}') || c == '\u{2028}' || c == '\u{2029}' || c == '\u{202f}'
        || c == '\u{205f}' || c == '\u{3000}'
}

pub fn is_ws_exec(c: char) -> (r: bool)
    ensures
        r == is_ws(c),
{
    c == ' ' || ('\t' <= c && c <= '\r') || c == '\u{85}' || c == '\u{a0}' || c == '\u{1680}' || (
    '\u{2000}' <= c && c <= '\u{200a}') || c == '\u{2028}' || c == '\u{2029}' || c == '\u{202f}'
        || c == '\u{205f}' || c == '\u{3000}'
}

/// Length of the leading whitespace run.
pub open spec fn ws_run(s: Seq<char>) -> nat
    decreases s.len(),
{
    if s.len() > 0 && is_ws(s[0]) {
        1 + ws_run(s.skip(1))
    } else {
        0
    }
}

/// Length of the leading non-whitespace run.
pub open spec fn word_run(s: Seq<char>) -> nat
    decreases s.len(),
{
    if s.len() > 0 && !is_ws(s[0]) {
        1 + word_run(s.skip(1))
    } else {
        0
    }
}

/// Length of the trailing whitespace run.
pub open spec fn ws_tail(s: Seq<char>) -> nat
    decreases s.len(),
{
    if s.len() > 0 && is_ws(s.last()) {
        1 + ws_tail(s.drop_last())
    } else {
        0
    }
}

pub proof fn lemma_ws_run(s: Seq<char>)
    ensures
        ws_run(s) <= s.len(),
        forall|i: int| 0 <= i < ws_run(s) ==> is_ws(#[trigger] s[i]),
        ws_run(s) < s.len() ==> !is_ws(s[ws_run(s) as int]),
    decreases s.len(),
{
    if s.len() > 0 && is_ws(s[0]) {
        lemma_ws_run(s.skip(1));
        assert forall|i: int| 0 <= i < ws_run(s) implies is_ws(#[trigger] s[i]) by {
            if i > 0 {
                assert(s[i] == s.skip(1)[i - 1]);
            }
        }
        if ws_run(s) < s.len() {
            assert(s[ws_run(s) as int] == s.skip(1)[ws_run(s.skip(1)) as int]);
        }
    }
}

pub proof fn lemma_word_run(s: Seq<char>)
    ensures
        word_run(s) <= s.len(),
        forall|i: int| 0 <= i < word_run(s) ==> !is_ws(#[trigger] s[i]),
        word_run(s) < s.len() ==> is_ws(s[word_run(s) as int]),
    decreases s.len(),
{
    if s.len() > 0 && !is_ws(s[0]) {
        lemma_word_run(s.skip(1));
        assert forall|i: int| 0 <= i < word_run(s) implies !is_ws(#[trigger] s[i]) by {
            if i > 0 {
                assert(s[i] == s.skip(1)[i - 1]);
            }
        }
        if word_run(s) < s.len() {
            assert(s[word_run(s) as int] == s.skip(1)[word_run(s.skip(1)) as int]);
        }
    }
}

pub proof fn lemma_ws_tail(s: Seq<char>)
    ensures
        ws_tail(s) <= s.len(),
        forall|i: int| s.len() - ws_tail(s) <= i < s.len() ==> is_ws(#[trigger] s[i]),
        ws_tail(s) < s.len() ==> !is_ws(s[s.len() - ws_tail(s) - 1]),
    decreases s.len(),
{
    if s.len() > 0 && is_ws(s.last()) {
        lemma_ws_tail(s.drop_last());
        assert forall|i: int| s.len() - ws_tail(s) <= i < s.len() implies is_ws(#[trigger] s[i]) by {
            if i < s.len() - 1 {
                assert(s[i] == s.drop_last()[i]);
            }
        }
        if ws_tail(s) < s.len() {
            assert(s[s.len() - ws_tail(s) - 1] == s.drop_last()[s.drop_last().len() - ws_tail(
                s.drop_last(),
            ) - 1]);
        }
    }
}

/// `str::trim_start`.
pub open spec fn trim_start(s: Seq<char>) -> Seq<char> {
    s.skip(ws_run(s) as int)
}

/// `str::trim_end`.
pub open spec fn trim_end(s: Seq<char>) -> Seq<char> {
    s.take(s.len() - ws_tail(s))
}

/// `str::trim`.
pub open spec fn trim(s: Seq<char>) -> Seq<char> {
    trim_end(trim_start(s))
}

/// `str::split_whitespace`: the maximal runs of non-whitespace characters.
pub open spec fn words(s: Seq<char>) -> Seq<Seq<char>>
    decreases s.len(),
{
    let a = ws_run(s);
    if a >= s.len() {
        seq![]
    } else {
        let t = s.skip(a as int);
        let b = word_run(t);
        if b == 0 {
            seq![]
        } else {
            proof {
                lemma_word_run(t);
            }
            seq![t.take(b as int)] + words(t.skip(b as int))
        }
    }
}

/// Start index of the run of non-whitespace characters that begins at or after `i`.
fn skip_ws_from(s: &[char], i: usize) -> (r: usize)
    requires
        i <= s.len(),
    ensures
        r == i + ws_run(s@.skip(i as int)),
        r <= s.len(),
{
    let mut j = i;
    while j < s.len() && is_ws_exec(s[j])
        invariant
            i <= j <= s.len(),
            forall|k: int| i <= k < j ==> is_ws(#[trigger] s@[k]),
        decreases s.len() - j,
    {
        j += 1;
    }
    proof {
        let t = s@.skip(i as int);
        lemma_ws_run_exact(t, (j - i) as nat);
    }
    j
}

proof fn lemma_ws_run_exact(t: Seq<char>, n: nat)
    requires
        n <= t.len(),
        forall|k: int| 0 <= k < n ==> is_ws(#[trigger] t[k]),
        n == t.len() || !is_ws(t[n as int]),
    ensures
        ws_run(t) == n,
    decreases n,
{
    if n > 0 {
        assert forall|k: int| 0 <= k < n - 1 implies is_ws(#[trigger] t.skip(1)[k]) by {
            assert(t.skip(1)[k] == t[k + 1]);
        }
        if n - 1 < t.skip(1).len() {
            assert(t.skip(1)[n - 1] == t[n as int]);
        }
        lemma_ws_run_exact(t.skip(1), (n - 1) as nat);
    } else if t.len() > 0 {
        assert(!is_ws(t[0]));
    }
}

proof fn lemma_word_run_exact(t: Seq<char>, n: nat)
    requires
        n <= t.len(),
        forall|k: int| 0 <= k < n ==> !is_ws(#[trigger] t[k]),
        n == t.len() || is_ws(t[n as int]),
    ensures
        word_run(t) == n,
    decreases n,
{
    if n > 0 {
        assert forall|k: int| 0 <= k < n - 1 implies !is_ws(#[trigger] t.skip(1)[k]) by {
            assert(t.skip(1)[k] == t[k + 1]);
        }
        if n - 1 < t.skip(1).len() {
            assert(t.skip(1)[n - 1] == t[n as int]);
        }
        lemma_word_run_exact(t.skip(1), (n - 1) as nat);
    } else if t.len() > 0 {
        assert(is_ws(t[0]));
    }
}

/// End index of the non-whitespace run starting at `i`.
fn word_end_from(s: &[char], i: usize) -> (r: usize)
    requires
        i <= s.len(),
    ensures
        r == i + word_run(s@.skip(i as int)),
        r <= s.len(),
{
    let mut j = i;
    while j < s.len() && !is_ws_exec(s[j])
        invariant
            i <= j <= s.len(),
            forall|k: int| i <= k < j ==> !is_ws(#[trigger] s@[k]),
        decreases s.len() - j,
    {
        j += 1;
    }
    proof {
        let t = s@.skip(i as int);
        lemma_word_run_exact(t, (j - i) as nat);
    }
    j
}

/// Copy of `s[from..to]`.
pub fn sub_chars(s: &[char], from: usize, to: usize) -> (r: Vec<char>)
    requires
        from <= to <= s.len(),
    ensures
        r@ == s@.subrange(from as int, to as int),
{
    let mut r: Vec<char> = Vec::new();
    let mut i = from;
    while i < to
        invariant
            from <= i <= to <= s.len(),
            r@ == s@.subrange(from as int, i as int),
        decreases to - i,
    {
        r.push(s[i]);
        assert(s@.subrange(from as int, i + 1) =~= s@.subrange(from as int, i as int).push(s@[i as int]));
        i += 1;
    }
    r
}

/// The character views of a list of character vectors.
pub open spec fn views(v: Seq<Vec<char>>) -> Seq<Seq<char>> {
    v.map_values(|x: Vec<char>| x@)
}

/// `str::split_whitespace().collect()`.
pub fn words_exec(s: &[char]) -> (r: Vec<Vec<char>>)
    ensures
        views(r@) == words(s@),
{
    let mut out: Vec<Vec<char>> = Vec::new();
    let mut i: usize = 0;
    assert(s@.skip(0) =~= s@);
    while i < s.len()
        invariant
            i <= s.len(),
            words(s@) == views(out@) + words(s@.skip(i as int)),
        decreases s.len() - i,
    {
        let a = skip_ws_from(s, i);
        let ghost t0 = s@.skip(i as int);
        proof {
            lemma_ws_run(t0);
        }
        if a == s.len() {
            assert(words(t0) =~= seq![]);
            assert(s@.skip(a as int) =~= seq![]);
            assert(views(out@) + words(s@.skip(a as int)) =~= views(out@));
            i = a;
            assert(words(s@) =~= views(out@) + words(s@.skip(i as int)));
        } else {
        let b = word_end_from(s, a);
        let ghost t = t0.skip(ws_run(t0) as int);
        assert(t =~= s@.skip(a as int));
        proof {
            lemma_ws_run(t0);
            assert(!is_ws(t0[ws_run(t0) as int]));
            assert(t[0] == t0[ws_run(t0) as int]);
        }
        assert(word_run(t) > 0);
        let w = sub_chars(s, a, b);
        assert(w@ =~= t.take(word_run(t) as int));
        assert(t.skip(word_run(t) as int) =~= s@.skip(b as int));
        assert(words(t0) =~= seq![w@] + words(s@.skip(b as int)));
        let ghost old_views = views(out@);
        out.push(w);
        assert(views(out@) =~= old_views.push(w@));
        i = b;
        }
    }
    assert(s@.skip(i as int) =~= seq![]);
    assert(words(s@.skip(i as int)) =~= seq![]);
    assert(views(out@) + seq![] =~= views(out@));
    out
}

/// `str::trim` on characters.
pub fn trim_exec(s: &[char]) -> (r: Vec<char>)
    ensures
        r@ == trim(s@),
{
    let a = skip_ws_from(s, 0);
    assert(s@.skip(0) =~= s@);
    let mut e = s.len();
    while e > a && is_ws_exec(s[e - 1])
        invariant
            a <= e <= s.len(),
            forall|k: int| e <= k < s.len() ==> is_ws(#[trigger] s@[k]),
        decreases e,
    {
        e -= 1;
    }
    let r = sub_chars(s, a, e);
    proof {
        let t = s@.skip(a as int);
        lemma_ws_tail_exact(t, (s.len() - e) as nat);
        assert(r@ =~= t.take(t.len() - ws_tail(t)));
    }
    r
}

proof fn lemma_ws_tail_exact(t: Seq<char>, n: nat)
    requires
        n <= t.len(),
        forall|k: int| t.len() - n <= k < t.len() ==> is_ws(#[trigger] t[k]),
        n == t.len() || !is_ws(t[t.len() - n - 1]),
    ensures
        ws_tail(t) == n,
    decreases n,
{
    if n > 0 {
        let d = t.drop_last();
        assert forall|k: int| d.len() - (n - 1) <= k < d.len() implies is_ws(#[trigger] d[k]) by {
            assert(d[k] == t[k]);
        }
        if n - 1 < d.len() {
            assert(d[d.len() - (n - 1) - 1] == t[t.len() - n - 1]);
        }
        assert(is_ws(t[t.len() - 1]));
        lemma_ws_tail_exact(d, (n - 1) as nat);
    } else if t.len() > 0 {
        assert(!is_ws(t[t.len() - 1]));
    }
}


/// Index of the first `c` in `s`.
pub open spec fn first_index(s: Seq<char>, c: char) -> Option<nat>
    decreases s.len(),
{
    if s.len() == 0 {
        None
    } else if s[0] == c {
        Some(0)
    } else {
        match first_index(s.skip(1), c) {
            Some(i) => Some(i + 1),
            None => None,
        }
    }
}

/// Index of the last `c` in `s`.
pub open spec fn last_index(s: Seq<char>, c: char) -> Option<nat>
    decreases s.len(),
{
    if s.len() == 0 {
        None
    } else if s.last() == c {
        Some((s.len() - 1) as nat)
    } else {
        last_index(s.drop_last(), c)
    }
}

proof fn lemma_first_index_exact(s: Seq<char>, c: char, i: int)
    requires
        0 <= i <= s.len(),
        forall|k: int| 0 <= k < i ==> s[k] != c,
    ensures
        i < s.len() && s[i] == c ==> first_index(s, c) == Some(i as nat),
        i == s.len() ==> first_index(s, c) is None,
    decreases i,
{
    if i > 0 {
        assert forall|k: int| 0 <= k < i - 1 implies s.skip(1)[k] != c by {
            assert(s.skip(1)[k] == s[k + 1]);
        }
        if i < s.len() {
            assert(s.skip(1)[i - 1] == s[i]);
        }
        lemma_first_index_exact(s.skip(1), c, i - 1);
    }
}

/// First index of `c` in `s` at or after `from`.
pub fn find_char_from(s: &[char], c: char, from: usize) -> (r: Option<usize>)
    requires
        from <= s.len(),
    ensures
        match first_index(s@.skip(from as int), c) {
            Some(k) => r == Some((from + k) as usize),
            None => r is None,
        },
        r matches Some(j) ==> from <= j < s.len() && s@[j as int] == c && forall|k: int|
            from <= k < j ==> s@[k] != c,
{
    let mut i = from;
    while i < s.len()
        invariant
            from <= i <= s.len(),
            forall|k: int| from <= k < i ==> s@[k] != c,
        decreases s.len() - i,
    {
        if s[i] == c {
            proof {
                let t = s@.skip(from as int);
                assert forall|k: int| 0 <= k < i - from implies t[k] != c by {
                    assert(t[k] == s@[from + k]);
                }
                lemma_first_index_exact(t, c, i - from);
            }
            return Some(i);
        }
        i += 1;
    }
    proof {
        let t = s@.skip(from as int);
        assert forall|k: int| 0 <= k < i - from implies t[k] != c by {
            assert(t[k] == s@[from + k]);
        }
        lemma_first_index_exact(t, c, i - from);
    }
    None
}

proof fn lemma_last_index_exact(s: Seq<char>, c: char, i: int)
    requires
        -1 <= i < s.len(),
        forall|k: int| i < k < s.len() ==> s[k] != c,
        i >= 0 ==> s[i] == c,
    ensures
        i >= 0 ==> last_index(s, c) == Some(i as nat),
        i == -1 ==> last_index(s, c) is None,
    decreases s.len(),
{
    if s.len() > 0 && s.last() != c {
        let d = s.drop_last();
        assert forall|k: int| i < k < d.len() implies d[k] != c by {
            assert(d[k] == s[k]);
        }
        if i >= 0 {
            assert(d[i] == s[i]);
        }
        lemma_last_index_exact(d, c, i);
    }
}

/// Last index of `c` in `s`.
pub fn rfind_char(s: &[char], c: char) -> (r: Option<usize>)
    ensures
        match r {
            Some(k) => k < s.len() && last_index(s@, c) == Some(k as nat),
            None => last_index(s@, c) is None,
        },
{
    let mut i = s.len();
    while i > 0
        invariant
            i <= s.len(),
            forall|k: int| i <= k < s.len() ==> s@[k] != c,
        decreases i,
    {
        if s[i - 1] == c {
            proof {
                lemma_last_index_exact(s@, c, i - 1);
            }
            return Some(i - 1);
        }
        i -= 1;
    }
    proof {
        lemma_last_index_exact(s@, c, -1);
    }
    None
}

/// One trailing `'\r'` removed.
pub open spec fn strip_cr(s: Seq<char>) -> Seq<char> {
    if s.len() > 0 && s.last() == '\r' {
        s.drop_last()
    } else {
        s
    }
}

/// `str::lines`: split after each `'\n'`, dropping the `"\n"` / `"\r\n"`
/// ending; no empty line after a final line ending.
pub open spec fn lines_of(s: Seq<char>) -> Seq<Seq<char>>
    decreases s.len(),
{
    if s.len() == 0 {
        seq![]
    } else {
        match first_index(s, '\n') {
            None => seq![s],
            Some(i) => {
                proof {
                    lemma_first_index_bound(s, '\n');
                }
                seq![strip_cr(s.take(i as int))] + lines_of(s.skip(i as int + 1))
            },
        }
    }
}

pub proof fn lemma_first_index_bound(s: Seq<char>, c: char)
    ensures
        first_index(s, c) matches Some(i) ==> i < s.len() && s[i as int] == c,
    decreases s.len(),
{
    if s.len() > 0 && s[0] != c {
        lemma_first_index_bound(s.skip(1), c);
    }
}

/// `str::lines().collect()` on characters.
pub fn lines_exec(s: &[char]) -> (r: Vec<Vec<char>>)
    ensures
        views(r@) == lines_of(s@),
{
    let mut out: Vec<Vec<char>> = Vec::new();
    let mut pos: usize = 0;
    assert(s@.skip(0) =~= s@);
    while pos < s.len()
        invariant
            pos <= s.len(),
            lines_of(s@) == views(out@) + lines_of(s@.skip(pos as int)),
        decreases s.len() - pos,
    {
        let ghost t = s@.skip(pos as int);
        let ghost old_views = views(out@);
        match find_char_from(s, '\n', pos) {
            None => {
                let line = sub_chars(s, pos, s.len());
                assert(line@ =~= t);
                assert(lines_of(t) =~= seq![t]);
                out.push(line);
                assert(views(out@) =~= old_views.push(t));
                pos = s.len();
                assert(s@.skip(pos as int) =~= seq![]);
                assert(lines_of(s@) =~= views(out@) + lines_of(s@.skip(pos as int)));
            },
            Some(j) => {
                let end = if j > pos && s[j - 1] == '\r' {
                    j - 1
                } else {
                    j
                };
                let line = sub_chars(s, pos, end);
                assert(t.take(j - pos) =~= s@.subrange(pos as int, j as int));
                assert(line@ =~= strip_cr(t.take(j - pos)));
                assert(t.skip(j - pos + 1) =~= s@.skip(j + 1));
                proof {
                    lemma_first_index_bound(t, '\n');
                }
                assert(first_index(t, '\n') == Some((j - pos) as nat));
                assert(t.len() > 0);
                assert(lines_of(t) == seq![strip_cr(t.take(j - pos))] + lines_of(t.skip(j - pos + 1)));
                assert(lines_of(t) =~= seq![line@] + lines_of(s@.skip(j + 1)));
                out.push(line);
                assert(views(out@) =~= old_views.push(line@));
                pos = j + 1;
            },
        }
    }
    assert(s@.skip(pos as int) =~= seq![]);
    assert(views(out@) + seq![] =~= views(out@));
    out
}

/// `s.replace(pat, "")` for a non-empty pattern: matches removed left to right.
pub open spec fn remove_all(s: Seq<char>, pat: Seq<char>) -> Seq<char>
    decreases s.len(),
{
    if s.len() == 0 || pat.len() == 0 {
        s
    } else if occurs_at(s, pat, 0) {
        remove_all(s.skip(pat.len() as int), pat)
    } else {
        seq![s[0]] + remove_all(s.skip(1), pat)
    }
}

/// Removes every non-overlapping occurrence of `pat`, scanning left to right.
pub fn remove_all_exec(s: &[char], pat: &[char]) -> (r: Vec<char>)
    ensures
        r@ == remove_all(s@, pat@),
{
    let mut out: Vec<char> = Vec::new();
    let mut i: usize = 0;
    assert(s@.skip(0) =~= s@);
    if pat.len() == 0 {
        let r = sub_chars(s, 0, s.len());
        assert(r@ =~= s@);
        return r;
    }
    while i < s.len()
        invariant
            i <= s.len(),
            pat@.len() > 0,
            remove_all(s@, pat@) == out@ + remove_all(s@.skip(i as int), pat@),
        decreases s.len() - i,
    {
        let ghost t = s@.skip(i as int);
        let m = matches_at(s, pat, i);
        assert(occurs_at(t, pat@, 0) == m) by {
            if m {
                assert(t.subrange(0, pat@.len() as int) =~= s@.subrange(i as int, i + pat@.len()));
            }
            if occurs_at(t, pat@, 0) {
                assert(t.subrange(0, pat@.len() as int) =~= s@.subrange(i as int, i + pat@.len()));
            }
        }
        if m {
            assert(t.skip(pat@.len() as int) =~= s@.skip(i + pat@.len()));
            i = i + pat.len();
        } else {
            assert(t.skip(1) =~= s@.skip(i + 1));
            assert(t[0] == s@[i as int]);
            out.push(s[i]);
            assert(out@ + remove_all(s@.skip(i + 1), pat@) =~= (out@.drop_last()) + (seq![t[0]]
                + remove_all(t.skip(1), pat@)));
            i = i + 1;
        }
    }
    assert(s@.skip(i as int) =~= seq![]);
    assert(out@ + seq![] =~= out@);
    out
}

/// Least index at which `needle` occurs in `hay`.
pub open spec fn first_occurrence(hay: Seq<char>, needle: Seq<char>) -> Option<nat> {
    if has_sub(hay, needle) {
        Some(
            (choose|i: int|
                occurs_at(hay, needle, i) && forall|j: int| 0 <= j < i ==> !occurs_at(hay, needle, j)) as nat,
        )
    } else {
        None
    }
}

/// `str::find` of a substring.
pub fn find_sub(hay: &[char], needle: &[char]) -> (r: Option<usize>)
    ensures
        match r {
            Some(k) => first_occurrence(hay@, needle@) == Some(k as nat) && occurs_at(
                hay@,
                needle@,
                k as int,
            ),
            None => first_occurrence(hay@, needle@) is None,
        },
        r matches Some(k) ==> occurs_at(hay@, needle@, k as int) && forall|j: int|
            0 <= j < k ==> !occurs_at(hay@, needle@, j),
{
    if needle.len() > hay.len() {
        assert(!has_sub(hay@, needle@));
        return None;
    }
    let last = hay.len() - needle.len();
    let mut i: usize = 0;
    loop
        invariant
            last == hay.len() - needle.len(),
            i <= last,
            forall|k: int| 0 <= k < i ==> !occurs_at(hay@, needle@, k),
        decreases last - i,
    {
        if matches_at(hay, needle, i) {
            assert(has_sub(hay@, needle@));
            let ghost c = choose|c: int|
                occurs_at(hay@, needle@, c) && forall|j: int| 0 <= j < c ==> !occurs_at(hay@, needle@, j);
            assert(c == i) by {
                if c < i {
                } else if c > i {
                }
            }
            return Some(i);
        }
        if i == last {
            assert forall|k: int| !occurs_at(hay@, needle@, k) by {
                if 0 <= k && k <= i {
                }
            }
            return None;
        }
        i += 1;
    }
}


/// Number of bytes of `c` in UTF-8.
pub open spec fn char_bytes(c: char) -> nat {
    if (c as u32) < 0x80 {
        1
    } else if (c as u32) < 0x800 {
        2
    } else if (c as u32) < 0x10000 {
        3
    } else {
        4
    }
}

/// Length in bytes of the UTF-8 encoding of `s` (`str::len`).
pub open spec fn utf8_len(s: Seq<char>) -> nat
    decreases s.len(),
{
    if s.len() == 0 {
        0
    } else {
        char_bytes(s[0]) + utf8_len(s.skip(1))
    }
}

/// The characters that start within the first `n` bytes of `s`.
pub open spec fn bytes_prefix(s: Seq<char>, n: int) -> Seq<char>
    decreases s.len(),
{
    if s.len() == 0 || n <= 0 {
        seq![]
    } else {
        seq![s[0]] + bytes_prefix(s.skip(1), n - char_bytes(s[0]))
    }
}

/// Byte offset `n` falls on a character boundary of `s` (`str::is_char_boundary`).
pub open spec fn is_char_boundary(s: Seq<char>, n: nat) -> bool {
    n <= utf8_len(s) && utf8_len(bytes_prefix(s, n as int)) == n
}

pub fn char_bytes_exec(c: char) -> (r: u64)
    ensures
        r == char_bytes(c),
        1 <= r <= 4,
{
    let u = c as u32;
    if u < 0x80 {
        1
    } else if u < 0x800 {
        2
    } else if u < 0x10000 {
        3
    } else {
        4
    }
}

/// Whether the UTF-8 encoding of `s` is longer than `n` bytes.
pub fn utf8_len_exceeds(s: &[char], n: u64) -> (r: bool)
    requires
        n < 0x1_0000_0000,
    ensures
        r == (utf8_len(s@) > n),
{
    let mut acc: u64 = 0;
    let mut i: usize = 0;
    assert(s@.skip(0) =~= s@);
    while i < s.len() && acc <= n
        invariant
            i <= s.len(),
            acc <= n + 4,
            n < 0x1_0000_0000,
            utf8_len(s@) == acc + utf8_len(s@.skip(i as int)),
        decreases s.len() - i,
    {
        assert(s@.skip(i as int).skip(1) =~= s@.skip(i + 1));
        acc = acc + char_bytes_exec(s[i]);
        i += 1;
    }
    if acc > n {
        true
    } else {
        assert(s@.skip(i as int).len() == 0);
        false
    }
}

/// `bytes_prefix(s, n)`: the characters starting within the first `n` bytes.
pub fn bytes_prefix_exec(s: &[char], n: u64) -> (r: Vec<char>)
    requires
        n < 0x1_0000_0000,
    ensures
        r@ == bytes_prefix(s@, n as int),
        utf8_len(r@) == n <==> is_char_boundary(s@, n as nat),
{
    let mut out: Vec<char> = Vec::new();
    let mut used: u64 = 0;
    let mut i: usize = 0;
    assert(s@.skip(0) =~= s@);
    while i < s.len() && used < n
        invariant
            i <= s.len(),
            used <= n + 4,
            n < 0x1_0000_0000,
            bytes_prefix(s@, n as int) == out@ + bytes_prefix(s@.skip(i as int), n - used),
            utf8_len(out@) == used,
            out@ == s@.take(i as int),
        decreases s.len() - i,
    {
        let ghost t = s@.skip(i as int);
        assert(t.skip(1) =~= s@.skip(i + 1));
        let b = char_bytes_exec(s[i]);
        proof {
            lemma_utf8_len_push(out@, s@[i as int]);
        }
        out.push(s[i]);
        assert(out@ + bytes_prefix(s@.skip(i + 1), n - used - b) =~= (out@.drop_last()) + (seq![
            t[0],
        ] + bytes_prefix(t.skip(1), n - used - char_bytes(t[0]))));
        assert(s@.take(i + 1) =~= s@.take(i as int).push(s@[i as int]));
        used = used + b;
        i += 1;
    }
    assert(bytes_prefix(s@.skip(i as int), n - used) =~= seq![]);
    assert(out@ + seq![] =~= out@);
    proof {
        lemma_utf8_len_take(s@, i as int);
    }
    out
}

pub proof fn lemma_utf8_len_push(s: Seq<char>, c: char)
    ensures
        utf8_len(s.push(c)) == utf8_len(s) + char_bytes(c),
    decreases s.len(),
{
    if s.len() == 0 {
        assert(s.push(c).skip(1) =~= seq![]);
        assert(utf8_len(s.push(c).skip(1)) == 0);
        assert(s.push(c)[0] == c);
    } else {
        assert(s.push(c).skip(1) =~= s.skip(1).push(c));
        assert(s.push(c)[0] == s[0]);
        lemma_utf8_len_push(s.skip(1), c);
    }
}

pub proof fn lemma_utf8_len_take(s: Seq<char>, i: int)
    requires
        0 <= i <= s.len(),
    ensures
        utf8_len(s.take(i)) <= utf8_len(s),
    decreases s.len(),
{
    if i > 0 {
        assert(s.take(i).skip(1) =~= s.skip(1).take(i - 1));
        lemma_utf8_len_take(s.skip(1), i - 1);
    }
}


/// Length in bytes of the UTF-8 encoding of `s`.
pub fn utf8_len_exec(s: &[char]) -> (r: u128)
    ensures
        r == utf8_len(s@),
{
    let mut acc: u128 = 0;
    let mut i: usize = 0;
    assert(s@.skip(0) =~= s@);
    while i < s.len()
        invariant
            i <= s.len(),
            acc <= 4 * i,
            utf8_len(s@) == acc + utf8_len(s@.skip(i as int)),
        decreases s.len() - i,
    {
        assert(s@.skip(i as int).skip(1) =~= s@.skip(i + 1));
        acc = acc + char_bytes_exec(s[i]) as u128;
        i += 1;
    }
    assert(s@.skip(i as int).len() == 0);
    acc
}

/// The view of an optional string.
pub open spec fn opt_view(o: Option<String>) -> Option<Seq<char>> {
    match o {
        Some(s) => Some(s@),
        None => None,
    }
}

/// A copy of an optional string.
pub fn copy_opt(o: &Option<String>) -> (r: Option<String>)
    ensures
        opt_view(r) == opt_view(*o),
{
    match o {
        Some(s) => Some(s.clone()),
        None => None,
    }
}

} // verus!
