//! Reading the name lists that `ffmpeg -encoders`, `-decoders` and
//! `-hwaccels` print.
use vstd::prelude::*;
use crate::text::{chars_of, decode_utf8_lossy, is_white_space, is_whitespace, push_char, push_decimal, push_str, strs, trim_start_ws, trim_ws, utf8_lossy};

verus! {

// ---------------------------------------------------------------- lines

/// Index of the first `'\n'` in `s`, or `s.len()` when there is none.
pub open spec fn newline_index(s: Seq<char>) -> int
    decreases s.len(),
{
    if s.len() == 0 {
        0
    } else if s[0] == '\n' {
        0
    } else {
        1 + newline_index(s.drop_first())
    }
}

/// `x` without one trailing `'\r'`.
pub open spec fn strip_cr(x: Seq<char>) -> Seq<char> {
    if x.len() > 0 && x.last() == '\r' {
        x.drop_last()
    } else {
        x
    }
}

/// What follows the first line ending of `s` (empty when there is none).
pub open spec fn after_first_line(s: Seq<char>) -> Seq<char> {
    let n = newline_index(s);
    if n < s.len() {
        s.subrange(n + 1, s.len() as int)
    } else {
        seq![]
    }
}

/// The first line of `s` as `str::lines` yields it: a `'\r'` is removed
/// only in front of the `'\n'` that ends the line.
pub open spec fn first_line(s: Seq<char>) -> Seq<char> {
    let n = newline_index(s);
    if n < s.len() {
        strip_cr(s.subrange(0, n))
    } else {
        s.subrange(0, n)
    }
}

/// The names that the lines of `s` (as `str::lines` splits it: at `\n`, a
/// `\r` right before it removed, nothing after a final line ending) give.
pub open spec fn listed(s: Seq<char>, f: spec_fn(Seq<char>) -> Option<Seq<char>>) -> Set<Seq<char>>
    decreases s.len(),
{
    if s.len() == 0 {
        Set::empty()
    } else {
        proof {
            lemma_newline_index(s);
        }
        let rest = listed(after_first_line(s), f);
        match f(first_line(s)) {
            Some(n) => rest.insert(n),
            None => rest,
        }
    }
}

/// Every line of `s` satisfies `p`.
pub open spec fn all_lines(s: Seq<char>, p: spec_fn(Seq<char>) -> bool) -> bool
    decreases s.len(),
{
    if s.len() == 0 {
        true
    } else {
        proof {
            lemma_newline_index(s);
        }
        p(first_line(s)) && all_lines(after_first_line(s), p)
    }
}

pub proof fn lemma_newline_index(s: Seq<char>)
    ensures
        0 <= newline_index(s) <= s.len(),
        newline_index(s) < s.len() ==> s[newline_index(s)] == '\n',
        forall|i: int| 0 <= i < newline_index(s) ==> s[i] != '\n',
    decreases s.len(),
{
    if s.len() > 0 && s[0] != '\n' {
        lemma_newline_index(s.drop_first());
        assert forall|i: int| 0 <= i < newline_index(s) implies s[i] != '\n' by {
            if i > 0 {
                assert(s[i] == s.drop_first()[i - 1]);
            }
        }
    }
}

// ---------------------------------------------------------------- line tests

/// Number of UTF-8 bytes that encode `c`.
pub open spec fn char_width(c: char) -> int {
    if (c as u32) < 0x80 {
        1
    } else if (c as u32) < 0x800 {
        2
    } else if (c as u32) < 0x10000 {
        3
    } else {
        4
    }
}

/// Number of UTF-8 bytes that encode `s` (`str::len`).
pub open spec fn byte_len(s: Seq<char>) -> int
    decreases s.len(),
{
    if s.len() == 0 {
        0
    } else {
        byte_len(s.drop_last()) + char_width(s.last())
    }
}

/// `&s[n..]` where `n` is a byte offset: `None` when `n` falls inside a
/// character (where the slice operation panics).
pub open spec fn skip_bytes(s: Seq<char>, n: int) -> Option<Seq<char>>
    decreases s.len(),
{
    if n <= 0 {
        Some(s)
    } else if s.len() == 0 {
        None
    } else if char_width(s[0]) > n {
        None
    } else {
        skip_bytes(s.drop_first(), n - char_width(s[0]))
    }
}

/// The leading run of non-white-space characters of `s`.
pub open spec fn take_word(s: Seq<char>) -> Seq<char>
    decreases s.len(),
{
    if s.len() == 0 || is_white_space(s[0]) {
        seq![]
    } else {
        seq![s[0]] + take_word(s.drop_first())
    }
}

/// `s.split_whitespace().next()`.
pub open spec fn first_word(s: Seq<char>) -> Option<Seq<char>> {
    let w = take_word(trim_start_ws(s));
    if w.len() == 0 {
        None
    } else {
        Some(w)
    }
}

pub open spec fn has_char(s: Seq<char>, c: char) -> bool {
    exists|i: int| 0 <= i < s.len() && s[i] == c
}

pub open spec fn dashes_at(s: Seq<char>, i: int) -> bool {
    0 <= i && i + 3 <= s.len() && s[i] == '-' && s[i + 1] == '-' && s[i + 2] == '-'
}

pub open spec fn has_dashes(s: Seq<char>) -> bool {
    exists|i: int| #[trigger] dashes_at(s, i)
}

/// The line starts with a space and then `k`.
pub open spec fn flagged(s: Seq<char>, k: char) -> bool {
    s.len() >= 2 && s[0] == ' ' && s[1] == k
}

/// A line of `-encoders`/`-decoders` names a codec: it holds no `=` and no
/// `---`, starts with " V" or " A" and is longer than 8 bytes; the name is
/// the first word after byte 8.
pub open spec fn codec_line_name(line: Seq<char>) -> Option<Seq<char>> {
    if has_char(line, '=') || has_dashes(line) {
        None
    } else if (flagged(line, 'V') || flagged(line, 'A')) && byte_len(line) > 8 {
        match skip_bytes(line, 8) {
            Some(rest) => first_word(rest),
            None => None,
        }
    } else {
        None
    }
}

/// The lines for which taking the rest after byte 8 is defined.
pub open spec fn codec_line_sliceable(line: Seq<char>) -> bool {
    !(has_char(line, '=') || has_dashes(line)) && (flagged(line, 'V') || flagged(line, 'A'))
        && byte_len(line) > 8 ==> skip_bytes(line, 8) is Some
}

pub open spec fn starts_with_hardware(s: Seq<char>) -> bool {
    s.len() >= 8 && s.subrange(0, 8) == "Hardware"@
}

/// A line of `-hwaccels` names a method: the trimmed line, unless it is empty
/// or is the "Hardware ..." heading.
pub open spec fn hwaccel_line_name(line: Seq<char>) -> Option<Seq<char>> {
    let t = trim_ws(line);
    if t.len() > 0 && !starts_with_hardware(t) {
        Some(t)
    } else {
        None
    }
}

} // verus!

verus! {

/// The characters `lo .. hi` of `c`.
pub open spec fn seg(c: Seq<char>, lo: int, hi: int) -> Seq<char> {
    c.subrange(lo, hi)
}

proof fn lemma_newline_index_is(s: Seq<char>, k: int)
    requires
        0 <= k <= s.len(),
        k < s.len() ==> s[k] == '\n',
        forall|i: int| 0 <= i < k ==> s[i] != '\n',
    ensures
        newline_index(s) == k,
    decreases s.len(),
{
    if s.len() > 0 && k > 0 {
        assert forall|i: int| 0 <= i < k - 1 implies s.drop_first()[i] != '\n' by {
            assert(s.drop_first()[i] == s[i + 1]);
        }
        lemma_newline_index_is(s.drop_first(), k - 1);
    }
}

fn char_width_of(c: char) -> (w: u128)
    ensures
        w == char_width(c),
{
    let v: u32 = c as u32;
    if v < 0x80 {
        1
    } else if v < 0x800 {
        2
    } else if v < 0x10000 {
        3
    } else {
        4
    }
}

fn find_newline(c: &Vec<char>, from: usize) -> (j: usize)
    requires
        from <= c@.len(),
    ensures
        from <= j <= c@.len(),
        j - from == newline_index(seg(c@, from as int, c@.len() as int)),
{
    let mut j: usize = from;
    while j < c.len() && c[j] != '\n'
        invariant
            from <= j <= c@.len(),
            forall|i: int| from <= i < j ==> c@[i] != '\n',
        decreases c@.len() - j,
    {
        j = j + 1;
    }
    proof {
        let s = seg(c@, from as int, c@.len() as int);
        lemma_newline_index_is(s, j - from);
    }
    j
}

fn has_char_in(c: &Vec<char>, lo: usize, hi: usize, x: char) -> (r: bool)
    requires
        lo <= hi <= c@.len(),
    ensures
        r == has_char(seg(c@, lo as int, hi as int), x),
{
    let mut k: usize = lo;
    while k < hi
        invariant
            lo <= k <= hi <= c@.len(),
            forall|i: int| lo <= i < k ==> c@[i] != x,
        decreases hi - k,
    {
        if c[k] == x {
            assert(seg(c@, lo as int, hi as int)[k - lo] == x);
            return true;
        }
        k = k + 1;
    }
    proof {
        let s = seg(c@, lo as int, hi as int);
        assert forall|i: int| 0 <= i < s.len() implies s[i] != x by {
            assert(s[i] == c@[lo + i]);
        }
    }
    false
}

fn has_dashes_in(c: &Vec<char>, lo: usize, hi: usize) -> (r: bool)
    requires
        lo <= hi <= c@.len(),
    ensures
        r == has_dashes(seg(c@, lo as int, hi as int)),
{
    let ghost s = seg(c@, lo as int, hi as int);
    let mut k: usize = lo;
    while hi - k >= 3
        invariant
            lo <= k <= hi <= c@.len(),
            s == seg(c@, lo as int, hi as int),
            forall|i: int| 0 <= i < k - lo ==> !dashes_at(s, i),
        decreases hi - k,
    {
        if c[k] == '-' && c[k + 1] == '-' && c[k + 2] == '-' {
            assert(dashes_at(s, k - lo));
            return true;
        }
        k = k + 1;
    }
    proof {
        assert forall|i: int| !dashes_at(s, i) by {
            if 0 <= i < k - lo {
            } else {
            }
        }
    }
    false
}

proof fn lemma_byte_len_step(s: Seq<char>, lo: int, k: int)
    requires
        0 <= lo <= k < s.len(),
    ensures
        byte_len(s.subrange(lo, k + 1)) == byte_len(s.subrange(lo, k)) + char_width(s[k]),
{
    assert(s.subrange(lo, k + 1).drop_last() =~= s.subrange(lo, k));
}

fn byte_len_in(c: &Vec<char>, lo: usize, hi: usize) -> (n: u128)
    requires
        lo <= hi <= c@.len(),
    ensures
        n == byte_len(seg(c@, lo as int, hi as int)),
{
    let mut n: u128 = 0;
    let mut k: usize = lo;
    assert(seg(c@, lo as int, lo as int) =~= seq![]);
    while k < hi
        invariant
            lo <= k <= hi <= c@.len(),
            n == byte_len(seg(c@, lo as int, k as int)),
            n <= 4 * (k - lo),
        decreases hi - k,
    {
        proof {
            lemma_byte_len_step(c@, lo as int, k as int);
        }
        n = n + char_width_of(c[k]);
        k = k + 1;
    }
    n
}

/// Start of the rest after `n` bytes of the characters `lo .. hi`, or `None`
/// when byte `n` falls inside a character.
fn skip_bytes_in(c: &Vec<char>, lo: usize, hi: usize, n: u128) -> (r: Option<usize>)
    requires
        lo <= hi <= c@.len(),
    ensures
        match skip_bytes(seg(c@, lo as int, hi as int), n as int) {
            Some(rest) => r matches Some(k) && lo <= k <= hi && rest == seg(c@, k as int, hi as int),
            None => r is None,
        },
{
    let mut k: usize = lo;
    let mut rem: u128 = n;
    while rem > 0
        invariant
            lo <= k <= hi <= c@.len(),
            skip_bytes(seg(c@, lo as int, hi as int), n as int) == skip_bytes(seg(c@, k as int, hi as int), rem as int),
        decreases hi - k,
    {
        if k == hi {
            return None;
        }
        let w: u128 = char_width_of(c[k]);
        if w > rem {
            return None;
        }
        proof {
            assert(seg(c@, k as int, hi as int).drop_first() =~= seg(c@, k + 1, hi as int));
        }
        k = k + 1;
        rem = rem - w;
    }
    Some(k)
}

proof fn lemma_take_word_step(s: Seq<char>, k: int, hi: int)
    requires
        0 <= k < hi <= s.len(),
        !is_white_space(s[k]),
    ensures
        take_word(s.subrange(k, hi)) == seq![s[k]] + take_word(s.subrange(k + 1, hi)),
{
    assert(s.subrange(k, hi).drop_first() =~= s.subrange(k + 1, hi));
}

/// The first word of the characters `lo .. hi` (`split_whitespace().next()`).
fn first_word_in(c: &Vec<char>, lo: usize, hi: usize) -> (r: Option<String>)
    requires
        lo <= hi <= c@.len(),
    ensures
        crate::mp4::name_of(r) == first_word(seg(c@, lo as int, hi as int)),
{
    let ghost s = seg(c@, lo as int, hi as int);
    let mut b: usize = lo;
    while b < hi && is_whitespace(c[b])
        invariant
            lo <= b <= hi <= c@.len(),
            s == seg(c@, lo as int, hi as int),
            forall|i: int| 0 <= i < b - lo ==> is_white_space(#[trigger] s[i]),
        decreases hi - b,
    {
        b = b + 1;
    }
    proof {
        crate::text::lemma_trim_start_ws_suffix(s, b - lo);
        assert(s.subrange(b - lo, s.len() as int) =~= seg(c@, b as int, hi as int));
        let t = seg(c@, b as int, hi as int);
        if t.len() > 0 {
            assert(t[0] == c@[b as int]);
        }
    }
    let ghost t = seg(c@, b as int, hi as int);
    let mut w: String = String::new();
    let mut e: usize = b;
    while e < hi && !is_whitespace(c[e])
        invariant
            b <= e <= hi <= c@.len(),
            t == seg(c@, b as int, hi as int),
            take_word(t) == w@ + take_word(seg(c@, e as int, hi as int)),
            w@.len() == e - b,
        decreases hi - e,
    {
        proof {
            lemma_take_word_step(c@, e as int, hi as int);
        }
        push_char(&mut w, c[e]);
        proof {
            assert(w@ + take_word(seg(c@, e + 1, hi as int)) =~= (w@.drop_last() + (seq![c@[e as int]] + take_word(seg(c@, e + 1, hi as int)))));
        }
        e = e + 1;
    }
    proof {
        let r = seg(c@, e as int, hi as int);
        if r.len() > 0 {
            assert(r[0] == c@[e as int]);
        }
        assert(take_word(r) =~= seq![]);
        assert(take_word(t) =~= w@);
    }
    if e == b {
        None
    } else {
        Some(w)
    }
}

/// The codec name that the line `lo .. hi` gives.
fn codec_name_in(c: &Vec<char>, lo: usize, hi: usize) -> (r: Option<String>)
    requires
        lo <= hi <= c@.len(),
    ensures
        crate::mp4::name_of(r) == codec_line_name(seg(c@, lo as int, hi as int)),
{
    if has_char_in(c, lo, hi, '=') || has_dashes_in(c, lo, hi) {
        return None;
    }
    let flag: bool = hi - lo >= 2 && c[lo] == ' ' && (c[lo + 1] == 'V' || c[lo + 1] == 'A');
    proof {
        let s = seg(c@, lo as int, hi as int);
        if s.len() >= 2 {
            assert(s[0] == c@[lo as int] && s[1] == c@[lo + 1]);
        }
    }
    if !flag || byte_len_in(c, lo, hi) <= 8 {
        return None;
    }
    match skip_bytes_in(c, lo, hi, 8) {
        Some(k) => first_word_in(c, k, hi),
        None => None,
    }
}

/// Taking the rest after byte 8 of the line `lo .. hi` is defined.
fn codec_line_ok(c: &Vec<char>, lo: usize, hi: usize) -> (r: bool)
    requires
        lo <= hi <= c@.len(),
    ensures
        r == codec_line_sliceable(seg(c@, lo as int, hi as int)),
{
    if has_char_in(c, lo, hi, '=') || has_dashes_in(c, lo, hi) {
        return true;
    }
    let flag: bool = hi - lo >= 2 && c[lo] == ' ' && (c[lo + 1] == 'V' || c[lo + 1] == 'A');
    proof {
        let s = seg(c@, lo as int, hi as int);
        if s.len() >= 2 {
            assert(s[0] == c@[lo as int] && s[1] == c@[lo + 1]);
        }
    }
    if !flag || byte_len_in(c, lo, hi) <= 8 {
        return true;
    }
    skip_bytes_in(c, lo, hi, 8).is_some()
}

/// The method name that the line `lo .. hi` gives.
fn hwaccel_name_in(c: &Vec<char>, lo: usize, hi: usize) -> (r: Option<String>)
    requires
        lo <= hi <= c@.len(),
    ensures
        crate::mp4::name_of(r) == hwaccel_line_name(seg(c@, lo as int, hi as int)),
{
    let ghost s = seg(c@, lo as int, hi as int);
    let mut e: usize = hi;
    while e > lo && is_whitespace(c[e - 1])
        invariant
            lo <= e <= hi <= c@.len(),
            s == seg(c@, lo as int, hi as int),
            forall|i: int| e - lo <= i < hi - lo ==> is_white_space(#[trigger] s[i]),
        decreases e,
    {
        e = e - 1;
    }
    proof {
        crate::text::lemma_trim_end_ws_prefix(s, e - lo);
        assert(s.subrange(0, e - lo) =~= seg(c@, lo as int, e as int));
        let u = seg(c@, lo as int, e as int);
        if u.len() > 0 {
            assert(u.last() == c@[e - 1]);
        }
        assert(crate::text::trim_end_ws(u) == u);
    }
    let ghost u = seg(c@, lo as int, e as int);
    let mut b: usize = lo;
    while b < e && is_whitespace(c[b])
        invariant
            lo <= b <= e <= hi <= c@.len(),
            u == seg(c@, lo as int, e as int),
            forall|i: int| 0 <= i < b - lo ==> is_white_space(#[trigger] u[i]),
        decreases e - b,
    {
        b = b + 1;
    }
    proof {
        crate::text::lemma_trim_start_ws_suffix(u, b - lo);
        assert(u.subrange(b - lo, u.len() as int) =~= seg(c@, b as int, e as int));
        let t = seg(c@, b as int, e as int);
        if t.len() > 0 {
            assert(t[0] == c@[b as int]);
        }
    }
    if b == e {
        return None;
    }
    if e - b >= 8 && c[b] == 'H' && c[b + 1] == 'a' && c[b + 2] == 'r' && c[b + 3] == 'd' && c[b + 4] == 'w'
        && c[b + 5] == 'a' && c[b + 6] == 'r' && c[b + 7] == 'e' {
        proof {
            reveal_strlit("Hardware");
            assert(seg(c@, b as int, e as int).subrange(0, 8) =~= "Hardware"@);
        }
        return None;
    }
    proof {
        reveal_strlit("Hardware");
        let t = seg(c@, b as int, e as int);
        if t.len() >= 8 {
            assert(t.subrange(0, 8) != "Hardware"@) by {
                if t.subrange(0, 8) == "Hardware"@ {
                    assert(t.subrange(0, 8)[0] == 'H');
                    assert(t.subrange(0, 8)[1] == 'a');
                    assert(t.subrange(0, 8)[2] == 'r');
                    assert(t.subrange(0, 8)[3] == 'd');
                    assert(t.subrange(0, 8)[4] == 'w');
                    assert(t.subrange(0, 8)[5] == 'a');
                    assert(t.subrange(0, 8)[6] == 'r');
                    assert(t.subrange(0, 8)[7] == 'e');
                }
            }
        }
    }
    let mut out: String = String::new();
    let mut k: usize = b;
    while k < e
        invariant
            b <= k <= e <= c@.len(),
            out@ == seg(c@, b as int, k as int),
        decreases e - k,
    {
        push_char(&mut out, c[k]);
        proof {
            assert(seg(c@, b as int, k + 1) =~= seg(c@, b as int, k as int).push(c@[k as int]));
        }
        k = k + 1;
    }
    Some(out)
}

} // verus!

verus! {

pub open spec fn line_rule(codec: bool) -> spec_fn(Seq<char>) -> Option<Seq<char>> {
    if codec {
        |l: Seq<char>| codec_line_name(l)
    } else {
        |l: Seq<char>| hwaccel_line_name(l)
    }
}

/// The end of the first line of `c[i..]` (a `\r` before `\n` excluded) and
/// the start of the rest.
proof fn lemma_first_line_at(c: Seq<char>, i: int, j: int, hi: int, next: int)
    requires
        0 <= i < c.len(),
        i <= j <= c.len(),
        j - i == newline_index(seg(c, i, c.len() as int)),
        hi == (if j < c.len() && j > i && c[j - 1] == '\r' { j - 1 } else { j }),
        next == (if j < c.len() { j + 1 } else { c.len() as int }),
    ensures
        first_line(seg(c, i, c.len() as int)) == seg(c, i, hi),
        after_first_line(seg(c, i, c.len() as int)) == seg(c, next, c.len() as int),
{
    let s = seg(c, i, c.len() as int);
    assert(s.subrange(0, j - i) =~= seg(c, i, j));
    if j > i {
        assert(seg(c, i, j).last() == c[j - 1]);
        if c[j - 1] == '\r' && j < c.len() {
            assert(seg(c, i, j).drop_last() =~= seg(c, i, hi));
        }
    }
    if j < c.len() {
        assert(s.subrange(j - i + 1, s.len() as int) =~= seg(c, next, c.len() as int));
    } else {
        assert(seg(c, next, c.len() as int) =~= seq![]);
    }
}

proof fn lemma_push_set(s: Seq<Seq<char>>, x: Seq<char>)
    requires
        s.no_duplicates(),
        !s.contains(x),
    ensures
        s.push(x).no_duplicates(),
        s.push(x).to_set() == s.to_set().insert(x),
{
    let t = s.push(x);
    assert forall|a: Seq<char>| t.to_set().contains(a) == s.to_set().insert(x).contains(a) by {
        if t.contains(a) {
            let k = choose|k: int| 0 <= k < t.len() && t[k] == a;
            if k < s.len() {
                assert(s[k] == a);
            }
        }
        if s.contains(a) {
            let k = choose|k: int| 0 <= k < s.len() && s[k] == a;
            assert(t[k] == a);
        }
        if a == x {
            assert(t[s.len() as int] == x);
        }
    }
    assert(t.to_set() =~= s.to_set().insert(x));
    assert forall|i: int, j: int| 0 <= i < t.len() && 0 <= j < t.len() && i != j implies t[i] != t[j] by {
        if i < s.len() && j < s.len() {
        } else if i < s.len() {
            assert(s.contains(t[i]));
        } else if j < s.len() {
            assert(s.contains(t[j]));
        }
    }
}

fn collect_names(c: &Vec<char>, codec: bool) -> (r: Vec<String>)
    ensures
        strs(r@).no_duplicates(),
        strs(r@).to_set() == listed(c@, line_rule(codec)),
{
    let n: usize = c.len();
    let ghost f = line_rule(codec);
    let mut r: Vec<String> = Vec::new();
    let mut i: usize = 0;
    assert(seg(c@, 0, n as int) =~= c@);
    proof {
        assert(strs(r@) =~= seq![]);
        assert(strs(r@).to_set() =~= Set::empty());
    }
    while i < n
        invariant
            n == c@.len(),
            i <= n,
            f == line_rule(codec),
            strs(r@).no_duplicates(),
            listed(c@, f) == strs(r@).to_set().union(listed(seg(c@, i as int, n as int), f)),
        decreases n - i,
    {
        let j: usize = find_newline(c, i);
        let hi: usize = if j < n && j > i && c[j - 1] == '\r' { j - 1 } else { j };
        let next: usize = if j < n { j + 1 } else { n };
        proof {
            lemma_first_line_at(c@, i as int, j as int, hi as int, next as int);
            lemma_newline_index(seg(c@, i as int, n as int));
        }
        let name: Option<String> = if codec { codec_name_in(c, i, hi) } else { hwaccel_name_in(c, i, hi) };
        let ghost before = r@;
        match name {
            Some(x) => {
                if !crate::hwaccel::list_contains(&r, x.as_str()) {
                    r.push(x);
                    proof {
                        crate::text::lemma_strs_push(before, x);
                        lemma_push_set(strs(before), x@);
                    }
                } else {
                    assert(strs(before).to_set().contains(x@));
                    assert(strs(before).to_set().insert(x@) =~= strs(before).to_set());
                }
                assert(f(seg(c@, i as int, hi as int)) == Some(x@));
            },
            None => {
                assert(f(seg(c@, i as int, hi as int)) is None);
            },
        }
        proof {
            assert(listed(seg(c@, i as int, n as int), f) == match f(seg(c@, i as int, hi as int)) {
                Some(x) => listed(seg(c@, next as int, n as int), f).insert(x),
                None => listed(seg(c@, next as int, n as int), f),
            });
            assert(listed(c@, f) =~= strs(r@).to_set().union(listed(seg(c@, next as int, n as int), f)));
        }
        i = next;
    }
    proof {
        assert(seg(c@, n as int, n as int) =~= seq![]);
        assert(strs(r@).to_set().union(Set::empty()) =~= strs(r@).to_set());
    }
    r
}

/// The codec names that the output of `ffmpeg -encoders` or `-decoders`
/// lists, each once (the output decoded lossily as UTF-8). Every line that
/// names a codec must have a character boundary at byte 8
/// (`codec_listing_ok`), where slicing the line would otherwise panic.
pub fn parse_codec_listing(stdout: &[u8]) -> (r: Vec<String>)
    requires
        all_lines(utf8_lossy(stdout@), |l: Seq<char>| codec_line_sliceable(l)),
    ensures
        strs(r@).no_duplicates(),
        strs(r@).to_set() == listed(utf8_lossy(stdout@), |l: Seq<char>| codec_line_name(l)),
{
    let text: String = decode_utf8_lossy(stdout);
    let c: Vec<char> = chars_of(text.as_str());
    let r: Vec<String> = collect_names(&c, true);
    assert(line_rule(true) == (|l: Seq<char>| codec_line_name(l)));
    r
}

/// The hardware-acceleration methods that the output of `ffmpeg -hwaccels`
/// lists, each once: every trimmed non-empty line but the heading.
pub fn parse_hwaccel_listing(stdout: &[u8]) -> (r: Vec<String>)
    ensures
        strs(r@).no_duplicates(),
        strs(r@).to_set() == listed(utf8_lossy(stdout@), |l: Seq<char>| hwaccel_line_name(l)),
{
    let text: String = decode_utf8_lossy(stdout);
    let c: Vec<char> = chars_of(text.as_str());
    let r: Vec<String> = collect_names(&c, false);
    assert(line_rule(false) == (|l: Seq<char>| hwaccel_line_name(l)));
    r
}

/// Every line of the output that names a codec can be sliced at byte 8.
pub fn codec_listing_ok(stdout: &[u8]) -> (ok: bool)
    ensures
        ok == all_lines(utf8_lossy(stdout@), |l: Seq<char>| codec_line_sliceable(l)),
{
    let text: String = decode_utf8_lossy(stdout);
    let c: Vec<char> = chars_of(text.as_str());
    let n: usize = c.len();
    let ghost p = |l: Seq<char>| codec_line_sliceable(l);
    let mut i: usize = 0;
    assert(seg(c@, 0, n as int) =~= c@);
    while i < n
        invariant
            n == c@.len(),
            i <= n,
            c@ == utf8_lossy(stdout@),
            p == (|l: Seq<char>| codec_line_sliceable(l)),
            all_lines(c@, p) == all_lines(seg(c@, i as int, n as int), p),
        decreases n - i,
    {
        let j: usize = find_newline(&c, i);
        let hi: usize = if j < n && j > i && c[j - 1] == '\r' { j - 1 } else { j };
        let next: usize = if j < n { j + 1 } else { n };
        proof {
            lemma_first_line_at(c@, i as int, j as int, hi as int, next as int);
            lemma_newline_index(seg(c@, i as int, n as int));
        }
        if !codec_line_ok(&c, i, hi) {
            return false;
        }
        i = next;
    }
    assert(seg(c@, n as int, n as int) =~= seq![]);
    true
}

/// The codec names that the output of `ffmpeg -encoders` or `-decoders`
/// lists (see `parse_codec_listing`); `None` when a line that names a codec
/// cannot be sliced at byte 8.
pub fn detect_codec_names(stdout: &[u8]) -> (r: Option<Vec<String>>)
    ensures
        r is Some <==> all_lines(utf8_lossy(stdout@), |l: Seq<char>| codec_line_sliceable(l)),
        r matches Some(v) ==> strs(v@).no_duplicates()
            && strs(v@).to_set() == listed(utf8_lossy(stdout@), |l: Seq<char>| codec_line_name(l)),
{
    if codec_listing_ok(stdout) {
        Some(parse_codec_listing(stdout))
    } else {
        None
    }
}

/// The lines of `s` as `str::lines` yields them.
pub open spec fn lines_of(s: Seq<char>) -> Seq<Seq<char>>
    decreases s.len(),
{
    if s.len() == 0 {
        seq![]
    } else {
        proof {
            lemma_newline_index(s);
        }
        seq![first_line(s)] + lines_of(after_first_line(s))
    }
}

/// At most the first seven lines of a tool's output, joined by newlines,
/// followed, when there were more, by how many lines there were in all.
pub open spec fn limited_text(s: Seq<char>) -> Seq<char> {
    let ls = lines_of(s);
    crate::args::join_with(ls.subrange(0, if ls.len() < 7 { ls.len() as int } else { 7 }), "\n"@) + if ls.len() > 7 {
        "\n... (truncated, "@ + crate::text::decimal(ls.len()) + " total lines)"@
    } else {
        seq![]
    }
}

fn push_segment(out: &mut String, c: &Vec<char>, lo: usize, hi: usize)
    requires
        lo <= hi <= c@.len(),
    ensures
        final(out)@ == old(out)@ + seg(c@, lo as int, hi as int),
{
    let ghost start = out@;
    let mut k: usize = lo;
    while k < hi
        invariant
            lo <= k <= hi <= c@.len(),
            out@ == start + seg(c@, lo as int, k as int),
        decreases hi - k,
    {
        push_char(out, c[k]);
        assert(seg(c@, lo as int, k + 1) =~= seg(c@, lo as int, k as int).push(c@[k as int]));
        k = k + 1;
    }
}

/// The first seven lines of a tool's output (decoded lossily as UTF-8),
/// with the total line count when there were more.
pub fn limit_lines(bytes: &[u8]) -> (r: String)
    ensures
        r@ == limited_text(utf8_lossy(bytes@)),
{
    proof {
        reveal_strlit("\n");
        reveal_strlit("\n... (truncated, ");
        reveal_strlit(" total lines)");
    }
    let text: String = decode_utf8_lossy(bytes);
    let c: Vec<char> = chars_of(text.as_str());
    let n: usize = c.len();
    let mut out: String = String::new();
    let mut count: usize = 0;
    let mut i: usize = 0;
    let ghost mut done: Seq<Seq<char>> = seq![];
    assert(seg(c@, 0, n as int) =~= c@);
    assert(out@ =~= crate::args::join_with(done.subrange(0, 0), "\n"@));
    while i < n
        invariant
            n == c@.len(),
            i <= n,
            c@ == utf8_lossy(bytes@),
            lines_of(c@) == done + lines_of(seg(c@, i as int, n as int)),
            count == done.len(),
            count <= i,
            out@ == crate::args::join_with(done.subrange(0, if done.len() < 7 { done.len() as int } else { 7 }), "\n"@),
        decreases n - i,
    {
        proof {
            reveal_strlit("\n");
        }
        let j: usize = find_newline(&c, i);
        let hi: usize = if j < n && j > i && c[j - 1] == '\r' { j - 1 } else { j };
        let next: usize = if j < n { j + 1 } else { n };
        proof {
            lemma_first_line_at(c@, i as int, j as int, hi as int, next as int);
            lemma_newline_index(seg(c@, i as int, n as int));
            assert(lines_of(seg(c@, i as int, n as int)) == seq![seg(c@, i as int, hi as int)] + lines_of(seg(c@, next as int, n as int)));
        }
        let ghost line = seg(c@, i as int, hi as int);
        let ghost before = done;
        if count < 7 {
            if count > 0 {
                push_char(&mut out, '\n');
            }
            push_segment(&mut out, &c, i, hi);
            proof {
                assert(before.subrange(0, before.len() as int) =~= before);
                assert(before.push(line).subrange(0, before.len() as int + 1) =~= before.push(line));
                if before.len() > 0 {
                    assert(before.push(line).drop_last() =~= before);
                    assert(out@ =~= crate::args::join_with(before, "\n"@) + "\n"@ + line);
                } else {
                    assert(out@ =~= line);
                }
            }
        } else {
            proof {
                assert(before.push(line).subrange(0, 7) =~= before.subrange(0, 7));
            }
        }
        proof {
            done = before.push(line);
            assert(done + lines_of(seg(c@, next as int, n as int)) =~= before + (seq![line] + lines_of(seg(c@, next as int, n as int))));
        }
        count = count + 1;
        i = next;
    }
    assert(seg(c@, n as int, n as int) =~= seq![]);
    assert(lines_of(c@) =~= done);
    if count > 7 {
        push_str(&mut out, "\n... (truncated, ");
        push_decimal(&mut out, count as u128);
        push_str(&mut out, " total lines)");
    } else {
        assert(out@ =~= out@ + Seq::<char>::empty());
    }
    out
}

} // verus!
