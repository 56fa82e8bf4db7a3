//! Character-level helpers shared by the parsers and argument builders:
//! decimal rendering, Unicode white-space trimming and byte decoding.
use vstd::prelude::*;

verus! {

/// Appends one character to a string (`String::push`).
#[verifier::external_body]
pub(crate) fn push_char(s: &mut String, c: char)
    ensures
        final(s)@ == old(s)@.push(c),
{
    s.push(c);
}

/// Appends a string slice to a string (`String::push_str`).
#[verifier::external_body]
pub(crate) fn push_str(s: &mut String, t: &str)
    ensures
        final(s)@ == old(s)@ + t@,
{
    s.push_str(t);
}

/// What `String::from_utf8_lossy` produces for a byte sequence: the bytes
/// decoded as UTF-8, with each invalid sequence replaced by U+FFFD.
pub uninterp spec fn utf8_lossy(bytes: Seq<u8>) -> Seq<char>;

/// `String::from_utf8_lossy`. Its result is named by `utf8_lossy`; on valid
/// UTF-8 the documentation promises the plain decoding, which is stated.
#[verifier::external_body]
pub(crate) fn decode_utf8_lossy(bytes: &[u8]) -> (s: String)
    ensures
        s@ == utf8_lossy(bytes@),
        vstd::utf8::valid_utf8(bytes@) ==> s@ == vstd::utf8::decode_utf8(bytes@),
{
    String::from_utf8_lossy(bytes).into_owned()
}

/// The ASCII digit for `d` (`d < 10`).
pub open spec fn digit_char(d: nat) -> char {
    if d == 0 { '0' }
    else if d == 1 { '1' }
    else if d == 2 { '2' }
    else if d == 3 { '3' }
    else if d == 4 { '4' }
    else if d == 5 { '5' }
    else if d == 6 { '6' }
    else if d == 7 { '7' }
    else if d == 8 { '8' }
    else { '9' }
}

/// The shortest decimal rendering of `n` (what `{}` prints for an unsigned integer).
pub open spec fn decimal(n: nat) -> Seq<char>
    decreases n,
{
    if n < 10 {
        seq![digit_char(n)]
    } else {
        decimal(n / 10).push(digit_char(n % 10))
    }
}

/// Every character of a decimal rendering is an ASCII digit, and the
/// rendering is never empty.
pub proof fn lemma_decimal_digits(n: nat)
    ensures
        decimal(n).len() >= 1,
        n >= 10 ==> decimal(n).len() >= 2,
        forall|i: int| 0 <= i < decimal(n).len() ==> '0' <= #[trigger] decimal(n)[i] <= '9',
    decreases n,
{
    if n >= 10 {
        lemma_decimal_digits(n / 10);
    }
}

/// Two numbers with the same decimal rendering are equal.
pub proof fn lemma_decimal_injective(a: nat, b: nat)
    requires
        decimal(a) == decimal(b),
    ensures
        a == b,
    decreases a,
{
    lemma_decimal_digits(a);
    lemma_decimal_digits(b);
    if a >= 10 && b >= 10 {
        let da = decimal(a);
        let db = decimal(b);
        assert(da.drop_last() == decimal(a / 10));
        assert(db.drop_last() == decimal(b / 10));
        assert(da.last() == digit_char(a % 10));
        assert(db.last() == digit_char(b % 10));
        lemma_decimal_injective(a / 10, b / 10);
    } else if a < 10 && b < 10 {
        assert(decimal(a)[0] == digit_char(a));
        assert(decimal(b)[0] == digit_char(b));
    }
}

fn digit_of(d: u128) -> (c: char)
    requires
        d < 10,
    ensures
        c == digit_char(d as nat),
{
    if d == 0 { '0' }
    else if d == 1 { '1' }
    else if d == 2 { '2' }
    else if d == 3 { '3' }
    else if d == 4 { '4' }
    else if d == 5 { '5' }
    else if d == 6 { '6' }
    else if d == 7 { '7' }
    else if d == 8 { '8' }
    else { '9' }
}

/// Appends the decimal rendering of `n` to `s`.
pub fn push_decimal(s: &mut String, n: u128)
    ensures
        final(s)@ == old(s)@ + decimal(n as nat),
    decreases n,
{
    if n >= 10 {
        push_decimal(s, n / 10);
    }
    let c: char = digit_of(n % 10);
    push_char(s, c);
    proof {
        assert(decimal(n as nat) == if n < 10 { seq![digit_char(n as nat)] } else {
            decimal((n / 10) as nat).push(digit_char((n % 10) as nat))
        });
        if n < 10 {
            assert(n % 10 == n);
        }
    }
}

/// The decimal rendering of `n` as a new string.
pub fn to_decimal(n: u128) -> (s: String)
    ensures
        s@ == decimal(n as nat),
{
    let mut s: String = String::new();
    push_decimal(&mut s, n);
    proof {
        assert(s@ =~= decimal(n as nat));
    }
    s
}

/// The Unicode `White_Space` property, which `char::is_whitespace` and
/// `str::trim` test.
pub open spec fn is_white_space(c: char) -> bool {
    let v = c as u32;
    ||| 0x09 <= v <= 0x0d
    ||| v == 0x20
    ||| v == 0x85
    ||| v == 0xa0
    ||| v == 0x1680
    ||| 0x2000 <= v <= 0x200a
    ||| v == 0x2028
    ||| v == 0x2029
    ||| v == 0x202f
    ||| v == 0x205f
    ||| v == 0x3000
}

/// `char::is_whitespace`.
pub fn is_whitespace(c: char) -> (b: bool)
    ensures
        b == is_white_space(c),
{
    let v: u32 = c as u32;
    (0x09 <= v && v <= 0x0d) || v == 0x20 || v == 0x85 || v == 0xa0 || v == 0x1680 || (0x2000
        <= v && v <= 0x200a) || v == 0x2028 || v == 0x2029 || v == 0x202f || v == 0x205f || v
        == 0x3000
}

/// `s` without its trailing NUL characters (`trim_end_matches('\0')`).
pub open spec fn trim_end_nul(s: Seq<char>) -> Seq<char>
    decreases s.len(),
{
    if s.len() > 0 && s.last() == '\0' {
        trim_end_nul(s.drop_last())
    } else {
        s
    }
}

/// `s` without its trailing white space (`trim_end`).
pub open spec fn trim_end_ws(s: Seq<char>) -> Seq<char>
    decreases s.len(),
{
    if s.len() > 0 && is_white_space(s.last()) {
        trim_end_ws(s.drop_last())
    } else {
        s
    }
}

/// `s` without its leading white space (`trim_start`).
pub open spec fn trim_start_ws(s: Seq<char>) -> Seq<char>
    decreases s.len(),
{
    if s.len() > 0 && is_white_space(s[0]) {
        trim_start_ws(s.drop_first())
    } else {
        s
    }
}

/// `s.trim()`.
pub open spec fn trim_ws(s: Seq<char>) -> Seq<char> {
    trim_start_ws(trim_end_ws(s))
}

/// `s.trim_end_matches('\0').trim()`.
pub open spec fn clean_text(s: Seq<char>) -> Seq<char> {
    trim_ws(trim_end_nul(s))
}

proof fn lemma_trim_end_nul_prefix(s: Seq<char>, e: int)
    requires
        0 <= e <= s.len(),
        forall|i: int| e <= i < s.len() ==> s[i] == '\0',
    ensures
        trim_end_nul(s) == trim_end_nul(s.subrange(0, e)),
    decreases s.len() - e,
{
    if e < s.len() {
        assert(s.drop_last() =~= s.subrange(0, s.len() - 1));
        lemma_trim_end_nul_prefix(s.drop_last(), e);
        assert(s.drop_last().subrange(0, e) =~= s.subrange(0, e));
    } else {
        assert(s.subrange(0, e) =~= s);
    }
}

pub proof fn lemma_trim_end_ws_prefix(s: Seq<char>, e: int)
    requires
        0 <= e <= s.len(),
        forall|i: int| e <= i < s.len() ==> is_white_space(#[trigger] s[i]),
    ensures
        trim_end_ws(s) == trim_end_ws(s.subrange(0, e)),
    decreases s.len() - e,
{
    if e < s.len() {
        lemma_trim_end_ws_prefix(s.drop_last(), e);
        assert(s.drop_last().subrange(0, e) =~= s.subrange(0, e));
    } else {
        assert(s.subrange(0, e) =~= s);
    }
}

pub proof fn lemma_trim_start_ws_suffix(s: Seq<char>, b: int)
    requires
        0 <= b <= s.len(),
        forall|i: int| 0 <= i < b ==> is_white_space(#[trigger] s[i]),
    ensures
        trim_start_ws(s) == trim_start_ws(s.subrange(b, s.len() as int)),
    decreases b,
{
    if b > 0 {
        lemma_trim_start_ws_suffix(s.drop_first(), b - 1);
        assert(s.drop_first().subrange(b - 1, s.drop_first().len() as int) =~= s.subrange(
            b,
            s.len() as int,
        ));
    } else {
        assert(s.subrange(0, s.len() as int) =~= s);
    }
}

/// Removes trailing NUL characters, then leading and trailing white space
/// (`trim_end_matches('\0').trim()`).
pub fn clean(s: &str) -> (r: String)
    ensures
        r@ == clean_text(s@),
{
    let n: usize = s.unicode_len();
    let mut e: usize = n;
    while e > 0 && s.get_char(e - 1) == '\0'
        invariant
            e <= n,
            n == s@.len(),
            forall|i: int| e <= i < n ==> s@[i] == '\0',
        decreases e,
    {
        e = e - 1;
    }
    proof {
        lemma_trim_end_nul_prefix(s@, e as int);
        assert(trim_end_nul(s@.subrange(0, e as int)) == s@.subrange(0, e as int));
    }
    let ghost t = s@.subrange(0, e as int);
    let mut e2: usize = e;
    while e2 > 0 && is_whitespace(s.get_char(e2 - 1))
        invariant
            e2 <= e <= n,
            n == s@.len(),
            t == s@.subrange(0, e as int),
            forall|i: int| e2 <= i < e ==> is_white_space(#[trigger] t[i]),
        decreases e2,
    {
        e2 = e2 - 1;
    }
    proof {
        lemma_trim_end_ws_prefix(t, e2 as int);
        assert(t.subrange(0, e2 as int) =~= s@.subrange(0, e2 as int));
    }
    let ghost u = s@.subrange(0, e2 as int);
    let mut b: usize = 0;
    while b < e2 && is_whitespace(s.get_char(b))
        invariant
            b <= e2 <= n,
            n == s@.len(),
            u == s@.subrange(0, e2 as int),
            forall|i: int| 0 <= i < b ==> is_white_space(#[trigger] u[i]),
        decreases e2 - b,
    {
        b = b + 1;
    }
    proof {
        lemma_trim_start_ws_suffix(u, b as int);
        assert(u.subrange(b as int, u.len() as int) =~= s@.subrange(b as int, e2 as int));
    }
    let r: &str = s.substring_char(b, e2);
    r.to_string()
}

} // verus!

verus! {

/// The character sequences of a sequence of strings.
pub open spec fn strs(v: Seq<String>) -> Seq<Seq<char>> {
    v.map_values(|s: String| s@)
}

/// `a == b` on string slices: the same characters in the same order.
pub(crate) fn str_equal(a: &str, b: &str) -> (r: bool)
    ensures
        r == (a@ == b@),
{
    let x: Vec<char> = chars_of(a);
    let y: Vec<char> = chars_of(b);
    if x.len() != y.len() {
        return false;
    }
    let n: usize = x.len();
    let mut i: usize = 0;
    while i < n
        invariant
            i <= n,
            n == x@.len(),
            n == y@.len(),
            x@ == a@,
            y@ == b@,
            forall|j: int| 0 <= j < i ==> x@[j] == y@[j],
        decreases n - i,
    {
        if x[i] != y[i] {
            return false;
        }
        i = i + 1;
    }
    assert(a@ =~= b@);
    true
}

/// A new string holding `s`.
pub fn owned(s: &str) -> (r: String)
    ensures
        r@ == s@,
{
    s.to_string()
}

/// Strings are added to the end of a vector of strings.
pub proof fn lemma_strs_push(v: Seq<String>, s: String)
    ensures
        strs(v.push(s)) == strs(v).push(s@),
{
    assert(strs(v.push(s)) =~= strs(v).push(s@));
}

} // verus!

verus! {

/// The characters of `s`, in order.
pub fn chars_of(s: &str) -> (v: Vec<char>)
    ensures
        v@ == s@,
{
    let mut v: Vec<char> = Vec::new();
    for c in it: s.chars()
        invariant
            v@ == it.seq().take(it.index() as int),
    {
        v.push(c);
    }
    v
}

} // verus!

verus! {

/// Appends a copy of `s` to a list of strings.
pub fn push_arg(args: &mut Vec<String>, s: &str)
    ensures
        strs(final(args)@) == strs(old(args)@).push(s@),
{
    let x: String = owned(s);
    let ghost before = args@;
    args.push(x);
    proof {
        lemma_strs_push(before, x);
    }
}

/// Appends `s` to a list of strings.
pub fn push_string(args: &mut Vec<String>, s: String)
    ensures
        strs(final(args)@) == strs(old(args)@).push(s@),
{
    let ghost before = args@;
    let ghost v = s@;
    args.push(s);
    proof {
        assert(strs(args@) =~= strs(before).push(v));
    }
}

/// `prefix` followed by the decimal rendering of `n`.
pub fn with_number(prefix: &str, n: u128) -> (s: String)
    ensures
        s@ == prefix@ + decimal(n as nat),
{
    let mut s: String = owned(prefix);
    push_decimal(&mut s, n);
    s
}

/// `prefix` followed by `t`.
pub fn joined(prefix: &str, t: &str) -> (s: String)
    ensures
        s@ == prefix@ + t@,
{
    let mut s: String = owned(prefix);
    push_str(&mut s, t);
    s
}

} // verus!

verus! {

/// What `Path::new(p).extension()` gives for the path text `p` on the target
/// platform, as text.
pub uninterp spec fn path_extension(p: Seq<char>) -> Option<Seq<char>>;

/// The index of the last `.` in `p`, or -1.
pub open spec fn last_dot(p: Seq<char>) -> int
    decreases p.len(),
{
    if p.len() == 0 {
        -1
    } else if p.last() == '.' {
        p.len() - 1
    } else {
        last_dot(p.drop_last())
    }
}

/// A path of one plain file name: not empty, not `.` or `..`, and without
/// `/`, `\` or `:`, so that on every platform the file name is the whole text.
pub open spec fn plain_file_name(p: Seq<char>) -> bool {
    p.len() > 0 && p != "."@ && p != ".."@ && forall|i: int|
        0 <= i < p.len() ==> #[trigger] p[i] != '/' && p[i] != '\\' && p[i] != ':'
}

/// The extension of a file name, as `Path::extension` documents it: none
/// without a `.`, none when the only `.` starts the name, else what follows
/// the last `.`.
pub open spec fn file_name_extension(p: Seq<char>) -> Option<Seq<char>> {
    let i = last_dot(p);
    if i <= 0 {
        None
    } else {
        Some(p.subrange(i + 1, p.len() as int))
    }
}

/// `Path::extension` of the path `p`, converted to a string. Its result is
/// named by `path_extension`. For a path that is one plain file name, the
/// documented rule is stated (`file_name_extension`); for other paths the
/// way `Path` splits components is not spelled out.
#[verifier::external_body]
pub(crate) fn file_extension(p: &str) -> (r: Option<String>)
    ensures
        crate::mp4::name_of(r) == path_extension(p@),
        plain_file_name(p@) ==> crate::mp4::name_of(r) == file_name_extension(p@),
{
    std::path::Path::new(p).extension().and_then(|e| e.to_str()).map(|e| e.to_string())
}

/// The ASCII lowercase of a character: `A`..`Z` become `a`..`z`, all else
/// is kept.
pub open spec fn ascii_lower(c: char) -> char {
    if 'A' <= c <= 'Z' { ((c as u32) + 32) as char } else { c }
}

/// Every character of `s` is ASCII.
pub open spec fn all_ascii(s: Seq<char>) -> bool {
    forall|i: int| 0 <= i < s.len() ==> (#[trigger] s[i] as u32) < 128
}

/// What `str::to_lowercase` gives for `s`.
pub uninterp spec fn lowercase(s: Seq<char>) -> Seq<char>;

/// `str::to_lowercase`. Its result is named by `lowercase`. On ASCII text
/// the Unicode lowercase mapping that the documentation refers to lowers
/// `A`..`Z` and keeps every other character, which is stated; for other
/// text the mapping is not spelled out.
#[verifier::external_body]
pub(crate) fn to_lowercase(s: &str) -> (r: String)
    ensures
        r@ == lowercase(s@),
        all_ascii(s@) ==> r@.len() == s@.len() && forall|i: int|
            0 <= i < s@.len() ==> #[trigger] r@[i] == ascii_lower(s@[i]),
{
    s.to_lowercase()
}

/// `s.replace(from, to)` for a non-empty `from`: occurrences of `from`,
/// found left to right without overlap, replaced by `to`.
pub open spec fn replace_all(s: Seq<char>, from: Seq<char>, to: Seq<char>) -> Seq<char>
    decreases s.len(),
{
    if s.len() == 0 {
        seq![]
    } else if from.len() > 0 && from.len() <= s.len() && s.subrange(0, from.len() as int) == from {
        to + replace_all(s.subrange(from.len() as int, s.len() as int), from, to)
    } else {
        seq![s[0]] + replace_all(s.drop_first(), from, to)
    }
}

fn matches_at(s: &Vec<char>, i: usize, from: &Vec<char>) -> (r: bool)
    requires
        i <= s@.len(),
    ensures
        r == (from@.len() <= s@.len() - i && s@.subrange(i as int, i + from@.len()) == from@),
{
    let n: usize = s.len();
    if from.len() > n - i {
        return false;
    }
    let mut k: usize = 0;
    while k < from.len()
        invariant
            i <= s@.len(),
            n == s@.len(),
            k <= from@.len() <= s@.len() - i,
            forall|j: int| 0 <= j < k ==> s@[i + j] == from@[j],
        decreases from@.len() - k,
    {
        if s[i + k] != from[k] {
            assert(s@.subrange(i as int, i + from@.len())[k as int] != from@[k as int]);
            return false;
        }
        k = k + 1;
    }
    assert(s@.subrange(i as int, i + from@.len()) =~= from@);
    true
}

/// `s.replace(from, to)` for a non-empty `from`.
pub fn replace_text(s: &str, from: &str, to: &str) -> (r: String)
    requires
        from@.len() > 0,
    ensures
        r@ == replace_all(s@, from@, to@),
{
    let c: Vec<char> = chars_of(s);
    let f: Vec<char> = chars_of(from);
    let mut r: String = String::new();
    let mut i: usize = 0;
    assert(c@.subrange(0, c@.len() as int) =~= c@);
    assert(r@ + replace_all(s@, from@, to@) =~= replace_all(s@, from@, to@));
    while i < c.len()
        invariant
            i <= c@.len(),
            c@ == s@,
            f@ == from@,
            f@.len() > 0,
            replace_all(s@, from@, to@) == r@ + replace_all(c@.subrange(i as int, c@.len() as int), from@, to@),
        decreases c@.len() - i,
    {
        let ghost rest = c@.subrange(i as int, c@.len() as int);
        if matches_at(&c, i, &f) {
            proof {
                assert(rest.subrange(0, from@.len() as int) =~= c@.subrange(i as int, i + from@.len()));
                assert(rest.subrange(from@.len() as int, rest.len() as int) =~= c@.subrange(i + from@.len(), c@.len() as int));
            }
            let ghost before = r@;
            push_str(&mut r, to);
            assert(before + (to@ + replace_all(c@.subrange(i + from@.len(), c@.len() as int), from@, to@)) =~= r@ + replace_all(c@.subrange(i + from@.len(), c@.len() as int), from@, to@));
            i = i + f.len();
        } else {
            proof {
                if from@.len() <= rest.len() {
                    assert(rest.subrange(0, from@.len() as int) =~= c@.subrange(i as int, i + from@.len()));
                }
                assert(rest.drop_first() =~= c@.subrange(i + 1, c@.len() as int));
                assert(rest[0] == c@[i as int]);
            }
            let ghost before = r@;
            push_char(&mut r, c[i]);
            assert(before + (seq![c@[i as int]] + replace_all(c@.subrange(i + 1, c@.len() as int), from@, to@)) =~= r@ + replace_all(c@.subrange(i + 1, c@.len() as int), from@, to@));
            i = i + 1;
        }
    }
    assert(c@.subrange(c@.len() as int, c@.len() as int) =~= seq![]);
    assert(r@ + seq![] =~= r@);
    r
}

/// `t` occurs in `s`.
pub open spec fn has_infix(s: Seq<char>, t: Seq<char>) -> bool {
    exists|i: int| 0 <= i && i + t.len() <= s.len() && #[trigger] s.subrange(i, i + t.len()) == t
}

/// `s.contains(t)`.
pub fn contains_text(s: &str, t: &str) -> (r: bool)
    ensures
        r == has_infix(s@, t@),
{
    let c: Vec<char> = chars_of(s);
    let f: Vec<char> = chars_of(t);
    let n: usize = c.len();
    let mut i: usize = 0;
    while i < n
        invariant
            i <= n,
            n == c@.len(),
            c@ == s@,
            f@ == t@,
            forall|j: int| 0 <= j < i && j + t@.len() <= s@.len() ==> #[trigger] s@.subrange(j, j + t@.len()) != t@,
        decreases n - i,
    {
        if matches_at(&c, i, &f) {
            assert(s@.subrange(i as int, i + t@.len()) == t@);
            return true;
        }
        i = i + 1;
    }
    if matches_at(&c, n, &f) {
        assert(s@.subrange(n as int, n + t@.len()) == t@);
        return true;
    }
    assert forall|j: int| 0 <= j && j + t@.len() <= s@.len() implies #[trigger] s@.subrange(j, j + t@.len()) != t@ by {
        assert(j <= n);
    }
    false
}

/// `s` holds the character `c`.
pub fn contains_char(s: &str, c: char) -> (r: bool)
    ensures
        r == s@.contains(c),
{
    let v: Vec<char> = chars_of(s);
    let n: usize = v.len();
    let mut i: usize = 0;
    while i < n
        invariant
            i <= n,
            n == v@.len(),
            v@ == s@,
            forall|j: int| 0 <= j < i ==> v@[j] != c,
        decreases n - i,
    {
        if v[i] == c {
            assert(s@[i as int] == c);
            return true;
        }
        i = i + 1;
    }
    false
}

/// The UTF-16 code units of a character.
pub open spec fn utf16_of(c: char) -> Seq<u16> {
    let v = c as u32;
    if v < 0x1_0000 {
        seq![v as u16]
    } else {
        let w = v - 0x1_0000;
        seq![(0xd800 + w / 0x400) as u16, (0xdc00 + w % 0x400) as u16]
    }
}

/// The UTF-16 encoding of a text.
pub open spec fn utf16(s: Seq<char>) -> Seq<u16>
    decreases s.len(),
{
    if s.len() == 0 { seq![] } else { utf16(s.drop_last()) + utf16_of(s.last()) }
}

/// A path as Windows API calls take it: UTF-16, ended by a 0 unit.
pub fn to_wide(path: &str) -> (w: Vec<u16>)
    ensures
        w@ == utf16(path@).push(0),
{
    let c: Vec<char> = chars_of(path);
    let n: usize = c.len();
    let mut w: Vec<u16> = Vec::new();
    let mut i: usize = 0;
    while i < n
        invariant
            i <= n,
            n == c@.len(),
            c@ == path@,
            w@ == utf16(path@.subrange(0, i as int)),
        decreases n - i,
    {
        assert(path@.subrange(0, i as int + 1).drop_last() =~= path@.subrange(0, i as int));
        let ghost before = w@;
        let ch: char = c[i];
        proof {
            vstd::utf8::char_is_scalar(ch);
        }
        let v: u32 = ch as u32;
        if v < 0x1_0000 {
            w.push(v as u16);
        } else {
            let x: u32 = v - 0x1_0000;
            assert(x / 0x400 < 0x400) by {
                assert(v <= 0x10ffff);
            }
            w.push((0xd800 + x / 0x400) as u16);
            w.push((0xdc00 + x % 0x400) as u16);
        }
        assert(w@ =~= before + utf16_of(path@[i as int]));
        i = i + 1;
    }
    assert(path@.subrange(0, n as int) =~= path@);
    w.push(0);
    w
}

} // verus!
