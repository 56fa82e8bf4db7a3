//! The name of a waveform cache file: a 64-bit FNV-1a hash of what the
//! waveform depends on, each field followed by a `|` byte.
use vstd::prelude::*;
use crate::text::{decimal, owned, push_char, push_decimal, push_str};
use crate::waveform::{CACHE_VERSION, TOTAL_WAVEFORM_POINTS};

verus! {

pub const FNV_OFFSET: u64 = 0xcbf2_9ce4_8422_2325;
pub const FNV_PRIME: u64 = 0x100_0000_01b3;

/// `x * y` modulo 2^64.
pub open spec fn mul_wrap(x: u64, y: u64) -> u64 {
    ((x as nat * y as nat) % 0x1_0000_0000_0000_0000nat) as u64
}

/// One FNV-1a step.
pub open spec fn fnv_step(s: u64, b: u8) -> u64 {
    mul_wrap(s ^ (b as u64), FNV_PRIME)
}

/// The FNV-1a state after the bytes `bytes`.
pub open spec fn fnv_bytes(s: u64, bytes: Seq<u8>) -> u64
    decreases bytes.len(),
{
    if bytes.len() == 0 {
        s
    } else {
        fnv_step(fnv_bytes(s, bytes.drop_last()), bytes.last())
    }
}

/// The state after a field: its bytes, then `|`.
pub open spec fn mix(s: u64, bytes: Seq<u8>) -> u64 {
    fnv_step(fnv_bytes(s, bytes), 0x7c)
}

/// The `width` least significant bytes of `n`, least significant first.
pub open spec fn le_bytes(n: nat, width: nat) -> Seq<u8>
    decreases width,
{
    if width == 0 {
        seq![]
    } else {
        seq![(n % 256) as u8] + le_bytes(n / 256, (width - 1) as nat)
    }
}

/// The hash a waveform cache is filed under: the video path (UTF-8), the
/// track index, the sample rate, the point count and the duration in
/// milliseconds; then, when the file's metadata could be read, its length
/// and, when known, its modification time in seconds.
pub open spec fn cache_hash(
    path: Seq<char>,
    track_index: u32,
    target_rate: u32,
    duration_ms: u64,
    meta: Option<(u64, Option<u64>)>,
) -> u64 {
    let s0 = mix(FNV_OFFSET, vstd::utf8::encode_utf8(path));
    let s1 = mix(s0, le_bytes(track_index as nat, 4));
    let s2 = mix(s1, le_bytes(target_rate as nat, 4));
    let s3 = mix(s2, le_bytes(TOTAL_WAVEFORM_POINTS as nat, 4));
    let s4 = mix(s3, le_bytes(duration_ms as nat, 8));
    match meta {
        None => s4,
        Some((len, modified)) => {
            let s5 = mix(s4, le_bytes(len as nat, 8));
            match modified {
                None => s5,
                Some(secs) => mix(s5, le_bytes(secs as nat, 8)),
            }
        },
    }
}

fn fnv_step_exec(s: u64, b: u8) -> (r: u64)
    ensures
        r == fnv_step(s, b),
{
    (s ^ (b as u64)).wrapping_mul(FNV_PRIME)
}

fn mix_bytes(s: u64, bytes: &[u8]) -> (r: u64)
    ensures
        r == mix(s, bytes@),
{
    let mut state: u64 = s;
    let n: usize = bytes.len();
    let mut i: usize = 0;
    while i < n
        invariant
            i <= n,
            n == bytes@.len(),
            state == fnv_bytes(s, bytes@.subrange(0, i as int)),
        decreases n - i,
    {
        assert(bytes@.subrange(0, i as int + 1).drop_last() =~= bytes@.subrange(0, i as int));
        state = fnv_step_exec(state, bytes[i]);
        i = i + 1;
    }
    assert(bytes@.subrange(0, n as int) =~= bytes@);
    fnv_step_exec(state, 0x7c)
}

fn le_vec(n: u64, width: usize) -> (v: Vec<u8>)
    requires
        width <= 8,
    ensures
        v@ == le_bytes(n as nat, width as nat),
{
    let mut v: Vec<u8> = Vec::new();
    let mut rest: u64 = n;
    let mut i: usize = 0;
    while i < width
        invariant
            i <= width <= 8,
            v@ + le_bytes(rest as nat, (width - i) as nat) == le_bytes(n as nat, width as nat),
        decreases width - i,
    {
        let ghost before = v@;
        let ghost r = rest as nat;
        assert(le_bytes(r, (width - i) as nat) =~= seq![(r % 256) as u8] + le_bytes(r / 256, (width - i - 1) as nat));
        v.push((rest % 256) as u8);
        rest = rest / 256;
        assert(v@ =~= before + seq![(r % 256) as u8]);
        assert(v@ + le_bytes(rest as nat, (width - i - 1) as nat) =~= before + le_bytes(r, (width - i) as nat));
        i = i + 1;
    }
    assert(le_bytes(rest as nat, 0) =~= Seq::<u8>::empty());
    assert(v@ =~= v@ + Seq::<u8>::empty());
    v
}

/// The hash a waveform cache is filed under (see `cache_hash`).
pub fn cache_key(
    video_path: &str,
    track_index: u32,
    target_rate: u32,
    duration_ms: u64,
    meta: Option<(u64, Option<u64>)>,
) -> (h: u64)
    ensures
        h == cache_hash(video_path@, track_index, target_rate, duration_ms, meta),
{
    let mut s: u64 = mix_bytes(FNV_OFFSET, video_path.as_bytes());
    s = mix_bytes(s, le_vec(track_index as u64, 4).as_slice());
    s = mix_bytes(s, le_vec(target_rate as u64, 4).as_slice());
    s = mix_bytes(s, le_vec(TOTAL_WAVEFORM_POINTS as u64, 4).as_slice());
    s = mix_bytes(s, le_vec(duration_ms, 8).as_slice());
    match meta {
        None => s,
        Some((len, modified)) => {
            s = mix_bytes(s, le_vec(len, 8).as_slice());
            match modified {
                None => s,
                Some(secs) => mix_bytes(s, le_vec(secs, 8).as_slice()),
            }
        },
    }
}

/// The lowercase hexadecimal digit for `d` (`d < 16`).
pub open spec fn hex_char(d: nat) -> char {
    if d < 10 {
        ((d + 0x30) as u32) as char
    } else {
        ((d - 10 + 0x61) as u32) as char
    }
}

/// The `width` last hexadecimal digits of `n`, zero-padded.
pub open spec fn hex_digits(n: nat, width: nat) -> Seq<char>
    decreases width,
{
    if width == 0 {
        seq![]
    } else {
        hex_digits(n / 16, (width - 1) as nat).push(hex_char(n % 16))
    }
}

fn hex_digit(d: u64) -> (c: char)
    requires
        d < 16,
    ensures
        c == hex_char(d as nat),
{
    let table: [char; 16] = ['0', '1', '2', '3', '4', '5', '6', '7', '8', '9', 'a', 'b', 'c', 'd', 'e', 'f'];
    let c: char = table[d as usize];
    assert(c == hex_char(d as nat)) by {
        assert(table@ =~= seq!['0', '1', '2', '3', '4', '5', '6', '7', '8', '9', 'a', 'b', 'c', 'd', 'e', 'f']);
    }
    c
}

fn push_hex(s: &mut String, n: u64, width: usize)
    requires
        width <= 16,
    ensures
        final(s)@ == old(s)@ + hex_digits(n as nat, width as nat),
    decreases width,
{
    if width > 0 {
        push_hex(s, n / 16, width - 1);
        let c: char = hex_digit(n % 16);
        push_char(s, c);
    }
}

/// The file name of a waveform cache: `wf_1_<hash as 16 hex digits>.bin`.
pub open spec fn cache_file_name_of(hash: u64) -> Seq<char> {
    "wf_"@ + decimal(CACHE_VERSION as nat) + "_"@ + hex_digits(hash as nat, 16) + ".bin"@
}

/// The file name of the waveform cache filed under `hash`.
pub fn cache_file_name(hash: u64) -> (name: String)
    ensures
        name@ == cache_file_name_of(hash),
{
    let mut name: String = owned("wf_");
    push_decimal(&mut name, CACHE_VERSION as u128);
    push_str(&mut name, "_");
    push_hex(&mut name, hash, 16);
    push_str(&mut name, ".bin");
    name
}

/// The file name a job stages its cache in before publishing it:
/// `<cache file name>.<process id>-<job id>.part`.
pub fn part_file_name(cache_file_name: &str, process_id: u32, job_id: &str) -> (name: String)
    ensures
        name@ == cache_file_name@ + "."@ + decimal(process_id as nat) + "-"@ + job_id@ + ".part"@,
{
    let mut name: String = owned(cache_file_name);
    push_str(&mut name, ".");
    push_decimal(&mut name, process_id as u128);
    push_str(&mut name, "-");
    push_str(&mut name, job_id);
    push_str(&mut name, ".part");
    name
}

} // verus!
