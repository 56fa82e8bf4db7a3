//! Interpreting what `ffprobe` reports about a file's streams.
use vstd::prelude::*;
use crate::models::AudioTrack;
use crate::error::AppError;
use crate::mp4::{entries_of, name_of, TrackEntryView};
use crate::text::{chars_of, owned, str_equal};

verus! {

// ---------------------------------------------------------------- integer parsing

/// The value of `c` as a digit (`char::to_digit` for radix 36); 36 for a
/// character that is no digit.
pub open spec fn digit_value(c: char) -> int {
    let v = c as u32;
    if 0x30 <= v <= 0x39 {
        v - 0x30
    } else if 0x61 <= v <= 0x7a {
        v - 0x61 + 10
    } else if 0x41 <= v <= 0x5a {
        v - 0x41 + 10
    } else {
        36
    }
}

/// The value of the digits `s` in `radix`, or `None` when one is no digit.
pub open spec fn digits_value(s: Seq<char>, radix: int) -> Option<int>
    decreases s.len(),
{
    if s.len() == 0 {
        Some(0)
    } else {
        match digits_value(s.drop_last(), radix) {
            Some(v) => if digit_value(s.last()) < radix {
                Some(v * radix + digit_value(s.last()))
            } else {
                None
            },
            None => None,
        }
    }
}

/// `from_str_radix` for an unsigned type whose largest value is `max`: one
/// optional leading `+`, then at least one digit, value at most `max`.
pub open spec fn parse_unsigned(s: Seq<char>, radix: int, max: int) -> Option<int> {
    if s.len() == 0 {
        None
    } else if (s[0] == '+' || s[0] == '-') && s.len() == 1 {
        None
    } else {
        let digits = if s[0] == '+' { s.drop_first() } else { s };
        match digits_value(digits, radix) {
            Some(v) => if v <= max { Some(v) } else { None },
            None => None,
        }
    }
}

proof fn lemma_digits_value_nonneg(s: Seq<char>, radix: int)
    requires
        radix >= 2,
    ensures
        digits_value(s, radix) matches Some(v) ==> v >= 0,
    decreases s.len(),
{
    if s.len() > 0 {
        lemma_digits_value_nonneg(s.drop_last(), radix);
        if let Some(v) = digits_value(s.drop_last(), radix) {
            assert(v * radix >= 0) by (nonlinear_arith)
                requires
                    v >= 0,
                    radix >= 2,
            ;
        }
    }
}

/// Once the digits read so far exceed `max`, the whole value does too (or a
/// later character is no digit).
proof fn lemma_digits_grow(s: Seq<char>, k: int, radix: int, max: int)
    requires
        0 <= k <= s.len(),
        radix >= 2,
        max >= 0,
        digits_value(s.subrange(0, k), radix) matches Some(v) && v > max,
    ensures
        digits_value(s, radix) matches Some(w) ==> w > max,
    decreases s.len() - k,
{
    if k < s.len() {
        let t = s.subrange(0, k + 1);
        assert(t.drop_last() =~= s.subrange(0, k));
        if let Some(w) = digits_value(t, radix) {
            let v = digits_value(s.subrange(0, k), radix)->Some_0;
            assert(v * radix + digit_value(t.last()) > max) by (nonlinear_arith)
                requires
                    v > max,
                    max >= 0,
                    radix >= 2,
                    digit_value(t.last()) >= 0,
            ;
            lemma_digits_grow(s, k + 1, radix, max);
        } else {
            lemma_digits_none(s, k + 1, radix);
        }
    } else {
        assert(s.subrange(0, k) =~= s);
    }
}

proof fn lemma_digits_none(s: Seq<char>, k: int, radix: int)
    requires
        0 <= k <= s.len(),
        digits_value(s.subrange(0, k), radix) is None,
    ensures
        digits_value(s, radix) is None,
    decreases s.len() - k,
{
    if k < s.len() {
        assert(s.subrange(0, k + 1).drop_last() =~= s.subrange(0, k));
        lemma_digits_none(s, k + 1, radix);
    } else {
        assert(s.subrange(0, k) =~= s);
    }
}

/// A parsed value lies between zero and the limit.
proof fn lemma_parse_unsigned_range(s: Seq<char>, radix: int, max: int)
    requires
        radix >= 2,
    ensures
        parse_unsigned(s, radix, max) matches Some(v) ==> 0 <= v <= max,
{
    if s.len() > 0 {
        let digits = if s[0] == '+' { s.drop_first() } else { s };
        lemma_digits_value_nonneg(digits, radix);
    }
}

fn digit_of_char(c: char) -> (d: u32)
    ensures
        d == digit_value(c),
{
    let v: u32 = c as u32;
    if 0x30 <= v && v <= 0x39 {
        v - 0x30
    } else if 0x61 <= v && v <= 0x7a {
        v - 0x61 + 10
    } else if 0x41 <= v && v <= 0x5a {
        v - 0x41 + 10
    } else {
        36
    }
}

/// `from_str_radix` for unsigned integers of at most `max` (`parse` when
/// `radix` is 10).
pub fn parse_radix(s: &str, radix: u32, max: u64) -> (r: Option<u64>)
    requires
        2 <= radix <= 36,
    ensures
        match parse_unsigned(s@, radix as int, max as int) {
            Some(v) => r == Some(v as u64),
            None => r is None,
        },
        r matches Some(x) ==> x <= max,
{
    proof {
        lemma_parse_unsigned_range(s@, radix as int, max as int);
    }
    let c: Vec<char> = chars_of(s);
    let n: usize = c.len();
    if n == 0 {
        return None;
    }
    if (c[0] == '+' || c[0] == '-') && n == 1 {
        return None;
    }
    let start: usize = if c[0] == '+' { 1 } else { 0 };
    let ghost digits = if c@[0] == '+' { c@.drop_first() } else { c@ };
    assert(digits =~= c@.subrange(start as int, n as int));
    let mut v: u64 = 0;
    let mut i: usize = start;
    assert(digits.subrange(0, 0) =~= seq![]);
    while i < n
        invariant
            start <= i <= n,
            n == c@.len(),
            c@ == s@,
            n > 0,
            !((c@[0] == '+' || c@[0] == '-') && n == 1),
            start == (if c@[0] == '+' { 1int } else { 0int }),
            digits == (if c@[0] == '+' { c@.drop_first() } else { c@ }),
            digits == c@.subrange(start as int, n as int),
            2 <= radix <= 36,
            digits_value(digits.subrange(0, i - start), radix as int) == Some(v as int),
            v <= max,
        decreases n - i,
    {
        let ghost pre = digits.subrange(0, i - start);
        let ghost next = digits.subrange(0, i - start + 1);
        assert(next.drop_last() =~= pre);
        assert(next.last() == c@[i as int]);
        let d: u32 = digit_of_char(c[i]);
        if d >= radix {
            proof {
                assert(digits_value(next, radix as int) is None);
                lemma_digits_none(digits, i - start + 1, radix as int);
            }
            return None;
        }
        assert(v as int * radix as int <= 36 * 0xffff_ffff_ffff_ffffint) by (nonlinear_arith)
            requires
                v <= 0xffff_ffff_ffff_ffffu64,
                radix <= 36,
        ;
        let w: u128 = v as u128 * radix as u128 + d as u128;
        assert(digits_value(next, radix as int) == Some(w as int));
        if w > max as u128 {
            proof {
                lemma_digits_grow(digits, i - start + 1, radix as int, max as int);
            }
            return None;
        }
        v = w as u64;
        i = i + 1;
    }
    assert(digits.subrange(0, n - start) =~= digits);
    Some(v)
}

/// The stream id ffprobe prints: hexadecimal after `0x`, else decimal;
/// `None` when absent or not a `u32`.
pub open spec fn stream_id(id: Option<Seq<char>>) -> Option<u32> {
    match id {
        None => None,
        Some(s) => {
            let p = if s.len() >= 2 && s[0] == '0' && s[1] == 'x' {
                parse_unsigned(s.subrange(2, s.len() as int), 16, u32::MAX as int)
            } else {
                parse_unsigned(s, 10, u32::MAX as int)
            };
            match p {
                Some(v) => Some(v as u32),
                None => None,
            }
        },
    }
}

/// Parses a stream id: hexadecimal after a `0x` prefix, else decimal.
pub fn parse_stream_id(id_str: Option<&str>) -> (r: Option<u32>)
    ensures
        r == stream_id(match id_str { Some(s) => Some(s@), None => None }),
{
    let s: &str = match id_str {
        Some(s) => s,
        None => return None,
    };
    let c: Vec<char> = chars_of(s);
    proof {
        lemma_parse_unsigned_range(s@, 10, u32::MAX as int);
        if s@.len() >= 2 {
            lemma_parse_unsigned_range(s@.subrange(2, s@.len() as int), 16, u32::MAX as int);
        }
    }
    let p: Option<u64> = if c.len() >= 2 && c[0] == '0' && c[1] == 'x' {
        let rest: &str = s.substring_char(2, c.len());
        parse_radix(rest, 16, 0xffff_ffff)
    } else {
        parse_radix(s, 10, 0xffff_ffff)
    };
    match p {
        Some(v) => Some(v as u32),
        None => None,
    }
}

/// The bit rate in the probe output, or 0 when absent or not a `u64`.
pub fn parse_bit_rate(bit_rate: Option<&str>) -> (r: u64)
    ensures
        r == match bit_rate {
            Some(s) => match parse_unsigned(s@, 10, u64::MAX as int) {
                Some(v) => v as u64,
                None => 0,
            },
            None => 0,
        },
{
    match bit_rate {
        Some(s) => match parse_radix(s, 10, u64::MAX) {
            Some(v) => v,
            None => 0,
        },
        None => 0,
    }
}

// ---------------------------------------------------------------- streams

/// What the probe reports of one stream, in the order ffprobe lists them.
#[derive(Debug, Clone)]
pub struct ProbeStream {
    pub id: Option<String>,
    pub codec_type: String,
    pub codec_name: String,
    pub channels: Option<u32>,
    pub title: Option<String>,
}

/// An audio track as plain values: index, track id, codec, channels, name.
pub type AudioTrackView = (usize, Option<u32>, Seq<char>, u32, Option<Seq<char>>);

pub open spec fn track_view(t: AudioTrack) -> AudioTrackView {
    (t.index, t.track_id, t.codec@, t.channels, name_of(t.name))
}

pub open spec fn tracks_view(v: Seq<AudioTrack>) -> Seq<AudioTrackView> {
    v.map_values(|t: AudioTrack| track_view(t))
}

/// The track id of the audio stream at `idx`: the stream's own id, else its
/// index when that fits in a `u32`.
pub open spec fn audio_track_id(s: ProbeStream, idx: int) -> Option<u32> {
    match stream_id(name_of(s.id)) {
        Some(v) => Some(v),
        None => if 0 <= idx <= u32::MAX { Some(idx as u32) } else { None },
    }
}

/// The audio track described by the stream at `idx`; two channels when the
/// probe gives none.
pub open spec fn audio_track_of(s: ProbeStream, idx: int) -> AudioTrackView {
    (
        idx as usize,
        audio_track_id(s, idx),
        s.codec_name@,
        match s.channels { Some(c) => c, None => 2 },
        name_of(s.title),
    )
}

/// The audio tracks among the first `n` streams, in stream order.
pub open spec fn audio_tracks_upto(streams: Seq<ProbeStream>, n: int) -> Seq<AudioTrackView>
    decreases n,
{
    if n <= 0 {
        seq![]
    } else {
        let before = audio_tracks_upto(streams, n - 1);
        if streams[n - 1].codec_type@ == "audio"@ {
            before.push(audio_track_of(streams[n - 1], n - 1))
        } else {
            before
        }
    }
}

/// The audio tracks of a file, in stream order.
pub open spec fn audio_tracks(streams: Seq<ProbeStream>) -> Seq<AudioTrackView> {
    audio_tracks_upto(streams, streams.len() as int)
}

/// The audio tracks are the audio streams, in stream order: each track's
/// index names an audio stream, and the indices increase.
pub proof fn lemma_tracks_are_audio_streams(streams: Seq<ProbeStream>, n: int)
    requires
        0 <= n <= streams.len(),
        streams.len() <= usize::MAX,
    ensures
        forall|i: int| 0 <= i < audio_tracks_upto(streams, n).len() ==> {
            let k = (#[trigger] audio_tracks_upto(streams, n)[i]).0 as int;
            &&& 0 <= k < n
            &&& streams[k].codec_type@ == "audio"@
        },
        forall|i: int, j: int| 0 <= i < j < audio_tracks_upto(streams, n).len() ==>
            (#[trigger] audio_tracks_upto(streams, n)[i]).0 < (#[trigger] audio_tracks_upto(streams, n)[j]).0,
    decreases n,
{
    if n > 0 {
        lemma_tracks_are_audio_streams(streams, n - 1);
        let before = audio_tracks_upto(streams, n - 1);
        let now = audio_tracks_upto(streams, n);
        if streams[n - 1].codec_type@ == "audio"@ {
            assert(now == before.push(audio_track_of(streams[n - 1], n - 1)));
            assert(audio_track_of(streams[n - 1], n - 1).0 as int == n - 1);
            assert forall|i: int| 0 <= i < now.len() implies {
                let k = (#[trigger] now[i]).0 as int;
                &&& 0 <= k < n
                &&& streams[k].codec_type@ == "audio"@
            } by {
                if i < before.len() {
                    assert(now[i] == before[i]);
                }
            }
            assert forall|i: int, j: int| 0 <= i < j < now.len() implies (#[trigger] now[i]).0 < (#[trigger] now[j]).0 by {
                assert(now[i] == before[i]);
                if j < before.len() {
                    assert(now[j] == before[j]);
                }
            }
        } else {
            assert(now == before);
        }
    }
}

fn clone_opt(x: &Option<String>) -> (r: Option<String>)
    ensures
        name_of(r) == name_of(*x),
{
    match x {
        Some(s) => Some(s.clone()),
        None => None,
    }
}

/// The audio tracks among the streams the probe reported.
pub fn build_audio_tracks(streams: &Vec<ProbeStream>) -> (tracks: Vec<AudioTrack>)
    ensures
        tracks_view(tracks@) == audio_tracks(streams@),
{
    let mut tracks: Vec<AudioTrack> = Vec::new();
    let n: usize = streams.len();
    let mut i: usize = 0;
    while i < n
        invariant
            i <= n,
            n == streams@.len(),
            tracks_view(tracks@) == audio_tracks_upto(streams@, i as int),
        decreases n - i,
    {
        let s: &ProbeStream = &streams[i];
        if str_equal(s.codec_type.as_str(), "audio") {
            let own: Option<u32> = parse_stream_id(match &s.id {
                Some(x) => Some(x.as_str()),
                None => None,
            });
            let track_id: Option<u32> = match own {
                Some(v) => Some(v),
                None => if i <= 0xffff_ffff { Some(i as u32) } else { None },
            };
            let t = AudioTrack {
                index: i,
                track_id,
                codec: s.codec_name.clone(),
                channels: match s.channels { Some(c) => c, None => 2 },
                name: clone_opt(&s.title),
            };
            let ghost before = tracks@;
            tracks.push(t);
            assert(tracks_view(tracks@) =~= tracks_view(before).push(track_view(t)));
        }
        i = i + 1;
    }
    tracks
}

/// Where the first video stream stands among the streams.
pub open spec fn first_video(streams: Seq<ProbeStream>, n: int) -> Option<int>
    decreases n,
{
    if n <= 0 {
        None
    } else {
        match first_video(streams, n - 1) {
            Some(k) => Some(k),
            None => if streams[n - 1].codec_type@ == "video"@ { Some(n - 1) } else { None },
        }
    }
}

/// The index of the first video stream, or `InvalidVideo` when there is none.
pub fn find_video_stream(streams: &Vec<ProbeStream>) -> (r: Result<usize, AppError>)
    ensures
        match first_video(streams@, streams@.len() as int) {
            Some(k) => r == Ok::<usize, AppError>(k as usize),
            None => r matches Err(AppError::InvalidVideo(m)) && m@ == "No video stream found"@,
        },
{
    let n: usize = streams.len();
    let mut i: usize = 0;
    while i < n
        invariant
            i <= n,
            n == streams@.len(),
            first_video(streams@, i as int) is None,
        decreases n - i,
    {
        if str_equal(streams[i].codec_type.as_str(), "video") {
            proof {
                lemma_first_video_stays(streams@, i as int + 1, n as int);
            }
            return Ok(i);
        }
        i = i + 1;
    }
    Err(AppError::InvalidVideo(owned("No video stream found")))
}

proof fn lemma_first_video_stays(streams: Seq<ProbeStream>, m: int, n: int)
    requires
        0 <= m <= n,
        first_video(streams, m) is Some,
    ensures
        first_video(streams, n) == first_video(streams, m),
    decreases n - m,
{
    if m < n {
        lemma_first_video_stays(streams, m, n - 1);
    }
}

// ---------------------------------------------------------------- MP4 names

/// The name that the MP4 track table gives the track `id`: that of the first
/// entry with this id, if that entry has one.
pub open spec fn mp4_name_for(data: Seq<TrackEntryView>, id: u32) -> Option<Seq<char>>
    decreases data.len(),
{
    if data.len() == 0 {
        None
    } else if data[0].0 == Some(id) {
        data[0].1
    } else {
        mp4_name_for(data.drop_first(), id)
    }
}

/// A track after the MP4 names were applied: its name is replaced by the one
/// the track table gives its id, when there is one.
pub open spec fn renamed(t: AudioTrackView, data: Seq<TrackEntryView>) -> AudioTrackView {
    match t.1 {
        Some(id) => match mp4_name_for(data, id) {
            Some(n) => (t.0, t.1, t.2, t.3, Some(n)),
            None => t,
        },
        None => t,
    }
}

fn name_for(data: &Vec<(Option<u32>, Option<String>)>, id: u32) -> (r: Option<String>)
    ensures
        name_of(r) == mp4_name_for(entries_of(*data), id),
{
    let n: usize = data.len();
    let mut i: usize = 0;
    assert(entries_of(*data).subrange(0, n as int) =~= entries_of(*data));
    while i < n
        invariant
            i <= n,
            n == data@.len(),
            mp4_name_for(entries_of(*data), id)
                == mp4_name_for(entries_of(*data).subrange(i as int, n as int), id),
        decreases n - i,
    {
        let ghost rest = entries_of(*data).subrange(i as int, n as int);
        assert(rest.drop_first() =~= entries_of(*data).subrange(i as int + 1, n as int));
        if data[i].0 == Some(id) {
            return clone_opt(&data[i].1);
        }
        i = i + 1;
    }
    None
}

/// Gives each audio track the name that the MP4 track table holds for its id.
pub fn apply_mp4_track_names(tracks: Vec<AudioTrack>, data: &Vec<(Option<u32>, Option<String>)>) -> (r: Vec<AudioTrack>)
    ensures
        tracks_view(r@) == tracks_view(tracks@).map_values(|t: AudioTrackView| renamed(t, entries_of(*data))),
{
    let mut out: Vec<AudioTrack> = Vec::new();
    let n: usize = tracks.len();
    let mut i: usize = 0;
    while i < n
        invariant
            i <= n,
            n == tracks@.len(),
            tracks_view(out@) == tracks_view(tracks@).subrange(0, i as int).map_values(
                |t: AudioTrackView| renamed(t, entries_of(*data)),
            ),
        decreases n - i,
    {
        let t: &AudioTrack = &tracks[i];
        let name: Option<String> = match t.track_id {
            Some(id) => match name_for(data, id) {
                Some(x) => Some(x),
                None => clone_opt(&t.name),
            },
            None => clone_opt(&t.name),
        };
        let u = AudioTrack {
            index: t.index,
            track_id: t.track_id,
            codec: t.codec.clone(),
            channels: t.channels,
            name,
        };
        assert(track_view(u) == renamed(track_view(tracks@[i as int]), entries_of(*data)));
        let ghost before = out@;
        out.push(u);
        assert(tracks_view(out@) =~= tracks_view(before).push(track_view(u)));
        assert(tracks_view(tracks@)[i as int] == track_view(tracks@[i as int]));
        assert(tracks_view(out@) =~= tracks_view(tracks@).subrange(0, i as int + 1).map_values(
            |t: AudioTrackView| renamed(t, entries_of(*data)),
        ));
        i = i + 1;
    }
    assert(tracks_view(tracks@).subrange(0, n as int) =~= tracks_view(tracks@));
    out
}

/// Whether a lowercase extension is one whose container the MP4 track
/// table can be read from.
pub open spec fn mp4_like(e: Seq<char>) -> bool {
    e == "mp4"@ || e == "m4a"@ || e == "mov"@
}

/// Whether the file at `path` has an MP4-family extension (any case).
pub fn is_mp4_path(path: &str) -> (r: bool)
    ensures
        r == match crate::text::path_extension(path@) {
            Some(e) => mp4_like(crate::text::lowercase(e)),
            None => false,
        },
{
    match crate::text::file_extension(path) {
        Some(e) => {
            let l: String = crate::text::to_lowercase(e.as_str());
            str_equal(l.as_str(), "mp4") || str_equal(l.as_str(), "m4a") || str_equal(l.as_str(), "mov")
        },
        None => false,
    }
}

// ---------------------------------------------------------------- keyframes

/// The time texts of the keyframe packets, in order: packets (time, flags)
/// whose flags hold `K` and that carry a time.
pub open spec fn keyframe_time_texts(packets: Seq<(Option<String>, Option<String>)>) -> Seq<Seq<char>>
    decreases packets.len(),
{
    if packets.len() == 0 {
        seq![]
    } else {
        let before = keyframe_time_texts(packets.drop_last());
        let (time, flags) = packets.last();
        match (time, flags) {
            (Some(t), Some(f)) => if f@.contains('K') { before.push(t@) } else { before },
            _ => before,
        }
    }
}

/// The time texts of the keyframe packets that ffprobe listed (each packet
/// given as its time and flags), in order.
pub fn keyframe_times(packets: &Vec<(Option<String>, Option<String>)>) -> (r: Vec<String>)
    ensures
        crate::text::strs(r@) == keyframe_time_texts(packets@),
{
    let mut r: Vec<String> = Vec::new();
    let n: usize = packets.len();
    let mut i: usize = 0;
    while i < n
        invariant
            i <= n,
            n == packets@.len(),
            crate::text::strs(r@) == keyframe_time_texts(packets@.subrange(0, i as int)),
        decreases n - i,
    {
        assert(packets@.subrange(0, i as int + 1).drop_last() =~= packets@.subrange(0, i as int));
        let (time, flags) = (&packets[i].0, &packets[i].1);
        match (time, flags) {
            (Some(t), Some(f)) => {
                if crate::text::contains_char(f.as_str(), 'K') {
                    crate::text::push_arg(&mut r, t.as_str());
                }
            },
            _ => {},
        }
        i = i + 1;
    }
    assert(packets@.subrange(0, n as int) =~= packets@);
    r
}

} // verus!
