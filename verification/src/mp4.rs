//! MP4 box ("atom") walker that recovers the track id and the track name of
//! every `trak` inside `moov`.
//!
//! The file is seen through a window: `data` holds the bytes of the file at
//! offsets `base .. base + data.len()`. Offsets are absolute file offsets; a
//! read outside the window fails as a read past the end of the file does.
use vstd::prelude::*;
use crate::error::{AppError, is_ffprobe_error};
use crate::text::{clean, clean_text, decode_utf8_lossy, decimal, push_decimal, utf8_lossy};

verus! {

pub const MOOV: u32 = 0x6d6f6f76;
pub const TRAK: u32 = 0x7472616b;
pub const TKHD: u32 = 0x746b6864;
pub const UDTA: u32 = 0x75647461;
pub const MDIA: u32 = 0x6d646961;
pub const NAME: u32 = 0x6e616d65;
pub const META: u32 = 0x6d657461;
pub const ILST: u32 = 0x696c7374;
pub const NAM: u32 = 0xa96e616d;
pub const DATA: u32 = 0x64617461;
pub const TITL: u32 = 0x7469746c;

/// Upper bound on every container end the walker handles (`2^66`).
pub open spec fn end_bound() -> int {
    0x4_0000_0000_0000_0000
}

/// The window covers offsets below `2^64`.
pub open spec fn window_ok(data: Seq<u8>, base: int) -> bool {
    0 <= base && base + data.len() <= 0x1_0000_0000_0000_0000
}

/// `n` bytes at offset `p` lie inside the window.
pub open spec fn readable(data: Seq<u8>, base: int, p: int, n: int) -> bool {
    base <= p && p + n <= base + data.len()
}

pub open spec fn byte_at(data: Seq<u8>, base: int, p: int) -> int {
    data[p - base] as int
}

/// Big-endian 32-bit value at offset `p`.
pub open spec fn be32(data: Seq<u8>, base: int, p: int) -> int {
    byte_at(data, base, p) * 0x100_0000 + byte_at(data, base, p + 1) * 0x1_0000 + byte_at(
        data,
        base,
        p + 2,
    ) * 0x100 + byte_at(data, base, p + 3)
}

/// Big-endian 64-bit value at offset `p`.
pub open spec fn be64(data: Seq<u8>, base: int, p: int) -> int {
    be32(data, base, p) * 0x1_0000_0000 + be32(data, base, p + 4)
}

/// The `n` bytes at offset `p`.
pub open spec fn bytes_at(data: Seq<u8>, base: int, p: int, n: int) -> Seq<u8> {
    data.subrange(p - base, p - base + n)
}

/// The track name held by the `n` bytes at offset `p`: decoded lossily as
/// UTF-8, trailing NULs removed, white space trimmed.
pub open spec fn name_at(data: Seq<u8>, base: int, p: int, n: int) -> Seq<char> {
    clean_text(utf8_lossy(bytes_at(data, base, p, n)))
}

pub open spec fn eof_detail() -> Seq<char> {
    "failed to fill whole buffer"@
}

/// Distance from `pos` to `end`, or zero once `pos` has reached `end`.
pub open spec fn gap(end: int, pos: int) -> nat {
    if pos < end { (end - pos) as nat } else { 0 }
}

/// A box header: `(size, type, header size)`.
pub type HeaderView = (int, int, int);

/// The box header at `pos` inside a container that ends at `end`.
#[verifier::opaque]
pub open spec fn spec_header(data: Seq<u8>, base: int, pos: int, end: int) -> Result<HeaderView, Seq<char>> {
    if !readable(data, base, pos, 4) {
        Err("Failed to read atom size: "@ + eof_detail())
    } else if !readable(data, base, pos + 4, 4) {
        Err("Failed to read atom type: "@ + eof_detail())
    } else {
        let size32 = be32(data, base, pos);
        let kind = be32(data, base, pos + 4);
        if size32 == 1 {
            if !readable(data, base, pos + 8, 8) {
                Err("Failed to read 64-bit atom size: "@ + eof_detail())
            } else {
                let size64 = be64(data, base, pos + 8);
                if size64 == 0 {
                    Err("64-bit atom size cannot be 0"@)
                } else {
                    Ok((size64, kind, 16))
                }
            }
        } else if size32 == 0 {
            let size = end - pos;
            if size < 8 {
                Err("Invalid zero-size atom: "@ + decimal(size as nat))
            } else {
                Ok((size, kind, 8))
            }
        } else if size32 < 8 {
            Err("Invalid atom size: "@ + decimal(size32 as nat))
        } else {
            Ok((size32, kind, 8))
        }
    }
}

/// Every header read has a positive size and a header size of 8 or 16.
pub proof fn lemma_header_facts(data: Seq<u8>, base: int, pos: int, end: int)
    ensures
        spec_header(data, base, pos, end) matches Ok(h) ==> h.0 >= 1 && (h.2 == 8 || h.2 == 16)
            && 0 <= h.1 < 0x1_0000_0000,
{
    reveal(spec_header);
    if readable(data, base, pos, 8) {
        let a = byte_at(data, base, pos + 4);
        let b = byte_at(data, base, pos + 5);
        let c = byte_at(data, base, pos + 6);
        let d = byte_at(data, base, pos + 7);
        assert(0 <= a < 256 && 0 <= b < 256 && 0 <= c < 256 && 0 <= d < 256);
        assert(0 <= be32(data, base, pos + 4) < 0x1_0000_0000);
        if readable(data, base, pos + 8, 8) {
            assert(be32(data, base, pos + 8) >= 0);
            assert(be32(data, base, pos + 12) >= 0);
        }
    }
}

/// A header read inside a child loop ends the loop when its size is zero or
/// larger than its parent's.
pub open spec fn stops(h: HeaderView, parent_size: int) -> bool {
    h.0 == 0 || h.0 > parent_size
}

// ---------------------------------------------------------------- tkhd

/// Walk of the children of a `trak` (`pos .. end`) looking for `tkhd`.
pub open spec fn spec_track_id(data: Seq<u8>, base: int, parent_size: int, end: int, pos: int) -> Result<Option<u32>, Seq<char>>
    decreases gap(end, pos),
{
    if pos >= end {
        Ok(None)
    } else {
        match spec_header(data, base, pos, end) {
            Err(e) => Err(e),
            Ok(h) => {
                proof {
                    lemma_header_facts(data, base, pos, end);
                    assert(h.0 >= 1);
                } if stops(h, parent_size) {
                Ok(None)
            } else if h.1 == TKHD {
                let body = pos + h.2;
                if readable(data, base, body, 4) {
                    let time_size: int = if byte_at(data, base, body) == 1 { 8 } else { 4 };
                    let id_pos = body + 4 + 2 * time_size;
                    if readable(data, base, id_pos, 4) {
                        Ok(Some(be32(data, base, id_pos) as u32))
                    } else {
                        Ok(None)
                    }
                } else {
                    Ok(None)
                }
            } else {
                spec_track_id(data, base, parent_size, end, pos + h.0)
            }
            },
        }
    }
}

// ---------------------------------------------------------------- udta -> name

pub open spec fn spec_udta_name(data: Seq<u8>, base: int, parent_size: int, end: int, pos: int) -> Result<Option<Seq<char>>, Seq<char>>
    decreases gap(end, pos),
{
    if pos >= end {
        Ok(None)
    } else {
        match spec_header(data, base, pos, end) {
            Err(e) => Err(e),
            Ok(h) => {
                proof {
                    lemma_header_facts(data, base, pos, end);
                    assert(h.0 >= 1);
                } if stops(h, parent_size) {
                Ok(None)
            } else if h.1 == NAME && h.0 < h.2 {
                Ok(None)
            } else {
                let n = h.0 - h.2;
                if h.1 == NAME && 0 < n < 1024 && readable(data, base, pos + h.2, n) && name_at(
                    data,
                    base,
                    pos + h.2,
                    n,
                ).len() > 0 {
                    Ok(Some(name_at(data, base, pos + h.2, n)))
                } else {
                    spec_udta_name(data, base, parent_size, end, pos + h.0)
                }
            }
            },
        }
    }
}

// ---------------------------------------------------------------- udta -> titl

pub open spec fn spec_udta_title(data: Seq<u8>, base: int, parent_size: int, end: int, pos: int) -> Result<Option<Seq<char>>, Seq<char>>
    decreases gap(end, pos),
{
    if pos >= end {
        Ok(None)
    } else {
        match spec_header(data, base, pos, end) {
            Err(e) => Err(e),
            Ok(h) => {
                proof {
                    lemma_header_facts(data, base, pos, end);
                    assert(h.0 >= 1);
                } if stops(h, parent_size) {
                Ok(None)
            } else if h.1 == TITL && h.0 < h.2 + 6 {
                Ok(None)
            } else {
                let n = h.0 - (h.2 + 6);
                if h.1 == TITL && 0 < n < 1024 && readable(data, base, pos + h.2, 6) && readable(
                    data,
                    base,
                    pos + h.2 + 6,
                    n,
                ) && name_at(data, base, pos + h.2 + 6, n).len() > 0 {
                    Ok(Some(name_at(data, base, pos + h.2 + 6, n)))
                } else {
                    spec_udta_title(data, base, parent_size, end, pos + h.0)
                }
            }
            },
        }
    }
}

// ---------------------------------------------------------------- udta -> meta -> ilst -> (c)nam -> data

pub open spec fn spec_nam_data(data: Seq<u8>, base: int, parent_size: int, end: int, pos: int) -> Result<Option<Seq<char>>, Seq<char>>
    decreases gap(end, pos),
{
    if pos >= end {
        Ok(None)
    } else {
        match spec_header(data, base, pos, end) {
            Err(e) => Err(e),
            Ok(h) => {
                proof {
                    lemma_header_facts(data, base, pos, end);
                    assert(h.0 >= 1);
                } if stops(h, parent_size) {
                Ok(None)
            } else if h.1 == DATA && h.0 < h.2 + 4 {
                Ok(None)
            } else {
                let n = h.0 - (h.2 + 4);
                if h.1 == DATA && 0 < n < 1024 && readable(data, base, pos + h.2, 4) && readable(
                    data,
                    base,
                    pos + h.2 + 4,
                    n,
                ) && name_at(data, base, pos + h.2 + 4, n).len() > 0 {
                    Ok(Some(name_at(data, base, pos + h.2 + 4, n)))
                } else {
                    spec_nam_data(data, base, parent_size, end, pos + h.0)
                }
            }
            },
        }
    }
}

pub open spec fn spec_ilst_nam(data: Seq<u8>, base: int, parent_size: int, end: int, pos: int) -> Result<Option<Seq<char>>, Seq<char>>
    decreases gap(end, pos),
{
    if pos >= end {
        Ok(None)
    } else {
        match spec_header(data, base, pos, end) {
            Err(e) => Err(e),
            Ok(h) => {
                proof {
                    lemma_header_facts(data, base, pos, end);
                    assert(h.0 >= 1);
                } if stops(h, parent_size) {
                Ok(None)
            } else {
                let inner = if h.1 == NAM {
                    spec_nam_data(data, base, h.0, pos + h.0, pos + h.2)
                } else {
                    Ok(None)
                };
                match inner {
                    Err(e) => Err(e),
                    Ok(Some(n)) => Ok(Some(n)),
                    Ok(None) => spec_ilst_nam(data, base, parent_size, end, pos + h.0),
                }
            }
            },
        }
    }
}

pub open spec fn spec_meta_ilst(data: Seq<u8>, base: int, parent_size: int, end: int, pos: int) -> Result<Option<Seq<char>>, Seq<char>>
    decreases gap(end, pos),
{
    if pos >= end {
        Ok(None)
    } else {
        match spec_header(data, base, pos, end) {
            Err(e) => Err(e),
            Ok(h) => {
                proof {
                    lemma_header_facts(data, base, pos, end);
                    assert(h.0 >= 1);
                } if stops(h, parent_size) {
                Ok(None)
            } else {
                let inner = if h.1 == ILST {
                    spec_ilst_nam(data, base, h.0, pos + h.0, pos + h.2)
                } else {
                    Ok(None)
                };
                match inner {
                    Err(e) => Err(e),
                    Ok(Some(n)) => Ok(Some(n)),
                    Ok(None) => spec_meta_ilst(data, base, parent_size, end, pos + h.0),
                }
            }
            },
        }
    }
}

pub open spec fn spec_udta_meta(data: Seq<u8>, base: int, parent_size: int, end: int, pos: int) -> Result<Option<Seq<char>>, Seq<char>>
    decreases gap(end, pos),
{
    if pos >= end {
        Ok(None)
    } else {
        match spec_header(data, base, pos, end) {
            Err(e) => Err(e),
            Ok(h) => {
                proof {
                    lemma_header_facts(data, base, pos, end);
                    assert(h.0 >= 1);
                } if stops(h, parent_size) {
                Ok(None)
            } else {
                let inner = if h.1 == META {
                    spec_meta_ilst(data, base, h.0, pos + h.0, pos + h.2 + 4)
                } else {
                    Ok(None)
                };
                match inner {
                    Err(e) => Err(e),
                    Ok(Some(n)) => Ok(Some(n)),
                    Ok(None) => spec_udta_meta(data, base, parent_size, end, pos + h.0),
                }
            }
            },
        }
    }
}

/// The three ways a `udta` box (at `pos`, header `h`) may name a track, in
/// the order they are tried: `name`, `meta/ilst/(c)nam/data`, `titl`.
pub open spec fn spec_udta(data: Seq<u8>, base: int, pos: int, h: HeaderView) -> Result<Option<Seq<char>>, Seq<char>> {
    match spec_udta_name(data, base, h.0, pos + h.0, pos + h.2) {
        Err(e) => Err(e),
        Ok(Some(n)) => Ok(Some(n)),
        Ok(None) => match spec_udta_meta(data, base, h.0, pos + h.0, pos + h.2) {
            Err(e) => Err(e),
            Ok(Some(n)) => Ok(Some(n)),
            Ok(None) => spec_udta_title(data, base, h.0, pos + h.0, pos + h.2),
        },
    }
}

// ---------------------------------------------------------------- mdia -> udta

pub open spec fn spec_mdia(data: Seq<u8>, base: int, parent_size: int, end: int, pos: int) -> Result<Option<Seq<char>>, Seq<char>>
    decreases gap(end, pos),
{
    if pos >= end {
        Ok(None)
    } else {
        match spec_header(data, base, pos, end) {
            Err(e) => Err(e),
            Ok(h) => {
                proof {
                    lemma_header_facts(data, base, pos, end);
                    assert(h.0 >= 1);
                } if stops(h, parent_size) {
                Ok(None)
            } else {
                let inner = if h.1 == UDTA {
                    spec_udta(data, base, pos, h)
                } else {
                    Ok(None)
                };
                match inner {
                    Err(e) => Err(e),
                    Ok(Some(n)) => Ok(Some(n)),
                    Ok(None) => spec_mdia(data, base, parent_size, end, pos + h.0),
                }
            }
            },
        }
    }
}

// ---------------------------------------------------------------- trak name

pub open spec fn spec_trak_name(data: Seq<u8>, base: int, parent_size: int, end: int, pos: int) -> Result<Option<Seq<char>>, Seq<char>>
    decreases gap(end, pos),
{
    if pos >= end {
        Ok(None)
    } else {
        match spec_header(data, base, pos, end) {
            Err(e) => Err(e),
            Ok(h) => {
                proof {
                    lemma_header_facts(data, base, pos, end);
                    assert(h.0 >= 1);
                } if stops(h, parent_size) {
                Ok(None)
            } else {
                let from_udta = if h.1 == UDTA {
                    spec_udta(data, base, pos, h)
                } else {
                    Ok(None)
                };
                match from_udta {
                    Err(e) => Err(e),
                    Ok(Some(n)) => Ok(Some(n)),
                    Ok(None) => {
                        let from_mdia = if h.1 == MDIA {
                            spec_mdia(data, base, h.0, pos + h.0, pos + h.2)
                        } else {
                            Ok(None)
                        };
                        match from_mdia {
                            Err(e) => Err(e),
                            Ok(Some(n)) => Ok(Some(n)),
                            Ok(None) => spec_trak_name(data, base, parent_size, end, pos + h.0),
                        }
                    },
                }
            }
            },
        }
    }
}

} // verus!

verus! {

/// One entry per `trak`: its track id (from `tkhd`) and its name.
pub type TrackEntryView = (Option<u32>, Option<Seq<char>>);

// ---------------------------------------------------------------- moov and top level

/// The entry contributed by the child of `moov` at `pos` with header `h`:
/// a `trak` gives its track id and name, any other box nothing.
#[verifier::opaque]
pub open spec fn spec_moov_entry(data: Seq<u8>, base: int, pos: int, h: HeaderView) -> Result<Option<TrackEntryView>, Seq<char>> {
    if h.1 == TRAK {
        match spec_track_id(data, base, h.0, pos + h.0, pos + h.2) {
            Err(e) => Err(e),
            Ok(id) => match spec_trak_name(data, base, h.0, pos + h.0, pos + h.2) {
                Err(e) => Err(e),
                Ok(name) => Ok(Some((id, name))),
            },
        }
    } else {
        Ok(None)
    }
}

/// The `trak` boxes among the children of `moov` (`pos .. end`).
pub open spec fn spec_moov(data: Seq<u8>, base: int, end: int, pos: int) -> Result<Seq<TrackEntryView>, Seq<char>>
    decreases gap(end, pos),
{
    if pos >= end {
        Ok(seq![])
    } else {
        match spec_header(data, base, pos, end) {
            Err(e) => Err(e),
            Ok(h) => {
                proof {
                    lemma_header_facts(data, base, pos, end);
                }
                if h.0 == 0 {
                    Err("Trak size 0, infinite loop prevented"@)
                } else {
                    match spec_moov_entry(data, base, pos, h) {
                        Err(e) => Err(e),
                        Ok(entry) => match spec_moov(data, base, end, pos + h.0) {
                            Err(e) => Err(e),
                            Ok(rest) => Ok(
                                match entry {
                                    Some(t) => seq![t] + rest,
                                    None => rest,
                                },
                            ),
                        },
                    }
                }
            },
        }
    }
}

/// The outcome of one step of the top-level walk at `pos`.
pub ghost enum StepView {
    Finished,
    Next(int),
    Moov(int, HeaderView),
    Failed(Seq<char>),
}

/// One step of the top-level walk at `pos` in a file of `file_size` bytes:
/// stop at the end, fail on a bad header, stop at `moov`, else skip the box.
pub open spec fn spec_top_step(data: Seq<u8>, base: int, pos: int, file_size: int) -> StepView {
    if pos >= file_size {
        StepView::Finished
    } else {
        match spec_header(data, base, pos, file_size) {
            Err(m) => StepView::Failed(m),
            Ok(h) => if h.0 == 0 {
                StepView::Failed("Atom size resolved to 0, infinite loop prevented"@)
            } else if h.1 == MOOV {
                StepView::Moov(pos, h)
            } else {
                StepView::Next(pos + h.0)
            },
        }
    }
}

pub proof fn lemma_top_step_advances(data: Seq<u8>, base: int, pos: int, file_size: int)
    ensures
        spec_top_step(data, base, pos, file_size) matches StepView::Next(p) ==> p > pos,
        spec_top_step(data, base, pos, file_size) matches StepView::Moov(p, h) ==> p == pos && h.0
            >= 1 && (h.2 == 8 || h.2 == 16),
{
    lemma_header_facts(data, base, pos, file_size);
}

/// The walk over the top-level boxes of a file of `file_size` bytes: boxes
/// are skipped until `moov`, whose tracks are the result.
pub open spec fn spec_top(data: Seq<u8>, base: int, file_size: int, pos: int) -> Result<Seq<TrackEntryView>, Seq<char>>
    decreases gap(file_size, pos),
{
    proof {
        lemma_top_step_advances(data, base, pos, file_size);
    }
    match spec_top_step(data, base, pos, file_size) {
        StepView::Finished => Ok(seq![]),
        StepView::Failed(m) => Err(m),
        StepView::Moov(p, h) => spec_moov(data, base, p + h.0, p + h.2),
        StepView::Next(p) => if pos < file_size { spec_top(data, base, file_size, p) } else { Ok(seq![]) },
    }
}

/// The track ids and names of an MP4 file whose bytes are `data`.
pub open spec fn spec_track_names(data: Seq<u8>) -> Result<Seq<TrackEntryView>, Seq<char>> {
    spec_top(data, 0, data.len() as int, 0)
}

// ---------------------------------------------------------------- executable walker

/// A box header.
#[derive(Clone, Copy, Debug)]
pub struct AtomHeader {
    pub size: u128,
    pub atom_type: u32,
    pub header_size: u128,
}

impl AtomHeader {
    pub open spec fn view_tuple(self) -> HeaderView {
        (self.size as int, self.atom_type as int, self.header_size as int)
    }
}

/// `r` is the executable form of the specified outcome `s`, values related by `f`.
pub open spec fn outcome<T, V>(r: Result<T, AppError>, s: Result<V, Seq<char>>, f: spec_fn(T) -> V) -> bool {
    match s {
        Ok(v) => r matches Ok(x) && f(x) == v,
        Err(m) => r matches Err(e) && is_ffprobe_error(e, m),
    }
}

pub open spec fn header_of(h: AtomHeader) -> HeaderView {
    h.view_tuple()
}

pub open spec fn same_id(x: Option<u32>) -> Option<u32> {
    x
}

pub open spec fn name_of(x: Option<String>) -> Option<Seq<char>> {
    match x {
        Some(s) => Some(s@),
        None => None,
    }
}

pub open spec fn entry_of(e: (Option<u32>, Option<String>)) -> TrackEntryView {
    (e.0, name_of(e.1))
}

pub open spec fn entries_of(v: Vec<(Option<u32>, Option<String>)>) -> Seq<TrackEntryView> {
    v@.map_values(|e: (Option<u32>, Option<String>)| entry_of(e))
}

fn can_read(data: &[u8], base: u64, p: u128, n: u128) -> (b: bool)
    requires
        p <= end_bound() + 64,
        n <= end_bound(),
    ensures
        b == readable(data@, base as int, p as int, n as int),
{
    base as u128 <= p && p + n <= base as u128 + data.len() as u128
}

fn byte(data: &[u8], base: u64, p: u128) -> (b: u8)
    requires
        window_ok(data@, base as int),
        readable(data@, base as int, p as int, 1),
    ensures
        b as int == byte_at(data@, base as int, p as int),
{
    data[(p - base as u128) as usize]
}

fn read_be32(data: &[u8], base: u64, p: u128) -> (v: u32)
    requires
        window_ok(data@, base as int),
        readable(data@, base as int, p as int, 4),
    ensures
        v as int == be32(data@, base as int, p as int),
{
    let a: u32 = byte(data, base, p) as u32;
    let b: u32 = byte(data, base, p + 1) as u32;
    let c: u32 = byte(data, base, p + 2) as u32;
    let d: u32 = byte(data, base, p + 3) as u32;
    a * 0x100_0000 + b * 0x1_0000 + c * 0x100 + d
}

fn read_be64(data: &[u8], base: u64, p: u128) -> (v: u128)
    requires
        window_ok(data@, base as int),
        readable(data@, base as int, p as int, 8),
    ensures
        v as int == be64(data@, base as int, p as int),
        v < 0x1_0000_0000_0000_0000,
{
    let hi: u128 = read_be32(data, base, p) as u128;
    let lo: u128 = read_be32(data, base, p + 4) as u128;
    hi * 0x1_0000_0000 + lo
}

fn eof_error(what: &str) -> (e: AppError)
    ensures
        is_ffprobe_error(e, what@ + eof_detail()),
{
    let mut m: String = what.to_string();
    crate::text::push_str(&mut m, "failed to fill whole buffer");
    AppError::FFprobeError(m)
}

fn number_error(what: &str, n: u128) -> (e: AppError)
    ensures
        is_ffprobe_error(e, what@ + decimal(n as nat)),
{
    let mut m: String = what.to_string();
    push_decimal(&mut m, n);
    AppError::FFprobeError(m)
}

fn plain_error(what: &str) -> (e: AppError)
    ensures
        is_ffprobe_error(e, what@),
{
    AppError::FFprobeError(what.to_string())
}

/// Reads the box header at `pos` inside a container that ends at `end`.
pub fn read_atom_header(data: &[u8], base: u64, pos: u128, end: u128) -> (r: Result<AtomHeader, AppError>)
    requires
        window_ok(data@, base as int),
        pos <= end <= end_bound(),
    ensures
        outcome(r, spec_header(data@, base as int, pos as int, end as int), |h: AtomHeader| header_of(h)),
        r matches Ok(h) ==> pos + h.size <= end_bound() && pos < base + data@.len() && h.size >= 1
            && (h.header_size == 8 || h.header_size == 16),
{
    proof {
        lemma_header_facts(data@, base as int, pos as int, end as int);
        reveal(spec_header);
    }
    if !can_read(data, base, pos, 4) {
        return Err(eof_error("Failed to read atom size: "));
    }
    if !can_read(data, base, pos + 4, 4) {
        return Err(eof_error("Failed to read atom type: "));
    }
    let size32: u32 = read_be32(data, base, pos);
    let kind: u32 = read_be32(data, base, pos + 4);
    if size32 == 1 {
        if !can_read(data, base, pos + 8, 8) {
            return Err(eof_error("Failed to read 64-bit atom size: "));
        }
        let size64: u128 = read_be64(data, base, pos + 8);
        if size64 == 0 {
            return Err(plain_error("64-bit atom size cannot be 0"));
        }
        Ok(AtomHeader { size: size64, atom_type: kind, header_size: 16 })
    } else if size32 == 0 {
        let size: u128 = end - pos;
        if size < 8 {
            return Err(number_error("Invalid zero-size atom: ", size));
        }
        Ok(AtomHeader { size, atom_type: kind, header_size: 8 })
    } else if size32 < 8 {
        Err(number_error("Invalid atom size: ", size32 as u128))
    } else {
        Ok(AtomHeader { size: size32 as u128, atom_type: kind, header_size: 8 })
    }
}

/// The name held by the `n` bytes at `p`.
fn name_from(data: &[u8], base: u64, p: u128, n: u128) -> (s: String)
    requires
        window_ok(data@, base as int),
        readable(data@, base as int, p as int, n as int),
        n < 1024,
    ensures
        s@ == name_at(data@, base as int, p as int, n as int),
{
    let len: usize = data.len();
    let i: usize = (p - base as u128) as usize;
    let j: usize = i + n as usize;
    let raw: &[u8] = &data[i..j];
    assert(raw@ =~= bytes_at(data@, base as int, p as int, n as int));
    let decoded: String = decode_utf8_lossy(raw);
    clean(decoded.as_str())
}

} // verus!

verus! {

/// Requirements shared by the child walks: the window fits below `2^64` and
/// positions stay below `2^66`.
pub open spec fn walk_ok(data: Seq<u8>, base: int, end: int, start: int) -> bool {
    window_ok(data, base) && end <= end_bound() && start <= end_bound()
}

/// Looks for `tkhd` among the children of a `trak` and returns its track id.
pub fn extract_track_id(data: &[u8], base: u64, parent_size: u128, end: u128, start: u128) -> (r: Result<Option<u32>, AppError>)
    requires
        walk_ok(data@, base as int, end as int, start as int),
    ensures
        outcome(r, spec_track_id(data@, base as int, parent_size as int, end as int, start as int), |x: Option<u32>| same_id(x)),
{
    let mut pos: u128 = start;
    while pos < end
        invariant
            walk_ok(data@, base as int, end as int, pos as int),
            spec_track_id(data@, base as int, parent_size as int, end as int, start as int)
                == spec_track_id(data@, base as int, parent_size as int, end as int, pos as int),
        decreases gap(end as int, pos as int),
    {
        let h: AtomHeader = match read_atom_header(data, base, pos, end) {
            Ok(h) => h,
            Err(e) => return Err(e),
        };
        if h.size == 0 || h.size > parent_size {
            return Ok(None);
        }
        if h.atom_type == TKHD {
            let body: u128 = pos + h.header_size;
            if can_read(data, base, body, 4) {
                let version: u8 = byte(data, base, body);
                let time_size: u128 = if version == 1 { 8 } else { 4 };
                let id_pos: u128 = body + 4 + 2 * time_size;
                if can_read(data, base, id_pos, 4) {
                    let id: u32 = read_be32(data, base, id_pos);
                    return Ok(Some(id));
                }
            }
            return Ok(None);
        }
        pos = pos + h.size;
    }
    Ok(None)
}

/// Path `udta -> name`: the text after the header of a `name` child.
pub fn try_udta_name(data: &[u8], base: u64, parent_size: u128, end: u128, start: u128) -> (r: Result<Option<String>, AppError>)
    requires
        walk_ok(data@, base as int, end as int, start as int),
    ensures
        outcome(r, spec_udta_name(data@, base as int, parent_size as int, end as int, start as int), |x: Option<String>| name_of(x)),
{
    let mut pos: u128 = start;
    while pos < end
        invariant
            walk_ok(data@, base as int, end as int, pos as int),
            spec_udta_name(data@, base as int, parent_size as int, end as int, start as int)
                == spec_udta_name(data@, base as int, parent_size as int, end as int, pos as int),
        decreases gap(end as int, pos as int),
    {
        let h: AtomHeader = match read_atom_header(data, base, pos, end) {
            Ok(h) => h,
            Err(e) => return Err(e),
        };
        if h.size == 0 || h.size > parent_size {
            return Ok(None);
        }
        if h.atom_type == NAME {
            if h.size < h.header_size {
                return Ok(None);
            }
            let n: u128 = h.size - h.header_size;
            if n > 0 && n < 1024 && can_read(data, base, pos + h.header_size, n) {
                let name: String = name_from(data, base, pos + h.header_size, n);
                if !name.as_str().is_empty() {
                    return Ok(Some(name));
                }
            }
        }
        pos = pos + h.size;
    }
    Ok(None)
}

/// Path `udta -> titl`: version/flags and a language code, then the text.
pub fn try_udta_title(data: &[u8], base: u64, parent_size: u128, end: u128, start: u128) -> (r: Result<Option<String>, AppError>)
    requires
        walk_ok(data@, base as int, end as int, start as int),
    ensures
        outcome(r, spec_udta_title(data@, base as int, parent_size as int, end as int, start as int), |x: Option<String>| name_of(x)),
{
    let mut pos: u128 = start;
    while pos < end
        invariant
            walk_ok(data@, base as int, end as int, pos as int),
            spec_udta_title(data@, base as int, parent_size as int, end as int, start as int)
                == spec_udta_title(data@, base as int, parent_size as int, end as int, pos as int),
        decreases gap(end as int, pos as int),
    {
        let h: AtomHeader = match read_atom_header(data, base, pos, end) {
            Ok(h) => h,
            Err(e) => return Err(e),
        };
        if h.size == 0 || h.size > parent_size {
            return Ok(None);
        }
        if h.atom_type == TITL {
            let skip: u128 = h.header_size + 6;
            if h.size < skip {
                return Ok(None);
            }
            let n: u128 = h.size - skip;
            if n > 0 && n < 1024 && can_read(data, base, pos + h.header_size, 6) && can_read(
                data,
                base,
                pos + skip,
                n,
            ) {
                let name: String = name_from(data, base, pos + skip, n);
                if !name.as_str().is_empty() {
                    return Ok(Some(name));
                }
            }
        }
        pos = pos + h.size;
    }
    Ok(None)
}

/// The `data` children of a `(c)nam` item.
fn nam_data(data: &[u8], base: u64, parent_size: u128, end: u128, start: u128) -> (r: Result<Option<String>, AppError>)
    requires
        walk_ok(data@, base as int, end as int, start as int),
    ensures
        outcome(r, spec_nam_data(data@, base as int, parent_size as int, end as int, start as int), |x: Option<String>| name_of(x)),
{
    let mut pos: u128 = start;
    while pos < end
        invariant
            walk_ok(data@, base as int, end as int, pos as int),
            spec_nam_data(data@, base as int, parent_size as int, end as int, start as int)
                == spec_nam_data(data@, base as int, parent_size as int, end as int, pos as int),
        decreases gap(end as int, pos as int),
    {
        let h: AtomHeader = match read_atom_header(data, base, pos, end) {
            Ok(h) => h,
            Err(e) => return Err(e),
        };
        if h.size == 0 || h.size > parent_size {
            return Ok(None);
        }
        if h.atom_type == DATA {
            let skip: u128 = h.header_size + 4;
            if h.size < skip {
                return Ok(None);
            }
            let n: u128 = h.size - skip;
            if n > 0 && n < 1024 && can_read(data, base, pos + h.header_size, 4) && can_read(
                data,
                base,
                pos + skip,
                n,
            ) {
                let name: String = name_from(data, base, pos + skip, n);
                if !name.as_str().is_empty() {
                    return Ok(Some(name));
                }
            }
        }
        pos = pos + h.size;
    }
    Ok(None)
}

/// The `(c)nam` items of an `ilst`.
fn ilst_nam(data: &[u8], base: u64, parent_size: u128, end: u128, start: u128) -> (r: Result<Option<String>, AppError>)
    requires
        walk_ok(data@, base as int, end as int, start as int),
    ensures
        outcome(r, spec_ilst_nam(data@, base as int, parent_size as int, end as int, start as int), |x: Option<String>| name_of(x)),
{
    let mut pos: u128 = start;
    while pos < end
        invariant
            walk_ok(data@, base as int, end as int, pos as int),
            spec_ilst_nam(data@, base as int, parent_size as int, end as int, start as int)
                == spec_ilst_nam(data@, base as int, parent_size as int, end as int, pos as int),
        decreases gap(end as int, pos as int),
    {
        let h: AtomHeader = match read_atom_header(data, base, pos, end) {
            Ok(h) => h,
            Err(e) => return Err(e),
        };
        if h.size == 0 || h.size > parent_size {
            return Ok(None);
        }
        if h.atom_type == NAM {
            match nam_data(data, base, h.size, pos + h.size, pos + h.header_size) {
                Err(e) => return Err(e),
                Ok(Some(n)) => return Ok(Some(n)),
                Ok(None) => {},
            }
        }
        pos = pos + h.size;
    }
    Ok(None)
}

/// The `ilst` children of a `meta`.
fn meta_ilst(data: &[u8], base: u64, parent_size: u128, end: u128, start: u128) -> (r: Result<Option<String>, AppError>)
    requires
        walk_ok(data@, base as int, end as int, start as int),
    ensures
        outcome(r, spec_meta_ilst(data@, base as int, parent_size as int, end as int, start as int), |x: Option<String>| name_of(x)),
{
    let mut pos: u128 = start;
    while pos < end
        invariant
            walk_ok(data@, base as int, end as int, pos as int),
            spec_meta_ilst(data@, base as int, parent_size as int, end as int, start as int)
                == spec_meta_ilst(data@, base as int, parent_size as int, end as int, pos as int),
        decreases gap(end as int, pos as int),
    {
        let h: AtomHeader = match read_atom_header(data, base, pos, end) {
            Ok(h) => h,
            Err(e) => return Err(e),
        };
        if h.size == 0 || h.size > parent_size {
            return Ok(None);
        }
        if h.atom_type == ILST {
            match ilst_nam(data, base, h.size, pos + h.size, pos + h.header_size) {
                Err(e) => return Err(e),
                Ok(Some(n)) => return Ok(Some(n)),
                Ok(None) => {},
            }
        }
        pos = pos + h.size;
    }
    Ok(None)
}

/// Path `udta -> meta -> ilst -> (c)nam -> data`.
pub fn try_udta_meta_ilst_nam(data: &[u8], base: u64, parent_size: u128, end: u128, start: u128) -> (r: Result<Option<String>, AppError>)
    requires
        walk_ok(data@, base as int, end as int, start as int),
    ensures
        outcome(r, spec_udta_meta(data@, base as int, parent_size as int, end as int, start as int), |x: Option<String>| name_of(x)),
{
    let mut pos: u128 = start;
    while pos < end
        invariant
            walk_ok(data@, base as int, end as int, pos as int),
            spec_udta_meta(data@, base as int, parent_size as int, end as int, start as int)
                == spec_udta_meta(data@, base as int, parent_size as int, end as int, pos as int),
        decreases gap(end as int, pos as int),
    {
        let h: AtomHeader = match read_atom_header(data, base, pos, end) {
            Ok(h) => h,
            Err(e) => return Err(e),
        };
        if h.size == 0 || h.size > parent_size {
            return Ok(None);
        }
        if h.atom_type == META {
            match meta_ilst(data, base, h.size, pos + h.size, pos + h.header_size + 4) {
                Err(e) => return Err(e),
                Ok(Some(n)) => return Ok(Some(n)),
                Ok(None) => {},
            }
        }
        pos = pos + h.size;
    }
    Ok(None)
}

/// Tries the three `udta` paths in order for the `udta` box at `pos`.
fn udta_name(data: &[u8], base: u64, pos: u128, h: AtomHeader) -> (r: Result<Option<String>, AppError>)
    requires
        window_ok(data@, base as int),
        pos + h.size <= end_bound(),
        pos < 0x1_0000_0000_0000_0000,
        h.header_size <= 16,
    ensures
        outcome(r, spec_udta(data@, base as int, pos as int, header_of(h)), |x: Option<String>| name_of(x)),
{
    let end: u128 = pos + h.size;
    let start: u128 = pos + h.header_size;
    match try_udta_name(data, base, h.size, end, start) {
        Err(e) => return Err(e),
        Ok(Some(n)) => return Ok(Some(n)),
        Ok(None) => {},
    }
    match try_udta_meta_ilst_nam(data, base, h.size, end, start) {
        Err(e) => return Err(e),
        Ok(Some(n)) => return Ok(Some(n)),
        Ok(None) => {},
    }
    try_udta_title(data, base, h.size, end, start)
}

/// Path `trak -> mdia -> udta`.
pub fn parse_mdia_udta(data: &[u8], base: u64, parent_size: u128, end: u128, start: u128) -> (r: Result<Option<String>, AppError>)
    requires
        walk_ok(data@, base as int, end as int, start as int),
    ensures
        outcome(r, spec_mdia(data@, base as int, parent_size as int, end as int, start as int), |x: Option<String>| name_of(x)),
{
    let mut pos: u128 = start;
    while pos < end
        invariant
            walk_ok(data@, base as int, end as int, pos as int),
            spec_mdia(data@, base as int, parent_size as int, end as int, start as int)
                == spec_mdia(data@, base as int, parent_size as int, end as int, pos as int),
        decreases gap(end as int, pos as int),
    {
        let h: AtomHeader = match read_atom_header(data, base, pos, end) {
            Ok(h) => h,
            Err(e) => return Err(e),
        };
        if h.size == 0 || h.size > parent_size {
            return Ok(None);
        }
        if h.atom_type == UDTA {
            match udta_name(data, base, pos, h) {
                Err(e) => return Err(e),
                Ok(Some(n)) => return Ok(Some(n)),
                Ok(None) => {},
            }
        }
        pos = pos + h.size;
    }
    Ok(None)
}

/// The name of the `trak` whose children are `start .. end`.
pub fn parse_trak_name(data: &[u8], base: u64, parent_size: u128, end: u128, start: u128) -> (r: Result<Option<String>, AppError>)
    requires
        walk_ok(data@, base as int, end as int, start as int),
    ensures
        outcome(r, spec_trak_name(data@, base as int, parent_size as int, end as int, start as int), |x: Option<String>| name_of(x)),
{
    let mut pos: u128 = start;
    while pos < end
        invariant
            walk_ok(data@, base as int, end as int, pos as int),
            spec_trak_name(data@, base as int, parent_size as int, end as int, start as int)
                == spec_trak_name(data@, base as int, parent_size as int, end as int, pos as int),
        decreases gap(end as int, pos as int),
    {
        let h: AtomHeader = match read_atom_header(data, base, pos, end) {
            Ok(h) => h,
            Err(e) => return Err(e),
        };
        if h.size == 0 || h.size > parent_size {
            return Ok(None);
        }
        if h.atom_type == UDTA {
            match udta_name(data, base, pos, h) {
                Err(e) => return Err(e),
                Ok(Some(n)) => return Ok(Some(n)),
                Ok(None) => {},
            }
        }
        if h.atom_type == MDIA {
            match parse_mdia_udta(data, base, h.size, pos + h.size, pos + h.header_size) {
                Err(e) => return Err(e),
                Ok(Some(n)) => return Ok(Some(n)),
                Ok(None) => {},
            }
        }
        pos = pos + h.size;
    }
    Ok(None)
}

} // verus!

verus! {

/// The entry of the child of `moov` at `pos` with header `h`.
fn moov_entry(data: &[u8], base: u64, pos: u128, h: AtomHeader) -> (r: Result<Option<(Option<u32>, Option<String>)>, AppError>)
    requires
        window_ok(data@, base as int),
        pos + h.size <= end_bound(),
        pos < 0x1_0000_0000_0000_0000,
        h.header_size <= 16,
    ensures
        outcome(r, spec_moov_entry(data@, base as int, pos as int, header_of(h)), |x: Option<(Option<u32>, Option<String>)>| match x { Some(t) => Some(entry_of(t)), None => None }),
{
    proof {
        reveal(spec_moov_entry);
    }
    if h.atom_type == TRAK {
        let track_id: Option<u32> = match extract_track_id(data, base, h.size, pos + h.size, pos + h.header_size) {
            Ok(id) => id,
            Err(e) => return Err(e),
        };
        let track_name: Option<String> = match parse_trak_name(data, base, h.size, pos + h.size, pos + h.header_size) {
            Ok(n) => n,
            Err(e) => return Err(e),
        };
        Ok(Some((track_id, track_name)))
    } else {
        Ok(None)
    }
}

/// The walk of `moov` is `acc` followed by the walk from `pos` on.
pub open spec fn moov_progress(data: Seq<u8>, base: int, end: int, start: int, pos: int, acc: Seq<TrackEntryView>) -> bool {
    match spec_moov(data, base, end, pos) {
        Ok(rest) => spec_moov(data, base, end, start) == Ok::<Seq<TrackEntryView>, Seq<char>>(acc + rest),
        Err(m) => spec_moov(data, base, end, start) == Err::<Seq<TrackEntryView>, Seq<char>>(m),
    }
}

/// The track id and name of every `trak` inside the `moov` box that starts
/// at `moov_pos` with header `moov`.
pub fn parse_moov_tracks(data: &[u8], base: u64, moov_pos: u128, moov: AtomHeader) -> (r: Result<Vec<(Option<u32>, Option<String>)>, AppError>)
    requires
        window_ok(data@, base as int),
        moov_pos + moov.size <= end_bound(),
        moov_pos < 0x1_0000_0000_0000_0000,
        moov.header_size <= 16,
    ensures
        outcome(r, spec_moov(data@, base as int, moov_pos + moov.size, moov_pos + moov.header_size), |v: Vec<(Option<u32>, Option<String>)>| entries_of(v)),
{
    let end: u128 = moov_pos + moov.size;
    let start: u128 = moov_pos + moov.header_size;
    let mut tracks: Vec<(Option<u32>, Option<String>)> = Vec::new();
    let mut pos: u128 = start;
    proof {
        assert(entries_of(tracks) =~= seq![]);
        match spec_moov(data@, base as int, end as int, pos as int) {
            Ok(rest) => { assert(seq![] + rest =~= rest); },
            Err(m) => {},
        }
    }
    while pos < end
        invariant
            walk_ok(data@, base as int, end as int, pos as int),
            moov_progress(data@, base as int, end as int, start as int, pos as int, entries_of(tracks)),
            end == moov_pos + moov.size,
            start == moov_pos + moov.header_size,
        decreases gap(end as int, pos as int),
    {
        let ghost here = spec_moov(data@, base as int, end as int, pos as int);
        let h: AtomHeader = match read_atom_header(data, base, pos, end) {
            Ok(h) => h,
            Err(e) => {
                proof {
                    let m = spec_header(data@, base as int, pos as int, end as int)->Err_0;
                    assert(here == Err::<Seq<TrackEntryView>, Seq<char>>(m));
                }
                return Err(e);
            },
        };
        if h.size == 0 {
            return Err(plain_error("Trak size 0, infinite loop prevented"));
        }
        let entry = match moov_entry(data, base, pos, h) {
            Ok(x) => x,
            Err(e) => {
                proof {
                    let m = spec_moov_entry(data@, base as int, pos as int, header_of(h))->Err_0;
                    assert(here == Err::<Seq<TrackEntryView>, Seq<char>>(m));
                }
                return Err(e);
            },
        };
        let ghost before = entries_of(tracks);
        let ghost next = (pos + h.size) as int;
        match entry {
            Some(t) => {
                tracks.push(t);
                proof {
                    assert(entries_of(tracks) =~= before.push(entry_of(t)));
                    match spec_moov(data@, base as int, end as int, next) {
                        Ok(rest) => {
                            assert(before + (seq![entry_of(t)] + rest) =~= entries_of(tracks) + rest);
                        },
                        Err(m) => {},
                    }
                }
            },
            None => {},
        }
        pos = pos + h.size;
    }
    proof {
        assert(entries_of(tracks) + seq![] =~= entries_of(tracks));
    }
    Ok(tracks)
}

/// What to do after looking at the top-level box at some position.
#[derive(Debug)]
pub enum TopLevelStep {
    /// The position is at or past the end of the file: there is no `moov`.
    Finished,
    /// Skip to the next top-level box at this position.
    Next(u128),
    /// The `moov` box starts at this position with this header.
    Moov(u128, AtomHeader),
    /// The walk stops with this error.
    Failed(AppError),
}

/// `s` is the executable form of the step outcome `v`.
pub open spec fn step_matches(s: TopLevelStep, v: StepView) -> bool {
    match v {
        StepView::Finished => s is Finished,
        StepView::Next(p) => s matches TopLevelStep::Next(q) && q == p,
        StepView::Moov(p, h) => s matches TopLevelStep::Moov(q, mh) && q == p && header_of(mh) == h,
        StepView::Failed(m) => s matches TopLevelStep::Failed(e) && is_ffprobe_error(e, m),
    }
}

/// Examines the top-level box at `pos` of a file of `file_size` bytes; the
/// window only needs to cover the (at most 16) header bytes at `pos`.
pub fn top_level_step(data: &[u8], base: u64, pos: u128, file_size: u64) -> (s: TopLevelStep)
    requires
        window_ok(data@, base as int),
        pos <= end_bound(),
    ensures
        step_matches(s, spec_top_step(data@, base as int, pos as int, file_size as int)),
        s matches TopLevelStep::Moov(p, h) ==> p + h.size <= end_bound() && p < 0x1_0000_0000_0000_0000 && h.header_size <= 16,
        s matches TopLevelStep::Next(p) ==> pos < p <= end_bound(),
{
    if pos >= file_size as u128 {
        return TopLevelStep::Finished;
    }
    let h: AtomHeader = match read_atom_header(data, base, pos, file_size as u128) {
        Ok(h) => h,
        Err(e) => return TopLevelStep::Failed(e),
    };
    if h.size == 0 {
        return TopLevelStep::Failed(plain_error("Atom size resolved to 0, infinite loop prevented"));
    }
    if h.atom_type == MOOV {
        TopLevelStep::Moov(pos, h)
    } else {
        TopLevelStep::Next(pos + h.size)
    }
}

/// The track id and name of every track of the MP4 file whose bytes are
/// `data`: top-level boxes are skipped until `moov`, whose `trak` children
/// are read; a file without `moov` has no tracks.
#[verifier::rlimit(60)]
pub fn extract_mp4_track_names(data: &[u8]) -> (r: Result<Vec<(Option<u32>, Option<String>)>, AppError>)
    requires
        data@.len() <= u64::MAX,
    ensures
        outcome(r, spec_track_names(data@), |v: Vec<(Option<u32>, Option<String>)>| entries_of(v)),
{
    let file_size: u64 = data.len() as u64;
    let mut pos: u128 = 0;
    loop
        invariant
            window_ok(data@, 0),
            file_size == data@.len(),
            pos <= end_bound(),
            spec_track_names(data@) == spec_top(data@, 0, file_size as int, pos as int),
        decreases gap(end_bound() + 1, pos as int),
    {
        match top_level_step(data, 0, pos, file_size) {
            TopLevelStep::Finished => {
                let v: Vec<(Option<u32>, Option<String>)> = Vec::new();
                assert(entries_of(v) =~= seq![]);
                return Ok(v);
            },
            TopLevelStep::Failed(e) => {
                return Err(e);
            },
            TopLevelStep::Moov(p, h) => {
                return parse_moov_tracks(data, 0, p, h);
            },
            TopLevelStep::Next(p) => {
                pos = p;
            },
        }
    }
}

} // verus!

verus! {

/// Reading a box header needs only the (at most) 16 bytes at its position:
/// the header read from a window holding just those bytes is the header read
/// from the whole file, and so is the top-level step taken on it.
pub proof fn lemma_header_window(data: Seq<u8>, base: int, pos: int, end: int)
    requires
        base <= pos <= base + data.len(),
    ensures
        ({
            let lo = pos - base;
            let hi = if lo + 16 <= data.len() { lo + 16 } else { data.len() as int };
            let w = data.subrange(lo, hi);
            &&& spec_header(w, pos, pos, end) == spec_header(data, base, pos, end)
            &&& spec_top_step(w, pos, pos, end) == spec_top_step(data, base, pos, end)
        }),
{
    reveal(spec_header);
    let lo = pos - base;
    let hi = if lo + 16 <= data.len() { lo + 16 } else { data.len() as int };
    let w = data.subrange(lo, hi);
    assert forall|p: int, n: int| pos <= p && p + n <= pos + 16 implies readable(w, pos, p, n) == readable(data, base, p, n) by {}
    assert forall|p: int| pos <= p < pos + 16 && readable(data, base, p, 1) implies byte_at(w, pos, p) == byte_at(data, base, p) by {}
    if readable(data, base, pos, 8) {
        assert(be32(w, pos, pos) == be32(data, base, pos));
        assert(be32(w, pos, pos + 4) == be32(data, base, pos + 4));
        if readable(data, base, pos + 8, 8) {
            assert(be64(w, pos, pos + 8) == be64(data, base, pos + 8));
        }
    }
}

} // verus!

verus! {

/// The part of the window from offset `p` on, as a window starting at `p`.
pub open spec fn suffix_window(data: Seq<u8>, base: int, p: int) -> Seq<u8> {
    data.subrange(p - base, data.len() as int)
}

proof fn lemma_suffix_reads(data: Seq<u8>, base: int, p: int)
    requires
        base <= p <= base + data.len(),
    ensures
        forall|q: int, n: int| p <= q ==> #[trigger] readable(suffix_window(data, base, p), p, q, n) == readable(data, base, q, n),
        forall|q: int| p <= q && readable(data, base, q, 1) ==> #[trigger] byte_at(suffix_window(data, base, p), p, q) == byte_at(data, base, q),
        forall|q: int, n: int| p <= q && 0 <= n && readable(data, base, q, n) ==> #[trigger] bytes_at(suffix_window(data, base, p), p, q, n) == bytes_at(data, base, q, n),
{
    let s = suffix_window(data, base, p);
    assert forall|q: int, n: int| p <= q && 0 <= n && readable(data, base, q, n) implies #[trigger] bytes_at(s, p, q, n) == bytes_at(data, base, q, n) by {
        assert(bytes_at(s, p, q, n) =~= bytes_at(data, base, q, n));
    }
}

proof fn lemma_suffix_header(data: Seq<u8>, base: int, p: int, pos: int, end: int)
    requires
        base <= p <= base + data.len(),
        p <= pos,
    ensures
        spec_header(suffix_window(data, base, p), p, pos, end) == spec_header(data, base, pos, end),
{
    reveal(spec_header);
    lemma_suffix_reads(data, base, p);
    let s = suffix_window(data, base, p);
    if readable(data, base, pos, 8) {
        assert(readable(data, base, pos, 1) && readable(data, base, pos + 1, 1));
        assert(readable(data, base, pos + 2, 1) && readable(data, base, pos + 3, 1));
        assert(readable(data, base, pos + 4, 1) && readable(data, base, pos + 5, 1));
        assert(readable(data, base, pos + 6, 1) && readable(data, base, pos + 7, 1));
        assert(be32(s, p, pos) == be32(data, base, pos));
        assert(be32(s, p, pos + 4) == be32(data, base, pos + 4));
        if readable(data, base, pos + 8, 8) {
            assert(readable(data, base, pos + 8, 1) && readable(data, base, pos + 9, 1));
            assert(readable(data, base, pos + 10, 1) && readable(data, base, pos + 11, 1));
            assert(readable(data, base, pos + 12, 1) && readable(data, base, pos + 13, 1));
            assert(readable(data, base, pos + 14, 1) && readable(data, base, pos + 15, 1));
            assert(be64(s, p, pos + 8) == be64(data, base, pos + 8));
        }
    }
}

proof fn lemma_suffix_track_id(data: Seq<u8>, base: int, p: int, parent_size: int, end: int, pos: int)
    requires
        base <= p <= base + data.len(),
        p <= pos,
    ensures
        spec_track_id(suffix_window(data, base, p), p, parent_size, end, pos) == spec_track_id(data, base, parent_size, end, pos),
    decreases gap(end, pos),
{
    if pos < end {
        lemma_suffix_header(data, base, p, pos, end);
        lemma_header_facts(data, base, pos, end);
        lemma_suffix_reads(data, base, p);
        if let Ok(h) = spec_header(data, base, pos, end) {
            let body = pos + h.2;
            if readable(data, base, body, 4) {
                assert(readable(data, base, body, 1));
                let time_size: int = if byte_at(data, base, body) == 1 { 8 } else { 4 };
                let id = body + 4 + 2 * time_size;
                if readable(data, base, id, 4) {
                    assert(readable(data, base, id, 1) && readable(data, base, id + 1, 1));
                    assert(readable(data, base, id + 2, 1) && readable(data, base, id + 3, 1));
                }
            }
            if !stops(h, parent_size) && h.1 != TKHD {
                lemma_suffix_track_id(data, base, p, parent_size, end, pos + h.0);
            }
        }
    }
}

proof fn lemma_suffix_udta_name(data: Seq<u8>, base: int, p: int, parent_size: int, end: int, pos: int)
    requires
        base <= p <= base + data.len(),
        p <= pos,
    ensures
        spec_udta_name(suffix_window(data, base, p), p, parent_size, end, pos) == spec_udta_name(data, base, parent_size, end, pos),
    decreases gap(end, pos),
{
    if pos < end {
        lemma_suffix_header(data, base, p, pos, end);
        lemma_header_facts(data, base, pos, end);
        lemma_suffix_reads(data, base, p);
        if let Ok(h) = spec_header(data, base, pos, end) {
            if !stops(h, parent_size) {
                lemma_suffix_udta_name(data, base, p, parent_size, end, pos + h.0);
            }
        }
    }
}

proof fn lemma_suffix_udta_title(data: Seq<u8>, base: int, p: int, parent_size: int, end: int, pos: int)
    requires
        base <= p <= base + data.len(),
        p <= pos,
    ensures
        spec_udta_title(suffix_window(data, base, p), p, parent_size, end, pos) == spec_udta_title(data, base, parent_size, end, pos),
    decreases gap(end, pos),
{
    if pos < end {
        lemma_suffix_header(data, base, p, pos, end);
        lemma_header_facts(data, base, pos, end);
        lemma_suffix_reads(data, base, p);
        if let Ok(h) = spec_header(data, base, pos, end) {
            if !stops(h, parent_size) {
                lemma_suffix_udta_title(data, base, p, parent_size, end, pos + h.0);
            }
        }
    }
}

proof fn lemma_suffix_nam_data(data: Seq<u8>, base: int, p: int, parent_size: int, end: int, pos: int)
    requires
        base <= p <= base + data.len(),
        p <= pos,
    ensures
        spec_nam_data(suffix_window(data, base, p), p, parent_size, end, pos) == spec_nam_data(data, base, parent_size, end, pos),
    decreases gap(end, pos),
{
    if pos < end {
        lemma_suffix_header(data, base, p, pos, end);
        lemma_header_facts(data, base, pos, end);
        lemma_suffix_reads(data, base, p);
        if let Ok(h) = spec_header(data, base, pos, end) {
            if !stops(h, parent_size) {
                lemma_suffix_nam_data(data, base, p, parent_size, end, pos + h.0);
            }
        }
    }
}

proof fn lemma_suffix_ilst_nam(data: Seq<u8>, base: int, p: int, parent_size: int, end: int, pos: int)
    requires
        base <= p <= base + data.len(),
        p <= pos,
    ensures
        spec_ilst_nam(suffix_window(data, base, p), p, parent_size, end, pos) == spec_ilst_nam(data, base, parent_size, end, pos),
    decreases gap(end, pos),
{
    if pos < end {
        lemma_suffix_header(data, base, p, pos, end);
        lemma_header_facts(data, base, pos, end);
        if let Ok(h) = spec_header(data, base, pos, end) {
            if !stops(h, parent_size) {
                lemma_suffix_nam_data(data, base, p, h.0, pos + h.0, pos + h.2);
                lemma_suffix_ilst_nam(data, base, p, parent_size, end, pos + h.0);
            }
        }
    }
}

proof fn lemma_suffix_meta_ilst(data: Seq<u8>, base: int, p: int, parent_size: int, end: int, pos: int)
    requires
        base <= p <= base + data.len(),
        p <= pos,
    ensures
        spec_meta_ilst(suffix_window(data, base, p), p, parent_size, end, pos) == spec_meta_ilst(data, base, parent_size, end, pos),
    decreases gap(end, pos),
{
    if pos < end {
        lemma_suffix_header(data, base, p, pos, end);
        lemma_header_facts(data, base, pos, end);
        if let Ok(h) = spec_header(data, base, pos, end) {
            if !stops(h, parent_size) {
                lemma_suffix_ilst_nam(data, base, p, h.0, pos + h.0, pos + h.2);
                lemma_suffix_meta_ilst(data, base, p, parent_size, end, pos + h.0);
            }
        }
    }
}

proof fn lemma_suffix_udta_meta(data: Seq<u8>, base: int, p: int, parent_size: int, end: int, pos: int)
    requires
        base <= p <= base + data.len(),
        p <= pos,
    ensures
        spec_udta_meta(suffix_window(data, base, p), p, parent_size, end, pos) == spec_udta_meta(data, base, parent_size, end, pos),
    decreases gap(end, pos),
{
    if pos < end {
        lemma_suffix_header(data, base, p, pos, end);
        lemma_header_facts(data, base, pos, end);
        if let Ok(h) = spec_header(data, base, pos, end) {
            if !stops(h, parent_size) {
                lemma_suffix_meta_ilst(data, base, p, h.0, pos + h.0, pos + h.2 + 4);
                lemma_suffix_udta_meta(data, base, p, parent_size, end, pos + h.0);
            }
        }
    }
}

proof fn lemma_suffix_udta(data: Seq<u8>, base: int, p: int, pos: int, h: HeaderView)
    requires
        base <= p <= base + data.len(),
        p <= pos,
        h.2 >= 0,
    ensures
        spec_udta(suffix_window(data, base, p), p, pos, h) == spec_udta(data, base, pos, h),
{
    lemma_suffix_udta_name(data, base, p, h.0, pos + h.0, pos + h.2);
    lemma_suffix_udta_meta(data, base, p, h.0, pos + h.0, pos + h.2);
    lemma_suffix_udta_title(data, base, p, h.0, pos + h.0, pos + h.2);
}

proof fn lemma_suffix_mdia(data: Seq<u8>, base: int, p: int, parent_size: int, end: int, pos: int)
    requires
        base <= p <= base + data.len(),
        p <= pos,
    ensures
        spec_mdia(suffix_window(data, base, p), p, parent_size, end, pos) == spec_mdia(data, base, parent_size, end, pos),
    decreases gap(end, pos),
{
    if pos < end {
        lemma_suffix_header(data, base, p, pos, end);
        lemma_header_facts(data, base, pos, end);
        if let Ok(h) = spec_header(data, base, pos, end) {
            if !stops(h, parent_size) {
                lemma_suffix_udta(data, base, p, pos, h);
                lemma_suffix_mdia(data, base, p, parent_size, end, pos + h.0);
            }
        }
    }
}

proof fn lemma_suffix_trak_name(data: Seq<u8>, base: int, p: int, parent_size: int, end: int, pos: int)
    requires
        base <= p <= base + data.len(),
        p <= pos,
    ensures
        spec_trak_name(suffix_window(data, base, p), p, parent_size, end, pos) == spec_trak_name(data, base, parent_size, end, pos),
    decreases gap(end, pos),
{
    if pos < end {
        lemma_suffix_header(data, base, p, pos, end);
        lemma_header_facts(data, base, pos, end);
        if let Ok(h) = spec_header(data, base, pos, end) {
            if !stops(h, parent_size) {
                lemma_suffix_udta(data, base, p, pos, h);
                lemma_suffix_mdia(data, base, p, h.0, pos + h.0, pos + h.2);
                lemma_suffix_trak_name(data, base, p, parent_size, end, pos + h.0);
            }
        }
    }
}

proof fn lemma_suffix_moov(data: Seq<u8>, base: int, p: int, end: int, pos: int)
    requires
        base <= p <= base + data.len(),
        p <= pos,
    ensures
        spec_moov(suffix_window(data, base, p), p, end, pos) == spec_moov(data, base, end, pos),
    decreases gap(end, pos),
{
    if pos < end {
        lemma_suffix_header(data, base, p, pos, end);
        lemma_header_facts(data, base, pos, end);
        if let Ok(h) = spec_header(data, base, pos, end) {
            if h.0 != 0 {
                reveal(spec_moov_entry);
                lemma_suffix_track_id(data, base, p, h.0, pos + h.0, pos + h.2);
                lemma_suffix_trak_name(data, base, p, h.0, pos + h.0, pos + h.2);
                lemma_suffix_moov(data, base, p, end, pos + h.0);
            }
        }
    }
}

/// The `moov` box is read only from its start on: once the top-level walk
/// has found `moov` at `p`, reading the file from `p` to its end gives the
/// tracks that reading the whole file gives.
pub proof fn lemma_moov_read_from_its_start(data: Seq<u8>, pos: int)
    requires
        0 <= pos,
        spec_top_step(data, 0, pos, data.len() as int) is Moov,
    ensures
        ({
            let (p, h) = match spec_top_step(data, 0, pos, data.len() as int) {
                StepView::Moov(p, h) => (p, h),
                _ => (0, (0, 0, 0)),
            };
            &&& p == pos
            &&& spec_top(data, 0, data.len() as int, pos)
                == spec_moov(suffix_window(data, 0, p), p, p + h.0, p + h.2)
        }),
{
    lemma_top_step_advances(data, 0, pos, data.len() as int);
    if let StepView::Moov(p, h) = spec_top_step(data, 0, pos, data.len() as int) {
        lemma_suffix_moov(data, 0, p, p + h.0, p + h.2);
    }
}

} // verus!
