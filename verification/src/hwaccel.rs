//! Hardware capabilities reported by FFmpeg and the encoder, decoder and
//! hardware-acceleration choices made from them.
use vstd::prelude::*;
use crate::text::{owned, str_equal, strs};

verus! {

/// The encoders, decoders and hardware-acceleration methods an FFmpeg build
/// offers. Each list is read as a set of names.
pub struct HwCapabilities {
    pub encoders: Vec<String>,
    pub decoders: Vec<String>,
    pub hwaccels: Vec<String>,
}

/// `names` holds `name`.
pub open spec fn lists(names: Seq<String>, name: Seq<char>) -> bool {
    strs(names).contains(name)
}

pub fn list_contains(names: &Vec<String>, name: &str) -> (r: bool)
    ensures
        r == lists(names@, name@),
{
    let mut i: usize = 0;
    while i < names.len()
        invariant
            i <= names@.len(),
            forall|j: int| 0 <= j < i ==> names@[j]@ != name@,
        decreases names@.len() - i,
    {
        if str_equal(names[i].as_str(), name) {
            assert(strs(names@)[i as int] == name@);
            return true;
        }
        i = i + 1;
    }
    proof {
        if strs(names@).contains(name@) {
            let k = choose|k: int| 0 <= k < strs(names@).len() && strs(names@)[k] == name@;
            assert(names@[k]@ == name@);
        }
    }
    false
}

impl HwCapabilities {
    pub open spec fn offers_encoder(&self, name: Seq<char>) -> bool {
        lists(self.encoders@, name)
    }

    pub open spec fn offers_decoder(&self, name: Seq<char>) -> bool {
        lists(self.decoders@, name)
    }

    pub open spec fn offers_hwaccel(&self, name: Seq<char>) -> bool {
        lists(self.hwaccels@, name)
    }

    /// The encoder is offered.
    pub fn has_encoder(&self, encoder: &str) -> (r: bool)
        ensures
            r == self.offers_encoder(encoder@),
    {
        list_contains(&self.encoders, encoder)
    }

    /// The decoder is offered.
    pub fn has_decoder(&self, decoder: &str) -> (r: bool)
        ensures
            r == self.offers_decoder(decoder@),
    {
        list_contains(&self.decoders, decoder)
    }

    /// The hardware-acceleration method is offered.
    pub fn has_hwaccel(&self, hwaccel: &str) -> (r: bool)
        ensures
            r == self.offers_hwaccel(hwaccel@),
    {
        list_contains(&self.hwaccels, hwaccel)
    }
}

/// A hardware-acceleration method for decoding.
#[derive(Debug, Clone, Copy, PartialEq, Eq, Structural)]
pub enum HwAccelType {
    Cuda,
    D3d11va,
    Dxva2,
    Off,
}

/// The preferred available method: CUDA, then D3D11VA, then DXVA2, else none.
pub fn select_hwaccel(caps: &HwCapabilities) -> (t: HwAccelType)
    ensures
        t == if caps.offers_hwaccel("cuda"@) {
            HwAccelType::Cuda
        } else if caps.offers_hwaccel("d3d11va"@) {
            HwAccelType::D3d11va
        } else if caps.offers_hwaccel("dxva2"@) {
            HwAccelType::Dxva2
        } else {
            HwAccelType::Off
        },
{
    if caps.has_hwaccel("cuda") {
        HwAccelType::Cuda
    } else if caps.has_hwaccel("d3d11va") {
        HwAccelType::D3d11va
    } else if caps.has_hwaccel("dxva2") {
        HwAccelType::Dxva2
    } else {
        HwAccelType::Off
    }
}

/// The encoders worth trying for a source codec, best first.
pub open spec fn encoder_candidates(codec: Seq<char>) -> Seq<Seq<char>> {
    if codec == "h264"@ {
        seq!["h264_nvenc"@, "libx264"@]
    } else if codec == "hevc"@ || codec == "h265"@ {
        seq!["hevc_nvenc"@, "libx265"@]
    } else if codec == "av1"@ {
        seq!["av1_nvenc"@, "libsvtav1"@]
    } else if codec == "vp9"@ {
        seq!["libvpx-vp9"@]
    } else if codec == "vp8"@ {
        seq!["libvpx"@]
    } else {
        seq!["libx264"@]
    }
}

/// The decoders worth trying for a source codec, best first.
pub open spec fn decoder_candidates(codec: Seq<char>) -> Seq<Seq<char>> {
    if codec == "h264"@ {
        seq!["h264_cuvid"@]
    } else if codec == "hevc"@ || codec == "h265"@ {
        seq!["hevc_cuvid"@]
    } else if codec == "av1"@ {
        seq!["av1_cuvid"@, "libdav1d"@]
    } else if codec == "vp9"@ {
        seq!["vp9_cuvid"@]
    } else {
        seq![]
    }
}

/// The candidates, in order, that `names` offers.
pub open spec fn offered(cands: Seq<Seq<char>>, names: Seq<String>) -> Seq<Seq<char>>
    decreases cands.len(),
{
    if cands.len() == 0 {
        seq![]
    } else {
        let rest = offered(cands.drop_last(), names);
        if lists(names, cands.last()) {
            rest.push(cands.last())
        } else {
            rest
        }
    }
}

fn candidate_encoders(codec: &str) -> (v: Vec<&'static str>)
    ensures
        v@.map_values(|s: &str| s@) == encoder_candidates(codec@),
{
    let v: Vec<&'static str> = if str_equal(codec, "h264") {
        vec!["h264_nvenc", "libx264"]
    } else if str_equal(codec, "hevc") || str_equal(codec, "h265") {
        vec!["hevc_nvenc", "libx265"]
    } else if str_equal(codec, "av1") {
        vec!["av1_nvenc", "libsvtav1"]
    } else if str_equal(codec, "vp9") {
        vec!["libvpx-vp9"]
    } else if str_equal(codec, "vp8") {
        vec!["libvpx"]
    } else {
        vec!["libx264"]
    };
    assert(v@.map_values(|s: &str| s@) =~= encoder_candidates(codec@));
    v
}

fn candidate_decoders(codec: &str) -> (v: Vec<&'static str>)
    ensures
        v@.map_values(|s: &str| s@) == decoder_candidates(codec@),
{
    let v: Vec<&'static str> = if str_equal(codec, "h264") {
        vec!["h264_cuvid"]
    } else if str_equal(codec, "hevc") || str_equal(codec, "h265") {
        vec!["hevc_cuvid"]
    } else if str_equal(codec, "av1") {
        vec!["av1_cuvid", "libdav1d"]
    } else if str_equal(codec, "vp9") {
        vec!["vp9_cuvid"]
    } else {
        vec![]
    };
    assert(v@.map_values(|s: &str| s@) =~= decoder_candidates(codec@));
    v
}

/// The candidates that `names` offers, in candidate order.
fn keep_offered(cands: &Vec<&'static str>, names: &Vec<String>) -> (r: Vec<String>)
    ensures
        strs(r@) == offered(cands@.map_values(|s: &str| s@), names@),
{
    let ghost c = cands@.map_values(|s: &str| s@);
    let mut r: Vec<String> = Vec::new();
    let mut i: usize = 0;
    while i < cands.len()
        invariant
            i <= cands@.len(),
            c == cands@.map_values(|s: &str| s@),
            strs(r@) == offered(c.subrange(0, i as int), names@),
        decreases cands@.len() - i,
    {
        let name: &str = cands[i];
        let ghost before = r@;
        proof {
            assert(c.subrange(0, i + 1).drop_last() =~= c.subrange(0, i as int));
            assert(c.subrange(0, i + 1).last() == name@);
        }
        if list_contains(names, name) {
            let s: String = owned(name);
            r.push(s);
            proof {
                crate::text::lemma_strs_push(before, s);
            }
        }
        i = i + 1;
    }
    assert(c.subrange(0, cands@.len() as int) =~= c);
    r
}

/// Encoders to try for `codec`, best first: the candidates the build offers,
/// or `libx264` alone when it offers none of them.
pub fn get_encoder_fallback_chain(codec: &str, caps: &HwCapabilities) -> (chain: Vec<String>)
    ensures
        strs(chain@) == if offered(encoder_candidates(codec@), caps.encoders@).len() == 0 {
            seq!["libx264"@]
        } else {
            offered(encoder_candidates(codec@), caps.encoders@)
        },
        strs(chain@) == encoder_chain(codec@, caps.encoders@),
{
    let cands: Vec<&'static str> = candidate_encoders(codec);
    let mut chain: Vec<String> = keep_offered(&cands, &caps.encoders);
    if chain.len() == 0 {
        let s: String = owned("libx264");
        chain.push(s);
        assert(strs(chain@) =~= seq!["libx264"@]);
    }
    chain
}

/// The names of `v`, `None` kept as `None`.
pub open spec fn opt_strs(v: Seq<Option<String>>) -> Seq<Option<Seq<char>>> {
    v.map_values(|o: Option<String>| match o { Some(s) => Some(s@), None => None })
}

/// Decoders to try for `codec`: the candidate hardware decoders the build
/// offers, then `None` (FFmpeg's default decoder).
pub fn get_decoder_fallback_chain(codec: &str, caps: &HwCapabilities) -> (chain: Vec<Option<String>>)
    ensures
        opt_strs(chain@) == offered(decoder_candidates(codec@), caps.decoders@).map_values(
            |s: Seq<char>| Some(s),
        ).push(None),
{
    let cands: Vec<&'static str> = candidate_decoders(codec);
    let names: Vec<String> = keep_offered(&cands, &caps.decoders);
    let ghost target = strs(names@).map_values(|s: Seq<char>| Some(s));
    let mut chain: Vec<Option<String>> = Vec::new();
    let mut i: usize = 0;
    while i < names.len()
        invariant
            i <= names@.len(),
            target == strs(names@).map_values(|s: Seq<char>| Some(s)),
            opt_strs(chain@) =~= target.subrange(0, i as int),
        decreases names@.len() - i,
    {
        let s: String = owned(names[i].as_str());
        let ghost before = chain@;
        chain.push(Some(s));
        proof {
            assert(opt_strs(chain@) =~= opt_strs(before).push(Some(s@)));
            assert(target[i as int] == Some(strs(names@)[i as int]));
            assert(target.subrange(0, i + 1) =~= target.subrange(0, i as int).push(target[i as int]));
        }
        i = i + 1;
    }
    assert(target.subrange(0, names@.len() as int) =~= target);
    let ghost before = chain@;
    chain.push(None);
    assert(opt_strs(chain@) =~= opt_strs(before).push(None));
    assert(opt_strs(chain@) =~= target.push(None));
    chain
}

/// The FFmpeg arguments that request a hardware-acceleration method.
pub open spec fn hwaccel_args(hwaccel: HwAccelType) -> Seq<Seq<char>> {
    match hwaccel {
        HwAccelType::Cuda => seq!["-hwaccel"@, "cuda"@, "-hwaccel_output_format"@, "cuda"@],
        HwAccelType::D3d11va => seq!["-hwaccel"@, "d3d11va"@],
        HwAccelType::Dxva2 => seq!["-hwaccel"@, "dxva2"@],
        HwAccelType::Off => seq![],
    }
}

/// The FFmpeg arguments that request a hardware-acceleration method.
pub fn build_hwaccel_args(hwaccel: &HwAccelType) -> (args: Vec<String>)
    ensures
        strs(args@) == hwaccel_args(*hwaccel),
{
    let args: Vec<String> = match hwaccel {
        HwAccelType::Cuda => vec![owned("-hwaccel"), owned("cuda"), owned("-hwaccel_output_format"), owned("cuda")],
        HwAccelType::D3d11va => vec![owned("-hwaccel"), owned("d3d11va")],
        HwAccelType::Dxva2 => vec![owned("-hwaccel"), owned("dxva2")],
        HwAccelType::Off => vec![],
    };
    assert(strs(args@) =~= hwaccel_args(*hwaccel));
    args
}

/// Every name the filter keeps is a candidate that the build lists, and
/// the kept names keep the candidates' order.
pub proof fn lemma_offered_are_listed(cands: Seq<Seq<char>>, names: Seq<String>)
    ensures
        offered(cands, names).len() <= cands.len(),
        forall|i: int| 0 <= i < offered(cands, names).len() ==> {
            &&& lists(names, #[trigger] offered(cands, names)[i])
            &&& cands.contains(offered(cands, names)[i])
        },
    decreases cands.len(),
{
    if cands.len() > 0 {
        lemma_offered_are_listed(cands.drop_last(), names);
        let rest = offered(cands.drop_last(), names);
        assert forall|i: int| 0 <= i < offered(cands, names).len() implies {
            &&& lists(names, #[trigger] offered(cands, names)[i])
            &&& cands.contains(offered(cands, names)[i])
        } by {
            if i < rest.len() {
                assert(offered(cands, names)[i] == rest[i]);
                let k = choose|k: int| 0 <= k < cands.drop_last().len() && cands.drop_last()[k] == rest[i];
                assert(cands[k] == rest[i]);
            } else {
                assert(offered(cands, names)[i] == cands.last());
                assert(cands[cands.len() - 1] == cands.last());
            }
        }
    }
}

/// The encoder chain is never empty: it holds the offered candidates for
/// the codec, each listed by the build, or else `libx264` alone.
pub proof fn lemma_encoder_chain_usable(codec: Seq<char>, encoders: Seq<String>)
    ensures
        ({
            let o = offered(encoder_candidates(codec), encoders);
            let chain = if o.len() == 0 { seq!["libx264"@] } else { o };
            &&& chain.len() > 0
            &&& forall|i: int| 0 <= i < chain.len() ==> lists(encoders, #[trigger] chain[i]) || chain == seq!["libx264"@]
        }),
{
    lemma_offered_are_listed(encoder_candidates(codec), encoders);
}

/// The decoder chain always ends with FFmpeg's default decoder, after the
/// offered hardware decoders.
pub proof fn lemma_decoder_chain_ends_in_software(codec: Seq<char>, decoders: Seq<String>)
    ensures
        ({
            let chain = offered(decoder_candidates(codec), decoders).map_values(|s: Seq<char>| Some(s)).push(None);
            &&& chain.len() > 0
            &&& chain.last() is None
            &&& forall|i: int| 0 <= i < chain.len() - 1 ==> (#[trigger] chain[i]) is Some && lists(decoders, chain[i]->0)
        }),
{
    lemma_offered_are_listed(decoder_candidates(codec), decoders);
}

/// The encoder chain for `codec` given the encoders a build lists.
pub open spec fn encoder_chain(codec: Seq<char>, encoders: Seq<String>) -> Seq<Seq<char>> {
    let o = offered(encoder_candidates(codec), encoders);
    if o.len() == 0 { seq!["libx264"@] } else { o }
}

/// The codec an encoder that the application knows writes: the NVENC and
/// software encoders of H.264, HEVC and AV1, and the VP9 and VP8 encoders.
pub open spec fn encoder_codec(e: Seq<char>) -> Option<Seq<char>> {
    if e == "h264_nvenc"@ || e == "libx264"@ {
        Some("h264"@)
    } else if e == "hevc_nvenc"@ || e == "libx265"@ {
        Some("hevc"@)
    } else if e == "av1_nvenc"@ || e == "libsvtav1"@ {
        Some("av1"@)
    } else if e == "libvpx-vp9"@ {
        Some("vp9"@)
    } else if e == "libvpx"@ {
        Some("vp8"@)
    } else {
        None
    }
}

/// A source codec name, with `h265` read as `hevc`.
pub open spec fn codec_family(codec: Seq<char>) -> Seq<char> {
    if codec == "h265"@ { "hevc"@ } else { codec }
}

/// An NVIDIA hardware encoder: its name ends in `_nvenc`.
pub open spec fn is_nvenc(e: Seq<char>) -> bool {
    e.len() >= 6 && e.subrange(e.len() - 6, e.len() as int) == "_nvenc"@
}

/// A name is among the filtered candidates exactly when it is a candidate
/// that the build lists.
pub proof fn lemma_offered_contains(cands: Seq<Seq<char>>, names: Seq<String>, e: Seq<char>)
    ensures
        offered(cands, names).contains(e) <==> cands.contains(e) && lists(names, e),
    decreases cands.len(),
{
    if cands.len() > 0 {
        lemma_offered_contains(cands.drop_last(), names, e);
        let rest = offered(cands.drop_last(), names);
        if cands.drop_last().contains(e) {
            let k = choose|k: int| 0 <= k < cands.drop_last().len() && cands.drop_last()[k] == e;
            assert(cands[k] == e);
        }
        if cands.contains(e) && e != cands.last() {
            let k = choose|k: int| 0 <= k < cands.len() && cands[k] == e;
            assert(k < cands.len() - 1);
            assert(cands.drop_last()[k] == e);
        }
        if lists(names, cands.last()) {
            assert(offered(cands, names) == rest.push(cands.last()));
            assert(offered(cands, names)[rest.len() as int] == cands.last());
            if rest.contains(e) {
                let k = choose|k: int| 0 <= k < rest.len() && rest[k] == e;
                assert(offered(cands, names)[k] == e);
            }
            if offered(cands, names).contains(e) && e != cands.last() {
                let k = choose|k: int| 0 <= k < offered(cands, names).len() && offered(cands, names)[k] == e;
                assert(rest[k] == e);
            }
        }
        assert(cands[cands.len() - 1] == cands.last());
    }
}

/// Filtering keeps distinct candidates distinct.
proof fn lemma_offered_distinct(cands: Seq<Seq<char>>, names: Seq<String>)
    requires
        forall|i: int, j: int| 0 <= i < j < cands.len() ==> cands[i] != cands[j],
    ensures
        forall|i: int, j: int| 0 <= i < j < offered(cands, names).len() ==> offered(cands, names)[i] != offered(
            cands,
            names,
        )[j],
    decreases cands.len(),
{
    if cands.len() > 0 {
        let init = cands.drop_last();
        lemma_offered_distinct(init, names);
        let rest = offered(init, names);
        lemma_offered_contains(init, names, cands.last());
        if init.contains(cands.last()) {
            let k = choose|k: int| 0 <= k < init.len() && init[k] == cands.last();
            assert(cands[k] == cands[cands.len() - 1]);
        }
        if lists(names, cands.last()) {
            let o = offered(cands, names);
            assert(o == rest.push(cands.last()));
            assert forall|i: int, j: int| 0 <= i < j < o.len() implies o[i] != o[j] by {
                if j == rest.len() {
                    assert(o[i] == rest[i]);
                    assert(rest.contains(rest[i]));
                }
            }
        }
    }
}

/// When the build lists the first candidate, it heads the filtered list.
proof fn lemma_offered_first(cands: Seq<Seq<char>>, names: Seq<String>)
    requires
        cands.len() > 0,
        lists(names, cands[0]),
    ensures
        offered(cands, names).len() > 0,
        offered(cands, names)[0] == cands[0],
    decreases cands.len(),
{
    if cands.len() == 1 {
        assert(cands.drop_last().len() == 0);
        assert(cands.last() == cands[0]);
    } else {
        assert(cands.drop_last()[0] == cands[0]);
        lemma_offered_first(cands.drop_last(), names);
    }
}

/// The codec and encoder names that the chain rules use are all different.
pub proof fn lemma_names_distinct()
    ensures
        "h264"@ != "hevc"@, "h264"@ != "h265"@, "hevc"@ != "h265"@,
        "h264"@.len() == 4, "hevc"@.len() == 4, "h265"@.len() == 4,
        "av1"@.len() == 3, "vp9"@.len() == 3, "vp8"@.len() == 3,
        "av1"@ != "vp9"@, "av1"@ != "vp8"@, "vp9"@ != "vp8"@,
        "h264_nvenc"@ != "hevc_nvenc"@, "h264_nvenc"@ != "libvpx-vp9"@, "hevc_nvenc"@ != "libvpx-vp9"@,
        "h264_nvenc"@.len() == 10, "hevc_nvenc"@.len() == 10, "libvpx-vp9"@.len() == 10,
        "av1_nvenc"@ != "libsvtav1"@, "av1_nvenc"@.len() == 9, "libsvtav1"@.len() == 9,
        "libx264"@ != "libx265"@, "libx264"@.len() == 7, "libx265"@.len() == 7,
        "libvpx"@.len() == 6,
        is_nvenc("h264_nvenc"@), is_nvenc("hevc_nvenc"@), is_nvenc("av1_nvenc"@),
        !is_nvenc("libx264"@), !is_nvenc("libx265"@), !is_nvenc("libsvtav1"@), !is_nvenc("libvpx-vp9"@),
        !is_nvenc("libvpx"@),
{
    reveal_strlit("h264");
    reveal_strlit("hevc");
    reveal_strlit("h265");
    reveal_strlit("av1");
    reveal_strlit("vp9");
    reveal_strlit("vp8");
    reveal_strlit("h264_nvenc");
    reveal_strlit("libx264");
    reveal_strlit("hevc_nvenc");
    reveal_strlit("libx265");
    reveal_strlit("av1_nvenc");
    reveal_strlit("libsvtav1");
    reveal_strlit("libvpx-vp9");
    reveal_strlit("libvpx");
    reveal_strlit("_nvenc");
    assert("h264"@[1] != "hevc"@[1]);
    assert("h264"@[3] != "h265"@[3]);
    assert("hevc"@[1] != "h265"@[1]);
    assert("av1"@[0] != "vp9"@[0]);
    assert("av1"@[0] != "vp8"@[0]);
    assert("vp9"@[2] != "vp8"@[2]);
    assert("h264_nvenc"@[1] != "hevc_nvenc"@[1]);
    assert("h264_nvenc"@[0] != "libvpx-vp9"@[0]);
    assert("hevc_nvenc"@[0] != "libvpx-vp9"@[0]);
    assert("av1_nvenc"@[0] != "libsvtav1"@[0]);
    assert("libx264"@[6] != "libx265"@[6]);
    assert("h264_nvenc"@.subrange(4, 10) =~= "_nvenc"@);
    assert("hevc_nvenc"@.subrange(4, 10) =~= "_nvenc"@);
    assert("av1_nvenc"@.subrange(3, 9) =~= "_nvenc"@);
    assert("libx264"@.subrange(1, 7)[0] != "_nvenc"@[0]);
    assert("libx265"@.subrange(1, 7)[0] != "_nvenc"@[0]);
    assert("libsvtav1"@.subrange(3, 9)[0] != "_nvenc"@[0]);
    assert("libvpx-vp9"@.subrange(4, 10)[0] != "_nvenc"@[0]);
    assert("libvpx"@.subrange(0, 6)[0] != "_nvenc"@[0]);
}

/// Which encoders write which codec.
pub proof fn lemma_encoder_codec_inverse(e: Seq<char>)
    ensures
        encoder_codec(e) == Some("h264"@) <==> e == "h264_nvenc"@ || e == "libx264"@,
        encoder_codec(e) == Some("hevc"@) <==> e == "hevc_nvenc"@ || e == "libx265"@,
        encoder_codec(e) == Some("av1"@) <==> e == "av1_nvenc"@ || e == "libsvtav1"@,
        encoder_codec(e) == Some("vp9"@) <==> e == "libvpx-vp9"@,
        encoder_codec(e) == Some("vp8"@) <==> e == "libvpx"@,
        encoder_codec(e) is Some ==> encoder_codec(e) == Some("h264"@) || encoder_codec(e) == Some("hevc"@)
            || encoder_codec(e) == Some("av1"@) || encoder_codec(e) == Some("vp9"@) || encoder_codec(e) == Some("vp8"@),
{
    lemma_names_distinct();
}

/// What the encoder chain is for: re-encoded parts must be in the source's
/// codec, so that they join the copied middle. Every encoder of the chain
/// writes the source codec, except `libx264` alone when the build offers
/// none that does; every encoder the build offers that writes the source
/// codec is in the chain; an offered NVENC encoder for it comes first; and
/// no encoder is tried twice.
pub proof fn lemma_encoder_chain_keeps_codec(codec: Seq<char>, encoders: Seq<String>, e: Seq<char>)
    ensures
        forall|i: int| 0 <= i < encoder_chain(codec, encoders).len() ==>
            encoder_codec(#[trigger] encoder_chain(codec, encoders)[i]) == Some(codec_family(codec))
            || encoder_chain(codec, encoders) == seq!["libx264"@],
        lists(encoders, e) && encoder_codec(e) == Some(codec_family(codec)) ==> encoder_chain(codec, encoders).contains(e),
        lists(encoders, e) && encoder_codec(e) == Some(codec_family(codec)) && is_nvenc(e) ==>
            encoder_chain(codec, encoders)[0] == e,
        forall|i: int, j: int| 0 <= i < j < encoder_chain(codec, encoders).len() ==> encoder_chain(codec, encoders)[i]
            != encoder_chain(codec, encoders)[j],
{
    lemma_names_distinct();
    let cands = encoder_candidates(codec);
    let o = offered(cands, encoders);
    lemma_offered_are_listed(cands, encoders);
    lemma_offered_contains(cands, encoders, e);
    let known = codec == "h264"@ || codec == "hevc"@ || codec == "h265"@ || codec == "av1"@ || codec == "vp9"@
        || codec == "vp8"@;
    if codec == "h264"@ {
        assert(cands == seq!["h264_nvenc"@, "libx264"@]);
        assert(codec_family(codec) == "h264"@);
    } else if codec == "hevc"@ || codec == "h265"@ {
        assert(cands == seq!["hevc_nvenc"@, "libx265"@]);
        assert(codec_family(codec) == "hevc"@);
    } else if codec == "av1"@ {
        assert(cands == seq!["av1_nvenc"@, "libsvtav1"@]);
        assert(codec_family(codec) == "av1"@);
    } else if codec == "vp9"@ {
        assert(cands == seq!["libvpx-vp9"@]);
    } else if codec == "vp8"@ {
        assert(cands == seq!["libvpx"@]);
    } else {
        assert(cands == seq!["libx264"@]);
        assert(codec_family(codec) == codec);
    }
    lemma_offered_distinct(cands, encoders);
    if o.len() == 0 {
        assert(encoder_chain(codec, encoders) == seq!["libx264"@]);
    } else {
        assert forall|i: int| 0 <= i < o.len() implies
            encoder_codec(#[trigger] o[i]) == Some(codec_family(codec)) || o == seq!["libx264"@] by {
            assert(cands.contains(o[i]));
            let k = choose|k: int| 0 <= k < cands.len() && cands[k] == o[i];
            lemma_encoder_codec_inverse(o[i]);
            if !known {
                assert(o.len() <= 1);
                assert(o =~= seq!["libx264"@]);
            }
        }
    }
    if lists(encoders, e) && encoder_codec(e) == Some(codec_family(codec)) {
        lemma_encoder_codec_inverse(e);
        if !known {
            assert(codec_family(codec) == codec);
            assert(false);
        }
        if codec == "h264"@ || codec == "hevc"@ || codec == "h265"@ || codec == "av1"@ {
            assert(cands[0] == e || cands[1] == e);
        } else {
            assert(cands[0] == e);
        }
        assert(cands.contains(e));
        assert(o.contains(e));
        if is_nvenc(e) {
            assert(e == cands[0]);
            lemma_offered_first(cands, encoders);
        }
    }
}
} // verus!
