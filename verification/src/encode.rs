//! The encode pipeline: from the bytes of a source waveform file to the bytes
//! of a container. The waveform is parsed, each channel's samples are cut
//! into analysis windows, each window is transformed and its strongest
//! components selected, and everything is quantized and serialized.
//!
//! Every decision of the pipeline — which inputs are rejected, with which
//! error, and the exact header the container carries — is mirrored by
//! [`spec_encode_outcome`], and the function is proved to follow it; the bytes
//! produced are exactly [`container_bytes`] of that header and some record
//! matrix of the announced shape whose bins all lie inside the window.
use vstd::prelude::*;
use vstd::arithmetic::power2::is_pow2;
use crate::bytes::le32_at;
use crate::coeff::{Component, Numerics};
use crate::quant::{StoredComponent, spec_storage_of_code, storage_of_code, record_size,
    quantize_component};
use crate::container::{Header, header_wf, channels_wf, container_bytes, chans_view,
    write_container, spec_expected_len};
use crate::riff::{RiffChunk, parse_tree, tree_view, tree_data, tree_kids, find_kid, fmt_tag,
    data_tag, chunk_inv, lemma_find_kid_match, lemma_find_kid_none};
use crate::select::{encode_chunk, spec_bin_limit};
use crate::fft::MAX_WINDOW;
use crate::CodecError;

verus! {

/// The caller-supplied configuration of one encode: window length, retained
/// components per window, and the on-disk storage code (1 narrow, 2 wide).
#[derive(Clone, Copy, Debug, PartialEq, Eq, Structural)]
pub struct EncodeOptions {
    pub chunk_size: usize,
    pub out_size: usize,
    pub storage_type: u8,
}

/// What the encode pipeline decides for given input bytes and options: either
/// the exact header of the container it will write, or the exact error it
/// rejects the input with. Checks run in pipeline order: the storage code,
/// the window and component counts, the power-of-two window, the waveform
/// parse, the required subchunks, and the derived header fields.
pub open spec fn spec_encode_outcome(raw: Seq<u8>, opts: EncodeOptions) -> Result<
    Header,
    CodecError,
> {
    if spec_storage_of_code(opts.storage_type as u16) is None {
        Err(CodecError::UnknownStorage)
    } else if opts.out_size < 1 || opts.out_size >= 0x8000_0000 || opts.chunk_size > MAX_WINDOW {
        Err(CodecError::BadLayout)
    } else if !is_pow2(opts.chunk_size as int) {
        Err(CodecError::NotPowerOfTwo)
    } else {
        let storage = spec_storage_of_code(opts.storage_type as u16).unwrap();
        match parse_tree(raw) {
            None => Err(CodecError::Truncated),
            Some(root) => match tree_kids(root) {
                None => Err(CodecError::MissingSubchunk),
                Some(kids) => match find_kid(kids, fmt_tag()) {
                    None => Err(CodecError::MissingSubchunk),
                    Some(fmt) => match tree_data(fmt) {
                        None => Err(CodecError::MissingSubchunk),
                        Some(fd) => if fd.len() < 8 {
                            Err(CodecError::Truncated)
                        } else {
                            let ch = fd[2] as int;
                            let sr = le32_at(fd, 4) as int;
                            if ch == 0 || sr == 0 || sr >= 0x8000_0000 {
                                Err(CodecError::BadLayout)
                            } else {
                                match find_kid(kids, data_tag()) {
                                    None => Err(CodecError::MissingSubchunk),
                                    Some(dt) => match tree_data(dt) {
                                        None => Err(CodecError::MissingSubchunk),
                                        Some(dd) => {
                                            let cap = dd.len() as int / (2 * ch);
                                            let nwin = cap / opts.chunk_size as int;
                                            let ccount = nwin * opts.out_size as int;
                                            let h = Header {
                                                chunk_size: opts.chunk_size as u32,
                                                chunk_count: ccount as u32,
                                                out_size: opts.out_size as u32,
                                                sample_rate: sr as u32,
                                                channels: ch as u32,
                                                storage,
                                            };
                                            if ccount >= 0x8000_0000 || spec_expected_len(h)
                                                > usize::MAX {
                                                Err(CodecError::BadLayout)
                                            } else {
                                                Ok(h)
                                            }
                                        },
                                    },
                                }
                            }
                        },
                    },
                },
            },
        }
    }
}

/// Encodes a source waveform file into a container. The input bytes are the
/// whole waveform file; the result is the whole container. Succeeds or fails
/// exactly as [`spec_encode_outcome`] says, and on success the bytes are the
/// serialization of the announced header and of records whose bins all lie
/// inside the window.
#[verifier::loop_isolation(false)]
pub fn encode<N: Numerics>(ops: &N, raw: &Vec<u8>, opts: &EncodeOptions) -> (r: Result<
    Vec<u8>,
    CodecError,
>)
    ensures
        match r {
            Ok(bytes) => {
                &&& spec_encode_outcome(raw@, *opts) is Ok
                &&& ({
                    let h = spec_encode_outcome(raw@, *opts).unwrap();
                    exists|chans: Seq<Seq<StoredComponent>>|
                        {
                            &&& channels_wf(h, chans)
                            &&& (forall|j: int, i: int|
                                0 <= j < chans.len() && 0 <= i < chans[j].len() ==> (
                                #[trigger] chans[j][i]).freq < h.chunk_size)
                            &&& bytes@ == container_bytes(h, chans)
                        }
                })
            },
            Err(e) => spec_encode_outcome(raw@, *opts) == Err::<Header, CodecError>(e),
        },
{
    let storage = match storage_of_code(opts.storage_type as u16) {
        Some(s) => s,
        None => {
            return Err(CodecError::UnknownStorage);
        },
    };
    if opts.out_size < 1 || opts.out_size as u64 >= 0x8000_0000 || opts.chunk_size > MAX_WINDOW {
        return Err(CodecError::BadLayout);
    }
    let chunk_size = opts.chunk_size;
    let out_size = opts.out_size;
    let log = match crate::fft::log2_of(chunk_size) {
        Some(l) => l,
        None => {
            return Err(CodecError::NotPowerOfTwo);
        },
    };
    proof {
        vstd::arithmetic::power2::lemma_pow2_pos(log as nat);
        assert(chunk_size >= 1);
    }
    let root = match RiffChunk::new(raw.as_slice()) {
        Ok(c) => c,
        Err(_) => {
            return Err(CodecError::Truncated);
        },
    };
    let ghost root_t = tree_view(root);
    if root.children.is_none() {
        return Err(CodecError::MissingSubchunk);
    }
    let ghost kids_t = tree_kids(root_t).unwrap();
    let mut fmt_name: Vec<u8> = Vec::new();
    fmt_name.push(0x66);
    fmt_name.push(0x6D);
    fmt_name.push(0x74);
    fmt_name.push(0x20);
    assert(fmt_name@ =~= fmt_tag());
    let fmt = match find_child_tagged(&root, &fmt_name) {
        Some(c) => c,
        None => {
            return Err(CodecError::MissingSubchunk);
        },
    };
    let ghost fmt_t = find_kid(kids_t, fmt_tag()).unwrap();
    assert(fmt_t == tree_view(*fmt));
    let fd = match &fmt.data {
        Some(d) => d,
        None => {
            assert(tree_data(fmt_t) is None);
            return Err(CodecError::MissingSubchunk);
        },
    };
    assert(fmt.children is None && tree_data(fmt_t) == Some(fd@));
    if fd.len() < 8 {
        return Err(CodecError::Truncated);
    }
    let channels = fd[2] as usize;
    let sample_rate: u32 = crate::bytes::read_le32(fd.as_slice(), 4);
    if channels == 0 || sample_rate == 0 || sample_rate >= 0x8000_0000 {
        return Err(CodecError::BadLayout);
    }
    let mut data_name: Vec<u8> = Vec::new();
    data_name.push(0x64);
    data_name.push(0x61);
    data_name.push(0x74);
    data_name.push(0x61);
    assert(data_name@ =~= data_tag());
    let dchunk = match find_child_tagged(&root, &data_name) {
        Some(c) => c,
        None => {
            return Err(CodecError::MissingSubchunk);
        },
    };
    let ghost dt = find_kid(kids_t, data_tag()).unwrap();
    assert(dt == tree_view(*dchunk));
    let dd = match &dchunk.data {
        Some(d) => d,
        None => {
            assert(tree_data(dt) is None);
            return Err(CodecError::MissingSubchunk);
        },
    };
    assert(dchunk.children is None && tree_data(dt) == Some(dd@));
    let cap = dd.len() / (2 * channels);
    let nwin = cap / chunk_size;
    assert(dd@.len() <= usize::MAX);
    proof {
        let big: int = 0x1_0000_0000_0000_0000_0000_0000;
        assert((nwin as int * out_size as int) < big && (nwin as int * out_size as int) >= 0)
            by (nonlinear_arith)
            requires
                0 <= nwin < 0x1_0000_0000_0000_0000_0000,
                0 <= out_size < 0x8000_0000,
                big == 0x1_0000_0000_0000_0000_0000_0000,
        ;
    }
    let ccount128: u128 = (nwin as u128) * (out_size as u128);
    if ccount128 >= 0x8000_0000 {
        return Err(CodecError::BadLayout);
    }
    let rec_size = record_size(storage);
    proof {
        let big: int = 0x1_0000_0000_0000_0000_0000_0000;
        assert((ccount128 as int * (channels as int) * (rec_size as int)) < big
            && (ccount128 as int * (channels as int) * (rec_size as int)) >= 0) by (nonlinear_arith)
            requires
                0 <= ccount128 < 0x8000_0000,
                0 <= channels < 0x1_0000_0000,
                0 <= rec_size <= 10,
                big == 0x1_0000_0000_0000_0000_0000_0000,
        ;
    }
    let need: u128 = 30 + ccount128 * (channels as u128) * (rec_size as u128);
    if need > usize::MAX as u128 {
        return Err(CodecError::BadLayout);
    }
    let chunk_count = ccount128 as usize;
    let h = Header {
        chunk_size: chunk_size as u32,
        chunk_count: chunk_count as u32,
        out_size: out_size as u32,
        sample_rate,
        channels: channels as u32,
        storage,
    };
    assert(spec_encode_outcome(raw@, *opts) == Ok::<Header, CodecError>(h));
    // Split the interleaved samples into channels.
    let mut tracks: Vec<Vec<i16>> = Vec::new();
    for j in 0..channels
        invariant
            tracks@.len() == j,
            channels >= 1,
            cap as int == dd@.len() as int / (2 * channels as int),
            forall|jj: int| 0 <= jj < j ==> (#[trigger] tracks@[jj])@.len() == cap,
    {
        let mut track: Vec<i16> = Vec::new();
        for s in 0..cap
            invariant
                track@.len() == s,
                j < channels,
                channels >= 1,
                dd@.len() <= usize::MAX,
                cap as int == dd@.len() as int / (2 * channels as int),
        {
            proof {
                assert(s * 2 * channels + 2 * j + 2 <= dd@.len() && s * 2 <= s * 2 * channels)
                    by (nonlinear_arith)
                    requires
                        0 <= s < cap,
                        0 <= j < channels,
                        cap as int == dd@.len() as int / (2 * channels as int),
                        channels >= 1,
                ;
            }
            let b0 = dd[s * 2 * channels + 2 * j];
            let b1 = dd[s * 2 * channels + 2 * j + 1];
            let sample: i16 = #[verifier::truncate] ((b0 as u16 + b1 as u16 * 0x100) as i16);
            track.push(sample);
        }
        tracks.push(track);
    }
    // Analyze every window of every channel.
    let ghost limit = spec_bin_limit(chunk_size as nat, sample_rate as nat);
    let mut stored: Vec<Vec<StoredComponent>> = Vec::new();
    for j in 0..channels
        invariant
            stored@.len() == j,
            tracks@.len() == channels,
            chunk_size >= 1,
            chunk_size <= MAX_WINDOW,
            out_size >= 1,
            sample_rate >= 1,
            nwin * out_size == chunk_count,
            chunk_count <= usize::MAX,
            limit == spec_bin_limit(chunk_size as nat, sample_rate as nat),
            limit <= chunk_size,
            forall|jj: int| 0 <= jj < channels ==> (#[trigger] tracks@[jj])@.len() == cap,
            nwin as int == cap as int / chunk_size as int,
            forall|jj: int| 0 <= jj < j ==> (#[trigger] stored@[jj])@.len() == chunk_count,
            forall|jj: int, i: int|
                0 <= jj < j && 0 <= i < chunk_count ==> crate::quant::stored_wf(
                    storage,
                    #[trigger] stored@[jj]@[i],
                ) && stored@[jj]@[i].freq < chunk_size,
    {
        let mut comps: Vec<Component> = Vec::new();
        proof {
            assert(0 * out_size == 0) by (nonlinear_arith);
        }
        for w in 0..nwin
            invariant
                comps@.len() == w * out_size,
                tracks@.len() == channels,
                j < channels,
                chunk_size >= 1,
                chunk_size <= MAX_WINDOW,
                out_size >= 1,
                sample_rate >= 1,
                nwin * out_size == chunk_count,
                chunk_count <= usize::MAX,
                limit == spec_bin_limit(chunk_size as nat, sample_rate as nat),
                limit <= chunk_size,
                forall|jj: int| 0 <= jj < channels ==> (#[trigger] tracks@[jj])@.len() == cap,
                nwin as int == cap as int / chunk_size as int,
                is_pow2(chunk_size as int),
                forall|t: int|
                    0 <= t < comps@.len() ==> (#[trigger] comps@[t]).freq < chunk_size,
        {
            proof {
                assert((w + 1) * chunk_size <= cap && w * chunk_size + chunk_size == (w + 1)
                    * chunk_size && w * out_size + out_size <= chunk_count && (w + 1) * out_size
                    == w * out_size + out_size) by (nonlinear_arith)
                    requires
                        0 <= w < nwin,
                        nwin as int == cap as int / chunk_size as int,
                        chunk_size >= 1,
                        nwin * out_size == chunk_count,
                        out_size >= 1,
                ;
            }
            let mut window: Vec<i16> = Vec::new();
            let track = &tracks[j];
            for t in 0..chunk_size
                invariant
                    window@.len() == t,
                    track@.len() == cap,
                    w * chunk_size + chunk_size <= cap,
                    chunk_size <= MAX_WINDOW,
            {
                window.push(track[w * chunk_size + t]);
            }
            let ghost pre_len = comps@.len();
            let ghost pre_comps = comps@;
            match encode_chunk(ops, &window, &mut comps, out_size, sample_rate) {
                Ok(()) => {},
                Err(_) => {
                    proof {
                        assert(false);
                    }
                    return Err(CodecError::NotPowerOfTwo);
                },
            }
            proof {
                assert forall|t: int| 0 <= t < comps@.len() implies (#[trigger] comps@[t]).freq
                    < chunk_size by {
                    if t >= pre_len {
                        assert(comps@[t].freq < spec_bin_limit(window@.len(), sample_rate as nat)
                            || comps@[t] == crate::coeff::spec_placeholder());
                        assert(window@.len() == chunk_size);
                    } else {
                        assert(comps@.subrange(0, pre_len as int)[t] == comps@[t]);
                        assert(pre_comps[t].freq < chunk_size);
                    }
                }
            }
        }
        // Quantize this channel's components to their stored width.
        let mut chan: Vec<StoredComponent> = Vec::new();
        for i in 0..chunk_count
            invariant
                chan@.len() == i,
                comps@.len() == chunk_count,
                chunk_size >= 1,
                forall|t: int|
                    0 <= t < comps@.len() ==> (#[trigger] comps@[t]).freq < chunk_size,
                forall|t: int|
                    0 <= t < i ==> crate::quant::stored_wf(storage, #[trigger] chan@[t])
                        && chan@[t].freq < chunk_size,
        {
            let q = quantize_component(ops, storage, &comps[i]);
            chan.push(q);
        }
        stored.push(chan);
    }
    proof {
        assert(channels_wf(h, chans_view(stored@)));
        assert(header_wf(h));
        assert(spec_expected_len(h) <= usize::MAX);
    }
    let bytes = write_container(&h, &stored);
    proof {
        let cv = chans_view(stored@);
        assert(forall|j: int, i: int|
            0 <= j < cv.len() && 0 <= i < cv[j].len() ==> (#[trigger] cv[j][i]).freq
                < h.chunk_size);
    }
    Ok(bytes)
}

/// The first child of a container chunk carrying the given tag bytes, linked
/// to the spec-level [`find_kid`] over the chunk's parse.
#[verifier::loop_isolation(false)]
fn find_child_tagged<'a>(c: &'a RiffChunk, tag: &Vec<u8>) -> (r: Option<&'a RiffChunk>)
    requires
        c.children is Some,
        chunk_inv(*c),
    ensures
        match r {
            Some(k) => find_kid(tree_kids(tree_view(*c)).unwrap(), tag@) == Some(tree_view(*k))
                && chunk_inv(*k) && (k.children is Some <==> tree_kids(tree_view(*k)) is Some) && (
            k.data is Some ==> tree_data(tree_view(*k)) == Some(k.data.unwrap()@)),
            None => find_kid(tree_kids(tree_view(*c)).unwrap(), tag@) is None,
        },
{
    let kids = match &c.children {
        Some(v) => v,
        None => {
            return None;
        },
    };
    let n = kids.len();
    for i in 0..n
        invariant
            n == kids@.len(),
            c.children == Some(*kids),
            chunk_inv(*c),
            forall|k: int| 0 <= k < i ==> (#[trigger] kids@[k]).tag@ != tag@,
    {
        if crate::riff::bytes_eq(&kids[i].tag, tag) {
            proof {
                lemma_find_kid_match(kids@, tag@, i as int);
                assert(chunk_inv(kids@[i as int]));
            }
            return Some(&kids[i]);
        }
    }
    proof {
        lemma_find_kid_none(kids@, tag@);
    }
    None
}

/// A header the encode pipeline decides on is well formed for the container
/// and for the decode pipeline: every field fits its slot, the window is a
/// power of two no longer than the format can index, and the record count is
/// a whole number of windows.
#[verifier::rlimit(60)]
pub proof fn lemma_encode_header_wf(raw: Seq<u8>, opts: EncodeOptions)
    requires
        spec_encode_outcome(raw, opts) is Ok,
    ensures
        ({
            let h = spec_encode_outcome(raw, opts).unwrap();
            &&& header_wf(h)
            &&& h.out_size >= 1
            &&& h.chunk_count as int % h.out_size as int == 0
            &&& h.channels >= 1
            &&& h.chunk_size <= 0x10000
            &&& is_pow2(h.chunk_size as int)
            &&& h.chunk_size == opts.chunk_size
            &&& h.out_size == opts.out_size
        }),
{
    let h = spec_encode_outcome(raw, opts).unwrap();
    assert(spec_storage_of_code(opts.storage_type as u16) is Some);
    assert(is_pow2(opts.chunk_size as int));
    reveal(vstd::arithmetic::power2::is_pow2);
    assert(opts.chunk_size >= 1);
    assert(parse_tree(raw) is Some);
    let root = parse_tree(raw).unwrap();
    assert(crate::riff::tree_kids(root) is Some);
    let kids = crate::riff::tree_kids(root).unwrap();
    assert(find_kid(kids, fmt_tag()) is Some);
    let fmt = find_kid(kids, fmt_tag()).unwrap();
    assert(crate::riff::tree_data(fmt) is Some);
    let fd = crate::riff::tree_data(fmt).unwrap();
    assert(fd.len() >= 8 && fd[2] as int >= 1);
    assert(find_kid(kids, data_tag()) is Some);
    let dt = find_kid(kids, data_tag()).unwrap();
    assert(crate::riff::tree_data(dt) is Some);
    let dd = crate::riff::tree_data(dt).unwrap();
    let ch = fd[2] as int;
    let cap = dd.len() as int / (2 * ch);
    let nwin = cap / opts.chunk_size as int;
    let ccount = nwin * opts.out_size as int;
    assert(0 <= ccount < 0x8000_0000 && h.chunk_count == ccount);
    assert(nwin >= 0) by (nonlinear_arith)
        requires
            nwin == cap / opts.chunk_size as int,
            cap == dd.len() as int / (2 * ch),
            dd.len() >= 0,
            ch >= 1,
            opts.chunk_size >= 1,
    ;
    assert((nwin * opts.out_size as int) % opts.out_size as int == 0) by (nonlinear_arith)
        requires
            opts.out_size >= 1,
            nwin >= 0,
    ;
}

} // verus!
