//! The decode pipeline: from the bytes of a container back to a playable,
//! channel-interleaved run of samples. The container is parsed, each
//! channel's records are grouped back into their windows, each group is
//! scattered into a sparse spectrum and inverse-transformed, and the
//! per-channel waveforms are interleaved sample by sample.
//!
//! As on the encode side, every decision — which containers are rejected,
//! with which error — is mirrored by [`spec_decode_outcome`] and proved; on
//! success the header read back is exactly the stored one, and the output is
//! the exact channel-minor interleaving of the reconstructed channels.
use vstd::prelude::*;
use vstd::arithmetic::power2::is_pow2;
use crate::bytes::le16_at;
use crate::coeff::{Coeff, Component, Numerics};
use crate::quant::{StoredComponent, spec_storage_of_code, widen_component, stored_wf};
use crate::container::{Header, read_container, spec_tags_ok, spec_header_of, spec_expected_len,
    spec_record_at, chans_view};
use crate::fft::{compute_inverse_fft, log2_of, MAX_WINDOW};
use crate::CodecError;

verus! {

/// A decoded container: the header it announced, and the reconstructed
/// samples, channel-interleaved and ready for playback.
#[derive(Debug)]
pub struct DecodedAudio {
    pub header: Header,
    pub samples: Vec<i16>,
}

/// Whether any stored record points at a bin outside its window.
pub open spec fn spec_has_bad_bin(b: Seq<u8>, h: Header) -> bool {
    exists|j: int, i: int|
        0 <= j < h.channels && 0 <= i < h.chunk_count && (#[trigger] spec_record_at(
            b,
            h.storage,
            h.channels as int,
            i,
            j,
        )).freq >= h.chunk_size
}

/// What the decode pipeline decides for given container bytes: the header it
/// reads back, or the exact error it rejects the bytes with. Checks run in
/// pipeline order: the container parse (length, tags, storage code, exact
/// byte length), the announced layout, the power-of-two window, the output
/// size, and the stored bins.
pub open spec fn spec_decode_outcome(b: Seq<u8>) -> Result<Header, CodecError> {
    if b.len() < 30 {
        Err(CodecError::Truncated)
    } else if !spec_tags_ok(b) {
        Err(CodecError::BadMagic)
    } else if spec_storage_of_code(le16_at(b, 24)) is None {
        Err(CodecError::UnknownStorage)
    } else {
        let h = spec_header_of(b);
        if b.len() != spec_expected_len(h) {
            Err(CodecError::Truncated)
        } else if h.out_size < 1 || h.chunk_count % h.out_size != 0 || h.channels < 1
            || h.chunk_size > 0x10000 {
            Err(CodecError::BadLayout)
        } else if !is_pow2(h.chunk_size as int) {
            Err(CodecError::NotPowerOfTwo)
        } else if h.channels as int * ((h.chunk_count / h.out_size) as int) * (h.chunk_size as int)
            > usize::MAX {
            Err(CodecError::BadLayout)
        } else if spec_has_bad_bin(b, h) {
            Err(CodecError::BadLayout)
        } else {
            Ok(h)
        }
    }
}

/// Reconstructs one analysis window: scatters the components into a
/// zero-initialized spectrum at their bin indices, inverse-transforms it, and
/// appends exactly `chunk_size` samples. Rejected — with the output untouched
/// — when the window length is not a power of two.
pub fn generate_from_chunk<N: Numerics>(
    ops: &N,
    comps: &Vec<Component>,
    out: &mut Vec<i16>,
    chunk_size: usize,
) -> (r: Result<(), CodecError>)
    requires
        chunk_size <= MAX_WINDOW,
        forall|t: int| 0 <= t < comps@.len() ==> (#[trigger] comps@[t]).freq < chunk_size,
        old(out)@.len() + chunk_size <= usize::MAX,
    ensures
        match r {
            Ok(()) => {
                &&& is_pow2(chunk_size as int)
                &&& final(out)@.len() == old(out)@.len() + chunk_size
                &&& final(out)@.subrange(0, old(out)@.len() as int) == old(out)@
            },
            Err(e) => {
                &&& e == CodecError::NotPowerOfTwo
                &&& !is_pow2(chunk_size as int)
                &&& final(out)@ == old(out)@
            },
        },
{
    let mut spectrum: Vec<Coeff> = Vec::new();
    while spectrum.len() < chunk_size
        invariant
            spectrum@.len() <= chunk_size,
        decreases chunk_size - spectrum@.len(),
    {
        spectrum.push(Coeff { re: 0, im: 0 });
    }
    for t in 0..comps.len()
        invariant
            spectrum@.len() == chunk_size,
            forall|k: int| 0 <= k < comps@.len() ==> (#[trigger] comps@[k]).freq < chunk_size,
    {
        let c = comps[t];
        spectrum[c.freq as usize] = c.coeff;
    }
    let samples = match compute_inverse_fft(ops, &spectrum) {
        Ok(v) => v,
        Err(e) => {
            return Err(e);
        },
    };
    let ghost pre = out@;
    for t in 0..chunk_size
        invariant
            samples@.len() == chunk_size,
            out@.len() == pre.len() + t,
            out@.subrange(0, pre.len() as int) == pre,
            pre.len() + chunk_size <= usize::MAX,
    {
        let ghost before = out@;
        out.push(samples[t]);
        proof {
            assert(out@.subrange(0, pre.len() as int) =~= before.subrange(0, pre.len() as int));
        }
    }
    Ok(())
}

/// Interleaves the per-channel waveforms sample by sample, channel-minor: the
/// output holds, at position `i * channels + j`, sample `i` of channel `j` —
/// exactly the record order the container interleaves its channels in.
#[verifier::loop_isolation(false)]
pub fn interleave(wave: &Vec<Vec<i16>>) -> (r: Vec<i16>)
    requires
        wave@.len() >= 1,
        forall|j: int| 0 <= j < wave@.len() ==> (#[trigger] wave@[j])@.len() == wave@[0]@.len(),
        wave@.len() * wave@[0]@.len() <= usize::MAX,
    ensures
        r@.len() == wave@.len() * wave@[0]@.len(),
        forall|i: int, j: int|
            0 <= i < wave@[0]@.len() && 0 <= j < wave@.len() ==> r@[i * wave@.len() + j]
                == wave@[j]@[i],
{
    let num_chans = wave.len();
    let chan_size = wave[0].len();
    let mut out: Vec<i16> = Vec::new();
    proof {
        assert(0 * num_chans == 0) by (nonlinear_arith);
    }
    for i in 0..chan_size
        invariant
            out@.len() == i * num_chans,
            forall|k: int|
                0 <= k < out@.len() ==> out@[k] == wave@[k % num_chans as int]@[k / num_chans
                    as int],
    {
        proof {
            assert((i + 1) * num_chans == i * num_chans + num_chans && (i + 1) * num_chans
                <= chan_size * num_chans && chan_size * num_chans == num_chans * chan_size)
                by (nonlinear_arith)
                requires
                    0 <= i < chan_size,
            ;
        }
        for j in 0..num_chans
            invariant
                out@.len() == i * num_chans + j,
                i < chan_size,
                i * num_chans + num_chans <= chan_size * num_chans,
                forall|k: int|
                    0 <= k < out@.len() ==> out@[k] == wave@[k % num_chans as int]@[k / num_chans
                        as int],
        {
            out.push(wave[j][i]);
            proof {
                let k = i * num_chans + j;
                assert(k % num_chans as int == j && k / num_chans as int == i)
                    by (nonlinear_arith)
                    requires
                        0 <= j < num_chans,
                        0 <= i,
                        k == i * num_chans + j,
                ;
            }
        }
    }
    proof {
        assert(out@.len() == num_chans as int * chan_size as int) by (nonlinear_arith)
            requires
                out@.len() == chan_size as int * num_chans as int,
        ;
        assert forall|i: int, j: int|
            0 <= i < wave@[0]@.len() && 0 <= j < wave@.len() implies out@[i * wave@.len() + j]
            == wave@[j]@[i] by {
            let k = i * num_chans as int + j;
            assert(0 <= k && k + 1 <= chan_size as int * num_chans as int && k % num_chans as int
                == j && k / num_chans as int == i) by (nonlinear_arith)
                requires
                    0 <= j < num_chans,
                    0 <= i < chan_size,
                    k == i * num_chans as int + j,
            ;
        }
    }
    out
}

/// Decodes a container into playable audio. Succeeds or fails exactly as
/// [`spec_decode_outcome`] says; on success the header handed back is exactly
/// the stored one, and the samples are the channel-minor interleaving of one
/// reconstructed waveform per channel, each `windows * chunk_size` samples
/// long.
#[verifier::loop_isolation(false)]
pub fn decode<N: Numerics>(ops: &N, raw: &Vec<u8>) -> (r: Result<DecodedAudio, CodecError>)
    ensures
        match r {
            Ok(d) => {
                &&& spec_decode_outcome(raw@) == Ok::<Header, CodecError>(d.header)
                &&& d.samples@.len() == d.header.channels as int * ((d.header.chunk_count
                    / d.header.out_size) as int) * (d.header.chunk_size as int)
                &&& exists|wave: Seq<Seq<i16>>|
                    {
                        &&& wave.len() == d.header.channels
                        &&& (forall|j: int|
                            0 <= j < wave.len() ==> (#[trigger] wave[j]).len() == (
                            d.header.chunk_count / d.header.out_size) as int
                                * d.header.chunk_size as int)
                        &&& (forall|i: int, j: int|
                            0 <= i < wave[0].len() && 0 <= j < wave.len()
                                ==> d.samples@[i * wave.len() + j] == #[trigger] wave[j][i])
                    }
            },
            Err(e) => spec_decode_outcome(raw@) == Err::<Header, CodecError>(e),
        },
{
    let (h, chans) = match read_container(raw) {
        Ok(p) => p,
        Err(e) => {
            return Err(e);
        },
    };
    if h.out_size < 1 || h.chunk_count % h.out_size != 0 || h.channels < 1 || h.chunk_size
        > 0x10000 {
        return Err(CodecError::BadLayout);
    }
    let chunk_size = h.chunk_size as usize;
    let out_size = h.out_size as usize;
    let count = h.chunk_count as usize;
    let channels = h.channels as usize;
    if log2_of(chunk_size).is_none() {
        return Err(CodecError::NotPowerOfTwo);
    }
    let nwin = count / out_size;
    proof {
        assert(nwin == h.chunk_count / h.out_size);
        assert(((channels as int) * (nwin as int)) < 0x1_0000_0000_0000_0000
            && ((channels as int) * (nwin as int) * (chunk_size as int))
            < 0x1_0000_0000_0000_0000_0000 && ((channels as int) * (nwin as int) * (
        chunk_size as int)) >= 0) by (nonlinear_arith)
            requires
                0 <= channels < 0x1_0000_0000,
                0 <= nwin < 0x1_0000_0000,
                0 <= chunk_size <= 0x10000,
        ;
    }
    let total: u128 = (channels as u128) * (nwin as u128) * (chunk_size as u128);
    if total > usize::MAX as u128 {
        return Err(CodecError::BadLayout);
    }
    // Reject any record whose bin lies outside the window.
    for j in 0..channels
        invariant
            forall|jj: int, i: int|
                0 <= jj < j && 0 <= i < count ==> (#[trigger] chans_view(chans@)[jj][i]).freq
                    < h.chunk_size,
    {
        for i in 0..count
            invariant
                j < channels,
                forall|jj: int, ii: int|
                    0 <= jj < j && 0 <= ii < count ==> (#[trigger] chans_view(chans@)[jj][ii]).freq
                        < h.chunk_size,
                forall|ii: int|
                    0 <= ii < i ==> (#[trigger] chans_view(chans@)[j as int][ii]).freq
                        < h.chunk_size,
        {
            proof {
                assert(chans_view(chans@).len() == chans@.len());
                assert(chans_view(chans@)[j as int] == chans@[j as int]@);
                assert(chans_view(chans@)[j as int].len() == h.chunk_count);
            }
            if chans[j][i].freq as u32 >= h.chunk_size {
                proof {
                    assert(spec_record_at(raw@, h.storage, h.channels as int, i as int, j as int)
                        == chans_view(chans@)[j as int][i as int]);
                    assert(spec_has_bad_bin(raw@, h));
                }
                return Err(CodecError::BadLayout);
            }
        }
    }
    proof {
        assert(!spec_has_bad_bin(raw@, h)) by {
            if spec_has_bad_bin(raw@, h) {
                let (j, i) = choose|j: int, i: int|
                    0 <= j < h.channels && 0 <= i < h.chunk_count && (#[trigger] spec_record_at(
                        raw@,
                        h.storage,
                        h.channels as int,
                        i,
                        j,
                    )).freq >= h.chunk_size;
                assert(chans_view(chans@)[j][i].freq < h.chunk_size);
            }
        }
        assert(spec_decode_outcome(raw@) == Ok::<Header, CodecError>(h));
    }
    // Reconstruct each channel window by window.
    let mut wave: Vec<Vec<i16>> = Vec::new();
    for j in 0..channels
        invariant
            wave@.len() == j,
            forall|jj: int|
                0 <= jj < j ==> (#[trigger] wave@[jj])@.len() == nwin as int * chunk_size as int,
    {
        let mut chan: Vec<i16> = Vec::new();
        proof {
            assert(0 * chunk_size == 0) by (nonlinear_arith);
            assert(chans_view(chans@).len() == channels);
        }
        for w in 0..nwin
            invariant
                j < channels,
                chan@.len() == w * chunk_size,
        {
            proof {
                assert(w * out_size + out_size <= count && (w + 1) * chunk_size == w * chunk_size
                    + chunk_size && (w + 1) * chunk_size <= nwin * chunk_size && (w + 1) * out_size
                    == w * out_size + out_size) by (nonlinear_arith)
                    requires
                        0 <= w < nwin,
                        nwin == count / out_size,
                        count % out_size == 0,
                        out_size >= 1,
                        chunk_size >= 0,
                ;
                assert(nwin as int * chunk_size as int <= total) by (nonlinear_arith)
                    requires
                        total == (channels as int) * (nwin as int) * (chunk_size as int),
                        channels >= 1,
                        nwin >= 0,
                        chunk_size >= 0,
                ;
            }
            let mut group: Vec<Component> = Vec::new();
            let base = w * out_size;
            for t in 0..out_size
                invariant
                    group@.len() == t,
                    j < channels,
                    base == w * out_size,
                    base + out_size <= count,
                    forall|k: int|
                        0 <= k < group@.len() ==> (#[trigger] group@[k]).freq < chunk_size,
            {
                proof {
                    assert(chans_view(chans@)[j as int] == chans@[j as int]@);
                    assert(chans_view(chans@)[j as int].len() == h.chunk_count);
                }
                let sc = &chans[j][base + t];
                proof {
                    assert(chans_view(chans@)[j as int][base + t] == chans@[j as int]@[base + t]);
                    assert(stored_wf(h.storage, *sc));
                }
                let c = widen_component(ops, h.storage, sc);
                group.push(c);
            }
            match generate_from_chunk(ops, &group, &mut chan, chunk_size) {
                Ok(()) => {},
                Err(_) => {
                    proof {
                        assert(false);
                    }
                    return Err(CodecError::NotPowerOfTwo);
                },
            }
        }
        wave.push(chan);
    }
    proof {
        assert(wave@.len() * wave@[0]@.len() <= usize::MAX) by (nonlinear_arith)
            requires
                wave@.len() == channels,
                wave@[0]@.len() == nwin as int * chunk_size as int,
                (channels as int) * (nwin as int) * (chunk_size as int) <= usize::MAX,
        ;
    }
    let samples = interleave(&wave);
    let ghost wave_seq = Seq::new(wave@.len(), |j: int| wave@[j]@);
    proof {
        assert(samples@.len() == channels as int * (nwin as int * chunk_size as int));
        assert(samples@.len() == h.channels as int * ((h.chunk_count / h.out_size) as int) * (
        h.chunk_size as int)) by (nonlinear_arith)
            requires
                samples@.len() == channels as int * (nwin as int * chunk_size as int),
                channels == h.channels,
                nwin == h.chunk_count as int / h.out_size as int,
                chunk_size == h.chunk_size,
        ;
        assert(wave_seq.len() == h.channels);
        assert(forall|j: int|
            0 <= j < wave_seq.len() ==> (#[trigger] wave_seq[j]).len() == (h.chunk_count
                / h.out_size) as int * h.chunk_size as int);
        assert(forall|i: int, j: int|
            0 <= i < wave_seq[0].len() && 0 <= j < wave_seq.len() ==> samples@[i * wave_seq.len()
                + j] == #[trigger] wave_seq[j][i]);
    }
    Ok(DecodedAudio { header: h, samples })
}

/// ROUND-TRIP LAW across the two pipelines. Any container the encode
/// pipeline produces — the serialization of the header it decided on and of
/// records of the announced shape whose bins lie inside the window — is
/// accepted by the decode pipeline, which reads back exactly that header:
/// the same window length, record count, component count, sample rate,
/// channel count and storage. The one caveat is the machine limit: the
/// reconstructed sample count must fit an address, which is the hypothesis on
/// `usize::MAX` below.
#[verifier::rlimit(100)]
pub proof fn lemma_pipelines_round_trip(
    raw: Seq<u8>,
    opts: crate::encode::EncodeOptions,
    chans: Seq<Seq<StoredComponent>>,
)
    requires
        crate::encode::spec_encode_outcome(raw, opts) is Ok,
        crate::container::channels_wf(crate::encode::spec_encode_outcome(raw, opts).unwrap(), chans),
        forall|j: int, i: int|
            0 <= j < chans.len() && 0 <= i < chans[j].len() ==> (#[trigger] chans[j][i]).freq
                < crate::encode::spec_encode_outcome(raw, opts).unwrap().chunk_size,
        ({
            let h = crate::encode::spec_encode_outcome(raw, opts).unwrap();
            h.channels as int * ((h.chunk_count / h.out_size) as int) * (h.chunk_size as int)
                <= usize::MAX
        }),
    ensures
        spec_decode_outcome(
            crate::container::container_bytes(
                crate::encode::spec_encode_outcome(raw, opts).unwrap(),
                chans,
            ),
        ) == Ok::<Header, CodecError>(crate::encode::spec_encode_outcome(raw, opts).unwrap()),
{
    let h = crate::encode::spec_encode_outcome(raw, opts).unwrap();
    let b = crate::container::container_bytes(h, chans);
    crate::encode::lemma_encode_header_wf(raw, opts);
    crate::container::lemma_container_round_trip(h, chans);
    assert(b.len() >= 30);
    assert(!spec_has_bad_bin(b, h)) by {
        if spec_has_bad_bin(b, h) {
            let (j, i) = choose|j: int, i: int|
                0 <= j < h.channels && 0 <= i < h.chunk_count && (#[trigger] spec_record_at(
                    b,
                    h.storage,
                    h.channels as int,
                    i,
                    j,
                )).freq >= h.chunk_size;
            assert(spec_record_at(b, h.storage, h.channels as int, i, j) == chans[j][i]);
        }
    }
    assert(spec_decode_outcome(b) == Ok::<Header, CodecError>(h));
}

} // verus!
