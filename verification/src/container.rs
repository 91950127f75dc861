//! The container format: one fixed header, then one record per window
//! position per channel, interleaved channel-major within each window
//! position. The byte layout is pinned down exactly, the writer is proved to
//! emit it, the reader is proved to recover header and records from it, and a
//! round-trip law ties the two together bit for bit.
use vstd::prelude::*;
use crate::bytes::{le16_bytes, le32_bytes, le16_at, le32_at, push_le16, push_le32, read_le16,
    read_le32, lemma_le16_round_trip, lemma_le32_round_trip};
use crate::quant::{Storage, StoredComponent, stored_wf, spec_storage_code, spec_record_size,
    spec_storage_of_code, storage_code, record_size, storage_of_code};
use crate::CodecError;

verus! {

/// The container header: every field the format stores, as the value it
/// stores. The count fields are written as signed 32-bit values on disk, so a
/// well-formed header keeps them below `2^31`.
#[derive(Clone, Copy, Debug, PartialEq, Eq, Structural)]
pub struct Header {
    /// Window length in samples (`chunk_size`).
    pub chunk_size: u32,
    /// Total record count per channel: windows per channel times `out_size`.
    pub chunk_count: u32,
    /// Retained components per window.
    pub out_size: u32,
    /// Sample rate of the source waveform.
    pub sample_rate: u32,
    /// Channel count.
    pub channels: u32,
    /// The storage precision of every record.
    pub storage: Storage,
}

/// The header's numeric fields fit the signed 32-bit slots they are stored in.
pub open spec fn header_wf(h: Header) -> bool {
    &&& h.chunk_size < 0x8000_0000
    &&& h.chunk_count < 0x8000_0000
    &&& h.out_size < 0x8000_0000
    &&& h.sample_rate < 0x8000_0000
    &&& h.channels < 0x8000_0000
}

/// The magic tag opening every container: ASCII "XPRS".
pub open spec fn magic_bytes() -> Seq<u8> {
    seq![0x58u8, 0x50u8, 0x52u8, 0x53u8]
}

/// The tag closing the header: ASCII "DATA".
pub open spec fn marker_bytes() -> Seq<u8> {
    seq![0x44u8, 0x41u8, 0x54u8, 0x41u8]
}

/// The 30 header bytes.
pub open spec fn header_bytes(h: Header) -> Seq<u8> {
    magic_bytes() + le32_bytes(h.chunk_size) + le32_bytes(h.chunk_count) + le32_bytes(h.out_size)
        + le32_bytes(h.sample_rate) + le32_bytes(h.channels) + le16_bytes(
        spec_storage_code(h.storage),
    ) + marker_bytes()
}

/// The bytes of one record: frequency index, then the two coefficient
/// components at the storage width.
pub open spec fn record_bytes(s: Storage, c: StoredComponent) -> Seq<u8> {
    match s {
        Storage::Narrow => le16_bytes(c.freq) + le16_bytes(c.re as u16) + le16_bytes(c.im as u16),
        Storage::Wide => le16_bytes(c.freq) + le32_bytes(c.re) + le32_bytes(c.im),
    }
}

/// The view of per-channel record vectors as a sequence of sequences.
pub open spec fn chans_view(chans: Seq<Vec<StoredComponent>>) -> Seq<Seq<StoredComponent>> {
    Seq::new(chans.len(), |j: int| chans[j]@)
}

/// The channels hold the shape the header announces: one sequence per channel,
/// each of exactly `chunk_count` records, all well formed for the storage.
pub open spec fn channels_wf(h: Header, chans: Seq<Seq<StoredComponent>>) -> bool {
    &&& chans.len() == h.channels
    &&& forall|j: int| 0 <= j < chans.len() ==> (#[trigger] chans[j]).len() == h.chunk_count
    &&& forall|j: int, i: int|
        0 <= j < chans.len() && 0 <= i < chans[j].len() ==> stored_wf(
            h.storage,
            #[trigger] chans[j][i],
        )
}

/// The first `k` records of the interleaved body: flat record index `k` holds
/// channel `k % nch` at window-record position `k / nch`.
pub open spec fn body_upto(s: Storage, chans: Seq<Seq<StoredComponent>>, nch: int, k: int) -> Seq<
    u8,
>
    decreases k,
{
    if k <= 0 {
        Seq::empty()
    } else {
        body_upto(s, chans, nch, k - 1) + record_bytes(s, chans[(k - 1) % nch][(k - 1) / nch])
    }
}

/// The whole container: header, then every record interleaved.
pub open spec fn container_bytes(h: Header, chans: Seq<Seq<StoredComponent>>) -> Seq<u8> {
    header_bytes(h) + body_upto(
        h.storage,
        chans,
        h.channels as int,
        h.chunk_count as int * h.channels as int,
    )
}

/// The byte length the header announces.
pub open spec fn spec_expected_len(h: Header) -> int {
    30 + h.chunk_count as int * h.channels as int * spec_record_size(h.storage)
}

/// The container opens with the magic tag and closes its header with the
/// marker tag.
pub open spec fn spec_tags_ok(b: Seq<u8>) -> bool {
    b.subrange(0, 4) == magic_bytes() && b.subrange(26, 30) == marker_bytes()
}

/// The header a byte sequence stores, assuming its storage code is known.
pub open spec fn spec_header_of(b: Seq<u8>) -> Header {
    Header {
        chunk_size: le32_at(b, 4),
        chunk_count: le32_at(b, 8),
        out_size: le32_at(b, 12),
        sample_rate: le32_at(b, 16),
        channels: le32_at(b, 20),
        storage: spec_storage_of_code(le16_at(b, 24)).unwrap(),
    }
}

/// The record stored at flat position `i * nch + j` of the body.
pub open spec fn spec_record_at(b: Seq<u8>, s: Storage, nch: int, i: int, j: int) -> StoredComponent {
    let off = 30 + (i * nch + j) * spec_record_size(s);
    match s {
        Storage::Narrow => StoredComponent {
            freq: le16_at(b, off),
            re: le16_at(b, off + 2) as u32,
            im: le16_at(b, off + 4) as u32,
        },
        Storage::Wide => StoredComponent {
            freq: le16_at(b, off),
            re: le32_at(b, off + 2),
            im: le32_at(b, off + 6),
        },
    }
}

/// Appends one record at the storage width.
fn write_record(out: &mut Vec<u8>, s: Storage, c: &StoredComponent)
    requires
        stored_wf(s, *c),
    ensures
        final(out)@ == old(out)@ + record_bytes(s, *c),
{
    push_le16(out, c.freq);
    match s {
        Storage::Narrow => {
            push_le16(out, c.re as u16);
            push_le16(out, c.im as u16);
        },
        Storage::Wide => {
            push_le32(out, c.re);
            push_le32(out, c.im);
        },
    }
    assert(out@ =~= old(out)@ + record_bytes(s, *c));
}

/// The body grows by exactly one record's bytes per flat index.
proof fn lemma_body_len(s: Storage, chans: Seq<Seq<StoredComponent>>, nch: int, k: int)
    requires
        k >= 0,
    ensures
        body_upto(s, chans, nch, k).len() == k * spec_record_size(s),
    decreases k,
{
    if k > 0 {
        lemma_body_len(s, chans, nch, k - 1);
        assert(k * spec_record_size(s) == (k - 1) * spec_record_size(s) + spec_record_size(s))
            by (nonlinear_arith);
    }
}

/// Each record's bytes sit at their flat offset inside the body.
proof fn lemma_body_record(s: Storage, chans: Seq<Seq<StoredComponent>>, nch: int, k: int, kk: int)
    requires
        0 <= kk < k,
    ensures
        body_upto(s, chans, nch, k).subrange(
            kk * spec_record_size(s),
            (kk + 1) * spec_record_size(s),
        ) == record_bytes(s, chans[kk % nch][kk / nch]),
    decreases k,
{
    lemma_body_len(s, chans, nch, k);
    lemma_body_len(s, chans, nch, k - 1);
    let rec = spec_record_size(s);
    assert(0 <= kk * rec && (kk + 1) * rec <= k * rec) by (nonlinear_arith)
        requires
            0 <= kk < k,
            rec >= 6,
    ;
    if kk == k - 1 {
        assert(body_upto(s, chans, nch, k).subrange(kk * rec, (kk + 1) * rec) =~= record_bytes(
            s,
            chans[kk % nch][kk / nch],
        ));
    } else {
        lemma_body_record(s, chans, nch, k - 1, kk);
        assert(body_upto(s, chans, nch, k).subrange(kk * rec, (kk + 1) * rec) =~= body_upto(
            s,
            chans,
            nch,
            k - 1,
        ).subrange(kk * rec, (kk + 1) * rec));
    }
}

/// Serializes a container: the header, then for each window-record position in
/// order, one record per channel in declared order. The output is exactly the
/// byte layout [`container_bytes`] describes.
pub fn write_container(h: &Header, chans: &Vec<Vec<StoredComponent>>) -> (r: Vec<u8>)
    requires
        header_wf(*h),
        channels_wf(*h, chans_view(chans@)),
        spec_expected_len(*h) <= usize::MAX,
    ensures
        r@ == container_bytes(*h, chans_view(chans@)),
        r@.len() == spec_expected_len(*h),
{
    let ghost cv = chans_view(chans@);
    let ghost st = h.storage;
    let mut out: Vec<u8> = Vec::new();
    out.push(0x58);
    out.push(0x50);
    out.push(0x52);
    out.push(0x53);
    assert(out@ =~= magic_bytes());
    push_le32(&mut out, h.chunk_size);
    push_le32(&mut out, h.chunk_count);
    push_le32(&mut out, h.out_size);
    push_le32(&mut out, h.sample_rate);
    push_le32(&mut out, h.channels);
    push_le16(&mut out, storage_code(h.storage));
    out.push(0x44);
    out.push(0x41);
    out.push(0x54);
    out.push(0x41);
    assert(out@ =~= header_bytes(*h));
    let count = h.chunk_count as usize;
    let nch = h.channels as usize;
    proof {
        assert(body_upto(st, cv, nch as int, 0) =~= Seq::<u8>::empty());
        assert(out@ =~= header_bytes(*h) + body_upto(st, cv, nch as int, 0));
        assert(out@ == header_bytes(*h) + body_upto(st, cv, nch as int, 0 as int * nch as int));
    }
    for i in 0..count
        invariant
            channels_wf(*h, cv),
            cv == chans_view(chans@),
            st == h.storage,
            count == h.chunk_count,
            nch == h.channels,
            out@ == header_bytes(*h) + body_upto(st, cv, nch as int, i as int * nch as int),
    {
        for j in 0..nch
            invariant
                channels_wf(*h, cv),
                cv == chans_view(chans@),
                st == h.storage,
                count == h.chunk_count,
                nch == h.channels,
                i < count,
                out@ == header_bytes(*h) + body_upto(
                    st,
                    cv,
                    nch as int,
                    i as int * nch as int + j as int,
                ),
        {
            let ghost k = i as int * nch as int + j as int;
            proof {
                assert(k % nch as int == j as int && k / nch as int == i as int)
                    by (nonlinear_arith)
                    requires
                        0 <= j < nch,
                        0 <= i,
                        k == i as int * nch as int + j as int,
                ;
                assert(chans@[j as int]@ == cv[j as int]);
            }
            write_record(&mut out, h.storage, &chans[j][i]);
            proof {
                assert(body_upto(st, cv, nch as int, k + 1) == body_upto(st, cv, nch as int, k)
                    + record_bytes(st, cv[j as int][i as int]));
                assert(out@ =~= header_bytes(*h) + body_upto(st, cv, nch as int, k + 1));
            }
        }
        proof {
            assert((i + 1) as int * nch as int == i as int * nch as int + nch as int)
                by (nonlinear_arith);
        }
    }
    proof {
        assert(out@ == container_bytes(*h, cv));
        lemma_body_len(st, cv, nch as int, count as int * nch as int);
        assert(count as int * nch as int * spec_record_size(st) == h.chunk_count as int
            * h.channels as int * spec_record_size(st)) by (nonlinear_arith)
            requires
                count == h.chunk_count,
                nch == h.channels,
        ;
    }
    out
}

/// Parses a container: checks the tags, the storage code and the exact byte
/// length, then recovers every record of every channel in the interleaved
/// order the writer emits. Success and each failure are exact: short input is
/// `Truncated`, wrong tags are `BadMagic`, an unknown storage code is
/// `UnknownStorage`, and a length that disagrees with the announced layout is
/// `Truncated`.
pub fn read_container(b: &Vec<u8>) -> (r: Result<(Header, Vec<Vec<StoredComponent>>), CodecError>)
    ensures
        match r {
            Ok((h, chans)) => {
                &&& b@.len() >= 30
                &&& spec_tags_ok(b@)
                &&& spec_storage_of_code(le16_at(b@, 24)) == Some(h.storage)
                &&& h == spec_header_of(b@)
                &&& b@.len() == spec_expected_len(h)
                &&& channels_wf(h, chans_view(chans@))
                &&& forall|j: int, i: int|
                    0 <= j < h.channels && 0 <= i < h.chunk_count ==> chans_view(chans@)[j][i]
                        == spec_record_at(b@, h.storage, h.channels as int, i, j)
            },
            Err(CodecError::BadMagic) => b@.len() >= 30 && !spec_tags_ok(b@),
            Err(CodecError::UnknownStorage) => b@.len() >= 30 && spec_tags_ok(b@)
                && spec_storage_of_code(le16_at(b@, 24)) is None,
            Err(CodecError::Truncated) => b@.len() < 30 || (spec_tags_ok(b@)
                && spec_storage_of_code(le16_at(b@, 24)) is Some && b@.len() != spec_expected_len(
                spec_header_of(b@),
            )),
            Err(_) => false,
        },
{
    if b.len() < 30 {
        return Err(CodecError::Truncated);
    }
    if !(b[0] == 0x58 && b[1] == 0x50 && b[2] == 0x52 && b[3] == 0x53 && b[26] == 0x44 && b[27]
        == 0x41 && b[28] == 0x54 && b[29] == 0x41) {
        proof {
            if b@.subrange(0, 4) == magic_bytes() && b@.subrange(26, 30) == marker_bytes() {
                assert(b@[0] == magic_bytes()[0] && b@[1] == magic_bytes()[1] && b@[2]
                    == magic_bytes()[2] && b@[3] == magic_bytes()[3]);
                assert(b@[26] == marker_bytes()[0] && b@[27] == marker_bytes()[1] && b@[28]
                    == marker_bytes()[2] && b@[29] == marker_bytes()[3]);
            }
        }
        return Err(CodecError::BadMagic);
    }
    proof {
        assert(b@.subrange(0, 4) =~= magic_bytes());
        assert(b@.subrange(26, 30) =~= marker_bytes());
    }
    let storage = match storage_of_code(read_le16(b.as_slice(), 24)) {
        Some(s) => s,
        None => {
            return Err(CodecError::UnknownStorage);
        },
    };
    let h = Header {
        chunk_size: read_le32(b.as_slice(), 4),
        chunk_count: read_le32(b.as_slice(), 8),
        out_size: read_le32(b.as_slice(), 12),
        sample_rate: read_le32(b.as_slice(), 16),
        channels: read_le32(b.as_slice(), 20),
        storage,
    };
    let rec = record_size(storage);
    proof {
        assert((h.chunk_count as int) * (h.channels as int) * (rec as int)
            < 0x1_0000_0000_0000_0000_0000) by (nonlinear_arith)
            requires
                h.chunk_count < 0x1_0000_0000,
                h.channels < 0x1_0000_0000,
                rec <= 10,
        ;
    }
    let need: u128 = 30 + (h.chunk_count as u128) * (h.channels as u128) * (rec as u128);
    if (b.len() as u128) != need {
        return Err(CodecError::Truncated);
    }
    assert(b@.len() == spec_expected_len(h));
    let count = h.chunk_count as usize;
    let nch = h.channels as usize;
    proof {
        assert(count as int * nch as int * rec as int == h.chunk_count as int * h.channels as int
            * spec_record_size(h.storage)) by (nonlinear_arith)
            requires
                count == h.chunk_count,
                nch == h.channels,
                rec == spec_record_size(h.storage),
        ;
    }
    let blen = b.len();
    assert(b@.len() <= usize::MAX);
    let mut chans: Vec<Vec<StoredComponent>> = Vec::new();
    for j in 0..nch
        invariant
            count == h.chunk_count,
            nch == h.channels,
            storage == h.storage,
            rec == spec_record_size(h.storage),
            b@.len() == 30 + count as int * nch as int * rec as int,
            b@.len() <= usize::MAX,
            chans@.len() == j,
            forall|jj: int|
                0 <= jj < j ==> (#[trigger] chans@[jj])@.len() == count,
            forall|jj: int, i: int|
                0 <= jj < j && 0 <= i < count ==> stored_wf(h.storage, #[trigger] chans@[jj]@[i])
                    && chans@[jj]@[i] == spec_record_at(b@, h.storage, nch as int, i, jj),
    {
        let mut chan: Vec<StoredComponent> = Vec::new();
        for i in 0..count
            invariant
                count == h.chunk_count,
                nch == h.channels,
                storage == h.storage,
                rec == spec_record_size(h.storage),
                b@.len() == 30 + count as int * nch as int * rec as int,
                b@.len() <= usize::MAX,
                j < nch,
                chan@.len() == i,
                forall|ii: int|
                    0 <= ii < i ==> stored_wf(h.storage, #[trigger] chan@[ii]) && chan@[ii]
                        == spec_record_at(b@, h.storage, nch as int, ii, j as int),
        {
            proof {
                assert(0 <= i as int * nch as int + j as int && (i as int * nch as int + j as int
                    + 1) * rec as int <= count as int * nch as int * rec as int && i as int
                    * nch as int + j as int + 1 <= count as int * nch as int * rec as int)
                    by (nonlinear_arith)
                    requires
                        0 <= i < count,
                        0 <= j < nch,
                        rec >= 1,
                ;
                assert((i as int * nch as int + j as int) * rec as int + rec as int == (i as int
                    * nch as int + j as int + 1) * rec as int) by (nonlinear_arith);
            }
            let off = 30 + (i * nch + j) * rec;
            let c = match storage {
                Storage::Narrow => StoredComponent {
                    freq: read_le16(b.as_slice(), off),
                    re: read_le16(b.as_slice(), off + 2) as u32,
                    im: read_le16(b.as_slice(), off + 4) as u32,
                },
                Storage::Wide => StoredComponent {
                    freq: read_le16(b.as_slice(), off),
                    re: read_le32(b.as_slice(), off + 2),
                    im: read_le32(b.as_slice(), off + 6),
                },
            };
            chan.push(c);
        }
        chans.push(chan);
    }
    proof {
        assert(channels_wf(h, chans_view(chans@)));
    }
    Ok((h, chans))
}

/// ROUND-TRIP LAW. A container the writer emits parses back exactly: the
/// tags check out, the header read back equals the header written — window
/// length, record count, component count, sample rate, channel count and
/// storage — the byte length is the announced one, and every record of every
/// channel is recovered bit for bit at its interleaved position, so decoding
/// reproduces the encoder's channel-interleaved record order exactly.
#[verifier::rlimit(60)]
pub proof fn lemma_container_round_trip(h: Header, chans: Seq<Seq<StoredComponent>>)
    requires
        header_wf(h),
        channels_wf(h, chans),
    ensures
        ({
            let b = container_bytes(h, chans);
            &&& b.len() == spec_expected_len(h)
            &&& spec_tags_ok(b)
            &&& spec_storage_of_code(le16_at(b, 24)) == Some(h.storage)
            &&& spec_header_of(b) == h
            &&& forall|j: int, i: int|
                0 <= j < h.channels && 0 <= i < h.chunk_count ==> spec_record_at(
                    b,
                    h.storage,
                    h.channels as int,
                    i,
                    j,
                ) == chans[j][i]
        }),
{
    let b = container_bytes(h, chans);
    let hb = header_bytes(h);
    let s = h.storage;
    let nch = h.channels as int;
    let rec = spec_record_size(s);
    let total = h.chunk_count as int * nch;
    lemma_body_len(s, chans, nch, total);
    assert(hb.len() == 30);
    assert(b.len() == spec_expected_len(h));
    // Header fields.
    assert(b.subrange(0, 4) =~= magic_bytes());
    assert(b.subrange(26, 30) =~= marker_bytes());
    assert(b.subrange(4, 8) =~= le32_bytes(h.chunk_size));
    lemma_le32_round_trip(h.chunk_size, b, 4);
    assert(b.subrange(8, 12) =~= le32_bytes(h.chunk_count));
    lemma_le32_round_trip(h.chunk_count, b, 8);
    assert(b.subrange(12, 16) =~= le32_bytes(h.out_size));
    lemma_le32_round_trip(h.out_size, b, 12);
    assert(b.subrange(16, 20) =~= le32_bytes(h.sample_rate));
    lemma_le32_round_trip(h.sample_rate, b, 16);
    assert(b.subrange(20, 24) =~= le32_bytes(h.channels));
    lemma_le32_round_trip(h.channels, b, 20);
    assert(b.subrange(24, 26) =~= le16_bytes(spec_storage_code(s)));
    lemma_le16_round_trip(spec_storage_code(s), b, 24);
    assert(spec_storage_of_code(le16_at(b, 24)) == Some(s));
    assert(spec_header_of(b) == h);
    // Records.
    assert forall|j: int, i: int| 0 <= j < h.channels && 0 <= i < h.chunk_count implies
        spec_record_at(b, s, nch, i, j) == chans[j][i] by {
        let k = i * nch + j;
        assert(0 <= k < total && k % nch == j && k / nch == i) by (nonlinear_arith)
            requires
                0 <= j < nch,
                0 <= i < h.chunk_count,
                k == i * nch + j,
                total == h.chunk_count as int * nch,
        ;
        lemma_body_record(s, chans, nch, total, k);
        let body = body_upto(s, chans, nch, total);
        lemma_body_len(s, chans, nch, total);
        assert(0 <= k * rec && (k + 1) * rec <= total * rec) by (nonlinear_arith)
            requires
                0 <= k < total,
                rec >= 6,
        ;
        let c = chans[j][i];
        let off = 30 + k * rec;
        let rb = record_bytes(s, c);
        assert((k + 1) * rec == k * rec + rec) by (nonlinear_arith);
        assert(rb.len() == rec);
        assert(b.subrange(off, off + rec) =~= rb) by {
            assert forall|t: int| 0 <= t < rec implies b.subrange(off, off + rec)[t] == rb[t] by {
                assert(b.subrange(off, off + rec)[t] == b[off + t]);
                assert(b[off + t] == body[k * rec + t]);
                assert(body[k * rec + t] == body.subrange(k * rec, (k + 1) * rec)[t]);
                assert(body.subrange(k * rec, (k + 1) * rec)[t] == rb[t]);
            }
        }
        assert(b.subrange(off, off + 2) =~= rb.subrange(0, 2));
        assert(b.subrange(off, off + 2) =~= le16_bytes(c.freq));
        lemma_le16_round_trip(c.freq, b, off);
        match s {
            Storage::Narrow => {
                assert(b.subrange(off + 2, off + 4) =~= rb.subrange(2, 4));
                assert(rb.subrange(2, 4) =~= le16_bytes(c.re as u16));
                lemma_le16_round_trip(c.re as u16, b, off + 2);
                assert(b.subrange(off + 4, off + 6) =~= rb.subrange(4, 6));
                assert(rb.subrange(4, 6) =~= le16_bytes(c.im as u16));
                lemma_le16_round_trip(c.im as u16, b, off + 4);
                assert(stored_wf(s, c));
                assert((c.re as u16) as u32 == c.re);
                assert((c.im as u16) as u32 == c.im);
            },
            Storage::Wide => {
                assert(b.subrange(off + 2, off + 6) =~= rb.subrange(2, 6));
                assert(rb.subrange(2, 6) =~= le32_bytes(c.re));
                lemma_le32_round_trip(c.re, b, off + 2);
                assert(b.subrange(off + 6, off + 10) =~= rb.subrange(6, 10));
                assert(rb.subrange(6, 10) =~= le32_bytes(c.im));
                lemma_le32_round_trip(c.im, b, off + 6);
            },
        }
        assert(spec_record_at(b, s, nch, i, j) == c);
    }
}

} // verus!
