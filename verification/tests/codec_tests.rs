use xprs_codec::args::out_size_for;
use xprs_codec::coeff::{Coeff, Component, Numerics};
use xprs_codec::container::{read_container, write_container, Header};
use xprs_codec::decode::{decode, interleave};
use xprs_codec::encode::{encode, EncodeOptions};
use xprs_codec::fft::{compute_fft, compute_inverse_fft, log2_of, rev_bits};
use xprs_codec::quant::{quantize_component, widen_component, Storage, StoredComponent};
use xprs_codec::riff::RiffChunk;
use xprs_codec::select::{bin_limit, select_top_k};
use xprs_codec::CodecError;

/// The float arithmetic the codec is generic over: complex butterflies and
/// norms from num-complex, half-precision narrowing from half.
struct FloatOps;

impl Numerics for FloatOps {
    fn butterfly(&self, x: Coeff, y: Coeff, n: usize, j: usize, inverse: bool) -> (Coeff, Coeff) {
        let a = num_complex::Complex::new(f32::from_bits(x.re), f32::from_bits(x.im));
        let b = num_complex::Complex::new(f32::from_bits(y.re), f32::from_bits(y.im));
        let sign = if inverse { 2.0f32 } else { -2.0f32 };
        let angle = sign * std::f32::consts::PI * (j as f32) / (n as f32);
        let w = num_complex::Complex::from_polar(1.0f32, angle);
        let s = a + b;
        let d = (a - b) * w;
        (
            Coeff { re: s.re.to_bits(), im: s.im.to_bits() },
            Coeff { re: d.re.to_bits(), im: d.im.to_bits() },
        )
    }

    fn norm_key(&self, c: Coeff) -> u32 {
        num_complex::Complex::new(f32::from_bits(c.re), f32::from_bits(c.im)).norm().to_bits()
    }

    fn coeff_of_sample(&self, s: i16) -> Coeff {
        Coeff { re: (s as f32).to_bits(), im: 0.0f32.to_bits() }
    }

    fn sample_of_coeff(&self, c: Coeff, n: usize) -> i16 {
        (f32::from_bits(c.re) / (n as f32)) as i16
    }

    fn narrow(&self, bits: u32) -> u16 {
        half::f16::from_f32(f32::from_bits(bits)).to_bits()
    }

    fn widen(&self, half_bits: u16) -> u32 {
        half::f16::from_bits(half_bits).to_f32().to_bits()
    }
}

fn le32(x: u32) -> [u8; 4] {
    x.to_le_bytes()
}

/// A minimal two-channel 16-bit waveform file: RIFF(WAVE) with a 16-byte
/// "fmt " chunk and a "data" chunk holding the given interleaved samples.
fn synth_wav(channels: u16, sample_rate: u32, interleaved: &[i16]) -> Vec<u8> {
    let mut data = Vec::new();
    for s in interleaved {
        data.extend_from_slice(&s.to_le_bytes());
    }
    let mut fmt = Vec::new();
    fmt.extend_from_slice(&1u16.to_le_bytes()); // PCM
    fmt.extend_from_slice(&channels.to_le_bytes());
    fmt.extend_from_slice(&sample_rate.to_le_bytes());
    fmt.extend_from_slice(&(sample_rate * channels as u32 * 2).to_le_bytes());
    fmt.extend_from_slice(&(channels * 2).to_le_bytes());
    fmt.extend_from_slice(&16u16.to_le_bytes());
    let riff_len = 4 + 8 + fmt.len() as u32 + 8 + data.len() as u32;
    let mut out = Vec::new();
    out.extend_from_slice(b"RIFF");
    out.extend_from_slice(&le32(riff_len));
    out.extend_from_slice(b"WAVE");
    out.extend_from_slice(b"fmt ");
    out.extend_from_slice(&le32(fmt.len() as u32));
    out.extend_from_slice(&fmt);
    out.extend_from_slice(b"data");
    out.extend_from_slice(&le32(data.len() as u32));
    out.extend_from_slice(&data);
    out
}

fn ramp16() -> Vec<i16> {
    vec![1, 2, 3, 4, 5, 6, 7, 8, 8, 7, 6, 5, 4, 3, 2, 1]
}

/// Reference discrete Fourier transform magnitude, in double precision.
fn reference_dft_mag(input: &[i16], k: usize) -> f64 {
    let n = input.len();
    let mut re = 0.0f64;
    let mut im = 0.0f64;
    for (t, x) in input.iter().enumerate() {
        let ang = -2.0 * std::f64::consts::PI * (k as f64) * (t as f64) / (n as f64);
        re += (*x as f64) * ang.cos();
        im += (*x as f64) * ang.sin();
    }
    (re * re + im * im).sqrt()
}

#[test]
fn transform_matches_reference_dft() {
    let input = ramp16();
    let spectrum = compute_fft(&FloatOps, &input).unwrap();
    assert_eq!(spectrum.len(), 16);
    for k in 0..16 {
        let got = num_complex::Complex::new(
            f32::from_bits(spectrum[k].re),
            f32::from_bits(spectrum[k].im),
        )
        .norm() as f64;
        let want = reference_dft_mag(&input, k);
        let tol = 1e-4 * want.abs() + 1e-3;
        assert!(
            (got - want).abs() <= tol,
            "bin {}: got {}, want {}",
            k,
            got,
            want
        );
    }
}

#[test]
fn transform_rejects_non_power_of_two() {
    let input = vec![0i16; 12];
    assert_eq!(compute_fft(&FloatOps, &input), Err(CodecError::NotPowerOfTwo));
    let spectrum = vec![Coeff { re: 0, im: 0 }; 12];
    assert_eq!(
        compute_inverse_fft(&FloatOps, &spectrum),
        Err(CodecError::NotPowerOfTwo)
    );
    assert_eq!(log2_of(12), None);
    assert_eq!(log2_of(0), None);
    assert_eq!(log2_of(16), Some(4));
}

#[test]
fn inverse_recovers_constant_signal() {
    let input = vec![100i16; 16];
    let spectrum = compute_fft(&FloatOps, &input).unwrap();
    let back = compute_inverse_fft(&FloatOps, &spectrum).unwrap();
    assert_eq!(back.len(), 16);
    for s in &back {
        assert!((*s as i32 - 100).abs() <= 1, "got {}", s);
    }
}

#[test]
fn bit_reversal_values() {
    assert_eq!(rev_bits(0, 4), 0);
    assert_eq!(rev_bits(1, 4), 8);
    assert_eq!(rev_bits(6, 4), 6);
    assert_eq!(rev_bits(13, 3), 5);
}

#[test]
fn top_k_keeps_strongest_sorted_with_earlier_tie() {
    let spectrum: Vec<Coeff> = (0..5).map(|i| Coeff { re: i as u32, im: 0 }).collect();
    let keys: Vec<u32> = vec![5, 1, 9, 9, 2];
    let slots = select_top_k(&spectrum, &keys, 0, 5, 3);
    assert_eq!(slots.len(), 3);
    let got: Vec<(u32, u16)> = slots.iter().map(|s| (s.key, s.comp.freq)).collect();
    assert_eq!(got, vec![(9, 2), (9, 3), (5, 0)]);
}

#[test]
fn top_k_pads_with_placeholders() {
    let spectrum: Vec<Coeff> = vec![Coeff { re: 7, im: 7 }];
    let keys: Vec<u32> = vec![4];
    let slots = select_top_k(&spectrum, &keys, 0, 1, 3);
    assert_eq!(slots.len(), 3);
    assert_eq!((slots[0].key, slots[0].comp.freq), (4, 0));
    assert_eq!(slots[1].key, 0);
    assert_eq!(slots[1].comp, Component { freq: 0, coeff: Coeff { re: 0, im: 0 } });
    assert_eq!(slots[2].key, 0);
}

#[test]
fn bin_limit_value() {
    // 20000 * 1024 / 44100 = 464 (floored).
    assert_eq!(bin_limit(1024, 44100), 464);
    // A tiny rate keeps the cap at the window length.
    assert_eq!(bin_limit(16, 1), 16);
}

#[test]
fn out_size_for_value() {
    assert_eq!(out_size_for(1024, 8), 128);
    assert_eq!(out_size_for(4, 8), 1);
}

#[test]
fn narrow_quantization_round_trips_within_half_epsilon() {
    let ops = FloatOps;
    let c = Component {
        freq: 5,
        coeff: Coeff { re: 0.1f32.to_bits(), im: (-0.25f32).to_bits() },
    };
    let stored = quantize_component(&ops, Storage::Narrow, &c);
    assert_eq!(stored.freq, 5);
    let back = widen_component(&ops, Storage::Narrow, &stored);
    let re = f32::from_bits(back.coeff.re);
    let im = f32::from_bits(back.coeff.im);
    // Half precision carries 11 significand bits: relative error below 2^-11.
    assert!((re - 0.1).abs() <= 0.1 * (1.0 / 2048.0));
    assert!((im + 0.25).abs() <= 0.25 * (1.0 / 2048.0));
    // -0.25 is exactly representable in half precision.
    assert_eq!(im, -0.25);
}

#[test]
fn wide_quantization_is_bit_exact() {
    let ops = FloatOps;
    let c = Component {
        freq: 9,
        coeff: Coeff { re: 0.1f32.to_bits(), im: (-3.75f32).to_bits() },
    };
    let stored = quantize_component(&ops, Storage::Wide, &c);
    let back = widen_component(&ops, Storage::Wide, &stored);
    assert_eq!(back, c);
}

#[test]
fn container_round_trips_wide_records_in_order() {
    let h = Header {
        chunk_size: 8,
        chunk_count: 2,
        out_size: 1,
        sample_rate: 44100,
        channels: 2,
        storage: Storage::Wide,
    };
    let chans = vec![
        vec![
            StoredComponent { freq: 1, re: 0xAABBCCDD, im: 0x01020304 },
            StoredComponent { freq: 2, re: 0x11111111, im: 0x22222222 },
        ],
        vec![
            StoredComponent { freq: 3, re: 0x33333333, im: 0x44444444 },
            StoredComponent { freq: 4, re: 0x55555555, im: 0x66666666 },
        ],
    ];
    let bytes = write_container(&h, &chans);
    assert_eq!(bytes.len(), 30 + 2 * 2 * 10);
    // Channel-minor interleaving: window position 0 of channel 0 comes first,
    // then window position 0 of channel 1.
    assert_eq!(&bytes[30..32], &1u16.to_le_bytes());
    assert_eq!(&bytes[40..42], &3u16.to_le_bytes());
    assert_eq!(&bytes[50..52], &2u16.to_le_bytes());
    assert_eq!(&bytes[60..62], &4u16.to_le_bytes());
    let (h2, chans2) = read_container(&bytes).unwrap();
    assert_eq!(h2, h);
    assert_eq!(chans2, chans);
}

#[test]
fn container_rejects_unknown_storage_code() {
    let h = Header {
        chunk_size: 8,
        chunk_count: 0,
        out_size: 2,
        sample_rate: 44100,
        channels: 1,
        storage: Storage::Narrow,
    };
    let mut bytes = write_container(&h, &vec![vec![]]);
    bytes[24] = 3;
    bytes[25] = 0;
    assert_eq!(read_container(&bytes), Err(CodecError::UnknownStorage));
}

#[test]
fn container_rejects_truncation_and_bad_tags() {
    assert_eq!(read_container(&vec![0u8; 10]), Err(CodecError::Truncated));
    let h = Header {
        chunk_size: 8,
        chunk_count: 1,
        out_size: 1,
        sample_rate: 8000,
        channels: 1,
        storage: Storage::Narrow,
    };
    let good = write_container(&h, &vec![vec![StoredComponent { freq: 0, re: 0, im: 0 }]]);
    let mut bad_magic = good.clone();
    bad_magic[0] = b'Y';
    assert_eq!(read_container(&bad_magic), Err(CodecError::BadMagic));
    let mut short = good.clone();
    short.pop();
    assert_eq!(read_container(&short), Err(CodecError::Truncated));
}

#[test]
fn encode_zero_input_yields_exact_bytes() {
    let wav = synth_wav(2, 44100, &[0i16; 64]);
    let opts = EncodeOptions { chunk_size: 8, out_size: 2, storage_type: 1 };
    let bytes = encode(&FloatOps, &wav, &opts).unwrap();
    let mut want = Vec::new();
    want.extend_from_slice(b"XPRS");
    want.extend_from_slice(&le32(8)); // window length
    want.extend_from_slice(&le32(8)); // records per channel: 4 windows * 2
    want.extend_from_slice(&le32(2)); // out_size
    want.extend_from_slice(&le32(44100));
    want.extend_from_slice(&le32(2)); // channels
    want.extend_from_slice(&1u16.to_le_bytes()); // narrow storage
    want.extend_from_slice(b"DATA");
    // 8 records per channel, 2 channels, 6 bytes each, all zero.
    want.extend_from_slice(&[0u8; 16 * 6]);
    assert_eq!(bytes, want);
}

#[test]
fn encode_rejects_bad_inputs() {
    let wav = synth_wav(2, 44100, &[0i16; 64]);
    let bad_storage = EncodeOptions { chunk_size: 8, out_size: 2, storage_type: 3 };
    assert_eq!(encode(&FloatOps, &wav, &bad_storage), Err(CodecError::UnknownStorage));
    let bad_window = EncodeOptions { chunk_size: 12, out_size: 2, storage_type: 1 };
    assert_eq!(encode(&FloatOps, &wav, &bad_window), Err(CodecError::NotPowerOfTwo));
    let opts = EncodeOptions { chunk_size: 8, out_size: 2, storage_type: 1 };
    assert_eq!(encode(&FloatOps, &vec![1, 2, 3], &opts), Err(CodecError::Truncated));
    // A waveform without a "data" subchunk.
    let mut no_data = synth_wav(2, 44100, &[]);
    no_data[36] = b'x';
    assert_eq!(encode(&FloatOps, &no_data, &opts), Err(CodecError::MissingSubchunk));
}

#[test]
fn decode_reads_back_header_shape() {
    let wav = synth_wav(2, 44100, &[0i16; 64]);
    let opts = EncodeOptions { chunk_size: 8, out_size: 2, storage_type: 1 };
    let bytes = encode(&FloatOps, &wav, &opts).unwrap();
    let out = decode(&FloatOps, &bytes).unwrap();
    assert_eq!(out.header.chunk_size, 8);
    assert_eq!(out.header.chunk_count, 8);
    assert_eq!(out.header.out_size, 2);
    assert_eq!(out.header.sample_rate, 44100);
    assert_eq!(out.header.channels, 2);
    assert_eq!(out.header.storage, Storage::Narrow);
    // 2 channels * 4 windows * 8 samples, all zero.
    assert_eq!(out.samples.len(), 64);
    assert!(out.samples.iter().all(|s| *s == 0));
}

#[test]
fn decode_round_trips_loud_tone_per_channel() {
    // A full-scale alternating tone lands on one strong bin per window and
    // survives the lossy path recognizably: the output has the right length
    // and is loud in both channels.
    let mut interleaved = Vec::new();
    for i in 0..256 {
        let v = if i % 2 == 0 { 12000i16 } else { -12000i16 };
        interleaved.push(v);
        interleaved.push(v);
    }
    let wav = synth_wav(2, 8000, &interleaved);
    let opts = EncodeOptions { chunk_size: 16, out_size: 4, storage_type: 2 };
    let bytes = encode(&FloatOps, &wav, &opts).unwrap();
    let out = decode(&FloatOps, &bytes).unwrap();
    assert_eq!(out.samples.len(), 512);
    let peak = out.samples.iter().map(|s| (*s as i32).abs()).max().unwrap();
    assert!(peak > 6000, "peak {}", peak);
}

#[test]
fn decode_rejects_unknown_storage_code() {
    let wav = synth_wav(2, 44100, &[0i16; 64]);
    let opts = EncodeOptions { chunk_size: 8, out_size: 2, storage_type: 1 };
    let mut bytes = encode(&FloatOps, &wav, &opts).unwrap();
    bytes[24] = 3;
    bytes[25] = 0;
    assert!(matches!(
        decode(&FloatOps, &bytes),
        Err(CodecError::UnknownStorage)
    ));
}

#[test]
fn interleave_is_channel_minor() {
    let wave = vec![vec![1i16, 2], vec![3i16, 4]];
    assert_eq!(interleave(&wave), vec![1, 3, 2, 4]);
}

#[test]
fn riff_parses_the_synthetic_waveform() {
    let wav = synth_wav(2, 44100, &[5i16; 8]);
    let root = RiffChunk::new(&wav).unwrap();
    let fmt = root.child("fmt ").unwrap();
    let fd = fmt.data.as_ref().unwrap();
    assert_eq!(fd.len(), 16);
    assert_eq!(fd[2], 2);
    assert_eq!(u32::from_le_bytes([fd[4], fd[5], fd[6], fd[7]]), 44100);
    let data = root.child("data").unwrap();
    assert_eq!(data.data.as_ref().unwrap().len(), 16);
    assert!(root.child("xxxx").is_none());
}

#[test]
fn riff_rejects_truncated_bytes() {
    assert!(matches!(RiffChunk::new(&[1, 2, 3]), Err(CodecError::Truncated)));
    // A chunk whose length claims more than is there.
    let mut bytes = Vec::new();
    bytes.extend_from_slice(b"data");
    bytes.extend_from_slice(&le32(100));
    bytes.extend_from_slice(&[0u8; 4]);
    assert!(matches!(RiffChunk::new(&bytes), Err(CodecError::Truncated)));
}

#[test]
fn error_descriptions_name_the_stage() {
    assert!(CodecError::UnknownStorage.describe().contains("storage"));
    assert!(CodecError::NotPowerOfTwo.describe().contains("power of two"));
}

#[test]
fn encode_with_no_full_window_writes_an_empty_container() {
    // Six samples per channel cannot fill one window of eight.
    let wav = synth_wav(2, 44100, &[7i16; 12]);
    let opts = EncodeOptions { chunk_size: 8, out_size: 2, storage_type: 1 };
    let bytes = encode(&FloatOps, &wav, &opts).unwrap();
    assert_eq!(bytes.len(), 30);
    let (h, chans) = read_container(&bytes).unwrap();
    assert_eq!(h.chunk_count, 0);
    assert_eq!(chans, vec![Vec::new(), Vec::new()]);
    let out = decode(&FloatOps, &bytes).unwrap();
    assert_eq!(out.samples.len(), 0);
}

#[test]
fn encode_rejects_oversized_window() {
    let wav = synth_wav(2, 44100, &[0i16; 64]);
    let opts = EncodeOptions { chunk_size: 0x20000, out_size: 2, storage_type: 1 };
    assert_eq!(encode(&FloatOps, &wav, &opts), Err(CodecError::BadLayout));
}

#[test]
fn encode_rejects_zero_out_size() {
    let wav = synth_wav(2, 44100, &[0i16; 64]);
    let opts = EncodeOptions { chunk_size: 8, out_size: 0, storage_type: 1 };
    assert_eq!(encode(&FloatOps, &wav, &opts), Err(CodecError::BadLayout));
}

#[test]
fn decode_rejects_partial_window_group() {
    // A container whose record count is not a whole number of groups.
    let h = Header {
        chunk_size: 8,
        chunk_count: 3,
        out_size: 2,
        sample_rate: 8000,
        channels: 1,
        storage: Storage::Wide,
    };
    let chans = vec![vec![StoredComponent { freq: 0, re: 0, im: 0 }; 3]];
    let bytes = write_container(&h, &chans);
    assert!(matches!(decode(&FloatOps, &bytes), Err(CodecError::BadLayout)));
}

#[test]
fn decode_rejects_out_of_window_bin() {
    let h = Header {
        chunk_size: 8,
        chunk_count: 2,
        out_size: 2,
        sample_rate: 8000,
        channels: 1,
        storage: Storage::Wide,
    };
    let chans = vec![vec![
        StoredComponent { freq: 9, re: 0, im: 0 },
        StoredComponent { freq: 0, re: 0, im: 0 },
    ]];
    let bytes = write_container(&h, &chans);
    assert!(matches!(decode(&FloatOps, &bytes), Err(CodecError::BadLayout)));
}
