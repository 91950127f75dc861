//! The transform engine: an iterative radix-2 decimation-in-frequency fast
//! Fourier transform over power-of-two windows, with bit-reversal reordering.
//!
//! The driver below is verified: every butterfly touches two in-bounds
//! positions, the twiddle schedule follows the stage structure, the
//! bit-reversal permutation is exact, and a window whose length is not a power
//! of two is rejected before any indexing happens. The butterfly arithmetic
//! itself is one call of [`Numerics::butterfly`] per pair.
//!
//! The inverse runs the same butterfly network with conjugated twiddles and
//! takes the real part of each output, scaled by `1/n`: the encoder keeps only
//! positive-frequency bins without their Hermitian mirrors, so real-part
//! extraction is the reconstruction path this codec commits to.
use vstd::prelude::*;
use vstd::arithmetic::power2::{pow2, is_pow2, lemma_pow2_adds, lemma_pow2_unfold, lemma_pow2_pos,
    lemma_pow2_strictly_increases};
use crate::coeff::{Coeff, Numerics};
use crate::CodecError;

verus! {

/// The largest window length the container format can index: frequency bins
/// are stored as 16-bit values.
pub const MAX_WINDOW: usize = 0x10000;

/// The exact exponent of a power-of-two length: `Some(l)` with `pow2(l) == n`
/// when `n` is a power of two, `None` otherwise.
pub fn log2_of(n: usize) -> (r: Option<u32>)
    requires
        n <= MAX_WINDOW,
    ensures
        match r {
            Some(l) => n == pow2(l as nat) && l <= 16 && is_pow2(n as int),
            None => !is_pow2(n as int),
        },
{
    if n == 0 {
        proof {
            reveal(is_pow2);
        }
        return None;
    }
    let mut m: usize = n;
    let mut l: u32 = 0;
    proof {
        vstd::arithmetic::power2::lemma2_to64();
    }
    while m > 1
        invariant
            1 <= m <= n <= MAX_WINDOW,
            l <= 16,
            m * pow2(l as nat) == n,
            is_pow2(m as int) <==> is_pow2(n as int),
        decreases m,
    {
        if m % 2 == 1 {
            proof {
                reveal(is_pow2);
            }
            return None;
        }
        proof {
            reveal(is_pow2);
            lemma_pow2_unfold((l + 1) as nat);
            assert((m / 2) * pow2((l + 1) as nat) == n) by (nonlinear_arith)
                requires
                    m % 2 == 0,
                    m * pow2(l as nat) == n,
                    pow2((l + 1) as nat) == 2 * pow2(l as nat),
            ;
            if l >= 16 {
                lemma_pow2_strictly_increases(16, (l + 1) as nat);
                vstd::arithmetic::power2::lemma2_to64();
                assert(pow2((l + 1) as nat) > 0x10000);
                assert(false) by (nonlinear_arith)
                    requires
                        (m / 2) * pow2((l + 1) as nat) == n,
                        m / 2 >= 1,
                        pow2((l + 1) as nat) > 0x10000,
                        n <= 0x10000,
                ;
            }
        }
        m = m / 2;
        l = l + 1;
    }
    proof {
        reveal(is_pow2);
    }
    Some(l)
}

/// The bit reversal of the `log` low bits of `i`: bit 0 moves to bit
/// `log - 1`, and so on.
pub open spec fn spec_rev_bits(i: nat, log: nat) -> nat
    decreases log,
{
    if log == 0 {
        0
    } else {
        (i % 2) * pow2((log - 1) as nat) + spec_rev_bits(i / 2, (log - 1) as nat)
    }
}

/// A reversed `log`-bit index is again a `log`-bit index.
pub proof fn lemma_rev_bits_bound(i: nat, log: nat)
    ensures
        spec_rev_bits(i, log) < pow2(log),
    decreases log,
{
    lemma_pow2_pos(log);
    if log > 0 {
        lemma_rev_bits_bound(i / 2, (log - 1) as nat);
        lemma_pow2_unfold(log);
        assert((i % 2) * pow2((log - 1) as nat) <= pow2((log - 1) as nat)) by (nonlinear_arith)
            requires
                i % 2 < 2,
        ;
    }
}

/// Exact power of two, executable.
pub fn pow2_exec(e: u32) -> (r: usize)
    requires
        e <= 16,
    ensures
        r == pow2(e as nat),
    decreases e,
{
    proof {
        vstd::arithmetic::power2::lemma2_to64();
        if e >= 1 {
            lemma_pow2_unfold(e as nat);
            if e < 16 {
                lemma_pow2_strictly_increases(e as nat, 16);
            }
        }
    }
    if e == 0 {
        1
    } else {
        2 * pow2_exec(e - 1)
    }
}

/// Bit reversal, executable.
pub fn rev_bits(i: usize, log: u32) -> (r: usize)
    requires
        log <= 16,
    ensures
        r == spec_rev_bits(i as nat, log as nat),
        r < pow2(log as nat),
    decreases log,
{
    proof {
        lemma_rev_bits_bound(i as nat, log as nat);
        vstd::arithmetic::power2::lemma2_to64();
        if log < 16 {
            lemma_pow2_strictly_increases(log as nat, 16);
        }
    }
    if log == 0 {
        0
    } else {
        (i % 2) * pow2_exec(log - 1) + rev_bits(i / 2, log - 1)
    }
}

/// Runs the `log` butterfly stages in place: block size halves and block count
/// doubles each stage, and the butterfly at intra-block index `k` of stage `s`
/// uses twiddle index `k * 2^s`.
fn run_stages<N: Numerics>(ops: &N, buf: &mut Vec<Coeff>, log: u32, inverse: bool)
    requires
        log <= 16,
        old(buf)@.len() == pow2(log as nat),
    ensures
        final(buf)@.len() == old(buf)@.len(),
{
    let n = buf.len();
    let mut block_size: usize = n;
    let mut num_blocks: usize = 1;
    let mut stride: usize = 1;
    proof {
        vstd::arithmetic::power2::lemma2_to64();
        if log < 16 {
            lemma_pow2_strictly_increases(log as nat, 16);
        }
    }
    for stage in 0..log
        invariant
            log <= 16,
            buf@.len() == n,
            n == pow2(log as nat),
            n <= 0x10000,
            stage <= log,
            block_size == pow2((log - stage) as nat),
            num_blocks == pow2(stage as nat),
            stride == pow2(stage as nat),
    {
        proof {
            lemma_pow2_unfold((log - stage) as nat);
            lemma_pow2_adds(stage as nat, (log - stage) as nat);
            lemma_pow2_adds(stage as nat, (log - stage - 1) as nat);
            if log >= 1 {
                lemma_pow2_unfold(log as nat);
            }
            lemma_pow2_unfold((stage + 1) as nat);
            if stage + 1 < 16 {
                lemma_pow2_strictly_increases((stage + 1) as nat, 16);
            }
            vstd::arithmetic::power2::lemma2_to64();
        }
        let half = block_size / 2;
        assert(2 * half == block_size);
        assert(half == pow2((log - stage - 1) as nat));
        assert(num_blocks * block_size == n);
        assert(stride * half == pow2((log - 1) as nat));
        assert(stride * half * 2 == n);
        for b in 0..num_blocks
            invariant
                buf@.len() == n,
                2 * half == block_size,
                num_blocks * block_size == n,
                b <= num_blocks,
                stride * half * 2 == n,
        {
            for k in 0..half
                invariant
                    buf@.len() == n,
                    2 * half == block_size,
                    num_blocks * block_size == n,
                    b < num_blocks,
                    k <= half,
                    stride * half * 2 == n,
            {
                proof {
                    assert(block_size * b + k + half < n) by (nonlinear_arith)
                        requires
                            num_blocks * block_size == n,
                            b < num_blocks,
                            k < half,
                            2 * half == block_size,
                    ;
                    assert(k * stride < n) by (nonlinear_arith)
                        requires
                            stride * half * 2 == n,
                            k < half,
                            num_blocks >= 1,
                            stride >= 1,
                            half >= 1,
                    ;
                }
                let ix = block_size * b + k;
                let iy = ix + half;
                let x = buf[ix];
                let y = buf[iy];
                let (a, c) = ops.butterfly(x, y, n, k * stride, inverse);
                buf[ix] = a;
                buf[iy] = c;
            }
        }
        num_blocks = num_blocks * 2;
        block_size = block_size / 2;
        stride = stride * 2;
    }
}

/// Copies `buf` into a fresh vector with each index bit-reversed: position
/// `rev(i)` of the result holds position `i` of the input.
fn reorder(buf: &Vec<Coeff>, log: u32) -> (r: Vec<Coeff>)
    requires
        log <= 16,
        buf@.len() == pow2(log as nat),
    ensures
        r@.len() == buf@.len(),
        forall|i: int|
            0 <= i < buf@.len() ==> r@[spec_rev_bits(i as nat, log as nat) as int] == buf@[i],
{
    let n = buf.len();
    let mut r: Vec<Coeff> = Vec::new();
    while r.len() < n
        invariant
            r@.len() <= n,
            buf@.len() == n,
        decreases n - r@.len(),
    {
        r.push(Coeff { re: 0, im: 0 });
    }
    let ghost pre = r@;
    for i in 0..n
        invariant
            buf@.len() == n,
            n == pow2(log as nat),
            log <= 16,
            r@.len() == n,
            forall|j: int|
                0 <= j < i ==> r@[spec_rev_bits(j as nat, log as nat) as int] == buf@[j],
    {
        let dst = rev_bits(i, log);
        let ghost prev = r@;
        r[dst] = buf[i];
        proof {
            assert forall|j: int| 0 <= j < i + 1 implies r@[spec_rev_bits(
                j as nat,
                log as nat,
            ) as int] == buf@[j] by {
                lemma_rev_bits_bound(j as nat, log as nat);
                if j < i {
                    if spec_rev_bits(j as nat, log as nat) == spec_rev_bits(i as nat, log as nat) {
                        lemma_rev_bits_injective(j as nat, i as nat, log as nat);
                    }
                }
            }
        }
    }
    r
}

/// Bit reversal never sends two distinct `log`-bit indices to one place.
pub proof fn lemma_rev_bits_injective(a: nat, b: nat, log: nat)
    requires
        a < pow2(log),
        b < pow2(log),
        spec_rev_bits(a, log) == spec_rev_bits(b, log),
    ensures
        a == b,
    decreases log,
{
    if log == 0 {
        vstd::arithmetic::power2::lemma2_to64();
        assert(a == 0 && b == 0);
    } else {
        lemma_pow2_unfold(log);
        lemma_rev_bits_bound(a / 2, (log - 1) as nat);
        lemma_rev_bits_bound(b / 2, (log - 1) as nat);
        let p = pow2((log - 1) as nat);
        let ra = spec_rev_bits(a / 2, (log - 1) as nat);
        let rb = spec_rev_bits(b / 2, (log - 1) as nat);
        assert(a % 2 == b % 2 && ra == rb) by (nonlinear_arith)
            requires
                (a % 2) * p + ra == (b % 2) * p + rb,
                ra < p,
                rb < p,
                a % 2 < 2,
                b % 2 < 2,
        ;
        lemma_rev_bits_injective(a / 2, b / 2, (log - 1) as nat);
        assert(a == 2 * (a / 2) + a % 2);
        assert(b == 2 * (b / 2) + b % 2);
    }
}

/// The forward transform: `n` time-domain samples to `n` frequency-domain
/// coefficients, rejected when `n` is not a power of two.
pub fn compute_fft<N: Numerics>(ops: &N, input: &Vec<i16>) -> (r: Result<Vec<Coeff>, CodecError>)
    requires
        input@.len() <= MAX_WINDOW,
    ensures
        match r {
            Ok(v) => is_pow2(input@.len() as int) && v@.len() == input@.len(),
            Err(e) => e == CodecError::NotPowerOfTwo && !is_pow2(input@.len() as int),
        },
{
    let log = match log2_of(input.len()) {
        Some(l) => l,
        None => {
            return Err(CodecError::NotPowerOfTwo);
        },
    };
    let mut buf: Vec<Coeff> = Vec::new();
    for i in 0..input.len()
        invariant
            buf@.len() == i,
    {
        buf.push(ops.coeff_of_sample(input[i]));
    }
    run_stages(ops, &mut buf, log, false);
    Ok(reorder(&buf, log))
}

/// The inverse transform: `n` frequency-domain coefficients back to `n`
/// time-domain samples, rejected when `n` is not a power of two. Runs the
/// same butterfly network with conjugated twiddles, then keeps the real part
/// of each output, scaled by `1/n`.
pub fn compute_inverse_fft<N: Numerics>(ops: &N, spectrum: &Vec<Coeff>) -> (r: Result<
    Vec<i16>,
    CodecError,
>)
    requires
        spectrum@.len() <= MAX_WINDOW,
    ensures
        match r {
            Ok(v) => is_pow2(spectrum@.len() as int) && v@.len() == spectrum@.len(),
            Err(e) => e == CodecError::NotPowerOfTwo && !is_pow2(spectrum@.len() as int),
        },
{
    let log = match log2_of(spectrum.len()) {
        Some(l) => l,
        None => {
            return Err(CodecError::NotPowerOfTwo);
        },
    };
    let n = spectrum.len();
    let mut buf: Vec<Coeff> = Vec::new();
    for i in 0..n
        invariant
            buf@.len() == i,
            spectrum@.len() == n,
    {
        buf.push(spectrum[i]);
    }
    run_stages(ops, &mut buf, log, true);
    let reordered = reorder(&buf, log);
    proof {
        lemma_pow2_pos(log as nat);
    }
    let mut out: Vec<i16> = Vec::new();
    for i in 0..n
        invariant
            out@.len() == i,
            reordered@.len() == n,
            n >= 1,
    {
        out.push(ops.sample_of_coeff(reordered[i], n));
    }
    Ok(out)
}

} // verus!
