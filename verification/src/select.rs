//! The spectral selector: per analysis window, the `out_size` strongest
//! frequency bins within the audible range, by bounded sorted insertion.
//!
//! Magnitudes enter as ordering keys — the bit patterns of the coefficients'
//! norms, which order exactly as the (non-negative) norms themselves — so the
//! whole selection is verified over plain integers: the result always has
//! exactly `out_size` slots, descending by key, each either the untouched
//! zero placeholder or a candidate from the allowed bin range, no bin twice,
//! and every allowed bin that is absent has a key no larger than the smallest
//! retained one.
use vstd::prelude::*;
use vstd::arithmetic::power2::is_pow2;
use crate::coeff::{Coeff, Component, Numerics, spec_placeholder};
use crate::fft::{compute_fft, MAX_WINDOW};
use crate::CodecError;

verus! {

/// One retained slot: the selected component and its ordering key (the bit
/// pattern of its magnitude; the placeholder slots carry key zero).
#[derive(Clone, Copy, Debug, PartialEq, Eq, Structural)]
pub struct Slot {
    pub key: u32,
    pub comp: Component,
}

/// The bins the selector may retain: a parameterizable floor (0 keeps the DC
/// bin) up to the bin below the audible ceiling.
pub const AUDIBLE_CEILING_HZ: u32 = 20000;

/// A slot is untouched: the zero-magnitude placeholder the selection started
/// from. Every selected slot has a key above zero, because insertion only
/// happens on a strict comparison against a key that is at least zero.
pub open spec fn is_placeholder(s: Slot) -> bool {
    s.key == 0 && s.comp == spec_placeholder()
}

/// A slot is consistent with the window it was selected from: either untouched,
/// or a candidate bin of the allowed range `[lo, hi)` carrying that bin's key
/// and coefficient.
pub open spec fn slot_valid(spectrum: Seq<Coeff>, keys: Seq<u32>, lo: int, hi: int, s: Slot) -> bool {
    is_placeholder(s) || (s.key > 0 && lo <= s.comp.freq < hi && s.comp.freq < spectrum.len()
        && s.key == keys[s.comp.freq as int] && s.comp.coeff == spectrum[s.comp.freq as int])
}

/// Bin `p` was retained: some slot holds it, with its key.
pub open spec fn retained(slots: Seq<Slot>, keys: Seq<u32>, p: int) -> bool {
    exists|t: int|
        0 <= t < slots.len() && #[trigger] slots[t].comp.freq == p && slots[t].key > 0
            && slots[t].key == keys[p]
}

/// The full selection result is well formed: exactly the slot count asked for,
/// descending by key, each slot valid, and no bin held twice.
pub open spec fn selection_wf(
    spectrum: Seq<Coeff>,
    keys: Seq<u32>,
    lo: int,
    hi: int,
    slots: Seq<Slot>,
) -> bool {
    (forall|i: int, j: int| 0 <= i < j < slots.len() ==> slots[i].key >= slots[j].key)
        && (forall|t: int| 0 <= t < slots.len() ==> slot_valid(spectrum, keys, lo, hi, #[trigger] slots[t]))
        && (forall|t1: int, t2: int|
        0 <= t1 < t2 < slots.len() && slots[t1].key > 0 && slots[t2].key > 0
            ==> slots[t1].comp.freq != slots[t2].comp.freq)
}

/// The first slot whose key the candidate strictly exceeds, if any.
fn find_pos(slots: &Vec<Slot>, key: u32) -> (r: Option<usize>)
    ensures
        match r {
            Some(i) => i < slots@.len() && key > slots@[i as int].key && forall|j: int|
                0 <= j < i ==> key <= slots@[j].key,
            None => forall|j: int| 0 <= j < slots@.len() ==> key <= slots@[j].key,
        },
{
    for i in 0..slots.len()
        invariant
            forall|j: int| 0 <= j < i ==> key <= slots@[j].key,
    {
        if key > slots[i].key {
            return Some(i);
        }
    }
    None
}

/// Bounded top-`out_size` selection over the candidate bins `[lo, hi)` of one
/// window, descending by key. The keys are given alongside the spectrum, one
/// per bin; the result is exactly `out_size` slots, well formed for the
/// window, and dominating: any allowed bin that is not retained has a key no
/// larger than the smallest retained one.
pub fn select_top_k(
    spectrum: &Vec<Coeff>,
    keys: &Vec<u32>,
    lo: usize,
    hi: usize,
    out_size: usize,
) -> (r: Vec<Slot>)
    requires
        keys@.len() == spectrum@.len(),
        lo <= hi <= spectrum@.len(),
        hi <= MAX_WINDOW,
        1 <= out_size,
    ensures
        r@.len() == out_size,
        selection_wf(spectrum@, keys@, lo as int, hi as int, r@),
        forall|p: int|
            lo <= p < hi ==> keys@[p] <= r@[out_size - 1].key || retained(r@, keys@, p),
{
    let mut slots: Vec<Slot> = Vec::new();
    while slots.len() < out_size
        invariant
            slots@.len() <= out_size,
            forall|t: int| 0 <= t < slots@.len() ==> is_placeholder(#[trigger] slots@[t]),
        decreases out_size - slots@.len(),
    {
        slots.push(Slot { key: 0, comp: Component { freq: 0, coeff: Coeff { re: 0, im: 0 } } });
    }
    assert(forall|t: int|
        0 <= t < slots@.len() ==> slot_valid(spectrum@, keys@, lo as int, lo as int,
        #[trigger] slots@[t]));
    for ind in lo..hi
        invariant
            keys@.len() == spectrum@.len(),
            lo <= ind <= hi <= spectrum@.len(),
            hi <= MAX_WINDOW,
            1 <= out_size,
            slots@.len() == out_size,
            selection_wf(spectrum@, keys@, lo as int, ind as int, slots@),
            forall|p: int|
                lo <= p < ind ==> keys@[p] <= slots@[out_size - 1].key || retained(slots@, keys@, p),
    {
        let key = keys[ind];
        let ghost pre = slots@;
        if key >= slots[out_size - 1].key {
            match find_pos(&slots, key) {
                None => {
                    proof {
                        lemma_step_skipped(spectrum@, keys@, lo as int, ind as int, hi as int, pre);
                    }
                },
                Some(i) => {
                    let _ = slots.pop();
                    slots.insert(
                        i,
                        Slot {
                            key,
                            comp: Component { freq: ind as u16, coeff: spectrum[ind] },
                        },
                    );
                    proof {
                        lemma_step_inserted(
                            spectrum@,
                            keys@,
                            lo as int,
                            ind as int,
                            hi as int,
                            pre,
                            slots@,
                            i as int,
                        );
                    }
                },
            }
        } else {
            proof {
                lemma_step_skipped(spectrum@, keys@, lo as int, ind as int, hi as int, pre);
            }
        }
    }
    slots
}

/// A candidate whose key exceeds no slot's key is dropped, and everything the
/// selection promised still holds with the candidate range grown by one.
proof fn lemma_step_skipped(
    spectrum: Seq<Coeff>,
    keys: Seq<u32>,
    lo: int,
    ind: int,
    hi: int,
    slots: Seq<Slot>,
)
    requires
        keys.len() == spectrum.len(),
        lo <= ind < hi <= spectrum.len(),
        slots.len() >= 1,
        selection_wf(spectrum, keys, lo, ind, slots),
        keys[ind] <= slots[slots.len() - 1].key,
        forall|p: int|
            lo <= p < ind ==> keys[p] <= slots[slots.len() - 1].key || retained(slots, keys, p),
    ensures
        selection_wf(spectrum, keys, lo, ind + 1, slots),
        forall|p: int|
            lo <= p < ind + 1 ==> keys[p] <= slots[slots.len() - 1].key || retained(slots, keys, p),
{
    assert(forall|t: int|
        0 <= t < slots.len() && slot_valid(spectrum, keys, lo, ind, #[trigger] slots[t])
            ==> slot_valid(spectrum, keys, lo, ind + 1, slots[t]));
}

/// Inserting a candidate at the first slot it strictly exceeds, after evicting
/// the last slot, keeps the selection well formed and dominating.
proof fn lemma_step_inserted(
    spectrum: Seq<Coeff>,
    keys: Seq<u32>,
    lo: int,
    ind: int,
    hi: int,
    pre: Seq<Slot>,
    post: Seq<Slot>,
    i: int,
)
    requires
        keys.len() == spectrum.len(),
        0 <= lo <= ind < hi <= spectrum.len(),
        ind < 0x10000,
        pre.len() >= 1,
        selection_wf(spectrum, keys, lo, ind, pre),
        forall|p: int|
            lo <= p < ind ==> keys[p] <= pre[pre.len() - 1].key || retained(pre, keys, p),
        0 <= i < pre.len(),
        keys[ind] > pre[i].key,
        forall|j: int| 0 <= j < i ==> keys[ind] <= pre[j].key,
        post == pre.subrange(0, pre.len() - 1).insert(
            i,
            Slot {
                key: keys[ind],
                comp: Component { freq: ind as u16, coeff: spectrum[ind] },
            },
        ),
    ensures
        post.len() == pre.len(),
        selection_wf(spectrum, keys, lo, ind + 1, post),
        forall|p: int|
            lo <= p < ind + 1 ==> keys[p] <= post[post.len() - 1].key || retained(post, keys, p),
{
    let n = pre.len();
    let cand = Slot { key: keys[ind], comp: Component { freq: ind as u16, coeff: spectrum[ind] } };
    assert(post.len() == n);
    // Where each position of the new sequence comes from.
    assert(forall|t: int| 0 <= t < i ==> post[t] == pre[t]);
    assert(post[i] == cand);
    assert(forall|t: int| i < t < n ==> post[t] == pre[t - 1]);
    // The new minimum is no smaller than the old one.
    assert(post[n - 1].key >= pre[n - 1].key);
    // Sorted.
    assert forall|t1: int, t2: int| 0 <= t1 < t2 < n implies post[t1].key >= post[t2].key by {
        if t2 < i {
            assert(post[t1] == pre[t1] && post[t2] == pre[t2]);
        } else if t2 == i {
            assert(post[t1] == pre[t1] && post[t2] == cand);
            assert(keys[ind] <= pre[t1].key);
        } else {
            assert(post[t2] == pre[t2 - 1]);
            if t1 < i {
                assert(post[t1] == pre[t1]);
                if t1 < t2 - 1 {
                    assert(pre[t1].key >= pre[t2 - 1].key);
                }
            } else if t1 == i {
                assert(post[t1] == cand);
                if i < t2 - 1 {
                    assert(pre[i].key >= pre[t2 - 1].key);
                }
                assert(keys[ind] > pre[i].key);
            } else {
                assert(post[t1] == pre[t1 - 1]);
            }
        }
    }
    // Valid slots for the grown range.
    assert(forall|t: int|
        0 <= t < n && slot_valid(spectrum, keys, lo, ind, #[trigger] pre[t]) ==> slot_valid(
            spectrum,
            keys,
            lo,
            ind + 1,
            pre[t],
        ));
    assert(slot_valid(spectrum, keys, lo, ind + 1, cand));
    // Distinct bins: every selected slot of `pre` holds a bin below `ind`.
    assert(forall|t1: int, t2: int|
        0 <= t1 < t2 < n && post[t1].key > 0 && post[t2].key > 0 ==> post[t1].comp.freq
            != post[t2].comp.freq);
    // Dominance for the previously handled bins.
    assert forall|p: int| lo <= p < ind + 1 implies keys[p] <= post[n - 1].key || retained(
        post,
        keys,
        p,
    ) by {
        if p == ind {
            assert(post[i].comp.freq == p && post[i].key == keys[p]);
            assert(retained(post, keys, p));
        } else {
            if !(keys[p] <= pre[n - 1].key) {
                assert(retained(pre, keys, p));
                let t = choose|t: int|
                    0 <= t < n && #[trigger] pre[t].comp.freq == p && pre[t].key > 0 && pre[t].key
                        == keys[p];
                if t == n - 1 {
                    // The evicted slot: its key was the old minimum.
                    assert(keys[p] == pre[n - 1].key);
                    assert(false);
                } else if t < i {
                    assert(post[t].comp.freq == p);
                    assert(retained(post, keys, p));
                } else {
                    assert(post[t + 1] == pre[t]);
                    assert(post[t + 1].comp.freq == p);
                    assert(retained(post, keys, p));
                }
            }
        }
    }
}

/// The allowed candidate bins of a window of length `n` at a given sample
/// rate: everything below the bin of the audible ceiling, capped at `n`.
pub open spec fn spec_bin_limit(n: nat, sample_rate: nat) -> nat
    recommends
        sample_rate >= 1,
{
    let raw = (AUDIBLE_CEILING_HZ as nat) * n / sample_rate;
    if raw <= n {
        raw
    } else {
        n
    }
}

/// The candidate ceiling, executable: the discrete bin of the audible ceiling
/// frequency, `ceiling * n / sample_rate`, capped at the window length.
pub fn bin_limit(n: usize, sample_rate: u32) -> (r: usize)
    requires
        n <= MAX_WINDOW,
        sample_rate >= 1,
    ensures
        r == spec_bin_limit(n as nat, sample_rate as nat),
        r <= n,
{
    proof {
        assert((AUDIBLE_CEILING_HZ as u64) * (n as u64) <= 20000 * 0x10000) by (nonlinear_arith)
            requires
                n <= 0x10000,
        ;
    }
    let raw = (AUDIBLE_CEILING_HZ as u64) * (n as u64) / (sample_rate as u64);
    if raw <= n as u64 {
        raw as usize
    } else {
        n
    }
}

/// Analyzes one window: forward transform, then top-`out_size` selection over
/// the bins below the audible ceiling, appending exactly `out_size`
/// components to `out`. Rejected when the window length is not a power of
/// two, leaving `out` untouched.
pub fn encode_chunk<N: Numerics>(
    ops: &N,
    chunk: &Vec<i16>,
    out: &mut Vec<Component>,
    out_size: usize,
    sample_rate: u32,
) -> (r: Result<(), CodecError>)
    requires
        chunk@.len() <= MAX_WINDOW,
        1 <= out_size,
        sample_rate >= 1,
        old(out)@.len() + out_size <= usize::MAX,
    ensures
        match r {
            Ok(()) => {
                &&& is_pow2(chunk@.len() as int)
                &&& final(out)@.len() == old(out)@.len() + out_size
                &&& final(out)@.subrange(0, old(out)@.len() as int) == old(out)@
                &&& forall|t: int|
                    old(out)@.len() <= t < final(out)@.len() ==> (#[trigger] final(out)@[t]).freq
                        < spec_bin_limit(chunk@.len(), sample_rate as nat) || final(out)@[t]
                        == spec_placeholder()
            },
            Err(e) => {
                &&& e == CodecError::NotPowerOfTwo
                &&& !is_pow2(chunk@.len() as int)
                &&& final(out)@ == old(out)@
            },
        },
{
    let spectrum = match compute_fft(ops, chunk) {
        Ok(v) => v,
        Err(e) => {
            return Err(e);
        },
    };
    let mut keys: Vec<u32> = Vec::new();
    for i in 0..spectrum.len()
        invariant
            keys@.len() == i,
    {
        keys.push(ops.norm_key(spectrum[i]));
    }
    let limit = bin_limit(chunk.len(), sample_rate);
    let slots = select_top_k(&spectrum, &keys, 0, limit, out_size);
    let ghost pre = out@;
    for t in 0..out_size
        invariant
            slots@.len() == out_size,
            out@.len() == pre.len() + t,
            out@.subrange(0, pre.len() as int) == pre,
            spectrum@.len() == chunk@.len(),
            keys@.len() == spectrum@.len(),
            selection_wf(spectrum@, keys@, 0, spec_bin_limit(chunk@.len(), sample_rate as nat) as int, slots@),
            forall|j: int|
                pre.len() <= j < out@.len() ==> (#[trigger] out@[j]).freq < spec_bin_limit(
                    chunk@.len(),
                    sample_rate as nat,
                ) || out@[j] == spec_placeholder(),
    {
        let ghost before = out@;
        out.push(slots[t].comp);
        proof {
            assert(out@.subrange(0, pre.len() as int) =~= before.subrange(0, pre.len() as int));
            assert(slot_valid(
                spectrum@,
                keys@,
                0,
                spec_bin_limit(chunk@.len(), sample_rate as nat) as int,
                slots@[t as int],
            ));
        }
    }
    Ok(())
}

} // verus!
