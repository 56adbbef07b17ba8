//! Running MUL32 and checking its 64-bit product.
use vstd::prelude::*;

use crate::circuit::Fixture;
use crate::mul_circuit::Mul32Program;
use crate::mux_run::{
    bit_of, decode_word, result_payload, run_exact_steps, runnable, start_call_runnable, word_bits,
};
use crate::structural::{materialize_exact_sequence, read_exact_sequence};

verus! {

/// The number of set bits among the low `n` bits of `b`.
pub open spec fn popcount(b: u32, n: nat) -> nat
    decreases n,
{
    if n == 0 {
        0
    } else {
        popcount(b, (n - 1) as nat) + bit_of(b, n - 1) as nat
    }
}

fn popcount32(b: u32) -> (c: u32)
    ensures
        c == popcount(b, 32),
        c <= 32,
{
    let mut c: u32 = 0;
    let mut i: u32 = 0;
    while i < 32
        invariant
            i <= 32,
            c == popcount(b, i as nat),
            c <= i,
        decreases 32 - i,
    {
        let bit = (b >> i) & 1;
        proof {
            assert((b >> i) & 1 <= 1) by (bit_vector)
                requires
                    i < 32,
            ;
        }
        c = c + bit;
        i += 1;
    }
    c
}

/// The reactions of MUL32 on `b`: the 33 stage steps and, for each set bit,
/// ADD64 and its return.
pub open spec fn mul_steps(b: u32) -> nat {
    33 + 1038 * popcount(b, 32)
}

/// A MUL32 lab run: the low and high words of the product.
#[derive(Clone, Copy, Debug, PartialEq, Eq)]
pub struct WebMulOutcome {
    pub lo: u32,
    pub hi: u32,
    pub reactions: u32,
    pub links_after_build: usize,
    pub links_after_first: usize,
    pub steady_link_delta: usize,
    pub quiescent: u8,
}

/// `Call(MUL32, [A, B])`, run for `steps` reactions, read back as
/// `(lo, hi)`.
fn run_mul(f: &mut Fixture, program: &Mul32Program, a: u32, b: u32, steps: usize) -> (r: Option<(u32, u32)>)
    requires
        runnable(old(f)),
    ensures
        runnable(final(f)),
        final(f).k == old(f).k && final(f).zero == old(f).zero && final(f).one == old(f).one,
        final(f).apply == old(f).apply,
{
    let a_bits = word_bits(f.zero, f.one, 32, a);
    let b_bits = word_bits(f.zero, f.one, 32, b);
    let aword = match materialize_exact_sequence(&mut f.store, a_bits.as_slice()) {
        Ok(h) => h,
        Err(_) => return None,
    };
    let bword = match materialize_exact_sequence(&mut f.store, b_bits.as_slice()) {
        Ok(h) => h,
        Err(_) => return None,
    };
    let args = match materialize_exact_sequence(&mut f.store, &[aword, bword]) {
        Ok(h) => h,
        Err(_) => return None,
    };
    if !start_call_runnable(f, program.mul32, args) {
        return None;
    }
    if !run_exact_steps(&mut f.engine, &mut f.store, steps) {
        return None;
    }
    let values = match result_payload(f, program.result_tag) {
        Some(v) => v,
        None => return None,
    };
    if values.len() != 1 {
        return None;
    }
    let halves = match read_exact_sequence(&f.store, values[0]) {
        Ok(v) => v,
        Err(_) => return None,
    };
    if halves.len() != 2 {
        return None;
    }
    let lo = match decode_word(&f.store, f.zero, f.one, 32, halves[0]) {
        Some(v) => v,
        None => return None,
    };
    let hi = match decode_word(&f.store, f.zero, f.one, 32, halves[1]) {
        Some(v) => v,
        None => return None,
    };
    Some((lo, hi))
}

/// MUL32 of `a` and `b` in a fresh memory, run twice; returned only when
/// the decoded product is `a * b` and the identical rerun reproduced it
/// without adding a Link. `None` for any run that fails or breaks one of
/// these promises.
pub fn web_run_mul32(a: u32, b: u32) -> (r: Option<WebMulOutcome>)
    ensures
        r matches Some(o) ==> {
            &&& o.lo as int + o.hi as int * 0x1_0000_0000 == a as int * b as int
            &&& o.reactions == mul_steps(b)
            &&& o.quiescent == 1
            &&& o.steady_link_delta == 0
            &&& o.links_after_build <= o.links_after_first
        },
{
    let mut f = Fixture::new();
    let p = Mul32Program::install(&mut f);
    let links_after_build = f.store.link_count();
    let ones = popcount32(b);
    let steps: u32 = 33 + 1038 * ones;
    let first = match run_mul(&mut f, &p, a, b, steps as usize) {
        Some(v) => v,
        None => return None,
    };
    let links_after_first = f.store.link_count();
    let second = match run_mul(&mut f, &p, a, b, steps as usize) {
        Some(v) => v,
        None => return None,
    };
    proof {
        assert(a as int * b as int <= 0xffff_ffff * 0xffff_ffff) by (nonlinear_arith)
            requires
                a <= 0xffff_ffff,
                b <= 0xffff_ffff,
        ;
    }
    let product: u64 = a as u64 * b as u64;
    if first.0 as u64 != product % 0x1_0000_0000 || first.1 as u64 != product / 0x1_0000_0000 || second.0
        != first.0 || second.1 != first.1 {
        return None;
    }
    proof {
        let p = product as int;
        assert(p == (p % 0x1_0000_0000) + (p / 0x1_0000_0000) * 0x1_0000_0000) by (nonlinear_arith);
    }
    let links_after_second = f.store.link_count();
    if links_after_first < links_after_build || links_after_second != links_after_first {
        return None;
    }
    Some(
        WebMulOutcome {
            lo: first.0,
            hi: first.1,
            reactions: steps,
            links_after_build,
            links_after_first,
            steady_link_delta: 0,
            quiescent: 1,
        },
    )
}

} // verus!
