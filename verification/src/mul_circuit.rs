//! 32 x 32 -> 64-bit multiplication by shift and add: stage `i` looks at bit
//! `i` of B; a zero bit passes the accumulator on, a one bit adds A shifted
//! by `i` to it with ADD64 first.
use vstd::prelude::*;

use crate::arith_circuit::{all_held, AnchorGen};
use crate::circuit::{
    call, define_bundle_rule, grown, has_room, holds, index_rule_for, lemma_increasing_distinct, pair, sequence,
    stage_frame, Fixture,
};
use crate::store::OptimizedLinkStore;
use crate::wide64_circuit::Wide64Program;
use crate::Handle;

verus! {

/// The anchors of MUL32: `seed` followed by `o o c c o c o c o o c o c c o o c`.
fn mul_anchors(store: &mut OptimizedLinkStore, seed: Handle, o: Handle, c: Handle) -> (g: AnchorGen)
    requires
        has_room(old(store), 17),
        holds(old(store), seed),
        holds(old(store), o),
        holds(old(store), c),
    ensures
        grown(old(store), final(store), 17),
        g.ok(final(store)),
{
    let poles = [o, o, c, c, o, c, o, c, o, o, c, o, c, c, o, o, c];
    let mut current = seed;
    let mut i: usize = 0;
    while i < 17
        invariant
            i <= 17,
            poles@.len() == 17,
            grown(old(store), store, i as nat),
            has_room(old(store), 17),
            holds(store, current),
            forall|j: int| 0 <= j < 17 ==> holds(old(store), #[trigger] poles@[j]),
        decreases 17 - i,
    {
        current = pair(store, current, poles[i]);
        i += 1;
    }
    AnchorGen { current, flip: false, o, c }
}

/// The Links the multiplier rules are built from.
#[derive(Clone, Copy)]
struct MulNames {
    theory: Handle,
    o: Handle,
    apply: Handle,
    zero: Handle,
    one: Handle,
    mul32: Handle,
    result_tag: Handle,
    add64: Handle,
    add_result_tag: Handle,
}

impl MulNames {
    spec fn held(&self, store: &OptimizedLinkStore) -> bool {
        &&& holds(store, self.theory)
        &&& holds(store, self.o)
        &&& holds(store, self.apply)
        &&& holds(store, self.zero)
        &&& holds(store, self.one)
        &&& holds(store, self.mul32)
        &&& holds(store, self.result_tag)
        &&& holds(store, self.add64)
        &&& holds(store, self.add_result_tag)
    }
}

/// A's bits shifted up by `shift` into a 64-bit `[lo, hi]` pair of words.
fn partial_wide(store: &mut OptimizedLinkStore, zero: Handle, a_bits: &[Handle], shift: usize) -> (h: Handle)
    requires
        has_room(old(store), 140),
        a_bits@.len() == 32,
        shift < 32,
        holds(old(store), zero),
        all_held(old(store), a_bits@),
    ensures
        grown(old(store), final(store), 140),
        holds(final(store), h),
{
    let mut bits: Vec<Handle> = Vec::new();
    let mut pos: usize = 0;
    while pos < 64
        invariant
            pos <= 64,
            shift < 32,
            a_bits@.len() == 32,
            bits@.len() == pos,
            holds(old(store), zero),
            all_held(old(store), a_bits@),
            all_held(old(store), bits@),
        decreases 64 - pos,
    {
        if pos >= shift && pos < shift + 32 {
            bits.push(a_bits[pos - shift]);
        } else {
            bits.push(zero);
        }
        pos += 1;
    }
    let lo = sequence(store, &bits.as_slice()[0..32]);
    let hi = sequence(store, &bits.as_slice()[32..64]);
    sequence(store, &[lo, hi])
}

/// B's bits with the constant `bit` at position `i` and the roles `others`
/// (31 of them) in the other positions, in order.
fn b_template(others: &[Handle], bit: Handle, i: usize) -> (v: Vec<Handle>)
    requires
        others@.len() == 31,
        i < 32,
    ensures
        v@.len() == 32,
        forall|j: int| 0 <= j < 32 ==> (#[trigger] v@[j] == bit || others@.contains(v@[j])),
{
    let mut v: Vec<Handle> = Vec::new();
    let mut pos: usize = 0;
    while pos < 32
        invariant
            pos <= 32,
            i < 32,
            others@.len() == 31,
            v@.len() == pos,
            forall|j: int| 0 <= j < pos ==> (#[trigger] v@[j] == bit || others@.contains(v@[j])),
        decreases 32 - pos,
    {
        if pos == i {
            v.push(bit);
        } else if pos < i {
            proof {
                assert(others@[pos as int] == others@[pos as int]);
            }
            v.push(others[pos]);
        } else {
            v.push(others[pos - 1]);
        }
        pos += 1;
    }
    v
}

/// MUL OPEN: `K -> Call(MUL32, [A, B])` becomes `K -> Call(Stage_0, [A, B, 0])`.
#[verifier::rlimit(100)]
fn mul_open(store: &mut OptimizedLinkStore, gen: &mut AnchorGen, n: MulNames, stage0: Handle, zero64: Handle)
    requires
        has_room(old(store), 600),
        old(gen).ok(old(store)),
        n.held(old(store)),
        holds(old(store), stage0),
        holds(old(store), zero64),
    ensures
        grown(old(store), final(store), 600),
        final(gen).ok(final(store)),
{
    // [K, a_0 .. a_31, b_0 .. b_31]
    let r = gen.roles(store, 65);
    let k = r[0];
    let aword = sequence(store, &r.as_slice()[1..33]);
    let bword = sequence(store, &r.as_slice()[33..65]);
    let args = sequence(store, &[aword, bword]);
    let before_call = call(store, n.apply, n.mul32, args);
    let before = pair(store, k, before_call);
    let stage_args = sequence(store, &[aword, bword, zero64]);
    let stage_call = call(store, n.apply, stage0, stage_args);
    let after = pair(store, k, stage_call);
    proof {
        lemma_increasing_distinct(r@);
    }
    let (_, admission) = define_bundle_rule(store, n.theory, r.as_slice(), before, &[after]);
    index_rule_for(store, &[n.o], admission);
}

/// Passing `acc` to the next stage, or publishing it after the last:
/// `K -> Call(Stage_next, [A, B, acc])` or `K -> PAIR(ResultTag, [acc])`.
fn mul_next(
    store: &mut OptimizedLinkStore,
    n: MulNames,
    k: Handle,
    aword: Handle,
    bword: Handle,
    acc: Handle,
    next_stage: Handle,
    last: bool,
) -> (after: Handle)
    requires
        has_room(old(store), 20),
        n.held(old(store)),
        holds(old(store), k),
        holds(old(store), aword),
        holds(old(store), bword),
        holds(old(store), acc),
        holds(old(store), next_stage),
    ensures
        grown(old(store), final(store), 20),
        holds(final(store), after),
{
    if !last {
        let next_args = sequence(store, &[aword, bword, acc]);
        let next_call = call(store, n.apply, next_stage, next_args);
        pair(store, k, next_call)
    } else {
        let payload = sequence(store, &[acc]);
        let endpoint = pair(store, n.result_tag, payload);
        pair(store, k, endpoint)
    }
}

/// Stage `i` on a B bit of value `bit_value`:
/// `K -> Call(Stage_i, [A, B, acc])` passes `acc` on for a zero bit, and for a
/// one bit becomes `AddFrame_i([K, A, B]) -> Call(ADD64, [acc, A << i, 0])`.
#[verifier::rlimit(100)]
fn mul_stage(
    store: &mut OptimizedLinkStore,
    gen: &mut AnchorGen,
    n: MulNames,
    stage: Handle,
    add_tag: Handle,
    next_stage: Handle,
    i: usize,
    bit_value: bool,
)
    requires
        has_room(old(store), 700),
        old(gen).ok(old(store)),
        n.held(old(store)),
        holds(old(store), stage),
        holds(old(store), add_tag),
        holds(old(store), next_stage),
        i < 32,
    ensures
        grown(old(store), final(store), 700),
        final(gen).ok(final(store)),
{
    // [K, a_0 .. a_31, the 31 other B bits, acc]
    let r = gen.roles(store, 65);
    let k = r[0];
    let acc = r[64];
    let bit = if bit_value {
        n.one
    } else {
        n.zero
    };
    let b_bits = b_template(&r.as_slice()[33..64], bit, i);
    proof {
        assert forall|j: int| 0 <= j < 32 implies holds(store, #[trigger] b_bits@[j]) by {
            if b_bits@[j] != bit {
                let others = r@.subrange(33, 64);
                let m = choose|m: int| 0 <= m < others.len() && others[m] == b_bits@[j];
                assert(others[m] == r@[33 + m]);
            }
        }
    }
    let aword = sequence(store, &r.as_slice()[1..33]);
    let bword = sequence(store, b_bits.as_slice());
    let stage_args = sequence(store, &[aword, bword, acc]);
    let stage_call = call(store, n.apply, stage, stage_args);
    let before = pair(store, k, stage_call);
    let after = if !bit_value {
        mul_next(store, n, k, aword, bword, acc, next_stage, i + 1 == 32)
    } else {
        let partial = partial_wide(store, n.zero, &r.as_slice()[1..33], i);
        let add_args = sequence(store, &[acc, partial, n.zero]);
        let add_call = call(store, n.apply, n.add64, add_args);
        let caller = stage_frame(store, add_tag, &[k, aword, bword]);
        pair(store, caller, add_call)
    };
    proof {
        lemma_increasing_distinct(r@);
    }
    let (_, admission) = define_bundle_rule(store, n.theory, r.as_slice(), before, &[after]);
    index_rule_for(store, &[n.o], admission);
}

/// The ADD64 return of stage `i`:
/// `AddFrame_i([K, A, B]) -> PAIR(Add64Result, [sum, 0])` passes `sum` on.
#[verifier::rlimit(100)]
fn mul_add_return(
    store: &mut OptimizedLinkStore,
    gen: &mut AnchorGen,
    n: MulNames,
    add_tag: Handle,
    next_stage: Handle,
    i: usize,
)
    requires
        has_room(old(store), 700),
        old(gen).ok(old(store)),
        n.held(old(store)),
        holds(old(store), add_tag),
        holds(old(store), next_stage),
        i < 32,
    ensures
        grown(old(store), final(store), 700),
        final(gen).ok(final(store)),
{
    // [K, a_0 .. a_31, b_0 .. b_31, sum]
    let r = gen.roles(store, 66);
    let k = r[0];
    let sum64 = r[65];
    let aword = sequence(store, &r.as_slice()[1..33]);
    let bword = sequence(store, &r.as_slice()[33..65]);
    let caller = stage_frame(store, add_tag, &[k, aword, bword]);
    let add_payload = sequence(store, &[sum64, n.zero]);
    let add_endpoint = pair(store, n.add_result_tag, add_payload);
    let before = pair(store, caller, add_endpoint);
    let after = mul_next(store, n, k, aword, bword, sum64, next_stage, i + 1 == 32);
    proof {
        lemma_increasing_distinct(r@);
    }
    let (_, admission) = define_bundle_rule(store, n.theory, r.as_slice(), before, &[after]);
    index_rule_for(store, &[n.add_result_tag], admission);
}

/// The installed multiplier.
pub struct Mul32Program {
    pub mul32: Handle,
    pub result_tag: Handle,
    pub add64: Wide64Program,
    pub links_after_build: usize,
}

impl Mul32Program {
    /// Installs ADD64 and the multiplier on it. `K -> Call(MUL32, [A, B])`
    /// reacts in `33 + (1 + ADD64 steps) * popcount(B)` steps to
    /// `K -> PAIR(ResultTag, [[Lo, Hi]])`.
    #[verifier::rlimit(100)]
    pub fn install(f: &mut Fixture) -> (p: Mul32Program)
        requires
            old(f).wf(),
            has_room(&old(f).store, 125000),
        ensures
            final(f).wf(),
            grown(&old(f).store, &final(f).store, 125000),
            final(f).engine == old(f).engine,
            final(f).o == old(f).o && final(f).c == old(f).c && final(f).theory == old(f).theory,
            final(f).full == old(f).full && final(f).k == old(f).k && final(f).apply == old(f).apply,
            final(f).zero == old(f).zero && final(f).one == old(f).one && final(f).args3 == old(f).args3,
            p.add64.active_steps == 3 + 2 * (5 + 16 * 32),
            p.links_after_build == final(f).store.links().len() - 1,
            holds(&final(f).store, p.mul32),
            holds(&final(f).store, p.result_tag),
    {
        let add64 = Wide64Program::install(f);
        let seed = pair(&mut f.store, add64.add64, add64.result_tag);
        let mut gen = mul_anchors(&mut f.store, seed, f.o, f.c);
        let mul32 = gen.function_pair(&mut f.store);
        let result_tag = gen.function_pair(&mut f.store);
        let mut stages: Vec<Handle> = Vec::new();
        let mut add_tags: Vec<Handle> = Vec::new();
        let mut i: usize = 0;
        while i < 32
            invariant
                i <= 32,
                has_room(&old(f).store, 125000),
                grown(&old(f).store, &f.store, 51000 + 1 + 17 + 6 + 6 * i as nat),
                gen.ok(&f.store),
                stages@.len() == i,
                add_tags@.len() == i,
                all_held(&f.store, stages@),
                all_held(&f.store, add_tags@),
                holds(&f.store, mul32),
                holds(&f.store, result_tag),
                f.wf(),
                f.engine == old(f).engine,
                f.o == old(f).o && f.c == old(f).c && f.theory == old(f).theory,
                f.full == old(f).full && f.k == old(f).k && f.apply == old(f).apply,
                f.zero == old(f).zero && f.one == old(f).one && f.args3 == old(f).args3,
                holds(&f.store, add64.add64),
                holds(&f.store, add64.result_tag),
                add64.active_steps == 3 + 2 * (5 + 16 * 32),
            decreases 32 - i,
        {
            let stage = gen.function_pair(&mut f.store);
            stages.push(stage);
            let add_tag = gen.function_pair(&mut f.store);
            add_tags.push(add_tag);
            proof {
                f.store.lemma_wf_links();
            }
            i += 1;
        }
        let zeros = crate::unary_circuit::word_of(f.zero, f.zero, 32);
        let zero_word = sequence(&mut f.store, zeros.as_slice());
        let zero64 = sequence(&mut f.store, &[zero_word, zero_word]);
        let n = MulNames {
            theory: f.theory,
            o: f.o,
            apply: f.apply,
            zero: f.zero,
            one: f.one,
            mul32,
            result_tag,
            add64: add64.add64,
            add_result_tag: add64.result_tag,
        };
        mul_open(&mut f.store, &mut gen, n, stages[0], zero64);
        let mut i: usize = 0;
        while i < 32
            invariant
                i <= 32,
                has_room(&old(f).store, 125000),
                grown(&old(f).store, &f.store, 51000 + 1 + 17 + 6 + 192 + 64 + 4 + 600 + 2100 * i as nat),
                gen.ok(&f.store),
                n.held(&f.store),
                stages@.len() == 32,
                add_tags@.len() == 32,
                all_held(&f.store, stages@),
                all_held(&f.store, add_tags@),
                f.wf(),
                f.engine == old(f).engine,
                f.o == old(f).o && f.c == old(f).c && f.theory == old(f).theory,
                f.full == old(f).full && f.k == old(f).k && f.apply == old(f).apply,
                f.zero == old(f).zero && f.one == old(f).one && f.args3 == old(f).args3,
                holds(&f.store, mul32),
                holds(&f.store, result_tag),
                add64.active_steps == 3 + 2 * (5 + 16 * 32),
            decreases 32 - i,
        {
            let next_stage = if i + 1 < 32 {
                stages[i + 1]
            } else {
                stages[i]
            };
            mul_stage(&mut f.store, &mut gen, n, stages[i], add_tags[i], next_stage, i, false);
            mul_stage(&mut f.store, &mut gen, n, stages[i], add_tags[i], next_stage, i, true);
            mul_add_return(&mut f.store, &mut gen, n, add_tags[i], next_stage, i);
            proof {
                f.store.lemma_wf_links();
            }
            i += 1;
        }
        proof {
            f.store.lemma_wf_links();
        }
        let links_after_build = f.store.link_count();
        Mul32Program { mul32, result_tag, add64, links_after_build }
    }
}

} // verus!
