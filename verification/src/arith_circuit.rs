//! The shared N-bit arithmetic circuit: one program that adds (mode 0,
//! ADD/ADC) or subtracts (mode 1, SUB/SBB) two N-bit words with a carry or
//! borrow in, by XOR-ing each B bit with the mode and rippling through the
//! fixture's full adder. The result envelope exposes the word, the
//! carry/borrow status and the carry taps for flags.
use vstd::prelude::*;

use crate::circuit::{
    call, define_bundle_rule, grown, has_room, holds, increasing, index_rule, index_rule_for,
    lemma_increasing_distinct, pair, sequence, stage_frame, Fixture,
};
use crate::model::{extends, lemma_extends_trans, poles_in};
use crate::store::OptimizedLinkStore;
use crate::Handle;

verus! {

/// All of `s` are Links of `store`.
pub open spec fn all_held(store: &OptimizedLinkStore, s: Seq<Handle>) -> bool {
    forall|i: int| 0 <= i < s.len() ==> holds(store, #[trigger] s[i])
}

/// Appends `src` to `dst`.
pub fn append(dst: &mut Vec<Handle>, src: &[Handle])
    ensures
        final(dst)@ == old(dst)@ + src@,
{
    let ghost start = dst@;
    let mut i: usize = 0;
    while i < src.len()
        invariant
            i <= src@.len(),
            dst@ == start + src@.subrange(0, i as int),
        decreases src@.len() - i,
    {
        dst.push(src[i]);
        i += 1;
        proof {
            assert(dst@ =~= start + src@.subrange(0, i as int));
        }
    }
    proof {
        assert(src@.subrange(0, src@.len() as int) =~= src@);
    }
}

/// A generator of fresh anchors: a chain of PAIRs alternating `o` and `c`.
pub struct AnchorGen {
    pub current: Handle,
    pub flip: bool,
    pub o: Handle,
    pub c: Handle,
}

impl AnchorGen {
    pub open spec fn ok(&self, store: &OptimizedLinkStore) -> bool {
        &&& holds(store, self.current)
        &&& holds(store, self.o)
        &&& holds(store, self.c)
    }

    /// The next anchor, newer than every anchor before it.
    pub fn next(&mut self, store: &mut OptimizedLinkStore) -> (h: Handle)
        requires
            has_room(old(store), 1),
            old(self).ok(old(store)),
        ensures
            grown(old(store), final(store), 1),
            final(self).ok(final(store)),
            h == final(self).current,
            old(self).current < h,
            final(self).o == old(self).o && final(self).c == old(self).c,
            extends(old(store).links(), final(store).links()),
    {
        let pole = if self.flip {
            self.c
        } else {
            self.o
        };
        self.flip = !self.flip;
        self.current = pair(store, self.current, pole);
        self.current
    }

    /// A function Link: the PAIR of the next two anchors. Its first pole is
    /// newer than every anchor before the call; its second is the current one.
    pub fn function_pair(&mut self, store: &mut OptimizedLinkStore) -> (h: Handle)
        requires
            has_room(old(store), 3),
            old(self).ok(old(store)),
        ensures
            grown(old(store), final(store), 3),
            final(self).ok(final(store)),
            final(self).o == old(self).o && final(self).c == old(self).c,
            extends(old(store).links(), final(store).links()),
            holds(final(store), h),
            final(store).links()[h as int] is Some,
            old(self).current < poles_in(final(store).links(), h).0,
            poles_in(final(store).links(), h).1 == final(self).current,
            poles_in(final(store).links(), h).0 < poles_in(final(store).links(), h).1,
    {
        let ghost l0 = store.links();
        let left = self.next(store);
        let ghost l1 = store.links();
        let right = self.next(store);
        let ghost l2 = store.links();
        let h = pair(store, left, right);
        proof {
            lemma_extends_trans(l0, l1, l2);
            lemma_extends_trans(l0, l2, store.links());
        }
        h
    }

    /// `count` next anchors, strictly increasing.
    pub fn roles(&mut self, store: &mut OptimizedLinkStore, count: usize) -> (v: Vec<Handle>)
        requires
            has_room(old(store), count as nat),
            old(self).ok(old(store)),
        ensures
            grown(old(store), final(store), count as nat),
            final(self).ok(final(store)),
            final(self).o == old(self).o && final(self).c == old(self).c,
            v@.len() == count,
            increasing(v@),
            all_held(final(store), v@),
            old(self).current <= final(self).current,
            forall|i: int| 0 <= i < count ==> old(self).current < #[trigger] v@[i] <= final(self).current,
    {
        let mut v: Vec<Handle> = Vec::new();
        let mut i: usize = 0;
        while i < count
            invariant
                i <= count,
                v@.len() == i,
                grown(old(store), store, i as nat),
                has_room(old(store), count as nat),
                self.ok(store),
                self.o == old(self).o && self.c == old(self).c,
                old(self).current <= self.current,
                increasing(v@),
                all_held(store, v@),
                forall|j: int| 0 <= j < i ==> old(self).current < #[trigger] v@[j] <= self.current,
            decreases count - i,
        {
            let h = self.next(store);
            v.push(h);
            i += 1;
        }
        v
    }
}

impl AnchorGen {
    /// A generator seeded from `seed`, in a namespace of its own for each
    /// width: `seed, c, o, (c, o) * width, c`.
    pub fn new(store: &mut OptimizedLinkStore, seed: Handle, o: Handle, c: Handle, width: usize) -> (g: AnchorGen)
        requires
            has_room(old(store), 2 * width as nat + 3),
            holds(old(store), seed),
            holds(old(store), o),
            holds(old(store), c),
        ensures
            grown(old(store), final(store), 2 * width as nat + 3),
            g.ok(final(store)),
            g.o == o && g.c == c,
    {
        let mut seed = pair(store, seed, c);
        seed = pair(store, seed, o);
        let mut i: usize = 0;
        while i < width
            invariant
                i <= width,
                grown(old(store), store, 2 * i as nat + 2),
                has_room(old(store), 2 * width as nat + 3),
                holds(store, seed),
                holds(old(store), o),
                holds(old(store), c),
            decreases width - i,
        {
            seed = pair(store, seed, c);
            seed = pair(store, seed, o);
            i += 1;
        }
        seed = pair(store, seed, c);
        AnchorGen { current: seed, flip: false, o, c }
    }
}

/// The Links the arithmetic rules are built from.
#[derive(Clone, Copy)]
struct ArithNames {
    theory: Handle,
    o: Handle,
    apply: Handle,
    full: Handle,
    zero: Handle,
    xor2: Handle,
    arithmetic: Handle,
    result_tag: Handle,
    c0_tag: Handle,
    status_tag: Handle,
    xor_outputs: [Handle; 2],
    full_outputs: [Handle; 4],
}

impl ArithNames {
    spec fn held(&self, store: &OptimizedLinkStore) -> bool {
        &&& holds(store, self.theory)
        &&& holds(store, self.o)
        &&& holds(store, self.apply)
        &&& holds(store, self.full)
        &&& holds(store, self.zero)
        &&& holds(store, self.xor2)
        &&& holds(store, self.arithmetic)
        &&& holds(store, self.result_tag)
        &&& holds(store, self.c0_tag)
        &&& holds(store, self.status_tag)
        &&& all_held(store, self.xor_outputs@)
        &&& all_held(store, self.full_outputs@)
    }
}

/// OPEN: `K -> Call(ARITH, [Aword, Bword, X, Mode])` becomes
/// `C0Frame([K, A..., B..., Mode]) -> XOR2(X, Mode)`. In mode 0, X is the
/// carry in; in mode 1 it is the borrow in, and XOR with one gives the
/// two's-complement carry in NOT(Bin).
#[verifier::rlimit(100)]
fn arith_open(store: &mut OptimizedLinkStore, gen: &mut AnchorGen, n: ArithNames, width: usize)
    requires
        has_room(old(store), 600),
        old(gen).ok(old(store)),
        n.held(old(store)),
        4 <= width <= 32,
    ensures
        grown(old(store), final(store), 600),
        final(gen).ok(final(store)),
{
    let w = width;
    let r = gen.roles(store, 2 * w + 3);
    let k = r[0];
    let x = r[2 * w + 1];
    let mode = r[2 * w + 2];
    let aword = sequence(store, &r.as_slice()[1..1 + w]);
    let bword = sequence(store, &r.as_slice()[1 + w..1 + 2 * w]);
    let args = sequence(store, &[aword, bword, x, mode]);
    let invocation = call(store, n.apply, n.arithmetic, args);
    let before = pair(store, k, invocation);
    let mut state: Vec<Handle> = Vec::new();
    append(&mut state, &r.as_slice()[0..1 + 2 * w]);
    state.push(mode);
    let caller = stage_frame(store, n.c0_tag, state.as_slice());
    let xor_args = sequence(store, &[x, mode]);
    let xor_call = call(store, n.apply, n.xor2, xor_args);
    let after = pair(store, caller, xor_call);
    proof {
        lemma_increasing_distinct(r@);
    }
    let (_, admission) = define_bundle_rule(store, n.theory, r.as_slice(), before, &[after]);
    index_rule(store, n.o, admission);
}

/// C0 return, then the first B XOR: `C0Frame([K, A..., B..., Mode]) -> [carry]`
/// becomes `BFrame_0([K, A..., B_1..., carry, Mode, 0, 0]) -> XOR2(b_0, Mode)`.
/// Every per-bit state is `[K, A_remaining..., B_after_current...,
/// Result_so_far..., CarryIn, Mode, AuxRaw, SignInRaw]`.
#[verifier::rlimit(100)]
fn arith_c0_return(
    store: &mut OptimizedLinkStore,
    gen: &mut AnchorGen,
    n: ArithNames,
    b_tag0: Handle,
    width: usize,
)
    requires
        has_room(old(store), 600),
        old(gen).ok(old(store)),
        n.held(old(store)),
        holds(old(store), b_tag0),
        4 <= width <= 32,
    ensures
        grown(old(store), final(store), 600),
        final(gen).ok(final(store)),
{
    let w = width;
    let r = gen.roles(store, 2 * w + 3);
    let k = r[0];
    let mode = r[2 * w + 1];
    let carry = r[2 * w + 2];
    let mut before_state: Vec<Handle> = Vec::new();
    append(&mut before_state, &r.as_slice()[0..1 + 2 * w]);
    before_state.push(mode);
    let caller = stage_frame(store, n.c0_tag, before_state.as_slice());
    let carry_result = sequence(store, &[carry]);
    let before = pair(store, caller, carry_result);
    let mut state: Vec<Handle> = Vec::new();
    append(&mut state, &r.as_slice()[0..1 + w]);
    append(&mut state, &r.as_slice()[2 + w..1 + 2 * w]);
    state.push(carry);
    state.push(mode);
    state.push(n.zero);
    state.push(n.zero);
    let next_caller = stage_frame(store, b_tag0, state.as_slice());
    let xor_args = sequence(store, &[r[1 + w], mode]);
    let xor_call = call(store, n.apply, n.xor2, xor_args);
    let after = pair(store, next_caller, xor_call);
    proof {
        lemma_increasing_distinct(r@);
    }
    let (_, admission) = define_bundle_rule(store, n.theory, r.as_slice(), before, &[after]);
    index_rule_for(store, &n.xor_outputs, admission);
}

/// Effective B bit `i` returned: `BFrame_i(state) -> [b_eff]` becomes
/// `FaFrame_i(state) -> Call(FULL, [a_i, b_eff, carry])`.
#[verifier::rlimit(100)]
fn arith_b_eff(
    store: &mut OptimizedLinkStore,
    gen: &mut AnchorGen,
    n: ArithNames,
    b_tag: Handle,
    fa_tag: Handle,
    width: usize,
    i: usize,
)
    requires
        has_room(old(store), 600),
        old(gen).ok(old(store)),
        n.held(old(store)),
        holds(old(store), b_tag),
        holds(old(store), fa_tag),
        4 <= width <= 32,
        i < width,
    ensures
        grown(old(store), final(store), 600),
        final(gen).ok(final(store)),
{
    let remaining_a = width - i;
    let remaining_b_after = width - i - 1;
    let count = 1 + remaining_a + remaining_b_after + i + 5;
    // [K, a_rem..., b_after..., prev..., carry, mode, aux, sign_in, b_eff]
    let r = gen.roles(store, count);
    let carry = r[count - 5];
    let b_eff = r[count - 1];
    let state = &r.as_slice()[0..count - 1];
    let caller = stage_frame(store, b_tag, state);
    let xor_result = sequence(store, &[b_eff]);
    let before = pair(store, caller, xor_result);
    let fa_caller = stage_frame(store, fa_tag, state);
    let fa_args = sequence(store, &[r[1], b_eff, carry]);
    let fa_call = call(store, n.apply, n.full, fa_args);
    let after = pair(store, fa_caller, fa_call);
    proof {
        lemma_increasing_distinct(r@);
    }
    let (_, admission) = define_bundle_rule(store, n.theory, r.as_slice(), before, &[after]);
    index_rule_for(store, &n.xor_outputs, admission);
}

/// The continuation to the next B XOR:
/// `BFrame_next([K, a_tail..., b_tail..., results..., tail...]) -> XOR2(b_next, mode)`,
/// where `tail` is `[carry, mode, aux, sign_in]`.
#[verifier::rlimit(100)]
fn arith_next_bit(
    store: &mut OptimizedLinkStore,
    n: ArithNames,
    next_b_tag: Handle,
    k: Handle,
    a_tail: &[Handle],
    b_tail: &[Handle],
    results: &[Handle],
    tail: [Handle; 4],
    b_next: Handle,
) -> (after: Handle)
    requires
        has_room(old(store), 200),
        n.held(old(store)),
        holds(old(store), next_b_tag),
        holds(old(store), k),
        holds(old(store), b_next),
        all_held(old(store), a_tail@),
        all_held(old(store), b_tail@),
        all_held(old(store), results@),
        all_held(old(store), tail@),
        a_tail@.len() + b_tail@.len() + results@.len() <= 64,
    ensures
        grown(old(store), final(store), 200),
        holds(final(store), after),
{
    let mut next_state: Vec<Handle> = Vec::new();
    next_state.push(k);
    append(&mut next_state, a_tail);
    append(&mut next_state, b_tail);
    append(&mut next_state, results);
    append(&mut next_state, &tail);
    let next_caller = stage_frame(store, next_b_tag, next_state.as_slice());
    let xor_args = sequence(store, &[b_next, tail[1]]);
    let xor_call = call(store, n.apply, n.xor2, xor_args);
    pair(store, next_caller, xor_call)
}

/// The continuation after the last bit:
/// `StatusFrame([K, results..., mode, aux, sign_in, carry_next]) -> XOR2(carry_next, mode)`.
#[verifier::rlimit(100)]
fn arith_to_status(
    store: &mut OptimizedLinkStore,
    n: ArithNames,
    k: Handle,
    results: &[Handle],
    tail: [Handle; 4],
) -> (after: Handle)
    requires
        has_room(old(store), 200),
        n.held(old(store)),
        holds(old(store), k),
        all_held(old(store), results@),
        all_held(old(store), tail@),
        results@.len() <= 32,
    ensures
        grown(old(store), final(store), 200),
        holds(final(store), after),
{
    let mut final_state: Vec<Handle> = Vec::new();
    final_state.push(k);
    append(&mut final_state, results);
    append(&mut final_state, &tail);
    let status_caller = stage_frame(store, n.status_tag, final_state.as_slice());
    let xor_args = sequence(store, &[tail[3], tail[0]]);
    let xor_call = call(store, n.apply, n.xor2, xor_args);
    pair(store, status_caller, xor_call)
}

/// Full adder result for bit `i`: `FaFrame_i(state) -> [result_i, carry_next]`
/// becomes the next B XOR, or, after the last bit, the status XOR
/// `StatusFrame([K, Results..., Mode, Aux, SignIn, CarryNext]) -> XOR2(CarryNext, Mode)`.
/// The carry out of bit 3 is kept as the auxiliary carry, and the carry
/// into the sign bit as the sign-in carry.
#[verifier::rlimit(100)]
fn arith_fa_result(
    store: &mut OptimizedLinkStore,
    gen: &mut AnchorGen,
    n: ArithNames,
    fa_tag: Handle,
    next_b_tag: Handle,
    width: usize,
    i: usize,
)
    requires
        has_room(old(store), 600),
        old(gen).ok(old(store)),
        n.held(old(store)),
        holds(old(store), fa_tag),
        holds(old(store), next_b_tag),
        4 <= width <= 32,
        i < width,
    ensures
        grown(old(store), final(store), 600),
        final(gen).ok(final(store)),
{
    let remaining_a = width - i;
    let remaining_b_after = width - i - 1;
    let count = 1 + remaining_a + remaining_b_after + i + 6;
    // [K, a_rem..., b_after..., prev..., carry, mode, aux, sign_in, result_i, carry_next]
    let r = gen.roles(store, count);
    let k = r[0];
    let prev_start = 1 + remaining_a + remaining_b_after;
    let mode = r[count - 5];
    let aux = r[count - 4];
    let sign_in = r[count - 3];
    let result_i = r[count - 2];
    let carry_next = r[count - 1];
    let caller = stage_frame(store, fa_tag, &r.as_slice()[0..count - 2]);
    let fa_result = sequence(store, &[result_i, carry_next]);
    let before = pair(store, caller, fa_result);

    let next_aux = if i == 3 {
        carry_next
    } else {
        aux
    };
    let next_sign = if i + 1 == width - 1 {
        carry_next
    } else {
        sign_in
    };
    let mut next_results: Vec<Handle> = Vec::new();
    append(&mut next_results, &r.as_slice()[prev_start..prev_start + i]);
    next_results.push(result_i);

    let after = if i + 1 < width {
        arith_next_bit(
            store,
            n,
            next_b_tag,
            k,
            &r.as_slice()[2..1 + remaining_a],
            &r.as_slice()[2 + remaining_a..prev_start],
            next_results.as_slice(),
            [carry_next, mode, next_aux, next_sign],
            r[1 + remaining_a],
        )
    } else {
        arith_to_status(
            store,
            n,
            k,
            next_results.as_slice(),
            [mode, next_aux, next_sign, carry_next],
        )
    };
    proof {
        lemma_increasing_distinct(r@);
    }
    let (_, admission) = define_bundle_rule(store, n.theory, r.as_slice(), before, &[after]);
    index_rule_for(store, &n.full_outputs, admission);
}

/// StatusOut = C[N] XOR Mode: `StatusFrame(state) -> [status]` becomes
/// `K -> PAIR(ResultTag, [Word, Status, C4raw, CsignInRaw, CfinalRaw, Mode])`.
#[verifier::rlimit(100)]
fn arith_status(store: &mut OptimizedLinkStore, gen: &mut AnchorGen, n: ArithNames, width: usize)
    requires
        has_room(old(store), 600),
        old(gen).ok(old(store)),
        n.held(old(store)),
        4 <= width <= 32,
    ensures
        grown(old(store), final(store), 600),
        final(gen).ok(final(store)),
{
    let count = 1 + width + 5;
    // [K, results..., mode, aux, sign_in, final_raw, status]
    let r = gen.roles(store, count);
    let k = r[0];
    let mode = r[width + 1];
    let aux = r[width + 2];
    let sign_in = r[width + 3];
    let final_raw = r[width + 4];
    let status = r[width + 5];
    let caller = stage_frame(store, n.status_tag, &r.as_slice()[0..count - 1]);
    let status_result = sequence(store, &[status]);
    let before = pair(store, caller, status_result);
    let word = sequence(store, &r.as_slice()[1..1 + width]);
    // The raw outcome exposes the carry taps needed by the flags stage.
    let outcome = sequence(store, &[word, status, aux, sign_in, final_raw, mode]);
    let envelope = pair(store, n.result_tag, outcome);
    let after = pair(store, k, envelope);
    proof {
        lemma_increasing_distinct(r@);
    }
    let (_, admission) = define_bundle_rule(store, n.theory, r.as_slice(), before, &[after]);
    index_rule_for(store, &n.xor_outputs, admission);
}

/// One row of the standalone XOR2: `caller -> Call(XOR2, [a, b])` becomes
/// `caller -> output`.
fn xor2_row(
    store: &mut OptimizedLinkStore,
    gen: &mut AnchorGen,
    theory: Handle,
    o: Handle,
    apply: Handle,
    xor2: Handle,
    a: Handle,
    b: Handle,
    output: Handle,
)
    requires
        has_room(old(store), 20),
        old(gen).ok(old(store)),
        holds(old(store), theory),
        holds(old(store), o),
        holds(old(store), apply),
        holds(old(store), xor2),
        holds(old(store), a),
        holds(old(store), b),
        holds(old(store), output),
    ensures
        grown(old(store), final(store), 20),
        final(gen).ok(final(store)),
{
    let caller = gen.next(store);
    let args = sequence(store, &[a, b]);
    let invocation = call(store, apply, xor2, args);
    let before = pair(store, caller, invocation);
    let after = pair(store, caller, output);
    let roles = [caller];
    proof {
        lemma_increasing_distinct(roles@);
    }
    let (_, admission) = define_bundle_rule(store, theory, &roles, before, &[after]);
    index_rule(store, o, admission);
}

/// The tags of the per-bit B XOR frames and full adder frames.
pub(crate) fn bit_tags(store: &mut OptimizedLinkStore, gen: &mut AnchorGen, width: usize) -> (tags: (Vec<Handle>, Vec<Handle>))
    requires
        has_room(old(store), 6 * width as nat),
        old(gen).ok(old(store)),
    ensures
        grown(old(store), final(store), 6 * width as nat),
        final(gen).ok(final(store)),
        tags.0@.len() == width,
        tags.1@.len() == width,
        all_held(final(store), tags.0@),
        all_held(final(store), tags.1@),
{
    let mut b_tags: Vec<Handle> = Vec::new();
    let mut fa_tags: Vec<Handle> = Vec::new();
    let mut i: usize = 0;
    while i < width
        invariant
            i <= width,
            grown(old(store), store, 6 * i as nat),
            has_room(old(store), 6 * width as nat),
            gen.ok(store),
            b_tags@.len() == i,
            fa_tags@.len() == i,
            all_held(store, b_tags@),
            all_held(store, fa_tags@),
        decreases width - i,
    {
        let b_left = gen.next(store);
        let b_right = gen.next(store);
        let b_tag = pair(store, b_left, b_right);
        b_tags.push(b_tag);
        let fa_left = gen.next(store);
        let fa_right = gen.next(store);
        let fa_tag = pair(store, fa_left, fa_right);
        fa_tags.push(fa_tag);
        i += 1;
    }
    (b_tags, fa_tags)
}

/// The XOR2 gate, the program's tags and the full adder outputs.
#[verifier::rlimit(100)]
fn arith_setup(
    store: &mut OptimizedLinkStore,
    gen: &mut AnchorGen,
    theory: Handle,
    o: Handle,
    apply: Handle,
    full: Handle,
    zero: Handle,
    one: Handle,
    width: usize,
) -> (r: (ArithNames, Vec<Handle>, Vec<Handle>))
    requires
        has_room(old(store), 500),
        old(gen).ok(old(store)),
        holds(old(store), theory),
        holds(old(store), o),
        holds(old(store), apply),
        holds(old(store), full),
        holds(old(store), zero),
        holds(old(store), one),
        4 <= width <= 32,
    ensures
        grown(old(store), final(store), 500),
        final(gen).ok(final(store)),
        r.0.held(final(store)),
        r.1@.len() == width,
        r.2@.len() == width,
        all_held(final(store), r.1@),
        all_held(final(store), r.2@),
{
    // Standalone structural XOR2. Its scalar result is returned inside a
    // one-position exact sequence, so it cannot collide with unrelated
    // generic templates of the theory.
    let xor_left = gen.next(store);
    let xor_right = gen.next(store);
    let xor2 = pair(store, xor_left, xor_right);
    let x0 = sequence(store, &[zero]);
    let x1 = sequence(store, &[one]);
    xor2_row(store, gen, theory, o, apply, xor2, zero, zero, x0);
    xor2_row(store, gen, theory, o, apply, xor2, zero, one, x1);
    xor2_row(store, gen, theory, o, apply, xor2, one, zero, x1);
    xor2_row(store, gen, theory, o, apply, xor2, one, one, x0);

    let arith_left = gen.next(store);
    let arith_right = gen.next(store);
    let arithmetic = pair(store, arith_left, arith_right);
    // A stable result envelope tag: later components index one generic
    // continuation under it instead of under the whole result value.
    let result_left = gen.next(store);
    let result_right = gen.next(store);
    let result_tag = pair(store, result_left, result_right);
    let c0_tag = gen.next(store);
    let status_tag = gen.next(store);
    let (b_tags, fa_tags) = bit_tags(store, gen, width);

    let o00 = sequence(store, &[zero, zero]);
    let o10 = sequence(store, &[one, zero]);
    let o01 = sequence(store, &[zero, one]);
    let o11 = sequence(store, &[one, one]);
    let n = ArithNames {
        theory,
        o,
        apply,
        full,
        zero,
        xor2,
        arithmetic,
        result_tag,
        c0_tag,
        status_tag,
        xor_outputs: [x0, x1],
        full_outputs: [o00, o10, o01, o11],
    };
    (n, b_tags, fa_tags)
}

/// The two rules of every bit: effective B bit returned, full adder result.
#[verifier::rlimit(100)]
fn arith_bits(
    store: &mut OptimizedLinkStore,
    gen: &mut AnchorGen,
    n: ArithNames,
    b_tags: &Vec<Handle>,
    fa_tags: &Vec<Handle>,
    width: usize,
)
    requires
        has_room(old(store), 1200 * width as nat),
        old(gen).ok(old(store)),
        n.held(old(store)),
        4 <= width <= 32,
        b_tags@.len() == width,
        fa_tags@.len() == width,
        all_held(old(store), b_tags@),
        all_held(old(store), fa_tags@),
    ensures
        grown(old(store), final(store), 1200 * width as nat),
        final(gen).ok(final(store)),
{
    let mut i: usize = 0;
    while i < width
        invariant
            i <= width,
            4 <= width <= 32,
            has_room(old(store), 1200 * width as nat),
            grown(old(store), store, 1200 * i as nat),
            gen.ok(store),
            n.held(store),
            b_tags@.len() == width,
            fa_tags@.len() == width,
            all_held(store, b_tags@),
            all_held(store, fa_tags@),
        decreases width - i,
    {
        arith_b_eff(store, gen, n, b_tags[i], fa_tags[i], width, i);
        let next_b_tag = if i + 1 < width {
            b_tags[i + 1]
        } else {
            b_tags[i]
        };
        arith_fa_result(store, gen, n, fa_tags[i], next_b_tag, width, i);
        i += 1;
    }
}

/// The installed N-bit arithmetic program.
pub struct ArithmeticProgram {
    pub width: usize,
    pub arithmetic: Handle,
    pub result_tag: Handle,
    pub active_steps: usize,
    pub links_after_build: usize,
}

impl ArithmeticProgram {
    /// Installs the `width`-bit arithmetic program on the fixture.
    /// `K -> Call(ARITH, [Aword, Bword, X, Mode])` reacts in `5 + 16 * width`
    /// steps to `K -> PAIR(ResultTag, [Word, Status, C4raw, CsignInRaw,
    /// CfinalRaw, Mode])`, where the word is A + B + X (mode 0) or
    /// A - B - X (mode 1), modulo 2^width, and the status is the carry or
    /// borrow out.
    #[verifier::rlimit(100)]
    pub fn install(f: &mut Fixture, width: usize) -> (p: ArithmeticProgram)
        requires
            old(f).wf(),
            4 <= width <= 32,
            has_room(&old(f).store, 50000),
        ensures
            final(f).wf(),
            grown(&old(f).store, &final(f).store, 50000),
            final(f).engine == old(f).engine,
            final(f).o == old(f).o && final(f).c == old(f).c && final(f).theory == old(f).theory,
            final(f).full == old(f).full && final(f).k == old(f).k && final(f).apply == old(f).apply,
            final(f).zero == old(f).zero && final(f).one == old(f).one && final(f).args3 == old(f).args3,
            p.width == width,
            p.active_steps == 5 + 16 * width,
            p.links_after_build == final(f).store.links().len() - 1,
            holds(&final(f).store, p.arithmetic),
            holds(&final(f).store, p.result_tag),
    {
        let seed0 = pair(&mut f.store, f.k, f.full);
        let mut gen = AnchorGen::new(&mut f.store, seed0, f.o, f.c, width);
        let (n, b_tags, fa_tags) = arith_setup(
            &mut f.store,
            &mut gen,
            f.theory,
            f.o,
            f.apply,
            f.full,
            f.zero,
            f.one,
            width,
        );
        arith_open(&mut f.store, &mut gen, n, width);
        arith_c0_return(&mut f.store, &mut gen, n, b_tags[0], width);
        arith_bits(&mut f.store, &mut gen, n, &b_tags, &fa_tags, width);
        arith_status(&mut f.store, &mut gen, n, width);
        proof {
            f.store.lemma_wf_links();
        }
        let links_after_build = f.store.link_count();
        ArithmeticProgram {
            width,
            arithmetic: n.arithmetic,
            result_tag: n.result_tag,
            active_steps: 5 + 16 * width,
            links_after_build,
        }
    }
}

} // verus!
