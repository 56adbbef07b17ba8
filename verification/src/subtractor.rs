//! The 1-bit subtractor built on the shared full adder:
//! `a - b - bin` is `a + NOT b + NOT bin` with the borrow out `NOT carry_out`,
//! every inversion being a structural NOT rule rather than host work.
use vstd::prelude::*;

use crate::arith_circuit::AnchorGen;
use crate::circuit::{
    call, define_bundle_rule, grown, has_room, holds, index_rule_for, lemma_increasing_distinct, pair, sequence,
    stage_frame, Fixture,
};
use crate::store::OptimizedLinkStore;
use crate::Handle;

verus! {

/// The Links the subtractor rules are built from.
#[derive(Clone, Copy)]
struct SubNames {
    theory: Handle,
    o: Handle,
    apply: Handle,
    full: Handle,
    not: Handle,
    sub: Handle,
    b_not_tag: Handle,
    bin_not_tag: Handle,
    full_tag: Handle,
    cout_not_tag: Handle,
    not_outputs: [Handle; 2],
    full_outputs: [Handle; 4],
}

impl SubNames {
    spec fn held(&self, store: &OptimizedLinkStore) -> bool {
        &&& holds(store, self.theory)
        &&& holds(store, self.o)
        &&& holds(store, self.apply)
        &&& holds(store, self.full)
        &&& holds(store, self.not)
        &&& holds(store, self.sub)
        &&& holds(store, self.b_not_tag)
        &&& holds(store, self.bin_not_tag)
        &&& holds(store, self.full_tag)
        &&& holds(store, self.cout_not_tag)
        &&& holds(store, self.not_outputs[0])
        &&& holds(store, self.not_outputs[1])
        &&& forall|i: int| 0 <= i < 4 ==> holds(store, #[trigger] self.full_outputs[i])
    }
}

/// One NOT row: `caller -> Call(NOT, input) => caller -> output`.
fn not_row(store: &mut OptimizedLinkStore, gen: &mut AnchorGen, n: SubNames, input: Handle, output: Handle)
    requires
        has_room(old(store), 30),
        old(gen).ok(old(store)),
        n.held(old(store)),
        holds(old(store), input),
        holds(old(store), output),
    ensures
        grown(old(store), final(store), 30),
        final(gen).ok(final(store)),
{
    let r = gen.roles(store, 1);
    let caller = r[0];
    let before_call = call(store, n.apply, n.not, input);
    let before = pair(store, caller, before_call);
    let after = pair(store, caller, output);
    proof {
        lemma_increasing_distinct(r@);
    }
    let (_, admission) = define_bundle_rule(store, n.theory, r.as_slice(), before, &[after]);
    index_rule_for(store, &[n.o], admission);
}

/// `K -> Call(SUB1, [a, b, bin])` becomes `BNotFrame([K, a, bin]) -> Call(NOT, b)`.
fn sub_open(store: &mut OptimizedLinkStore, gen: &mut AnchorGen, n: SubNames)
    requires
        has_room(old(store), 60),
        old(gen).ok(old(store)),
        n.held(old(store)),
    ensures
        grown(old(store), final(store), 60),
        final(gen).ok(final(store)),
{
    let r = gen.roles(store, 4);
    let k = r[0];
    let a = r[1];
    let b = r[2];
    let bin = r[3];
    let args = sequence(store, &[a, b, bin]);
    let before_call = call(store, n.apply, n.sub, args);
    let before = pair(store, k, before_call);
    let caller = stage_frame(store, n.b_not_tag, &[k, a, bin]);
    let after_call = call(store, n.apply, n.not, b);
    let after = pair(store, caller, after_call);
    proof {
        lemma_increasing_distinct(r@);
    }
    let (_, admission) = define_bundle_rule(store, n.theory, r.as_slice(), before, &[after]);
    index_rule_for(store, &[n.o], admission);
}

/// `BNotFrame([K, a, bin]) -> [not_b]` becomes `BinNotFrame([K, a, not_b]) -> Call(NOT, bin)`.
fn sub_b_inverted(store: &mut OptimizedLinkStore, gen: &mut AnchorGen, n: SubNames)
    requires
        has_room(old(store), 60),
        old(gen).ok(old(store)),
        n.held(old(store)),
    ensures
        grown(old(store), final(store), 60),
        final(gen).ok(final(store)),
{
    let r = gen.roles(store, 4);
    let k = r[0];
    let a = r[1];
    let bin = r[2];
    let not_b = r[3];
    let caller = stage_frame(store, n.b_not_tag, &[k, a, bin]);
    let not_result = sequence(store, &[not_b]);
    let before = pair(store, caller, not_result);
    let next_caller = stage_frame(store, n.bin_not_tag, &[k, a, not_b]);
    let next_call = call(store, n.apply, n.not, bin);
    let after = pair(store, next_caller, next_call);
    proof {
        lemma_increasing_distinct(r@);
    }
    let (_, admission) = define_bundle_rule(store, n.theory, r.as_slice(), before, &[after]);
    index_rule_for(store, &n.not_outputs, admission);
}

/// `BinNotFrame([K, a, not_b]) -> [not_bin]` becomes
/// `FullFrame([K]) -> Call(FULL, [a, not_b, not_bin])`.
fn sub_bin_inverted(store: &mut OptimizedLinkStore, gen: &mut AnchorGen, n: SubNames)
    requires
        has_room(old(store), 60),
        old(gen).ok(old(store)),
        n.held(old(store)),
    ensures
        grown(old(store), final(store), 60),
        final(gen).ok(final(store)),
{
    let r = gen.roles(store, 4);
    let k = r[0];
    let a = r[1];
    let not_b = r[2];
    let not_bin = r[3];
    let caller = stage_frame(store, n.bin_not_tag, &[k, a, not_b]);
    let not_result = sequence(store, &[not_bin]);
    let before = pair(store, caller, not_result);
    let next_caller = stage_frame(store, n.full_tag, &[k]);
    let full_args = sequence(store, &[a, not_b, not_bin]);
    let full_call = call(store, n.apply, n.full, full_args);
    let after = pair(store, next_caller, full_call);
    proof {
        lemma_increasing_distinct(r@);
    }
    let (_, admission) = define_bundle_rule(store, n.theory, r.as_slice(), before, &[after]);
    index_rule_for(store, &n.not_outputs, admission);
}

/// `FullFrame([K]) -> [diff, carry_out]` becomes `CoutNotFrame([K, diff]) -> Call(NOT, carry_out)`.
fn sub_full_result(store: &mut OptimizedLinkStore, gen: &mut AnchorGen, n: SubNames)
    requires
        has_room(old(store), 60),
        old(gen).ok(old(store)),
        n.held(old(store)),
    ensures
        grown(old(store), final(store), 60),
        final(gen).ok(final(store)),
{
    let r = gen.roles(store, 3);
    let k = r[0];
    let diff = r[1];
    let carry_out = r[2];
    let caller = stage_frame(store, n.full_tag, &[k]);
    let full_result = sequence(store, &[diff, carry_out]);
    let before = pair(store, caller, full_result);
    let next_caller = stage_frame(store, n.cout_not_tag, &[k, diff]);
    let not_call = call(store, n.apply, n.not, carry_out);
    let after = pair(store, next_caller, not_call);
    proof {
        lemma_increasing_distinct(r@);
    }
    let (_, admission) = define_bundle_rule(store, n.theory, r.as_slice(), before, &[after]);
    index_rule_for(store, &n.full_outputs, admission);
}

/// `CoutNotFrame([K, diff]) -> [borrow]` becomes `K -> [diff, borrow]`.
fn sub_finish(store: &mut OptimizedLinkStore, gen: &mut AnchorGen, n: SubNames)
    requires
        has_room(old(store), 60),
        old(gen).ok(old(store)),
        n.held(old(store)),
    ensures
        grown(old(store), final(store), 60),
        final(gen).ok(final(store)),
{
    let r = gen.roles(store, 3);
    let k = r[0];
    let diff = r[1];
    let borrow = r[2];
    let caller = stage_frame(store, n.cout_not_tag, &[k, diff]);
    let not_result = sequence(store, &[borrow]);
    let before = pair(store, caller, not_result);
    let result = sequence(store, &[diff, borrow]);
    let after = pair(store, k, result);
    proof {
        lemma_increasing_distinct(r@);
    }
    let (_, admission) = define_bundle_rule(store, n.theory, r.as_slice(), before, &[after]);
    index_rule_for(store, &n.not_outputs, admission);
}

/// The installed 1-bit subtractor.
#[derive(Clone, Copy, Debug)]
pub struct Sub1Program {
    pub sub: Handle,
    pub active_steps: usize,
}

/// The NOT rows and the subtractor's rules.
#[verifier::rlimit(100)]
fn install_sub_rules(store: &mut OptimizedLinkStore, gen: &mut AnchorGen, n: SubNames, zero: Handle, one: Handle)
    requires
        has_room(old(store), 376),
        old(gen).ok(old(store)),
        n.held(old(store)),
        holds(old(store), zero),
        holds(old(store), one),
    ensures
        grown(old(store), final(store), 376),
{
    let mut n = n;
    let out0 = n.not_outputs[0];
    let out1 = n.not_outputs[1];
    not_row(store, gen, n, zero, out1);
    not_row(store, gen, n, one, out0);
    sub_open(store, gen, n);
    sub_b_inverted(store, gen, n);
    sub_bin_inverted(store, gen, n);
    // The full adder returns [sum, carry_out]; the borrow is NOT carry_out.
    let o00 = sequence(store, &[zero, zero]);
    let o10 = sequence(store, &[one, zero]);
    let o01 = sequence(store, &[zero, one]);
    let o11 = sequence(store, &[one, one]);
    n.full_outputs = [o00, o10, o01, o11];
    sub_full_result(store, gen, n);
    sub_finish(store, gen, n);
}

impl Sub1Program {
    /// Installs a structural NOT and the subtractor on the fixture's full
    /// adder. `K -> Call(SUB1, [a, b, bin])` reacts in 21 steps to
    /// `K -> [diff, borrow]`, with `diff = a XOR b XOR bin` and the borrow
    /// out of `a - b - bin`.
    #[verifier::rlimit(100)]
    pub fn install(f: &mut Fixture) -> (p: Sub1Program)
        requires
            old(f).wf(),
            has_room(&old(f).store, 1000),
        ensures
            final(f).wf(),
            grown(&old(f).store, &final(f).store, 1000),
            final(f).engine == old(f).engine,
            final(f).o == old(f).o && final(f).c == old(f).c && final(f).theory == old(f).theory,
            final(f).full == old(f).full && final(f).k == old(f).k && final(f).apply == old(f).apply,
            final(f).zero == old(f).zero && final(f).one == old(f).one && final(f).args3 == old(f).args3,
            p.active_steps == 21,
            holds(&final(f).store, p.sub),
    {
        let seed = pair(&mut f.store, f.full, f.k);
        // A namespace of its own, apart from the ripple adder's.
        let start = pair(&mut f.store, seed, f.c);
        let mut gen = AnchorGen { current: start, flip: false, o: f.o, c: f.c };
        let not_left = gen.next(&mut f.store);
        let not_right = gen.next(&mut f.store);
        let not = pair(&mut f.store, not_left, not_right);
        let sub_left = gen.next(&mut f.store);
        let sub_right = gen.next(&mut f.store);
        let sub = pair(&mut f.store, sub_left, sub_right);
        let b_not_tag = gen.next(&mut f.store);
        let bin_not_tag = gen.next(&mut f.store);
        let full_tag = gen.next(&mut f.store);
        let cout_not_tag = gen.next(&mut f.store);
        // A unary result travels as a one-position exact sequence, so it
        // cannot satisfy unrelated generic templates.
        let out0 = sequence(&mut f.store, &[f.zero]);
        let out1 = sequence(&mut f.store, &[f.one]);
        let n = SubNames {
            theory: f.theory,
            o: f.o,
            apply: f.apply,
            full: f.full,
            not,
            sub,
            b_not_tag,
            bin_not_tag,
            full_tag,
            cout_not_tag,
            not_outputs: [out0, out1],
            full_outputs: [out0, out0, out0, out0],
        };
        install_sub_rules(&mut f.store, &mut gen, n, f.zero, f.one);
        proof {
            f.store.lemma_wf_links();
        }
        // OPEN, NOT(b) and its return, NOT(bin) and its return, the 13-step
        // full adder, its return, NOT(carry_out) and the final return.
        Sub1Program { sub, active_steps: 21 }
    }
}

} // verus!
