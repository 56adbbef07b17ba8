//! 64-bit addition from two runs of the 32-bit arithmetic program: the low
//! halves are added first and their carry out becomes, structurally, the
//! carry into the high halves.
use vstd::prelude::*;

use crate::arith_circuit::{AnchorGen, ArithmeticProgram};
use crate::circuit::{
    lemma_functions_differ,
    call, define_bundle_rule, grown, has_room, holds, index_rule_for, lemma_increasing_distinct, pair, sequence,
    stage_frame, Fixture,
};
use crate::store::OptimizedLinkStore;
use crate::Handle;

verus! {

/// The anchors of ADD64: `seed` followed by the poles
/// `c o c o o c c o o c o c c o c`.
fn wide_anchors(store: &mut OptimizedLinkStore, seed: Handle, o: Handle, c: Handle) -> (g: AnchorGen)
    requires
        has_room(old(store), 15),
        holds(old(store), seed),
        holds(old(store), o),
        holds(old(store), c),
    ensures
        grown(old(store), final(store), 15),
        g.ok(final(store)),
{
    let poles = [c, o, c, o, o, c, c, o, o, c, o, c, c, o, c];
    let mut current = seed;
    let mut i: usize = 0;
    while i < 15
        invariant
            i <= 15,
            poles@.len() == 15,
            grown(old(store), store, i as nat),
            has_room(old(store), 15),
            holds(store, current),
            forall|j: int| 0 <= j < 15 ==> holds(old(store), #[trigger] poles@[j]),
        decreases 15 - i,
    {
        current = pair(store, current, poles[i]);
        i += 1;
    }
    AnchorGen { current, flip: false, o, c }
}

/// The Links the ADD64 rules are built from.
#[derive(Clone, Copy)]
struct WideNames {
    theory: Handle,
    o: Handle,
    apply: Handle,
    zero: Handle,
    arithmetic: Handle,
    arith_result_tag: Handle,
    add64: Handle,
    result_tag: Handle,
    low_tag: Handle,
    high_tag: Handle,
}

impl WideNames {
    spec fn held(&self, store: &OptimizedLinkStore) -> bool {
        &&& holds(store, self.theory)
        &&& holds(store, self.o)
        &&& holds(store, self.apply)
        &&& holds(store, self.zero)
        &&& holds(store, self.arithmetic)
        &&& holds(store, self.arith_result_tag)
        &&& holds(store, self.add64)
        &&& holds(store, self.result_tag)
        &&& holds(store, self.low_tag)
        &&& holds(store, self.high_tag)
    }
}

/// `K -> Call(ADD64, [[Alo, Ahi], [Blo, Bhi], Cin])` becomes
/// `LowFrame([K, Ahi, Bhi]) -> Call(ARITH, [Alo, Blo, Cin, ADD])`.
fn wide_open(store: &mut OptimizedLinkStore, gen: &mut AnchorGen, n: WideNames)
    requires
        has_room(old(store), 100),
        old(gen).ok(old(store)),
        n.held(old(store)),
    ensures
        grown(old(store), final(store), 100),
        final(gen).ok(final(store)),
{
    let r = gen.roles(store, 6);
    let k = r[0];
    let alo = r[1];
    let ahi = r[2];
    let blo = r[3];
    let bhi = r[4];
    let cin = r[5];
    let awide = sequence(store, &[alo, ahi]);
    let bwide = sequence(store, &[blo, bhi]);
    let args = sequence(store, &[awide, bwide, cin]);
    let before_call = call(store, n.apply, n.add64, args);
    let before = pair(store, k, before_call);
    let caller = stage_frame(store, n.low_tag, &[k, ahi, bhi]);
    let low_args = sequence(store, &[alo, blo, cin, n.zero]);
    let low_call = call(store, n.apply, n.arithmetic, low_args);
    let after = pair(store, caller, low_call);
    proof {
        lemma_increasing_distinct(r@);
    }
    let (_, admission) = define_bundle_rule(store, n.theory, r.as_slice(), before, &[after]);
    index_rule_for(store, &[n.o], admission);
}

/// The low result `LowFrame([K, Ahi, Bhi]) -> PAIR(ArithResult, [Lo, Carry, ..])`
/// becomes `HighFrame([K, Lo]) -> Call(ARITH, [Ahi, Bhi, Carry, ADD])`.
fn wide_low_result(store: &mut OptimizedLinkStore, gen: &mut AnchorGen, n: WideNames)
    requires
        has_room(old(store), 100),
        old(gen).ok(old(store)),
        n.held(old(store)),
    ensures
        grown(old(store), final(store), 100),
        final(gen).ok(final(store)),
{
    // [K, Ahi, Bhi, Lo, Carry, Aux, SignIn, FinalRaw]
    let r = gen.roles(store, 8);
    let k = r[0];
    let ahi = r[1];
    let bhi = r[2];
    let lo_sum = r[3];
    let carry = r[4];
    let raw = sequence(store, &[lo_sum, carry, r[5], r[6], r[7], n.zero]);
    let endpoint = pair(store, n.arith_result_tag, raw);
    let caller = stage_frame(store, n.low_tag, &[k, ahi, bhi]);
    let before = pair(store, caller, endpoint);
    let next_caller = stage_frame(store, n.high_tag, &[k, lo_sum]);
    let high_args = sequence(store, &[ahi, bhi, carry, n.zero]);
    let high_call = call(store, n.apply, n.arithmetic, high_args);
    let after = pair(store, next_caller, high_call);
    proof {
        lemma_increasing_distinct(r@);
    }
    let (_, admission) = define_bundle_rule(store, n.theory, r.as_slice(), before, &[after]);
    index_rule_for(store, &[n.arith_result_tag], admission);
}

/// The high result `HighFrame([K, Lo]) -> PAIR(ArithResult, [Hi, Cout, ..])`
/// becomes `K -> PAIR(ResultTag, [[Lo, Hi], Cout])`.
fn wide_high_result(store: &mut OptimizedLinkStore, gen: &mut AnchorGen, n: WideNames)
    requires
        has_room(old(store), 100),
        old(gen).ok(old(store)),
        n.held(old(store)),
    ensures
        grown(old(store), final(store), 100),
        final(gen).ok(final(store)),
{
    // [K, Lo, Hi, Cout, Aux, SignIn, FinalRaw]
    let r = gen.roles(store, 7);
    let k = r[0];
    let lo_sum = r[1];
    let hi_sum = r[2];
    let cout = r[3];
    let raw = sequence(store, &[hi_sum, cout, r[4], r[5], r[6], n.zero]);
    let endpoint = pair(store, n.arith_result_tag, raw);
    let caller = stage_frame(store, n.high_tag, &[k, lo_sum]);
    let before = pair(store, caller, endpoint);
    let wide = sequence(store, &[lo_sum, hi_sum]);
    let payload = sequence(store, &[wide, cout]);
    let result_endpoint = pair(store, n.result_tag, payload);
    let after = pair(store, k, result_endpoint);
    proof {
        lemma_increasing_distinct(r@);
    }
    let (_, admission) = define_bundle_rule(store, n.theory, r.as_slice(), before, &[after]);
    index_rule_for(store, &[n.arith_result_tag], admission);
}

/// The installed 64-bit adder.
pub struct Wide64Program {
    pub add64: Handle,
    pub result_tag: Handle,
    pub arithmetic: ArithmeticProgram,
    pub active_steps: usize,
    pub links_after_build: usize,
}

impl Wide64Program {
    /// Installs the 32-bit arithmetic and ADD64 on it.
    /// `K -> Call(ADD64, [[Alo, Ahi], [Blo, Bhi], Cin])` reacts in
    /// `3 + 2 * (5 + 16 * 32)` steps to `K -> PAIR(ResultTag, [[Lo, Hi], Cout])`.
    #[verifier::rlimit(100)]
    pub fn install(f: &mut Fixture) -> (p: Wide64Program)
        requires
            old(f).wf(),
            has_room(&old(f).store, 51000),
        ensures
            final(f).wf(),
            grown(&old(f).store, &final(f).store, 51000),
            final(f).engine == old(f).engine,
            final(f).o == old(f).o && final(f).c == old(f).c && final(f).theory == old(f).theory,
            final(f).full == old(f).full && final(f).k == old(f).k && final(f).apply == old(f).apply,
            final(f).zero == old(f).zero && final(f).one == old(f).one && final(f).args3 == old(f).args3,
            p.active_steps == 3 + 2 * (5 + 16 * 32),
            p.arithmetic.width == 32,
            p.links_after_build == final(f).store.links().len() - 1,
            p.add64 != p.result_tag,
            holds(&final(f).store, p.add64),
            holds(&final(f).store, p.result_tag),
    {
        let arithmetic = ArithmeticProgram::install(f, 32);
        let seed = pair(&mut f.store, arithmetic.arithmetic, arithmetic.result_tag);
        let mut gen = wide_anchors(&mut f.store, seed, f.o, f.c);
        let add64 = gen.function_pair(&mut f.store);
        let ghost l_add64 = f.store.links();
        let ghost g_add64 = gen.current;
        let result_tag = gen.function_pair(&mut f.store);
        let ghost l_result_tag = f.store.links();
        let ghost g_result_tag = gen.current;
        proof {
            lemma_functions_differ(l_add64, l_result_tag, add64, result_tag, g_add64);
        }
        let low_tag = gen.next(&mut f.store);
        let high_tag = gen.next(&mut f.store);
        let n = WideNames {
            theory: f.theory,
            o: f.o,
            apply: f.apply,
            zero: f.zero,
            arithmetic: arithmetic.arithmetic,
            arith_result_tag: arithmetic.result_tag,
            add64,
            result_tag,
            low_tag,
            high_tag,
        };
        wide_open(&mut f.store, &mut gen, n);
        wide_low_result(&mut f.store, &mut gen, n);
        wide_high_result(&mut f.store, &mut gen, n);
        proof {
            f.store.lemma_wf_links();
        }
        let active_steps = 1 + arithmetic.active_steps + 1 + arithmetic.active_steps + 1;
        let links_after_build = f.store.link_count();
        Wide64Program { add64, result_tag, arithmetic, active_steps, links_after_build }
    }
}

} // verus!
