//! The N-bit ripple subtractor: one shared 1-bit subtractor called once per
//! bit position, the borrow out of each call becoming, structurally, the
//! borrow into the next.
use vstd::prelude::*;

use crate::arith_circuit::{all_held, append, AnchorGen};
use crate::circuit::{
    call, define_bundle_rule, grown, has_room, holds, index_rule_for, lemma_increasing_distinct, pair, sequence,
    stage_frame, Fixture,
};
use crate::flags_circuit::pair_tags;
use crate::store::OptimizedLinkStore;
use crate::subtractor::Sub1Program;
use crate::Handle;

verus! {

/// The anchors of the `width`-bit subtractor: `seed, c * width, o`.
fn sub_anchors(store: &mut OptimizedLinkStore, seed: Handle, o: Handle, c: Handle, width: usize) -> (g: AnchorGen)
    requires
        has_room(old(store), width as nat + 1),
        holds(old(store), seed),
        holds(old(store), o),
        holds(old(store), c),
    ensures
        grown(old(store), final(store), width as nat + 1),
        g.ok(final(store)),
{
    let mut seed = seed;
    let mut i: usize = 0;
    while i < width
        invariant
            i <= width,
            grown(old(store), store, i as nat),
            has_room(old(store), width as nat + 1),
            holds(store, seed),
            holds(old(store), o),
            holds(old(store), c),
        decreases width - i,
    {
        seed = pair(store, seed, c);
        i += 1;
    }
    seed = pair(store, seed, o);
    AnchorGen { current: seed, flip: false, o, c }
}

/// The Links the subtractor rules are built from.
#[derive(Clone, Copy)]
struct RippleSubNames {
    theory: Handle,
    o: Handle,
    apply: Handle,
    sub1: Handle,
    sub_n: Handle,
    sub1_outputs: [Handle; 4],
}

impl RippleSubNames {
    spec fn held(&self, store: &OptimizedLinkStore) -> bool {
        &&& holds(store, self.theory)
        &&& holds(store, self.o)
        &&& holds(store, self.apply)
        &&& holds(store, self.sub1)
        &&& holds(store, self.sub_n)
        &&& forall|i: int| 0 <= i < 4 ==> holds(store, #[trigger] self.sub1_outputs[i])
    }
}

/// `K -> Call(SUB_N, [Aword, Bword, Bin])` becomes
/// `Stage_0([K, a_1.., b_1..]) -> Call(SUB1, [a_0, b_0, Bin])`.
#[verifier::rlimit(100)]
fn ripple_sub_open(store: &mut OptimizedLinkStore, gen: &mut AnchorGen, n: RippleSubNames, tag0: Handle, width: usize)
    requires
        has_room(old(store), 700),
        old(gen).ok(old(store)),
        n.held(old(store)),
        holds(old(store), tag0),
        1 <= width <= 32,
    ensures
        grown(old(store), final(store), 700),
        final(gen).ok(final(store)),
{
    // [K, a_0 .., b_0 .., Bin]
    let count = 2 + 2 * width;
    let r = gen.roles(store, count);
    let k = r[0];
    let bin = r[count - 1];
    let aword = sequence(store, &r.as_slice()[1..1 + width]);
    let bword = sequence(store, &r.as_slice()[1 + width..1 + 2 * width]);
    let args = sequence(store, &[aword, bword, bin]);
    let invocation = call(store, n.apply, n.sub_n, args);
    let before = pair(store, k, invocation);
    let mut state: Vec<Handle> = Vec::new();
    state.push(k);
    append(&mut state, &r.as_slice()[2..1 + width]);
    append(&mut state, &r.as_slice()[2 + width..1 + 2 * width]);
    let caller = stage_frame(store, tag0, state.as_slice());
    let sub_args = sequence(store, &[r[1], r[1 + width], bin]);
    let sub_call = call(store, n.apply, n.sub1, sub_args);
    let after = pair(store, caller, sub_call);
    proof {
        lemma_increasing_distinct(r@);
    }
    let (_, admission) = define_bundle_rule(store, n.theory, r.as_slice(), before, &[after]);
    index_rule_for(store, &[n.o], admission);
}

/// The continuation to the next bit:
/// `Stage_next([K, a_tail.., b_tail.., diffs..]) -> Call(SUB1, [a_next, b_next, Borrow])`.
#[verifier::rlimit(100)]
fn ripple_sub_next(
    store: &mut OptimizedLinkStore,
    n: RippleSubNames,
    next_tag: Handle,
    k: Handle,
    a_tail: &[Handle],
    b_tail: &[Handle],
    diffs: &[Handle],
    a_next: Handle,
    b_next: Handle,
    borrow: Handle,
) -> (after: Handle)
    requires
        has_room(old(store), 200),
        n.held(old(store)),
        holds(old(store), next_tag),
        holds(old(store), k),
        holds(old(store), a_next),
        holds(old(store), b_next),
        holds(old(store), borrow),
        all_held(old(store), a_tail@),
        all_held(old(store), b_tail@),
        all_held(old(store), diffs@),
        a_tail@.len() + b_tail@.len() + diffs@.len() <= 64,
    ensures
        grown(old(store), final(store), 200),
        holds(final(store), after),
{
    let mut next_state: Vec<Handle> = Vec::new();
    next_state.push(k);
    append(&mut next_state, a_tail);
    append(&mut next_state, b_tail);
    append(&mut next_state, diffs);
    let next_caller = stage_frame(store, next_tag, next_state.as_slice());
    let next_args = sequence(store, &[a_next, b_next, borrow]);
    let next_call = call(store, n.apply, n.sub1, next_args);
    pair(store, next_caller, next_call)
}

/// The end of the word: `K -> [Diffs, Borrow]`.
fn ripple_sub_result(store: &mut OptimizedLinkStore, k: Handle, diffs: &[Handle], borrow: Handle) -> (after: Handle)
    requires
        has_room(old(store), 200),
        holds(old(store), k),
        holds(old(store), borrow),
        all_held(old(store), diffs@),
        diffs@.len() <= 32,
    ensures
        grown(old(store), final(store), 200),
        holds(final(store), after),
{
    let diff_word = sequence(store, diffs);
    let final_result = sequence(store, &[diff_word, borrow]);
    pair(store, k, final_result)
}

/// Bit `i` returned: `Stage_i([K, a_rem.., b_rem.., diffs..]) -> [Diff_i, Borrow]`
/// becomes the SUB1 call of bit `i + 1`, or, after the last bit, the result.
#[verifier::rlimit(100)]
fn ripple_sub_bit(
    store: &mut OptimizedLinkStore,
    gen: &mut AnchorGen,
    n: RippleSubNames,
    tag: Handle,
    next_tag: Handle,
    width: usize,
    i: usize,
)
    requires
        has_room(old(store), 700),
        old(gen).ok(old(store)),
        n.held(old(store)),
        holds(old(store), tag),
        holds(old(store), next_tag),
        1 <= width <= 32,
        i < width,
    ensures
        grown(old(store), final(store), 700),
        final(gen).ok(final(store)),
{
    let remaining = width - i - 1;
    let count = 3 + 2 * remaining + i;
    // [K, a_rem.., b_rem.., diffs.., Diff_i, Borrow]
    let r = gen.roles(store, count);
    let k = r[0];
    let borrow = r[count - 1];
    let prev_start = 1 + 2 * remaining;
    let caller = stage_frame(store, tag, &r.as_slice()[0..count - 2]);
    let sub_result = sequence(store, &[r[count - 2], borrow]);
    let before = pair(store, caller, sub_result);
    let after = if i + 1 < width {
        ripple_sub_next(
            store,
            n,
            next_tag,
            k,
            &r.as_slice()[2..1 + remaining],
            &r.as_slice()[2 + remaining..prev_start],
            &r.as_slice()[prev_start..count - 1],
            r[1],
            r[1 + remaining],
            borrow,
        )
    } else {
        ripple_sub_result(store, k, &r.as_slice()[prev_start..count - 1], borrow)
    };
    proof {
        lemma_increasing_distinct(r@);
    }
    let (_, admission) = define_bundle_rule(store, n.theory, r.as_slice(), before, &[after]);
    index_rule_for(store, &n.sub1_outputs, admission);
}

/// The installed N-bit subtractor.
pub struct RippleSubProgram {
    pub width: usize,
    pub sub_n: Handle,
    pub active_steps: usize,
    pub links_after_build: usize,
}

impl RippleSubProgram {
    /// Installs the shared 1-bit subtractor and the `width`-bit ripple on it.
    /// `K -> Call(SUB_N, [Aword, Bword, Bin])` reacts in `1 + 22 * width`
    /// steps to `K -> [Diffword, Borrow]`.
    #[verifier::rlimit(100)]
    pub fn install(f: &mut Fixture, width: usize) -> (p: RippleSubProgram)
        requires
            old(f).wf(),
            1 <= width <= 32,
            has_room(&old(f).store, 25000),
        ensures
            final(f).wf(),
            grown(&old(f).store, &final(f).store, 25000),
            final(f).engine == old(f).engine,
            final(f).o == old(f).o && final(f).c == old(f).c && final(f).theory == old(f).theory,
            final(f).full == old(f).full && final(f).k == old(f).k && final(f).apply == old(f).apply,
            final(f).zero == old(f).zero && final(f).one == old(f).one && final(f).args3 == old(f).args3,
            p.width == width,
            p.active_steps == 1 + 22 * width,
            p.links_after_build == final(f).store.links().len() - 1,
            holds(&final(f).store, p.sub_n),
    {
        // One reusable 1-bit subtractor; every bit position calls it.
        let sub1 = Sub1Program::install(f);
        let seed = pair(&mut f.store, sub1.sub, f.k);
        let mut gen = sub_anchors(&mut f.store, seed, f.o, f.c, width);
        let sub_left = gen.next(&mut f.store);
        let sub_right = gen.next(&mut f.store);
        let sub_n = pair(&mut f.store, sub_left, sub_right);
        let stage_tags = pair_tags(&mut f.store, &mut gen, width);
        let o00 = sequence(&mut f.store, &[f.zero, f.zero]);
        let o10 = sequence(&mut f.store, &[f.one, f.zero]);
        let o01 = sequence(&mut f.store, &[f.zero, f.one]);
        let o11 = sequence(&mut f.store, &[f.one, f.one]);
        let n = RippleSubNames {
            theory: f.theory,
            o: f.o,
            apply: f.apply,
            sub1: sub1.sub,
            sub_n,
            sub1_outputs: [o00, o10, o01, o11],
        };
        ripple_sub_open(&mut f.store, &mut gen, n, stage_tags[0], width);
        let mut i: usize = 0;
        while i < width
            invariant
                i <= width,
                1 <= width <= 32,
                has_room(&old(f).store, 25000),
                grown(&old(f).store, &f.store, 1721 + 4 * width as nat + 700 * i as nat),
                gen.ok(&f.store),
                n.held(&f.store),
                stage_tags@.len() == width,
                all_held(&f.store, stage_tags@),
                holds(&f.store, sub_n),
                f.engine == old(f).engine,
                f.o == old(f).o && f.c == old(f).c && f.theory == old(f).theory,
                f.full == old(f).full && f.k == old(f).k && f.apply == old(f).apply,
                f.zero == old(f).zero && f.one == old(f).one && f.args3 == old(f).args3,
                f.wf(),
            decreases width - i,
        {
            let next_tag = if i + 1 < width {
                stage_tags[i + 1]
            } else {
                stage_tags[i]
            };
            ripple_sub_bit(&mut f.store, &mut gen, n, stage_tags[i], next_tag, width, i);
            proof {
                f.store.lemma_wf_links();
            }
            i += 1;
        }
        proof {
            f.store.lemma_wf_links();
        }
        let links_after_build = f.store.link_count();
        RippleSubProgram { width, sub_n, active_steps: 1 + (sub1.active_steps + 1) * width, links_after_build }
    }
}

} // verus!
