//! The 4-bit ripple-carry adder: four calls of the fixture's full adder,
//! chained by staged frames. Words are ROOT-originating exact sequences of
//! four bits, least significant first.
use vstd::prelude::*;

use crate::circuit::{
    call, define_bundle_rule, fresh_from, grown, has_room, holds, increasing, index_rule, index_rule_for,
    lemma_increasing_distinct, pair, sequence, stage_frame, Fixture,
};
use crate::store::OptimizedLinkStore;
use crate::Handle;

verus! {

/// The installed adder: its function Link, the tags of its four stage
/// frames, and the four possible full adder results `[sum, carry]`.
pub struct Add4Program {
    pub add4: Handle,
    pub stage_tags: [Handle; 4],
    pub full_outputs: [Handle; 4],
}

/// The Links a stage rule needs.
#[derive(Clone, Copy)]
struct StageNames {
    theory: Handle,
    o: Handle,
    apply: Handle,
    full: Handle,
    add4: Handle,
    tags: [Handle; 4],
    outputs: [Handle; 4],
}

impl StageNames {
    spec fn held(&self, store: &OptimizedLinkStore) -> bool {
        &&& holds(store, self.theory)
        &&& holds(store, self.o)
        &&& holds(store, self.apply)
        &&& holds(store, self.full)
        &&& holds(store, self.add4)
        &&& forall|i: int| 0 <= i < 4 ==> holds(store, #[trigger] self.tags@[i])
        &&& forall|i: int| 0 <= i < 4 ==> holds(store, #[trigger] self.outputs@[i])
    }
}

/// ADD4 OPEN: `K -> Call(ADD4, [Aword, Bword, Cin])` becomes
/// `S0Frame(K, a1, a2, a3, b1, b2, b3) -> Call(FULL, [a0, b0, Cin])`.
/// Roles: `[K, a0, a1, a2, a3, b0, b1, b2, b3, Cin]`.
#[verifier::rlimit(100)]
fn install_open(store: &mut OptimizedLinkStore, n: StageNames, r: &[Handle])
    requires
        r@.len() == 10,
        has_room(old(store), 80),
        n.held(old(store)),
        increasing(r@),
        forall|i: int| 0 <= i < 10 ==> holds(old(store), #[trigger] r@[i]),
    ensures
        grown(old(store), final(store), 80),
{
    let (k, a0, a1, a2, a3) = (r[0], r[1], r[2], r[3], r[4]);
    let (b0, b1, b2, b3, cin) = (r[5], r[6], r[7], r[8], r[9]);
    let aword = sequence(store, &[a0, a1, a2, a3]);
    let bword = sequence(store, &[b0, b1, b2, b3]);
    let args = sequence(store, &[aword, bword, cin]);
    let invocation = call(store, n.apply, n.add4, args);
    let before = pair(store, k, invocation);
    let caller = stage_frame(store, n.tags[0], &[k, a1, a2, a3, b1, b2, b3]);
    let fa_args = sequence(store, &[a0, b0, cin]);
    let fa_call = call(store, n.apply, n.full, fa_args);
    let after = pair(store, caller, fa_call);
    proof {
        lemma_increasing_distinct(r@);
    }
    let (_, admission) = define_bundle_rule(store, n.theory, r, before, &[after]);
    index_rule(store, n.o, admission);
}

/// S0 result: `S0Frame(K, a1, a2, a3, b1, b2, b3) -> [s0, c1]` becomes
/// `S1Frame(K, a2, a3, b2, b3, s0) -> Call(FULL, [a1, b1, c1])`.
/// Roles: `[K, a1, a2, a3, b1, b2, b3, s0, c1]`.
#[verifier::rlimit(100)]
fn install_stage0(store: &mut OptimizedLinkStore, n: StageNames, r: &[Handle])
    requires
        r@.len() == 9,
        has_room(old(store), 80),
        n.held(old(store)),
        increasing(r@),
        forall|i: int| 0 <= i < 9 ==> holds(old(store), #[trigger] r@[i]),
    ensures
        grown(old(store), final(store), 80),
{
    let (k, a1, a2, a3, b1) = (r[0], r[1], r[2], r[3], r[4]);
    let (b2, b3, s0, c1) = (r[5], r[6], r[7], r[8]);
    let caller = stage_frame(store, n.tags[0], &[k, a1, a2, a3, b1, b2, b3]);
    let result = sequence(store, &[s0, c1]);
    let before = pair(store, caller, result);
    let next_caller = stage_frame(store, n.tags[1], &[k, a2, a3, b2, b3, s0]);
    let args = sequence(store, &[a1, b1, c1]);
    let invocation = call(store, n.apply, n.full, args);
    let after = pair(store, next_caller, invocation);
    proof {
        lemma_increasing_distinct(r@);
    }
    let (_, admission) = define_bundle_rule(store, n.theory, r, before, &[after]);
    index_rule_for(store, &n.outputs, admission);
}

/// S1 result: `S1Frame(K, a2, a3, b2, b3, s0) -> [s1, c2]` becomes
/// `S2Frame(K, a3, b3, s0, s1) -> Call(FULL, [a2, b2, c2])`.
/// Roles: `[K, a2, a3, b2, b3, s0, s1, c2]`.
fn install_stage1(store: &mut OptimizedLinkStore, n: StageNames, r: &[Handle])
    requires
        r@.len() == 8,
        has_room(old(store), 80),
        n.held(old(store)),
        increasing(r@),
        forall|i: int| 0 <= i < 8 ==> holds(old(store), #[trigger] r@[i]),
    ensures
        grown(old(store), final(store), 80),
{
    let (k, a2, a3, b2, b3) = (r[0], r[1], r[2], r[3], r[4]);
    let (s0, s1, c2) = (r[5], r[6], r[7]);
    let caller = stage_frame(store, n.tags[1], &[k, a2, a3, b2, b3, s0]);
    let result = sequence(store, &[s1, c2]);
    let before = pair(store, caller, result);
    let next_caller = stage_frame(store, n.tags[2], &[k, a3, b3, s0, s1]);
    let args = sequence(store, &[a2, b2, c2]);
    let invocation = call(store, n.apply, n.full, args);
    let after = pair(store, next_caller, invocation);
    proof {
        lemma_increasing_distinct(r@);
    }
    let (_, admission) = define_bundle_rule(store, n.theory, r, before, &[after]);
    index_rule_for(store, &n.outputs, admission);
}

/// S2 result: `S2Frame(K, a3, b3, s0, s1) -> [s2, c3]` becomes
/// `S3Frame(K, s0, s1, s2) -> Call(FULL, [a3, b3, c3])`.
/// Roles: `[K, a3, b3, s0, s1, s2, c3]`.
fn install_stage2(store: &mut OptimizedLinkStore, n: StageNames, r: &[Handle])
    requires
        r@.len() == 7,
        has_room(old(store), 80),
        n.held(old(store)),
        increasing(r@),
        forall|i: int| 0 <= i < 7 ==> holds(old(store), #[trigger] r@[i]),
    ensures
        grown(old(store), final(store), 80),
{
    let (k, a3, b3, s0, s1, s2, c3) = (r[0], r[1], r[2], r[3], r[4], r[5], r[6]);
    let caller = stage_frame(store, n.tags[2], &[k, a3, b3, s0, s1]);
    let result = sequence(store, &[s2, c3]);
    let before = pair(store, caller, result);
    let next_caller = stage_frame(store, n.tags[3], &[k, s0, s1, s2]);
    let args = sequence(store, &[a3, b3, c3]);
    let invocation = call(store, n.apply, n.full, args);
    let after = pair(store, next_caller, invocation);
    proof {
        lemma_increasing_distinct(r@);
    }
    let (_, admission) = define_bundle_rule(store, n.theory, r, before, &[after]);
    index_rule_for(store, &n.outputs, admission);
}

/// S3 result: `S3Frame(K, s0, s1, s2) -> [s3, cout]` becomes
/// `K -> [[s0, s1, s2, s3], cout]`, assembled entirely in the rule template.
/// Roles: `[K, s0, s1, s2, s3, cout]`.
fn install_stage3(store: &mut OptimizedLinkStore, n: StageNames, r: &[Handle])
    requires
        r@.len() == 6,
        has_room(old(store), 80),
        n.held(old(store)),
        increasing(r@),
        forall|i: int| 0 <= i < 6 ==> holds(old(store), #[trigger] r@[i]),
    ensures
        grown(old(store), final(store), 80),
{
    let (k, s0, s1, s2, s3, cout) = (r[0], r[1], r[2], r[3], r[4], r[5]);
    let caller = stage_frame(store, n.tags[3], &[k, s0, s1, s2]);
    let result = sequence(store, &[s3, cout]);
    let before = pair(store, caller, result);
    let sum_word = sequence(store, &[s0, s1, s2, s3]);
    let final_result = sequence(store, &[sum_word, cout]);
    let after = pair(store, k, final_result);
    proof {
        lemma_increasing_distinct(r@);
    }
    let (_, admission) = define_bundle_rule(store, n.theory, r, before, &[after]);
    index_rule_for(store, &n.outputs, admission);
}

/// A window of strictly increasing anchors is strictly increasing.
proof fn lemma_window(anchors: Seq<Handle>, lo: int, hi: int)
    requires
        increasing(anchors),
        0 <= lo <= hi <= anchors.len(),
    ensures
        increasing(anchors.subrange(lo, hi)),
{
    assert forall|i: int, j: int| 0 <= i < j < hi - lo implies #[trigger] anchors.subrange(lo, hi)[i]
        < #[trigger] anchors.subrange(lo, hi)[j] by {
        assert(anchors[lo + i] < anchors[lo + j]);
    }
}

impl Add4Program {
    /// Its Links are Links of `store`.
    pub open spec fn held(&self, store: &OptimizedLinkStore) -> bool {
        &&& holds(store, self.add4)
        &&& forall|i: int| 0 <= i < 4 ==> holds(store, #[trigger] self.stage_tags@[i])
        &&& forall|i: int| 0 <= i < 4 ==> holds(store, #[trigger] self.full_outputs@[i])
    }

    /// Installs ADD4 on the fixture: `K -> Call(ADD4, [Aword, Bword, Cin])`
    /// reacts, through five stage rules and four full adder calls, to
    /// `K -> [SumWord, Cout]` in 57 reactions. Its anchors are chained from
    /// `PAIR(full, k)`, so they do not collide with the fixture's.
    #[verifier::rlimit(100)]
    pub fn install(f: &mut Fixture) -> (p: Add4Program)
        requires
            old(f).wf(),
            has_room(&old(f).store, 700),
        ensures
            final(f).wf(),
            grown(&old(f).store, &final(f).store, 700),
            final(f).engine == old(f).engine,
            final(f).o == old(f).o && final(f).c == old(f).c && final(f).theory == old(f).theory,
            final(f).full == old(f).full && final(f).k == old(f).k && final(f).apply == old(f).apply,
            final(f).zero == old(f).zero && final(f).one == old(f).one && final(f).args3 == old(f).args3,
            p.held(&final(f).store),
    {
        let seed = pair(&mut f.store, f.full, f.k);
        let anchors = fresh_from(&mut f.store, seed, f.o, f.c, 180);
        let add4 = pair(&mut f.store, anchors[0], anchors[1]);
        let t0 = pair(&mut f.store, anchors[2], anchors[3]);
        let t1 = pair(&mut f.store, anchors[4], anchors[5]);
        let t2 = pair(&mut f.store, anchors[6], anchors[7]);
        let t3 = pair(&mut f.store, anchors[8], anchors[9]);
        let stage_tags = [t0, t1, t2, t3];
        let (zero, one) = (f.zero, f.one);
        let o00 = sequence(&mut f.store, &[zero, zero]);
        let o10 = sequence(&mut f.store, &[one, zero]);
        let o01 = sequence(&mut f.store, &[zero, one]);
        let o11 = sequence(&mut f.store, &[one, one]);
        let full_outputs = [o00, o10, o01, o11];
        let n = StageNames {
            theory: f.theory,
            o: f.o,
            apply: f.apply,
            full: f.full,
            add4,
            tags: stage_tags,
            outputs: full_outputs,
        };
        proof {
            lemma_window(anchors@, 20, 30);
            lemma_window(anchors@, 40, 49);
            lemma_window(anchors@, 60, 68);
            lemma_window(anchors@, 80, 87);
            lemma_window(anchors@, 100, 106);
        }
        let all = anchors.as_slice();
        install_open(&mut f.store, n, &all[20..30]);
        install_stage0(&mut f.store, n, &all[40..49]);
        install_stage1(&mut f.store, n, &all[60..68]);
        install_stage2(&mut f.store, n, &all[80..87]);
        install_stage3(&mut f.store, n, &all[100..106]);
        proof {
            f.store.lemma_wf_links();
        }
        Add4Program { add4, stage_tags, full_outputs }
    }
}

} // verus!
