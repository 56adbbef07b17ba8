//! ADD/SUB/CMP as effects: the flagged N-bit arithmetic, its result turned
//! into the shared ALU result `[WriteBack, Word, FlagPatch]` that sets all six
//! status flags.
use vstd::prelude::*;

use crate::arith_circuit::AnchorGen;
use crate::circuit::{
    call, define_bundle_rule, grown, has_room, holds, index_rule_for, lemma_increasing_distinct, pair, sequence,
    stage_frame, Fixture,
};
use crate::effect_circuit::{install_alu_effect_result_tag, set_flag_action, FlagPatchSchema};
use crate::flags_circuit::FlaggedArithmeticProgram;
use crate::store::OptimizedLinkStore;
use crate::Handle;

verus! {

/// The anchors of the arithmetic effect: `seed, c, c, o, c, o, (o, o, c) * width`.
fn arith_effect_anchors(store: &mut OptimizedLinkStore, seed: Handle, o: Handle, c: Handle, width: usize) -> (g:
    AnchorGen)
    requires
        has_room(old(store), 3 * width as nat + 5),
        holds(old(store), seed),
        holds(old(store), o),
        holds(old(store), c),
    ensures
        grown(old(store), final(store), 3 * width as nat + 5),
        g.ok(final(store)),
{
    let mut seed = pair(store, seed, c);
    seed = pair(store, seed, c);
    seed = pair(store, seed, o);
    seed = pair(store, seed, c);
    seed = pair(store, seed, o);
    let mut i: usize = 0;
    while i < width
        invariant
            i <= width,
            grown(old(store), store, 3 * i as nat + 5),
            has_room(old(store), 3 * width as nat + 5),
            holds(store, seed),
            holds(old(store), o),
            holds(old(store), c),
        decreases width - i,
    {
        seed = pair(store, seed, o);
        seed = pair(store, seed, o);
        seed = pair(store, seed, c);
        i += 1;
    }
    AnchorGen { current: seed, flip: false, o, c }
}

/// The Links the effect rules are built from.
#[derive(Clone, Copy)]
struct ArithEffectNames {
    theory: Handle,
    o: Handle,
    apply: Handle,
    effect: Handle,
    flagged: Handle,
    flagged_result_tag: Handle,
    result_frame_tag: Handle,
    result_tag: Handle,
    schema: FlagPatchSchema,
}

impl ArithEffectNames {
    spec fn held(&self, store: &OptimizedLinkStore) -> bool {
        &&& holds(store, self.theory)
        &&& holds(store, self.o)
        &&& holds(store, self.apply)
        &&& holds(store, self.effect)
        &&& holds(store, self.flagged)
        &&& holds(store, self.flagged_result_tag)
        &&& holds(store, self.result_frame_tag)
        &&& holds(store, self.result_tag)
        &&& self.schema.held(store)
    }
}

/// `K -> Call(EFFECT, [A, B, X, Mode, WriteBack])` becomes
/// `ResultFrame([K, WriteBack]) -> Call(FLAGGED, [A, B, X, Mode])`.
fn arith_effect_open(store: &mut OptimizedLinkStore, gen: &mut AnchorGen, n: ArithEffectNames)
    requires
        has_room(old(store), 100),
        old(gen).ok(old(store)),
        n.held(old(store)),
    ensures
        grown(old(store), final(store), 100),
        final(gen).ok(final(store)),
{
    // [K, A, B, X, Mode, WriteBack]
    let r = gen.roles(store, 6);
    let k = r[0];
    let args = sequence(store, &r.as_slice()[1..6]);
    let before_call = call(store, n.apply, n.effect, args);
    let before = pair(store, k, before_call);
    let caller = stage_frame(store, n.result_frame_tag, &[k, r[5]]);
    let flagged_args = sequence(store, &[r[1], r[2], r[3], r[4]]);
    let flagged_call = call(store, n.apply, n.flagged, flagged_args);
    let after = pair(store, caller, flagged_call);
    proof {
        lemma_increasing_distinct(r@);
    }
    let (_, admission) = define_bundle_rule(store, n.theory, r.as_slice(), before, &[after]);
    index_rule_for(store, &[n.o], admission);
}

/// The flagged result `ResultFrame([K, WriteBack]) -> PAIR(FlaggedResult,
/// [Word, CF, PF, AF, ZF, SF, OF])` becomes
/// `K -> PAIR(ResultTag, [WriteBack, Word, [set CF, .., set OF]])`.
#[verifier::rlimit(100)]
fn arith_effect_result(store: &mut OptimizedLinkStore, gen: &mut AnchorGen, n: ArithEffectNames)
    requires
        has_room(old(store), 150),
        old(gen).ok(old(store)),
        n.held(old(store)),
    ensures
        grown(old(store), final(store), 150),
        final(gen).ok(final(store)),
{
    // [K, WriteBack, Word, CF, PF, AF, ZF, SF, OF]
    let r = gen.roles(store, 9);
    let k = r[0];
    let writeback = r[1];
    let word = r[2];
    let flagged_payload = sequence(store, &[word, r[3], r[4], r[5], r[6], r[7], r[8]]);
    let flagged_envelope = pair(store, n.flagged_result_tag, flagged_payload);
    let caller = stage_frame(store, n.result_frame_tag, &[k, writeback]);
    let before = pair(store, caller, flagged_envelope);
    let s = n.schema;
    let set_cf = set_flag_action(store, s, s.cf, r[3]);
    let set_pf = set_flag_action(store, s, s.pf, r[4]);
    let set_af = set_flag_action(store, s, s.af, r[5]);
    let set_zf = set_flag_action(store, s, s.zf, r[6]);
    let set_sf = set_flag_action(store, s, s.sf, r[7]);
    let set_of = set_flag_action(store, s, s.of, r[8]);
    let patch = sequence(store, &[set_cf, set_pf, set_af, set_zf, set_sf, set_of]);
    let payload = sequence(store, &[writeback, word, patch]);
    let envelope = pair(store, n.result_tag, payload);
    let after = pair(store, k, envelope);
    proof {
        lemma_increasing_distinct(r@);
    }
    let (_, admission) = define_bundle_rule(store, n.theory, r.as_slice(), before, &[after]);
    index_rule_for(store, &[n.flagged_result_tag], admission);
}

/// The installed arithmetic effect.
pub struct ArithmeticEffectProgram {
    pub width: usize,
    pub effect: Handle,
    pub result_tag: Handle,
    pub schema: FlagPatchSchema,
    pub flagged: FlaggedArithmeticProgram,
    pub active_steps: usize,
    pub links_after_build: usize,
}

impl ArithmeticEffectProgram {
    /// Installs the flagged `width`-bit arithmetic and the effect around it.
    /// `K -> Call(EFFECT, [Aword, Bword, X, Mode, WriteBack])` reacts in
    /// `33 + 18 * width` steps to `K -> PAIR(ResultTag, [WriteBack, Word,
    /// FlagPatch])`, the patch setting CF, PF, AF, ZF, SF and OF.
    #[verifier::rlimit(100)]
    pub fn install(f: &mut Fixture, width: usize) -> (p: ArithmeticEffectProgram)
        requires
            old(f).wf(),
            8 <= width <= 32,
            has_room(&old(f).store, 81000),
        ensures
            final(f).wf(),
            grown(&old(f).store, &final(f).store, 81000),
            final(f).engine == old(f).engine,
            final(f).o == old(f).o && final(f).c == old(f).c && final(f).theory == old(f).theory,
            final(f).full == old(f).full && final(f).k == old(f).k && final(f).apply == old(f).apply,
            final(f).zero == old(f).zero && final(f).one == old(f).one && final(f).args3 == old(f).args3,
            p.width == width,
            p.active_steps == 33 + 18 * width,
            p.links_after_build == final(f).store.links().len() - 1,
            holds(&final(f).store, p.effect),
            holds(&final(f).store, p.result_tag),
            p.schema.held(&final(f).store),
    {
        let flagged = FlaggedArithmeticProgram::install(f, width);
        let seed0 = pair(&mut f.store, flagged.flagged, flagged.result_tag);
        let mut gen = arith_effect_anchors(&mut f.store, seed0, f.o, f.c, width);
        let effect_left = gen.next(&mut f.store);
        let effect_right = gen.next(&mut f.store);
        let effect = pair(&mut f.store, effect_left, effect_right);
        let result_frame_tag = gen.next(&mut f.store);
        let shared_seed = pair(&mut f.store, f.k, f.full);
        let schema = FlagPatchSchema::install(&mut f.store, shared_seed, f.o, f.c);
        let result_tag = install_alu_effect_result_tag(&mut f.store, shared_seed, f.o, f.c);
        let n = ArithEffectNames {
            theory: f.theory,
            o: f.o,
            apply: f.apply,
            effect,
            flagged: flagged.flagged,
            flagged_result_tag: flagged.result_tag,
            result_frame_tag,
            result_tag,
            schema,
        };
        arith_effect_open(&mut f.store, &mut gen, n);
        arith_effect_result(&mut f.store, &mut gen, n);
        proof {
            f.store.lemma_wf_links();
        }
        let links_after_build = f.store.link_count();
        let active_steps = flagged.active_steps + 2;
        ArithmeticEffectProgram { width, effect, result_tag, schema, flagged, active_steps, links_after_build }
    }
}

} // verus!
