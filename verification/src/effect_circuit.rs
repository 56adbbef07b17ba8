//! ALU effects of word logic: the flag patch schema shared by ALU
//! components, and a program that wraps the word logic controllers into
//! effects `[WriteBack, Word, FlagPatch]` with CF = OF = 0, SF, ZF, PF set
//! and AF undefined (NOT: no flag patch).
use vstd::prelude::*;

use crate::arith_circuit::{all_held, AnchorGen};
use crate::circuit::{
    lemma_functions_differ, call, define_bundle_rule, grown, has_room, holds, index_rule, index_rule_for,
    lemma_increasing_distinct, pair, sequence, stage_frame, Fixture,
};
use crate::flags_circuit::{continuation_rule, pair_tags};
use crate::logic_circuit::LogicProgram;
use crate::store::OptimizedLinkStore;
use crate::Handle;

verus! {

/// The flag effect vocabulary: the tags of set and undefined actions and
/// the six arithmetic flags.
#[derive(Clone, Copy)]
pub struct FlagPatchSchema {
    pub set_tag: Handle,
    pub undefined_tag: Handle,
    pub cf: Handle,
    pub pf: Handle,
    pub af: Handle,
    pub zf: Handle,
    pub sf: Handle,
    pub of: Handle,
}

impl FlagPatchSchema {
    pub open spec fn held(&self, store: &OptimizedLinkStore) -> bool {
        &&& holds(store, self.set_tag)
        &&& holds(store, self.undefined_tag)
        &&& holds(store, self.cf)
        &&& holds(store, self.pf)
        &&& holds(store, self.af)
        &&& holds(store, self.zf)
        &&& holds(store, self.sf)
        &&& holds(store, self.of)
    }

    /// Installs the schema in a deterministic namespace under `seed`:
    /// installing it again with the same seed finds the same Links, so
    /// independent ALU components in one store share one vocabulary.
    pub fn install(store: &mut OptimizedLinkStore, seed: Handle, o: Handle, c: Handle) -> (s: FlagPatchSchema)
        requires
            has_room(old(store), 21),
            holds(old(store), seed),
            holds(old(store), o),
            holds(old(store), c),
        ensures
            grown(old(store), final(store), 21),
            s.held(final(store)),
    {
        let mut current = pair(store, seed, seed);
        let poles = [c, o, c, c, o, o, c, o, o, c, c, o];
        let mut i: usize = 0;
        while i < 12
            invariant
                i <= 12,
                grown(old(store), store, i as nat + 1),
                has_room(old(store), 21),
                holds(store, current),
                holds(old(store), o),
                holds(old(store), c),
                poles@ == seq![c, o, c, c, o, o, c, o, o, c, c, o],
            decreases 12 - i,
        {
            current = pair(store, current, poles[i]);
            i += 1;
        }
        let mut gen = AnchorGen { current, flip: false, o, c };
        let set_tag = gen.next(store);
        let undefined_tag = gen.next(store);
        let cf = gen.next(store);
        let pf = gen.next(store);
        let af = gen.next(store);
        let zf = gen.next(store);
        let sf = gen.next(store);
        let of = gen.next(store);
        FlagPatchSchema { set_tag, undefined_tag, cf, pf, af, zf, sf, of }
    }
}

/// The action setting `flag` to `value`: `PAIR(SetTag, [flag, value])`.
pub fn set_flag_action(store: &mut OptimizedLinkStore, schema: FlagPatchSchema, flag: Handle, value: Handle) -> (h: Handle)
    requires
        has_room(old(store), 5),
        schema.held(old(store)),
        holds(old(store), flag),
        holds(old(store), value),
    ensures
        grown(old(store), final(store), 5),
        holds(final(store), h),
{
    let payload = sequence(store, &[flag, value]);
    pair(store, schema.set_tag, payload)
}

/// The action leaving `flag` undefined: `PAIR(UndefinedTag, [flag])`.
pub fn undefined_flag_action(store: &mut OptimizedLinkStore, schema: FlagPatchSchema, flag: Handle) -> (h: Handle)
    requires
        has_room(old(store), 3),
        schema.held(old(store)),
        holds(old(store), flag),
    ensures
        grown(old(store), final(store), 3),
        holds(final(store), h),
{
    let payload = sequence(store, &[flag]);
    pair(store, schema.undefined_tag, payload)
}

/// The shared envelope tag of every ALU effect producer whose payload is
/// `[WriteBack, Word, FlagPatch]`, in a deterministic namespace under `seed`.
pub fn install_alu_effect_result_tag(store: &mut OptimizedLinkStore, seed: Handle, o: Handle, c: Handle) -> (h: Handle)
    requires
        has_room(old(store), 15),
        holds(old(store), seed),
        holds(old(store), o),
        holds(old(store), c),
    ensures
        grown(old(store), final(store), 15),
        holds(final(store), h),
{
    let mut current = pair(store, seed, seed);
    let poles = [o, o, c, o, c, c, o, c, o, c, o, o, c, c];
    let mut i: usize = 0;
    while i < 14
        invariant
            i <= 14,
            grown(old(store), store, i as nat + 1),
            has_room(old(store), 15),
            holds(store, current),
            holds(old(store), o),
            holds(old(store), c),
            poles@ == seq![o, o, c, o, c, c, o, c, o, c, o, o, c, c],
        decreases 14 - i,
    {
        current = pair(store, current, poles[i]);
        i += 1;
    }
    current
}

/// The anchors of the logic effect program: `seed, c, o, c, c, (o, c, o, o) * width`.
fn effect_anchors(store: &mut OptimizedLinkStore, seed: Handle, o: Handle, c: Handle, width: usize) -> (g: AnchorGen)
    requires
        has_room(old(store), 4 * width as nat + 4),
        holds(old(store), seed),
        holds(old(store), o),
        holds(old(store), c),
    ensures
        grown(old(store), final(store), 4 * width as nat + 4),
        g.ok(final(store)),
{
    let mut seed = pair(store, seed, c);
    seed = pair(store, seed, o);
    seed = pair(store, seed, c);
    seed = pair(store, seed, c);
    let mut i: usize = 0;
    while i < width
        invariant
            i <= width,
            grown(old(store), store, 4 * i as nat + 4),
            has_room(old(store), 4 * width as nat + 4),
            holds(store, seed),
            holds(old(store), o),
            holds(old(store), c),
        decreases width - i,
    {
        seed = pair(store, seed, o);
        seed = pair(store, seed, c);
        seed = pair(store, seed, o);
        seed = pair(store, seed, o);
        i += 1;
    }
    AnchorGen { current: seed, flip: false, o, c }
}

/// The Links the effect rules are built from.
#[derive(Clone, Copy)]
struct EffectNames {
    theory: Handle,
    o: Handle,
    apply: Handle,
    zero: Handle,
    one: Handle,
    word_binary: Handle,
    word_not: Handle,
    logic_result_tag: Handle,
    or2: Handle,
    xor2: Handle,
    not1: Handle,
    bit_outputs: [Handle; 2],
    binary_effect: Handle,
    not_effect: Handle,
    result_tag: Handle,
    schema: FlagPatchSchema,
    binary_result_tag: Handle,
    not_result_tag: Handle,
    zf_not_tag: Handle,
    pf_not_tag: Handle,
}

impl EffectNames {
    spec fn held(&self, store: &OptimizedLinkStore) -> bool {
        &&& holds(store, self.theory)
        &&& holds(store, self.o)
        &&& holds(store, self.apply)
        &&& holds(store, self.zero)
        &&& holds(store, self.one)
        &&& holds(store, self.word_binary)
        &&& holds(store, self.word_not)
        &&& holds(store, self.logic_result_tag)
        &&& holds(store, self.or2)
        &&& holds(store, self.xor2)
        &&& holds(store, self.not1)
        &&& all_held(store, self.bit_outputs@)
        &&& holds(store, self.binary_effect)
        &&& holds(store, self.not_effect)
        &&& holds(store, self.result_tag)
        &&& self.schema.held(store)
        &&& holds(store, self.binary_result_tag)
        &&& holds(store, self.not_result_tag)
        &&& holds(store, self.zf_not_tag)
        &&& holds(store, self.pf_not_tag)
    }
}

/// Binary effect OPEN: `K -> Call(BIN_EFFECT, [Gate, Aword, Bword, WriteBack])`
/// becomes `BinResult([K, WriteBack]) -> Call(WORD_BIN, [Gate, Aword, Bword])`.
#[verifier::rlimit(100)]
fn effect_bin_open(store: &mut OptimizedLinkStore, gen: &mut AnchorGen, n: EffectNames)
    requires
        has_room(old(store), 100),
        old(gen).ok(old(store)),
        n.held(old(store)),
    ensures
        grown(old(store), final(store), 100),
        final(gen).ok(final(store)),
{
    // [K, Gate, Aword, Bword, WriteBack]
    let r = gen.roles(store, 5);
    let k = r[0];
    let writeback = r[4];
    let args = sequence(store, &r.as_slice()[1..5]);
    let before_call = call(store, n.apply, n.binary_effect, args);
    let before = pair(store, k, before_call);
    let caller = stage_frame(store, n.binary_result_tag, &[k, writeback]);
    let logic_args = sequence(store, &r.as_slice()[1..4]);
    let logic_call = call(store, n.apply, n.word_binary, logic_args);
    let after = pair(store, caller, logic_call);
    proof {
        lemma_increasing_distinct(r@);
    }
    let (_, admission) = define_bundle_rule(store, n.theory, r.as_slice(), before, &[after]);
    index_rule(store, n.o, admission);
}

/// The word result arrives: `BinResult([K, WriteBack]) -> PAIR(LogicResult, [Word])`
/// becomes `ZfFrame_0([K, WriteBack, Bits...]) -> OR2(bit_0, bit_1)`.
#[verifier::rlimit(100)]
fn effect_bin_result(store: &mut OptimizedLinkStore, gen: &mut AnchorGen, n: EffectNames, zf_tag0: Handle, width: usize)
    requires
        has_room(old(store), 400),
        old(gen).ok(old(store)),
        n.held(old(store)),
        holds(old(store), zf_tag0),
        8 <= width <= 32,
    ensures
        grown(old(store), final(store), 400),
        final(gen).ok(final(store)),
{
    // [K, WriteBack, Bits...]
    let r = gen.roles(store, width + 2);
    let k = r[0];
    let writeback = r[1];
    let word = sequence(store, &r.as_slice()[2..2 + width]);
    let logic_payload = sequence(store, &[word]);
    let logic_envelope = pair(store, n.logic_result_tag, logic_payload);
    let caller = stage_frame(store, n.binary_result_tag, &[k, writeback]);
    let before = pair(store, caller, logic_envelope);
    let next_caller = stage_frame(store, zf_tag0, r.as_slice());
    let or_args = sequence(store, &[r[2], r[3]]);
    let or_call = call(store, n.apply, n.or2, or_args);
    let after = pair(store, next_caller, or_call);
    proof {
        lemma_increasing_distinct(r@);
    }
    let (_, admission) = define_bundle_rule(store, n.theory, r.as_slice(), before, &[after]);
    index_rule(store, n.logic_result_tag, admission);
}

/// One reduction step over `[K, WriteBack, Bits..., extra..., acc]`:
/// `tag(state) -> [acc]` becomes `next_tag(state) -> function(acc, bit_{i+2})`,
/// or after the last step `last_tag(state) -> NOT1(acc)`.
#[verifier::rlimit(100)]
fn effect_reduce_step(
    store: &mut OptimizedLinkStore,
    gen: &mut AnchorGen,
    n: EffectNames,
    extra_count: usize,
    tag: Handle,
    next_tag: Handle,
    function: Handle,
    last: bool,
    width: usize,
    i: usize,
)
    requires
        has_room(old(store), 500),
        old(gen).ok(old(store)),
        n.held(old(store)),
        holds(old(store), tag),
        holds(old(store), next_tag),
        holds(old(store), function),
        8 <= width <= 32,
        extra_count <= 1,
        !last ==> i + 2 < width,
    ensures
        grown(old(store), final(store), 500),
        final(gen).ok(final(store)),
{
    let count = width + 2 + extra_count + 1;
    let r = gen.roles(store, count);
    let acc = r[count - 1];
    if last {
        continuation_rule(
            store,
            n.theory,
            n.apply,
            r.as_slice(),
            tag,
            &r.as_slice()[0..count - 1],
            &r.as_slice()[count - 1..count],
            next_tag,
            &r.as_slice()[0..count - 1],
            n.not1,
            &[acc],
            &n.bit_outputs,
        );
    } else {
        continuation_rule(
            store,
            n.theory,
            n.apply,
            r.as_slice(),
            tag,
            &r.as_slice()[0..count - 1],
            &r.as_slice()[count - 1..count],
            next_tag,
            &r.as_slice()[0..count - 1],
            function,
            &[acc, r[4 + i]],
            &n.bit_outputs,
        );
    }
}

/// ZF NOT result, then the PF XOR reduction of the low byte:
/// `ZfNot([K, WriteBack, Bits...]) -> [ZF]` becomes
/// `PfFrame_0([K, WriteBack, Bits..., ZF]) -> XOR2(bit_0, bit_1)`.
#[verifier::rlimit(100)]
fn effect_zf(store: &mut OptimizedLinkStore, gen: &mut AnchorGen, n: EffectNames, pf_tag0: Handle, width: usize)
    requires
        has_room(old(store), 500),
        old(gen).ok(old(store)),
        n.held(old(store)),
        holds(old(store), pf_tag0),
        8 <= width <= 32,
    ensures
        grown(old(store), final(store), 500),
        final(gen).ok(final(store)),
{
    // [K, WriteBack, Bits..., ZF]
    let r = gen.roles(store, width + 3);
    continuation_rule(
        store,
        n.theory,
        n.apply,
        r.as_slice(),
        n.zf_not_tag,
        &r.as_slice()[0..width + 2],
        &r.as_slice()[width + 2..width + 3],
        pf_tag0,
        r.as_slice(),
        n.xor2,
        &r.as_slice()[2..4],
        &n.bit_outputs,
    );
}

/// The logic flag patch: CF = 0, PF, AF undefined, ZF, SF, OF = 0.
fn logic_flag_patch(store: &mut OptimizedLinkStore, n: EffectNames, pf: Handle, zf: Handle, sf: Handle) -> (h: Handle)
    requires
        has_room(old(store), 50),
        n.held(old(store)),
        holds(old(store), pf),
        holds(old(store), zf),
        holds(old(store), sf),
    ensures
        grown(old(store), final(store), 50),
        holds(final(store), h),
{
    let schema = n.schema;
    let set_cf = set_flag_action(store, schema, schema.cf, n.zero);
    let set_pf = set_flag_action(store, schema, schema.pf, pf);
    let undef_af = undefined_flag_action(store, schema, schema.af);
    let set_zf = set_flag_action(store, schema, schema.zf, zf);
    let set_sf = set_flag_action(store, schema, schema.sf, sf);
    let set_of = set_flag_action(store, schema, schema.of, n.zero);
    sequence(store, &[set_cf, set_pf, undef_af, set_zf, set_sf, set_of])
}

/// PF NOT result, then the effect envelope:
/// `PfNot([K, WriteBack, Bits..., ZF]) -> [PF]` becomes
/// `K -> PAIR(ResultTag, [WriteBack, Word, FlagPatch])`, SF being the top bit.
#[verifier::rlimit(100)]
fn effect_final(store: &mut OptimizedLinkStore, gen: &mut AnchorGen, n: EffectNames, width: usize)
    requires
        has_room(old(store), 500),
        old(gen).ok(old(store)),
        n.held(old(store)),
        8 <= width <= 32,
    ensures
        grown(old(store), final(store), 500),
        final(gen).ok(final(store)),
{
    // [K, WriteBack, Bits..., ZF, PF]
    let r = gen.roles(store, width + 4);
    let k = r[0];
    let writeback = r[1];
    let zf = r[width + 2];
    let pf = r[width + 3];
    let caller = stage_frame(store, n.pf_not_tag, &r.as_slice()[0..width + 3]);
    let pf_result = sequence(store, &[pf]);
    let before = pair(store, caller, pf_result);
    let word = sequence(store, &r.as_slice()[2..2 + width]);
    let patch = logic_flag_patch(store, n, pf, zf, r[width + 1]);
    let payload = sequence(store, &[writeback, word, patch]);
    let envelope = pair(store, n.result_tag, payload);
    let after = pair(store, k, envelope);
    proof {
        lemma_increasing_distinct(r@);
    }
    let (_, admission) = define_bundle_rule(store, n.theory, r.as_slice(), before, &[after]);
    index_rule_for(store, &n.bit_outputs, admission);
}

/// NOT effect: `K -> Call(NOT_EFFECT, [Aword])` becomes
/// `NotResult([K]) -> Call(WORD_NOT, [Aword])`; the word result then becomes
/// `K -> PAIR(ResultTag, [1, Word, ROOT])`: written back, no flag patch.
#[verifier::rlimit(100)]
fn effect_not(store: &mut OptimizedLinkStore, gen: &mut AnchorGen, n: EffectNames, width: usize)
    requires
        has_room(old(store), 500),
        old(gen).ok(old(store)),
        n.held(old(store)),
        8 <= width <= 32,
    ensures
        grown(old(store), final(store), 500),
        final(gen).ok(final(store)),
{
    effect_not_open(store, gen, n);
    effect_not_return(store, gen, n, width);
}

/// The opening NOT effect rule.
#[verifier::rlimit(100)]
fn effect_not_open(store: &mut OptimizedLinkStore, gen: &mut AnchorGen, n: EffectNames)
    requires
        has_room(old(store), 250),
        old(gen).ok(old(store)),
        n.held(old(store)),
    ensures
        grown(old(store), final(store), 250),
        final(gen).ok(final(store)),
{
    // [K, Aword]
    let r = gen.roles(store, 2);
    let k = r[0];
    let args = sequence(store, &r.as_slice()[1..2]);
    let before_call = call(store, n.apply, n.not_effect, args);
    let before = pair(store, k, before_call);
    let caller = stage_frame(store, n.not_result_tag, &[k]);
    let logic_args = sequence(store, &r.as_slice()[1..2]);
    let logic_call = call(store, n.apply, n.word_not, logic_args);
    let after = pair(store, caller, logic_call);
    proof {
        lemma_increasing_distinct(r@);
    }
    let (_, admission) = define_bundle_rule(store, n.theory, r.as_slice(), before, &[after]);
    index_rule(store, n.o, admission);
}

/// The NOT effect's return rule.
#[verifier::rlimit(100)]
fn effect_not_return(store: &mut OptimizedLinkStore, gen: &mut AnchorGen, n: EffectNames, width: usize)
    requires
        has_room(old(store), 250),
        old(gen).ok(old(store)),
        n.held(old(store)),
        8 <= width <= 32,
    ensures
        grown(old(store), final(store), 250),
        final(gen).ok(final(store)),
{
    // [K, Bits...]
    let r2 = gen.roles(store, width + 1);
    let k2 = r2[0];
    let word = sequence(store, &r2.as_slice()[1..1 + width]);
    let logic_payload = sequence(store, &[word]);
    let logic_envelope = pair(store, n.logic_result_tag, logic_payload);
    let caller2 = stage_frame(store, n.not_result_tag, &[k2]);
    let before2 = pair(store, caller2, logic_envelope);
    proof {
        store.lemma_wf_links();
    }
    let payload = sequence(store, &[n.one, word, 1]);
    let envelope = pair(store, n.result_tag, payload);
    let after2 = pair(store, k2, envelope);
    proof {
        lemma_increasing_distinct(r2@);
    }
    let (_, admission2) = define_bundle_rule(store, n.theory, r2.as_slice(), before2, &[after2]);
    index_rule(store, n.logic_result_tag, admission2);
}

/// The ZF OR reduction over all bits and the PF XOR reduction over the low byte.
#[verifier::rlimit(100)]
fn effect_reductions(
    store: &mut OptimizedLinkStore,
    gen: &mut AnchorGen,
    n: EffectNames,
    zf_tags: &Vec<Handle>,
    pf_tags: &Vec<Handle>,
    width: usize,
)
    requires
        has_room(old(store), 500 * width as nat + 4500),
        old(gen).ok(old(store)),
        n.held(old(store)),
        8 <= width <= 32,
        zf_tags@.len() == width - 1,
        pf_tags@.len() == 7,
        all_held(old(store), zf_tags@),
        all_held(old(store), pf_tags@),
    ensures
        grown(old(store), final(store), 500 * width as nat + 4500),
        final(gen).ok(final(store)),
{
    let mut i: usize = 0;
    while i < width - 1
        invariant
            i <= width - 1,
            8 <= width <= 32,
            has_room(old(store), 500 * width as nat + 4500),
            grown(old(store), store, 500 * i as nat),
            gen.ok(store),
            n.held(store),
            zf_tags@.len() == width - 1,
            pf_tags@.len() == 7,
            all_held(store, zf_tags@),
            all_held(store, pf_tags@),
        decreases width - 1 - i,
    {
        if i + 1 < width - 1 {
            effect_reduce_step(store, gen, n, 0, zf_tags[i], zf_tags[i + 1], n.or2, false, width, i);
        } else {
            effect_reduce_step(store, gen, n, 0, zf_tags[i], n.zf_not_tag, n.or2, true, width, i);
        }
        i += 1;
    }
    effect_zf(store, gen, n, pf_tags[0], width);
    let mut j: usize = 0;
    while j < 7
        invariant
            j <= 7,
            8 <= width <= 32,
            has_room(old(store), 500 * width as nat + 4500),
            grown(old(store), store, 500 * width as nat + 500 * j as nat),
            gen.ok(store),
            n.held(store),
            pf_tags@.len() == 7,
            all_held(store, pf_tags@),
        decreases 7 - j,
    {
        if j + 1 < 7 {
            effect_reduce_step(store, gen, n, 1, pf_tags[j], pf_tags[j + 1], n.xor2, false, width, j);
        } else {
            effect_reduce_step(store, gen, n, 1, pf_tags[j], n.pf_not_tag, n.xor2, true, width, j);
        }
        j += 1;
    }
}

/// The installed logic effect program.
pub struct LogicEffectProgram {
    pub width: usize,
    pub logic: LogicProgram,
    pub binary_effect: Handle,
    pub not_effect: Handle,
    pub result_tag: Handle,
    pub schema: FlagPatchSchema,
    pub binary_steps: usize,
    pub not_steps: usize,
    pub links_after_build: usize,
}

impl LogicEffectProgram {
    /// Installs the word logic and the effects around it.
    /// `K -> Call(BIN_EFFECT, [Gate, Aword, Bword, WriteBack])` reacts in
    /// `19 + 4 * width` steps to `K -> PAIR(ResultTag, [WriteBack, Word,
    /// FlagPatch])`; `K -> Call(NOT_EFFECT, [Aword])` in `3 + 2 * width`
    /// steps to `K -> PAIR(ResultTag, [1, Word, ROOT])`.
    #[verifier::rlimit(100)]
    pub fn install(f: &mut Fixture, width: usize) -> (p: LogicEffectProgram)
        requires
            old(f).wf(),
            8 <= width <= 32,
            has_room(&old(f).store, 90000),
        ensures
            final(f).wf(),
            grown(&old(f).store, &final(f).store, 90000),
            final(f).engine == old(f).engine,
            final(f).o == old(f).o && final(f).c == old(f).c && final(f).theory == old(f).theory,
            final(f).full == old(f).full && final(f).k == old(f).k && final(f).apply == old(f).apply,
            final(f).zero == old(f).zero && final(f).one == old(f).one && final(f).args3 == old(f).args3,
            p.width == width,
            p.binary_steps == 19 + 4 * width,
            p.not_steps == 3 + 2 * width,
            p.links_after_build == final(f).store.links().len() - 1,
            p.binary_effect != p.not_effect,
            holds(&final(f).store, p.binary_effect),
            holds(&final(f).store, p.not_effect),
            holds(&final(f).store, p.result_tag),
            p.schema.held(&final(f).store),
    {
        let logic = LogicProgram::install(f, width);
        let seed0 = pair(&mut f.store, logic.word_binary, logic.result_tag);
        let mut gen = effect_anchors(&mut f.store, seed0, f.o, f.c, width);
        let binary_effect = gen.function_pair(&mut f.store);
        let ghost l_binary_effect = f.store.links();
        let ghost g_binary_effect = gen.current;
        let not_effect = gen.function_pair(&mut f.store);
        let ghost l_not_effect = f.store.links();
        let ghost g_not_effect = gen.current;
        proof {
            lemma_functions_differ(l_binary_effect, l_not_effect, binary_effect, not_effect, g_binary_effect);
        }
        let effect_seed = pair(&mut f.store, f.k, f.full);
        let result_tag = install_alu_effect_result_tag(&mut f.store, effect_seed, f.o, f.c);
        let flag_seed = pair(&mut f.store, f.k, f.full);
        let schema = FlagPatchSchema::install(&mut f.store, flag_seed, f.o, f.c);
        let binary_result_tag = gen.next(&mut f.store);
        let not_result_tag = gen.next(&mut f.store);
        let zf_not_tag = gen.next(&mut f.store);
        let pf_not_tag = gen.next(&mut f.store);
        let zf_tags = pair_tags(&mut f.store, &mut gen, width - 1);
        let pf_tags = pair_tags(&mut f.store, &mut gen, 7);
        let n = EffectNames {
            theory: f.theory,
            o: f.o,
            apply: f.apply,
            zero: f.zero,
            one: f.one,
            word_binary: logic.word_binary,
            word_not: logic.word_not,
            logic_result_tag: logic.result_tag,
            or2: logic.gates.or2,
            xor2: logic.gates.xor2,
            not1: logic.gates.not1,
            bit_outputs: logic.gates.bit_outputs,
            binary_effect,
            not_effect,
            result_tag,
            schema,
            binary_result_tag,
            not_result_tag,
            zf_not_tag,
            pf_not_tag,
        };
        effect_bin_open(&mut f.store, &mut gen, n);
        effect_bin_result(&mut f.store, &mut gen, n, zf_tags[0], width);
        effect_reductions(&mut f.store, &mut gen, n, &zf_tags, &pf_tags, width);
        effect_final(&mut f.store, &mut gen, n, width);
        effect_not(&mut f.store, &mut gen, n, width);
        proof {
            f.store.lemma_wf_links();
        }
        let links_after_build = f.store.link_count();
        LogicEffectProgram {
            width,
            logic,
            binary_effect,
            not_effect,
            result_tag,
            schema,
            binary_steps: 19 + 4 * width,
            not_steps: 3 + 2 * width,
            links_after_build,
        }
    }
}

} // verus!
