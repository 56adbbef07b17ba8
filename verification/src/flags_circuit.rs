//! EFLAGS around the shared arithmetic: a wrapper program that calls the
//! arithmetic circuit and derives AF, OF, ZF and PF from its raw outcome
//! with XOR2, OR2 and NOT1 gate reductions, all as structural rules.
use vstd::prelude::*;

use crate::arith_circuit::{all_held, append, AnchorGen, ArithmeticProgram};
use crate::circuit::{
    lemma_functions_differ,
    call, define_bundle_rule, grown, has_room, holds, increasing, index_rule, index_rule_for,
    lemma_increasing_distinct, pair, sequence, stage_frame, Fixture,
};
use crate::logic_circuit::{install_binary_gate, install_gate_row, Base};
use crate::store::OptimizedLinkStore;
use crate::Handle;

verus! {

/// The anchors of the flags program, in a namespace of its own for each
/// width: `seed, o, c, o, (o, c) * width`.
fn flags_anchors(store: &mut OptimizedLinkStore, seed: Handle, o: Handle, c: Handle, width: usize) -> (g: AnchorGen)
    requires
        has_room(old(store), 2 * width as nat + 3),
        holds(old(store), seed),
        holds(old(store), o),
        holds(old(store), c),
    ensures
        grown(old(store), final(store), 2 * width as nat + 3),
        g.ok(final(store)),
{
    let mut seed = pair(store, seed, o);
    seed = pair(store, seed, c);
    seed = pair(store, seed, o);
    let mut i: usize = 0;
    while i < width
        invariant
            i <= width,
            grown(old(store), store, 2 * i as nat + 3),
            has_room(old(store), 2 * width as nat + 3),
            holds(store, seed),
            holds(old(store), o),
            holds(old(store), c),
        decreases width - i,
    {
        seed = pair(store, seed, o);
        seed = pair(store, seed, c);
        i += 1;
    }
    AnchorGen { current: seed, flip: false, o, c }
}

/// The gates of the flags program.
#[derive(Clone, Copy)]
struct FlagGates {
    xor2: Handle,
    or2: Handle,
    not1: Handle,
    bit_outputs: [Handle; 2],
}

impl FlagGates {
    spec fn held(&self, store: &OptimizedLinkStore) -> bool {
        &&& holds(store, self.xor2)
        &&& holds(store, self.or2)
        &&& holds(store, self.not1)
        &&& all_held(store, self.bit_outputs@)
    }
}

/// Installs XOR2, OR2 and NOT1 with their truth tables.
#[verifier::rlimit(100)]
fn install_flag_gates(store: &mut OptimizedLinkStore, gen: &mut AnchorGen, b: Base) -> (g: FlagGates)
    requires
        has_room(old(store), 300),
        old(gen).ok(old(store)),
        b.held(old(store)),
    ensures
        grown(old(store), final(store), 300),
        final(gen).ok(final(store)),
        g.held(final(store)),
{
    let xor_left = gen.next(store);
    let xor_right = gen.next(store);
    let xor2 = pair(store, xor_left, xor_right);
    let or_left = gen.next(store);
    let or_right = gen.next(store);
    let or2 = pair(store, or_left, or_right);
    let not_left = gen.next(store);
    let not_right = gen.next(store);
    let not1 = pair(store, not_left, not_right);
    let out0 = sequence(store, &[b.zero]);
    let out1 = sequence(store, &[b.one]);
    let bit_outputs = [out0, out1];
    install_binary_gate(store, gen, b, xor2, bit_outputs, [[0, 1], [1, 0]]);
    install_binary_gate(store, gen, b, or2, bit_outputs, [[0, 1], [1, 1]]);
    install_gate_row(store, gen, b.theory, b.o, b.apply, not1, &[b.zero], out1);
    install_gate_row(store, gen, b.theory, b.o, b.apply, not1, &[b.one], out0);
    FlagGates { xor2, or2, not1, bit_outputs }
}

/// A continuation rule with roles `r` (distinct, in order):
/// `tag(state) -> ExactSequence(result)` becomes
/// `next_tag(next_state) -> Call(function, args)`, indexed under `keys`.
#[verifier::rlimit(100)]
pub(crate) fn continuation_rule(
    store: &mut OptimizedLinkStore,
    theory: Handle,
    apply: Handle,
    r: &[Handle],
    tag: Handle,
    state: &[Handle],
    result: &[Handle],
    next_tag: Handle,
    next_state: &[Handle],
    function: Handle,
    args: &[Handle],
    keys: &[Handle],
)
    requires
        has_room(old(store), 400),
        increasing(r@),
        all_held(old(store), r@),
        all_held(old(store), state@),
        all_held(old(store), result@),
        all_held(old(store), next_state@),
        all_held(old(store), args@),
        all_held(old(store), keys@),
        holds(old(store), theory),
        holds(old(store), apply),
        holds(old(store), tag),
        holds(old(store), next_tag),
        holds(old(store), function),
        r@.len() <= 40,
        state@.len() <= 40,
        next_state@.len() <= 40,
        result@.len() <= 1,
        args@.len() <= 2,
        keys@.len() <= 2,
    ensures
        grown(old(store), final(store), 400),
{
    let caller = stage_frame(store, tag, state);
    let result_seq = sequence(store, result);
    let before = pair(store, caller, result_seq);
    let next_caller = stage_frame(store, next_tag, next_state);
    let call_args = sequence(store, args);
    let next_call = call(store, apply, function, call_args);
    let after = pair(store, next_caller, next_call);
    proof {
        lemma_increasing_distinct(r@);
    }
    let (_, admission) = define_bundle_rule(store, theory, r, before, &[after]);
    index_rule_for(store, keys, admission);
}

/// `count` tags, each the PAIR of two fresh anchors.
pub(crate) fn pair_tags(store: &mut OptimizedLinkStore, gen: &mut AnchorGen, count: usize) -> (tags: Vec<Handle>)
    requires
        has_room(old(store), 3 * count as nat),
        old(gen).ok(old(store)),
    ensures
        grown(old(store), final(store), 3 * count as nat),
        final(gen).ok(final(store)),
        tags@.len() == count,
        all_held(final(store), tags@),
{
    let mut tags: Vec<Handle> = Vec::new();
    let mut i: usize = 0;
    while i < count
        invariant
            i <= count,
            grown(old(store), store, 3 * i as nat),
            has_room(old(store), 3 * count as nat),
            gen.ok(store),
            tags@.len() == i,
            all_held(store, tags@),
        decreases count - i,
    {
        let left = gen.next(store);
        let right = gen.next(store);
        let tag = pair(store, left, right);
        tags.push(tag);
        i += 1;
    }
    tags
}

/// The Links the flag rules are built from.
#[derive(Clone, Copy)]
struct FlagNames {
    theory: Handle,
    o: Handle,
    apply: Handle,
    zero: Handle,
    arithmetic: Handle,
    arith_result_tag: Handle,
    flagged: Handle,
    result_tag: Handle,
    arith_tag: Handle,
    af_tag: Handle,
    of_tag: Handle,
    zf_not_tag: Handle,
    pf_not_tag: Handle,
    gates: FlagGates,
}

impl FlagNames {
    spec fn held(&self, store: &OptimizedLinkStore) -> bool {
        &&& holds(store, self.theory)
        &&& holds(store, self.o)
        &&& holds(store, self.apply)
        &&& holds(store, self.zero)
        &&& holds(store, self.arithmetic)
        &&& holds(store, self.arith_result_tag)
        &&& holds(store, self.flagged)
        &&& holds(store, self.result_tag)
        &&& holds(store, self.arith_tag)
        &&& holds(store, self.af_tag)
        &&& holds(store, self.of_tag)
        &&& holds(store, self.zf_not_tag)
        &&& holds(store, self.pf_not_tag)
        &&& self.gates.held(store)
    }
}

/// FLAGS OPEN: `K -> Call(ARITH_FLAGS, [Aword, Bword, X, Mode])` becomes
/// `ArithFrame(K) -> Call(ARITH, [Aword, Bword, X, Mode])`.
#[verifier::rlimit(100)]
fn flags_open(store: &mut OptimizedLinkStore, gen: &mut AnchorGen, n: FlagNames)
    requires
        has_room(old(store), 100),
        old(gen).ok(old(store)),
        n.held(old(store)),
    ensures
        grown(old(store), final(store), 100),
        final(gen).ok(final(store)),
{
    // [K, Aword, Bword, X, Mode]
    let r = gen.roles(store, 5);
    let k = r[0];
    let args = sequence(store, &r.as_slice()[1..5]);
    let before_call = call(store, n.apply, n.flagged, args);
    let before = pair(store, k, before_call);
    let caller = stage_frame(store, n.arith_tag, &[k]);
    let arith_call = call(store, n.apply, n.arithmetic, args);
    let after = pair(store, caller, arith_call);
    proof {
        lemma_increasing_distinct(r@);
    }
    let (_, admission) = define_bundle_rule(store, n.theory, r.as_slice(), before, &[after]);
    index_rule(store, n.o, admission);
}

/// The arithmetic result arrives: `ArithFrame(K) -> PAIR(ArithResultTag,
/// [Word, CF, Aux, SignIn, Final, Mode])` becomes
/// `AfFrame([K, Bits..., CF, SignIn, Final]) -> XOR2(Aux, Mode)`.
#[verifier::rlimit(100)]
fn flags_arith_result(store: &mut OptimizedLinkStore, gen: &mut AnchorGen, n: FlagNames, width: usize)
    requires
        has_room(old(store), 400),
        old(gen).ok(old(store)),
        n.held(old(store)),
        8 <= width <= 32,
    ensures
        grown(old(store), final(store), 400),
        final(gen).ok(final(store)),
{
    let w = width;
    // [K, Bits..., CF, Aux, SignIn, Final, Mode]
    let r = gen.roles(store, w + 6);
    let k = r[0];
    let cf = r[1 + w];
    let aux_raw = r[2 + w];
    let sign_in_raw = r[3 + w];
    let final_raw = r[4 + w];
    let mode = r[5 + w];
    let word = sequence(store, &r.as_slice()[1..1 + w]);
    let raw = sequence(store, &[word, cf, aux_raw, sign_in_raw, final_raw, mode]);
    let envelope = pair(store, n.arith_result_tag, raw);
    let caller = stage_frame(store, n.arith_tag, &[k]);
    let before = pair(store, caller, envelope);
    let mut state: Vec<Handle> = Vec::new();
    append(&mut state, &r.as_slice()[0..2 + w]);
    state.push(sign_in_raw);
    state.push(final_raw);
    let next_caller = stage_frame(store, n.af_tag, state.as_slice());
    let af_args = sequence(store, &[aux_raw, mode]);
    let af_call = call(store, n.apply, n.gates.xor2, af_args);
    let after = pair(store, next_caller, af_call);
    proof {
        lemma_increasing_distinct(r@);
    }
    let (_, admission) = define_bundle_rule(store, n.theory, r.as_slice(), before, &[after]);
    index_rule(store, n.arith_result_tag, admission);
}

/// AF, then the OF XOR: `AfFrame([K, Bits..., CF, SignIn, Final]) -> [AF]`
/// becomes `OfFrame([K, Bits..., CF, AF]) -> XOR2(SignIn, Final)`.
#[verifier::rlimit(100)]
fn flags_af(store: &mut OptimizedLinkStore, gen: &mut AnchorGen, n: FlagNames, width: usize)
    requires
        has_room(old(store), 500),
        old(gen).ok(old(store)),
        n.held(old(store)),
        8 <= width <= 32,
    ensures
        grown(old(store), final(store), 500),
        final(gen).ok(final(store)),
{
    let w = width;
    // [K, Bits..., CF, SignIn, Final, AF]
    let r = gen.roles(store, w + 5);
    let mut next_state: Vec<Handle> = Vec::new();
    append(&mut next_state, &r.as_slice()[0..2 + w]);
    next_state.push(r[4 + w]);
    continuation_rule(
        store,
        n.theory,
        n.apply,
        r.as_slice(),
        n.af_tag,
        &r.as_slice()[0..4 + w],
        &r.as_slice()[4 + w..5 + w],
        n.of_tag,
        next_state.as_slice(),
        n.gates.xor2,
        &r.as_slice()[2 + w..4 + w],
        &n.gates.bit_outputs,
    );
}

/// OF, then the ZF OR reduction seeded with 0: `OfFrame([K, Bits..., CF, AF]) -> [OF]`
/// becomes `ZfFrame_0([K, Bits..., CF, AF, OF]) -> OR2(0, bit_0)`.
#[verifier::rlimit(100)]
fn flags_of(store: &mut OptimizedLinkStore, gen: &mut AnchorGen, n: FlagNames, zf_tag0: Handle, width: usize)
    requires
        has_room(old(store), 500),
        old(gen).ok(old(store)),
        n.held(old(store)),
        holds(old(store), zf_tag0),
        8 <= width <= 32,
    ensures
        grown(old(store), final(store), 500),
        final(gen).ok(final(store)),
{
    let w = width;
    // [K, Bits..., CF, AF, OF]
    let r = gen.roles(store, w + 4);
    continuation_rule(
        store,
        n.theory,
        n.apply,
        r.as_slice(),
        n.of_tag,
        &r.as_slice()[0..3 + w],
        &r.as_slice()[3 + w..4 + w],
        zf_tag0,
        r.as_slice(),
        n.gates.or2,
        &[n.zero, r[1]],
        &n.gates.bit_outputs,
    );
}

/// One step of a reduction over the result bits: `tag(state) -> [acc]`
/// becomes `next_tag(state) -> function(acc, bit_{i+1})`, or after the last
/// step `last_tag(state) -> NOT1(acc)`. Roles: `[K, Bits..., extra..., acc]`
/// with `extra_count` extra flags.
#[verifier::rlimit(100)]
fn flags_reduce_step(
    store: &mut OptimizedLinkStore,
    gen: &mut AnchorGen,
    n: FlagNames,
    extra_count: usize,
    tag: Handle,
    next_tag: Handle,
    function: Handle,
    last: bool,
    width: usize,
    i: usize,
)
    requires
        has_room(old(store), 500),
        old(gen).ok(old(store)),
        n.held(old(store)),
        holds(old(store), tag),
        holds(old(store), next_tag),
        holds(old(store), function),
        8 <= width <= 32,
        3 <= extra_count <= 4,
        !last ==> i + 1 < width,
    ensures
        grown(old(store), final(store), 500),
        final(gen).ok(final(store)),
{
    let count = width + extra_count + 2;
    let r = gen.roles(store, count);
    let acc = r[count - 1];
    if last {
        continuation_rule(
            store,
            n.theory,
            n.apply,
            r.as_slice(),
            tag,
            &r.as_slice()[0..count - 1],
            &r.as_slice()[count - 1..count],
            next_tag,
            &r.as_slice()[0..count - 1],
            n.gates.not1,
            &[acc],
            &n.gates.bit_outputs,
        );
    } else {
        continuation_rule(
            store,
            n.theory,
            n.apply,
            r.as_slice(),
            tag,
            &r.as_slice()[0..count - 1],
            &r.as_slice()[count - 1..count],
            next_tag,
            &r.as_slice()[0..count - 1],
            function,
            &[acc, r[2 + i]],
            &n.gates.bit_outputs,
        );
    }
}

/// ZF NOT result, then the PF XOR reduction seeded with 0:
/// `ZfNotFrame([K, Bits..., CF, AF, OF]) -> [ZF]` becomes
/// `PfFrame_0([K, Bits..., CF, AF, OF, ZF]) -> XOR2(0, bit_0)`.
#[verifier::rlimit(100)]
fn flags_zf(store: &mut OptimizedLinkStore, gen: &mut AnchorGen, n: FlagNames, pf_tag0: Handle, width: usize)
    requires
        has_room(old(store), 500),
        old(gen).ok(old(store)),
        n.held(old(store)),
        holds(old(store), pf_tag0),
        8 <= width <= 32,
    ensures
        grown(old(store), final(store), 500),
        final(gen).ok(final(store)),
{
    let w = width;
    // [K, Bits..., CF, AF, OF, ZF]
    let r = gen.roles(store, w + 5);
    continuation_rule(
        store,
        n.theory,
        n.apply,
        r.as_slice(),
        n.zf_not_tag,
        &r.as_slice()[0..4 + w],
        &r.as_slice()[4 + w..5 + w],
        pf_tag0,
        r.as_slice(),
        n.gates.xor2,
        &[n.zero, r[1]],
        &n.gates.bit_outputs,
    );
}

/// PF NOT result, then the flagged result envelope:
/// `PfNotFrame([K, Bits..., CF, AF, OF, ZF]) -> [PF]` becomes
/// `K -> PAIR(ResultTag, [Word, CF, PF, AF, ZF, SF, OF])`, SF being the top bit.
#[verifier::rlimit(100)]
fn flags_final(store: &mut OptimizedLinkStore, gen: &mut AnchorGen, n: FlagNames, width: usize)
    requires
        has_room(old(store), 400),
        old(gen).ok(old(store)),
        n.held(old(store)),
        8 <= width <= 32,
    ensures
        grown(old(store), final(store), 400),
        final(gen).ok(final(store)),
{
    let w = width;
    // [K, Bits..., CF, AF, OF, ZF, PF]
    let r = gen.roles(store, w + 6);
    let k = r[0];
    let cf = r[1 + w];
    let af = r[2 + w];
    let of = r[3 + w];
    let zf = r[4 + w];
    let pf = r[5 + w];
    let caller = stage_frame(store, n.pf_not_tag, &r.as_slice()[0..5 + w]);
    let pf_result = sequence(store, &[pf]);
    let before = pair(store, caller, pf_result);
    let word = sequence(store, &r.as_slice()[1..1 + w]);
    let sf = r[w];
    let payload = sequence(store, &[word, cf, pf, af, zf, sf, of]);
    let envelope = pair(store, n.result_tag, payload);
    let after = pair(store, k, envelope);
    proof {
        lemma_increasing_distinct(r@);
    }
    let (_, admission) = define_bundle_rule(store, n.theory, r.as_slice(), before, &[after]);
    index_rule_for(store, &n.gates.bit_outputs, admission);
}

/// The ZF OR reduction over all `width` bits and the PF XOR reduction over
/// the low byte.
#[verifier::rlimit(100)]
fn flags_reductions(
    store: &mut OptimizedLinkStore,
    gen: &mut AnchorGen,
    n: FlagNames,
    zf_tags: &Vec<Handle>,
    pf_tags: &Vec<Handle>,
    width: usize,
)
    requires
        has_room(old(store), 500 * width as nat + 4500),
        old(gen).ok(old(store)),
        n.held(old(store)),
        8 <= width <= 32,
        zf_tags@.len() == width,
        pf_tags@.len() == 8,
        all_held(old(store), zf_tags@),
        all_held(old(store), pf_tags@),
    ensures
        grown(old(store), final(store), 500 * width as nat + 4500),
        final(gen).ok(final(store)),
{
    // ZF = NOT(OR-reduction(all result bits)).
    let mut i: usize = 0;
    while i < width
        invariant
            i <= width,
            8 <= width <= 32,
            has_room(old(store), 500 * width as nat + 4500),
            grown(old(store), store, 500 * i as nat),
            gen.ok(store),
            n.held(store),
            zf_tags@.len() == width,
            pf_tags@.len() == 8,
            all_held(store, zf_tags@),
            all_held(store, pf_tags@),
        decreases width - i,
    {
        if i + 1 < width {
            flags_reduce_step(store, gen, n, 3, zf_tags[i], zf_tags[i + 1], n.gates.or2, false, width, i);
        } else {
            flags_reduce_step(store, gen, n, 3, zf_tags[i], n.zf_not_tag, n.gates.or2, true, width, i);
        }
        i += 1;
    }
    flags_zf(store, gen, n, pf_tags[0], width);
    // PF = NOT(XOR-reduction(result bits 0..7)).
    let mut j: usize = 0;
    while j < 8
        invariant
            j <= 8,
            8 <= width <= 32,
            has_room(old(store), 500 * width as nat + 4500),
            grown(old(store), store, 500 * width as nat + 500 + 500 * j as nat),
            gen.ok(store),
            n.held(store),
            pf_tags@.len() == 8,
            all_held(store, pf_tags@),
        decreases 8 - j,
    {
        if j + 1 < 8 {
            flags_reduce_step(store, gen, n, 4, pf_tags[j], pf_tags[j + 1], n.gates.xor2, false, width, j);
        } else {
            flags_reduce_step(store, gen, n, 4, pf_tags[j], n.pf_not_tag, n.gates.xor2, true, width, j);
        }
        j += 1;
    }
}

/// The installed flagged arithmetic program.
pub struct FlaggedArithmeticProgram {
    pub width: usize,
    pub flagged: Handle,
    pub result_tag: Handle,
    pub active_steps: usize,
    pub links_after_build: usize,
}

impl FlaggedArithmeticProgram {
    /// Installs the shared `width`-bit arithmetic and the flags around it.
    /// `K -> Call(ARITH_FLAGS, [Aword, Bword, X, Mode])` reacts in
    /// `31 + 18 * width` steps to `K -> PAIR(ResultTag, [Word, CF, PF, AF,
    /// ZF, SF, OF])`.
    #[verifier::rlimit(100)]
    pub fn install(f: &mut Fixture, width: usize) -> (p: FlaggedArithmeticProgram)
        requires
            old(f).wf(),
            8 <= width <= 32,
            has_room(&old(f).store, 80000),
        ensures
            final(f).wf(),
            grown(&old(f).store, &final(f).store, 80000),
            final(f).engine == old(f).engine,
            final(f).o == old(f).o && final(f).c == old(f).c && final(f).theory == old(f).theory,
            final(f).full == old(f).full && final(f).k == old(f).k && final(f).apply == old(f).apply,
            final(f).zero == old(f).zero && final(f).one == old(f).one && final(f).args3 == old(f).args3,
            p.width == width,
            p.active_steps == 31 + 18 * width,
            p.links_after_build == final(f).store.links().len() - 1,
            p.flagged != p.result_tag,
            holds(&final(f).store, p.flagged),
            holds(&final(f).store, p.result_tag),
    {
        let arithmetic = ArithmeticProgram::install(f, width);
        let seed0 = pair(&mut f.store, arithmetic.arithmetic, arithmetic.result_tag);
        let mut gen = flags_anchors(&mut f.store, seed0, f.o, f.c, width);
        let base = Base { theory: f.theory, o: f.o, apply: f.apply, zero: f.zero, one: f.one };
        let gates = install_flag_gates(&mut f.store, &mut gen, base);
        let flagged = gen.function_pair(&mut f.store);
        let ghost l_flagged = f.store.links();
        let ghost g_flagged = gen.current;
        let result_tag = gen.function_pair(&mut f.store);
        let ghost l_result_tag = f.store.links();
        let ghost g_result_tag = gen.current;
        proof {
            lemma_functions_differ(l_flagged, l_result_tag, flagged, result_tag, g_flagged);
        }
        let arith_tag = gen.next(&mut f.store);
        let af_tag = gen.next(&mut f.store);
        let of_tag = gen.next(&mut f.store);
        let zf_not_tag = gen.next(&mut f.store);
        let pf_not_tag = gen.next(&mut f.store);
        let zf_tags = pair_tags(&mut f.store, &mut gen, width);
        let pf_tags = pair_tags(&mut f.store, &mut gen, 8);
        let n = FlagNames {
            theory: f.theory,
            o: f.o,
            apply: f.apply,
            zero: f.zero,
            arithmetic: arithmetic.arithmetic,
            arith_result_tag: arithmetic.result_tag,
            flagged,
            result_tag,
            arith_tag,
            af_tag,
            of_tag,
            zf_not_tag,
            pf_not_tag,
            gates,
        };
        flags_open(&mut f.store, &mut gen, n);
        flags_arith_result(&mut f.store, &mut gen, n, width);
        flags_af(&mut f.store, &mut gen, n, width);
        flags_of(&mut f.store, &mut gen, n, zf_tags[0], width);
        flags_reductions(&mut f.store, &mut gen, n, &zf_tags, &pf_tags, width);
        flags_final(&mut f.store, &mut gen, n, width);
        proof {
            f.store.lemma_wf_links();
        }
        let links_after_build = f.store.link_count();
        // Around the shared arithmetic (5 + 16N steps), the flags add 26 + 2N.
        FlaggedArithmeticProgram {
            width,
            flagged,
            result_tag,
            active_steps: arithmetic.active_steps + 26 + 2 * width,
            links_after_build,
        }
    }
}

} // verus!
