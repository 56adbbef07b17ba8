//! 32-bit rotations through the carry (RCL, RCR): the word and the carry in
//! form a 33-bit ring, rotated by a count masked to five bits, one rule per
//! masked count. Count 0 writes the word back and changes no flag; count 1
//! also computes OF with XOR2; larger counts set CF and leave OF undefined.
use vstd::prelude::*;

use crate::arith_circuit::{all_held, append, AnchorGen};
use crate::circuit::{
    admits_rule, call, call_shape, define_bundle_rule, grown, has_room, holds, index_rule_for, indexed_under, keeps,
    lemma_admits_rule_keep, lemma_call_shape_keep, lemma_functions_differ, lemma_increasing_distinct,
    lemma_indexed_keep, lemma_sequence_reads_keep, lemma_tagged_shape_keep, pair, sequence, sequence_reads,
    stage_frame, tagged_shape, Fixture,
};
use crate::shift_circuit::count_roles;
use crate::effect_circuit::{
    install_alu_effect_result_tag, set_flag_action, undefined_flag_action, FlagPatchSchema,
};
use crate::logic_circuit::{GateSet, LogicProgram};
use crate::rotate_circuit::{count_template, rotate_names, rotate_of_result, written_back, RotateNames};
use crate::model::{links_wf, Links};
use crate::store::OptimizedLinkStore;
use crate::{Handle, ROOT_HANDLE};

verus! {

/// The direction of a rotation through the carry.
#[derive(Clone, Copy, PartialEq, Eq)]
pub enum CarryKind {
    Rcl,
    Rcr,
}

/// The anchors of the carry rotations: `seed` followed by the poles
/// `c c o c o o c c o o c o c c o`.
fn carry_anchors(store: &mut OptimizedLinkStore, seed: Handle, o: Handle, c: Handle) -> (g: AnchorGen)
    requires
        has_room(old(store), 15),
        holds(old(store), seed),
        holds(old(store), o),
        holds(old(store), c),
    ensures
        grown(old(store), final(store), 15),
        g.ok(final(store)),
{
    let poles = [c, c, o, c, o, o, c, c, o, o, c, o, c, c, o];
    let mut current = seed;
    let mut i: usize = 0;
    while i < 15
        invariant
            i <= 15,
            poles@.len() == 15,
            grown(old(store), store, i as nat),
            has_room(old(store), 15),
            holds(store, current),
            forall|j: int| 0 <= j < 15 ==> holds(old(store), #[trigger] poles@[j]),
        decreases 15 - i,
    {
        current = pair(store, current, poles[i]);
        i += 1;
    }
    AnchorGen { current, flip: false, o, c }
}

/// The 33-bit ring `input ++ [cf_in]` rotated by `count` (1 to 31): RCL moves
/// position `i` to `i + count`, RCR to `i - count`, modulo 33. The first 32
/// positions are the word; the last is the carry out.
fn carry_template(input: &[Handle], cf_in: Handle, kind: CarryKind, count: usize) -> (out: Vec<Handle>)
    requires
        input@.len() == 32,
        1 <= count < 32,
    ensures
        out@.len() == 33,
        out@ == (match kind {
            CarryKind::Rcl => (input@.push(cf_in)).subrange(33 - count, 33) + (input@.push(cf_in)).subrange(
                0,
                33 - count,
            ),
            CarryKind::Rcr => (input@.push(cf_in)).subrange(count as int, 33) + (input@.push(cf_in)).subrange(
                0,
                count as int,
            ),
        }),
{
    let mut ext: Vec<Handle> = Vec::new();
    append(&mut ext, input);
    ext.push(cf_in);
    let mut out: Vec<Handle> = Vec::new();
    match kind {
        CarryKind::Rcl => {
            append(&mut out, &ext.as_slice()[33 - count..33]);
            append(&mut out, &ext.as_slice()[0..33 - count]);
        },
        CarryKind::Rcr => {
            append(&mut out, &ext.as_slice()[count..33]);
            append(&mut out, &ext.as_slice()[0..count]);
        },
    }
    out
}

/// What the rule for a nonzero count rewrites to.
#[verifier::rlimit(100)]
fn carry_after(
    store: &mut OptimizedLinkStore,
    n: RotateNames,
    k: Handle,
    ring: &Vec<Handle>,
    kind: CarryKind,
    masked_count: usize,
) -> (after: Handle)
    requires
        has_room(old(store), 300),
        n.held(old(store)),
        holds(old(store), k),
        ring@.len() == 33,
        all_held(old(store), ring@),
        1 <= masked_count < 32,
    ensures
        grown(old(store), final(store), 300),
        holds(final(store), after),
        masked_count >= 2 ==> exists|word: u32, patch: u32| #[trigger]
            written_back(final(store).links(), after, k, n.result_tag, n.one, word, patch) && sequence_reads(
                final(store).links(),
                word,
                ring@.subrange(0, 32),
            ),
{
    let out = &ring.as_slice()[0..32];
    let cf_out = ring[32];
    let out_word = sequence(store, out);
    let ghost l_word = store.links();
    proof {
        store.lemma_wf_links();
        assert(out@ =~= ring@.subrange(0, 32));
    }
    if masked_count == 1 {
        // Count 1: `OfFrame([K, CF, out..]) -> Call(XOR2, [a, b])`.
        let mut state: Vec<Handle> = Vec::new();
        state.push(k);
        state.push(cf_out);
        append(&mut state, out);
        let caller = stage_frame(store, n.of_tag, state.as_slice());
        let (a, b) = match kind {
            CarryKind::Rcl => (ring[31], cf_out),
            CarryKind::Rcr => (ring[31], ring[30]),
        };
        let xor_args = sequence(store, &[a, b]);
        let of_call = call(store, n.apply, n.gates.xor2, xor_args);
        pair(store, caller, of_call)
    } else {
        let set_cf = set_flag_action(store, n.schema, n.schema.cf, cf_out);
        let undef_of = undefined_flag_action(store, n.schema, n.schema.of);
        let patch = sequence(store, &[set_cf, undef_of]);
        let payload = sequence(store, &[n.one, out_word, patch]);
        let ghost l_payload = store.links();
        proof {
            store.lemma_wf_links();
            assert([n.one, out_word, patch]@ =~= seq![n.one, out_word, patch]);
        }
        let envelope = pair(store, n.result_tag, payload);
        let after = pair(store, k, envelope);
        proof {
            store.lemma_wf_links();
            lemma_sequence_reads_keep(l_payload, store.links(), payload, seq![n.one, out_word, patch]);
            lemma_sequence_reads_keep(l_word, store.links(), out_word, ring@.subrange(0, 32));
            assert(written_back(store.links(), after, k, n.result_tag, n.one, out_word, patch));
        }
        after
    }
}

/// The 33-bit ring of the input bits and the carry in, rotated by `count`
/// (1 to 31): RCL moves position `i` to `i + count`, RCR to `i - count`,
/// modulo 33. The first 32 positions are the word; the last is the carry out.
pub open spec fn carry_rotated(input: Seq<Handle>, cf_in: Handle, kind: CarryKind, count: int) -> Seq<Handle> {
    let ext = input.push(cf_in);
    match kind {
        CarryKind::Rcl => ext.subrange(33 - count, 33) + ext.subrange(0, 33 - count),
        CarryKind::Rcr => ext.subrange(count, 33) + ext.subrange(0, count),
    }
}

/// The rule of `function` for the masked count `count` stands in `links`,
/// admitted by `theory` through `w.0` and indexed under `key`. Its roles
/// `w.1` are `K`, the 32 input bits, the carry in and the three high count
/// bits; it rewrites `K -> Call(function, [Input, Count, CFin])`, with
/// `Input` the word `w.4` of the input bits and `Count` the word `w.5` of the
/// count's five low bits and the high bits. For count 0 it becomes
/// `K -> PAIR(result_tag, [one, Input, ROOT])`; for counts 2 to 31
/// `K -> PAIR(result_tag, [one, Output, Patch])`, with `Output` the word `w.6`
/// of the first 32 positions of the `carry_rotated` ring. (Count 1 first
/// computes OF through XOR2.)
pub open spec fn carry_rule_at(
    links: Links,
    names: (u32, u32, u32, u32, u32, u32),
    function: u32,
    kind: CarryKind,
    count: usize,
    w: (u32, Seq<u32>, u32, u32, u32, u32, u32, u32),
) -> bool {
    let (theory, key, apply, zero, one, result_tag) = names;
    let (admission, roles, before, after, input_word, count_word, output_word, patch) = w;
    let k = roles[0];
    let input = roles.subrange(1, 33);
    let cf_in = roles[33];
    &&& roles.len() == 37
    &&& admits_rule(links, theory, admission, roles, before, seq![after])
    &&& indexed_under(links, key, admission)
    &&& call_shape(links, before, k, apply, function, seq![input_word, count_word, cf_in])
    &&& sequence_reads(links, input_word, input)
    &&& sequence_reads(links, count_word, count_roles(zero, one, count) + roles.subrange(34, 37))
    &&& count == 0 ==> tagged_shape(links, after, k, result_tag, seq![one, input_word, 1])
    &&& count >= 2 ==> {
        &&& sequence_reads(links, output_word, carry_rotated(input, cf_in, kind, count as int).subrange(0, 32))
        &&& written_back(links, after, k, result_tag, one, output_word, patch)
    }
}

/// Some rule of `function` for `count` stands in `links` (see `carry_rule_at`).
#[verifier::opaque]
pub open spec fn carry_rule_stands(
    links: Links,
    names: (u32, u32, u32, u32, u32, u32),
    function: u32,
    kind: CarryKind,
    count: usize,
) -> bool {
    exists|w: (u32, Seq<u32>, u32, u32, u32, u32, u32, u32)| #[trigger] carry_rule_at(links, names, function, kind, count, w)
}

/// A rotation-through-carry rule stays in place after more Links.
pub proof fn lemma_carry_rule_keep(
    l1: Links,
    l2: Links,
    names: (u32, u32, u32, u32, u32, u32),
    function: u32,
    kind: CarryKind,
    count: usize,
)
    requires
        links_wf(l1),
        keeps(l1, l2),
        carry_rule_stands(l1, names, function, kind, count),
    ensures
        carry_rule_stands(l2, names, function, kind, count),
{
    reveal(carry_rule_stands);
    let w = choose|w: (u32, Seq<u32>, u32, u32, u32, u32, u32, u32)| #[trigger] carry_rule_at(l1, names, function, kind, count, w);
    let (theory, key, apply, zero, one, result_tag) = names;
    let (admission, roles, before, after, input_word, count_word, output_word, patch) = w;
    let k = roles[0];
    let input = roles.subrange(1, 33);
    let cf_in = roles[33];
    lemma_admits_rule_keep(l1, l2, theory, admission, roles, before, seq![after]);
    lemma_indexed_keep(l1, l2, key, admission);
    lemma_call_shape_keep(l1, l2, before, k, apply, function, seq![input_word, count_word, cf_in]);
    lemma_sequence_reads_keep(l1, l2, input_word, input);
    lemma_sequence_reads_keep(l1, l2, count_word, count_roles(zero, one, count) + roles.subrange(34, 37));
    if count == 0 {
        lemma_tagged_shape_keep(l1, l2, after, k, result_tag, seq![one, input_word, 1]);
    }
    if count >= 2 {
        lemma_sequence_reads_keep(l1, l2, output_word, carry_rotated(input, cf_in, kind, count as int).subrange(0, 32));
        lemma_tagged_shape_keep(l1, l2, after, k, result_tag, seq![one, output_word, patch]);
    }
    assert(carry_rule_at(l2, names, function, kind, count, w));
}

/// The rule of one masked count:
/// `K -> Call(function, [Input, Count, CFin])` with the count's five low bits fixed.
#[verifier::rlimit(100)]
fn carry_rule(
    store: &mut OptimizedLinkStore,
    gen: &mut AnchorGen,
    n: RotateNames,
    function: Handle,
    kind: CarryKind,
    masked_count: usize,
)
    requires
        has_room(old(store), 600),
        old(gen).ok(old(store)),
        n.held(old(store)),
        holds(old(store), function),
        masked_count < 32,
    ensures
        grown(old(store), final(store), 600),
        final(gen).ok(final(store)),
        carry_rule_stands(final(store).links(), rotate_names(n), function, kind, masked_count),
{
    // [K, input_0 .. input_31, CFin, count_5 .. count_7]
    let r = gen.roles(store, 37);
    let k = r[0];
    let cf_in = r[33];
    let high = &r.as_slice()[34..37];
    let count_bits = count_template(n.zero, n.one, masked_count, high);
    let input = &r.as_slice()[1..33];
    let word = sequence(store, input);
    let ghost l_input = store.links();
    proof {
        store.lemma_wf_links();
        assert(input@ =~= r@.subrange(1, 33));
        assert(high@ =~= r@.subrange(34, 37));
        assert forall|i: int| 0 <= i < count_bits@.len() implies holds(store, #[trigger] count_bits@[i]) by {
            if i >= 5 {
                let j = i - 5;
                assert(count_bits@[5 + j] == r@[34 + j]);
            }
        }
    }
    let count_word = sequence(store, count_bits.as_slice());
    let ghost l_count = store.links();
    proof {
        store.lemma_wf_links();
    }
    let args = sequence(store, &[word, count_word, cf_in]);
    let ghost l_args = store.links();
    proof {
        store.lemma_wf_links();
        assert([word, count_word, cf_in]@ =~= seq![word, count_word, cf_in]);
    }
    let target = pair(store, function, args);
    let invocation = pair(store, n.apply, target);
    let before = pair(store, k, invocation);
    let ghost l_before = store.links();
    proof {
        store.lemma_wf_links();
        lemma_sequence_reads_keep(l_args, l_before, args, seq![word, count_word, cf_in]);
        assert(call_shape(l_before, before, k, n.apply, function, seq![word, count_word, cf_in]));
    }
    let ghost mut output_word: u32 = 0;
    let ghost mut patch: u32 = 0;
    let after = if masked_count == 0 {
        let payload = sequence(store, &[n.one, word, ROOT_HANDLE]);
        let ghost l_payload = store.links();
        proof {
            store.lemma_wf_links();
            assert([n.one, word, ROOT_HANDLE]@ =~= seq![n.one, word, 1]);
        }
        let envelope = pair(store, n.result_tag, payload);
        let after = pair(store, k, envelope);
        proof {
            store.lemma_wf_links();
            lemma_sequence_reads_keep(l_payload, store.links(), payload, seq![n.one, word, 1]);
            assert(tagged_shape(store.links(), after, k, n.result_tag, seq![n.one, word, 1]));
        }
        after
    } else {
        let ring = carry_template(input, cf_in, kind, masked_count);
        proof {
            assert forall|i: int| 0 <= i < 33 implies holds(store, #[trigger] ring@[i]) by {
                let ext = r@.subrange(1, 33).push(cf_in);
                assert(forall|j: int| 0 <= j < 33 ==> holds(store, #[trigger] ext[j]));
            }
            assert(ring@ =~= carry_rotated(r@.subrange(1, 33), cf_in, kind, masked_count as int));
        }
        let after = carry_after(store, n, k, &ring, kind, masked_count);
        proof {
            store.lemma_wf_links();
            if masked_count >= 2 {
                let (ow, pt) = choose|word: u32, patch: u32| #[trigger]
                    written_back(store.links(), after, k, n.result_tag, n.one, word, patch) && sequence_reads(
                        store.links(),
                        word,
                        ring@.subrange(0, 32),
                    );
                output_word = ow;
                patch = pt;
            }
        }
        after
    };
    let ghost l_shapes = store.links();
    proof {
        lemma_increasing_distinct(r@);
        store.lemma_wf_links();
        lemma_call_shape_keep(l_before, l_shapes, before, k, n.apply, function, seq![word, count_word, cf_in]);
        lemma_sequence_reads_keep(l_input, l_shapes, word, r@.subrange(1, 33));
        lemma_sequence_reads_keep(
            l_count,
            l_shapes,
            count_word,
            count_roles(n.zero, n.one, masked_count) + r@.subrange(34, 37),
        );
    }
    let (_, admission) = define_bundle_rule(store, n.theory, r.as_slice(), before, &[after]);
    let ghost l_rule = store.links();
    proof {
        store.lemma_wf_links();
        assert([after]@ =~= seq![after]);
    }
    index_rule_for(store, &[n.o], admission);
    proof {
        store.lemma_wf_links();
        assert([n.o]@[0] == n.o);
        let l = store.links();
        let w = (admission, r@, before, after, word, count_word, output_word, patch);
        let input_roles = r@.subrange(1, 33);
        lemma_admits_rule_keep(l_rule, l, n.theory, admission, r@, before, seq![after]);
        lemma_call_shape_keep(l_shapes, l, before, k, n.apply, function, seq![word, count_word, cf_in]);
        lemma_sequence_reads_keep(l_shapes, l, word, input_roles);
        lemma_sequence_reads_keep(l_shapes, l, count_word, count_roles(n.zero, n.one, masked_count) + r@.subrange(34, 37));
        if masked_count == 0 {
            lemma_tagged_shape_keep(l_shapes, l, after, k, n.result_tag, seq![n.one, word, 1]);
        }
        if masked_count >= 2 {
            lemma_sequence_reads_keep(
                l_shapes,
                l,
                output_word,
                carry_rotated(input_roles, cf_in, kind, masked_count as int).subrange(0, 32),
            );
            lemma_tagged_shape_keep(l_shapes, l, after, k, n.result_tag, seq![n.one, output_word, patch]);
        }
        assert(carry_rule_at(l, rotate_names(n), function, kind, masked_count, w));
        reveal(carry_rule_stands);
    }
}

/// The 32 rules of one direction.
fn carry_rules(store: &mut OptimizedLinkStore, gen: &mut AnchorGen, n: RotateNames, function: Handle, kind: CarryKind)
    requires
        has_room(old(store), 600 * 32),
        old(gen).ok(old(store)),
        n.held(old(store)),
        holds(old(store), function),
    ensures
        grown(old(store), final(store), 600 * 32),
        final(gen).ok(final(store)),
        forall|c: usize| c < 32 ==> #[trigger] carry_rule_stands(final(store).links(), rotate_names(n), function, kind, c),
{
    let mut masked_count: usize = 0;
    while masked_count < 32
        invariant
            masked_count <= 32,
            has_room(old(store), 600 * 32),
            grown(old(store), store, 600 * masked_count as nat),
            gen.ok(store),
            n.held(store),
            holds(store, function),
            forall|c: usize| c < masked_count ==> #[trigger] carry_rule_stands(store.links(), rotate_names(n), function, kind, c),
        decreases 32 - masked_count,
    {
        let ghost before = store.links();
        proof {
            store.lemma_wf_links();
        }
        carry_rule(store, gen, n, function, kind, masked_count);
        proof {
            assert forall|c: usize| c < masked_count + 1 implies #[trigger] carry_rule_stands(
                store.links(),
                rotate_names(n),
                function,
                kind,
                c,
            ) by {
                if c < masked_count {
                    lemma_carry_rule_keep(before, store.links(), rotate_names(n), function, kind, c);
                }
            }
        }
        masked_count += 1;
    }
}

/// The installed rotations through the carry.
pub struct RotateCarry32Program {
    pub rcl: Handle,
    pub rcr: Handle,
    pub result_tag: Handle,
    pub schema: FlagPatchSchema,
    pub gates: GateSet,
    pub links_after_build: usize,
}

/// The names the rules of `p` are stated over: the fixture's theory, rule
/// key, `apply`, zero and one, and the program's result tag.
pub open spec fn carry_names(f: &Fixture, p: RotateCarry32Program) -> (u32, u32, u32, u32, u32, u32) {
    (f.theory, f.o, f.apply, f.zero, f.one, p.result_tag)
}

impl RotateCarry32Program {
    /// Installs the 32-bit word logic and RCL/RCR on it.
    /// `K -> Call(op, [Input, Count, CFin])` reacts to
    /// `K -> PAIR(ResultTag, [WriteBack, Word, FlagPatch])`. The contract
    /// states, for each direction and masked count, the installed rule with
    /// its rotated output word (`carry_rule_stands`).
    #[verifier::rlimit(100)]
    pub fn install(f: &mut Fixture) -> (p: RotateCarry32Program)
        requires
            old(f).wf(),
            has_room(&old(f).store, 110000),
        ensures
            final(f).wf(),
            grown(&old(f).store, &final(f).store, 110000),
            final(f).engine == old(f).engine,
            final(f).o == old(f).o && final(f).c == old(f).c && final(f).theory == old(f).theory,
            final(f).full == old(f).full && final(f).k == old(f).k && final(f).apply == old(f).apply,
            final(f).zero == old(f).zero && final(f).one == old(f).one && final(f).args3 == old(f).args3,
            p.links_after_build == final(f).store.links().len() - 1,
            p.rcl != p.rcr,
            holds(&final(f).store, p.rcl),
            holds(&final(f).store, p.rcr),
            holds(&final(f).store, p.result_tag),
            p.schema.held(&final(f).store),
            p.gates.held(&final(f).store),
            forall|c: usize|
                c < 32 ==> #[trigger] carry_rule_stands(final(f).store.links(), carry_names(final(f), p), p.rcl, CarryKind::Rcl, c),
            forall|c: usize|
                c < 32 ==> #[trigger] carry_rule_stands(final(f).store.links(), carry_names(final(f), p), p.rcr, CarryKind::Rcr, c),
    {
        let logic = LogicProgram::install(f, 32);
        let gates = logic.gates;
        let seed = pair(&mut f.store, logic.result_tag, logic.word_binary);
        let mut gen = carry_anchors(&mut f.store, seed, f.o, f.c);
        let rcl = gen.function_pair(&mut f.store);
        let ghost l_rcl = f.store.links();
        let ghost g_rcl = gen.current;
        let rcr = gen.function_pair(&mut f.store);
        let ghost l_rcr = f.store.links();
        let ghost g_rcr = gen.current;
        proof {
            lemma_functions_differ(l_rcl, l_rcr, rcl, rcr, g_rcl);
        }
        let of_left = gen.next(&mut f.store);
        let of_right = gen.next(&mut f.store);
        let of_tag = pair(&mut f.store, of_left, of_right);
        let shared = pair(&mut f.store, f.k, f.full);
        let schema = FlagPatchSchema::install(&mut f.store, shared, f.o, f.c);
        let result_tag = install_alu_effect_result_tag(&mut f.store, shared, f.o, f.c);
        let n = RotateNames {
            theory: f.theory,
            o: f.o,
            apply: f.apply,
            zero: f.zero,
            one: f.one,
            of_tag,
            result_tag,
            schema,
            gates,
        };
        carry_rules(&mut f.store, &mut gen, n, rcl, CarryKind::Rcl);
        let ghost l_rcl_rules = f.store.links();
        proof {
            f.store.lemma_wf_links();
        }
        carry_rules(&mut f.store, &mut gen, n, rcr, CarryKind::Rcr);
        let ghost l_rcr_rules = f.store.links();
        proof {
            f.store.lemma_wf_links();
        }
        rotate_of_result(&mut f.store, &mut gen, n);
        proof {
            f.store.lemma_wf_links();
        }
        let links_after_build = f.store.link_count();
        let p = RotateCarry32Program { rcl, rcr, result_tag, schema, gates, links_after_build };
        proof {
            assert(rotate_names(n) == carry_names(f, p));
            assert forall|c: usize| c < 32 implies #[trigger] carry_rule_stands(f.store.links(), carry_names(f, p), p.rcl, CarryKind::Rcl, c) by {
                lemma_carry_rule_keep(l_rcl_rules, f.store.links(), rotate_names(n), rcl, CarryKind::Rcl, c);
            }
            assert forall|c: usize| c < 32 implies #[trigger] carry_rule_stands(f.store.links(), carry_names(f, p), p.rcr, CarryKind::Rcr, c) by {
                lemma_carry_rule_keep(l_rcr_rules, f.store.links(), rotate_names(n), rcr, CarryKind::Rcr, c);
            }
        }
        p
    }
}

} // verus!
