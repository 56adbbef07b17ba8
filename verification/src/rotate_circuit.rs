//! 32-bit rotations (ROL, ROR) by a count masked to five bits: one rule per
//! masked count, wired from the input's role bits. Count 0 writes the word
//! back and changes no flag; count 1 also computes OF with XOR2; larger
//! counts set CF and leave OF undefined.
use vstd::prelude::*;

use crate::arith_circuit::{all_held, append, AnchorGen};
use crate::circuit::{
    admits_rule, call, call_shape, define_bundle_rule, grown, has_room, holds, index_rule_for, indexed_under, keeps,
    lemma_admits_rule_keep, lemma_call_shape_keep, lemma_functions_differ, lemma_increasing_distinct,
    lemma_indexed_keep, lemma_sequence_reads_keep, lemma_tagged_shape_keep, pair, sequence, sequence_reads,
    stage_frame, tagged_shape, Fixture,
};
use crate::shift_circuit::count_roles;
use crate::effect_circuit::{
    install_alu_effect_result_tag, set_flag_action, undefined_flag_action, FlagPatchSchema,
};
use crate::logic_circuit::{gate_truth_tables, lemma_gate_truth_tables_keep, GateSet, LogicProgram};
use crate::mux_circuit::mux_anchors;
use crate::model::{links_wf, Links};
use crate::store::OptimizedLinkStore;
use crate::{Handle, ROOT_HANDLE};

verus! {

/// The word width of the rotations.
pub const ROTATE_WIDTH: usize = 32;

/// The direction of a rotation.
#[derive(Clone, Copy, PartialEq, Eq)]
pub enum RotateKind {
    Rol,
    Ror,
}

/// The rotated template of `input` by `count` (1 to 31), least significant
/// first: ROL moves bit `i` to `i + count`, ROR to `i - count`, modulo 32.
fn rotate_template(input: &[Handle], kind: RotateKind, count: usize) -> (out: Vec<Handle>)
    requires
        input@.len() == ROTATE_WIDTH,
        1 <= count < ROTATE_WIDTH,
    ensures
        out@.len() == ROTATE_WIDTH,
        out@ == (match kind {
            RotateKind::Rol => input@.subrange(32 - count, 32) + input@.subrange(0, 32 - count),
            RotateKind::Ror => input@.subrange(count as int, 32) + input@.subrange(0, count as int),
        }),
{
    let mut out: Vec<Handle> = Vec::new();
    match kind {
        RotateKind::Rol => {
            append(&mut out, &input[ROTATE_WIDTH - count..ROTATE_WIDTH]);
            append(&mut out, &input[0..ROTATE_WIDTH - count]);
        },
        RotateKind::Ror => {
            append(&mut out, &input[count..ROTATE_WIDTH]);
            append(&mut out, &input[0..count]);
        },
    }
    out
}

/// The Links the rotation rules are built from.
#[derive(Clone, Copy)]
pub(crate) struct RotateNames {
    pub(crate) theory: Handle,
    pub(crate) o: Handle,
    pub(crate) apply: Handle,
    pub(crate) zero: Handle,
    pub(crate) one: Handle,
    pub(crate) of_tag: Handle,
    pub(crate) result_tag: Handle,
    pub(crate) schema: FlagPatchSchema,
    pub(crate) gates: GateSet,
}

impl RotateNames {
    pub(crate) open spec fn held(&self, store: &OptimizedLinkStore) -> bool {
        &&& holds(store, self.theory)
        &&& holds(store, self.o)
        &&& holds(store, self.apply)
        &&& holds(store, self.zero)
        &&& holds(store, self.one)
        &&& holds(store, self.of_tag)
        &&& holds(store, self.result_tag)
        &&& self.schema.held(store)
        &&& self.gates.held(store)
    }
}

/// The five low count bits of `count` as bit Links, then the three role bits above.
pub(crate) fn count_template(zero: Handle, one: Handle, count: usize, high: &[Handle]) -> (v: Vec<Handle>)
    ensures
        v@.len() == 5 + high@.len(),
        forall|i: int| 0 <= i < 5 ==> #[trigger] v@[i] == zero || v@[i] == one,
        forall|i: int| 0 <= i < high@.len() ==> #[trigger] v@[5 + i] == high@[i],
        v@ == count_roles(zero, one, count) + high@,
{
    let mut v: Vec<Handle> = Vec::new();
    let mut bit: usize = 0;
    while bit < 5
        invariant
            bit <= 5,
            v@.len() == bit,
            forall|i: int| 0 <= i < bit ==> #[trigger] v@[i] == zero || v@[i] == one,
            v@ == count_roles(zero, one, count).subrange(0, bit as int),
        decreases 5 - bit,
    {
        v.push(
            if (count >> bit) & 1 == 1 {
                one
            } else {
                zero
            },
        );
        bit += 1;
        proof {
            assert(v@ =~= count_roles(zero, one, count).subrange(0, bit as int));
        }
    }
    let ghost before = v@;
    append(&mut v, high);
    proof {
        assert forall|i: int| 0 <= i < 5 implies #[trigger] v@[i] == zero || v@[i] == one by {
            assert(v@[i] == before[i]);
        }
        assert(count_roles(zero, one, count).subrange(0, 5) =~= count_roles(zero, one, count));
        assert(v@ =~= count_roles(zero, one, count) + high@);
    }
    v
}

/// `after` is `K -> PAIR(tag, [one, word, patch])`: the word written back
/// with a flag patch.
pub open spec fn written_back(links: Links, after: u32, k: u32, tag: u32, one: u32, word: u32, patch: u32) -> bool {
    tagged_shape(links, after, k, tag, seq![one, word, patch])
}

/// What the rule for a nonzero count rewrites to.
#[verifier::rlimit(100)]
fn rotate_after(
    store: &mut OptimizedLinkStore,
    n: RotateNames,
    k: Handle,
    out_bits: &Vec<Handle>,
    output_word: Handle,
    kind: RotateKind,
    masked_count: usize,
) -> (after: Handle)
    requires
        has_room(old(store), 200),
        n.held(old(store)),
        holds(old(store), k),
        holds(old(store), output_word),
        out_bits@.len() == ROTATE_WIDTH,
        all_held(old(store), out_bits@),
        1 <= masked_count < ROTATE_WIDTH,
    ensures
        grown(old(store), final(store), 200),
        holds(final(store), after),
        masked_count >= 2 ==> exists|patch: u32| #[trigger]
            written_back(final(store).links(), after, k, n.result_tag, n.one, output_word, patch),
{
    let cf = match kind {
        RotateKind::Rol => out_bits[0],
        RotateKind::Ror => out_bits[ROTATE_WIDTH - 1],
    };
    if masked_count == 1 {
        // Count 1: `OfFrame([K, CF, out..]) -> Call(XOR2, [a, b])`.
        let mut state: Vec<Handle> = Vec::new();
        state.push(k);
        state.push(cf);
        append(&mut state, out_bits.as_slice());
        let caller = stage_frame(store, n.of_tag, state.as_slice());
        let (a, b) = match kind {
            RotateKind::Rol => (out_bits[ROTATE_WIDTH - 1], cf),
            RotateKind::Ror => (out_bits[ROTATE_WIDTH - 1], out_bits[ROTATE_WIDTH - 2]),
        };
        let xor_args = sequence(store, &[a, b]);
        let of_call = call(store, n.apply, n.gates.xor2, xor_args);
        pair(store, caller, of_call)
    } else {
        let set_cf = set_flag_action(store, n.schema, n.schema.cf, cf);
        let undef_of = undefined_flag_action(store, n.schema, n.schema.of);
        let patch = sequence(store, &[set_cf, undef_of]);
        let payload = sequence(store, &[n.one, output_word, patch]);
        let ghost l_payload = store.links();
        proof {
            store.lemma_wf_links();
            assert([n.one, output_word, patch]@ =~= seq![n.one, output_word, patch]);
        }
        let envelope = pair(store, n.result_tag, payload);
        let after = pair(store, k, envelope);
        proof {
            store.lemma_wf_links();
            lemma_sequence_reads_keep(l_payload, store.links(), payload, seq![n.one, output_word, patch]);
            assert(written_back(store.links(), after, k, n.result_tag, n.one, output_word, patch));
        }
        after
    }
}

/// The rotated roles of `input` by `count` (1 to 31), least significant
/// first: ROL moves bit `i` to `i + count`, ROR to `i - count`, modulo 32.
pub open spec fn rotated(input: Seq<Handle>, kind: RotateKind, count: int) -> Seq<Handle> {
    match kind {
        RotateKind::Rol => input.subrange(32 - count, 32) + input.subrange(0, 32 - count),
        RotateKind::Ror => input.subrange(count, 32) + input.subrange(0, count),
    }
}

/// The rotation rule of `function` for the masked count `count` stands in
/// `links`, admitted by `theory` through `w.0` and indexed under `key`. Its
/// roles `w.1` are `K`, the 32 input bits and the three high count bits; it
/// rewrites `K -> Call(function, [Input, Count])`, with `Input` the word
/// `w.4` of the input bits and `Count` the word `w.5` of the count's five
/// low bits and the high bits. For count 0 it becomes
/// `K -> PAIR(result_tag, [one, Input, ROOT])`; for counts 2 to 31
/// `K -> PAIR(result_tag, [one, Output, Patch])`, with `Output` the word `w.6`
/// of the `rotated` input bits. (Count 1 first computes OF through XOR2.)
pub open spec fn rotate_rule_at(
    links: Links,
    names: (u32, u32, u32, u32, u32, u32),
    function: u32,
    kind: RotateKind,
    count: usize,
    w: (u32, Seq<u32>, u32, u32, u32, u32, u32, u32),
) -> bool {
    let (theory, key, apply, zero, one, result_tag) = names;
    let (admission, roles, before, after, input_word, count_word, output_word, patch) = w;
    let k = roles[0];
    let input = roles.subrange(1, 33);
    &&& roles.len() == 36
    &&& admits_rule(links, theory, admission, roles, before, seq![after])
    &&& indexed_under(links, key, admission)
    &&& call_shape(links, before, k, apply, function, seq![input_word, count_word])
    &&& sequence_reads(links, input_word, input)
    &&& sequence_reads(links, count_word, count_roles(zero, one, count) + roles.subrange(33, 36))
    &&& count == 0 ==> tagged_shape(links, after, k, result_tag, seq![one, input_word, 1])
    &&& count >= 2 ==> {
        &&& sequence_reads(links, output_word, rotated(input, kind, count as int))
        &&& tagged_shape(links, after, k, result_tag, seq![one, output_word, patch])
    }
}

/// Some rotation rule of `function` for `count` stands in `links` (see
/// `rotate_rule_at`).
#[verifier::opaque]
pub open spec fn rotation_rule(
    links: Links,
    names: (u32, u32, u32, u32, u32, u32),
    function: u32,
    kind: RotateKind,
    count: usize,
) -> bool {
    exists|w: (u32, Seq<u32>, u32, u32, u32, u32, u32, u32)| #[trigger] rotate_rule_at(links, names, function, kind, count, w)
}

/// A rotation rule stays in place after more Links.
pub proof fn lemma_rotation_rule_keep(
    l1: Links,
    l2: Links,
    names: (u32, u32, u32, u32, u32, u32),
    function: u32,
    kind: RotateKind,
    count: usize,
)
    requires
        links_wf(l1),
        keeps(l1, l2),
        rotation_rule(l1, names, function, kind, count),
    ensures
        rotation_rule(l2, names, function, kind, count),
{
    reveal(rotation_rule);
    let w = choose|w: (u32, Seq<u32>, u32, u32, u32, u32, u32, u32)| #[trigger] rotate_rule_at(l1, names, function, kind, count, w);
    let (theory, key, apply, zero, one, result_tag) = names;
    let (admission, roles, before, after, input_word, count_word, output_word, patch) = w;
    let k = roles[0];
    let input = roles.subrange(1, 33);
    lemma_admits_rule_keep(l1, l2, theory, admission, roles, before, seq![after]);
    lemma_indexed_keep(l1, l2, key, admission);
    lemma_call_shape_keep(l1, l2, before, k, apply, function, seq![input_word, count_word]);
    lemma_sequence_reads_keep(l1, l2, input_word, input);
    lemma_sequence_reads_keep(l1, l2, count_word, count_roles(zero, one, count) + roles.subrange(33, 36));
    if count == 0 {
        lemma_tagged_shape_keep(l1, l2, after, k, result_tag, seq![one, input_word, 1]);
    }
    if count >= 2 {
        lemma_sequence_reads_keep(l1, l2, output_word, rotated(input, kind, count as int));
        lemma_tagged_shape_keep(l1, l2, after, k, result_tag, seq![one, output_word, patch]);
    }
    assert(rotate_rule_at(l2, names, function, kind, count, w));
}

/// The names a rotation rule is stated over.
pub(crate) open spec fn rotate_names(n: RotateNames) -> (u32, u32, u32, u32, u32, u32) {
    (n.theory, n.o, n.apply, n.zero, n.one, n.result_tag)
}

/// The rule of one masked count:
/// `K -> Call(function, [Input, Count])` with the count's five low bits fixed.
#[verifier::rlimit(100)]
fn rotate_rule(
    store: &mut OptimizedLinkStore,
    gen: &mut AnchorGen,
    n: RotateNames,
    function: Handle,
    kind: RotateKind,
    masked_count: usize,
)
    requires
        has_room(old(store), 600),
        old(gen).ok(old(store)),
        n.held(old(store)),
        holds(old(store), function),
        masked_count < ROTATE_WIDTH,
    ensures
        grown(old(store), final(store), 600),
        final(gen).ok(final(store)),
        rotation_rule(final(store).links(), rotate_names(n), function, kind, masked_count),
{
    // [K, input_0 .. input_31, count_5 .. count_7]
    let r = gen.roles(store, 1 + ROTATE_WIDTH + 3);
    let k = r[0];
    let high = &r.as_slice()[1 + ROTATE_WIDTH..4 + ROTATE_WIDTH];
    let count_bits = count_template(n.zero, n.one, masked_count, high);
    let input = &r.as_slice()[1..1 + ROTATE_WIDTH];
    let input_word = sequence(store, input);
    let ghost l_input = store.links();
    proof {
        store.lemma_wf_links();
        assert(input@ =~= r@.subrange(1, 33));
        assert(high@ =~= r@.subrange(33, 36));
        assert forall|i: int| 0 <= i < count_bits@.len() implies holds(store, #[trigger] count_bits@[i]) by {
            if i >= 5 {
                let j = i - 5;
                assert(count_bits@[5 + j] == r@[1 + 32 + j]);
            }
        }
    }
    let count_word = sequence(store, count_bits.as_slice());
    let ghost l_count = store.links();
    proof {
        store.lemma_wf_links();
    }
    let args = sequence(store, &[input_word, count_word]);
    let ghost l_args = store.links();
    proof {
        store.lemma_wf_links();
        assert([input_word, count_word]@ =~= seq![input_word, count_word]);
    }
    let target = pair(store, function, args);
    let invocation = pair(store, n.apply, target);
    let before = pair(store, k, invocation);
    let ghost l_before = store.links();
    proof {
        store.lemma_wf_links();
        lemma_sequence_reads_keep(l_args, l_before, args, seq![input_word, count_word]);
        assert(call_shape(l_before, before, k, n.apply, function, seq![input_word, count_word]));
    }
    let ghost mut output_word: u32 = 0;
    let ghost mut patch: u32 = 0;
    let after = if masked_count == 0 {
        let payload = sequence(store, &[n.one, input_word, ROOT_HANDLE]);
        let ghost l_payload = store.links();
        proof {
            store.lemma_wf_links();
            assert([n.one, input_word, ROOT_HANDLE]@ =~= seq![n.one, input_word, 1]);
        }
        let envelope = pair(store, n.result_tag, payload);
        let after = pair(store, k, envelope);
        proof {
            store.lemma_wf_links();
            lemma_sequence_reads_keep(l_payload, store.links(), payload, seq![n.one, input_word, 1]);
            assert(tagged_shape(store.links(), after, k, n.result_tag, seq![n.one, input_word, 1]));
        }
        after
    } else {
        let out_bits = rotate_template(input, kind, masked_count);
        let output = sequence(store, out_bits.as_slice());
        let ghost l_output = store.links();
        proof {
            store.lemma_wf_links();
            output_word = output;
        }
        let after = rotate_after(store, n, k, &out_bits, output, kind, masked_count);
        proof {
            store.lemma_wf_links();
            lemma_sequence_reads_keep(l_output, store.links(), output, out_bits@);
            if masked_count >= 2 {
                patch = choose|patch: u32| #[trigger] written_back(store.links(), after, k, n.result_tag, n.one, output, patch);
            }
        }
        after
    };
    let ghost l_shapes = store.links();
    proof {
        lemma_increasing_distinct(r@);
        store.lemma_wf_links();
        lemma_call_shape_keep(l_before, l_shapes, before, k, n.apply, function, seq![input_word, count_word]);
        lemma_sequence_reads_keep(l_input, l_shapes, input_word, r@.subrange(1, 33));
        lemma_sequence_reads_keep(
            l_count,
            l_shapes,
            count_word,
            count_roles(n.zero, n.one, masked_count) + r@.subrange(33, 36),
        );
    }
    let (_, admission) = define_bundle_rule(store, n.theory, r.as_slice(), before, &[after]);
    let ghost l_rule = store.links();
    proof {
        store.lemma_wf_links();
        assert([after]@ =~= seq![after]);
    }
    index_rule_for(store, &[n.o], admission);
    proof {
        store.lemma_wf_links();
        assert([n.o]@[0] == n.o);
        let w = (admission, r@, before, after, input_word, count_word, output_word, patch);
        let input_roles = r@.subrange(1, 33);
        lemma_admits_rule_keep(l_rule, store.links(), n.theory, admission, r@, before, seq![after]);
        lemma_call_shape_keep(l_shapes, store.links(), before, k, n.apply, function, seq![input_word, count_word]);
        lemma_sequence_reads_keep(l_shapes, store.links(), input_word, input_roles);
        lemma_sequence_reads_keep(
            l_shapes,
            store.links(),
            count_word,
            count_roles(n.zero, n.one, masked_count) + r@.subrange(33, 36),
        );
        if masked_count == 0 {
            lemma_tagged_shape_keep(l_shapes, store.links(), after, k, n.result_tag, seq![n.one, input_word, 1]);
        }
        if masked_count >= 2 {
            lemma_sequence_reads_keep(l_shapes, store.links(), output_word, rotated(input_roles, kind, masked_count as int));
            lemma_tagged_shape_keep(l_shapes, store.links(), after, k, n.result_tag, seq![n.one, output_word, patch]);
        }
        assert(rotate_rule_at(store.links(), rotate_names(n), function, kind, masked_count, w));
        reveal(rotation_rule);
    }
}

/// The 32 rules of one direction.
fn rotate_rules(store: &mut OptimizedLinkStore, gen: &mut AnchorGen, n: RotateNames, function: Handle, kind: RotateKind)
    requires
        has_room(old(store), 600 * ROTATE_WIDTH as nat),
        old(gen).ok(old(store)),
        n.held(old(store)),
        holds(old(store), function),
    ensures
        grown(old(store), final(store), 600 * ROTATE_WIDTH as nat),
        final(gen).ok(final(store)),
        forall|c: usize| c < 32 ==> #[trigger] rotation_rule(final(store).links(), rotate_names(n), function, kind, c),
{
    let mut masked_count: usize = 0;
    while masked_count < ROTATE_WIDTH
        invariant
            masked_count <= ROTATE_WIDTH,
            has_room(old(store), 600 * ROTATE_WIDTH as nat),
            grown(old(store), store, 600 * masked_count as nat),
            gen.ok(store),
            n.held(store),
            holds(store, function),
            forall|c: usize| c < masked_count ==> #[trigger] rotation_rule(store.links(), rotate_names(n), function, kind, c),
        decreases ROTATE_WIDTH - masked_count,
    {
        let ghost before = store.links();
        proof {
            store.lemma_wf_links();
        }
        rotate_rule(store, gen, n, function, kind, masked_count);
        proof {
            assert forall|c: usize| c < masked_count + 1 implies #[trigger] rotation_rule(
                store.links(),
                rotate_names(n),
                function,
                kind,
                c,
            ) by {
                if c < masked_count {
                    lemma_rotation_rule_keep(before, store.links(), rotate_names(n), function, kind, c);
                }
            }
        }
        masked_count += 1;
    }
}

/// Count 1, after XOR2: `OfFrame([K, CF, bits..]) -> [OF]` becomes
/// `K -> PAIR(ResultTag, [1, Word, [set CF, set OF]])`.
#[verifier::rlimit(100)]
pub(crate) fn rotate_of_result(store: &mut OptimizedLinkStore, gen: &mut AnchorGen, n: RotateNames)
    requires
        has_room(old(store), 600),
        old(gen).ok(old(store)),
        n.held(old(store)),
    ensures
        grown(old(store), final(store), 600),
        final(gen).ok(final(store)),
{
    // [K, CF, bits_0 .. bits_31, OF]
    let r = gen.roles(store, 3 + ROTATE_WIDTH);
    let k = r[0];
    let cf = r[1];
    let of = r[2 + ROTATE_WIDTH];
    let caller = stage_frame(store, n.of_tag, &r.as_slice()[0..2 + ROTATE_WIDTH]);
    let of_result = sequence(store, &[of]);
    let before = pair(store, caller, of_result);
    let word = sequence(store, &r.as_slice()[2..2 + ROTATE_WIDTH]);
    let set_cf = set_flag_action(store, n.schema, n.schema.cf, cf);
    let set_of = set_flag_action(store, n.schema, n.schema.of, of);
    let patch = sequence(store, &[set_cf, set_of]);
    let payload = sequence(store, &[n.one, word, patch]);
    let envelope = pair(store, n.result_tag, payload);
    let after = pair(store, k, envelope);
    proof {
        lemma_increasing_distinct(r@);
    }
    let (_, admission) = define_bundle_rule(store, n.theory, r.as_slice(), before, &[after]);
    index_rule_for(store, &n.gates.bit_outputs, admission);
}

/// The installed rotations.
pub struct Rotate32Program {
    pub rol: Handle,
    pub ror: Handle,
    pub result_tag: Handle,
    pub schema: FlagPatchSchema,
    pub gates: GateSet,
    pub links_after_build: usize,
}

/// The names the rotation rules of `p` are stated over: the fixture's
/// theory, rule key, `apply`, zero and one, and the program's result tag.
pub open spec fn rotation_names(f: &Fixture, p: Rotate32Program) -> (u32, u32, u32, u32, u32, u32) {
    (f.theory, f.o, f.apply, f.zero, f.one, p.result_tag)
}

impl Rotate32Program {
    /// Installs the 32-bit word logic and ROL/ROR on it.
    /// `K -> Call(op, [Input, Count])` reacts to
    /// `K -> PAIR(ResultTag, [WriteBack, Word, FlagPatch])`. The contract
    /// states, for each direction and masked count, the installed rule with
    /// its rotated output word (`rotation_rule`), and the gates' Boolean tables.
    #[verifier::rlimit(100)]
    pub fn install(f: &mut Fixture) -> (p: Rotate32Program)
        requires
            old(f).wf(),
            has_room(&old(f).store, 110000),
        ensures
            final(f).wf(),
            grown(&old(f).store, &final(f).store, 110000),
            final(f).engine == old(f).engine,
            final(f).o == old(f).o && final(f).c == old(f).c && final(f).theory == old(f).theory,
            final(f).full == old(f).full && final(f).k == old(f).k && final(f).apply == old(f).apply,
            final(f).zero == old(f).zero && final(f).one == old(f).one && final(f).args3 == old(f).args3,
            p.links_after_build == final(f).store.links().len() - 1,
            p.rol != p.ror,
            holds(&final(f).store, p.rol),
            holds(&final(f).store, p.ror),
            holds(&final(f).store, p.result_tag),
            p.schema.held(&final(f).store),
            p.gates.held(&final(f).store),
            forall|c: usize|
                c < 32 ==> #[trigger] rotation_rule(final(f).store.links(), rotation_names(final(f), p), p.rol, RotateKind::Rol, c),
            forall|c: usize|
                c < 32 ==> #[trigger] rotation_rule(final(f).store.links(), rotation_names(final(f), p), p.ror, RotateKind::Ror, c),
            gate_truth_tables(final(f).store.links(), (final(f).theory, final(f).o, final(f).apply), final(f).zero, final(f).one, p.gates),
    {
        let logic = LogicProgram::install(f, ROTATE_WIDTH);
        let ghost l_gates = f.store.links();
        proof {
            f.store.lemma_wf_links();
        }
        let gates = logic.gates;
        let seed0 = pair(&mut f.store, logic.word_not, logic.result_tag);
        let mut gen = mux_anchors(&mut f.store, seed0, f.o, f.c);
        let rol = gen.function_pair(&mut f.store);
        let ghost l_rol = f.store.links();
        let ghost g_rol = gen.current;
        let ror = gen.function_pair(&mut f.store);
        let ghost l_ror = f.store.links();
        let ghost g_ror = gen.current;
        proof {
            lemma_functions_differ(l_rol, l_ror, rol, ror, g_rol);
        }
        let of_left = gen.next(&mut f.store);
        let of_right = gen.next(&mut f.store);
        let of_tag = pair(&mut f.store, of_left, of_right);
        let shared_seed = pair(&mut f.store, f.k, f.full);
        let schema = FlagPatchSchema::install(&mut f.store, shared_seed, f.o, f.c);
        let result_tag = install_alu_effect_result_tag(&mut f.store, shared_seed, f.o, f.c);
        let n = RotateNames {
            theory: f.theory,
            o: f.o,
            apply: f.apply,
            zero: f.zero,
            one: f.one,
            of_tag,
            result_tag,
            schema,
            gates,
        };
        rotate_rules(&mut f.store, &mut gen, n, rol, RotateKind::Rol);
        let ghost l_rol_rules = f.store.links();
        proof {
            f.store.lemma_wf_links();
        }
        rotate_rules(&mut f.store, &mut gen, n, ror, RotateKind::Ror);
        let ghost l_ror_rules = f.store.links();
        proof {
            f.store.lemma_wf_links();
        }
        rotate_of_result(&mut f.store, &mut gen, n);
        proof {
            f.store.lemma_wf_links();
        }
        let links_after_build = f.store.link_count();
        let p = Rotate32Program { rol, ror, result_tag, schema, gates, links_after_build };
        proof {
            assert(rotate_names(n) == rotation_names(f, p));
            lemma_gate_truth_tables_keep(l_gates, f.store.links(), (f.theory, f.o, f.apply), f.zero, f.one, gates);
            assert forall|c: usize| c < 32 implies #[trigger] rotation_rule(f.store.links(), rotation_names(f, p), p.rol, RotateKind::Rol, c) by {
                lemma_rotation_rule_keep(l_rol_rules, f.store.links(), rotate_names(n), rol, RotateKind::Rol, c);
            }
            assert forall|c: usize| c < 32 implies #[trigger] rotation_rule(f.store.links(), rotation_names(f, p), p.ror, RotateKind::Ror, c) by {
                lemma_rotation_rule_keep(l_ror_rules, f.store.links(), rotate_names(n), ror, RotateKind::Ror, c);
            }
        }
        p
    }
}

} // verus!
