//! Word logic: AND2, OR2, XOR2 and NOT1 gates as structural rules, and one
//! generic N-bit controller for each of `WORD_BIN` (which gate to apply is a value of
//! the call, not a host dispatch) and `WORD_NOT`.
use vstd::prelude::*;

use crate::arith_circuit::{all_held, append, bit_tags, AnchorGen};
use crate::circuit::{
    admits_rule, call, call_shape, define_bundle_rule, grown, has_room, holds, index_rule, index_rule_for,
    indexed_under, keeps, lemma_admits_rule_keep, lemma_call_shape_keep, lemma_functions_differ,
    lemma_increasing_distinct, lemma_indexed_keep, lemma_sequence_reads_keep, pair, sequence, sequence_reads,
    stage_frame, Fixture,
};
use crate::model::{is_valid_in, lemma_extends_trans, links_wf, poles_in, Links};
use crate::store::OptimizedLinkStore;
use crate::Handle;

verus! {

/// The four gates and their two possible one-bit results `[0]`, `[1]`.
#[derive(Clone, Copy)]
pub struct GateSet {
    pub and2: Handle,
    pub or2: Handle,
    pub xor2: Handle,
    pub not1: Handle,
    pub bit_outputs: [Handle; 2],
}

impl GateSet {
    pub open spec fn held(&self, store: &OptimizedLinkStore) -> bool {
        &&& holds(store, self.and2)
        &&& holds(store, self.or2)
        &&& holds(store, self.xor2)
        &&& holds(store, self.not1)
        &&& all_held(store, self.bit_outputs@)
    }
}

/// The fixture Links the gates are built from.
#[derive(Clone, Copy)]
pub(crate) struct Base {
    pub(crate) theory: Handle,
    pub(crate) o: Handle,
    pub(crate) apply: Handle,
    pub(crate) zero: Handle,
    pub(crate) one: Handle,
}

impl Base {
    pub(crate) open spec fn held(&self, store: &OptimizedLinkStore) -> bool {
        &&& holds(store, self.theory)
        &&& holds(store, self.o)
        &&& holds(store, self.apply)
        &&& holds(store, self.zero)
        &&& holds(store, self.one)
    }
}

/// The anchors of the logic program, in a namespace of its own for each
/// width: `seed, o, o, c, (c, c, o) * width`.
fn logic_anchors(store: &mut OptimizedLinkStore, seed: Handle, o: Handle, c: Handle, width: usize) -> (g: AnchorGen)
    requires
        has_room(old(store), 3 * width as nat + 3),
        holds(old(store), seed),
        holds(old(store), o),
        holds(old(store), c),
    ensures
        grown(old(store), final(store), 3 * width as nat + 3),
        g.ok(final(store)),
{
    let mut seed = pair(store, seed, o);
    seed = pair(store, seed, o);
    seed = pair(store, seed, c);
    let mut i: usize = 0;
    while i < width
        invariant
            i <= width,
            grown(old(store), store, 3 * i as nat + 3),
            has_room(old(store), 3 * width as nat + 3),
            holds(store, seed),
            holds(old(store), o),
            holds(old(store), c),
        decreases width - i,
    {
        seed = pair(store, seed, c);
        seed = pair(store, seed, c);
        seed = pair(store, seed, o);
        i += 1;
    }
    AnchorGen { current: seed, flip: false, o, c }
}

/// A truth-table row of `gate` stands in `links`, admitted by `names.0`
/// through `w.0` and indexed under `names.1`: with the one role `w.1`
/// (`caller`) it rewrites `w.2`, that is `caller -> Call(gate, inputs)` with
/// `Call` made through `names.2`, into `w.3`, that is `caller -> output`.
pub open spec fn gate_row_at(
    links: Links,
    names: (u32, u32, u32),
    gate: u32,
    inputs: Seq<u32>,
    output: u32,
    w: (u32, u32, u32, u32),
) -> bool {
    let (theory, key, apply) = names;
    let (admission, caller, before, after) = w;
    &&& admits_rule(links, theory, admission, seq![caller], before, seq![after])
    &&& indexed_under(links, key, admission)
    &&& call_shape(links, before, caller, apply, gate, inputs)
    &&& is_valid_in(links, after)
    &&& poles_in(links, after) == (caller, output)
}

/// Some truth-table row of `gate` maps `inputs` to `output` in `links`.
#[verifier::opaque]
pub open spec fn gate_row(links: Links, names: (u32, u32, u32), gate: u32, inputs: Seq<u32>, output: u32) -> bool {
    exists|w: (u32, u32, u32, u32)| #[trigger] gate_row_at(links, names, gate, inputs, output, w)
}

/// A truth-table row stays in place after more Links.
pub proof fn lemma_gate_row_keep(l1: Links, l2: Links, names: (u32, u32, u32), gate: u32, inputs: Seq<u32>, output: u32)
    requires
        links_wf(l1),
        keeps(l1, l2),
        gate_row(l1, names, gate, inputs, output),
    ensures
        gate_row(l2, names, gate, inputs, output),
{
    reveal(gate_row);
    let w = choose|w: (u32, u32, u32, u32)| #[trigger] gate_row_at(l1, names, gate, inputs, output, w);
    let (theory, key, apply) = names;
    let (admission, caller, before, after) = w;
    lemma_admits_rule_keep(l1, l2, theory, admission, seq![caller], before, seq![after]);
    lemma_indexed_keep(l1, l2, key, admission);
    lemma_call_shape_keep(l1, l2, before, caller, apply, gate, inputs);
    assert(l2[after as int] == l1[after as int]);
    assert(gate_row_at(l2, names, gate, inputs, output, w));
}

/// Each gate of `g` follows its Boolean table in `links`, over the bits
/// `zero` and `one`: the outputs read back as `[zero]` and `[one]`, and each
/// row of AND2, OR2, XOR2 and NOT1 maps its input bits to the output of the
/// gate's Boolean function.
#[verifier::opaque]
pub open spec fn gate_truth_tables(links: Links, names: (u32, u32, u32), zero: u32, one: u32, g: GateSet) -> bool {
    let out0 = g.bit_outputs[0];
    let out1 = g.bit_outputs[1];
    &&& sequence_reads(links, out0, seq![zero])
    &&& sequence_reads(links, out1, seq![one])
    &&& gate_row(links, names, g.and2, seq![zero, zero], out0)
    &&& gate_row(links, names, g.and2, seq![zero, one], out0)
    &&& gate_row(links, names, g.and2, seq![one, zero], out0)
    &&& gate_row(links, names, g.and2, seq![one, one], out1)
    &&& gate_row(links, names, g.or2, seq![zero, zero], out0)
    &&& gate_row(links, names, g.or2, seq![zero, one], out1)
    &&& gate_row(links, names, g.or2, seq![one, zero], out1)
    &&& gate_row(links, names, g.or2, seq![one, one], out1)
    &&& gate_row(links, names, g.xor2, seq![zero, zero], out0)
    &&& gate_row(links, names, g.xor2, seq![zero, one], out1)
    &&& gate_row(links, names, g.xor2, seq![one, zero], out1)
    &&& gate_row(links, names, g.xor2, seq![one, one], out0)
    &&& gate_row(links, names, g.not1, seq![zero], out1)
    &&& gate_row(links, names, g.not1, seq![one], out0)
}

/// The truth tables stay in place after more Links.
pub proof fn lemma_gate_truth_tables_keep(l1: Links, l2: Links, names: (u32, u32, u32), zero: u32, one: u32, g: GateSet)
    requires
        links_wf(l1),
        keeps(l1, l2),
        gate_truth_tables(l1, names, zero, one, g),
    ensures
        gate_truth_tables(l2, names, zero, one, g),
{
    reveal(gate_truth_tables);
    let out0 = g.bit_outputs[0];
    let out1 = g.bit_outputs[1];
    lemma_sequence_reads_keep(l1, l2, out0, seq![zero]);
    lemma_sequence_reads_keep(l1, l2, out1, seq![one]);
    lemma_gate_row_keep(l1, l2, names, g.and2, seq![zero, zero], out0);
    lemma_gate_row_keep(l1, l2, names, g.and2, seq![zero, one], out0);
    lemma_gate_row_keep(l1, l2, names, g.and2, seq![one, zero], out0);
    lemma_gate_row_keep(l1, l2, names, g.and2, seq![one, one], out1);
    lemma_gate_row_keep(l1, l2, names, g.or2, seq![zero, zero], out0);
    lemma_gate_row_keep(l1, l2, names, g.or2, seq![zero, one], out1);
    lemma_gate_row_keep(l1, l2, names, g.or2, seq![one, zero], out1);
    lemma_gate_row_keep(l1, l2, names, g.or2, seq![one, one], out1);
    lemma_gate_row_keep(l1, l2, names, g.xor2, seq![zero, zero], out0);
    lemma_gate_row_keep(l1, l2, names, g.xor2, seq![zero, one], out1);
    lemma_gate_row_keep(l1, l2, names, g.xor2, seq![one, zero], out1);
    lemma_gate_row_keep(l1, l2, names, g.xor2, seq![one, one], out0);
    lemma_gate_row_keep(l1, l2, names, g.not1, seq![zero], out1);
    lemma_gate_row_keep(l1, l2, names, g.not1, seq![one], out0);
}

/// One truth table row: `caller -> Call(gate, args) => caller -> output`.
pub(crate) fn install_gate_row(
    store: &mut OptimizedLinkStore,
    gen: &mut AnchorGen,
    theory: Handle,
    o: Handle,
    apply: Handle,
    gate: Handle,
    inputs: &[Handle],
    output: Handle,
)
    requires
        has_room(old(store), 20),
        inputs@.len() <= 2,
        old(gen).ok(old(store)),
        holds(old(store), theory),
        holds(old(store), o),
        holds(old(store), apply),
        holds(old(store), gate),
        all_held(old(store), inputs@),
        holds(old(store), output),
    ensures
        grown(old(store), final(store), 20),
        final(gen).ok(final(store)),
        gate_row(final(store).links(), (theory, o, apply), gate, inputs@, output),
{
    let caller = gen.next(store);
    let args = sequence(store, inputs);
    let ghost l_args = store.links();
    proof {
        store.lemma_wf_links();
    }
    let target = pair(store, gate, args);
    let invocation = pair(store, apply, target);
    let before = pair(store, caller, invocation);
    let after = pair(store, caller, output);
    let ghost l_shapes = store.links();
    let roles = [caller];
    proof {
        lemma_increasing_distinct(roles@);
        store.lemma_wf_links();
        lemma_sequence_reads_keep(l_args, l_shapes, args, inputs@);
        assert(call_shape(l_shapes, before, caller, apply, gate, inputs@));
        assert(roles@ =~= seq![caller]);
    }
    let (_, admission) = define_bundle_rule(store, theory, &roles, before, &[after]);
    let ghost l_rule = store.links();
    proof {
        store.lemma_wf_links();
        assert([after]@ =~= seq![after]);
    }
    index_rule(store, o, admission);
    proof {
        store.lemma_wf_links();
        lemma_admits_rule_keep(l_rule, store.links(), theory, admission, seq![caller], before, seq![after]);
        lemma_call_shape_keep(l_shapes, store.links(), before, caller, apply, gate, inputs@);
        assert(store.links()[after as int] == l_shapes[after as int]);
        assert(gate_row_at(store.links(), (theory, o, apply), gate, inputs@, output, (admission, caller, before, after)));
        reveal(gate_row);
    }
}

/// The four rows of a binary gate, `rows[a][b]` being the output index.
pub(crate) fn install_binary_gate(
    store: &mut OptimizedLinkStore,
    gen: &mut AnchorGen,
    f: Base,
    gate: Handle,
    bit_outputs: [Handle; 2],
    rows: [[usize; 2]; 2],
)
    requires
        has_room(old(store), 80),
        old(gen).ok(old(store)),
        f.held(old(store)),
        holds(old(store), gate),
        all_held(old(store), bit_outputs@),
        rows[0][0] < 2 && rows[0][1] < 2 && rows[1][0] < 2 && rows[1][1] < 2,
    ensures
        grown(old(store), final(store), 80),
        final(gen).ok(final(store)),
        gate_row(final(store).links(), (f.theory, f.o, f.apply), gate, seq![f.zero, f.zero], bit_outputs[rows[0][0] as int]),
        gate_row(final(store).links(), (f.theory, f.o, f.apply), gate, seq![f.zero, f.one], bit_outputs[rows[0][1] as int]),
        gate_row(final(store).links(), (f.theory, f.o, f.apply), gate, seq![f.one, f.zero], bit_outputs[rows[1][0] as int]),
        gate_row(final(store).links(), (f.theory, f.o, f.apply), gate, seq![f.one, f.one], bit_outputs[rows[1][1] as int]),
{
    let (zero, one) = (f.zero, f.one);
    let ghost names = (f.theory, f.o, f.apply);
    proof {
        assert([zero, zero]@ =~= seq![zero, zero]);
        assert([zero, one]@ =~= seq![zero, one]);
        assert([one, zero]@ =~= seq![one, zero]);
        assert([one, one]@ =~= seq![one, one]);
    }
    install_gate_row(store, gen, f.theory, f.o, f.apply, gate, &[zero, zero], bit_outputs[rows[0][0]]);
    let ghost l1 = store.links();
    proof {
        store.lemma_wf_links();
    }
    install_gate_row(store, gen, f.theory, f.o, f.apply, gate, &[zero, one], bit_outputs[rows[0][1]]);
    let ghost l2 = store.links();
    proof {
        store.lemma_wf_links();
    }
    install_gate_row(store, gen, f.theory, f.o, f.apply, gate, &[one, zero], bit_outputs[rows[1][0]]);
    let ghost l3 = store.links();
    proof {
        store.lemma_wf_links();
    }
    install_gate_row(store, gen, f.theory, f.o, f.apply, gate, &[one, one], bit_outputs[rows[1][1]]);
    proof {
        lemma_gate_row_keep(l1, store.links(), names, gate, seq![zero, zero], bit_outputs[rows[0][0] as int]);
        lemma_gate_row_keep(l2, store.links(), names, gate, seq![zero, one], bit_outputs[rows[0][1] as int]);
        lemma_gate_row_keep(l3, store.links(), names, gate, seq![one, zero], bit_outputs[rows[1][0] as int]);
    }
}

/// The truth tables of the gates `g` over `f`'s bits, on top of their outputs.
#[verifier::rlimit(100)]
#[verifier::spinoff_prover]
fn install_gate_rows(store: &mut OptimizedLinkStore, gen: &mut AnchorGen, f: Base, g: GateSet)
    requires
        has_room(old(store), 280),
        old(gen).ok(old(store)),
        f.held(old(store)),
        g.held(old(store)),
        sequence_reads(old(store).links(), g.bit_outputs[0], seq![f.zero]),
        sequence_reads(old(store).links(), g.bit_outputs[1], seq![f.one]),
    ensures
        grown(old(store), final(store), 280),
        final(gen).ok(final(store)),
        gate_truth_tables(final(store).links(), (f.theory, f.o, f.apply), f.zero, f.one, g),
{
    let ghost names = (f.theory, f.o, f.apply);
    let ghost l0 = store.links();
    proof {
        store.lemma_wf_links();
    }
    install_binary_gate(store, gen, f, g.and2, g.bit_outputs, [[0, 0], [0, 1]]);
    let ghost l_and = store.links();
    proof {
        store.lemma_wf_links();
    }
    install_binary_gate(store, gen, f, g.or2, g.bit_outputs, [[0, 1], [1, 1]]);
    let ghost l_or = store.links();
    proof {
        store.lemma_wf_links();
    }
    install_binary_gate(store, gen, f, g.xor2, g.bit_outputs, [[0, 1], [1, 0]]);
    let ghost l_xor = store.links();
    proof {
        store.lemma_wf_links();
        assert([f.zero]@ =~= seq![f.zero]);
        assert([f.one]@ =~= seq![f.one]);
    }
    install_gate_row(store, gen, f.theory, f.o, f.apply, g.not1, &[f.zero], g.bit_outputs[1]);
    let ghost l_not = store.links();
    proof {
        store.lemma_wf_links();
    }
    install_gate_row(store, gen, f.theory, f.o, f.apply, g.not1, &[f.one], g.bit_outputs[0]);
    proof {
        let l = store.links();
        let (z, o) = (f.zero, f.one);
        let out0 = g.bit_outputs[0];
        let out1 = g.bit_outputs[1];
        lemma_sequence_reads_keep(l0, l, out0, seq![z]);
        lemma_sequence_reads_keep(l0, l, out1, seq![o]);
        lemma_gate_row_keep(l_and, l, names, g.and2, seq![z, z], out0);
        lemma_gate_row_keep(l_and, l, names, g.and2, seq![z, o], out0);
        lemma_gate_row_keep(l_and, l, names, g.and2, seq![o, z], out0);
        lemma_gate_row_keep(l_and, l, names, g.and2, seq![o, o], out1);
        lemma_gate_row_keep(l_or, l, names, g.or2, seq![z, z], out0);
        lemma_gate_row_keep(l_or, l, names, g.or2, seq![z, o], out1);
        lemma_gate_row_keep(l_or, l, names, g.or2, seq![o, z], out1);
        lemma_gate_row_keep(l_or, l, names, g.or2, seq![o, o], out1);
        lemma_gate_row_keep(l_xor, l, names, g.xor2, seq![z, z], out0);
        lemma_gate_row_keep(l_xor, l, names, g.xor2, seq![z, o], out1);
        lemma_gate_row_keep(l_xor, l, names, g.xor2, seq![o, z], out1);
        lemma_gate_row_keep(l_xor, l, names, g.xor2, seq![o, o], out0);
        lemma_gate_row_keep(l_not, l, names, g.not1, seq![z], out1);
        reveal(gate_truth_tables);
    }
}

/// Installs AND2, OR2, XOR2 and NOT1 with their truth tables.
#[verifier::rlimit(100)]
fn install_gates(store: &mut OptimizedLinkStore, gen: &mut AnchorGen, f: Base) -> (g: GateSet)
    requires
        has_room(old(store), 400),
        old(gen).ok(old(store)),
        f.held(old(store)),
    ensures
        grown(old(store), final(store), 400),
        final(gen).ok(final(store)),
        g.held(final(store)),
        gate_truth_tables(final(store).links(), (f.theory, f.o, f.apply), f.zero, f.one, g),
{
    let and_left = gen.next(store);
    let and_right = gen.next(store);
    let and2 = pair(store, and_left, and_right);
    let or_left = gen.next(store);
    let or_right = gen.next(store);
    let or2 = pair(store, or_left, or_right);
    let xor_left = gen.next(store);
    let xor_right = gen.next(store);
    let xor2 = pair(store, xor_left, xor_right);
    let not_left = gen.next(store);
    let not_right = gen.next(store);
    let not1 = pair(store, not_left, not_right);
    let out0 = sequence(store, &[f.zero]);
    let ghost l_out0 = store.links();
    proof {
        store.lemma_wf_links();
        assert([f.zero]@ =~= seq![f.zero]);
    }
    let out1 = sequence(store, &[f.one]);
    proof {
        store.lemma_wf_links();
        assert([f.one]@ =~= seq![f.one]);
        lemma_sequence_reads_keep(l_out0, store.links(), out0, seq![f.zero]);
    }
    let g = GateSet { and2, or2, xor2, not1, bit_outputs: [out0, out1] };
    proof {
        assert(all_held(store, g.bit_outputs@)) by {
            assert(g.bit_outputs@ =~= seq![out0, out1]);
        }
    }
    install_gate_rows(store, gen, f, g);
    g
}

/// The Links the word controllers are built from.
#[derive(Clone, Copy)]
struct LogicNames {
    theory: Handle,
    o: Handle,
    apply: Handle,
    word_binary: Handle,
    word_not: Handle,
    result_tag: Handle,
    gates: GateSet,
}

impl LogicNames {
    spec fn held(&self, store: &OptimizedLinkStore) -> bool {
        &&& holds(store, self.theory)
        &&& holds(store, self.o)
        &&& holds(store, self.apply)
        &&& holds(store, self.word_binary)
        &&& holds(store, self.word_not)
        &&& holds(store, self.result_tag)
        &&& self.gates.held(store)
    }
}

/// `WORD_BIN` OPEN: `K -> Call(WORD_BIN, [Gate, Aword, Bword])` becomes
/// `Stage_0([K, Gate, A_1..., B_1...]) -> Call(Gate, [a_0, b_0])`.
#[verifier::rlimit(100)]
fn word_bin_open(store: &mut OptimizedLinkStore, gen: &mut AnchorGen, n: LogicNames, tag0: Handle, width: usize)
    requires
        has_room(old(store), 600),
        old(gen).ok(old(store)),
        n.held(old(store)),
        holds(old(store), tag0),
        8 <= width <= 32,
    ensures
        grown(old(store), final(store), 600),
        final(gen).ok(final(store)),
{
    let w = width;
    // [K, Gate, A..., B...]
    let r = gen.roles(store, 2 * w + 2);
    let k = r[0];
    let gate = r[1];
    let aword = sequence(store, &r.as_slice()[2..2 + w]);
    let bword = sequence(store, &r.as_slice()[2 + w..2 + 2 * w]);
    let args = sequence(store, &[gate, aword, bword]);
    let invocation = call(store, n.apply, n.word_binary, args);
    let before = pair(store, k, invocation);
    let mut state: Vec<Handle> = Vec::new();
    append(&mut state, &r.as_slice()[0..2]);
    append(&mut state, &r.as_slice()[3..2 + w]);
    append(&mut state, &r.as_slice()[3 + w..2 + 2 * w]);
    let caller = stage_frame(store, tag0, state.as_slice());
    let gate_args = sequence(store, &[r[2], r[2 + w]]);
    let gate_call = call(store, n.apply, gate, gate_args);
    let after = pair(store, caller, gate_call);
    proof {
        lemma_increasing_distinct(r@);
    }
    let (_, admission) = define_bundle_rule(store, n.theory, r.as_slice(), before, &[after]);
    index_rule(store, n.o, admission);
}

/// The final continuation of a word controller:
/// `K -> PAIR(ResultTag, [ExactSequence(result_bits)])`.
fn word_result(store: &mut OptimizedLinkStore, n: LogicNames, k: Handle, result_bits: &[Handle]) -> (after: Handle)
    requires
        has_room(old(store), 100),
        n.held(old(store)),
        holds(old(store), k),
        all_held(old(store), result_bits@),
        result_bits@.len() <= 32,
    ensures
        grown(old(store), final(store), 100),
        holds(final(store), after),
{
    let word = sequence(store, result_bits);
    let payload = sequence(store, &[word]);
    let envelope = pair(store, n.result_tag, payload);
    pair(store, k, envelope)
}

/// The continuation to the next bit: `next_tag([head..., a_tail..., b_tail...,
/// previous..., out]) -> Call(gate, args)`.
fn word_next_bit(
    store: &mut OptimizedLinkStore,
    n: LogicNames,
    next_tag: Handle,
    head: &[Handle],
    a_tail: &[Handle],
    b_tail: &[Handle],
    previous: &[Handle],
    out: Handle,
    gate: Handle,
    args: &[Handle],
) -> (after: Handle)
    requires
        has_room(old(store), 200),
        n.held(old(store)),
        holds(old(store), next_tag),
        holds(old(store), out),
        holds(old(store), gate),
        all_held(old(store), head@),
        all_held(old(store), a_tail@),
        all_held(old(store), b_tail@),
        all_held(old(store), previous@),
        all_held(old(store), args@),
        head@.len() + a_tail@.len() + b_tail@.len() + previous@.len() <= 64,
        args@.len() <= 2,
    ensures
        grown(old(store), final(store), 200),
        holds(final(store), after),
{
    let mut next_state: Vec<Handle> = Vec::new();
    append(&mut next_state, head);
    append(&mut next_state, a_tail);
    append(&mut next_state, b_tail);
    append(&mut next_state, previous);
    next_state.push(out);
    let next_caller = stage_frame(store, next_tag, next_state.as_slice());
    let next_args = sequence(store, args);
    let next_call = call(store, n.apply, gate, next_args);
    pair(store, next_caller, next_call)
}

/// `WORD_BIN` bit `i`: `Stage_i([K, Gate, A_rem..., B_rem..., Prev...]) -> [out]`
/// becomes the next gate call, or after the last bit the result word.
#[verifier::rlimit(100)]
fn word_bin_bit(
    store: &mut OptimizedLinkStore,
    gen: &mut AnchorGen,
    n: LogicNames,
    tag: Handle,
    next_tag: Handle,
    width: usize,
    i: usize,
)
    requires
        has_room(old(store), 600),
        old(gen).ok(old(store)),
        n.held(old(store)),
        holds(old(store), tag),
        holds(old(store), next_tag),
        8 <= width <= 32,
        i < width,
    ensures
        grown(old(store), final(store), 600),
        final(gen).ok(final(store)),
{
    let remaining = width - i - 1;
    let count = 2 + 2 * remaining + i + 1;
    // [K, Gate, a_rem..., b_rem..., previous..., out]
    let r = gen.roles(store, count);
    let k = r[0];
    let gate = r[1];
    let out = r[count - 1];
    let prev_start = 2 + 2 * remaining;
    let caller = stage_frame(store, tag, &r.as_slice()[0..count - 1]);
    let gate_result = sequence(store, &[out]);
    let before = pair(store, caller, gate_result);
    let after = if i + 1 < width {
        word_next_bit(
            store,
            n,
            next_tag,
            &r.as_slice()[0..2],
            &r.as_slice()[3..2 + remaining],
            &r.as_slice()[3 + remaining..prev_start],
            &r.as_slice()[prev_start..count - 1],
            out,
            gate,
            &[r[2], r[2 + remaining]],
        )
    } else {
        word_result(store, n, k, &r.as_slice()[prev_start..count])
    };
    proof {
        lemma_increasing_distinct(r@);
    }
    let (_, admission) = define_bundle_rule(store, n.theory, r.as_slice(), before, &[after]);
    index_rule_for(store, &n.gates.bit_outputs, admission);
}

/// `WORD_NOT` OPEN: `K -> Call(WORD_NOT, [Aword])` becomes
/// `Unary_0([K, A_1...]) -> Call(NOT1, [a_0])`.
#[verifier::rlimit(100)]
fn word_not_open(store: &mut OptimizedLinkStore, gen: &mut AnchorGen, n: LogicNames, tag0: Handle, width: usize)
    requires
        has_room(old(store), 600),
        old(gen).ok(old(store)),
        n.held(old(store)),
        holds(old(store), tag0),
        8 <= width <= 32,
    ensures
        grown(old(store), final(store), 600),
        final(gen).ok(final(store)),
{
    let w = width;
    // [K, A...]
    let r = gen.roles(store, w + 1);
    let k = r[0];
    let aword = sequence(store, &r.as_slice()[1..1 + w]);
    let args = sequence(store, &[aword]);
    let invocation = call(store, n.apply, n.word_not, args);
    let before = pair(store, k, invocation);
    let mut state: Vec<Handle> = Vec::new();
    state.push(k);
    append(&mut state, &r.as_slice()[2..1 + w]);
    let caller = stage_frame(store, tag0, state.as_slice());
    let not_args = sequence(store, &[r[1]]);
    let not_call = call(store, n.apply, n.gates.not1, not_args);
    let after = pair(store, caller, not_call);
    proof {
        lemma_increasing_distinct(r@);
    }
    let (_, admission) = define_bundle_rule(store, n.theory, r.as_slice(), before, &[after]);
    index_rule(store, n.o, admission);
}

/// `WORD_NOT` bit `i`: `Unary_i([K, A_rem..., Prev...]) -> [out]` becomes
/// the next NOT1 call, or after the last bit the result word.
#[verifier::rlimit(100)]
fn word_not_bit(
    store: &mut OptimizedLinkStore,
    gen: &mut AnchorGen,
    n: LogicNames,
    tag: Handle,
    next_tag: Handle,
    width: usize,
    i: usize,
)
    requires
        has_room(old(store), 600),
        old(gen).ok(old(store)),
        n.held(old(store)),
        holds(old(store), tag),
        holds(old(store), next_tag),
        8 <= width <= 32,
        i < width,
    ensures
        grown(old(store), final(store), 600),
        final(gen).ok(final(store)),
{
    let remaining = width - i - 1;
    let count = 1 + remaining + i + 1;
    // [K, a_rem..., previous..., out]
    let r = gen.roles(store, count);
    let k = r[0];
    let out = r[count - 1];
    let prev_start = 1 + remaining;
    let caller = stage_frame(store, tag, &r.as_slice()[0..count - 1]);
    let not_result = sequence(store, &[out]);
    let before = pair(store, caller, not_result);
    let after = if i + 1 < width {
        word_next_bit(
            store,
            n,
            next_tag,
            &r.as_slice()[0..1],
            &r.as_slice()[2..prev_start],
            &r.as_slice()[prev_start..prev_start],
            &r.as_slice()[prev_start..count - 1],
            out,
            n.gates.not1,
            &[r[1]],
        )
    } else {
        word_result(store, n, k, &r.as_slice()[prev_start..count])
    };
    proof {
        lemma_increasing_distinct(r@);
    }
    let (_, admission) = define_bundle_rule(store, n.theory, r.as_slice(), before, &[after]);
    index_rule_for(store, &n.gates.bit_outputs, admission);
}

/// The per-bit continuations of both controllers.
#[verifier::rlimit(100)]
fn logic_bits(
    store: &mut OptimizedLinkStore,
    gen: &mut AnchorGen,
    n: LogicNames,
    tags: &Vec<Handle>,
    binary: bool,
    width: usize,
)
    requires
        has_room(old(store), 600 * width as nat),
        old(gen).ok(old(store)),
        n.held(old(store)),
        8 <= width <= 32,
        tags@.len() == width,
        all_held(old(store), tags@),
    ensures
        grown(old(store), final(store), 600 * width as nat),
        final(gen).ok(final(store)),
{
    let mut i: usize = 0;
    while i < width
        invariant
            i <= width,
            8 <= width <= 32,
            has_room(old(store), 600 * width as nat),
            grown(old(store), store, 600 * i as nat),
            gen.ok(store),
            n.held(store),
            tags@.len() == width,
            all_held(store, tags@),
        decreases width - i,
    {
        let next_tag = if i + 1 < width {
            tags[i + 1]
        } else {
            tags[i]
        };
        if binary {
            word_bin_bit(store, gen, n, tags[i], next_tag, width, i);
        } else {
            word_not_bit(store, gen, n, tags[i], next_tag, width, i);
        }
        i += 1;
    }
}

/// The installed word logic program.
pub struct LogicProgram {
    pub width: usize,
    pub word_binary: Handle,
    pub word_not: Handle,
    pub result_tag: Handle,
    pub gates: GateSet,
    pub binary_steps: usize,
    pub unary_steps: usize,
    pub links_after_build: usize,
}

impl LogicProgram {
    /// Installs the gates and the two `width`-bit word controllers.
    /// `K -> Call(WORD_BIN, [Gate, Aword, Bword])` and
    /// `K -> Call(WORD_NOT, [Aword])` each react in `1 + 2 * width` steps to
    /// `K -> PAIR(ResultTag, [Word])`, applying that gate to each bit.
    #[verifier::rlimit(100)]
    pub fn install(f: &mut Fixture, width: usize) -> (p: LogicProgram)
        requires
            old(f).wf(),
            8 <= width <= 32,
            has_room(&old(f).store, 60000),
        ensures
            final(f).wf(),
            grown(&old(f).store, &final(f).store, 60000),
            final(f).engine == old(f).engine,
            final(f).o == old(f).o && final(f).c == old(f).c && final(f).theory == old(f).theory,
            final(f).full == old(f).full && final(f).k == old(f).k && final(f).apply == old(f).apply,
            final(f).zero == old(f).zero && final(f).one == old(f).one && final(f).args3 == old(f).args3,
            p.width == width,
            p.binary_steps == 1 + 2 * width,
            p.unary_steps == 1 + 2 * width,
            p.links_after_build == final(f).store.links().len() - 1,
            p.word_binary != p.word_not && p.word_binary != p.result_tag && p.word_not != p.result_tag,
            holds(&final(f).store, p.word_binary),
            holds(&final(f).store, p.word_not),
            holds(&final(f).store, p.result_tag),
            p.gates.held(&final(f).store),
            gate_truth_tables(final(f).store.links(), (final(f).theory, final(f).o, final(f).apply), final(f).zero, final(f).one, p.gates),
    {
        let seed0 = pair(&mut f.store, f.k, f.full);
        let mut gen = logic_anchors(&mut f.store, seed0, f.o, f.c, width);
        let base = Base { theory: f.theory, o: f.o, apply: f.apply, zero: f.zero, one: f.one };
        let gates = install_gates(&mut f.store, &mut gen, base);
        let ghost l_gates = f.store.links();
        proof {
            f.store.lemma_wf_links();
        }
        let word_binary = gen.function_pair(&mut f.store);
        let ghost l_word_binary = f.store.links();
        let ghost g_word_binary = gen.current;
        let word_not = gen.function_pair(&mut f.store);
        let ghost l_word_not = f.store.links();
        let ghost g_word_not = gen.current;
        let result_tag = gen.function_pair(&mut f.store);
        let ghost l_result_tag = f.store.links();
        let ghost g_result_tag = gen.current;
        proof {
            lemma_functions_differ(l_word_binary, l_word_not, word_binary, word_not, g_word_binary);
            lemma_extends_trans(l_word_binary, l_word_not, l_result_tag);
            lemma_functions_differ(l_word_binary, l_result_tag, word_binary, result_tag, g_word_binary);
            lemma_functions_differ(l_word_not, l_result_tag, word_not, result_tag, g_word_not);
        }
        let (binary_tags, unary_tags) = bit_tags(&mut f.store, &mut gen, width);
        let n = LogicNames { theory: f.theory, o: f.o, apply: f.apply, word_binary, word_not, result_tag, gates };
        // One generic controller for every binary gate: which gate to apply is a role.
        word_bin_open(&mut f.store, &mut gen, n, binary_tags[0], width);
        logic_bits(&mut f.store, &mut gen, n, &binary_tags, true, width);
        word_not_open(&mut f.store, &mut gen, n, unary_tags[0], width);
        logic_bits(&mut f.store, &mut gen, n, &unary_tags, false, width);
        proof {
            f.store.lemma_wf_links();
            lemma_gate_truth_tables_keep(l_gates, f.store.links(), (f.theory, f.o, f.apply), f.zero, f.one, gates);
        }
        let links_after_build = f.store.link_count();
        LogicProgram {
            width,
            word_binary,
            word_not,
            result_tag,
            gates,
            binary_steps: 1 + 2 * width,
            unary_steps: 1 + 2 * width,
            links_after_build,
        }
    }
}


/// AND2, OR2, XOR2 and NOT1 on their own, with their truth
/// tables, at the anchors that `LogicProgram::install(f, 32)` gives them, so
/// the two share their gates.
pub fn install_gate_basis(f: &mut Fixture) -> (g: GateSet)
    requires
        old(f).wf(),
        has_room(&old(f).store, 600),
    ensures
        final(f).wf(),
        grown(&old(f).store, &final(f).store, 600),
        final(f).engine == old(f).engine,
        final(f).o == old(f).o && final(f).c == old(f).c && final(f).theory == old(f).theory,
        final(f).full == old(f).full && final(f).k == old(f).k && final(f).apply == old(f).apply,
        final(f).zero == old(f).zero && final(f).one == old(f).one && final(f).args3 == old(f).args3,
        g.held(&final(f).store),
        gate_truth_tables(final(f).store.links(), (final(f).theory, final(f).o, final(f).apply), final(f).zero, final(f).one, g),
{
    let seed0 = pair(&mut f.store, f.k, f.full);
    let mut gen = logic_anchors(&mut f.store, seed0, f.o, f.c, 32);
    let base = Base { theory: f.theory, o: f.o, apply: f.apply, zero: f.zero, one: f.one };
    let g = install_gates(&mut f.store, &mut gen, base);
    proof {
        f.store.lemma_wf_links();
    }
    g
}

} // verus!
