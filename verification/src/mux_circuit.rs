//! The multiplexer. MUX1 stands twice: as one direct truth-table rule per
//! select value, and composed from the bit gates as `a XOR (s AND (a XOR b))`.
//! MUX32 selects a whole word through 32 composed MUX1 calls.
use vstd::prelude::*;

use crate::arith_circuit::{all_held, append, AnchorGen};
use crate::circuit::{
    admits_rule, call, call_shape, define_bundle_rule, grown, has_room, holds, index_rule_for, indexed_under,
    keeps, lemma_admits_rule_keep, lemma_call_shape_keep, lemma_functions_differ, lemma_increasing_distinct,
    lemma_indexed_keep, lemma_sequence_reads_keep, lemma_tagged_shape_keep, pair, sequence, stage_frame,
    tagged_shape, Fixture,
};
use crate::model::{links_wf, Links};
use crate::model::lemma_extends_trans;
use crate::flags_circuit::pair_tags;
use crate::logic_circuit::{gate_truth_tables, install_gate_basis, lemma_gate_truth_tables_keep, GateSet};
use crate::store::OptimizedLinkStore;
use crate::Handle;

verus! {

/// The word width of MUX32.
pub const MUX_WIDTH: usize = 32;

/// The anchors of the multiplexer: `seed` followed by the poles
/// `o c o o c o c c o c c c o`.
pub(crate) fn mux_anchors(store: &mut OptimizedLinkStore, seed: Handle, o: Handle, c: Handle) -> (g: AnchorGen)
    requires
        has_room(old(store), 13),
        holds(old(store), seed),
        holds(old(store), o),
        holds(old(store), c),
    ensures
        grown(old(store), final(store), 13),
        g.ok(final(store)),
{
    let poles = [o, c, o, o, c, o, c, c, o, c, c, c, o];
    let mut current = seed;
    let mut i: usize = 0;
    while i < 13
        invariant
            i <= 13,
            poles@.len() == 13,
            grown(old(store), store, i as nat),
            has_room(old(store), 13),
            holds(store, current),
            forall|j: int| 0 <= j < 13 ==> holds(old(store), #[trigger] poles@[j]),
        decreases 13 - i,
    {
        current = pair(store, current, poles[i]);
        i += 1;
    }
    AnchorGen { current, flip: false, o, c }
}

/// The Links the multiplexer rules are built from.
#[derive(Clone, Copy)]
struct MuxNames {
    theory: Handle,
    o: Handle,
    apply: Handle,
    zero: Handle,
    one: Handle,
    direct_mux1: Handle,
    mux1: Handle,
    mux32: Handle,
    bit_result_tag: Handle,
    word_result_tag: Handle,
    xor_ab_tag: Handle,
    and_s_tag: Handle,
    xor_out_tag: Handle,
    gates: GateSet,
}

impl MuxNames {
    spec fn held(&self, store: &OptimizedLinkStore) -> bool {
        &&& holds(store, self.theory)
        &&& holds(store, self.o)
        &&& holds(store, self.apply)
        &&& holds(store, self.zero)
        &&& holds(store, self.one)
        &&& holds(store, self.direct_mux1)
        &&& holds(store, self.mux1)
        &&& holds(store, self.mux32)
        &&& holds(store, self.bit_result_tag)
        &&& holds(store, self.word_result_tag)
        &&& holds(store, self.xor_ab_tag)
        &&& holds(store, self.and_s_tag)
        &&& holds(store, self.xor_out_tag)
        &&& self.gates.held(store)
    }
}

/// `Call(function, [a, b])`.
fn binary_call(store: &mut OptimizedLinkStore, apply: Handle, function: Handle, a: Handle, b: Handle) -> (h: Handle)
    requires
        has_room(old(store), 6),
        holds(old(store), apply),
        holds(old(store), function),
        holds(old(store), a),
        holds(old(store), b),
    ensures
        grown(old(store), final(store), 6),
        holds(final(store), h),
{
    let args = sequence(store, &[a, b]);
    call(store, apply, function, args)
}

/// The direct MUX1 row for `select` stands in `links` as the rule admitted
/// by `theory` through `admission`, indexed under `key`, with roles `K`, `A`,
/// `B`: it rewrites `before`, that is `K -> Call(function, [select, A, B])`,
/// into `after`, that is `K -> PAIR(tag, [A])`, or `K -> PAIR(tag, [B])`
/// when `choose_b`.
pub open spec fn direct_row_at(
    links: Links,
    theory: u32,
    key: u32,
    apply: u32,
    function: u32,
    select: u32,
    tag: u32,
    choose_b: bool,
    w: (u32, u32, u32, u32, u32, u32),
) -> bool {
    let (admission, k, a, b, before, after) = w;
    &&& admits_rule(links, theory, admission, seq![k, a, b], before, seq![after])
    &&& indexed_under(links, key, admission)
    &&& call_shape(links, before, k, apply, function, seq![select, a, b])
    &&& tagged_shape(links, after, k, tag, seq![if choose_b { b } else { a }])
}

/// Some direct MUX1 row for `select` stands in `links` (see `direct_row_at`).
#[verifier::opaque]
pub open spec fn direct_row_rule(
    links: Links,
    theory: u32,
    key: u32,
    apply: u32,
    function: u32,
    select: u32,
    tag: u32,
    choose_b: bool,
) -> bool {
    exists|w: (u32, u32, u32, u32, u32, u32)| #[trigger] direct_row_at(links, theory, key, apply, function, select, tag, choose_b, w)
}

/// A direct MUX1 row stays in place after more Links.
pub proof fn lemma_direct_row_keep(
    l1: Links,
    l2: Links,
    theory: u32,
    key: u32,
    apply: u32,
    function: u32,
    select: u32,
    tag: u32,
    choose_b: bool,
)
    requires
        links_wf(l1),
        keeps(l1, l2),
        direct_row_rule(l1, theory, key, apply, function, select, tag, choose_b),
    ensures
        direct_row_rule(l2, theory, key, apply, function, select, tag, choose_b),
{
    reveal(direct_row_rule);
    let w = choose|w: (u32, u32, u32, u32, u32, u32)| #[trigger] direct_row_at(l1, theory, key, apply, function, select, tag, choose_b, w);
    let (admission, k, a, b, before, after) = w;
    lemma_admits_rule_keep(l1, l2, theory, admission, seq![k, a, b], before, seq![after]);
    lemma_indexed_keep(l1, l2, key, admission);
    lemma_call_shape_keep(l1, l2, before, k, apply, function, seq![select, a, b]);
    lemma_tagged_shape_keep(l1, l2, after, k, tag, seq![if choose_b { b } else { a }]);
    assert(direct_row_at(l2, theory, key, apply, function, select, tag, choose_b, w));
}

/// One direct MUX1 row:
/// `K -> Call(DIRECT_MUX1, [select, A, B])` becomes `K -> PAIR(BitResultTag, [selected])`.
#[verifier::rlimit(100)]
fn direct_row(store: &mut OptimizedLinkStore, gen: &mut AnchorGen, n: MuxNames, select: Handle, choose_b: bool)
    requires
        has_room(old(store), 60),
        old(gen).ok(old(store)),
        n.held(old(store)),
        holds(old(store), select),
    ensures
        grown(old(store), final(store), 60),
        final(gen).ok(final(store)),
        direct_row_rule(final(store).links(), n.theory, n.o, n.apply, n.direct_mux1, select, n.bit_result_tag, choose_b),
{
    let r = gen.roles(store, 3);
    let k = r[0];
    let a = r[1];
    let b = r[2];
    let args = sequence(store, &[select, a, b]);
    let ghost l_args = store.links();
    proof {
        store.lemma_wf_links();
        assert([select, a, b]@ =~= seq![select, a, b]);
    }
    let target = pair(store, n.direct_mux1, args);
    let invocation = pair(store, n.apply, target);
    let before = pair(store, k, invocation);
    let selected = if choose_b {
        b
    } else {
        a
    };
    let payload = sequence(store, &[selected]);
    let ghost l_payload = store.links();
    proof {
        store.lemma_wf_links();
        assert([selected]@ =~= seq![selected]);
    }
    let endpoint = pair(store, n.bit_result_tag, payload);
    let after = pair(store, k, endpoint);
    let ghost l_shapes = store.links();
    proof {
        lemma_increasing_distinct(r@);
        store.lemma_wf_links();
        assert(r@ =~= seq![k, a, b]);
        lemma_sequence_reads_keep(l_args, l_shapes, args, seq![select, a, b]);
        lemma_sequence_reads_keep(l_payload, l_shapes, payload, seq![selected]);
        assert(call_shape(l_shapes, before, k, n.apply, n.direct_mux1, seq![select, a, b]));
        assert(tagged_shape(l_shapes, after, k, n.bit_result_tag, seq![selected]));
    }
    let (_, admission) = define_bundle_rule(store, n.theory, r.as_slice(), before, &[after]);
    let ghost l_rule = store.links();
    proof {
        store.lemma_wf_links();
        assert(seq![after] =~= [after]@);
    }
    index_rule_for(store, &[n.o], admission);
    proof {
        store.lemma_wf_links();
        assert([n.o]@[0] == n.o);
        lemma_admits_rule_keep(l_rule, store.links(), n.theory, admission, seq![k, a, b], before, seq![after]);
        lemma_call_shape_keep(l_shapes, store.links(), before, k, n.apply, n.direct_mux1, seq![select, a, b]);
        lemma_tagged_shape_keep(l_shapes, store.links(), after, k, n.bit_result_tag, seq![selected]);
        assert(admits_rule(store.links(), n.theory, admission, seq![k, a, b], before, seq![after]));
        assert(direct_row_at(
            store.links(),
            n.theory,
            n.o,
            n.apply,
            n.direct_mux1,
            select,
            n.bit_result_tag,
            choose_b,
            (admission, k, a, b, before, after),
        ));
        reveal(direct_row_rule);
    }
}

/// Composed MUX1 opens with XOR2:
/// `K -> Call(MUX1, [S, A, B])` becomes `XorAbFrame([K, S, A]) -> Call(XOR2, [A, B])`.
#[verifier::rlimit(100)]
fn mux1_open(store: &mut OptimizedLinkStore, gen: &mut AnchorGen, n: MuxNames)
    requires
        has_room(old(store), 80),
        old(gen).ok(old(store)),
        n.held(old(store)),
    ensures
        grown(old(store), final(store), 80),
        final(gen).ok(final(store)),
{
    let r = gen.roles(store, 4);
    let k = r[0];
    let s = r[1];
    let a = r[2];
    let b = r[3];
    let args = sequence(store, &[s, a, b]);
    let invocation = call(store, n.apply, n.mux1, args);
    let before = pair(store, k, invocation);
    let caller = stage_frame(store, n.xor_ab_tag, &[k, s, a]);
    let xor_call = binary_call(store, n.apply, n.gates.xor2, a, b);
    let after = pair(store, caller, xor_call);
    proof {
        lemma_increasing_distinct(r@);
    }
    let (_, admission) = define_bundle_rule(store, n.theory, r.as_slice(), before, &[after]);
    index_rule_for(store, &[n.o], admission);
}

/// `XorAbFrame([K, S, A]) -> [X]` becomes `AndSFrame([K, A]) -> Call(AND2, [S, X])`.
#[verifier::rlimit(100)]
fn mux1_xor_result(store: &mut OptimizedLinkStore, gen: &mut AnchorGen, n: MuxNames)
    requires
        has_room(old(store), 80),
        old(gen).ok(old(store)),
        n.held(old(store)),
    ensures
        grown(old(store), final(store), 80),
        final(gen).ok(final(store)),
{
    let r = gen.roles(store, 4);
    let k = r[0];
    let s = r[1];
    let a = r[2];
    let x = r[3];
    let caller = stage_frame(store, n.xor_ab_tag, &[k, s, a]);
    let x_result = sequence(store, &[x]);
    let before = pair(store, caller, x_result);
    let next_caller = stage_frame(store, n.and_s_tag, &[k, a]);
    let and_call = binary_call(store, n.apply, n.gates.and2, s, x);
    let after = pair(store, next_caller, and_call);
    proof {
        lemma_increasing_distinct(r@);
    }
    let (_, admission) = define_bundle_rule(store, n.theory, r.as_slice(), before, &[after]);
    index_rule_for(store, &n.gates.bit_outputs, admission);
}

/// `AndSFrame([K, A]) -> [Y]` becomes `XorOutFrame([K]) -> Call(XOR2, [A, Y])`.
#[verifier::rlimit(100)]
fn mux1_and_result(store: &mut OptimizedLinkStore, gen: &mut AnchorGen, n: MuxNames)
    requires
        has_room(old(store), 80),
        old(gen).ok(old(store)),
        n.held(old(store)),
    ensures
        grown(old(store), final(store), 80),
        final(gen).ok(final(store)),
{
    let r = gen.roles(store, 3);
    let k = r[0];
    let a = r[1];
    let y = r[2];
    let caller = stage_frame(store, n.and_s_tag, &[k, a]);
    let y_result = sequence(store, &[y]);
    let before = pair(store, caller, y_result);
    let next_caller = stage_frame(store, n.xor_out_tag, &[k]);
    let xor_call = binary_call(store, n.apply, n.gates.xor2, a, y);
    let after = pair(store, next_caller, xor_call);
    proof {
        lemma_increasing_distinct(r@);
    }
    let (_, admission) = define_bundle_rule(store, n.theory, r.as_slice(), before, &[after]);
    index_rule_for(store, &n.gates.bit_outputs, admission);
}

/// `XorOutFrame([K]) -> [Out]` becomes `K -> PAIR(BitResultTag, [Out])`.
#[verifier::rlimit(100)]
fn mux1_finish(store: &mut OptimizedLinkStore, gen: &mut AnchorGen, n: MuxNames)
    requires
        has_room(old(store), 60),
        old(gen).ok(old(store)),
        n.held(old(store)),
    ensures
        grown(old(store), final(store), 60),
        final(gen).ok(final(store)),
{
    let r = gen.roles(store, 2);
    let k = r[0];
    let out = r[1];
    let caller = stage_frame(store, n.xor_out_tag, &[k]);
    let out_result = sequence(store, &[out]);
    let before = pair(store, caller, out_result);
    let payload = sequence(store, &[out]);
    let endpoint = pair(store, n.bit_result_tag, payload);
    let after = pair(store, k, endpoint);
    proof {
        lemma_increasing_distinct(r@);
    }
    let (_, admission) = define_bundle_rule(store, n.theory, r.as_slice(), before, &[after]);
    index_rule_for(store, &n.gates.bit_outputs, admission);
}

/// MUX32 opens on bit 0: `K -> Call(MUX32, [S, Aword, Bword])` becomes
/// `WordFrame_0([K, S, a_1.., b_1..]) -> Call(MUX1, [S, a_0, b_0])`.
#[verifier::rlimit(100)]
fn mux32_open(store: &mut OptimizedLinkStore, gen: &mut AnchorGen, n: MuxNames, tag0: Handle)
    requires
        has_room(old(store), 700),
        old(gen).ok(old(store)),
        n.held(old(store)),
        holds(old(store), tag0),
    ensures
        grown(old(store), final(store), 700),
        final(gen).ok(final(store)),
{
    // [K, S, a_0 .. a_31, b_0 .. b_31]
    let r = gen.roles(store, 2 + 2 * MUX_WIDTH);
    let k = r[0];
    let s = r[1];
    let aword = sequence(store, &r.as_slice()[2..2 + MUX_WIDTH]);
    let bword = sequence(store, &r.as_slice()[2 + MUX_WIDTH..2 + 2 * MUX_WIDTH]);
    let args = sequence(store, &[s, aword, bword]);
    let invocation = call(store, n.apply, n.mux32, args);
    let before = pair(store, k, invocation);
    let mut state: Vec<Handle> = Vec::new();
    state.push(k);
    state.push(s);
    append(&mut state, &r.as_slice()[3..2 + MUX_WIDTH]);
    append(&mut state, &r.as_slice()[3 + MUX_WIDTH..2 + 2 * MUX_WIDTH]);
    let caller = stage_frame(store, tag0, state.as_slice());
    let mux_args = sequence(store, &[s, r[2], r[2 + MUX_WIDTH]]);
    let mux_call = call(store, n.apply, n.mux1, mux_args);
    let after = pair(store, caller, mux_call);
    proof {
        lemma_increasing_distinct(r@);
    }
    let (_, admission) = define_bundle_rule(store, n.theory, r.as_slice(), before, &[after]);
    index_rule_for(store, &[n.o], admission);
}

/// The continuation to the next bit:
/// `WordFrame_next([K, S, a_tail.., b_tail.., results..]) -> Call(MUX1, [S, a_next, b_next])`.
#[verifier::rlimit(100)]
fn mux32_next_bit(
    store: &mut OptimizedLinkStore,
    n: MuxNames,
    next_tag: Handle,
    k: Handle,
    s: Handle,
    a_tail: &[Handle],
    b_tail: &[Handle],
    results: &[Handle],
    a_next: Handle,
    b_next: Handle,
) -> (after: Handle)
    requires
        has_room(old(store), 200),
        n.held(old(store)),
        holds(old(store), next_tag),
        holds(old(store), k),
        holds(old(store), s),
        holds(old(store), a_next),
        holds(old(store), b_next),
        all_held(old(store), a_tail@),
        all_held(old(store), b_tail@),
        all_held(old(store), results@),
        a_tail@.len() + b_tail@.len() + results@.len() <= 64,
    ensures
        grown(old(store), final(store), 200),
        holds(final(store), after),
{
    let mut next_state: Vec<Handle> = Vec::new();
    next_state.push(k);
    next_state.push(s);
    append(&mut next_state, a_tail);
    append(&mut next_state, b_tail);
    append(&mut next_state, results);
    let next_caller = stage_frame(store, next_tag, next_state.as_slice());
    let mux_args = sequence(store, &[s, a_next, b_next]);
    let mux_call = call(store, n.apply, n.mux1, mux_args);
    pair(store, next_caller, mux_call)
}

/// The end of the word: `K -> PAIR(WordResultTag, [Word])`.
#[verifier::rlimit(100)]
fn mux32_word_result(store: &mut OptimizedLinkStore, n: MuxNames, k: Handle, results: &[Handle]) -> (after: Handle)
    requires
        has_room(old(store), 200),
        n.held(old(store)),
        holds(old(store), k),
        all_held(old(store), results@),
        results@.len() <= 32,
    ensures
        grown(old(store), final(store), 200),
        holds(final(store), after),
{
    let word = sequence(store, results);
    let payload = sequence(store, &[word]);
    let endpoint = pair(store, n.word_result_tag, payload);
    pair(store, k, endpoint)
}

/// Bit `i` of MUX32 returned:
/// `WordFrame_i([K, S, a_rem.., b_rem.., previous..]) -> PAIR(BitResultTag, [Out])`
/// becomes the call for bit `i + 1`, or, after the last bit, the word result.
#[verifier::rlimit(100)]
fn mux32_bit(
    store: &mut OptimizedLinkStore,
    gen: &mut AnchorGen,
    n: MuxNames,
    tag: Handle,
    next_tag: Handle,
    i: usize,
)
    requires
        has_room(old(store), 700),
        old(gen).ok(old(store)),
        n.held(old(store)),
        holds(old(store), tag),
        holds(old(store), next_tag),
        i < MUX_WIDTH,
    ensures
        grown(old(store), final(store), 700),
        final(gen).ok(final(store)),
{
    let remaining = MUX_WIDTH - i - 1;
    let count = 3 + 2 * remaining + i;
    // [K, S, a_rem.., b_rem.., previous.., Out]
    let r = gen.roles(store, count);
    let k = r[0];
    let s = r[1];
    let out = r[count - 1];
    let prev_start = 2 + 2 * remaining;
    let caller = stage_frame(store, tag, &r.as_slice()[0..count - 1]);
    let bit_payload = sequence(store, &[out]);
    let bit_endpoint = pair(store, n.bit_result_tag, bit_payload);
    let before = pair(store, caller, bit_endpoint);
    let after = if i + 1 < MUX_WIDTH {
        mux32_next_bit(
            store,
            n,
            next_tag,
            k,
            s,
            &r.as_slice()[3..2 + remaining],
            &r.as_slice()[3 + remaining..prev_start],
            &r.as_slice()[prev_start..count],
            r[2],
            r[2 + remaining],
        )
    } else {
        mux32_word_result(store, n, k, &r.as_slice()[prev_start..count])
    };
    proof {
        lemma_increasing_distinct(r@);
    }
    let (_, admission) = define_bundle_rule(store, n.theory, r.as_slice(), before, &[after]);
    index_rule_for(store, &[n.bit_result_tag], admission);
}

/// The rules of every bit of MUX32.
fn mux32_bits(store: &mut OptimizedLinkStore, gen: &mut AnchorGen, n: MuxNames, tags: &Vec<Handle>)
    requires
        has_room(old(store), 700 * MUX_WIDTH as nat),
        old(gen).ok(old(store)),
        n.held(old(store)),
        tags@.len() == MUX_WIDTH,
        all_held(old(store), tags@),
    ensures
        grown(old(store), final(store), 700 * MUX_WIDTH as nat),
        final(gen).ok(final(store)),
{
    let mut i: usize = 0;
    while i < MUX_WIDTH
        invariant
            i <= MUX_WIDTH,
            has_room(old(store), 700 * MUX_WIDTH as nat),
            grown(old(store), store, 700 * i as nat),
            gen.ok(store),
            n.held(store),
            tags@.len() == MUX_WIDTH,
            all_held(store, tags@),
        decreases MUX_WIDTH - i,
    {
        let next_tag = if i + 1 < MUX_WIDTH {
            tags[i + 1]
        } else {
            tags[i]
        };
        mux32_bit(store, gen, n, tags[i], next_tag, i);
        i += 1;
    }
}

/// The installed multiplexer program.
#[derive(Clone)]
pub struct MuxProgram {
    pub direct_mux1: Handle,
    pub mux1: Handle,
    pub mux32: Handle,
    pub bit_result_tag: Handle,
    pub word_result_tag: Handle,
    pub gates: GateSet,
    pub direct_steps: usize,
    pub mux1_steps: usize,
    pub mux32_steps: usize,
    pub links_after_build: usize,
}

/// The composed MUX1 and the MUX32 rules.
#[verifier::rlimit(100)]
fn install_mux_composed(store: &mut OptimizedLinkStore, gen: &mut AnchorGen, n: MuxNames)
    requires
        has_room(old(store), 23496),
        old(gen).ok(old(store)),
        n.held(old(store)),
    ensures
        grown(old(store), final(store), 23496),
{
    mux1_open(store, gen, n);
    mux1_xor_result(store, gen, n);
    mux1_and_result(store, gen, n);
    mux1_finish(store, gen, n);
    let word_tags = pair_tags(store, gen, MUX_WIDTH);
    mux32_open(store, gen, n, word_tags[0]);
    mux32_bits(store, gen, n, &word_tags);
}

/// Every multiplexer rule; the direct rows select A on zero and B on one.
#[verifier::rlimit(100)]
fn install_mux_rules(store: &mut OptimizedLinkStore, gen: &mut AnchorGen, n: MuxNames)
    requires
        has_room(old(store), 23616),
        old(gen).ok(old(store)),
        n.held(old(store)),
    ensures
        grown(old(store), final(store), 23616),
        direct_row_rule(final(store).links(), n.theory, n.o, n.apply, n.direct_mux1, n.zero, n.bit_result_tag, false),
        direct_row_rule(final(store).links(), n.theory, n.o, n.apply, n.direct_mux1, n.one, n.bit_result_tag, true),
{
    direct_row(store, gen, n, n.zero, false);
    let ghost l_zero = store.links();
    proof {
        store.lemma_wf_links();
    }
    direct_row(store, gen, n, n.one, true);
    let ghost l_one = store.links();
    proof {
        store.lemma_wf_links();
    }
    install_mux_composed(store, gen, n);
    proof {
        lemma_direct_row_keep(l_zero, store.links(), n.theory, n.o, n.apply, n.direct_mux1, n.zero, n.bit_result_tag, false);
        lemma_direct_row_keep(l_one, store.links(), n.theory, n.o, n.apply, n.direct_mux1, n.one, n.bit_result_tag, true);
    }
}

impl MuxProgram {
    /// Installs AND2, OR2, XOR2, NOT1 and the multiplexer built on them.
    /// `K -> Call(DIRECT_MUX1, [S, A, B])` reacts in one step, and
    /// `K -> Call(MUX1, [S, A, B])` in seven, to `K -> PAIR(BitResultTag, [A or B])`;
    /// `K -> Call(MUX32, [S, Aword, Bword])` reacts in `1 + 32 * 8` steps to
    /// `K -> PAIR(WordResultTag, [Aword or Bword])`, B when S is one.
    /// The contract states the two direct rows as installed rules
    /// (`direct_row_rule`) and the gates' Boolean tables.
    #[verifier::spinoff_prover]
    #[verifier::rlimit(100)]
    pub fn install(f: &mut Fixture) -> (p: MuxProgram)
        requires
            old(f).wf(),
            has_room(&old(f).store, 30000),
        ensures
            final(f).wf(),
            grown(&old(f).store, &final(f).store, 30000),
            final(f).engine == old(f).engine,
            final(f).o == old(f).o && final(f).c == old(f).c && final(f).theory == old(f).theory,
            final(f).full == old(f).full && final(f).k == old(f).k && final(f).apply == old(f).apply,
            final(f).zero == old(f).zero && final(f).one == old(f).one && final(f).args3 == old(f).args3,
            p.direct_steps == 1,
            p.mux1_steps == 7,
            p.mux32_steps == 1 + 8 * MUX_WIDTH,
            p.direct_mux1 != p.mux1 && p.direct_mux1 != p.mux32 && p.mux1 != p.mux32,
            p.links_after_build == final(f).store.links().len() - 1,
            holds(&final(f).store, p.direct_mux1),
            holds(&final(f).store, p.mux1),
            holds(&final(f).store, p.mux32),
            holds(&final(f).store, p.bit_result_tag),
            holds(&final(f).store, p.word_result_tag),
            p.gates.held(&final(f).store),
            direct_row_rule(
                final(f).store.links(),
                final(f).theory,
                final(f).o,
                final(f).apply,
                p.direct_mux1,
                final(f).zero,
                p.bit_result_tag,
                false,
            ),
            direct_row_rule(
                final(f).store.links(),
                final(f).theory,
                final(f).o,
                final(f).apply,
                p.direct_mux1,
                final(f).one,
                p.bit_result_tag,
                true,
            ),
            gate_truth_tables(final(f).store.links(), (final(f).theory, final(f).o, final(f).apply), final(f).zero, final(f).one, p.gates),
    {
        let gates = install_gate_basis(f);
        let ghost l_gates = f.store.links();
        proof {
            f.store.lemma_wf_links();
        }
        let seed0 = pair(&mut f.store, f.k, gates.xor2);
        let mut gen = mux_anchors(&mut f.store, seed0, f.o, f.c);
        let direct_mux1 = gen.function_pair(&mut f.store);
        let ghost l_direct_mux1 = f.store.links();
        let ghost g_direct_mux1 = gen.current;
        let mux1 = gen.function_pair(&mut f.store);
        let ghost l_mux1 = f.store.links();
        let ghost g_mux1 = gen.current;
        let mux32 = gen.function_pair(&mut f.store);
        let ghost l_mux32 = f.store.links();
        let ghost g_mux32 = gen.current;
        proof {
            lemma_functions_differ(l_direct_mux1, l_mux1, direct_mux1, mux1, g_direct_mux1);
            lemma_extends_trans(l_direct_mux1, l_mux1, l_mux32);
            lemma_functions_differ(l_direct_mux1, l_mux32, direct_mux1, mux32, g_direct_mux1);
            lemma_functions_differ(l_mux1, l_mux32, mux1, mux32, g_mux1);
        }
        let bit_left = gen.next(&mut f.store);
        let bit_right = gen.next(&mut f.store);
        let bit_result_tag = pair(&mut f.store, bit_left, bit_right);
        let word_left = gen.next(&mut f.store);
        let word_right = gen.next(&mut f.store);
        let word_result_tag = pair(&mut f.store, word_left, word_right);
        let xor_ab_tag = gen.next(&mut f.store);
        let and_s_tag = gen.next(&mut f.store);
        let xor_out_tag = gen.next(&mut f.store);
        let n = MuxNames {
            theory: f.theory,
            o: f.o,
            apply: f.apply,
            zero: f.zero,
            one: f.one,
            direct_mux1,
            mux1,
            mux32,
            bit_result_tag,
            word_result_tag,
            xor_ab_tag,
            and_s_tag,
            xor_out_tag,
            gates,
        };
        install_mux_rules(&mut f.store, &mut gen, n);
        proof {
            f.store.lemma_wf_links();
            lemma_gate_truth_tables_keep(l_gates, f.store.links(), (f.theory, f.o, f.apply), f.zero, f.one, gates);
        }
        let links_after_build = f.store.link_count();
        MuxProgram {
            direct_mux1,
            mux1,
            mux32,
            bit_result_tag,
            word_result_tag,
            gates,
            direct_steps: 1,
            mux1_steps: 7,
            mux32_steps: 1 + 8 * MUX_WIDTH,
            links_after_build,
        }
    }
}

} // verus!
