//! 32-bit shifts with 80386 flag effects: one raw rule per function and
//! masked count (`SHL`/`SAL`, `SHR`, `SAR`, counts 0 to 31) that rewires
//! the word structurally, followed by ZF and PF gate reductions and the
//! count-dependent CF, OF and SF effects.
use vstd::prelude::*;

use crate::arith_circuit::{all_held, append, AnchorGen};
use crate::circuit::{
    admits_rule, call, call_shape, define_bundle_rule, grown, has_room, holds, index_rule, index_rule_for,
    indexed_under, keeps, lemma_admits_rule_keep, lemma_call_shape_keep, lemma_increasing_distinct,
    lemma_indexed_keep, lemma_pairs_differ, lemma_sequence_reads_keep, lemma_tagged_shape_keep, pair,
    sequence, sequence_reads, stage_frame, tagged_shape, Fixture,
};
use crate::effect_circuit::{
    install_alu_effect_result_tag, set_flag_action, undefined_flag_action, FlagPatchSchema,
};
use crate::flags_circuit::{continuation_rule, pair_tags};
use crate::logic_circuit::{gate_truth_tables, lemma_gate_truth_tables_keep, GateSet, LogicProgram};
use crate::model::{lemma_extends_trans, links_wf, Links};
use crate::store::OptimizedLinkStore;
use crate::Handle;

verus! {

/// The three shift functions.
#[derive(Clone, Copy, PartialEq, Eq, Debug)]
pub enum ShiftKind {
    Shl,
    Shr,
    Sar,
}

/// The anchors of the shift program: `seed, c, o, o, c, c, o, c, o, o, o, c, c`.
fn shift_anchors(store: &mut OptimizedLinkStore, seed: Handle, o: Handle, c: Handle) -> (g: AnchorGen)
    requires
        has_room(old(store), 12),
        holds(old(store), seed),
        holds(old(store), o),
        holds(old(store), c),
    ensures
        grown(old(store), final(store), 12),
        g.ok(final(store)),
{
    let poles = [c, o, o, c, c, o, c, o, o, o, c, c];
    let mut seed = seed;
    let mut i: usize = 0;
    while i < 12
        invariant
            i <= 12,
            grown(old(store), store, i as nat),
            has_room(old(store), 12),
            holds(store, seed),
            holds(old(store), o),
            holds(old(store), c),
            poles@ == seq![c, o, o, c, c, o, c, o, o, o, c, c],
        decreases 12 - i,
    {
        seed = pair(store, seed, poles[i]);
        i += 1;
    }
    AnchorGen { current: seed, flip: false, o, c }
}

/// Pushes `value` `count` times.
fn push_repeat(v: &mut Vec<Handle>, value: Handle, count: usize)
    ensures
        final(v)@ == old(v)@ + Seq::new(count as nat, |i: int| value),
{
    let ghost start = v@;
    let mut i: usize = 0;
    while i < count
        invariant
            i <= count,
            v@ == start + Seq::new(i as nat, |j: int| value),
        decreases count - i,
    {
        v.push(value);
        i += 1;
        proof {
            assert(v@ =~= start + Seq::new(i as nat, |j: int| value));
        }
    }
}

/// The roles of the output word of a shift by `count` in `1..32` of the
/// word whose bit roles are `input`, least significant first: SHL fills
/// with `zero` from the bottom, SHR with `zero` and SAR with the sign role
/// from the top.
pub open spec fn shift_template(zero: Handle, input: Seq<Handle>, kind: ShiftKind, count: int) -> Seq<Handle> {
    Seq::new(
        32,
        |i: int|
            match kind {
                ShiftKind::Shl => if i < count {
                    zero
                } else {
                    input[i - count]
                },
                ShiftKind::Shr => if i < 32 - count {
                    input[i + count]
                } else {
                    zero
                },
                ShiftKind::Sar => if i < 32 - count {
                    input[i + count]
                } else {
                    input[31]
                },
            },
    )
}

/// The role of the bit shifted out last, the CF of a shift by `count`.
pub open spec fn shift_carry(input: Seq<Handle>, kind: ShiftKind, count: int) -> Handle {
    match kind {
        ShiftKind::Shl => input[32 - count],
        _ => input[count - 1],
    }
}

/// The shifted word template and the bit shifted out last (CF), for a
/// count in `1..32`: SHL fills with 0 from the bottom; SHR fills with 0 and
/// SAR with the sign from the top.
fn output_template(zero: Handle, input: &[Handle], kind: ShiftKind, count: usize) -> (r: (Vec<Handle>, Handle))
    requires
        input@.len() == 32,
        1 <= count < 32,
    ensures
        r.0@.len() == 32,
        forall|i: int| 0 <= i < 32 ==> #[trigger] r.0@[i] == zero || input@.contains(r.0@[i]),
        input@.contains(r.1),
        r.0@ == shift_template(zero, input@, kind, count as int),
        r.1 == shift_carry(input@, kind, count as int),
{
    let mut out: Vec<Handle> = Vec::new();
    match kind {
        ShiftKind::Shl => {
            push_repeat(&mut out, zero, count);
            append(&mut out, &input[0..32 - count]);
            proof {
                assert forall|i: int| 0 <= i < 32 implies #[trigger] out@[i] == zero || input@.contains(out@[i]) by {
                    if i >= count {
                        assert(out@[i] == input@[i - count]);
                    }
                }
                assert(input@[32 - count] == input[32 - count as int]);
                assert(out@ =~= shift_template(zero, input@, kind, count as int));
            }
            (out, input[32 - count])
        },
        ShiftKind::Shr => {
            append(&mut out, &input[count..32]);
            push_repeat(&mut out, zero, count);
            proof {
                assert forall|i: int| 0 <= i < 32 implies #[trigger] out@[i] == zero || input@.contains(out@[i]) by {
                    if i < 32 - count {
                        assert(out@[i] == input@[i + count]);
                    }
                }
                assert(input@[count - 1] == input[count - 1]);
                assert(out@ =~= shift_template(zero, input@, kind, count as int));
            }
            (out, input[count - 1])
        },
        ShiftKind::Sar => {
            let sign = input[31];
            append(&mut out, &input[count..32]);
            push_repeat(&mut out, sign, count);
            proof {
                assert forall|i: int| 0 <= i < 32 implies #[trigger] out@[i] == zero || input@.contains(out@[i]) by {
                    if i < 32 - count {
                        assert(out@[i] == input@[i + count]);
                    } else {
                        assert(input@[31] == sign);
                    }
                }
                assert(input@[count - 1] == input[count - 1]);
                assert(out@ =~= shift_template(zero, input@, kind, count as int));
            }
            (out, input[count - 1])
        },
    }
}

/// The Links the shift rules are built from.
#[derive(Clone, Copy)]
struct ShiftNames {
    theory: Handle,
    o: Handle,
    apply: Handle,
    zero: Handle,
    one: Handle,
    shl: Handle,
    shr: Handle,
    sar: Handle,
    raw_tag: Handle,
    result_tag: Handle,
    schema: FlagPatchSchema,
    or2: Handle,
    xor2: Handle,
    not1: Handle,
    bit_outputs: [Handle; 2],
    zf_not_tag: Handle,
    pf_not_tag: Handle,
    shl_of_tag: Handle,
}

impl ShiftNames {
    spec fn held(&self, store: &OptimizedLinkStore) -> bool {
        &&& holds(store, self.theory)
        &&& holds(store, self.o)
        &&& holds(store, self.apply)
        &&& holds(store, self.zero)
        &&& holds(store, self.one)
        &&& holds(store, self.shl)
        &&& holds(store, self.shr)
        &&& holds(store, self.sar)
        &&& holds(store, self.raw_tag)
        &&& holds(store, self.result_tag)
        &&& self.schema.held(store)
        &&& holds(store, self.or2)
        &&& holds(store, self.xor2)
        &&& holds(store, self.not1)
        &&& all_held(store, self.bit_outputs@)
        &&& holds(store, self.zf_not_tag)
        &&& holds(store, self.pf_not_tag)
        &&& holds(store, self.shl_of_tag)
    }
}

/// The count roles of a masked count: its five low bits as `zero` or `one`.
pub open spec fn count_roles(zero: Handle, one: Handle, count: usize) -> Seq<Handle> {
    Seq::new(5, |b: int| if (count >> (b as usize)) & 1 == 1 { one } else { zero })
}

/// The raw rule of `function` for the masked count `count` stands in
/// `links`, admitted by `theory` through `w.0` and indexed under `key`. Its
/// roles `w.1` are `K`, the 32 input bits and the three high count bits;
/// `K -> Call(function, [Input, Count])`, with `Input` the word `w.4` of the
/// input bits and `Count` the word `w.5` of the count's five low bits and the
/// high bits, becomes for count 0 `K -> PAIR(result_tag, [one, Input, ROOT])`
/// and otherwise `K -> PAIR(raw_tag, [Output, CF, function, IsOne, Msb])`,
/// where `Output` is the word `w.6` of `shift_template`, `CF` is
/// `shift_carry`, `IsOne` says whether the count is 1 and `Msb` is the input's
/// top bit.
pub open spec fn raw_rule_at(
    links: Links,
    names: (u32, u32, u32, u32, u32, u32, u32),
    function: u32,
    kind: ShiftKind,
    count: usize,
    w: (u32, Seq<u32>, u32, u32, u32, u32, u32),
) -> bool {
    let (theory, key, apply, zero, one, result_tag, raw_tag) = names;
    let (admission, roles, before, after, input_word, count_word, output_word) = w;
    let k = roles[0];
    let input = roles.subrange(1, 33);
    &&& roles.len() == 36
    &&& admits_rule(links, theory, admission, roles, before, seq![after])
    &&& indexed_under(links, key, admission)
    &&& call_shape(links, before, k, apply, function, seq![input_word, count_word])
    &&& sequence_reads(links, input_word, input)
    &&& sequence_reads(links, count_word, count_roles(zero, one, count) + roles.subrange(33, 36))
    &&& if count == 0 {
        tagged_shape(links, after, k, result_tag, seq![one, input_word, 1])
    } else {
        &&& sequence_reads(links, output_word, shift_template(zero, input, kind, count as int))
        &&& tagged_shape(
            links,
            after,
            k,
            raw_tag,
            seq![output_word, shift_carry(input, kind, count as int), function, if count == 1 {
                one
            } else {
                zero
            }, input[31]],
        )
    }
}

/// Some raw rule of `function` for `count` stands in `links` (see `raw_rule_at`).
#[verifier::opaque]
pub open spec fn raw_rule(
    links: Links,
    names: (u32, u32, u32, u32, u32, u32, u32),
    function: u32,
    kind: ShiftKind,
    count: usize,
) -> bool {
    exists|w: (u32, Seq<u32>, u32, u32, u32, u32, u32)| #[trigger] raw_rule_at(links, names, function, kind, count, w)
}

/// A raw rule stays in place after more Links.
pub proof fn lemma_raw_rule_keep(
    l1: Links,
    l2: Links,
    names: (u32, u32, u32, u32, u32, u32, u32),
    function: u32,
    kind: ShiftKind,
    count: usize,
)
    requires
        links_wf(l1),
        keeps(l1, l2),
        raw_rule(l1, names, function, kind, count),
    ensures
        raw_rule(l2, names, function, kind, count),
{
    reveal(raw_rule);
    let w = choose|w: (u32, Seq<u32>, u32, u32, u32, u32, u32)| #[trigger] raw_rule_at(l1, names, function, kind, count, w);
    let (theory, key, apply, zero, one, result_tag, raw_tag) = names;
    let (admission, roles, before, after, input_word, count_word, output_word) = w;
    let k = roles[0];
    let input = roles.subrange(1, 33);
    lemma_admits_rule_keep(l1, l2, theory, admission, roles, before, seq![after]);
    lemma_indexed_keep(l1, l2, key, admission);
    lemma_call_shape_keep(l1, l2, before, k, apply, function, seq![input_word, count_word]);
    lemma_sequence_reads_keep(l1, l2, input_word, input);
    lemma_sequence_reads_keep(l1, l2, count_word, count_roles(zero, one, count) + roles.subrange(33, 36));
    if count == 0 {
        lemma_tagged_shape_keep(l1, l2, after, k, result_tag, seq![one, input_word, 1]);
    } else {
        lemma_sequence_reads_keep(l1, l2, output_word, shift_template(zero, input, kind, count as int));
        lemma_tagged_shape_keep(
            l1,
            l2,
            after,
            k,
            raw_tag,
            seq![output_word, shift_carry(input, kind, count as int), function, if count == 1 {
                one
            } else {
                zero
            }, input[31]],
        );
    }
    assert(raw_rule_at(l2, names, function, kind, count, w));
}

/// The names a raw rule is stated over.
spec fn raw_names(n: ShiftNames) -> (u32, u32, u32, u32, u32, u32, u32) {
    (n.theory, n.o, n.apply, n.zero, n.one, n.result_tag, n.raw_tag)
}

/// The raw rule of `function` for one masked count:
/// `K -> Call(function, [Input, Count])`, the count's low five bits fixed
/// and its high three bits roles, becomes for count 0
/// `K -> PAIR(ResultTag, [1, Input, ROOT])` (no flag change), and otherwise
/// `K -> PAIR(RawTag, [Output, CF, function, IsOne, OriginalMsb])`.
#[verifier::rlimit(100)]
fn install_raw_rule(
    store: &mut OptimizedLinkStore,
    gen: &mut AnchorGen,
    n: ShiftNames,
    function: Handle,
    kind: ShiftKind,
    masked_count: usize,
)
    requires
        has_room(old(store), 400),
        old(gen).ok(old(store)),
        n.held(old(store)),
        holds(old(store), function),
        masked_count < 32,
    ensures
        grown(old(store), final(store), 400),
        final(gen).ok(final(store)),
        raw_rule(final(store).links(), raw_names(n), function, kind, masked_count),
{
    // [K, Input..., CountHigh...]
    let r = gen.roles(store, 36);
    let k = r[0];
    let mut count_bits: Vec<Handle> = Vec::new();
    let mut bit: usize = 0;
    while bit < 5
        invariant
            bit <= 5,
            count_bits@.len() == bit,
            all_held(store, count_bits@),
            n.held(store),
            count_bits@ == count_roles(n.zero, n.one, masked_count).subrange(0, bit as int),
        decreases 5 - bit,
    {
        if (masked_count >> bit) & 1 == 1 {
            count_bits.push(n.one);
        } else {
            count_bits.push(n.zero);
        }
        bit += 1;
        proof {
            assert(count_bits@ =~= count_roles(n.zero, n.one, masked_count).subrange(0, bit as int));
        }
    }
    let high = &r.as_slice()[33..36];
    append(&mut count_bits, high);
    let input = &r.as_slice()[1..33];
    proof {
        assert(count_roles(n.zero, n.one, masked_count).subrange(0, 5) =~= count_roles(n.zero, n.one, masked_count));
        assert(input@ =~= r@.subrange(1, 33));
        assert(high@ =~= r@.subrange(33, 36));
        assert(count_bits@ =~= count_roles(n.zero, n.one, masked_count) + r@.subrange(33, 36));
    }
    let input_word = sequence(store, input);
    let ghost l_input = store.links();
    proof {
        store.lemma_wf_links();
    }
    let count_word = sequence(store, count_bits.as_slice());
    let ghost l_count = store.links();
    proof {
        store.lemma_wf_links();
    }
    let args = sequence(store, &[input_word, count_word]);
    let ghost l_args = store.links();
    proof {
        store.lemma_wf_links();
        assert([input_word, count_word]@ =~= seq![input_word, count_word]);
    }
    let target = pair(store, function, args);
    let invocation = pair(store, n.apply, target);
    let before = pair(store, k, invocation);
    let ghost l_before = store.links();
    proof {
        store.lemma_wf_links();
        lemma_sequence_reads_keep(l_args, l_before, args, seq![input_word, count_word]);
        assert(call_shape(l_before, before, k, n.apply, function, seq![input_word, count_word]));
    }
    let ghost mut output_word: u32 = 0;
    let after = if masked_count == 0 {
        proof {
            store.lemma_wf_links();
        }
        let payload = sequence(store, &[n.one, input_word, 1]);
        let ghost l_payload = store.links();
        proof {
            store.lemma_wf_links();
            assert([n.one, input_word, 1]@ =~= seq![n.one, input_word, 1]);
        }
        let envelope = pair(store, n.result_tag, payload);
        let after = pair(store, k, envelope);
        proof {
            store.lemma_wf_links();
            lemma_sequence_reads_keep(l_payload, store.links(), payload, seq![n.one, input_word, 1]);
            assert(tagged_shape(store.links(), after, k, n.result_tag, seq![n.one, input_word, 1]));
        }
        after
    } else {
        let (out_bits, cf) = output_template(n.zero, input, kind, masked_count);
        let output = sequence(store, out_bits.as_slice());
        let ghost l_output = store.links();
        proof {
            store.lemma_wf_links();
            output_word = output;
        }
        let is_one = if masked_count == 1 {
            n.one
        } else {
            n.zero
        };
        let original_msb = input[31];
        let payload = sequence(store, &[output, cf, function, is_one, original_msb]);
        let ghost l_payload = store.links();
        let ghost fields = seq![output, cf, function, is_one, original_msb];
        proof {
            store.lemma_wf_links();
            assert([output, cf, function, is_one, original_msb]@ =~= fields);
        }
        let envelope = pair(store, n.raw_tag, payload);
        let after = pair(store, k, envelope);
        proof {
            store.lemma_wf_links();
            lemma_sequence_reads_keep(l_payload, store.links(), payload, fields);
            lemma_sequence_reads_keep(l_output, store.links(), output, out_bits@);
            assert(tagged_shape(store.links(), after, k, n.raw_tag, fields));
        }
        after
    };
    let ghost l_shapes = store.links();
    proof {
        lemma_increasing_distinct(r@);
        store.lemma_wf_links();
        lemma_call_shape_keep(l_before, l_shapes, before, k, n.apply, function, seq![input_word, count_word]);
        lemma_sequence_reads_keep(l_input, l_shapes, input_word, r@.subrange(1, 33));
        lemma_sequence_reads_keep(
            l_count,
            l_shapes,
            count_word,
            count_roles(n.zero, n.one, masked_count) + r@.subrange(33, 36),
        );
    }
    let (_, admission) = define_bundle_rule(store, n.theory, r.as_slice(), before, &[after]);
    let ghost l_rule = store.links();
    proof {
        store.lemma_wf_links();
        assert([after]@ =~= seq![after]);
    }
    index_rule(store, n.o, admission);
    proof {
        store.lemma_wf_links();
        let w = (admission, r@, before, after, input_word, count_word, output_word);
        let input_roles = r@.subrange(1, 33);
        lemma_admits_rule_keep(l_rule, store.links(), n.theory, admission, r@, before, seq![after]);
        lemma_call_shape_keep(l_shapes, store.links(), before, k, n.apply, function, seq![input_word, count_word]);
        lemma_sequence_reads_keep(l_shapes, store.links(), input_word, input_roles);
        lemma_sequence_reads_keep(
            l_shapes,
            store.links(),
            count_word,
            count_roles(n.zero, n.one, masked_count) + r@.subrange(33, 36),
        );
        if masked_count == 0 {
            lemma_tagged_shape_keep(l_shapes, store.links(), after, k, n.result_tag, seq![n.one, input_word, 1]);
        } else {
            let fields = seq![output_word, shift_carry(input_roles, kind, masked_count as int), function, if masked_count == 1 {
                n.one
            } else {
                n.zero
            }, input_roles[31]];
            lemma_sequence_reads_keep(
                l_shapes,
                store.links(),
                output_word,
                shift_template(n.zero, input_roles, kind, masked_count as int),
            );
            lemma_tagged_shape_keep(l_shapes, store.links(), after, k, n.raw_tag, fields);
        }
        assert(raw_rule_at(store.links(), raw_names(n), function, kind, masked_count, w));
        reveal(raw_rule);
    }
}

/// The raw rules of one function for every masked count.
fn install_raw_rules(store: &mut OptimizedLinkStore, gen: &mut AnchorGen, n: ShiftNames, function: Handle, kind: ShiftKind)
    requires
        has_room(old(store), 400 * 32),
        old(gen).ok(old(store)),
        n.held(old(store)),
        holds(old(store), function),
    ensures
        grown(old(store), final(store), 400 * 32),
        final(gen).ok(final(store)),
        forall|c: usize| c < 32 ==> #[trigger] raw_rule(final(store).links(), raw_names(n), function, kind, c),
{
    let mut masked_count: usize = 0;
    while masked_count < 32
        invariant
            masked_count <= 32,
            has_room(old(store), 400 * 32),
            grown(old(store), store, 400 * masked_count as nat),
            gen.ok(store),
            n.held(store),
            holds(store, function),
            forall|c: usize| c < masked_count ==> #[trigger] raw_rule(store.links(), raw_names(n), function, kind, c),
        decreases 32 - masked_count,
    {
        let ghost before = store.links();
        proof {
            store.lemma_wf_links();
        }
        install_raw_rule(store, gen, n, function, kind, masked_count);
        proof {
            assert forall|c: usize| c < masked_count + 1 implies #[trigger] raw_rule(
                store.links(),
                raw_names(n),
                function,
                kind,
                c,
            ) by {
                if c < masked_count {
                    lemma_raw_rule_keep(before, store.links(), raw_names(n), function, kind, c);
                }
            }
        }
        masked_count += 1;
    }
}

/// Two distinct lists with no common element concatenate to a distinct list.
proof fn lemma_distinct_concat(x: Seq<Handle>, y: Seq<Handle>)
    requires
        x.no_duplicates(),
        y.no_duplicates(),
        forall|i: int, j: int| 0 <= i < x.len() && 0 <= j < y.len() ==> x[i] != y[j],
    ensures
        (x + y).no_duplicates(),
{
    let z = x + y;
    assert forall|a: int, b: int| 0 <= a < z.len() && 0 <= b < z.len() && a != b implies #[trigger] z[a]
        != #[trigger] z[b] by {
        if a < x.len() && b < x.len() {
            assert(z[a] == x[a] && z[b] == x[b]);
        } else if a >= x.len() && b >= x.len() {
            assert(z[a] == y[a - x.len()] && z[b] == y[b - x.len()]);
        } else if a < x.len() {
            assert(z[a] == x[a] && z[b] == y[b - x.len()]);
        } else {
            assert(z[b] == x[b] && z[a] == y[a - x.len()]);
        }
    }
}

/// The raw result enters the ZF reduction:
/// `K -> PAIR(RawTag, [Word, CF, Kind, IsOne, Msb])` becomes
/// `ZfFrame_0([K, CF, Kind, IsOne, Msb, Bits...]) -> OR2(bit_0, bit_1)`.
#[verifier::rlimit(100)]
fn shift_raw_result(store: &mut OptimizedLinkStore, gen: &mut AnchorGen, n: ShiftNames, zf_tag0: Handle)
    requires
        has_room(old(store), 400),
        old(gen).ok(old(store)),
        n.held(old(store)),
        holds(old(store), zf_tag0),
    ensures
        grown(old(store), final(store), 400),
        final(gen).ok(final(store)),
{
    // allocated as [K, Bits..., CF, Kind, IsOne, Msb]
    let r = gen.roles(store, 37);
    let k = r[0];
    let word = sequence(store, &r.as_slice()[1..33]);
    let raw_payload = sequence(store, &[word, r[33], r[34], r[35], r[36]]);
    let raw_envelope = pair(store, n.raw_tag, raw_payload);
    let before = pair(store, k, raw_envelope);
    // [K, CF, Kind, IsOne, Msb, Bits...]
    let mut state: Vec<Handle> = Vec::new();
    state.push(k);
    append(&mut state, &r.as_slice()[33..37]);
    append(&mut state, &r.as_slice()[1..33]);
    let caller = stage_frame(store, zf_tag0, state.as_slice());
    let or_args = sequence(store, &[r[1], r[2]]);
    let or_call = call(store, n.apply, n.or2, or_args);
    let after = pair(store, caller, or_call);
    proof {
        let a = r@.subrange(0, 1);
        let b = r@.subrange(33, 37);
        let c = r@.subrange(1, 33);
        assert(state@ =~= seq![k] + b + c);
        assert(seq![k] =~= a);
        lemma_increasing_distinct(r@);
        assert(a.no_duplicates());
        assert(b.no_duplicates()) by {
            assert forall|x: int, y: int| 0 <= x < b.len() && 0 <= y < b.len() && x != y implies #[trigger] b[x]
                != #[trigger] b[y] by {
                assert(b[x] == r@[33 + x] && b[y] == r@[33 + y]);
            }
        }
        assert(c.no_duplicates()) by {
            assert forall|x: int, y: int| 0 <= x < c.len() && 0 <= y < c.len() && x != y implies #[trigger] c[x]
                != #[trigger] c[y] by {
                assert(c[x] == r@[1 + x] && c[y] == r@[1 + y]);
            }
        }
        assert forall|x: int, y: int| 0 <= x < a.len() && 0 <= y < b.len() implies a[x] != b[y] by {
            assert(a[x] == r@[x] && b[y] == r@[33 + y]);
        }
        lemma_distinct_concat(a, b);
        assert forall|x: int, y: int| 0 <= x < (a + b).len() && 0 <= y < c.len() implies (a + b)[x]
            != c[y] by {
            assert(c[y] == r@[1 + y]);
            if x < 1 {
                assert((a + b)[x] == r@[0]);
            } else {
                assert((a + b)[x] == r@[33 + x - 1]);
            }
        }
        lemma_distinct_concat(a + b, c);
        assert(state@ =~= a + b + c);
    }
    let (_, admission) = define_bundle_rule(store, n.theory, state.as_slice(), before, &[after]);
    index_rule(store, n.raw_tag, admission);
}

/// One reduction step over `[K, CF, Kind, IsOne, Msb, Bits..., extra..., acc]`:
/// `tag(state) -> [acc]` becomes `next_tag(state) -> function(acc, bit_{i+2})`,
/// or after the last step `last_tag(state) -> NOT1(acc)`.
#[verifier::rlimit(100)]
fn shift_reduce_step(
    store: &mut OptimizedLinkStore,
    gen: &mut AnchorGen,
    n: ShiftNames,
    extra_count: usize,
    tag: Handle,
    next_tag: Handle,
    function: Handle,
    last: bool,
    i: usize,
)
    requires
        has_room(old(store), 500),
        old(gen).ok(old(store)),
        n.held(old(store)),
        holds(old(store), tag),
        holds(old(store), next_tag),
        holds(old(store), function),
        extra_count <= 1,
        !last ==> i + 2 < 32,
    ensures
        grown(old(store), final(store), 500),
        final(gen).ok(final(store)),
{
    let count = 5 + 32 + extra_count + 1;
    let r = gen.roles(store, count);
    let acc = r[count - 1];
    if last {
        continuation_rule(
            store,
            n.theory,
            n.apply,
            r.as_slice(),
            tag,
            &r.as_slice()[0..count - 1],
            &r.as_slice()[count - 1..count],
            next_tag,
            &r.as_slice()[0..count - 1],
            n.not1,
            &[acc],
            &n.bit_outputs,
        );
    } else {
        continuation_rule(
            store,
            n.theory,
            n.apply,
            r.as_slice(),
            tag,
            &r.as_slice()[0..count - 1],
            &r.as_slice()[count - 1..count],
            next_tag,
            &r.as_slice()[0..count - 1],
            function,
            &[acc, r[7 + i]],
            &n.bit_outputs,
        );
    }
}

/// ZF NOT result, then the PF XOR reduction of the low byte:
/// `ZfNot([K, CF, Kind, IsOne, Msb, Bits...]) -> [ZF]` becomes
/// `PfFrame_0([..., ZF]) -> XOR2(bit_0, bit_1)`.
#[verifier::rlimit(100)]
fn shift_zf(store: &mut OptimizedLinkStore, gen: &mut AnchorGen, n: ShiftNames, pf_tag0: Handle)
    requires
        has_room(old(store), 500),
        old(gen).ok(old(store)),
        n.held(old(store)),
        holds(old(store), pf_tag0),
    ensures
        grown(old(store), final(store), 500),
        final(gen).ok(final(store)),
{
    let r = gen.roles(store, 38);
    continuation_rule(
        store,
        n.theory,
        n.apply,
        r.as_slice(),
        n.zf_not_tag,
        &r.as_slice()[0..37],
        &r.as_slice()[37..38],
        pf_tag0,
        r.as_slice(),
        n.xor2,
        &r.as_slice()[5..7],
        &n.bit_outputs,
    );
}

/// The effect `K -> PAIR(ResultTag, [1, Word, FlagPatch])` with CF, PF, ZF
/// and SF (the top bit) set, AF undefined and the given OF action.
fn final_effect(
    store: &mut OptimizedLinkStore,
    n: ShiftNames,
    k: Handle,
    bits: &[Handle],
    cf: Handle,
    pf: Handle,
    zf: Handle,
    of_action: Handle,
) -> (after: Handle)
    requires
        has_room(old(store), 150),
        n.held(old(store)),
        bits@.len() == 32,
        all_held(old(store), bits@),
        holds(old(store), k),
        holds(old(store), cf),
        holds(old(store), pf),
        holds(old(store), zf),
        holds(old(store), of_action),
    ensures
        grown(old(store), final(store), 150),
        holds(final(store), after),
{
    let schema = n.schema;
    let word = sequence(store, bits);
    let set_cf = set_flag_action(store, schema, schema.cf, cf);
    let set_pf = set_flag_action(store, schema, schema.pf, pf);
    let undef_af = undefined_flag_action(store, schema, schema.af);
    let set_zf = set_flag_action(store, schema, schema.zf, zf);
    let set_sf = set_flag_action(store, schema, schema.sf, bits[31]);
    let patch = sequence(store, &[set_cf, set_pf, undef_af, set_zf, set_sf, of_action]);
    let payload = sequence(store, &[n.one, word, patch]);
    let envelope = pair(store, n.result_tag, payload);
    pair(store, k, envelope)
}

/// `PfNot(head + Bits... + [ZF]) -> [PF]`, the trigger side of the final rules.
fn pf_not_before(store: &mut OptimizedLinkStore, n: ShiftNames, head: &[Handle], bits: &[Handle], zf: Handle, pf: Handle) -> (before: Handle)
    requires
        has_room(old(store), 100),
        n.held(old(store)),
        head@.len() == 5,
        bits@.len() == 32,
        all_held(old(store), head@),
        all_held(old(store), bits@),
        holds(old(store), zf),
        holds(old(store), pf),
    ensures
        grown(old(store), final(store), 100),
        holds(final(store), before),
{
    let mut state: Vec<Handle> = Vec::new();
    append(&mut state, head);
    append(&mut state, bits);
    state.push(zf);
    let caller = stage_frame(store, n.pf_not_tag, state.as_slice());
    let pf_result = sequence(store, &[pf]);
    pair(store, caller, pf_result)
}

/// Counts 2 to 31: `PfNot([K, CF, Kind, 0, Msb, Bits..., ZF]) -> [PF]`
/// becomes the effect with OF undefined.
#[verifier::rlimit(100)]
fn shift_final_general(store: &mut OptimizedLinkStore, gen: &mut AnchorGen, n: ShiftNames)
    requires
        has_room(old(store), 500),
        old(gen).ok(old(store)),
        n.held(old(store)),
    ensures
        grown(old(store), final(store), 500),
        final(gen).ok(final(store)),
{
    // [K, CF, Kind, Msb, Bits..., ZF, PF]
    let r = gen.roles(store, 38);
    let (k, cf, kind, msb) = (r[0], r[1], r[2], r[3]);
    let bits = &r.as_slice()[4..36];
    let (zf, pf) = (r[36], r[37]);
    let before = pf_not_before(store, n, &[k, cf, kind, n.zero, msb], bits, zf, pf);
    let undef_of = undefined_flag_action(store, n.schema, n.schema.of);
    let after = final_effect(store, n, k, bits, cf, pf, zf, undef_of);
    proof {
        lemma_increasing_distinct(r@);
    }
    let (_, admission) = define_bundle_rule(store, n.theory, r.as_slice(), before, &[after]);
    index_rule_for(store, &n.bit_outputs, admission);
}

/// Count 1 of SHR (OF = original msb) or SAR (OF = 0):
/// `PfNot([K, CF, function, 1, Msb, Bits..., ZF]) -> [PF]` becomes the effect.
#[verifier::rlimit(100)]
fn shift_final_one(store: &mut OptimizedLinkStore, gen: &mut AnchorGen, n: ShiftNames, function: Handle, of_is_msb: bool)
    requires
        has_room(old(store), 500),
        old(gen).ok(old(store)),
        n.held(old(store)),
        holds(old(store), function),
    ensures
        grown(old(store), final(store), 500),
        final(gen).ok(final(store)),
{
    // [K, CF, Msb, Bits..., ZF, PF]
    let r = gen.roles(store, 37);
    let (k, cf, msb) = (r[0], r[1], r[2]);
    let bits = &r.as_slice()[3..35];
    let (zf, pf) = (r[35], r[36]);
    let before = pf_not_before(store, n, &[k, cf, function, n.one, msb], bits, zf, pf);
    let of_value = if of_is_msb {
        msb
    } else {
        n.zero
    };
    let set_of = set_flag_action(store, n.schema, n.schema.of, of_value);
    let after = final_effect(store, n, k, bits, cf, pf, zf, set_of);
    proof {
        lemma_increasing_distinct(r@);
    }
    let (_, admission) = define_bundle_rule(store, n.theory, r.as_slice(), before, &[after]);
    index_rule_for(store, &n.bit_outputs, admission);
}

/// Count 1 of SHL: `PfNot([K, CF, SHL, 1, Msb, Bits..., ZF]) -> [PF]` becomes
/// `ShlOf([K, CF, ZF, PF, Bits...]) -> XOR2(bit_31, CF)`.
#[verifier::rlimit(100)]
fn shift_shl_one(store: &mut OptimizedLinkStore, gen: &mut AnchorGen, n: ShiftNames)
    requires
        has_room(old(store), 500),
        old(gen).ok(old(store)),
        n.held(old(store)),
    ensures
        grown(old(store), final(store), 500),
        final(gen).ok(final(store)),
{
    // [K, CF, Msb, Bits..., ZF, PF]
    let r = gen.roles(store, 37);
    let (k, cf, msb) = (r[0], r[1], r[2]);
    let bits = &r.as_slice()[3..35];
    let (zf, pf) = (r[35], r[36]);
    let before = pf_not_before(store, n, &[k, cf, n.shl, n.one, msb], bits, zf, pf);
    let mut next_state: Vec<Handle> = Vec::new();
    next_state.push(k);
    next_state.push(cf);
    next_state.push(zf);
    next_state.push(pf);
    append(&mut next_state, bits);
    let next_caller = stage_frame(store, n.shl_of_tag, next_state.as_slice());
    let of_args = sequence(store, &[r[34], cf]);
    let of_call = call(store, n.apply, n.xor2, of_args);
    let after = pair(store, next_caller, of_call);
    proof {
        lemma_increasing_distinct(r@);
    }
    let (_, admission) = define_bundle_rule(store, n.theory, r.as_slice(), before, &[after]);
    index_rule_for(store, &n.bit_outputs, admission);
}

/// SHL count 1 OF: `ShlOf([K, CF, ZF, PF, Bits...]) -> [OF]` becomes the
/// effect with OF set.
#[verifier::rlimit(100)]
fn shift_shl_of(store: &mut OptimizedLinkStore, gen: &mut AnchorGen, n: ShiftNames)
    requires
        has_room(old(store), 500),
        old(gen).ok(old(store)),
        n.held(old(store)),
    ensures
        grown(old(store), final(store), 500),
        final(gen).ok(final(store)),
{
    // [K, CF, ZF, PF, Bits..., OF]
    let r = gen.roles(store, 37);
    let (k, cf, zf, pf) = (r[0], r[1], r[2], r[3]);
    let bits = &r.as_slice()[4..36];
    let of = r[36];
    let caller = stage_frame(store, n.shl_of_tag, &r.as_slice()[0..36]);
    let of_result = sequence(store, &[of]);
    let before = pair(store, caller, of_result);
    let set_of = set_flag_action(store, n.schema, n.schema.of, of);
    let after = final_effect(store, n, k, bits, cf, pf, zf, set_of);
    proof {
        lemma_increasing_distinct(r@);
    }
    let (_, admission) = define_bundle_rule(store, n.theory, r.as_slice(), before, &[after]);
    index_rule_for(store, &n.bit_outputs, admission);
}

/// The ZF OR reduction over the 32 bits and the PF XOR reduction over the low byte.
#[verifier::rlimit(100)]
fn shift_reductions(
    store: &mut OptimizedLinkStore,
    gen: &mut AnchorGen,
    n: ShiftNames,
    zf_tags: &Vec<Handle>,
    pf_tags: &Vec<Handle>,
)
    requires
        has_room(old(store), 20500),
        old(gen).ok(old(store)),
        n.held(old(store)),
        zf_tags@.len() == 31,
        pf_tags@.len() == 7,
        all_held(old(store), zf_tags@),
        all_held(old(store), pf_tags@),
    ensures
        grown(old(store), final(store), 20500),
        final(gen).ok(final(store)),
{
    let mut i: usize = 0;
    while i < 31
        invariant
            i <= 31,
            has_room(old(store), 20500),
            grown(old(store), store, 500 * i as nat),
            gen.ok(store),
            n.held(store),
            zf_tags@.len() == 31,
            pf_tags@.len() == 7,
            all_held(store, zf_tags@),
            all_held(store, pf_tags@),
        decreases 31 - i,
    {
        if i + 1 < 31 {
            shift_reduce_step(store, gen, n, 0, zf_tags[i], zf_tags[i + 1], n.or2, false, i);
        } else {
            shift_reduce_step(store, gen, n, 0, zf_tags[i], n.zf_not_tag, n.or2, true, i);
        }
        i += 1;
    }
    shift_zf(store, gen, n, pf_tags[0]);
    let mut j: usize = 0;
    while j < 7
        invariant
            j <= 7,
            has_room(old(store), 20500),
            grown(old(store), store, 500 * 32 + 500 * j as nat),
            gen.ok(store),
            n.held(store),
            pf_tags@.len() == 7,
            all_held(store, pf_tags@),
        decreases 7 - j,
    {
        if j + 1 < 7 {
            shift_reduce_step(store, gen, n, 1, pf_tags[j], pf_tags[j + 1], n.xor2, false, j);
        } else {
            shift_reduce_step(store, gen, n, 1, pf_tags[j], n.pf_not_tag, n.xor2, true, j);
        }
        j += 1;
    }
}

/// The installed 32-bit shift program; `sal` is `shl`.
pub struct Shift32Program {
    pub shl: Handle,
    pub sal: Handle,
    pub shr: Handle,
    pub sar: Handle,
    pub raw_tag: Handle,
    pub result_tag: Handle,
    pub schema: FlagPatchSchema,
    pub gates: GateSet,
    pub links_after_build: usize,
}

/// The flag finals of SHL, SHR and SAR.
#[verifier::rlimit(100)]
fn install_shift_flag_finals(store: &mut OptimizedLinkStore, gen: &mut AnchorGen, n: ShiftNames)
    requires
        has_room(old(store), 2500),
        old(gen).ok(old(store)),
        n.held(old(store)),
    ensures
        grown(old(store), final(store), 2500),
{
    shift_final_general(store, gen, n);
    shift_final_one(store, gen, n, n.shr, true);
    shift_final_one(store, gen, n, n.sar, false);
    shift_shl_one(store, gen, n);
    shift_shl_of(store, gen, n);
}

/// The result reductions and flag finals shared by SHL, SHR and SAR.
#[verifier::rlimit(100)]
fn install_shift_finals(store: &mut OptimizedLinkStore, gen: &mut AnchorGen, n: ShiftNames)
    requires
        has_room(old(store), 23517),
        old(gen).ok(old(store)),
        n.held(old(store)),
    ensures
        grown(old(store), final(store), 23517),
{
    let mut n = n;
    n.zf_not_tag = gen.next(store);
    n.pf_not_tag = gen.next(store);
    n.shl_of_tag = gen.next(store);
    let zf_tags = pair_tags(store, gen, 31);
    let pf_tags = pair_tags(store, gen, 7);
    shift_raw_result(store, gen, n, zf_tags[0]);
    shift_reductions(store, gen, n, &zf_tags, &pf_tags);
    install_shift_flag_finals(store, gen, n);
}

/// The rules of SHL, SHR and SAR on the names `n`: the raw shifts, then
/// the result reductions and the flag finals.
#[verifier::rlimit(100)]
fn install_shift_rules(store: &mut OptimizedLinkStore, gen: &mut AnchorGen, n: ShiftNames)
    requires
        has_room(old(store), 61917),
        old(gen).ok(old(store)),
        n.held(old(store)),
    ensures
        grown(old(store), final(store), 61917),
        forall|c: usize| c < 32 ==> #[trigger] raw_rule(final(store).links(), raw_names(n), n.shl, ShiftKind::Shl, c),
        forall|c: usize| c < 32 ==> #[trigger] raw_rule(final(store).links(), raw_names(n), n.shr, ShiftKind::Shr, c),
        forall|c: usize| c < 32 ==> #[trigger] raw_rule(final(store).links(), raw_names(n), n.sar, ShiftKind::Sar, c),
{
    install_raw_rules(store, gen, n, n.shl, ShiftKind::Shl);
    let ghost l_shl = store.links();
    proof {
        store.lemma_wf_links();
    }
    install_raw_rules(store, gen, n, n.shr, ShiftKind::Shr);
    let ghost l_shr = store.links();
    proof {
        store.lemma_wf_links();
    }
    install_raw_rules(store, gen, n, n.sar, ShiftKind::Sar);
    let ghost l_sar = store.links();
    proof {
        store.lemma_wf_links();
    }
    install_shift_finals(store, gen, n);
    proof {
        assert forall|c: usize| c < 32 implies #[trigger] raw_rule(store.links(), raw_names(n), n.shl, ShiftKind::Shl, c) by {
            lemma_raw_rule_keep(l_shl, store.links(), raw_names(n), n.shl, ShiftKind::Shl, c);
        }
        assert forall|c: usize| c < 32 implies #[trigger] raw_rule(store.links(), raw_names(n), n.shr, ShiftKind::Shr, c) by {
            lemma_raw_rule_keep(l_shr, store.links(), raw_names(n), n.shr, ShiftKind::Shr, c);
        }
        assert forall|c: usize| c < 32 implies #[trigger] raw_rule(store.links(), raw_names(n), n.sar, ShiftKind::Sar, c) by {
            lemma_raw_rule_keep(l_sar, store.links(), raw_names(n), n.sar, ShiftKind::Sar, c);
        }
    }
}

/// The names the raw rules of `p` are stated over: the fixture's theory,
/// rule key, `apply`, zero and one, and the program's result and raw tags.
pub open spec fn shift_names(f: &Fixture, p: Shift32Program) -> (u32, u32, u32, u32, u32, u32, u32) {
    (f.theory, f.o, f.apply, f.zero, f.one, p.result_tag, p.raw_tag)
}

impl Shift32Program {
    /// Installs the 32-bit word logic and the shift program on it.
    /// `K -> Call(function, [Input, Count])` reacts to
    /// `K -> PAIR(ResultTag, [WriteBack, Word, FlagPatch])`: the count is
    /// masked to five bits; count 0 changes no flag; otherwise CF is the
    /// last bit shifted out, ZF, PF and SF follow the result, AF is
    /// undefined, and OF is defined only for count 1. The contract states,
    /// for each function and masked count, the installed raw rule with its
    /// shifted output word (`raw_rule`), and the gates' Boolean tables.
    #[verifier::spinoff_prover]
    #[verifier::rlimit(100)]
    pub fn install(f: &mut Fixture) -> (p: Shift32Program)
        requires
            old(f).wf(),
            has_room(&old(f).store, 130000),
        ensures
            final(f).wf(),
            grown(&old(f).store, &final(f).store, 130000),
            final(f).engine == old(f).engine,
            final(f).o == old(f).o && final(f).c == old(f).c && final(f).theory == old(f).theory,
            final(f).full == old(f).full && final(f).k == old(f).k && final(f).apply == old(f).apply,
            final(f).zero == old(f).zero && final(f).one == old(f).one && final(f).args3 == old(f).args3,
            p.sal == p.shl,
            p.shl != p.shr && p.shr != p.sar && p.shl != p.sar,
            p.links_after_build == final(f).store.links().len() - 1,
            holds(&final(f).store, p.shl),
            holds(&final(f).store, p.shr),
            holds(&final(f).store, p.sar),
            holds(&final(f).store, p.raw_tag),
            holds(&final(f).store, p.result_tag),
            p.schema.held(&final(f).store),
            p.gates.held(&final(f).store),
            forall|c: usize|
                c < 32 ==> #[trigger] raw_rule(final(f).store.links(), shift_names(final(f), p), p.shl, ShiftKind::Shl, c),
            forall|c: usize|
                c < 32 ==> #[trigger] raw_rule(final(f).store.links(), shift_names(final(f), p), p.shr, ShiftKind::Shr, c),
            forall|c: usize|
                c < 32 ==> #[trigger] raw_rule(final(f).store.links(), shift_names(final(f), p), p.sar, ShiftKind::Sar, c),
            gate_truth_tables(final(f).store.links(), (final(f).theory, final(f).o, final(f).apply), final(f).zero, final(f).one, p.gates),
    {
        let logic = LogicProgram::install(f, 32);
        let ghost l_gates = f.store.links();
        proof {
            f.store.lemma_wf_links();
        }
        let gates = logic.gates;
        let seed0 = pair(&mut f.store, logic.word_binary, logic.result_tag);
        let mut gen = shift_anchors(&mut f.store, seed0, f.o, f.c);
        let shl_left = gen.next(&mut f.store);
        let shl_right = gen.next(&mut f.store);
        let shl = pair(&mut f.store, shl_left, shl_right);
        let ghost l_shl = f.store.links();
        let shr_left = gen.next(&mut f.store);
        let ghost l_a = f.store.links();
        let shr_right = gen.next(&mut f.store);
        let ghost l_b = f.store.links();
        let shr = pair(&mut f.store, shr_left, shr_right);
        let ghost l_shr = f.store.links();
        let sar_left = gen.next(&mut f.store);
        let ghost l_c = f.store.links();
        let sar_right = gen.next(&mut f.store);
        let ghost l_d = f.store.links();
        let sar = pair(&mut f.store, sar_left, sar_right);
        let ghost l_sar = f.store.links();
        proof {
            // Every anchor is newer than the one before it, so the first
            // poles of the three functions differ.
            lemma_extends_trans(l_shl, l_a, l_b);
            lemma_extends_trans(l_shl, l_b, l_shr);
            lemma_pairs_differ(l_shl, l_shr, shl, (shl_left, shl_right), shr, (shr_left, shr_right));
            lemma_extends_trans(l_shr, l_c, l_d);
            lemma_extends_trans(l_shr, l_d, l_sar);
            lemma_extends_trans(l_shl, l_shr, l_sar);
            lemma_pairs_differ(l_shr, l_sar, shr, (shr_left, shr_right), sar, (sar_left, sar_right));
            lemma_pairs_differ(l_shl, l_sar, shl, (shl_left, shl_right), sar, (sar_left, sar_right));
        }
        let raw_left = gen.next(&mut f.store);
        let raw_right = gen.next(&mut f.store);
        let raw_tag = pair(&mut f.store, raw_left, raw_right);
        let shared_seed = pair(&mut f.store, f.k, f.full);
        let schema = FlagPatchSchema::install(&mut f.store, shared_seed, f.o, f.c);
        let result_tag = install_alu_effect_result_tag(&mut f.store, shared_seed, f.o, f.c);
        let n = ShiftNames {
            theory: f.theory,
            o: f.o,
            apply: f.apply,
            zero: f.zero,
            one: f.one,
            shl,
            shr,
            sar,
            raw_tag,
            result_tag,
            schema,
            or2: gates.or2,
            xor2: gates.xor2,
            not1: gates.not1,
            bit_outputs: gates.bit_outputs,
            zf_not_tag: raw_tag,
            pf_not_tag: raw_tag,
            shl_of_tag: raw_tag,
        };
        install_shift_rules(&mut f.store, &mut gen, n);
        let ghost rules_links = f.store.links();
        proof {
            f.store.lemma_wf_links();
        }
        let links_after_build = f.store.link_count();
        let p = Shift32Program { shl, sal: shl, shr, sar, raw_tag, result_tag, schema, gates, links_after_build };
        proof {
            assert(raw_names(n) == shift_names(f, p));
            lemma_gate_truth_tables_keep(l_gates, f.store.links(), (f.theory, f.o, f.apply), f.zero, f.one, gates);
            assert(f.store.links() == rules_links);
            assert forall|c: usize| c < 32 implies #[trigger] raw_rule(f.store.links(), shift_names(f, p), p.shl, ShiftKind::Shl, c) by {
                assert(raw_rule(rules_links, raw_names(n), n.shl, ShiftKind::Shl, c));
            }
            assert forall|c: usize| c < 32 implies #[trigger] raw_rule(f.store.links(), shift_names(f, p), p.shr, ShiftKind::Shr, c) by {
                assert(raw_rule(rules_links, raw_names(n), n.shr, ShiftKind::Shr, c));
            }
            assert forall|c: usize| c < 32 implies #[trigger] raw_rule(f.store.links(), shift_names(f, p), p.sar, ShiftKind::Sar, c) by {
                assert(raw_rule(rules_links, raw_names(n), n.sar, ShiftKind::Sar, c));
            }
        }
        p
    }
}

} // verus!
