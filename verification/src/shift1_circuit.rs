//! One-position shifts of an N-bit word (SHL1/SAL1, SHR1, SAR1), each a
//! single structural rule whose output template is wired from the input's
//! role bits: `K -> Call(op, [Word])` becomes
//! `K -> PAIR(ResultTag, [Shifted, CF, op])`.
use vstd::prelude::*;

use crate::arith_circuit::{append, AnchorGen};
use crate::circuit::{
    admits_rule, call, call_shape, define_bundle_rule, grown, has_room, holds, increasing, index_rule_for,
    indexed_under, keeps, lemma_admits_rule_keep, lemma_call_shape_keep, lemma_functions_differ, lemma_indexed_keep,
    lemma_sequence_reads_keep, lemma_tagged_shape_keep, pair, sequence, sequence_reads, tagged_shape, Fixture,
};
use crate::model::{lemma_extends_trans, links_wf, Links};
use crate::store::OptimizedLinkStore;
use crate::Handle;

verus! {

/// The anchors of the one-position shifts, in a namespace of their own:
/// `seed, o, c, c, o, c, (c, o, o) * width`.
fn shift1_anchors(store: &mut OptimizedLinkStore, seed: Handle, o: Handle, c: Handle, width: usize) -> (g: AnchorGen)
    requires
        has_room(old(store), 3 * width as nat + 5),
        holds(old(store), seed),
        holds(old(store), o),
        holds(old(store), c),
    ensures
        grown(old(store), final(store), 3 * width as nat + 5),
        g.ok(final(store)),
{
    let mut seed = pair(store, seed, o);
    seed = pair(store, seed, c);
    seed = pair(store, seed, c);
    seed = pair(store, seed, o);
    seed = pair(store, seed, c);
    let mut i: usize = 0;
    while i < width
        invariant
            i <= width,
            grown(old(store), store, 3 * i as nat + 5),
            has_room(old(store), 3 * width as nat + 5),
            holds(store, seed),
            holds(old(store), o),
            holds(old(store), c),
        decreases width - i,
    {
        seed = pair(store, seed, c);
        seed = pair(store, seed, o);
        seed = pair(store, seed, o);
        i += 1;
    }
    AnchorGen { current: seed, flip: false, o, c }
}

/// A newer head before an increasing list gives a list without duplicates.
proof fn lemma_head_then_increasing(k: Handle, s: Seq<Handle>)
    requires
        increasing(s),
        forall|i: int| 0 <= i < s.len() ==> #[trigger] s[i] < k,
    ensures
        (seq![k] + s).no_duplicates(),
{
    let z = seq![k] + s;
    assert forall|a: int, b: int| 0 <= a < z.len() && 0 <= b < z.len() && a != b implies #[trigger] z[a]
        != #[trigger] z[b] by {
        if a == 0 {
            assert(z[b] == s[b - 1]);
        } else if b == 0 {
            assert(z[a] == s[a - 1]);
        } else if a < b {
            assert(z[a] == s[a - 1] && z[b] == s[b - 1]);
        } else {
            assert(z[a] == s[a - 1] && z[b] == s[b - 1]);
        }
    }
}

/// Which one-position shift a rule performs.
#[derive(Clone, Copy, PartialEq, Eq)]
pub enum Shift1Kind {
    Left,
    LogicalRight,
    ArithmeticRight,
}

/// The roles of a one-position shift of the word whose bit roles are
/// `input` (least significant first), and its CF role.
pub open spec fn shift1_output(zero: Handle, input: Seq<Handle>, kind: Shift1Kind) -> (Seq<Handle>, Handle) {
    let w = input.len() as int;
    match kind {
        Shift1Kind::Left => (seq![zero] + input.subrange(0, w - 1), input[w - 1]),
        Shift1Kind::LogicalRight => (input.subrange(1, w) + seq![zero], input[0]),
        Shift1Kind::ArithmeticRight => (input.subrange(1, w) + seq![input[w - 1]], input[0]),
    }
}

/// The one-position shift rule of `function` stands in `links`, admitted by
/// `names.0` through `w.0` and indexed under `names.1`. Its roles are `K`
/// (`w.2`) and the input bits `w.1`; it rewrites `w.3`, that is
/// `K -> Call(function, [Word])` with `Word` the word `w.5` of the input
/// bits, into `w.4`, that is `K -> PAIR(result_tag, [Shifted, CF, function])`
/// with `Shifted` the word `w.6` of `shift1_output`.
pub open spec fn shift1_rule_at(
    links: Links,
    names: (u32, u32, u32, u32, u32),
    function: u32,
    kind: Shift1Kind,
    width: usize,
    w: (u32, Seq<u32>, u32, u32, u32, u32, u32),
) -> bool {
    let (theory, key, apply, zero, result_tag) = names;
    let (admission, input, k, before, after, word, output_word) = w;
    let out = shift1_output(zero, input, kind);
    &&& input.len() == width
    &&& admits_rule(links, theory, admission, seq![k] + input, before, seq![after])
    &&& indexed_under(links, key, admission)
    &&& call_shape(links, before, k, apply, function, seq![word])
    &&& sequence_reads(links, word, input)
    &&& sequence_reads(links, output_word, out.0)
    &&& tagged_shape(links, after, k, result_tag, seq![output_word, out.1, function])
}

/// Some one-position shift rule of `function` stands in `links`.
#[verifier::opaque]
pub open spec fn shift1_rule_stands(
    links: Links,
    names: (u32, u32, u32, u32, u32),
    function: u32,
    kind: Shift1Kind,
    width: usize,
) -> bool {
    exists|w: (u32, Seq<u32>, u32, u32, u32, u32, u32)| #[trigger] shift1_rule_at(links, names, function, kind, width, w)
}

/// A one-position shift rule stays in place after more Links.
pub proof fn lemma_shift1_rule_keep(
    l1: Links,
    l2: Links,
    names: (u32, u32, u32, u32, u32),
    function: u32,
    kind: Shift1Kind,
    width: usize,
)
    requires
        links_wf(l1),
        keeps(l1, l2),
        shift1_rule_stands(l1, names, function, kind, width),
    ensures
        shift1_rule_stands(l2, names, function, kind, width),
{
    reveal(shift1_rule_stands);
    let w = choose|w: (u32, Seq<u32>, u32, u32, u32, u32, u32)| #[trigger] shift1_rule_at(l1, names, function, kind, width, w);
    let (theory, key, apply, zero, result_tag) = names;
    let (admission, input, k, before, after, word, output_word) = w;
    let out = shift1_output(zero, input, kind);
    lemma_admits_rule_keep(l1, l2, theory, admission, seq![k] + input, before, seq![after]);
    lemma_indexed_keep(l1, l2, key, admission);
    lemma_call_shape_keep(l1, l2, before, k, apply, function, seq![word]);
    lemma_sequence_reads_keep(l1, l2, word, input);
    lemma_sequence_reads_keep(l1, l2, output_word, out.0);
    lemma_tagged_shape_keep(l1, l2, after, k, result_tag, seq![output_word, out.1, function]);
    assert(shift1_rule_at(l2, names, function, kind, width, w));
}

/// The rule of one shift on `width` role bits `in_0 .. in_{width-1}`
/// (least significant first): SHL gives `[0, in_0 .. in_{width-2}]` and CF
/// `in_{width-1}`; SHR gives `[in_1 .. in_{width-1}, 0]` and CF `in_0`; SAR
/// gives `[in_1 .. in_{width-1}, in_{width-1}]` and CF `in_0`.
#[verifier::rlimit(100)]
fn shift1_rule(
    store: &mut OptimizedLinkStore,
    gen: &mut AnchorGen,
    theory: Handle,
    o: Handle,
    apply: Handle,
    zero: Handle,
    result_tag: Handle,
    function: Handle,
    kind: Shift1Kind,
    width: usize,
)
    requires
        has_room(old(store), 400),
        old(gen).ok(old(store)),
        holds(old(store), theory),
        holds(old(store), o),
        holds(old(store), apply),
        holds(old(store), zero),
        holds(old(store), result_tag),
        holds(old(store), function),
        8 <= width <= 32,
    ensures
        grown(old(store), final(store), 400),
        final(gen).ok(final(store)),
        shift1_rule_stands(final(store).links(), (theory, o, apply, zero, result_tag), function, kind, width as usize),
{
    let input_bits = gen.roles(store, width);
    let k = gen.next(store);
    let mut out: Vec<Handle> = Vec::new();
    let cf = match kind {
        Shift1Kind::Left => {
            out.push(zero);
            append(&mut out, &input_bits.as_slice()[0..width - 1]);
            input_bits[width - 1]
        },
        Shift1Kind::LogicalRight => {
            append(&mut out, &input_bits.as_slice()[1..width]);
            out.push(zero);
            input_bits[0]
        },
        Shift1Kind::ArithmeticRight => {
            append(&mut out, &input_bits.as_slice()[1..width]);
            out.push(input_bits[width - 1]);
            input_bits[0]
        },
    };
    proof {
        let expected = shift1_output(zero, input_bits@, kind);
        assert(out@ =~= expected.0);
        assert(cf == expected.1);
    }
    let word = sequence(store, input_bits.as_slice());
    let ghost l_word = store.links();
    proof {
        store.lemma_wf_links();
    }
    let args = sequence(store, &[word]);
    let ghost l_args = store.links();
    proof {
        store.lemma_wf_links();
        assert([word]@ =~= seq![word]);
    }
    let target = pair(store, function, args);
    let invocation = pair(store, apply, target);
    let before = pair(store, k, invocation);
    let ghost l_before = store.links();
    proof {
        store.lemma_wf_links();
        lemma_sequence_reads_keep(l_args, l_before, args, seq![word]);
        assert(call_shape(l_before, before, k, apply, function, seq![word]));
    }
    let output_word = sequence(store, out.as_slice());
    let ghost l_output = store.links();
    proof {
        store.lemma_wf_links();
    }
    let payload = sequence(store, &[output_word, cf, function]);
    let ghost l_payload = store.links();
    proof {
        store.lemma_wf_links();
        assert([output_word, cf, function]@ =~= seq![output_word, cf, function]);
    }
    let envelope = pair(store, result_tag, payload);
    let after = pair(store, k, envelope);
    let ghost l_shapes = store.links();
    let mut roles: Vec<Handle> = Vec::new();
    roles.push(k);
    append(&mut roles, input_bits.as_slice());
    proof {
        lemma_head_then_increasing(k, input_bits@);
        assert(roles@ =~= seq![k] + input_bits@);
        store.lemma_wf_links();
        lemma_sequence_reads_keep(l_payload, l_shapes, payload, seq![output_word, cf, function]);
        assert(tagged_shape(l_shapes, after, k, result_tag, seq![output_word, cf, function]));
        lemma_call_shape_keep(l_before, l_shapes, before, k, apply, function, seq![word]);
        lemma_sequence_reads_keep(l_word, l_shapes, word, input_bits@);
        lemma_sequence_reads_keep(l_output, l_shapes, output_word, out@);
    }
    let (_, admission) = define_bundle_rule(store, theory, roles.as_slice(), before, &[after]);
    let ghost l_rule = store.links();
    proof {
        store.lemma_wf_links();
        assert([after]@ =~= seq![after]);
    }
    index_rule_for(store, &[o], admission);
    proof {
        store.lemma_wf_links();
        assert([o]@[0] == o);
        let l = store.links();
        let names = (theory, o, apply, zero, result_tag);
        let w = (admission, input_bits@, k, before, after, word, output_word);
        lemma_admits_rule_keep(l_rule, l, theory, admission, seq![k] + input_bits@, before, seq![after]);
        lemma_call_shape_keep(l_shapes, l, before, k, apply, function, seq![word]);
        lemma_sequence_reads_keep(l_shapes, l, word, input_bits@);
        lemma_sequence_reads_keep(l_shapes, l, output_word, out@);
        lemma_tagged_shape_keep(l_shapes, l, after, k, result_tag, seq![output_word, cf, function]);
        assert(shift1_rule_at(l, names, function, kind, width, w));
        reveal(shift1_rule_stands);
    }
}

/// The installed one-position shifts; `sal1` is `shl1`.
pub struct Shift1Program {
    pub width: usize,
    pub shl1: Handle,
    pub sal1: Handle,
    pub shr1: Handle,
    pub sar1: Handle,
    pub result_tag: Handle,
    pub active_steps: usize,
    pub links_after_build: usize,
}

/// The names the rules of `p` are stated over: the fixture's theory, rule
/// key, `apply` and zero, and the program's result tag.
pub open spec fn shift1_names(f: &Fixture, p: Shift1Program) -> (u32, u32, u32, u32, u32) {
    (f.theory, f.o, f.apply, f.zero, p.result_tag)
}

impl Shift1Program {
    /// Installs SHL1, SHR1 and SAR1 on `width`-bit words; each call reacts
    /// in one step to `K -> PAIR(ResultTag, [Shifted, CF, op])`. The contract
    /// states each installed rule with its shifted output word (`shift1_rule_stands`).
    #[verifier::rlimit(100)]
    pub fn install(f: &mut Fixture, width: usize) -> (p: Shift1Program)
        requires
            old(f).wf(),
            8 <= width <= 32,
            has_room(&old(f).store, 1500),
        ensures
            final(f).wf(),
            grown(&old(f).store, &final(f).store, 1500),
            final(f).engine == old(f).engine,
            final(f).o == old(f).o && final(f).c == old(f).c && final(f).theory == old(f).theory,
            final(f).full == old(f).full && final(f).k == old(f).k && final(f).apply == old(f).apply,
            final(f).zero == old(f).zero && final(f).one == old(f).one && final(f).args3 == old(f).args3,
            p.width == width,
            p.sal1 == p.shl1,
            p.active_steps == 1,
            p.links_after_build == final(f).store.links().len() - 1,
            p.shl1 != p.shr1 && p.shl1 != p.sar1 && p.shl1 != p.result_tag && p.shr1 != p.sar1 && p.shr1 != p.result_tag && p.sar1 != p.result_tag,
            holds(&final(f).store, p.shl1),
            holds(&final(f).store, p.shr1),
            holds(&final(f).store, p.sar1),
            holds(&final(f).store, p.result_tag),
            shift1_rule_stands(final(f).store.links(), shift1_names(final(f), p), p.shl1, Shift1Kind::Left, width),
            shift1_rule_stands(final(f).store.links(), shift1_names(final(f), p), p.shr1, Shift1Kind::LogicalRight, width),
            shift1_rule_stands(final(f).store.links(), shift1_names(final(f), p), p.sar1, Shift1Kind::ArithmeticRight, width),
    {
        let seed0 = pair(&mut f.store, f.k, f.full);
        let mut gen = shift1_anchors(&mut f.store, seed0, f.o, f.c, width);
        let shl1 = gen.function_pair(&mut f.store);
        let ghost l_shl1 = f.store.links();
        let ghost g_shl1 = gen.current;
        let shr1 = gen.function_pair(&mut f.store);
        let ghost l_shr1 = f.store.links();
        let ghost g_shr1 = gen.current;
        let sar1 = gen.function_pair(&mut f.store);
        let ghost l_sar1 = f.store.links();
        let ghost g_sar1 = gen.current;
        let result_tag = gen.function_pair(&mut f.store);
        let ghost l_result_tag = f.store.links();
        let ghost g_result_tag = gen.current;
        proof {
            lemma_functions_differ(l_shl1, l_shr1, shl1, shr1, g_shl1);
            lemma_extends_trans(l_shl1, l_shr1, l_sar1);
            lemma_functions_differ(l_shl1, l_sar1, shl1, sar1, g_shl1);
            lemma_extends_trans(l_shl1, l_sar1, l_result_tag);
            lemma_functions_differ(l_shl1, l_result_tag, shl1, result_tag, g_shl1);
            lemma_functions_differ(l_shr1, l_sar1, shr1, sar1, g_shr1);
            lemma_extends_trans(l_shr1, l_sar1, l_result_tag);
            lemma_functions_differ(l_shr1, l_result_tag, shr1, result_tag, g_shr1);
            lemma_functions_differ(l_sar1, l_result_tag, sar1, result_tag, g_sar1);
        }
        // Each rule has a role namespace of its own: generic over the bit
        // values, with the operation fixed structurally.
        shift1_rule(&mut f.store, &mut gen, f.theory, f.o, f.apply, f.zero, result_tag, shl1, Shift1Kind::Left, width);
        let ghost l_left = f.store.links();
        proof {
            f.store.lemma_wf_links();
        }
        shift1_rule(
            &mut f.store,
            &mut gen,
            f.theory,
            f.o,
            f.apply,
            f.zero,
            result_tag,
            shr1,
            Shift1Kind::LogicalRight,
            width,
        );
        let ghost l_right = f.store.links();
        proof {
            f.store.lemma_wf_links();
        }
        shift1_rule(
            &mut f.store,
            &mut gen,
            f.theory,
            f.o,
            f.apply,
            f.zero,
            result_tag,
            sar1,
            Shift1Kind::ArithmeticRight,
            width,
        );
        proof {
            f.store.lemma_wf_links();
        }
        let links_after_build = f.store.link_count();
        let p = Shift1Program {
            width,
            shl1,
            sal1: shl1,
            shr1,
            sar1,
            result_tag,
            active_steps: 1,
            links_after_build,
        };
        proof {
            let names = (f.theory, f.o, f.apply, f.zero, result_tag);
            assert(names == shift1_names(f, p));
            lemma_shift1_rule_keep(l_left, f.store.links(), names, shl1, Shift1Kind::Left, width);
            lemma_shift1_rule_keep(l_right, f.store.links(), names, shr1, Shift1Kind::LogicalRight, width);
        }
        p
    }
}

} // verus!
