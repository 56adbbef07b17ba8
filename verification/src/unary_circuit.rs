//! INC, DEC and NEG on N-bit words, reusing the flagged arithmetic: INC is
//! `A + 1`, DEC `A - 1`, NEG `0 - A`. INC and DEC leave CF out of the patch
//! (it is preserved); NEG sets it.
use vstd::prelude::*;

use crate::arith_circuit::{AnchorGen};
use crate::circuit::{
    call, define_bundle_rule, grown, has_room, holds, index_rule_for, lemma_functions_differ,
    lemma_increasing_distinct, pair, sequence, stage_frame, Fixture,
};
use crate::effect_circuit::{install_alu_effect_result_tag, set_flag_action, FlagPatchSchema};
use crate::flags_circuit::FlaggedArithmeticProgram;
use crate::model::lemma_extends_trans;
use crate::store::OptimizedLinkStore;
use crate::Handle;

verus! {

/// The anchors of the unary program: `seed, o c c c o c o o c, (o, c) * width`.
fn unary_anchors(store: &mut OptimizedLinkStore, seed: Handle, o: Handle, c: Handle, width: usize) -> (g: AnchorGen)
    requires
        has_room(old(store), 2 * width as nat + 9),
        holds(old(store), seed),
        holds(old(store), o),
        holds(old(store), c),
    ensures
        grown(old(store), final(store), 2 * width as nat + 9),
        g.ok(final(store)),
{
    let poles = [o, c, c, c, o, c, o, o, c];
    let mut seed = seed;
    let mut i: usize = 0;
    while i < 9
        invariant
            i <= 9,
            poles@.len() == 9,
            grown(old(store), store, i as nat),
            has_room(old(store), 2 * width as nat + 9),
            holds(store, seed),
            forall|j: int| 0 <= j < 9 ==> holds(old(store), #[trigger] poles@[j]),
        decreases 9 - i,
    {
        seed = pair(store, seed, poles[i]);
        i += 1;
    }
    let mut w: usize = 0;
    while w < width
        invariant
            w <= width,
            grown(old(store), store, 2 * w as nat + 9),
            has_room(old(store), 2 * width as nat + 9),
            holds(store, seed),
            holds(old(store), o),
            holds(old(store), c),
        decreases width - w,
    {
        seed = pair(store, seed, o);
        seed = pair(store, seed, c);
        w += 1;
    }
    AnchorGen { current: seed, flip: false, o, c }
}

/// The Links the unary rules are built from.
#[derive(Clone, Copy)]
struct UnaryNames {
    theory: Handle,
    o: Handle,
    apply: Handle,
    one: Handle,
    flagged: Handle,
    flagged_result_tag: Handle,
    result_tag: Handle,
    schema: FlagPatchSchema,
}

impl UnaryNames {
    spec fn held(&self, store: &OptimizedLinkStore) -> bool {
        &&& holds(store, self.theory)
        &&& holds(store, self.o)
        &&& holds(store, self.apply)
        &&& holds(store, self.one)
        &&& holds(store, self.flagged)
        &&& holds(store, self.flagged_result_tag)
        &&& holds(store, self.result_tag)
        &&& self.schema.held(store)
    }
}

/// `K -> Call(function, [Operand])` becomes
/// `Frame([K]) -> Call(FLAGGED, [lhs, rhs, X, Mode])`, the operand standing
/// on the left (`operand_left`) or on the right of the fixed word.
fn unary_open(
    store: &mut OptimizedLinkStore,
    gen: &mut AnchorGen,
    theory: Handle,
    o: Handle,
    apply: Handle,
    function: Handle,
    flagged: Handle,
    tag: Handle,
    fixed_word: Handle,
    operand_left: bool,
    x: Handle,
    mode: Handle,
)
    requires
        has_room(old(store), 60),
        old(gen).ok(old(store)),
        holds(old(store), theory),
        holds(old(store), o),
        holds(old(store), apply),
        holds(old(store), function),
        holds(old(store), flagged),
        holds(old(store), tag),
        holds(old(store), fixed_word),
        holds(old(store), x),
        holds(old(store), mode),
    ensures
        grown(old(store), final(store), 60),
        final(gen).ok(final(store)),
{
    let r = gen.roles(store, 2);
    let k = r[0];
    let operand = r[1];
    let input_args = sequence(store, &[operand]);
    let before_call = call(store, apply, function, input_args);
    let before = pair(store, k, before_call);
    let (lhs, rhs) = if operand_left {
        (operand, fixed_word)
    } else {
        (fixed_word, operand)
    };
    let flagged_args = sequence(store, &[lhs, rhs, x, mode]);
    let flagged_call = call(store, apply, flagged, flagged_args);
    let caller = stage_frame(store, tag, &[k]);
    let after = pair(store, caller, flagged_call);
    proof {
        lemma_increasing_distinct(r@);
    }
    let (_, admission) = define_bundle_rule(store, theory, r.as_slice(), before, &[after]);
    index_rule_for(store, &[o], admission);
}

/// The flagged result `Frame([K]) -> PAIR(FlaggedResult, [Word, CF, PF, AF,
/// ZF, SF, OF])` becomes `K -> PAIR(ResultTag, [1, Word, Patch])`; the patch
/// sets CF only when `with_cf`.
#[verifier::rlimit(100)]
fn unary_result(store: &mut OptimizedLinkStore, gen: &mut AnchorGen, n: UnaryNames, tag: Handle, with_cf: bool)
    requires
        has_room(old(store), 150),
        old(gen).ok(old(store)),
        n.held(old(store)),
        holds(old(store), tag),
    ensures
        grown(old(store), final(store), 150),
        final(gen).ok(final(store)),
{
    // [K, Word, CF, PF, AF, ZF, SF, OF]
    let r = gen.roles(store, 8);
    let k = r[0];
    let word = r[1];
    let flagged_payload = sequence(store, &r.as_slice()[1..8]);
    let flagged_envelope = pair(store, n.flagged_result_tag, flagged_payload);
    let caller = stage_frame(store, tag, &[k]);
    let before = pair(store, caller, flagged_envelope);
    let s = n.schema;
    let patch = if with_cf {
        let set_cf = set_flag_action(store, s, s.cf, r[2]);
        let set_pf = set_flag_action(store, s, s.pf, r[3]);
        let set_af = set_flag_action(store, s, s.af, r[4]);
        let set_zf = set_flag_action(store, s, s.zf, r[5]);
        let set_sf = set_flag_action(store, s, s.sf, r[6]);
        let set_of = set_flag_action(store, s, s.of, r[7]);
        sequence(store, &[set_cf, set_pf, set_af, set_zf, set_sf, set_of])
    } else {
        let set_pf = set_flag_action(store, s, s.pf, r[3]);
        let set_af = set_flag_action(store, s, s.af, r[4]);
        let set_zf = set_flag_action(store, s, s.zf, r[5]);
        let set_sf = set_flag_action(store, s, s.sf, r[6]);
        let set_of = set_flag_action(store, s, s.of, r[7]);
        sequence(store, &[set_pf, set_af, set_zf, set_sf, set_of])
    };
    let payload = sequence(store, &[n.one, word, patch]);
    let envelope = pair(store, n.result_tag, payload);
    let after = pair(store, k, envelope);
    proof {
        lemma_increasing_distinct(r@);
    }
    let (_, admission) = define_bundle_rule(store, n.theory, r.as_slice(), before, &[after]);
    index_rule_for(store, &[n.flagged_result_tag], admission);
}

/// `count` copies of `value`, then `value` replaced by `first` at position 0.
pub(crate) fn word_of(value: Handle, first: Handle, count: usize) -> (v: Vec<Handle>)
    requires
        count >= 1,
    ensures
        v@.len() == count,
        v@[0] == first,
        forall|i: int| 1 <= i < count ==> #[trigger] v@[i] == value,
{
    let mut v: Vec<Handle> = Vec::new();
    v.push(first);
    let mut i: usize = 1;
    while i < count
        invariant
            1 <= i <= count,
            v@.len() == i,
            v@[0] == first,
            forall|j: int| 1 <= j < i ==> #[trigger] v@[j] == value,
        decreases count - i,
    {
        v.push(value);
        i += 1;
    }
    v
}

/// The installed unary program.
pub struct UnaryArithProgram {
    pub width: usize,
    pub inc: Handle,
    pub dec: Handle,
    pub neg: Handle,
    pub result_tag: Handle,
    pub schema: FlagPatchSchema,
    pub flagged: FlaggedArithmeticProgram,
    pub active_steps: usize,
    pub links_after_build: usize,
}

impl UnaryArithProgram {
    /// Installs the flagged `width`-bit arithmetic and INC, DEC and NEG on it.
    /// `K -> Call(op, [Word])` reacts in `33 + 18 * width` steps to
    /// `K -> PAIR(ResultTag, [1, Word, FlagPatch])`.
    #[verifier::rlimit(100)]
    pub fn install(f: &mut Fixture, width: usize) -> (p: UnaryArithProgram)
        requires
            old(f).wf(),
            8 <= width <= 32,
            has_room(&old(f).store, 81000),
        ensures
            final(f).wf(),
            grown(&old(f).store, &final(f).store, 81000),
            final(f).engine == old(f).engine,
            final(f).o == old(f).o && final(f).c == old(f).c && final(f).theory == old(f).theory,
            final(f).full == old(f).full && final(f).k == old(f).k && final(f).apply == old(f).apply,
            final(f).zero == old(f).zero && final(f).one == old(f).one && final(f).args3 == old(f).args3,
            p.width == width,
            p.active_steps == 33 + 18 * width,
            p.links_after_build == final(f).store.links().len() - 1,
            p.inc != p.dec && p.inc != p.neg && p.dec != p.neg,
            holds(&final(f).store, p.inc),
            holds(&final(f).store, p.dec),
            holds(&final(f).store, p.neg),
            holds(&final(f).store, p.result_tag),
            p.schema.held(&final(f).store),
    {
        let flagged = FlaggedArithmeticProgram::install(f, width);
        let seed = pair(&mut f.store, flagged.flagged, flagged.result_tag);
        let mut gen = unary_anchors(&mut f.store, seed, f.o, f.c, width);
        let inc = gen.function_pair(&mut f.store);
        let ghost l_inc = f.store.links();
        let ghost g_inc = gen.current;
        let dec = gen.function_pair(&mut f.store);
        let ghost l_dec = f.store.links();
        let ghost g_dec = gen.current;
        let neg = gen.function_pair(&mut f.store);
        let ghost l_neg = f.store.links();
        proof {
            lemma_functions_differ(l_inc, l_dec, inc, dec, g_inc);
            lemma_extends_trans(l_inc, l_dec, l_neg);
            lemma_functions_differ(l_inc, l_neg, inc, neg, g_inc);
            lemma_functions_differ(l_dec, l_neg, dec, neg, g_dec);
        }
        let incdec_tag = gen.next(&mut f.store);
        let neg_tag = gen.next(&mut f.store);
        let zeros = word_of(f.zero, f.zero, width);
        let zero_word = sequence(&mut f.store, zeros.as_slice());
        let ones = word_of(f.zero, f.one, width);
        let one_word = sequence(&mut f.store, ones.as_slice());
        // INC: A + 1; DEC: A - 1; NEG: 0 - A.
        unary_open(
            &mut f.store,
            &mut gen,
            f.theory,
            f.o,
            f.apply,
            inc,
            flagged.flagged,
            incdec_tag,
            one_word,
            true,
            f.zero,
            f.zero,
        );
        unary_open(
            &mut f.store,
            &mut gen,
            f.theory,
            f.o,
            f.apply,
            dec,
            flagged.flagged,
            incdec_tag,
            one_word,
            true,
            f.zero,
            f.one,
        );
        unary_open(
            &mut f.store,
            &mut gen,
            f.theory,
            f.o,
            f.apply,
            neg,
            flagged.flagged,
            neg_tag,
            zero_word,
            false,
            f.zero,
            f.one,
        );
        let shared = pair(&mut f.store, f.k, f.full);
        let schema = FlagPatchSchema::install(&mut f.store, shared, f.o, f.c);
        let result_tag = install_alu_effect_result_tag(&mut f.store, shared, f.o, f.c);
        let n = UnaryNames {
            theory: f.theory,
            o: f.o,
            apply: f.apply,
            one: f.one,
            flagged: flagged.flagged,
            flagged_result_tag: flagged.result_tag,
            result_tag,
            schema,
        };
        // INC/DEC take the whole flagged result but leave CF out of the
        // patch, so CF is preserved; NEG publishes CF too.
        unary_result(&mut f.store, &mut gen, n, incdec_tag, false);
        unary_result(&mut f.store, &mut gen, n, neg_tag, true);
        proof {
            f.store.lemma_wf_links();
        }
        let links_after_build = f.store.link_count();
        let active_steps = flagged.active_steps + 2;
        UnaryArithProgram {
            width,
            inc,
            dec,
            neg,
            result_tag,
            schema,
            flagged,
            active_steps,
            links_after_build,
        }
    }
}

} // verus!
