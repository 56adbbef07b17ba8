//! Running the 32-bit shifts (SHL/SAL, SHR, SAR) and reading back their
//! result: the write-back bit, the word, and what the patch does to each
//! status flag, with the lab's flag masks.
use vstd::prelude::*;

use crate::circuit::Fixture;
use crate::effect_circuit::FlagPatchSchema;
use crate::logic_run::{
    has_flag, lemma_flag_bits, parity_even, parity_even_exec, WEB_AF, WEB_CF, WEB_OF, WEB_PF, WEB_SF,
    WEB_STATUS_FLAGS, WEB_ZF,
};
use crate::mux_run::{decode_bit, decode_word, result_payload, runnable, start_call_runnable, word_bits};
use crate::shift_circuit::Shift32Program;
use crate::store::OptimizedLinkStore;
use crate::structural::{materialize_exact_sequence, read_exact_sequence, OptimizedStructuralEngine};
use crate::structural_model::{quiescent_spec, single_reactions_spec};
use crate::Handle;

verus! {

/// What an effect does to one flag.
#[derive(Clone, Copy, Debug, PartialEq, Eq)]
pub enum FlagState {
    Preserve,
    SetTo(u8),
    Undefined,
}

/// The lab's four masks of `(flag bit, state)` pairs, folded left to right:
/// defined flags, those set to one, undefined ones, preserved ones.
pub open spec fn flag_masks_spec(states: Seq<(u32, FlagState)>) -> (u32, u32, u32, u32)
    decreases states.len(),
{
    if states.len() == 0 {
        (0, 0, 0, 0)
    } else {
        let (d, v, u, p) = flag_masks_spec(states.drop_last());
        let (mask, state) = states.last();
        match state {
            FlagState::SetTo(bit) => (d | mask, if bit != 0 { v | mask } else { v }, u, p),
            FlagState::Undefined => (d, v, u | mask, p),
            FlagState::Preserve => (d, v, u, p | mask),
        }
    }
}

/// What one `(flag bit, state)` pair adds to each of the four masks.
pub open spec fn pair_bits(e: (u32, FlagState)) -> (u32, u32, u32, u32) {
    match e.1 {
        FlagState::SetTo(b) => (e.0, if b != 0 { e.0 } else { 0 }, 0, 0),
        FlagState::Undefined => (0, 0, e.0, 0),
        FlagState::Preserve => (0, 0, 0, e.0),
    }
}

proof fn lemma_or_zero(x: u32)
    by (bit_vector)
    ensures
        x | 0 == x,
{
}

/// Folding one more pair ORs its bits into the four masks.
proof fn lemma_masks_step(s: Seq<(u32, FlagState)>)
    requires
        s.len() > 0,
    ensures
        ({
            let prev = flag_masks_spec(s.drop_last());
            let b = pair_bits(s.last());
            flag_masks_spec(s) == (prev.0 | b.0, prev.1 | b.1, prev.2 | b.2, prev.3 | b.3)
        }),
{
    let prev = flag_masks_spec(s.drop_last());
    lemma_or_zero(prev.0);
    lemma_or_zero(prev.1);
    lemma_or_zero(prev.2);
    lemma_or_zero(prev.3);
}

/// The four masks of six pairs, written out.
pub proof fn lemma_masks6(s: Seq<(u32, FlagState)>)
    requires
        s.len() == 6,
    ensures
        ({
            let r = flag_masks_spec(s);
            let (b0, b1, b2, b3, b4, b5) = (
                pair_bits(s[0]),
                pair_bits(s[1]),
                pair_bits(s[2]),
                pair_bits(s[3]),
                pair_bits(s[4]),
                pair_bits(s[5]),
            );
            &&& r.0 == (0u32 | b0.0 | b1.0 | b2.0 | b3.0 | b4.0 | b5.0)
            &&& r.1 == (0u32 | b0.1 | b1.1 | b2.1 | b3.1 | b4.1 | b5.1)
            &&& r.2 == (0u32 | b0.2 | b1.2 | b2.2 | b3.2 | b4.2 | b5.2)
            &&& r.3 == (0u32 | b0.3 | b1.3 | b2.3 | b3.3 | b4.3 | b5.3)
        }),
{
    let t5 = s.drop_last();
    let t4 = t5.drop_last();
    let t3 = t4.drop_last();
    let t2 = t3.drop_last();
    let t1 = t2.drop_last();
    let t0 = t1.drop_last();
    assert(t0.len() == 0);
    assert(s.last() == s[5] && t5.last() == s[4] && t4.last() == s[3] && t3.last() == s[2] && t2.last() == s[1]
        && t1.last() == s[0]);
    lemma_masks_step(t1);
    lemma_masks_step(t2);
    lemma_masks_step(t3);
    lemma_masks_step(t4);
    lemma_masks_step(t5);
    lemma_masks_step(s);
}

/// A pair's contribution to each mask is clear or the pair's own bit.
pub proof fn lemma_pair_bits(e: (u32, FlagState))
    ensures
        pair_bits(e).0 == 0 || pair_bits(e).0 == e.0,
        pair_bits(e).1 == 0 || pair_bits(e).1 == e.0,
        pair_bits(e).2 == 0 || pair_bits(e).2 == e.0,
        pair_bits(e).3 == 0 || pair_bits(e).3 == e.0,
{
}

/// `st` sets its flag to one.
pub open spec fn sets_one(st: FlagState) -> bool {
    st matches FlagState::SetTo(b) && b != 0
}

/// The four masks say of `flag` what `st` does to it.
pub open spec fn masks_say(r: (u32, u32, u32, u32), flag: u32, st: FlagState) -> bool {
    &&& has_flag(r.0, flag) == (st is SetTo)
    &&& has_flag(r.1, flag) == sets_one(st)
    &&& has_flag(r.2, flag) == (st is Undefined)
    &&& has_flag(r.3, flag) == (st is Preserve)
}

proof fn lemma_one_mask(c: u32, p: u32, a: u32, z: u32, s: u32, o: u32, rotate_order: bool, r: u32)
    requires
        c == 0 || c == 1,
        p == 0 || p == 4,
        a == 0 || a == 0x10,
        z == 0 || z == 0x40,
        s == 0 || s == 0x80,
        o == 0 || o == 0x800,
        rotate_order ==> r == (0u32 | p | a | z | s | c | o),
        !rotate_order ==> r == (0u32 | c | p | a | z | s | o),
    ensures
        has_flag(r, WEB_CF) == (c != 0),
        has_flag(r, WEB_PF) == (p != 0),
        has_flag(r, WEB_AF) == (a != 0),
        has_flag(r, WEB_ZF) == (z != 0),
        has_flag(r, WEB_SF) == (s != 0),
        has_flag(r, WEB_OF) == (o != 0),
{
    lemma_flag_bits(c, p, a, z, s, o);
}

/// The masks of the flags in the order CF, PF, AF, ZF, SF, OF (or, for
/// `rotate_order`, PF, AF, ZF, SF, CF, OF) say of each flag what its state
/// does to it.
pub proof fn lemma_six_masks(
    cf: FlagState,
    pf: FlagState,
    af: FlagState,
    zf: FlagState,
    sf: FlagState,
    of: FlagState,
    rotate_order: bool,
)
    ensures
        ({
            let s = if rotate_order {
                seq![(WEB_PF, pf), (WEB_AF, af), (WEB_ZF, zf), (WEB_SF, sf), (WEB_CF, cf), (WEB_OF, of)]
            } else {
                seq![(WEB_CF, cf), (WEB_PF, pf), (WEB_AF, af), (WEB_ZF, zf), (WEB_SF, sf), (WEB_OF, of)]
            };
            let r = flag_masks_spec(s);
            &&& masks_say(r, WEB_CF, cf)
            &&& masks_say(r, WEB_PF, pf)
            &&& masks_say(r, WEB_AF, af)
            &&& masks_say(r, WEB_ZF, zf)
            &&& masks_say(r, WEB_SF, sf)
            &&& masks_say(r, WEB_OF, of)
        }),
{
    let s = if rotate_order {
        seq![(WEB_PF, pf), (WEB_AF, af), (WEB_ZF, zf), (WEB_SF, sf), (WEB_CF, cf), (WEB_OF, of)]
    } else {
        seq![(WEB_CF, cf), (WEB_PF, pf), (WEB_AF, af), (WEB_ZF, zf), (WEB_SF, sf), (WEB_OF, of)]
    };
    lemma_masks6(s);
    let r = flag_masks_spec(s);
    let (c, p, a, z, sg, o) = (
        pair_bits((WEB_CF, cf)),
        pair_bits((WEB_PF, pf)),
        pair_bits((WEB_AF, af)),
        pair_bits((WEB_ZF, zf)),
        pair_bits((WEB_SF, sf)),
        pair_bits((WEB_OF, of)),
    );
    lemma_pair_bits((WEB_CF, cf));
    lemma_pair_bits((WEB_PF, pf));
    lemma_pair_bits((WEB_AF, af));
    lemma_pair_bits((WEB_ZF, zf));
    lemma_pair_bits((WEB_SF, sf));
    lemma_pair_bits((WEB_OF, of));
    lemma_one_mask(c.0, p.0, a.0, z.0, sg.0, o.0, rotate_order, r.0);
    lemma_one_mask(c.1, p.1, a.1, z.1, sg.1, o.1, rotate_order, r.1);
    lemma_one_mask(c.2, p.2, a.2, z.2, sg.2, o.2, rotate_order, r.2);
    lemma_one_mask(c.3, p.3, a.3, z.3, sg.3, o.3, rotate_order, r.3);
}

/// The masks of the six `(flag bit, state)` pairs.
pub fn web_flag_masks(states: [(u32, FlagState); 6]) -> (r: (u32, u32, u32, u32))
    ensures
        r == flag_masks_spec(states@),
{
    let mut defined: u32 = 0;
    let mut values: u32 = 0;
    let mut undefined: u32 = 0;
    let mut preserve: u32 = 0;
    let mut i: usize = 0;
    while i < 6
        invariant
            i <= 6,
            states@.len() == 6,
            (defined, values, undefined, preserve) == flag_masks_spec(states@.subrange(0, i as int)),
        decreases 6 - i,
    {
        let (mask, state) = states[i];
        proof {
            assert(states@.subrange(0, i + 1).drop_last() =~= states@.subrange(0, i as int));
        }
        match state {
            FlagState::SetTo(bit) => {
                defined = defined | mask;
                if bit != 0 {
                    values = values | mask;
                }
            },
            FlagState::Undefined => {
                undefined = undefined | mask;
            },
            FlagState::Preserve => {
                preserve = preserve | mask;
            },
        }
        i += 1;
    }
    proof {
        assert(states@.subrange(0, 6) =~= states@);
    }
    (defined, values, undefined, preserve)
}

/// A shift read back.
#[derive(Clone, Copy, Debug, PartialEq, Eq)]
pub struct ShiftOutcome {
    pub writeback: u8,
    pub value: u32,
    pub cf: FlagState,
    pub pf: FlagState,
    pub af: FlagState,
    pub zf: FlagState,
    pub sf: FlagState,
    pub of: FlagState,
    pub reactions: usize,
}

/// A flag action of the patch for `flag`: set to a bit, or undefined.
pub(crate) fn decode_action(store: &OptimizedLinkStore, zero: Handle, one: Handle, schema: FlagPatchSchema, action: Handle, flag: Handle) -> (r:
    Option<FlagState>)
    requires
        store.wf(),
    ensures
        r matches Some(s) ==> s != FlagState::Preserve,
{
    let (tag, payload) = match store.poles(action) {
        Ok(p) => p,
        Err(_) => return None,
    };
    let values = match read_exact_sequence(store, payload) {
        Ok(v) => v,
        Err(_) => return None,
    };
    if tag == schema.set_tag {
        if values.len() != 2 || values[0] != flag {
            return None;
        }
        match decode_bit(zero, one, values[1]) {
            Some(b) => Some(FlagState::SetTo(b)),
            None => None,
        }
    } else if tag == schema.undefined_tag {
        if values.len() != 1 || values[0] != flag {
            return None;
        }
        Some(FlagState::Undefined)
    } else {
        None
    }
}

/// Reads the result `K -> PAIR(ResultTag, [WriteBack, Word, FlagPatch])`;
/// an empty patch preserves every flag.
fn decode_shift_effect(f: &Fixture, program: &Shift32Program, reactions: usize) -> (r: Option<ShiftOutcome>)
    requires
        runnable(f),
    ensures
        r matches Some(o) ==> o.writeback <= 1 && o.reactions == reactions,
{
    let values = match result_payload(f, program.result_tag) {
        Some(v) => v,
        None => return None,
    };
    if values.len() != 3 {
        return None;
    }
    let writeback = match decode_bit(f.zero, f.one, values[0]) {
        Some(b) => b,
        None => return None,
    };
    let value = match decode_word(&f.store, f.zero, f.one, 32, values[1]) {
        Some(v) => v,
        None => return None,
    };
    let patch = match read_exact_sequence(&f.store, values[2]) {
        Ok(p) => p,
        Err(_) => return None,
    };
    if patch.len() == 0 {
        let p = FlagState::Preserve;
        return Some(ShiftOutcome { writeback, value, cf: p, pf: p, af: p, zf: p, sf: p, of: p, reactions });
    }
    if patch.len() != 6 {
        return None;
    }
    let s = program.schema;
    let cf = decode_action(&f.store, f.zero, f.one, s, patch[0], s.cf);
    let pf = decode_action(&f.store, f.zero, f.one, s, patch[1], s.pf);
    let af = decode_action(&f.store, f.zero, f.one, s, patch[2], s.af);
    let zf = decode_action(&f.store, f.zero, f.one, s, patch[3], s.zf);
    let sf = decode_action(&f.store, f.zero, f.one, s, patch[4], s.sf);
    let of = decode_action(&f.store, f.zero, f.one, s, patch[5], s.of);
    match (cf, pf, af, zf, sf, of) {
        (Some(cf), Some(pf), Some(af), Some(zf), Some(sf), Some(of)) => Some(
            ShiftOutcome { writeback, value, cf, pf, af, zf, sf, of, reactions },
        ),
        _ => None,
    }
}

/// Runs until quiescent, each active reaction matching one rule and handing
/// one member over; the number of active reactions, at most `max`.
pub(crate) fn run_until_quiescent(engine: &mut OptimizedStructuralEngine, store: &mut OptimizedLinkStore, max: usize) -> (r:
    Option<usize>)
    requires
        old(engine).wf(),
        old(store).wf(),
    ensures
        final(engine).wf(),
        final(store).wf(),
        final(store).limit() == old(store).limit(),
        final(engine).interpreter_view() == old(engine).interpreter_view(),
        final(engine).scope_cap() == old(engine).scope_cap(),
        r matches Some(n) ==> n <= max && final(engine).quiescent_view(),
        r matches Some(n) ==> (single_reactions_spec(
            old(store).links(),
            old(store).limit(),
            old(engine).interpreter_view(),
            old(engine).current_view(),
            old(engine).scope_cap(),
            n as nat,
        ) matches Some((links, scope)) && quiescent_spec(
            links,
            old(store).limit(),
            old(engine).interpreter_view(),
            scope,
            old(engine).scope_cap(),
        )),
{
    let mut reactions: usize = 0;
    loop
        invariant
            reactions <= max,
            engine.wf(),
            store.wf(),
            store.limit() == old(store).limit(),
            engine.interpreter_view() == old(engine).interpreter_view(),
            engine.scope_cap() == old(engine).scope_cap(),
            single_reactions_spec(
                old(store).links(),
                old(store).limit(),
                old(engine).interpreter_view(),
                old(engine).current_view(),
                old(engine).scope_cap(),
                reactions as nat,
            ) == Some((store.links(), engine.current_view())),
        decreases max - reactions,
    {
        let result = match engine.run(store) {
            Ok(r) => r,
            Err(_) => return None,
        };
        if result.quiescent {
            if result.raw_rule_matches != 0 || result.handoff_count != 0 {
                return None;
            }
            return Some(reactions);
        }
        if result.raw_rule_matches != 1 || result.transitioned_members != 1 || result.handoff_count != 1
            || result.next_members.len() != 1 || reactions >= max {
            return None;
        }
        reactions += 1;
    }
}

/// `Call(function, [Input, Count])` on `value` and `count`, run until
/// quiescent (at most 90 reactions) and read back.
fn run_shift(f: &mut Fixture, program: &Shift32Program, function: Handle, value: u32, count: u8) -> (r: Option<
    ShiftOutcome,
>)
    requires
        runnable(old(f)),
    ensures
        runnable(final(f)),
        final(f).k == old(f).k && final(f).zero == old(f).zero && final(f).one == old(f).one,
        final(f).apply == old(f).apply,
        r matches Some(o) ==> o.writeback <= 1 && o.reactions <= 90,
{
    let word_bits_v = word_bits(f.zero, f.one, 32, value);
    let count_bits = word_bits(f.zero, f.one, 8, count as u32);
    let word = match materialize_exact_sequence(&mut f.store, word_bits_v.as_slice()) {
        Ok(h) => h,
        Err(_) => return None,
    };
    let count_word = match materialize_exact_sequence(&mut f.store, count_bits.as_slice()) {
        Ok(h) => h,
        Err(_) => return None,
    };
    let args = match materialize_exact_sequence(&mut f.store, &[word, count_word]) {
        Ok(h) => h,
        Err(_) => return None,
    };
    if !start_call_runnable(f, function, args) {
        return None;
    }
    let reactions = match run_until_quiescent(&mut f.engine, &mut f.store, 90) {
        Some(n) => n,
        None => return None,
    };
    decode_shift_effect(f, program, reactions)
}

/// The word an 80386 shift gives by the masked count `m` (1 to 31):
/// 13 SHL, 14 SHR, 15 SAR.
pub open spec fn shifted(op: u32, value: u32, m: u32) -> u32 {
    if op == 13 {
        value << m
    } else if op == 14 {
        value >> m
    } else {
        ((value as i32) >> m) as u32
    }
}

/// The last bit shifted out.
pub open spec fn shift_carry(op: u32, value: u32, m: u32) -> u32 {
    if op == 13 {
        (value >> ((32 - m) as u32)) & 1
    } else {
        (value >> ((m - 1) as u32)) & 1
    }
}

/// The 80386 effect of a shift by `count` (masked to five bits): count 0
/// writes the word back and changes no flag; otherwise CF is the last bit
/// shifted out, PF, ZF and SF follow the result, AF is undefined, and OF is
/// defined for count 1 only (SHL: the new sign XOR CF; SHR: the old sign;
/// SAR: 0). The reaction count is that of the program.
pub open spec fn shift_expected(op: u32, value: u32, count: u32) -> ShiftOutcome {
    let m = count & 31;
    if m == 0 {
        ShiftOutcome {
            writeback: 1,
            value,
            cf: FlagState::Preserve,
            pf: FlagState::Preserve,
            af: FlagState::Preserve,
            zf: FlagState::Preserve,
            sf: FlagState::Preserve,
            of: FlagState::Preserve,
            reactions: 1,
        }
    } else {
        let result = shifted(op, value, m);
        let cf = shift_carry(op, value, m);
        ShiftOutcome {
            writeback: 1,
            value: result,
            cf: FlagState::SetTo(cf as u8),
            pf: FlagState::SetTo(if parity_even(result) { 1u8 } else { 0u8 }),
            af: FlagState::Undefined,
            zf: FlagState::SetTo(if result == 0 { 1u8 } else { 0u8 }),
            sf: FlagState::SetTo(((result >> 31u32) & 1) as u8),
            of: if m == 1 {
                if op == 13 {
                    FlagState::SetTo((((result >> 31u32) & 1) ^ cf) as u8)
                } else if op == 14 {
                    FlagState::SetTo(((value >> 31u32) & 1) as u8)
                } else {
                    FlagState::SetTo(0)
                }
            } else {
                FlagState::Undefined
            },
            reactions: if m == 1 && op == 13 { 84 } else { 82 },
        }
    }
}

/// What a shift report says of 13 SHL, 14 SHR or 15 SAR of `value` by
/// `count`, with `m` the count masked to five bits. For `m == 0` the word
/// comes back unchanged and every flag is preserved. Otherwise the word is
/// the shift (SAR fills with the sign), CF is the last bit shifted out, ZF,
/// SF and PF follow the word, AF is undefined, and OF is defined for `m == 1`
/// only: for SHL the new sign differs from CF, for SHR the original sign, for
/// SAR clear.
pub open spec fn shift_report_law(
    op: u32,
    value: u32,
    count: u32,
    word: u32,
    masks: (u32, u32, u32, u32),
) -> bool {
    let m = count & 31;
    let (defined, ones, undefined, preserved) = masks;
    if m == 0 {
        &&& word == value
        &&& defined == 0
        &&& ones == 0
        &&& undefined == 0
        &&& preserved == WEB_STATUS_FLAGS
    } else {
        let out: bool = if op == 13 {
            (value >> ((32 - m) as u32)) & 1 == 1
        } else {
            (value >> ((m - 1) as u32)) & 1 == 1
        };
        &&& op == 13 ==> word == value << m
        &&& op == 14 ==> word == value >> m
        &&& op == 15 ==> word == ((value >> m) | (if value >= 0x8000_0000 { !(0xffff_ffffu32 >> m) } else { 0 }))
        &&& has_flag(defined, WEB_CF) && has_flag(ones, WEB_CF) == out
        &&& has_flag(defined, WEB_ZF) && has_flag(ones, WEB_ZF) == (word == 0)
        &&& has_flag(defined, WEB_SF) && has_flag(ones, WEB_SF) == (word >= 0x8000_0000)
        &&& has_flag(defined, WEB_PF) && has_flag(ones, WEB_PF) == parity_even(word)
        &&& has_flag(undefined, WEB_AF) && !has_flag(defined, WEB_AF)
        &&& m == 1 ==> has_flag(defined, WEB_OF) && has_flag(ones, WEB_OF) == (if op == 13 {
            (word >= 0x8000_0000) != out
        } else if op == 14 {
            value >= 0x8000_0000
        } else {
            false
        })
        &&& m > 1 ==> has_flag(undefined, WEB_OF) && !has_flag(defined, WEB_OF)
    }
}

proof fn lemma_shift_operand_bits(value: u32, m: u32)
    by (bit_vector)
    requires
        1 <= m <= 31,
    ensures
        ((((value as i32) >> m) as u32) == ((value >> m) | (if value >= 0x8000_0000 {
            !(0xffff_ffffu32 >> m)
        } else {
            0
        }))),
        (((value >> 31u32) & 1) as u8 != 0) == (value >= 0x8000_0000),
        ((value >> ((32 - m) as u32)) & 1) <= 1,
        ((value >> ((m - 1) as u32)) & 1) <= 1,
        (((value >> ((32 - m) as u32)) & 1) as u8 != 0) == ((value >> ((32 - m) as u32)) & 1 == 1),
        (((value >> ((m - 1) as u32)) & 1) as u8 != 0) == ((value >> ((m - 1) as u32)) & 1 == 1),
{
}

proof fn lemma_result_bits(r: u32, c: u32)
    by (bit_vector)
    requires
        c <= 1,
    ensures
        (((r >> 31u32) & 1) as u8 != 0) == (r >= 0x8000_0000),
        ((((r >> 31u32) & 1) ^ c) as u8 != 0) == ((r >= 0x8000_0000) != (c == 1)),
        (((r >> 31u32) & 1) ^ ((r >> 30u32) & 1)) as u8 != 0 == ((r >= 0x8000_0000) != ((r >> 30u32) & 1 == 1)),
        ((r & 1) as u8 != 0) == (r & 1 == 1),
        r & 1 <= 1,
        (r >> 31u32) & 1 <= 1,
{
}

/// SHL, SHR and SAR report what the 80386 does, stated over the operand and
/// count alone: in particular SHR by one sets OF to the original sign.
pub proof fn law_shift_report(op: u32, value: u32, count: u32)
    requires
        13 <= op <= 15,
    ensures
        ({
            let e = shift_expected(op, value, count);
            shift_report_law(
                op,
                value,
                count,
                e.value,
                flag_masks_spec(
                    seq![(WEB_CF, e.cf), (WEB_PF, e.pf), (WEB_AF, e.af), (WEB_ZF, e.zf), (WEB_SF, e.sf), (WEB_OF, e.of)],
                ),
            )
        }),
{
    let e = shift_expected(op, value, count);
    lemma_six_masks(e.cf, e.pf, e.af, e.zf, e.sf, e.of, false);
    let m = count & 31;
    assert(count & 31 <= 31) by (bit_vector);
    if m != 0 {
        let c = shift_carry(op, value, m);
        lemma_shift_operand_bits(value, m);
        lemma_result_bits(e.value, c);
        let r = flag_masks_spec(
            seq![(WEB_CF, e.cf), (WEB_PF, e.pf), (WEB_AF, e.af), (WEB_ZF, e.zf), (WEB_SF, e.sf), (WEB_OF, e.of)],
        );
        let out: bool = if op == 13 {
            (value >> ((32 - m) as u32)) & 1 == 1
        } else {
            (value >> ((m - 1) as u32)) & 1 == 1
        };
        let word = e.value;
        assert(op == 15 ==> word == ((value >> m) | (if value >= 0x8000_0000 { !(0xffff_ffffu32 >> m) } else { 0 })));
        assert(has_flag(r.0, WEB_CF) && has_flag(r.1, WEB_CF) == out);
        assert(has_flag(r.0, WEB_ZF) && has_flag(r.1, WEB_ZF) == (word == 0));
        assert(has_flag(r.0, WEB_SF) && has_flag(r.1, WEB_SF) == (word >= 0x8000_0000));
        assert(has_flag(r.0, WEB_PF) && has_flag(r.1, WEB_PF) == parity_even(word));
        assert(has_flag(r.2, WEB_AF) && !has_flag(r.0, WEB_AF));
        assert(m == 1 ==> has_flag(r.0, WEB_OF) && has_flag(r.1, WEB_OF) == (if op == 13 {
            (word >= 0x8000_0000) != out
        } else if op == 14 {
            value >= 0x8000_0000
        } else {
            false
        }));
        assert(m > 1 ==> has_flag(r.2, WEB_OF) && !has_flag(r.0, WEB_OF));
    } else {
        let r = flag_masks_spec(
            seq![(WEB_CF, e.cf), (WEB_PF, e.pf), (WEB_AF, e.af), (WEB_ZF, e.zf), (WEB_SF, e.sf), (WEB_OF, e.of)],
        );
        lemma_masks6(
            seq![(WEB_CF, e.cf), (WEB_PF, e.pf), (WEB_AF, e.af), (WEB_ZF, e.zf), (WEB_SF, e.sf), (WEB_OF, e.of)],
        );
        assert((0u32 | 0u32 | 0u32 | 0u32 | 0u32 | 0u32 | 0u32) == 0u32) by (bit_vector);
        assert((0u32 | 1u32 | 4u32 | 0x10u32 | 0x40u32 | 0x80u32 | 0x800u32) == 0x8d5u32) by (bit_vector);
        assert(r.0 == 0);
        assert(r.3 == WEB_STATUS_FLAGS);
    }
}

/// `shift_expected`, computed.
fn shift_expected_exec(op: u32, value: u32, count: u32) -> (o: ShiftOutcome)
    ensures
        o == shift_expected(op, value, count),
{
    let m = count & 31;
    if m == 0 {
        return ShiftOutcome {
            writeback: 1,
            value,
            cf: FlagState::Preserve,
            pf: FlagState::Preserve,
            af: FlagState::Preserve,
            zf: FlagState::Preserve,
            sf: FlagState::Preserve,
            of: FlagState::Preserve,
            reactions: 1,
        };
    }
    proof {
        assert(m < 32) by (bit_vector)
            requires
                m == count & 31,
        ;
    }
    let result = if op == 13 {
        value << m
    } else if op == 14 {
        value >> m
    } else {
        ((value as i32) >> m) as u32
    };
    let cf = if op == 13 {
        (value >> (32 - m)) & 1
    } else {
        (value >> (m - 1)) & 1
    };
    let pf: u8 = if parity_even_exec(result) {
        1
    } else {
        0
    };
    let zf: u8 = if result == 0 {
        1
    } else {
        0
    };
    let of = if m == 1 {
        if op == 13 {
            FlagState::SetTo((((result >> 31u32) & 1) ^ cf) as u8)
        } else if op == 14 {
            FlagState::SetTo(((value >> 31u32) & 1) as u8)
        } else {
            FlagState::SetTo(0)
        }
    } else {
        FlagState::Undefined
    };
    ShiftOutcome {
        writeback: 1,
        value: result,
        cf: FlagState::SetTo(cf as u8),
        pf: FlagState::SetTo(pf),
        af: FlagState::Undefined,
        zf: FlagState::SetTo(zf),
        sf: FlagState::SetTo(((result >> 31u32) & 1) as u8),
        of,
        reactions: if m == 1 && op == 13 {
            84
        } else {
            82
        },
    }
}

/// A shift lab run.
#[derive(Clone, Copy, Debug, PartialEq, Eq)]
pub struct WebShiftOutcome {
    pub value: u32,
    pub writeback: u8,
    pub defined_mask: u32,
    pub value_mask: u32,
    pub undefined_mask: u32,
    pub preserve_mask: u32,
    pub reactions: u32,
    pub links_after_build: usize,
    pub links_after_first: usize,
    pub steady_link_delta: usize,
    pub quiescent: u8,
}

fn same_state(x: FlagState, y: FlagState) -> (b: bool)
    ensures
        b ==> x == y,
{
    match (x, y) {
        (FlagState::Preserve, FlagState::Preserve) => true,
        (FlagState::Undefined, FlagState::Undefined) => true,
        (FlagState::SetTo(p), FlagState::SetTo(q)) => p == q,
        _ => false,
    }
}

/// The two outcomes agree in every field.
fn same_shift(x: ShiftOutcome, y: ShiftOutcome) -> (b: bool)
    ensures
        b ==> x == y,
{
    x.writeback == y.writeback && x.value == y.value && same_state(x.cf, y.cf) && same_state(x.pf, y.pf)
        && same_state(x.af, y.af) && same_state(x.zf, y.zf) && same_state(x.sf, y.sf) && same_state(x.of, y.of)
        && x.reactions == y.reactions
}

/// The shift lab operation `op` (13 SHL, 14 SHR, 15 SAR) of `value` by
/// `count` in a fresh memory, run twice. The outcome is the one decoded
/// from the memory; it is returned only when it is the 80386 effect
/// (`shift_expected`) and the identical rerun reproduced it without adding
/// a Link. `None` for a count above 255, another operation, and for any
/// run that fails or breaks one of these promises. The masks are
/// `web_flag_masks` of the flags in the order CF, PF, AF, ZF, SF, OF.
pub fn web_run_shift32(op: u32, value: u32, count: u32) -> (r: Option<WebShiftOutcome>)
    ensures
        count > 255 || !(13 <= op <= 15) ==> r is None,
        r matches Some(o) ==> {
            let e = shift_expected(op, value, count);
            &&& o.value == e.value
            &&& o.writeback == 1
            &&& (o.defined_mask, o.value_mask, o.undefined_mask, o.preserve_mask) == flag_masks_spec(
                seq![(WEB_CF, e.cf), (WEB_PF, e.pf), (WEB_AF, e.af), (WEB_ZF, e.zf), (WEB_SF, e.sf), (WEB_OF, e.of)],
            )
            &&& o.reactions == e.reactions
            &&& o.quiescent == 1
            &&& o.steady_link_delta == 0
            &&& o.links_after_build <= o.links_after_first
            &&& shift_report_law(op, value, count, o.value, (o.defined_mask, o.value_mask, o.undefined_mask, o.preserve_mask))
        },
{
    if count > 255 || op < 13 || op > 15 {
        return None;
    }
    let mut f = Fixture::new();
    let p = Shift32Program::install(&mut f);
    let function = if op == 13 {
        p.shl
    } else if op == 14 {
        p.shr
    } else {
        p.sar
    };
    let links_after_build = f.store.link_count();
    let first = match run_shift(&mut f, &p, function, value, count as u8) {
        Some(o) => o,
        None => return None,
    };
    let links_after_first = f.store.link_count();
    let second = match run_shift(&mut f, &p, function, value, count as u8) {
        Some(o) => o,
        None => return None,
    };
    proof {
        law_shift_report(op, value, count);
    }
    let expected = shift_expected_exec(op, value, count);
    if !same_shift(first, expected) || !same_shift(second, first) {
        return None;
    }
    let links_after_second = f.store.link_count();
    if links_after_first < links_after_build || links_after_second != links_after_first {
        return None;
    }
    let (defined_mask, value_mask, undefined_mask, preserve_mask) = web_flag_masks(
        [
            (WEB_CF, first.cf),
            (WEB_PF, first.pf),
            (WEB_AF, first.af),
            (WEB_ZF, first.zf),
            (WEB_SF, first.sf),
            (WEB_OF, first.of),
        ],
    );
    Some(
        WebShiftOutcome {
            value: first.value,
            writeback: first.writeback,
            defined_mask,
            value_mask,
            undefined_mask,
            preserve_mask,
            reactions: first.reactions as u32,
            links_after_build,
            links_after_first,
            steady_link_delta: links_after_second - links_after_first,
            quiescent: 1,
        },
    )
}

} // verus!
