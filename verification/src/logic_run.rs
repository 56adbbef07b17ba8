//! Running the 32-bit logical effects (AND, OR, XOR, NOT, TEST) and reading
//! back their result: the write-back bit, the word and the flag patch, and
//! the lab's flag masks.
use vstd::prelude::*;

use crate::circuit::Fixture;
use crate::effect_circuit::{FlagPatchSchema, LogicEffectProgram};
use crate::mux_run::{
    bit_of, decode_bit, decode_word, result_payload, run_exact_steps, runnable, start_call_runnable, word_bits,
};
use crate::store::OptimizedLinkStore;
use crate::structural::{materialize_exact_sequence, read_exact_sequence};
use crate::Handle;

verus! {

/// The lab's bit for CF.
pub const WEB_CF: u32 = 0x1;
/// The lab's bit for PF.
pub const WEB_PF: u32 = 0x4;
/// The lab's bit for AF.
pub const WEB_AF: u32 = 0x10;
/// The lab's bit for ZF.
pub const WEB_ZF: u32 = 0x40;
/// The lab's bit for SF.
pub const WEB_SF: u32 = 0x80;
/// The lab's bit for OF.
pub const WEB_OF: u32 = 0x800;
/// The six status flags.
pub const WEB_STATUS_FLAGS: u32 = 0x8d5;

/// `m & bit` is nonzero: the lab's flag `bit` is in the mask `m`.
pub open spec fn has_flag(m: u32, bit: u32) -> bool {
    m & bit != 0
}

/// Six flag contributions, each clear or its own lab bit, combined in either
/// of the two orders the lab uses: each lab bit of the combination is set
/// exactly when that flag contributes it.
pub proof fn lemma_flag_bits(c: u32, p: u32, a: u32, z: u32, s: u32, o: u32)
    by (bit_vector)
    requires
        c == 0 || c == 1,
        p == 0 || p == 4,
        a == 0 || a == 0x10,
        z == 0 || z == 0x40,
        s == 0 || s == 0x80,
        o == 0 || o == 0x800,
    ensures
        (c | p | a | z | s | o) == (0u32 | c | p | a | z | s | o),
        (c | p | a | z | s | o) == (0u32 | p | a | z | s | c | o),
        ((c | p | a | z | s | o) & 1 != 0) == (c != 0),
        ((c | p | a | z | s | o) & 4 != 0) == (p != 0),
        ((c | p | a | z | s | o) & 0x10 != 0) == (a != 0),
        ((c | p | a | z | s | o) & 0x40 != 0) == (z != 0),
        ((c | p | a | z | s | o) & 0x80 != 0) == (s != 0),
        ((c | p | a | z | s | o) & 0x800 != 0) == (o != 0),
{
}

/// A logical effect read back: the write-back bit, the word, each flag the
/// patch sets (`None` where it sets none), whether it leaves AF undefined,
/// and the patch's length (0 when no flag changes).
#[derive(Clone, Copy, Debug, PartialEq, Eq)]
pub struct EffectOutcome {
    pub writeback: u8,
    pub value: u32,
    pub cf: Option<u8>,
    pub pf: Option<u8>,
    pub af_undefined: bool,
    pub zf: Option<u8>,
    pub sf: Option<u8>,
    pub of: Option<u8>,
    pub patch_len: usize,
}

/// `mask` when `on`, else 0.
pub open spec fn mask_if(on: bool, mask: u32) -> u32 {
    if on {
        mask
    } else {
        0
    }
}

fn flag_mask(on: bool, mask: u32) -> (r: u32)
    ensures
        r == mask_if(on, mask),
{
    if on {
        mask
    } else {
        0
    }
}

/// The flag is set to one.
pub open spec fn is_set_one(flag: Option<u8>) -> bool {
    flag matches Some(b) && b != 0
}

fn set_one(flag: Option<u8>) -> (r: bool)
    ensures
        r == is_set_one(flag),
{
    match flag {
        Some(b) => b != 0,
        None => false,
    }
}

/// The flags the outcome defines.
pub open spec fn defined_mask_of(out: EffectOutcome) -> u32 {
    mask_if(out.cf is Some, WEB_CF) | mask_if(out.pf is Some, WEB_PF) | mask_if(out.zf is Some, WEB_ZF) | mask_if(
        out.sf is Some,
        WEB_SF,
    ) | mask_if(out.of is Some, WEB_OF)
}

/// The defined flags it sets to one.
pub open spec fn value_mask_of(out: EffectOutcome) -> u32 {
    mask_if(is_set_one(out.cf), WEB_CF) | mask_if(is_set_one(out.pf), WEB_PF) | mask_if(is_set_one(out.zf), WEB_ZF)
        | mask_if(is_set_one(out.sf), WEB_SF) | mask_if(is_set_one(out.of), WEB_OF)
}

/// The lab's masks of an outcome: defined flags, those set to one, the
/// undefined ones (AF when the patch leaves it undefined), and the status
/// flags left as they were.
pub fn web_logic_masks(out: EffectOutcome) -> (r: (u32, u32, u32, u32))
    ensures
        r.0 == defined_mask_of(out),
        r.1 == value_mask_of(out),
        r.2 == mask_if(out.af_undefined, WEB_AF),
        r.3 == WEB_STATUS_FLAGS & !(r.0 | r.2),
{
    let defined = flag_mask(out.cf.is_some(), WEB_CF) | flag_mask(out.pf.is_some(), WEB_PF) | flag_mask(
        out.zf.is_some(),
        WEB_ZF,
    ) | flag_mask(out.sf.is_some(), WEB_SF) | flag_mask(out.of.is_some(), WEB_OF);
    let values = flag_mask(set_one(out.cf), WEB_CF) | flag_mask(set_one(out.pf), WEB_PF) | flag_mask(
        set_one(out.zf),
        WEB_ZF,
    ) | flag_mask(set_one(out.sf), WEB_SF) | flag_mask(set_one(out.of), WEB_OF);
    let undefined = flag_mask(out.af_undefined, WEB_AF);
    let preserve = WEB_STATUS_FLAGS & !(defined | undefined);
    (defined, values, undefined, preserve)
}

/// A set action for `flag`: `PAIR(SetTag, [flag, bit])`; the bit.
fn decode_set(store: &OptimizedLinkStore, zero: Handle, one: Handle, schema: FlagPatchSchema, action: Handle, flag: Handle) -> (r:
    Option<u8>)
    requires
        store.wf(),
    ensures
        r matches Some(v) ==> v <= 1,
{
    let (tag, payload) = match store.poles(action) {
        Ok(p) => p,
        Err(_) => return None,
    };
    if tag != schema.set_tag {
        return None;
    }
    let values = match read_exact_sequence(store, payload) {
        Ok(v) => v,
        Err(_) => return None,
    };
    if values.len() != 2 || values[0] != flag {
        return None;
    }
    decode_bit(zero, one, values[1])
}

/// An undefined action for `flag`: `PAIR(UndefinedTag, [flag])`.
fn is_undefined_action(store: &OptimizedLinkStore, schema: FlagPatchSchema, action: Handle, flag: Handle) -> (b: bool)
    requires
        store.wf(),
{
    let (tag, payload) = match store.poles(action) {
        Ok(p) => p,
        Err(_) => return false,
    };
    if tag != schema.undefined_tag {
        return false;
    }
    match read_exact_sequence(store, payload) {
        Ok(values) => values.len() == 1 && values[0] == flag,
        Err(_) => false,
    }
}

/// Reads the result `K -> PAIR(ResultTag, [WriteBack, Word, FlagPatch])`
/// that is the whole scope. The patch is empty or sets CF, PF, ZF, SF, OF
/// and leaves AF undefined, in the schema's order.
fn decode_effect(f: &Fixture, program: &LogicEffectProgram) -> (r: Option<EffectOutcome>)
    requires
        runnable(f),
        program.width <= 32,
    ensures
        r matches Some(o) ==> o.writeback <= 1 && (o.patch_len == 0 || o.patch_len == 6),
{
    let values = match result_payload(f, program.result_tag) {
        Some(v) => v,
        None => return None,
    };
    if values.len() != 3 {
        return None;
    }
    let writeback = match decode_bit(f.zero, f.one, values[0]) {
        Some(b) => b,
        None => return None,
    };
    let value = match decode_word(&f.store, f.zero, f.one, program.width, values[1]) {
        Some(v) => v,
        None => return None,
    };
    let patch = match read_exact_sequence(&f.store, values[2]) {
        Ok(p) => p,
        Err(_) => return None,
    };
    if patch.len() == 0 {
        return Some(
            EffectOutcome {
                writeback,
                value,
                cf: None,
                pf: None,
                af_undefined: false,
                zf: None,
                sf: None,
                of: None,
                patch_len: 0,
            },
        );
    }
    if patch.len() != 6 {
        return None;
    }
    let s = program.schema;
    let cf = decode_set(&f.store, f.zero, f.one, s, patch[0], s.cf);
    let pf = decode_set(&f.store, f.zero, f.one, s, patch[1], s.pf);
    let af_undefined = is_undefined_action(&f.store, s, patch[2], s.af);
    let zf = decode_set(&f.store, f.zero, f.one, s, patch[3], s.zf);
    let sf = decode_set(&f.store, f.zero, f.one, s, patch[4], s.sf);
    let of = decode_set(&f.store, f.zero, f.one, s, patch[5], s.of);
    if cf.is_none() || pf.is_none() || !af_undefined || zf.is_none() || sf.is_none() || of.is_none() {
        return None;
    }
    Some(EffectOutcome { writeback, value, cf, pf, af_undefined: true, zf, sf, of, patch_len: 6 })
}

/// `Call(BIN_EFFECT, [gate, A, B, WriteBack])` on the words `a` and `b`,
/// run for the program's binary step count, read back.
fn run_binary_effect(f: &mut Fixture, program: &LogicEffectProgram, gate: Handle, a: u32, b: u32, writeback: u8) -> (r:
    Option<EffectOutcome>)
    requires
        runnable(old(f)),
        program.width <= 32,
        writeback <= 1,
    ensures
        runnable(final(f)),
        final(f).k == old(f).k && final(f).zero == old(f).zero && final(f).one == old(f).one,
        final(f).apply == old(f).apply,
        r matches Some(o) ==> o.writeback <= 1 && (o.patch_len == 0 || o.patch_len == 6),
{
    let a_bits = word_bits(f.zero, f.one, program.width, a);
    let b_bits = word_bits(f.zero, f.one, program.width, b);
    let aword = match materialize_exact_sequence(&mut f.store, a_bits.as_slice()) {
        Ok(h) => h,
        Err(_) => return None,
    };
    let bword = match materialize_exact_sequence(&mut f.store, b_bits.as_slice()) {
        Ok(h) => h,
        Err(_) => return None,
    };
    let wb = if writeback == 0 {
        f.zero
    } else {
        f.one
    };
    let args = match materialize_exact_sequence(&mut f.store, &[gate, aword, bword, wb]) {
        Ok(h) => h,
        Err(_) => return None,
    };
    if !start_call_runnable(f, program.binary_effect, args) {
        return None;
    }
    if !run_exact_steps(&mut f.engine, &mut f.store, program.binary_steps) {
        return None;
    }
    decode_effect(f, program)
}

/// `Call(NOT_EFFECT, [A])` on the word `a`, run and read back.
fn run_not_effect(f: &mut Fixture, program: &LogicEffectProgram, a: u32) -> (r: Option<EffectOutcome>)
    requires
        runnable(old(f)),
        program.width <= 32,
    ensures
        runnable(final(f)),
        final(f).k == old(f).k && final(f).zero == old(f).zero && final(f).one == old(f).one,
        final(f).apply == old(f).apply,
        r matches Some(o) ==> o.writeback <= 1 && (o.patch_len == 0 || o.patch_len == 6),
{
    let a_bits = word_bits(f.zero, f.one, program.width, a);
    let aword = match materialize_exact_sequence(&mut f.store, a_bits.as_slice()) {
        Ok(h) => h,
        Err(_) => return None,
    };
    let args = match materialize_exact_sequence(&mut f.store, &[aword]) {
        Ok(h) => h,
        Err(_) => return None,
    };
    if !start_call_runnable(f, program.not_effect, args) {
        return None;
    }
    if !run_exact_steps(&mut f.engine, &mut f.store, program.not_steps) {
        return None;
    }
    decode_effect(f, program)
}

fn same_flag(x: Option<u8>, y: Option<u8>) -> (b: bool)
    ensures
        b ==> x == y,
{
    match (x, y) {
        (Some(p), Some(q)) => p == q,
        (None, None) => true,
        _ => false,
    }
}

/// The two outcomes agree in every field.
fn same_outcome(x: EffectOutcome, y: EffectOutcome) -> (b: bool)
    ensures
        b ==> x == y,
{
    x.writeback == y.writeback && x.value == y.value && same_flag(x.cf, y.cf) && same_flag(x.pf, y.pf)
        && x.af_undefined == y.af_undefined && same_flag(x.zf, y.zf) && same_flag(x.sf, y.sf) && same_flag(
        x.of,
        y.of,
    ) && x.patch_len == y.patch_len
}

/// The word an x86 logical operation gives: 1 AND, 2 OR, 3 XOR, 4 NOT,
/// 5 TEST (the AND that is not written back).
pub open spec fn logic_value(op: u32, a: u32, b: u32) -> u32 {
    if op == 1 {
        a & b
    } else if op == 2 {
        a | b
    } else if op == 3 {
        a ^ b
    } else if op == 4 {
        !a
    } else {
        a & b
    }
}

/// PF: the low byte of `v` has an even number of set bits.
pub open spec fn parity_even(v: u32) -> bool {
    (bit_of(v, 0) + bit_of(v, 1) + bit_of(v, 2) + bit_of(v, 3) + bit_of(v, 4) + bit_of(v, 5) + bit_of(v, 6)
        + bit_of(v, 7)) % 2 == 0
}

/// What a report of 1 AND, 2 OR, 3 XOR, 4 NOT or 5 TEST of `a` and `b`
/// says: the word is the bitwise operation (TEST as AND) and is written back
/// except for TEST; NOT changes no flag; the others clear CF and OF, set ZF,
/// SF and PF from the word and leave AF undefined.
pub open spec fn logic_report_law(op: u32, a: u32, b: u32, value: u32, writeback: u8, masks: (u32, u32, u32, u32)) -> bool {
    let (defined, ones, undefined, preserved) = masks;
    &&& value == (if op == 1 || op == 5 {
        a & b
    } else if op == 2 {
        a | b
    } else if op == 3 {
        a ^ b
    } else {
        !a
    })
    &&& writeback == (if op == 5 { 0u8 } else { 1u8 })
    &&& op == 4 ==> defined == 0 && ones == 0 && undefined == 0 && preserved == WEB_STATUS_FLAGS
    &&& op != 4 ==> {
        &&& has_flag(defined, WEB_CF) && !has_flag(ones, WEB_CF)
        &&& has_flag(defined, WEB_OF) && !has_flag(ones, WEB_OF)
        &&& has_flag(defined, WEB_ZF) && has_flag(ones, WEB_ZF) == (value == 0)
        &&& has_flag(defined, WEB_SF) && has_flag(ones, WEB_SF) == (value >= 0x8000_0000)
        &&& has_flag(defined, WEB_PF) && has_flag(ones, WEB_PF) == parity_even(value)
        &&& has_flag(undefined, WEB_AF) && !has_flag(defined, WEB_AF)
    }
}

proof fn lemma_logic_bits(c: u32, p: u32, z: u32, s: u32, o: u32, v: u32)
    by (bit_vector)
    requires
        c == 0 || c == 1,
        p == 0 || p == 4,
        z == 0 || z == 0x40,
        s == 0 || s == 0x80,
        o == 0 || o == 0x800,
    ensures
        ((c | p | z | s | o) & 1 != 0) == (c != 0),
        ((c | p | z | s | o) & 4 != 0) == (p != 0),
        ((c | p | z | s | o) & 0x10 == 0),
        ((c | p | z | s | o) & 0x40 != 0) == (z != 0),
        ((c | p | z | s | o) & 0x80 != 0) == (s != 0),
        ((c | p | z | s | o) & 0x800 != 0) == (o != 0),
        (c == 0 && p == 0 && z == 0 && s == 0 && o == 0) ==> (c | p | z | s | o) == 0,
        ((0x8d5u32 & !(0u32 | 0u32)) == 0x8d5u32),
        (0x10u32 & 0x10 != 0),
        (((v >> 31u32) & 1) as u8 != 0) == (v >= 0x8000_0000),
{
}

/// AND, OR, XOR, NOT and TEST report what the 80386 does, stated over the
/// operands alone.
pub proof fn law_logic_report(op: u32, a: u32, b: u32)
    requires
        1 <= op <= 5,
    ensures
        ({
            let e = logic_expected(op, a, b);
            let d = defined_mask_of(e);
            let u = mask_if(e.af_undefined, WEB_AF);
            logic_report_law(op, a, b, logic_value(op, a, b), e.writeback, (d, value_mask_of(e), u, WEB_STATUS_FLAGS & !(d | u)))
        }),
{
    let e = logic_expected(op, a, b);
    let v = e.value;
    lemma_logic_bits(
        mask_if(e.cf is Some, WEB_CF),
        mask_if(e.pf is Some, WEB_PF),
        mask_if(e.zf is Some, WEB_ZF),
        mask_if(e.sf is Some, WEB_SF),
        mask_if(e.of is Some, WEB_OF),
        v,
    );
    lemma_logic_bits(
        mask_if(is_set_one(e.cf), WEB_CF),
        mask_if(is_set_one(e.pf), WEB_PF),
        mask_if(is_set_one(e.zf), WEB_ZF),
        mask_if(is_set_one(e.sf), WEB_SF),
        mask_if(is_set_one(e.of), WEB_OF),
        v,
    );
    let d = defined_mask_of(e);
    let u = mask_if(e.af_undefined, WEB_AF);
    let ones = value_mask_of(e);
    assert(op == 4 ==> d == 0 && ones == 0 && u == 0);
    assert(op == 4 ==> WEB_STATUS_FLAGS & !(d | u) == WEB_STATUS_FLAGS);
    assert(op != 4 ==> has_flag(d, WEB_SF) && has_flag(ones, WEB_SF) == (v >= 0x8000_0000));
    assert(op != 4 ==> has_flag(u, WEB_AF) && !has_flag(d, WEB_AF));
    assert(op != 4 ==> has_flag(d, WEB_PF) && has_flag(ones, WEB_PF) == parity_even(v));
}

/// The 80386 effect of a logical operation: AND, OR, XOR and TEST clear CF
/// and OF, set PF, ZF and SF from the result and leave AF undefined; NOT
/// changes no flag. Only TEST does not write back.
pub open spec fn logic_expected(op: u32, a: u32, b: u32) -> EffectOutcome {
    let v = logic_value(op, a, b);
    if op == 4 {
        EffectOutcome {
            writeback: 1,
            value: v,
            cf: None,
            pf: None,
            af_undefined: false,
            zf: None,
            sf: None,
            of: None,
            patch_len: 0,
        }
    } else {
        EffectOutcome {
            writeback: if op == 5 { 0 } else { 1 },
            value: v,
            cf: Some(0),
            pf: Some(if parity_even(v) { 1u8 } else { 0u8 }),
            af_undefined: true,
            zf: Some(if v == 0 { 1u8 } else { 0u8 }),
            sf: Some(bit_of(v, 31) as u8),
            of: Some(0),
            patch_len: 6,
        }
    }
}

/// A bit is 0 or 1.
proof fn lemma_bit_small(v: u32, i: u32)
    requires
        i < 32,
    ensures
        (v >> i) & 1 <= 1,
{
    assert((v >> i) & 1 <= 1) by (bit_vector)
        requires
            i < 32,
    ;
}

pub(crate) fn parity_even_exec(v: u32) -> (b: bool)
    ensures
        b == parity_even(v),
{
    let b0 = (v >> 0u32) & 1;
    let b1 = (v >> 1u32) & 1;
    let b2 = (v >> 2u32) & 1;
    let b3 = (v >> 3u32) & 1;
    let b4 = (v >> 4u32) & 1;
    let b5 = (v >> 5u32) & 1;
    let b6 = (v >> 6u32) & 1;
    let b7 = (v >> 7u32) & 1;
    proof {
        lemma_bit_small(v, 0);
        lemma_bit_small(v, 1);
        lemma_bit_small(v, 2);
        lemma_bit_small(v, 3);
        lemma_bit_small(v, 4);
        lemma_bit_small(v, 5);
        lemma_bit_small(v, 6);
        lemma_bit_small(v, 7);
    }
    (b0 + b1 + b2 + b3 + b4 + b5 + b6 + b7) % 2 == 0
}

/// `logic_expected`, computed.
fn logic_expected_exec(op: u32, a: u32, b: u32) -> (o: EffectOutcome)
    ensures
        o == logic_expected(op, a, b),
{
    let v = if op == 1 {
        a & b
    } else if op == 2 {
        a | b
    } else if op == 3 {
        a ^ b
    } else if op == 4 {
        !a
    } else {
        a & b
    };
    if op == 4 {
        EffectOutcome {
            writeback: 1,
            value: v,
            cf: None,
            pf: None,
            af_undefined: false,
            zf: None,
            sf: None,
            of: None,
            patch_len: 0,
        }
    } else {
        let pf: u8 = if parity_even_exec(v) {
            1
        } else {
            0
        };
        let zf: u8 = if v == 0 {
            1
        } else {
            0
        };
        EffectOutcome {
            writeback: if op == 5 {
                0
            } else {
                1
            },
            value: v,
            cf: Some(0),
            pf: Some(pf),
            af_undefined: true,
            zf: Some(zf),
            sf: Some(((v >> 31u32) & 1) as u8),
            of: Some(0),
            patch_len: 6,
        }
    }
}

/// A logical lab run.
#[derive(Clone, Copy, Debug, PartialEq, Eq)]
pub struct WebLogicOutcome {
    pub value: u32,
    pub writeback: u8,
    pub defined_mask: u32,
    pub value_mask: u32,
    pub undefined_mask: u32,
    pub preserve_mask: u32,
    pub reactions: u32,
    pub links_after_build: usize,
    pub links_after_first: usize,
    pub steady_link_delta: usize,
    pub quiescent: u8,
}

/// One logical operation of the lab: 1 AND, 2 OR, 3 XOR, 4 NOT, 5 TEST (AND
/// without write-back), on 32-bit words.
fn logic_once(f: &mut Fixture, program: &LogicEffectProgram, op: u32, a: u32, b: u32) -> (r: Option<EffectOutcome>)
    requires
        runnable(old(f)),
        program.width == 32,
        1 <= op <= 5,
    ensures
        runnable(final(f)),
        final(f).k == old(f).k && final(f).zero == old(f).zero && final(f).one == old(f).one,
        final(f).apply == old(f).apply,
        r matches Some(o) ==> o.writeback <= 1 && (o.patch_len == 0 || o.patch_len == 6),
{
    if op == 1 {
        run_binary_effect(f, program, program.logic.gates.and2, a, b, 1)
    } else if op == 2 {
        run_binary_effect(f, program, program.logic.gates.or2, a, b, 1)
    } else if op == 3 {
        run_binary_effect(f, program, program.logic.gates.xor2, a, b, 1)
    } else if op == 4 {
        run_not_effect(f, program, a)
    } else {
        run_binary_effect(f, program, program.logic.gates.and2, a, b, 0)
    }
}

/// The logical lab operation `op` on `a` and `b` in a fresh memory, run
/// twice. The outcome is the one decoded from the memory; it is returned
/// only when it is the 80386 effect of the operation and the identical
/// rerun reproduced it without adding a Link. `None` for an operation other
/// than 1 to 5, and for any run that fails or breaks one of these promises.
/// The masks are those of `web_logic_masks` on that effect.
pub fn web_run_logic(op: u32, a: u32, b: u32) -> (r: Option<WebLogicOutcome>)
    ensures
        !(1 <= op <= 5) ==> r is None,
        r matches Some(o) ==> {
            let e = logic_expected(op, a, b);
            &&& o.value == logic_value(op, a, b)
            &&& o.writeback == e.writeback
            &&& o.defined_mask == defined_mask_of(e)
            &&& o.value_mask == value_mask_of(e)
            &&& o.undefined_mask == mask_if(e.af_undefined, WEB_AF)
            &&& o.preserve_mask == WEB_STATUS_FLAGS & !(o.defined_mask | o.undefined_mask)
            &&& o.reactions == (if op == 4 { 3 + 2 * 32 } else { 19 + 4 * 32 })
            &&& o.quiescent == 1
            &&& o.steady_link_delta == 0
            &&& o.links_after_build <= o.links_after_first
            &&& logic_report_law(op, a, b, o.value, o.writeback, (o.defined_mask, o.value_mask, o.undefined_mask, o.preserve_mask))
        },
{
    if op < 1 || op > 5 {
        return None;
    }
    let mut f = Fixture::new();
    let program = LogicEffectProgram::install(&mut f, 32);
    let links_after_build = f.store.link_count();
    let first = match logic_once(&mut f, &program, op, a, b) {
        Some(o) => o,
        None => return None,
    };
    let links_after_first = f.store.link_count();
    let second = match logic_once(&mut f, &program, op, a, b) {
        Some(o) => o,
        None => return None,
    };
    proof {
        law_logic_report(op, a, b);
    }
    let expected = logic_expected_exec(op, a, b);
    if !same_outcome(first, expected) || !same_outcome(second, first) {
        return None;
    }
    let links_after_second = f.store.link_count();
    if links_after_first < links_after_build || links_after_second != links_after_first {
        return None;
    }
    let (defined_mask, value_mask, undefined_mask, preserve_mask) = web_logic_masks(first);
    let reactions: u32 = if op == 4 {
        3 + 2 * 32
    } else {
        19 + 4 * 32
    };
    Some(
        WebLogicOutcome {
            value: first.value,
            writeback: first.writeback,
            defined_mask,
            value_mask,
            undefined_mask,
            preserve_mask,
            reactions,
            links_after_build,
            links_after_first,
            steady_link_delta: links_after_second - links_after_first,
            quiescent: 1,
        },
    )
}

} // verus!
