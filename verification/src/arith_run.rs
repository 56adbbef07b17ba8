//! Running ADD, ADC, SUB, SBB and CMP on 32-bit words as effects, reading
//! back the result, and checking it against the 80386 definition.
use vstd::prelude::*;

use crate::arith_effect_circuit::ArithmeticEffectProgram;
use crate::circuit::Fixture;
use crate::logic_run::{
    has_flag, lemma_flag_bits, parity_even, parity_even_exec, WEB_AF, WEB_CF, WEB_OF, WEB_PF, WEB_SF,
    WEB_STATUS_FLAGS, WEB_ZF,
};
use crate::mux_run::{
    decode_bit, decode_word, result_payload, run_exact_steps, runnable, start_call_runnable, word_bits,
};
use crate::shift_run::{decode_action, FlagState};
use crate::structural::{materialize_exact_sequence, read_exact_sequence};

verus! {

/// An arithmetic effect read back: the write-back bit, the word and the six
/// flags it sets.
#[derive(Clone, Copy, Debug, PartialEq, Eq)]
pub struct ArithOutcome {
    pub writeback: u8,
    pub value: u32,
    pub cf: u8,
    pub pf: u8,
    pub af: u8,
    pub zf: u8,
    pub sf: u8,
    pub of: u8,
}

/// The carry-in, mode (0 add, 1 subtract) and write-back of a lab
/// operation: 6 ADD, 7 ADC, 8 SUB, 9 SBB, 10 CMP.
pub open spec fn arith_controls(op: u32, flag: u32) -> (u32, u32, u8) {
    if op == 6 {
        (0, 0, 1)
    } else if op == 7 {
        (flag, 0, 1)
    } else if op == 8 {
        (0, 1, 1)
    } else if op == 9 {
        (flag, 1, 1)
    } else {
        (0, 1, 0)
    }
}

/// A 32-bit word read as a two's complement number.
pub open spec fn signed32(v: u32) -> int {
    if v < 0x8000_0000 {
        v as int
    } else {
        v - 0x1_0000_0000
    }
}

/// The 80386 result of `a + b + x` (mode 0) or `a - b - x` (mode 1): the
/// word modulo 2^32, CF the carry or borrow out, AF the one out of the low
/// nibble, OF the signed overflow, and PF, ZF, SF from the word.
pub open spec fn arith_expected(op: u32, a: u32, b: u32, flag: u32) -> ArithOutcome {
    let (x, mode, writeback) = arith_controls(op, flag);
    let value: u32 = if mode == 0 {
        ((a + b + x) % 0x1_0000_0000) as u32
    } else {
        ((a + 0x2_0000_0000 - b - x) % 0x1_0000_0000) as u32
    };
    let cf = if mode == 0 {
        a + b + x > 0xffff_ffff
    } else {
        a < b + x
    };
    let af = if mode == 0 {
        (a & 0xf) + (b & 0xf) + x > 0xf
    } else {
        (a & 0xf) < (b & 0xf) + x
    };
    let signed = if mode == 0 {
        signed32(a) + signed32(b) + x
    } else {
        signed32(a) - signed32(b) - x
    };
    ArithOutcome {
        writeback,
        value,
        cf: if cf { 1 } else { 0 },
        pf: if parity_even(value) { 1 } else { 0 },
        af: if af { 1 } else { 0 },
        zf: if value == 0 { 1 } else { 0 },
        sf: ((value >> 31u32) & 1) as u8,
        of: if signed < -0x8000_0000 || signed > 0x7fff_ffff { 1 } else { 0 },
    }
}

fn signed32_exec(v: u32) -> (s: i64)
    ensures
        s == signed32(v),
{
    if v < 0x8000_0000 {
        v as i64
    } else {
        v as i64 - 0x1_0000_0000
    }
}

/// `arith_expected`, computed.
fn arith_expected_exec(op: u32, a: u32, b: u32, flag: u32) -> (o: ArithOutcome)
    requires
        flag <= 1,
    ensures
        o == arith_expected(op, a, b, flag),
{
    let (x, mode, writeback): (u32, u32, u8) = if op == 6 {
        (0, 0, 1)
    } else if op == 7 {
        (flag, 0, 1)
    } else if op == 8 {
        (0, 1, 1)
    } else if op == 9 {
        (flag, 1, 1)
    } else {
        (0, 1, 0)
    };
    let value: u32 = if mode == 0 {
        ((a as u64 + b as u64 + x as u64) % 0x1_0000_0000) as u32
    } else {
        ((a as u64 + 0x2_0000_0000 - b as u64 - x as u64) % 0x1_0000_0000) as u32
    };
    let cf = if mode == 0 {
        a as u64 + b as u64 + x as u64 > 0xffff_ffff
    } else {
        (a as u64) < b as u64 + x as u64
    };
    proof {
        assert(a & 0xf <= 0xf) by (bit_vector);
        assert(b & 0xf <= 0xf) by (bit_vector);
    }
    let af = if mode == 0 {
        (a & 0xf) + (b & 0xf) + x > 0xf
    } else {
        (a & 0xf) < (b & 0xf) + x
    };
    let sa = signed32_exec(a);
    let sb = signed32_exec(b);
    let signed = if mode == 0 {
        sa + sb + x as i64
    } else {
        sa - sb - x as i64
    };
    ArithOutcome {
        writeback,
        value,
        cf: if cf {
            1
        } else {
            0
        },
        pf: if parity_even_exec(value) {
            1
        } else {
            0
        },
        af: if af {
            1
        } else {
            0
        },
        zf: if value == 0 {
            1
        } else {
            0
        },
        sf: ((value >> 31u32) & 1) as u8,
        of: if signed < -0x8000_0000 || signed > 0x7fff_ffff {
            1
        } else {
            0
        },
    }
}

/// A flag the patch sets to a bit.
fn set_bit(state: Option<FlagState>) -> (r: Option<u8>) {
    match state {
        Some(FlagState::SetTo(b)) => Some(b),
        _ => None,
    }
}

/// Reads `K -> PAIR(ResultTag, [WriteBack, Word, FlagPatch])`, the patch
/// setting CF, PF, AF, ZF, SF and OF in that order.
fn decode_arith_effect(f: &Fixture, program: &ArithmeticEffectProgram) -> (r: Option<ArithOutcome>)
    requires
        runnable(f),
        program.width <= 32,
{
    let values = match result_payload(f, program.result_tag) {
        Some(v) => v,
        None => return None,
    };
    if values.len() != 3 {
        return None;
    }
    let writeback = match decode_bit(f.zero, f.one, values[0]) {
        Some(b) => b,
        None => return None,
    };
    let value = match decode_word(&f.store, f.zero, f.one, program.width, values[1]) {
        Some(v) => v,
        None => return None,
    };
    let patch = match read_exact_sequence(&f.store, values[2]) {
        Ok(p) => p,
        Err(_) => return None,
    };
    if patch.len() != 6 {
        return None;
    }
    let s = program.schema;
    let cf = set_bit(decode_action(&f.store, f.zero, f.one, s, patch[0], s.cf));
    let pf = set_bit(decode_action(&f.store, f.zero, f.one, s, patch[1], s.pf));
    let af = set_bit(decode_action(&f.store, f.zero, f.one, s, patch[2], s.af));
    let zf = set_bit(decode_action(&f.store, f.zero, f.one, s, patch[3], s.zf));
    let sf = set_bit(decode_action(&f.store, f.zero, f.one, s, patch[4], s.sf));
    let of = set_bit(decode_action(&f.store, f.zero, f.one, s, patch[5], s.of));
    match (cf, pf, af, zf, sf, of) {
        (Some(cf), Some(pf), Some(af), Some(zf), Some(sf), Some(of)) => Some(
            ArithOutcome { writeback, value, cf, pf, af, zf, sf, of },
        ),
        _ => None,
    }
}

/// `Call(EFFECT, [A, B, X, Mode, WriteBack])`, run for the program's step
/// count and read back.
fn run_arith_effect(
    f: &mut Fixture,
    program: &ArithmeticEffectProgram,
    a: u32,
    b: u32,
    x: u32,
    mode: u32,
    writeback: u8,
) -> (r: Option<ArithOutcome>)
    requires
        runnable(old(f)),
        program.width <= 32,
        x <= 1,
        mode <= 1,
        writeback <= 1,
    ensures
        runnable(final(f)),
        final(f).k == old(f).k && final(f).zero == old(f).zero && final(f).one == old(f).one,
        final(f).apply == old(f).apply,
{
    let a_bits = word_bits(f.zero, f.one, program.width, a);
    let b_bits = word_bits(f.zero, f.one, program.width, b);
    let aword = match materialize_exact_sequence(&mut f.store, a_bits.as_slice()) {
        Ok(h) => h,
        Err(_) => return None,
    };
    let bword = match materialize_exact_sequence(&mut f.store, b_bits.as_slice()) {
        Ok(h) => h,
        Err(_) => return None,
    };
    let bits = [f.zero, f.one];
    let args = match materialize_exact_sequence(
        &mut f.store,
        &[aword, bword, bits[x as usize], bits[mode as usize], bits[writeback as usize]],
    ) {
        Ok(h) => h,
        Err(_) => return None,
    };
    if !start_call_runnable(f, program.effect, args) {
        return None;
    }
    if !run_exact_steps(&mut f.engine, &mut f.store, program.active_steps) {
        return None;
    }
    decode_arith_effect(f, program)
}

fn same_arith(x: ArithOutcome, y: ArithOutcome) -> (b: bool)
    ensures
        b ==> x == y,
{
    x.writeback == y.writeback && x.value == y.value && x.cf == y.cf && x.pf == y.pf && x.af == y.af && x.zf
        == y.zf && x.sf == y.sf && x.of == y.of
}

/// The lab's bits of the flags set to one.
pub open spec fn arith_value_mask(o: ArithOutcome) -> u32 {
    (if o.cf != 0 { WEB_CF } else { 0 }) | (if o.pf != 0 { WEB_PF } else { 0 }) | (if o.af != 0 {
        WEB_AF
    } else {
        0
    }) | (if o.zf != 0 { WEB_ZF } else { 0 }) | (if o.sf != 0 { WEB_SF } else { 0 }) | (if o.of != 0 {
        WEB_OF
    } else {
        0
    })
}

fn arith_value_mask_exec(o: ArithOutcome) -> (m: u32)
    ensures
        m == arith_value_mask(o),
{
    (if o.cf != 0 {
        WEB_CF
    } else {
        0
    }) | (if o.pf != 0 {
        WEB_PF
    } else {
        0
    }) | (if o.af != 0 {
        WEB_AF
    } else {
        0
    }) | (if o.zf != 0 {
        WEB_ZF
    } else {
        0
    }) | (if o.sf != 0 {
        WEB_SF
    } else {
        0
    }) | (if o.of != 0 {
        WEB_OF
    } else {
        0
    })
}

/// The exact result of lab operation `op` on `a`, `b` and the carry in
/// `flag`, the words read as unsigned numbers: ADD `a + b`, ADC
/// `a + b + flag`, SUB and CMP `a - b`, SBB `a - b - flag`.
pub open spec fn exact_unsigned(op: u32, a: u32, b: u32, flag: u32) -> int {
    if op == 6 {
        a + b
    } else if op == 7 {
        a + b + flag
    } else if op == 9 {
        a - b - flag
    } else {
        a - b
    }
}

/// The same exact result with the words read as two's complement numbers.
pub open spec fn exact_signed(op: u32, a: u32, b: u32, flag: u32) -> int {
    let (x, y) = (signed32(a), signed32(b));
    if op == 6 {
        x + y
    } else if op == 7 {
        x + y + flag
    } else if op == 9 {
        x - y - flag
    } else {
        x - y
    }
}

/// What an arithmetic report says of `op` on `a`, `b` and `flag`: the word
/// is the exact unsigned result modulo 2^32, written back except for CMP;
/// all six flags are defined; CF is set exactly when the unsigned result
/// leaves `[0, 2^32)`, OF exactly when the signed result leaves
/// `[-2^31, 2^31)`, AF exactly when the same operation on the low nibbles
/// leaves `[0, 16)`, and ZF, SF and PF follow the word.
pub open spec fn arith_report_law(op: u32, a: u32, b: u32, flag: u32, value: u32, writeback: u8, defined_mask: u32, value_mask: u32) -> bool {
    let u = exact_unsigned(op, a, b, flag);
    let s = exact_signed(op, a, b, flag);
    let nibble = exact_unsigned(op, a & 0xf, b & 0xf, flag);
    &&& value as int == u % 0x1_0000_0000
    &&& writeback == (if op == 10 { 0u8 } else { 1u8 })
    &&& defined_mask == WEB_STATUS_FLAGS
    &&& has_flag(value_mask, WEB_CF) == (u < 0 || u > 0xffff_ffff)
    &&& has_flag(value_mask, WEB_OF) == (s < -0x8000_0000 || s > 0x7fff_ffff)
    &&& has_flag(value_mask, WEB_AF) == (nibble < 0 || nibble > 0xf)
    &&& has_flag(value_mask, WEB_ZF) == (value == 0)
    &&& has_flag(value_mask, WEB_SF) == (value >= 0x8000_0000)
    &&& has_flag(value_mask, WEB_PF) == parity_even(value)
}

/// ADD, ADC, SUB, SBB and CMP report the flags of their exact result: in
/// particular OF is set exactly on signed overflow and CF exactly on
/// unsigned carry or borrow.
pub proof fn law_arith_report(op: u32, a: u32, b: u32, flag: u32)
    requires
        6 <= op <= 10,
        flag <= 1,
    ensures
        ({
            let e = arith_expected(op, a, b, flag);
            arith_report_law(op, a, b, flag, e.value, e.writeback, WEB_STATUS_FLAGS, arith_value_mask(e))
        }),
{
    let e = arith_expected(op, a, b, flag);
    let (x, mode, writeback) = arith_controls(op, flag);
    let u = exact_unsigned(op, a, b, flag);
    if mode == 1 {
        assert(u == (a + 0x2_0000_0000 - b - x) - 0x2_0000_0000);
        vstd::arithmetic::div_mod::lemma_mod_add_multiples_vanish(u + 0x1_0000_0000, 0x1_0000_0000);
        vstd::arithmetic::div_mod::lemma_mod_add_multiples_vanish(u, 0x1_0000_0000);
    }
    let v = e.value;
    assert((((v >> 31u32) & 1) as u8 != 0) == (v >= 0x8000_0000)) by (bit_vector);
    lemma_flag_bits(
        if e.cf != 0 { 1 } else { 0 },
        if e.pf != 0 { 4 } else { 0 },
        if e.af != 0 { 0x10 } else { 0 },
        if e.zf != 0 { 0x40 } else { 0 },
        if e.sf != 0 { 0x80 } else { 0 },
        if e.of != 0 { 0x800 } else { 0 },
    );
    let s = exact_signed(op, a, b, flag);
    let nibble = exact_unsigned(op, a & 0xf, b & 0xf, flag);
    let m = arith_value_mask(e);
    assert(a & 0xf <= 0xf) by (bit_vector);
    assert(b & 0xf <= 0xf) by (bit_vector);
    assert(v as int == u % 0x1_0000_0000);
    assert(has_flag(m, WEB_CF) == (u < 0 || u > 0xffff_ffff));
    assert(has_flag(m, WEB_OF) == (s < -0x8000_0000 || s > 0x7fff_ffff));
    assert(has_flag(m, WEB_AF) == (nibble < 0 || nibble > 0xf));
    assert(has_flag(m, WEB_ZF) == (v == 0));
    assert(has_flag(m, WEB_SF) == (v >= 0x8000_0000));
    assert(has_flag(m, WEB_PF) == parity_even(v));
}

/// An arithmetic lab run.
#[derive(Clone, Copy, Debug, PartialEq, Eq)]
pub struct WebArithmeticOutcome {
    pub value: u32,
    pub writeback: u8,
    pub defined_mask: u32,
    pub value_mask: u32,
    pub undefined_mask: u32,
    pub preserve_mask: u32,
    pub reactions: u32,
    pub links_after_build: usize,
    pub links_after_first: usize,
    pub steady_link_delta: usize,
    pub quiescent: u8,
}

/// The arithmetic lab operation `op` (6 ADD, 7 ADC, 8 SUB, 9 SBB, 10 CMP;
/// `input_flag` is the carry in of ADC and SBB) on 32-bit words in a fresh
/// memory, run twice. The outcome is the one decoded from the memory; it is
/// returned only when it is the 80386 result (`arith_expected`) and the
/// identical rerun reproduced it without adding a Link. `None` for an input
/// flag above 1, another operation, and any run that fails or breaks one of
/// these promises. Every status flag is defined.
pub fn web_run_arithmetic(op: u32, a: u32, b: u32, input_flag: u32) -> (r: Option<WebArithmeticOutcome>)
    ensures
        input_flag > 1 || !(6 <= op <= 10) ==> r is None,
        r matches Some(o) ==> {
            let e = arith_expected(op, a, b, input_flag);
            &&& o.value == e.value
            &&& o.writeback == e.writeback
            &&& o.defined_mask == WEB_STATUS_FLAGS
            &&& o.value_mask == arith_value_mask(e)
            &&& o.undefined_mask == 0
            &&& o.preserve_mask == 0
            &&& o.reactions == 33 + 18 * 32
            &&& o.quiescent == 1
            &&& o.steady_link_delta == 0
            &&& o.links_after_build <= o.links_after_first
            &&& arith_report_law(op, a, b, input_flag, o.value, o.writeback, o.defined_mask, o.value_mask)
        },
{
    if input_flag > 1 || op < 6 || op > 10 {
        return None;
    }
    let mut f = Fixture::new();
    let program = ArithmeticEffectProgram::install(&mut f, 32);
    let links_after_build = f.store.link_count();
    let (x, mode, writeback): (u32, u32, u8) = if op == 6 {
        (0, 0, 1)
    } else if op == 7 {
        (input_flag, 0, 1)
    } else if op == 8 {
        (0, 1, 1)
    } else if op == 9 {
        (input_flag, 1, 1)
    } else {
        (0, 1, 0)
    };
    let first = match run_arith_effect(&mut f, &program, a, b, x, mode, writeback) {
        Some(o) => o,
        None => return None,
    };
    let links_after_first = f.store.link_count();
    let second = match run_arith_effect(&mut f, &program, a, b, x, mode, writeback) {
        Some(o) => o,
        None => return None,
    };
    let expected = arith_expected_exec(op, a, b, input_flag);
    if !same_arith(first, expected) || !same_arith(second, first) {
        return None;
    }
    let links_after_second = f.store.link_count();
    if links_after_first < links_after_build || links_after_second != links_after_first {
        return None;
    }
    let value_mask = arith_value_mask_exec(first);
    proof {
        law_arith_report(op, a, b, input_flag);
    }
    Some(
        WebArithmeticOutcome {
            value: first.value,
            writeback: first.writeback,
            defined_mask: WEB_STATUS_FLAGS,
            value_mask,
            undefined_mask: 0,
            preserve_mask: 0,
            reactions: 33 + 18 * 32,
            links_after_build,
            links_after_first,
            steady_link_delta: 0,
            quiescent: 1,
        },
    )
}

} // verus!
