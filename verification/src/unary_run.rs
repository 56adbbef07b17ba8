//! Running INC, DEC and NEG on 32-bit words, reading back the result, and
//! checking it against the 80386 definition.
use vstd::prelude::*;

use crate::arith_run::{signed32, WebArithmeticOutcome};
use crate::circuit::Fixture;
use crate::logic_run::{
    has_flag, lemma_flag_bits, parity_even, parity_even_exec, WEB_AF, WEB_CF, WEB_OF, WEB_PF, WEB_SF, WEB_ZF,
};
use crate::mux_run::{
    decode_bit, decode_word, result_payload, run_exact_steps, runnable, start_call_runnable, word_bits,
};
use crate::shift_run::{decode_action, FlagState};
use crate::structural::{materialize_exact_sequence, read_exact_sequence};
use crate::unary_circuit::UnaryArithProgram;
use crate::Handle;

verus! {

/// A unary effect read back: CF is `None` when the patch leaves it out.
#[derive(Clone, Copy, Debug, PartialEq, Eq)]
pub struct UnaryOutcome {
    pub writeback: u8,
    pub value: u32,
    pub cf: Option<u8>,
    pub pf: u8,
    pub af: u8,
    pub zf: u8,
    pub sf: u8,
    pub of: u8,
}

/// The 80386 effect of 20 INC, 21 DEC or 22 NEG on `a`: the word modulo
/// 2^32; INC and DEC leave CF as it was, NEG sets it when `a` is not zero;
/// AF is the borrow or carry of the low nibble; OF the signed overflow.
pub open spec fn unary_expected(op: u32, a: u32) -> UnaryOutcome {
    let value: u32 = if op == 20 {
        ((a + 1) % 0x1_0000_0000) as u32
    } else if op == 21 {
        ((a + 0xffff_ffff) % 0x1_0000_0000) as u32
    } else {
        ((0x1_0000_0000 - a) % 0x1_0000_0000) as u32
    };
    let af = if op == 20 {
        a & 0xf == 0xf
    } else if op == 21 {
        a & 0xf == 0
    } else {
        a & 0xf != 0
    };
    let of = if op == 20 {
        a == 0x7fff_ffff
    } else {
        a == 0x8000_0000
    };
    UnaryOutcome {
        writeback: 1,
        value,
        cf: if op == 22 { Some(if a != 0 { 1u8 } else { 0u8 }) } else { None },
        pf: if parity_even(value) { 1 } else { 0 },
        af: if af { 1 } else { 0 },
        zf: if value == 0 { 1 } else { 0 },
        sf: ((value >> 31u32) & 1) as u8,
        of: if of { 1 } else { 0 },
    }
}

fn unary_expected_exec(op: u32, a: u32) -> (o: UnaryOutcome)
    ensures
        o == unary_expected(op, a),
{
    let value: u32 = if op == 20 {
        ((a as u64 + 1) % 0x1_0000_0000) as u32
    } else if op == 21 {
        ((a as u64 + 0xffff_ffff) % 0x1_0000_0000) as u32
    } else {
        ((0x1_0000_0000 - a as u64) % 0x1_0000_0000) as u32
    };
    let af = if op == 20 {
        a & 0xf == 0xf
    } else if op == 21 {
        a & 0xf == 0
    } else {
        a & 0xf != 0
    };
    let of = if op == 20 {
        a == 0x7fff_ffff
    } else {
        a == 0x8000_0000
    };
    UnaryOutcome {
        writeback: 1,
        value,
        cf: if op == 22 {
            Some(
                if a != 0 {
                    1u8
                } else {
                    0u8
                },
            )
        } else {
            None
        },
        pf: if parity_even_exec(value) {
            1
        } else {
            0
        },
        af: if af {
            1
        } else {
            0
        },
        zf: if value == 0 {
            1
        } else {
            0
        },
        sf: ((value >> 31u32) & 1) as u8,
        of: if of {
            1
        } else {
            0
        },
    }
}

fn set_bit(state: Option<FlagState>) -> (r: Option<u8>) {
    match state {
        Some(FlagState::SetTo(b)) => Some(b),
        _ => None,
    }
}

/// Reads `K -> PAIR(ResultTag, [WriteBack, Word, Patch])`, the patch setting
/// PF, AF, ZF, SF, OF, preceded by CF when it has six actions.
fn decode_unary_effect(f: &Fixture, program: &UnaryArithProgram) -> (r: Option<UnaryOutcome>)
    requires
        runnable(f),
        program.width <= 32,
{
    let values = match result_payload(f, program.result_tag) {
        Some(v) => v,
        None => return None,
    };
    if values.len() != 3 {
        return None;
    }
    let writeback = match decode_bit(f.zero, f.one, values[0]) {
        Some(b) => b,
        None => return None,
    };
    let value = match decode_word(&f.store, f.zero, f.one, program.width, values[1]) {
        Some(v) => v,
        None => return None,
    };
    let patch = match read_exact_sequence(&f.store, values[2]) {
        Ok(p) => p,
        Err(_) => return None,
    };
    let s = program.schema;
    let (cf, rest): (Option<u8>, usize) = if patch.len() == 6 {
        match set_bit(decode_action(&f.store, f.zero, f.one, s, patch[0], s.cf)) {
            Some(b) => (Some(b), 1),
            None => return None,
        }
    } else if patch.len() == 5 {
        (None, 0)
    } else {
        return None;
    };
    let pf = set_bit(decode_action(&f.store, f.zero, f.one, s, patch[rest], s.pf));
    let af = set_bit(decode_action(&f.store, f.zero, f.one, s, patch[rest + 1], s.af));
    let zf = set_bit(decode_action(&f.store, f.zero, f.one, s, patch[rest + 2], s.zf));
    let sf = set_bit(decode_action(&f.store, f.zero, f.one, s, patch[rest + 3], s.sf));
    let of = set_bit(decode_action(&f.store, f.zero, f.one, s, patch[rest + 4], s.of));
    match (pf, af, zf, sf, of) {
        (Some(pf), Some(af), Some(zf), Some(sf), Some(of)) => Some(
            UnaryOutcome { writeback, value, cf, pf, af, zf, sf, of },
        ),
        _ => None,
    }
}

/// `Call(function, [Word])`, run for the program's step count and read back.
fn run_unary(f: &mut Fixture, program: &UnaryArithProgram, function: Handle, a: u32) -> (r: Option<UnaryOutcome>)
    requires
        runnable(old(f)),
        program.width <= 32,
    ensures
        runnable(final(f)),
        final(f).k == old(f).k && final(f).zero == old(f).zero && final(f).one == old(f).one,
        final(f).apply == old(f).apply,
{
    let bits = word_bits(f.zero, f.one, program.width, a);
    let word = match materialize_exact_sequence(&mut f.store, bits.as_slice()) {
        Ok(h) => h,
        Err(_) => return None,
    };
    let args = match materialize_exact_sequence(&mut f.store, &[word]) {
        Ok(h) => h,
        Err(_) => return None,
    };
    if !start_call_runnable(f, function, args) {
        return None;
    }
    if !run_exact_steps(&mut f.engine, &mut f.store, program.active_steps) {
        return None;
    }
    decode_unary_effect(f, program)
}

fn same_flag(x: Option<u8>, y: Option<u8>) -> (b: bool)
    ensures
        b ==> x == y,
{
    match (x, y) {
        (Some(p), Some(q)) => p == q,
        (None, None) => true,
        _ => false,
    }
}

fn same_unary(x: UnaryOutcome, y: UnaryOutcome) -> (b: bool)
    ensures
        b ==> x == y,
{
    x.writeback == y.writeback && x.value == y.value && same_flag(x.cf, y.cf) && x.pf == y.pf && x.af == y.af
        && x.zf == y.zf && x.sf == y.sf && x.of == y.of
}

/// The defined flags of a unary outcome: all six, less CF when it is kept.
pub open spec fn unary_defined_mask(o: UnaryOutcome) -> u32 {
    (if o.cf is Some { WEB_CF } else { 0 }) | WEB_PF | WEB_AF | WEB_ZF | WEB_SF | WEB_OF
}

/// The defined flags set to one.
pub open spec fn unary_value_mask(o: UnaryOutcome) -> u32 {
    (if o.cf matches Some(b) && b != 0 { WEB_CF } else { 0 }) | (if o.pf != 0 { WEB_PF } else { 0 }) | (if o.af
        != 0 {
        WEB_AF
    } else {
        0
    }) | (if o.zf != 0 { WEB_ZF } else { 0 }) | (if o.sf != 0 { WEB_SF } else { 0 }) | (if o.of != 0 {
        WEB_OF
    } else {
        0
    })
}

fn unary_masks(o: UnaryOutcome) -> (m: (u32, u32, u32))
    ensures
        m.0 == unary_defined_mask(o),
        m.1 == unary_value_mask(o),
        m.2 == (if o.cf is Some { 0u32 } else { WEB_CF }),
{
    let defined = (if o.cf.is_some() {
        WEB_CF
    } else {
        0
    }) | WEB_PF | WEB_AF | WEB_ZF | WEB_SF | WEB_OF;
    let cf_one = match o.cf {
        Some(b) => b != 0,
        None => false,
    };
    let values = (if cf_one {
        WEB_CF
    } else {
        0
    }) | (if o.pf != 0 {
        WEB_PF
    } else {
        0
    }) | (if o.af != 0 {
        WEB_AF
    } else {
        0
    }) | (if o.zf != 0 {
        WEB_ZF
    } else {
        0
    }) | (if o.sf != 0 {
        WEB_SF
    } else {
        0
    }) | (if o.of != 0 {
        WEB_OF
    } else {
        0
    });
    let preserve = if o.cf.is_some() {
        0
    } else {
        WEB_CF
    };
    (defined, values, preserve)
}

/// The exact result of 20 INC (`x + 1`), 21 DEC (`x - 1`) or 22 NEG
/// (`0 - x`) on the number `x`.
pub open spec fn unary_exact(op: u32, x: int) -> int {
    if op == 20 {
        x + 1
    } else if op == 21 {
        x - 1
    } else {
        0 - x
    }
}

/// What a report of INC, DEC or NEG of `a` says: the word is the exact
/// result modulo 2^32; ZF, SF and PF follow the word; OF is set exactly when
/// the exact signed result leaves `[-2^31, 2^31)`; AF exactly when the same
/// operation on the low nibble leaves `[0, 16)`; NEG defines CF, set exactly
/// when `a` is not zero, and INC and DEC leave CF as it was.
pub open spec fn unary_report_law(op: u32, a: u32, value: u32, defined_mask: u32, value_mask: u32, preserve_mask: u32) -> bool {
    let nibble = unary_exact(op, (a & 0xf) as int);
    let s = unary_exact(op, signed32(a));
    &&& value as int == unary_exact(op, a as int) % 0x1_0000_0000
    &&& has_flag(defined_mask, WEB_PF) && has_flag(defined_mask, WEB_AF) && has_flag(defined_mask, WEB_ZF)
        && has_flag(defined_mask, WEB_SF) && has_flag(defined_mask, WEB_OF)
    &&& has_flag(value_mask, WEB_ZF) == (value == 0)
    &&& has_flag(value_mask, WEB_SF) == (value >= 0x8000_0000)
    &&& has_flag(value_mask, WEB_PF) == parity_even(value)
    &&& has_flag(value_mask, WEB_OF) == (s < -0x8000_0000 || s > 0x7fff_ffff)
    &&& has_flag(value_mask, WEB_AF) == (nibble < 0 || nibble > 0xf)
    &&& (op == 22 ==> has_flag(defined_mask, WEB_CF) && has_flag(value_mask, WEB_CF) == (a != 0))
    &&& (op != 22 ==> !has_flag(defined_mask, WEB_CF) && !has_flag(value_mask, WEB_CF) && has_flag(
        preserve_mask,
        WEB_CF,
    ))
}

/// INC, DEC and NEG report the flags of their exact result: in particular
/// ZF is set exactly when the word is zero and OF exactly on signed overflow.
pub proof fn law_unary_report(op: u32, a: u32)
    requires
        20 <= op <= 22,
    ensures
        ({
            let e = unary_expected(op, a);
            unary_report_law(
                op,
                a,
                e.value,
                unary_defined_mask(e),
                unary_value_mask(e),
                if op == 22 { 0u32 } else { WEB_CF },
            )
        }),
{
    let e = unary_expected(op, a);
    let v = e.value;
    let u = unary_exact(op, a as int);
    if op == 21 {
        vstd::arithmetic::div_mod::lemma_mod_add_multiples_vanish(u, 0x1_0000_0000);
    }
    if op == 22 {
        vstd::arithmetic::div_mod::lemma_mod_add_multiples_vanish(u, 0x1_0000_0000);
    }
    assert((((v >> 31u32) & 1) as u8 != 0) == (v >= 0x8000_0000)) by (bit_vector);
    assert(a & 0xf <= 0xf) by (bit_vector);
    assert(a & 0xf == 0xf <==> (a & 0xf) + 1 > 0xf) by (bit_vector);
    let cf_on = e.cf matches Some(b) && b != 0;
    lemma_flag_bits(
        if cf_on { 1 } else { 0 },
        if e.pf != 0 { 4 } else { 0 },
        if e.af != 0 { 0x10 } else { 0 },
        if e.zf != 0 { 0x40 } else { 0 },
        if e.sf != 0 { 0x80 } else { 0 },
        if e.of != 0 { 0x800 } else { 0 },
    );
    let d = if e.cf is Some { 1u32 } else { 0u32 };
    assert((d | 4u32 | 0x10u32 | 0x40u32 | 0x80u32 | 0x800u32) & 1 != 0 <==> d != 0) by (bit_vector)
        requires
            d == 0 || d == 1,
    ;
    assert({
        let x = d | 4u32 | 0x10u32 | 0x40u32 | 0x80u32 | 0x800u32;
        x & 4 != 0 && x & 0x10 != 0 && x & 0x40 != 0 && x & 0x80 != 0 && x & 0x800 != 0
    }) by (bit_vector);
    assert((1u32 & 1u32) != 0 && (0u32 & 1u32) == 0) by (bit_vector);
}

/// The lab operation 20 INC, 21 DEC or 22 NEG of `a` in a fresh memory, run
/// twice; returned only when the decoded outcome is the 80386 effect
/// (`unary_expected`) and the identical rerun reproduced it without adding
/// a Link. `None` for another operation and any run that fails or breaks
/// one of these promises.
pub fn web_run_unary32(op: u32, a: u32) -> (r: Option<WebArithmeticOutcome>)
    ensures
        !(20 <= op <= 22) ==> r is None,
        r matches Some(o) ==> {
            let e = unary_expected(op, a);
            &&& o.value == e.value
            &&& o.writeback == 1
            &&& o.defined_mask == unary_defined_mask(e)
            &&& o.value_mask == unary_value_mask(e)
            &&& o.undefined_mask == 0
            &&& o.preserve_mask == (if op == 22 { 0u32 } else { WEB_CF })
            &&& o.reactions == 33 + 18 * 32
            &&& o.quiescent == 1
            &&& o.steady_link_delta == 0
            &&& o.links_after_build <= o.links_after_first
            &&& unary_report_law(op, a, o.value, o.defined_mask, o.value_mask, o.preserve_mask)
        },
{
    if op < 20 || op > 22 {
        return None;
    }
    let mut f = Fixture::new();
    let p = UnaryArithProgram::install(&mut f, 32);
    let function = if op == 20 {
        p.inc
    } else if op == 21 {
        p.dec
    } else {
        p.neg
    };
    let links_after_build = f.store.link_count();
    let first = match run_unary(&mut f, &p, function, a) {
        Some(o) => o,
        None => return None,
    };
    let links_after_first = f.store.link_count();
    let second = match run_unary(&mut f, &p, function, a) {
        Some(o) => o,
        None => return None,
    };
    let expected = unary_expected_exec(op, a);
    if !same_unary(first, expected) || !same_unary(second, first) {
        return None;
    }
    let links_after_second = f.store.link_count();
    if links_after_first < links_after_build || links_after_second != links_after_first {
        return None;
    }
    let (defined_mask, value_mask, preserve_mask) = unary_masks(first);
    proof {
        law_unary_report(op, a);
    }
    Some(
        WebArithmeticOutcome {
            value: first.value,
            writeback: 1,
            defined_mask,
            value_mask,
            undefined_mask: 0,
            preserve_mask,
            reactions: 33 + 18 * 32,
            links_after_build,
            links_after_first,
            steady_link_delta: 0,
            quiescent: 1,
        },
    )
}

} // verus!
