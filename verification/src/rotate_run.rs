//! Running ROL and ROR on 32-bit words, reading back the result, and
//! checking it against the 80386 definition.
use vstd::prelude::*;

use crate::circuit::Fixture;
use crate::effect_circuit::FlagPatchSchema;
use crate::rotate_carry_circuit::RotateCarry32Program;
use crate::logic_run::{has_flag, WEB_AF, WEB_CF, WEB_OF, WEB_PF, WEB_SF, WEB_STATUS_FLAGS, WEB_ZF};
use crate::mux_run::{decode_bit, decode_word, result_payload, runnable, start_call_runnable, word_bits};
use crate::rotate_circuit::Rotate32Program;
use crate::shift_run::{
    decode_action, flag_masks_spec, lemma_masks6, lemma_six_masks, run_until_quiescent, web_flag_masks, FlagState,
};
use crate::structural::{materialize_exact_sequence, read_exact_sequence};
use crate::{Handle, ROOT_HANDLE};

verus! {

/// A rotation read back: the write-back bit, the word, what the patch does
/// to CF and OF, the patch's length and the number of reactions.
#[derive(Clone, Copy, Debug, PartialEq, Eq)]
pub struct RotateOutcome {
    pub writeback: u8,
    pub value: u32,
    pub cf: FlagState,
    pub of: FlagState,
    pub patch_len: usize,
    pub reactions: usize,
}

/// `value` rotated by `m` (1 to 31): 16 ROL, otherwise ROR.
pub open spec fn rotated(op: u32, value: u32, m: u32) -> u32 {
    if op == 16 {
        (value << m) | (value >> ((32 - m) as u32))
    } else {
        (value >> m) | (value << ((32 - m) as u32))
    }
}

/// The 80386 effect of a rotation by `count` masked to five bits: count 0
/// changes nothing but writes the word back; otherwise CF is the bit that
/// wrapped around, OF is defined for count 1 only (ROL: the new sign XOR CF;
/// ROR: the XOR of the two top bits), and no other flag changes. The
/// reaction count is that of the program.
pub open spec fn rotate_expected(op: u32, value: u32, count: u32) -> RotateOutcome {
    let m = count & 31;
    if m == 0 {
        RotateOutcome {
            writeback: 1,
            value,
            cf: FlagState::Preserve,
            of: FlagState::Preserve,
            patch_len: 0,
            reactions: 1,
        }
    } else {
        let result = rotated(op, value, m);
        let cf: u32 = if op == 16 { result & 1 } else { (result >> 31u32) & 1 };
        RotateOutcome {
            writeback: 1,
            value: result,
            cf: FlagState::SetTo(cf as u8),
            of: if m == 1 {
                if op == 16 {
                    FlagState::SetTo((((result >> 31u32) & 1) ^ cf) as u8)
                } else {
                    FlagState::SetTo((((result >> 31u32) & 1) ^ ((result >> 30u32) & 1)) as u8)
                }
            } else {
                FlagState::Undefined
            },
            patch_len: 2,
            reactions: if m == 1 { 3 } else { 1 },
        }
    }
}

/// The lab's masks for a rotation: PF, AF, ZF and SF preserved, then CF
/// and OF as given.
pub open spec fn rotation_masks(cf: FlagState, of: FlagState) -> (u32, u32, u32, u32) {
    flag_masks_spec(
        seq![
            (WEB_PF, FlagState::Preserve),
            (WEB_AF, FlagState::Preserve),
            (WEB_ZF, FlagState::Preserve),
            (WEB_SF, FlagState::Preserve),
            (WEB_CF, cf),
            (WEB_OF, of),
        ],
    )
}

/// The part of a rotation report shared by ROL, ROR, RCL and RCR: for
/// masked count 0 the word comes back unchanged and every flag is
/// preserved; otherwise PF, AF, ZF and SF are preserved, CF is defined, and
/// OF is defined for masked count 1 only, where it is the new sign XOR CF
/// for a left rotation and the XOR of the two top bits of the word for a
/// right rotation.
pub open spec fn rotation_flags_law(left: bool, value: u32, m: u32, word: u32, masks: (u32, u32, u32, u32)) -> bool {
    let (defined, ones, undefined, preserved) = masks;
    let cf = has_flag(ones, WEB_CF);
    if m == 0 {
        &&& word == value
        &&& defined == 0
        &&& ones == 0
        &&& undefined == 0
        &&& preserved == WEB_STATUS_FLAGS
    } else {
        &&& has_flag(defined, WEB_CF)
        &&& has_flag(preserved, WEB_PF) && has_flag(preserved, WEB_AF) && has_flag(preserved, WEB_ZF)
            && has_flag(preserved, WEB_SF)
        &&& !has_flag(defined, WEB_PF) && !has_flag(defined, WEB_AF) && !has_flag(defined, WEB_ZF)
            && !has_flag(defined, WEB_SF)
        &&& m == 1 ==> has_flag(defined, WEB_OF) && has_flag(ones, WEB_OF) == (if left {
            (word >= 0x8000_0000) != cf
        } else {
            (word >= 0x8000_0000) != ((word >> 30u32) & 1 == 1)
        })
        &&& m > 1 ==> has_flag(undefined, WEB_OF) && !has_flag(defined, WEB_OF)
    }
}

/// What a report of 16 ROL or 17 ROR of `value` by `count` says, with `m`
/// the count masked to five bits: the word is rotated by `m`, CF is the bit
/// that wrapped around (bit 0 of the word for ROL, bit 31 for ROR), and the
/// other flags as `rotation_flags_law` says.
pub open spec fn rotate_report_law(op: u32, value: u32, count: u32, word: u32, masks: (u32, u32, u32, u32)) -> bool {
    let m = count & 31;
    let cf = has_flag(masks.1, WEB_CF);
    &&& rotation_flags_law(op == 16, value, m, word, masks)
    &&& m != 0 && op == 16 ==> word == ((value << m) | (value >> ((32 - m) as u32))) && cf == (word & 1 == 1)
    &&& m != 0 && op == 17 ==> word == ((value >> m) | (value << ((32 - m) as u32))) && cf == (word >= 0x8000_0000)
}

/// What a report of 18 RCL or 19 RCR of `value` through the carry `cf_in`
/// by `count` says, with `m` the count masked to five bits: the 33-bit ring
/// of the word and the carry is rotated, so CF is bit `32 - m` (RCL) or bit
/// `m - 1` (RCR) of the operand, the word is the operand shifted by `m` with
/// the carry in at bit `m - 1` (RCL) or `32 - m` (RCR) and the bits that
/// wrapped around beyond it, and the other flags as `rotation_flags_law`
/// says.
pub open spec fn carry_report_law(
    op: u32,
    value: u32,
    count: u32,
    cf_in: u32,
    word: u32,
    masks: (u32, u32, u32, u32),
) -> bool {
    let m = count & 31;
    let cf = has_flag(masks.1, WEB_CF);
    &&& rotation_flags_law(op == 18, value, m, word, masks)
    &&& m != 0 && op == 18 ==> cf == ((value >> ((32 - m) as u32)) & 1 == 1) && word == ((value << m) | (cf_in << ((
        m - 1) as u32)) | (if m > 1 { value >> ((33 - m) as u32) } else { 0 }))
    &&& m != 0 && op == 19 ==> cf == ((value >> ((m - 1) as u32)) & 1 == 1) && word == ((value >> m) | (cf_in << ((
        32 - m) as u32)) | (if m > 1 { value << ((33 - m) as u32) } else { 0 }))
}

proof fn lemma_rotate_bits(value: u32, m: u32, r: u32, c: u32)
    by (bit_vector)
    requires
        1 <= m <= 31,
        c <= 1,
    ensures
        (((r >> 31u32) & 1) ^ c) as u8 != 0 == ((r >= 0x8000_0000) != (c == 1)),
        (((r >> 31u32) & 1) ^ ((r >> 30u32) & 1)) as u8 != 0 == ((r >= 0x8000_0000) != ((r >> 30u32) & 1 == 1)),
        ((r & 1) as u8 != 0) == (r & 1 == 1),
        (((r >> 31u32) & 1) as u8 != 0) == (r >= 0x8000_0000),
        r & 1 <= 1,
        (r >> 31u32) & 1 <= 1,
{
}

proof fn lemma_ring_bits(value: u32, m: u32, cf_in: u32)
    by (bit_vector)
    requires
        1 <= m <= 31,
        cf_in <= 1,
    ensures
        ({
            let ext: u64 = ((cf_in as u64) << 32u64) | (value as u64);
            let left: u64 = ((ext << (m as u64)) | (ext >> ((33 - m) as u64))) & 0x1_ffff_ffff;
            let right: u64 = ((ext >> (m as u64)) | (ext << ((33 - m) as u64))) & 0x1_ffff_ffff;
            &&& ((left >> 32u64) & 1) as u32 <= 1
            &&& ((right >> 32u64) & 1) as u32 <= 1
            &&& (((left >> 32u64) & 1) as u32 as u8 != 0) == ((value >> ((32 - m) as u32)) & 1 == 1)
            &&& (((right >> 32u64) & 1) as u32 as u8 != 0) == ((value >> ((m - 1) as u32)) & 1 == 1)
            &&& (left as u32) == ((value << m) | (cf_in << ((m - 1) as u32)) | (if m > 1 {
                value >> ((33 - m) as u32)
            } else {
                0
            }))
            &&& (right as u32) == ((value >> m) | (cf_in << ((32 - m) as u32)) | (if m > 1 {
                value << ((33 - m) as u32)
            } else {
                0
            }))
        }),
{
}

/// ROL and ROR report what the 80386 does, stated over the operand and the
/// count alone: in particular ROR by one sets OF to the XOR of the two top
/// bits of the rotated word.
pub proof fn law_rotate_report(op: u32, value: u32, count: u32)
    requires
        16 <= op <= 17,
    ensures
        ({
            let e = rotate_expected(op, value, count);
            rotate_report_law(op, value, count, e.value, rotation_masks(e.cf, e.of))
        }),
{
    let e = rotate_expected(op, value, count);
    lemma_six_masks(e.cf, FlagState::Preserve, FlagState::Preserve, FlagState::Preserve, FlagState::Preserve, e.of, true);
    let m = count & 31;
    assert(count & 31 <= 31) by (bit_vector);
    if m != 0 {
        let r = e.value;
        let c: u32 = if op == 16 { r & 1 } else { (r >> 31u32) & 1 };
        assert(r & 1 <= 1 && (r >> 31u32) & 1 <= 1) by (bit_vector);
        lemma_rotate_bits(value, m, r, c);
    } else {
        lemma_masks6(
            seq![
                (WEB_PF, FlagState::Preserve),
                (WEB_AF, FlagState::Preserve),
                (WEB_ZF, FlagState::Preserve),
                (WEB_SF, FlagState::Preserve),
                (WEB_CF, e.cf),
                (WEB_OF, e.of),
            ],
        );
        assert((0u32 | 0u32 | 0u32 | 0u32 | 0u32 | 0u32 | 0u32) == 0u32) by (bit_vector);
        assert((0u32 | 4u32 | 0x10u32 | 0x40u32 | 0x80u32 | 1u32 | 0x800u32) == 0x8d5u32) by (bit_vector);
    }
}

/// RCL and RCR report what the 80386 does, stated over the operand, the
/// carry in and the count alone.
pub proof fn law_carry_report(op: u32, value: u32, count: u32, cf_in: u32)
    requires
        18 <= op <= 19,
        cf_in <= 1,
    ensures
        ({
            let e = rotate_carry_expected(op, value, count, cf_in);
            carry_report_law(op, value, count, cf_in, e.value, rotation_masks(e.cf, e.of))
        }),
{
    let e = rotate_carry_expected(op, value, count, cf_in);
    lemma_six_masks(e.cf, FlagState::Preserve, FlagState::Preserve, FlagState::Preserve, FlagState::Preserve, e.of, true);
    let m = count & 31;
    assert(count & 31 <= 31) by (bit_vector);
    if m != 0 {
        lemma_ring_bits(value, m, cf_in);
        let ring = carry_rotated(op, value, m, cf_in);
        let c: u32 = ((ring >> 32u64) & 1) as u32;
        lemma_rotate_bits(value, m, e.value, c);
    } else {
        lemma_masks6(
            seq![
                (WEB_PF, FlagState::Preserve),
                (WEB_AF, FlagState::Preserve),
                (WEB_ZF, FlagState::Preserve),
                (WEB_SF, FlagState::Preserve),
                (WEB_CF, e.cf),
                (WEB_OF, e.of),
            ],
        );
        assert((0u32 | 0u32 | 0u32 | 0u32 | 0u32 | 0u32 | 0u32) == 0u32) by (bit_vector);
        assert((0u32 | 4u32 | 0x10u32 | 0x40u32 | 0x80u32 | 1u32 | 0x800u32) == 0x8d5u32) by (bit_vector);
    }
}

fn rotate_expected_exec(op: u32, value: u32, count: u32) -> (o: RotateOutcome)
    ensures
        o == rotate_expected(op, value, count),
{
    let m = count & 31;
    if m == 0 {
        return RotateOutcome {
            writeback: 1,
            value,
            cf: FlagState::Preserve,
            of: FlagState::Preserve,
            patch_len: 0,
            reactions: 1,
        };
    }
    proof {
        assert(m < 32) by (bit_vector)
            requires
                m == count & 31,
        ;
    }
    let result = if op == 16 {
        (value << m) | (value >> (32 - m))
    } else {
        (value >> m) | (value << (32 - m))
    };
    let cf: u32 = if op == 16 {
        result & 1
    } else {
        (result >> 31u32) & 1
    };
    let of = if m == 1 {
        if op == 16 {
            FlagState::SetTo((((result >> 31u32) & 1) ^ cf) as u8)
        } else {
            FlagState::SetTo((((result >> 31u32) & 1) ^ ((result >> 30u32) & 1)) as u8)
        }
    } else {
        FlagState::Undefined
    };
    RotateOutcome {
        writeback: 1,
        value: result,
        cf: FlagState::SetTo(cf as u8),
        of,
        patch_len: 2,
        reactions: if m == 1 {
            3
        } else {
            1
        },
    }
}

/// Reads `K -> PAIR(ResultTag, [WriteBack, Word, FlagPatch])`; the patch is
/// ROOT (no flag changes) or acts on CF and OF.
fn decode_rotate_effect(f: &Fixture, result_tag: Handle, s: FlagPatchSchema, reactions: usize) -> (r: Option<
    RotateOutcome,
>)
    requires
        runnable(f),
{
    let values = match result_payload(f, result_tag) {
        Some(v) => v,
        None => return None,
    };
    if values.len() != 3 {
        return None;
    }
    let writeback = match decode_bit(f.zero, f.one, values[0]) {
        Some(b) => b,
        None => return None,
    };
    let value = match decode_word(&f.store, f.zero, f.one, 32, values[1]) {
        Some(v) => v,
        None => return None,
    };
    if values[2] == ROOT_HANDLE {
        return Some(
            RotateOutcome {
                writeback,
                value,
                cf: FlagState::Preserve,
                of: FlagState::Preserve,
                patch_len: 0,
                reactions,
            },
        );
    }
    let patch = match read_exact_sequence(&f.store, values[2]) {
        Ok(p) => p,
        Err(_) => return None,
    };
    if patch.len() != 2 {
        return None;
    }
    let cf = decode_action(&f.store, f.zero, f.one, s, patch[0], s.cf);
    let of = decode_action(&f.store, f.zero, f.one, s, patch[1], s.of);
    match (cf, of) {
        (Some(cf), Some(of)) => Some(RotateOutcome { writeback, value, cf, of, patch_len: 2, reactions }),
        _ => None,
    }
}

/// `Call(function, [Input, Count])`, run until quiescent (at most four
/// reactions) and read back.
fn run_rotate(f: &mut Fixture, program: &Rotate32Program, function: Handle, value: u32, count: u8) -> (r: Option<
    RotateOutcome,
>)
    requires
        runnable(old(f)),
    ensures
        runnable(final(f)),
        final(f).k == old(f).k && final(f).zero == old(f).zero && final(f).one == old(f).one,
        final(f).apply == old(f).apply,
{
    let value_bits = word_bits(f.zero, f.one, 32, value);
    let count_bits = word_bits(f.zero, f.one, 8, count as u32);
    let word = match materialize_exact_sequence(&mut f.store, value_bits.as_slice()) {
        Ok(h) => h,
        Err(_) => return None,
    };
    let count_word = match materialize_exact_sequence(&mut f.store, count_bits.as_slice()) {
        Ok(h) => h,
        Err(_) => return None,
    };
    let args = match materialize_exact_sequence(&mut f.store, &[word, count_word]) {
        Ok(h) => h,
        Err(_) => return None,
    };
    if !start_call_runnable(f, function, args) {
        return None;
    }
    let reactions = match run_until_quiescent(&mut f.engine, &mut f.store, 4) {
        Some(n) => n,
        None => return None,
    };
    decode_rotate_effect(f, program.result_tag, program.schema, reactions)
}

fn same_state(x: FlagState, y: FlagState) -> (b: bool)
    ensures
        b ==> x == y,
{
    match (x, y) {
        (FlagState::Preserve, FlagState::Preserve) => true,
        (FlagState::Undefined, FlagState::Undefined) => true,
        (FlagState::SetTo(p), FlagState::SetTo(q)) => p == q,
        _ => false,
    }
}

fn same_rotate(x: RotateOutcome, y: RotateOutcome) -> (b: bool)
    ensures
        b ==> x == y,
{
    x.writeback == y.writeback && x.value == y.value && same_state(x.cf, y.cf) && same_state(x.of, y.of)
        && x.patch_len == y.patch_len && x.reactions == y.reactions
}

/// A rotation lab run.
#[derive(Clone, Copy, Debug, PartialEq, Eq)]
pub struct WebRotateOutcome {
    pub value: u32,
    pub writeback: u8,
    pub defined_mask: u32,
    pub value_mask: u32,
    pub undefined_mask: u32,
    pub preserve_mask: u32,
    pub reactions: u32,
    pub links_after_build: usize,
    pub links_after_first: usize,
    pub steady_link_delta: usize,
    pub quiescent: u8,
}

/// The rotation lab operation `op` (16 ROL, 17 ROR) of `value` by `count` in
/// a fresh memory, run twice. The outcome is the one decoded from the
/// memory; it is returned only when it is the 80386 effect
/// (`rotate_expected`) and the identical rerun reproduced it without adding
/// a Link. `None` for a count above 255, another operation, and any run
/// that fails or breaks one of these promises. PF, AF, ZF and SF are always
/// preserved.
pub fn web_run_rotate32(op: u32, value: u32, count: u32) -> (r: Option<WebRotateOutcome>)
    ensures
        count > 255 || !(16 <= op <= 17) ==> r is None,
        r matches Some(o) ==> {
            let e = rotate_expected(op, value, count);
            &&& o.value == e.value
            &&& o.writeback == 1
            &&& (o.defined_mask, o.value_mask, o.undefined_mask, o.preserve_mask) == flag_masks_spec(
                seq![
                    (WEB_PF, FlagState::Preserve),
                    (WEB_AF, FlagState::Preserve),
                    (WEB_ZF, FlagState::Preserve),
                    (WEB_SF, FlagState::Preserve),
                    (WEB_CF, e.cf),
                    (WEB_OF, e.of),
                ],
            )
            &&& o.reactions == e.reactions
            &&& o.quiescent == 1
            &&& o.steady_link_delta == 0
            &&& o.links_after_build <= o.links_after_first
            &&& rotate_report_law(op, value, count, o.value, (o.defined_mask, o.value_mask, o.undefined_mask, o.preserve_mask))
        },
{
    if count > 255 || op < 16 || op > 17 {
        return None;
    }
    let mut f = Fixture::new();
    let p = Rotate32Program::install(&mut f);
    let function = if op == 16 {
        p.rol
    } else {
        p.ror
    };
    let links_after_build = f.store.link_count();
    let first = match run_rotate(&mut f, &p, function, value, count as u8) {
        Some(o) => o,
        None => return None,
    };
    let links_after_first = f.store.link_count();
    let second = match run_rotate(&mut f, &p, function, value, count as u8) {
        Some(o) => o,
        None => return None,
    };
    proof {
        law_rotate_report(op, value, count);
    }
    let expected = rotate_expected_exec(op, value, count);
    if !same_rotate(first, expected) || !same_rotate(second, first) {
        return None;
    }
    let links_after_second = f.store.link_count();
    if links_after_first < links_after_build || links_after_second != links_after_first {
        return None;
    }
    let (defined_mask, value_mask, undefined_mask, preserve_mask) = web_flag_masks(
        [
            (WEB_PF, FlagState::Preserve),
            (WEB_AF, FlagState::Preserve),
            (WEB_ZF, FlagState::Preserve),
            (WEB_SF, FlagState::Preserve),
            (WEB_CF, first.cf),
            (WEB_OF, first.of),
        ],
    );
    Some(
        WebRotateOutcome {
            value: first.value,
            writeback: first.writeback,
            defined_mask,
            value_mask,
            undefined_mask,
            preserve_mask,
            reactions: first.reactions as u32,
            links_after_build,
            links_after_first,
            steady_link_delta: 0,
            quiescent: 1,
        },
    )
}

/// RCL (18) or RCR (19) of `value` through the carry `cf_in` by `count`
/// masked to five bits: the 33-bit ring `cf_in : value` rotated; the low 32
/// bits are the word and bit 32 the carry out. OF as for ROL/ROR.
pub open spec fn carry_rotated(op: u32, value: u32, m: u32, cf_in: u32) -> u64 {
    let ext: u64 = ((cf_in as u64) << 32u64) | (value as u64);
    if op == 18 {
        ((ext << (m as u64)) | (ext >> ((33 - m) as u64))) & 0x1_ffff_ffff
    } else {
        ((ext >> (m as u64)) | (ext << ((33 - m) as u64))) & 0x1_ffff_ffff
    }
}

/// The 80386 effect of RCL/RCR; count 0 changes nothing but writes back.
pub open spec fn rotate_carry_expected(op: u32, value: u32, count: u32, cf_in: u32) -> RotateOutcome {
    let m = count & 31;
    if m == 0 {
        RotateOutcome {
            writeback: 1,
            value,
            cf: FlagState::Preserve,
            of: FlagState::Preserve,
            patch_len: 0,
            reactions: 1,
        }
    } else {
        let ring = carry_rotated(op, value, m, cf_in);
        let result = ring as u32;
        let cf: u32 = ((ring >> 32u64) & 1) as u32;
        RotateOutcome {
            writeback: 1,
            value: result,
            cf: FlagState::SetTo(cf as u8),
            of: if m == 1 {
                if op == 18 {
                    FlagState::SetTo((((result >> 31u32) & 1) ^ cf) as u8)
                } else {
                    FlagState::SetTo((((result >> 31u32) & 1) ^ ((result >> 30u32) & 1)) as u8)
                }
            } else {
                FlagState::Undefined
            },
            patch_len: 2,
            reactions: if m == 1 { 3 } else { 1 },
        }
    }
}

fn rotate_carry_expected_exec(op: u32, value: u32, count: u32, cf_in: u32) -> (o: RotateOutcome)
    ensures
        o == rotate_carry_expected(op, value, count, cf_in),
{
    let m = count & 31;
    if m == 0 {
        return RotateOutcome {
            writeback: 1,
            value,
            cf: FlagState::Preserve,
            of: FlagState::Preserve,
            patch_len: 0,
            reactions: 1,
        };
    }
    proof {
        assert(m < 32) by (bit_vector)
            requires
                m == count & 31,
        ;
    }
    let ext: u64 = ((cf_in as u64) << 32u64) | (value as u64);
    let ring: u64 = if op == 18 {
        ((ext << (m as u64)) | (ext >> ((33 - m) as u64))) & 0x1_ffff_ffff
    } else {
        ((ext >> (m as u64)) | (ext << ((33 - m) as u64))) & 0x1_ffff_ffff
    };
    let result = ring as u32;
    let cf: u32 = ((ring >> 32u64) & 1) as u32;
    let of = if m == 1 {
        if op == 18 {
            FlagState::SetTo((((result >> 31u32) & 1) ^ cf) as u8)
        } else {
            FlagState::SetTo((((result >> 31u32) & 1) ^ ((result >> 30u32) & 1)) as u8)
        }
    } else {
        FlagState::Undefined
    };
    RotateOutcome {
        writeback: 1,
        value: result,
        cf: FlagState::SetTo(cf as u8),
        of,
        patch_len: 2,
        reactions: if m == 1 {
            3
        } else {
            1
        },
    }
}

/// `Call(function, [Input, Count, CFin])`, run until quiescent (at most
/// four reactions) and read back.
fn run_rotate_carry(
    f: &mut Fixture,
    program: &RotateCarry32Program,
    function: Handle,
    value: u32,
    count: u8,
    cf_in: u32,
) -> (r: Option<RotateOutcome>)
    requires
        runnable(old(f)),
        cf_in <= 1,
    ensures
        runnable(final(f)),
        final(f).k == old(f).k && final(f).zero == old(f).zero && final(f).one == old(f).one,
        final(f).apply == old(f).apply,
{
    let value_bits = word_bits(f.zero, f.one, 32, value);
    let count_bits = word_bits(f.zero, f.one, 8, count as u32);
    let word = match materialize_exact_sequence(&mut f.store, value_bits.as_slice()) {
        Ok(h) => h,
        Err(_) => return None,
    };
    let count_word = match materialize_exact_sequence(&mut f.store, count_bits.as_slice()) {
        Ok(h) => h,
        Err(_) => return None,
    };
    let cf = if cf_in == 0 {
        f.zero
    } else {
        f.one
    };
    let args = match materialize_exact_sequence(&mut f.store, &[word, count_word, cf]) {
        Ok(h) => h,
        Err(_) => return None,
    };
    if !start_call_runnable(f, function, args) {
        return None;
    }
    let reactions = match run_until_quiescent(&mut f.engine, &mut f.store, 4) {
        Some(n) => n,
        None => return None,
    };
    decode_rotate_effect(f, program.result_tag, program.schema, reactions)
}

/// The lab operation RCL (18) or RCR (19) of `value` through the carry
/// `cf_in` by `count` in a fresh memory, run twice; returned only when the
/// decoded outcome is the 80386 effect (`rotate_carry_expected`) and the
/// identical rerun reproduced it without adding a Link. `None` for a count
/// above 255, a carry above 1, another operation, and any run that fails or
/// breaks one of these promises. PF, AF, ZF and SF are always preserved.
pub fn web_run_rotate_carry32(op: u32, value: u32, count: u32, cf_in: u32) -> (r: Option<WebRotateOutcome>)
    ensures
        count > 255 || cf_in > 1 || !(18 <= op <= 19) ==> r is None,
        r matches Some(o) ==> {
            let e = rotate_carry_expected(op, value, count, cf_in);
            &&& o.value == e.value
            &&& o.writeback == 1
            &&& (o.defined_mask, o.value_mask, o.undefined_mask, o.preserve_mask) == flag_masks_spec(
                seq![
                    (WEB_PF, FlagState::Preserve),
                    (WEB_AF, FlagState::Preserve),
                    (WEB_ZF, FlagState::Preserve),
                    (WEB_SF, FlagState::Preserve),
                    (WEB_CF, e.cf),
                    (WEB_OF, e.of),
                ],
            )
            &&& o.reactions == e.reactions
            &&& o.quiescent == 1
            &&& o.steady_link_delta == 0
            &&& o.links_after_build <= o.links_after_first
            &&& carry_report_law(op, value, count, cf_in, o.value, (o.defined_mask, o.value_mask, o.undefined_mask, o.preserve_mask))
        },
{
    if count > 255 || cf_in > 1 || op < 18 || op > 19 {
        return None;
    }
    let mut f = Fixture::new();
    let p = RotateCarry32Program::install(&mut f);
    let function = if op == 18 {
        p.rcl
    } else {
        p.rcr
    };
    let links_after_build = f.store.link_count();
    let first = match run_rotate_carry(&mut f, &p, function, value, count as u8, cf_in) {
        Some(o) => o,
        None => return None,
    };
    let links_after_first = f.store.link_count();
    let second = match run_rotate_carry(&mut f, &p, function, value, count as u8, cf_in) {
        Some(o) => o,
        None => return None,
    };
    proof {
        law_carry_report(op, value, count, cf_in);
    }
    let expected = rotate_carry_expected_exec(op, value, count, cf_in);
    if !same_rotate(first, expected) || !same_rotate(second, first) {
        return None;
    }
    let links_after_second = f.store.link_count();
    if links_after_first < links_after_build || links_after_second != links_after_first {
        return None;
    }
    let (defined_mask, value_mask, undefined_mask, preserve_mask) = web_flag_masks(
        [
            (WEB_PF, FlagState::Preserve),
            (WEB_AF, FlagState::Preserve),
            (WEB_ZF, FlagState::Preserve),
            (WEB_SF, FlagState::Preserve),
            (WEB_CF, first.cf),
            (WEB_OF, first.of),
        ],
    );
    Some(
        WebRotateOutcome {
            value: first.value,
            writeback: first.writeback,
            defined_mask,
            value_mask,
            undefined_mask,
            preserve_mask,
            reactions: first.reactions as u32,
            links_after_build,
            links_after_first,
            steady_link_delta: 0,
            quiescent: 1,
        },
    )
}

} // verus!
