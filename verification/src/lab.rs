//! The i386 lab: one operation number selects a block, which is built in a
//! fresh memory and run there. 1-5 logic, 6-10 arithmetic, 11 MUX32, 12 the
//! MUX1 proof, 13-15 shifts, 16-17 rotations, 18-19 rotations through the
//! carry, 20-22 INC, DEC and NEG, 23 MUL32; 24 (MUL with its flags) is
//! numbered but not run here. Every result is checked against its 80386 definition and against
//! an identical rerun that adds no Link.
use vstd::prelude::*;

use crate::arith_run::{arith_expected, arith_value_mask, web_run_arithmetic};
use crate::logic_run::{
    defined_mask_of, logic_expected, logic_value, mask_if, value_mask_of, web_run_logic, WEB_AF, WEB_CF, WEB_OF,
    WEB_PF, WEB_SF, WEB_STATUS_FLAGS, WEB_ZF,
};
use crate::mul_run::{mul_steps, web_run_mul32};
use crate::mux_proof::{web_prove_mux1, Mux1Proof};
use crate::mux_run::{mux_select, web_run_mux32};
use crate::rotate_run::{rotate_carry_expected, rotate_expected, web_run_rotate32, web_run_rotate_carry32};
use crate::shift_run::{flag_masks_spec, shift_expected, web_run_shift32, FlagState};
use crate::unary_run::{unary_defined_mask, unary_expected, unary_value_mask, web_run_unary32};

verus! {

/// What the lab reports of one operation.
#[derive(Clone, Copy, Debug, PartialEq, Eq)]
pub struct LabOutcome {
    pub value: u32,
    pub value_hi: u32,
    pub writeback: u32,
    pub defined_mask: u32,
    pub value_mask: u32,
    pub undefined_mask: u32,
    pub preserve_mask: u32,
    pub reactions: u32,
    pub links_after_build: usize,
    pub links_after_first: usize,
    pub steady_link_delta: usize,
    pub quiescent: u32,
}

/// A lab run: the outcome and, for the MUX1 proof, its record.
pub struct LabRun {
    pub outcome: LabOutcome,
    pub proof: Option<Mux1Proof>,
}

/// The lab's operation numbers, 1 to 24. Of these, 24 (MUL with its
/// flags) names a block that this library does not hold, and `execute`
/// answers it with `None`.
pub open spec fn lab_supported(op: u32) -> bool {
    1 <= op <= 24
}

/// Whether `op` is one of the lab's operation numbers.
pub fn lab_supports(op: u32) -> (b: bool)
    ensures
        b == lab_supported(op),
{
    1 <= op && op <= 24
}

/// The masks of a rotation's CF and OF, the other status flags preserved.
pub open spec fn rotate_masks(cf: FlagState, of: FlagState) -> (u32, u32, u32, u32) {
    flag_masks_spec(
        seq![
            (WEB_PF, FlagState::Preserve),
            (WEB_AF, FlagState::Preserve),
            (WEB_ZF, FlagState::Preserve),
            (WEB_SF, FlagState::Preserve),
            (WEB_CF, cf),
            (WEB_OF, of),
        ],
    )
}

/// The 80386 report of operation `op`: value, write-back, the four masks
/// (defined, set to one, undefined, preserved) and the reaction count.
pub open spec fn lab_expected(op: u32, a: u32, b: u32, flag: u32) -> (u32, u32, u32, u32, u32, u32, u32) {
    if 1 <= op <= 5 {
        let e = logic_expected(op, a, b);
        let d = defined_mask_of(e);
        let u = mask_if(e.af_undefined, WEB_AF);
        (
            logic_value(op, a, b),
            e.writeback as u32,
            d,
            value_mask_of(e),
            u,
            WEB_STATUS_FLAGS & !(d | u),
            if op == 4 { 67u32 } else { 147u32 },
        )
    } else if 6 <= op <= 10 {
        let e = arith_expected(op, a, b, flag);
        (e.value, e.writeback as u32, WEB_STATUS_FLAGS, arith_value_mask(e), 0, 0, 609u32)
    } else if op == 11 {
        (mux_select(flag, a, b), 1, 0, 0, 0, WEB_STATUS_FLAGS, 257u32)
    } else if op == 12 {
        (mux_select(flag, a, b), 1, 0, 0, 0, WEB_STATUS_FLAGS, 7)
    } else if 13 <= op <= 15 {
        let e = shift_expected(op, a, b);
        let m = flag_masks_spec(
            seq![(WEB_CF, e.cf), (WEB_PF, e.pf), (WEB_AF, e.af), (WEB_ZF, e.zf), (WEB_SF, e.sf), (WEB_OF, e.of)],
        );
        (e.value, 1, m.0, m.1, m.2, m.3, e.reactions as u32)
    } else if 16 <= op <= 17 {
        let e = rotate_expected(op, a, b);
        let m = rotate_masks(e.cf, e.of);
        (e.value, 1, m.0, m.1, m.2, m.3, e.reactions as u32)
    } else if 18 <= op <= 19 {
        let e = rotate_carry_expected(op, a, b, flag);
        let m = rotate_masks(e.cf, e.of);
        (e.value, 1, m.0, m.1, m.2, m.3, e.reactions as u32)
    } else if op == 23 {
        (((a as int * b as int) % 0x1_0000_0000) as u32, 1, 0, 0, 0, WEB_STATUS_FLAGS, mul_steps(b) as u32)
    } else {
        let e = unary_expected(op, a);
        (
            e.value,
            1,
            unary_defined_mask(e),
            unary_value_mask(e),
            0,
            if op == 22 { 0u32 } else { WEB_CF },
            609u32,
        )
    }
}

/// The high word of the result: that of the 64-bit product for MUL32, zero
/// for the other operations.
pub open spec fn lab_expected_hi(op: u32, a: u32, b: u32) -> u32 {
    if op == 23 {
        ((a as int * b as int) / 0x1_0000_0000) as u32
    } else {
        0
    }
}

/// The report's fields other than the high word and the Link counts.
pub open spec fn lab_core(o: LabOutcome) -> (u32, u32, u32, u32, u32, u32, u32) {
    (o.value, o.writeback, o.defined_mask, o.value_mask, o.undefined_mask, o.preserve_mask, o.reactions)
}

/// Runs lab operation `op` on `a`, `b` and `input_flag` (the carry in of
/// ADC, SBB, RCL and RCR, and the select of MUX32 and MUX1; for shifts and
/// rotations `b` is the count). `memory_number` names the runtime memory of
/// a MUX1 proof. `None` for an operation the lab does not dispatch, an
/// input a block refuses, and any run that fails or does not give the 80386
/// report with an identical rerun that adds no Link.
#[verifier::rlimit(100)]
pub fn execute(op: u32, a: u32, b: u32, input_flag: u32, memory_number: u32) -> (r: Option<LabRun>)
    ensures
        !lab_supported(op) ==> r is None,
        op == 24 ==> r is None,
        6 <= op <= 10 && input_flag > 1 ==> r is None,
        op == 11 && input_flag > 1 ==> r is None,
        op == 12 && (input_flag > 1 || a > 1 || b > 1) ==> r is None,
        13 <= op <= 17 && b > 255 ==> r is None,
        18 <= op <= 19 && (b > 255 || input_flag > 1) ==> r is None,
        r matches Some(run) ==> {
            &&& lab_core(run.outcome) == lab_expected(op, a, b, input_flag)
            &&& run.outcome.value_hi == lab_expected_hi(op, a, b)
            &&& run.outcome.steady_link_delta == 0
            &&& run.outcome.quiescent == 1
            &&& (run.proof is Some <==> op == 12)
        },
{
    if 1 <= op && op <= 5 {
        match web_run_logic(op, a, b) {
            Some(o) => Some(
                LabRun {
                    outcome: LabOutcome {
                        value: o.value,
                        value_hi: 0,
                        writeback: o.writeback as u32,
                        defined_mask: o.defined_mask,
                        value_mask: o.value_mask,
                        undefined_mask: o.undefined_mask,
                        preserve_mask: o.preserve_mask,
                        reactions: o.reactions,
                        links_after_build: o.links_after_build,
                        links_after_first: o.links_after_first,
                        steady_link_delta: o.steady_link_delta,
                        quiescent: 1,
                    },
                    proof: None,
                },
            ),
            None => None,
        }
    } else if 6 <= op && op <= 10 {
        match web_run_arithmetic(op, a, b, input_flag) {
            Some(o) => Some(
                LabRun {
                    outcome: LabOutcome {
                        value: o.value,
                        value_hi: 0,
                        writeback: o.writeback as u32,
                        defined_mask: o.defined_mask,
                        value_mask: o.value_mask,
                        undefined_mask: o.undefined_mask,
                        preserve_mask: o.preserve_mask,
                        reactions: o.reactions,
                        links_after_build: o.links_after_build,
                        links_after_first: o.links_after_first,
                        steady_link_delta: o.steady_link_delta,
                        quiescent: 1,
                    },
                    proof: None,
                },
            ),
            None => None,
        }
    } else if op == 11 {
        match web_run_mux32(input_flag, a, b) {
            Some(o) => Some(
                LabRun {
                    outcome: LabOutcome {
                        value: o.value,
                        value_hi: 0,
                        writeback: 1,
                        defined_mask: 0,
                        value_mask: 0,
                        undefined_mask: 0,
                        preserve_mask: WEB_STATUS_FLAGS,
                        reactions: o.reactions,
                        links_after_build: o.links_after_build,
                        links_after_first: o.links_after_first,
                        steady_link_delta: o.steady_link_delta,
                        quiescent: 1,
                    },
                    proof: None,
                },
            ),
            None => None,
        }
    } else if op == 12 {
        match web_prove_mux1(input_flag, a, b, memory_number) {
            Some(p) => {
                let outcome = LabOutcome {
                    value: p.result.decoded_value as u32,
                    value_hi: 0,
                    writeback: 1,
                    defined_mask: 0,
                    value_mask: 0,
                    undefined_mask: 0,
                    preserve_mask: WEB_STATUS_FLAGS,
                    reactions: 7,
                    links_after_build: p.load.links_after_load,
                    links_after_first: p.result.links_final,
                    steady_link_delta: p.result.identical_rerun_link_delta,
                    quiescent: 1,
                };
                Some(LabRun { outcome, proof: Some(p) })
            },
            None => None,
        }
    } else if 13 <= op && op <= 15 {
        match web_run_shift32(op, a, b) {
            Some(o) => Some(
                LabRun {
                    outcome: LabOutcome {
                        value: o.value,
                        value_hi: 0,
                        writeback: o.writeback as u32,
                        defined_mask: o.defined_mask,
                        value_mask: o.value_mask,
                        undefined_mask: o.undefined_mask,
                        preserve_mask: o.preserve_mask,
                        reactions: o.reactions,
                        links_after_build: o.links_after_build,
                        links_after_first: o.links_after_first,
                        steady_link_delta: o.steady_link_delta,
                        quiescent: 1,
                    },
                    proof: None,
                },
            ),
            None => None,
        }
    } else if 16 <= op && op <= 17 {
        match web_run_rotate32(op, a, b) {
            Some(o) => Some(
                LabRun {
                    outcome: LabOutcome {
                        value: o.value,
                        value_hi: 0,
                        writeback: o.writeback as u32,
                        defined_mask: o.defined_mask,
                        value_mask: o.value_mask,
                        undefined_mask: o.undefined_mask,
                        preserve_mask: o.preserve_mask,
                        reactions: o.reactions,
                        links_after_build: o.links_after_build,
                        links_after_first: o.links_after_first,
                        steady_link_delta: o.steady_link_delta,
                        quiescent: 1,
                    },
                    proof: None,
                },
            ),
            None => None,
        }
    } else if 18 <= op && op <= 19 {
        match web_run_rotate_carry32(op, a, b, input_flag) {
            Some(o) => Some(
                LabRun {
                    outcome: LabOutcome {
                        value: o.value,
                        value_hi: 0,
                        writeback: o.writeback as u32,
                        defined_mask: o.defined_mask,
                        value_mask: o.value_mask,
                        undefined_mask: o.undefined_mask,
                        preserve_mask: o.preserve_mask,
                        reactions: o.reactions,
                        links_after_build: o.links_after_build,
                        links_after_first: o.links_after_first,
                        steady_link_delta: o.steady_link_delta,
                        quiescent: 1,
                    },
                    proof: None,
                },
            ),
            None => None,
        }
    } else if 20 <= op && op <= 22 {
        match web_run_unary32(op, a) {
            Some(o) => Some(
                LabRun {
                    outcome: LabOutcome {
                        value: o.value,
                        value_hi: 0,
                        writeback: o.writeback as u32,
                        defined_mask: o.defined_mask,
                        value_mask: o.value_mask,
                        undefined_mask: o.undefined_mask,
                        preserve_mask: o.preserve_mask,
                        reactions: o.reactions,
                        links_after_build: o.links_after_build,
                        links_after_first: o.links_after_first,
                        steady_link_delta: o.steady_link_delta,
                        quiescent: 1,
                    },
                    proof: None,
                },
            ),
            None => None,
        }
    } else if op == 23 {
        match web_run_mul32(a, b) {
            Some(o) => {
                proof {
                    let p = a as int * b as int;
                    assert(0 <= p <= 0xffff_ffff * 0xffff_ffff) by (nonlinear_arith)
                        requires
                            p == a as int * b as int,
                            a <= 0xffff_ffff,
                            b <= 0xffff_ffff,
                    ;
                    assert(o.lo == p % 0x1_0000_0000 && o.hi == p / 0x1_0000_0000) by (nonlinear_arith)
                        requires
                            o.lo as int + o.hi as int * 0x1_0000_0000 == p,
                            o.lo < 0x1_0000_0000,
                            o.hi < 0x1_0000_0000,
                    ;
                }
                Some(
                    LabRun {
                        outcome: LabOutcome {
                            value: o.lo,
                            value_hi: o.hi,
                            writeback: 1,
                            defined_mask: 0,
                            value_mask: 0,
                            undefined_mask: 0,
                            preserve_mask: WEB_STATUS_FLAGS,
                            reactions: o.reactions,
                            links_after_build: o.links_after_build,
                            links_after_first: o.links_after_first,
                            steady_link_delta: o.steady_link_delta,
                            quiescent: 1,
                        },
                        proof: None,
                    },
                )
            },
            None => None,
        }
    } else {
        None
    }
}

} // verus!
