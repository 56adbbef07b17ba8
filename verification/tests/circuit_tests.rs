use amemory_optimized_cpu_probe::circuit::{
    call, Fixture,
};
use amemory_optimized_cpu_probe::arith_circuit::ArithmeticProgram;
use amemory_optimized_cpu_probe::arith_run::web_run_arithmetic;
use amemory_optimized_cpu_probe::effect_circuit::{FlagPatchSchema, LogicEffectProgram};
use amemory_optimized_cpu_probe::flags_circuit::FlaggedArithmeticProgram;
use amemory_optimized_cpu_probe::logic_circuit::LogicProgram;
use amemory_optimized_cpu_probe::logic_run::{web_logic_masks, web_run_logic, EffectOutcome};
use amemory_optimized_cpu_probe::mul_run::web_run_mul32;
use amemory_optimized_cpu_probe::mux_circuit::MuxProgram;
use amemory_optimized_cpu_probe::mux_proof::web_prove_mux1;
use amemory_optimized_cpu_probe::mux_run::{decode_bit, decode_word, web_run_mux1, web_run_mux32};
use amemory_optimized_cpu_probe::mux_run::word_bits as library_word_bits;
use amemory_optimized_cpu_probe::ripple_adder::Add4Program;
use amemory_optimized_cpu_probe::ripple_subtractor::RippleSubProgram;
use amemory_optimized_cpu_probe::rotate_circuit::Rotate32Program;
use amemory_optimized_cpu_probe::rotate_run::{web_run_rotate32, web_run_rotate_carry32};
use amemory_optimized_cpu_probe::lab::{execute, lab_supports};
use amemory_optimized_cpu_probe::shift1_circuit::Shift1Program;
use amemory_optimized_cpu_probe::shift_circuit::Shift32Program;
use amemory_optimized_cpu_probe::shift_run::{web_flag_masks, web_run_shift32, FlagState};
use amemory_optimized_cpu_probe::structural::{materialize_exact_sequence, read_exact_sequence};
use amemory_optimized_cpu_probe::subtractor::Sub1Program;
use amemory_optimized_cpu_probe::unary_run::web_run_unary32;
use amemory_optimized_cpu_probe::wide64_circuit::Wide64Program;
use amemory_optimized_cpu_probe::{Handle, OptimizedLinkStore, ROOT_HANDLE};

fn run_full_case(
    f: &mut Fixture,
    ai: usize,
    bi: usize,
    ci: usize,
) -> (Handle, Handle, Vec<u32>, Vec<u32>) {
    let args = f.args3[ai][bi][ci];
    let invocation =
        call(&mut f.store, f.apply, f.full, args);
    let initial = f.store.ensure_pair(f.k, invocation).unwrap();

    f.engine.set_current(&f.store, &[initial]).unwrap();

    let mut matches = Vec::new();
    let mut handoffs = Vec::new();

    for step in 0..13 {
        let reaction = f.engine.run(&mut f.store).unwrap();
        assert!(
            !reaction.quiescent,
            "input {ai}{bi}{ci}: step {step} unexpectedly quiescent"
        );
        assert_eq!(
            reaction.raw_rule_matches, 1,
            "input {ai}{bi}{ci}: step {step} match count"
        );
        assert_eq!(
            reaction.transitioned_members, 1,
            "input {ai}{bi}{ci}: step {step} transitioned count"
        );
        assert_eq!(
            reaction.handoff_count, 1,
            "input {ai}{bi}{ci}: step {step} handoff"
        );
        assert_eq!(
            reaction.next_members.len(),
            1,
            "input {ai}{bi}{ci}: step {step} Scope cardinality"
        );
        matches.push(reaction.raw_rule_matches);
        handoffs.push(reaction.handoff_count);
    }

    let stable_bank = f.engine.current_bank();
    let quiescent = f.engine.run(&mut f.store).unwrap();
    assert!(quiescent.quiescent, "final result must be quiescent");
    assert_eq!(quiescent.raw_rule_matches, 0);
    assert_eq!(quiescent.handoff_count, 0);
    assert_eq!(f.engine.current_bank(), stable_bank);
    assert_eq!(f.engine.current().len(), 1);

    let final_link = f.engine.current()[0];
    let (caller, result_sequence) = f.store.poles(final_link).unwrap();
    assert_eq!(caller, f.k, "final caller/context");
    let decoded =
        read_exact_sequence(&f.store, result_sequence).unwrap();
    assert_eq!(decoded.len(), 2);

    (decoded[0], decoded[1], matches, handoffs)
}

#[test]
fn m2_gate_composed_full_adder_all_eight_rows() {
    let mut f = Fixture::new();

    for ai in 0..2 {
        for bi in 0..2 {
            for ci in 0..2 {
                let (sum, cout, matches, handoffs) =
                    run_full_case(&mut f, ai, bi, ci);

                let total = ai + bi + ci;
                let expected_sum =
                    if total % 2 == 1 { f.one } else { f.zero };
                let expected_cout =
                    if total >= 2 { f.one } else { f.zero };

                assert_eq!(
                    sum, expected_sum,
                    "input {ai}{bi}{ci}: Sum"
                );
                assert_eq!(
                    cout, expected_cout,
                    "input {ai}{bi}{ci}: Cout"
                );
                assert_eq!(matches, vec![1; 13]);
                assert_eq!(handoffs, vec![1; 13]);

                println!(
                    "FULL_ADDER_TRACE input={}{}{} sum={} cout={} active_steps=13",
                    ai,
                    bi,
                    ci,
                    usize::from(sum == f.one),
                    usize::from(cout == f.one),
                );
            }
        }
    }
}

fn word4_bits(f: &Fixture, value: u8) -> [Handle; 4] {
    [
        if value & 0b0001 != 0 { f.one } else { f.zero },
        if value & 0b0010 != 0 { f.one } else { f.zero },
        if value & 0b0100 != 0 { f.one } else { f.zero },
        if value & 0b1000 != 0 { f.one } else { f.zero },
    ]
}

fn decode_word4(f: &Fixture, word: Handle) -> u8 {
    let bits = read_exact_sequence(&f.store, word).unwrap();
    assert_eq!(bits.len(), 4, "Word4 arity");

    let mut value = 0u8;
    for (index, bit) in bits.into_iter().enumerate() {
        if bit == f.one {
            value |= 1u8 << index;
        } else {
            assert_eq!(bit, f.zero, "Word4 bit must be canonical 0/1");
        }
    }
    value
}

fn run_add4(
    f: &mut Fixture,
    program: &Add4Program,
    a: u8,
    b: u8,
    cin: u8,
) -> (u8, u8, usize) {
    let a_bits = word4_bits(f, a);
    let b_bits = word4_bits(f, b);
    let aword = materialize_exact_sequence(&mut f.store, &a_bits).unwrap();
    let bword = materialize_exact_sequence(&mut f.store, &b_bits).unwrap();
    let cin_handle = if cin == 0 { f.zero } else { f.one };

    let args =
        materialize_exact_sequence(&mut f.store, &[aword, bword, cin_handle]).unwrap();
    let invocation = call(&mut f.store, f.apply, program.add4, args);
    let initial = f.store.ensure_pair(f.k, invocation).unwrap();

    f.engine.set_current(&f.store, &[initial]).unwrap();

    const ACTIVE_STEPS: usize = 57;
    for step in 0..ACTIVE_STEPS {
        let reaction = f.engine.run(&mut f.store).unwrap();
        assert!(!reaction.quiescent, "{a}+{b}+{cin}: step {step}");
        assert_eq!(reaction.raw_rule_matches, 1, "step {step} matches");
        assert_eq!(reaction.transitioned_members, 1, "step {step} members");
        assert_eq!(reaction.handoff_count, 1, "step {step} handoff");
        assert_eq!(reaction.next_members.len(), 1, "step {step} scope size");
    }

    let stable = f.engine.current_bank();
    let quiescent = f.engine.run(&mut f.store).unwrap();
    assert!(quiescent.quiescent);
    assert_eq!(quiescent.raw_rule_matches, 0);
    assert_eq!(quiescent.handoff_count, 0);
    assert_eq!(f.engine.current_bank(), stable);
    assert_eq!(f.engine.current().len(), 1);

    let final_link = f.engine.current()[0];
    let (caller, result) = f.store.poles(final_link).unwrap();
    assert_eq!(caller, f.k);

    let result_values = read_exact_sequence(&f.store, result).unwrap();
    assert_eq!(result_values.len(), 2);
    let sum = decode_word4(f, result_values[0]);
    let cout = if result_values[1] == f.one {
        1
    } else {
        assert_eq!(result_values[1], f.zero);
        0
    };

    (sum, cout, ACTIVE_STEPS)
}

#[test]
fn m0_word4_is_root_originating_lsb_first_and_ordered() {
    let mut f = Fixture::new();

    let bits = word4_bits(&f, 0b1010);
    let word = materialize_exact_sequence(&mut f.store, &bits).unwrap();
    assert_eq!(decode_word4(&f, word), 0b1010);

    let reversed = [bits[3], bits[2], bits[1], bits[0]];
    let reversed_word =
        materialize_exact_sequence(&mut f.store, &reversed).unwrap();

    assert_ne!(word, reversed_word);
    assert_eq!(decode_word4(&f, reversed_word), 0b0101);
}

#[test]
fn m3_ripple4_exhaustive_512_cases() {
    let mut f = Fixture::new();
    let program = Add4Program::install(&mut f);

    let before = f.store.link_count();
    let mut cases = 0usize;

    for a in 0u8..16 {
        for b in 0u8..16 {
            for cin in 0u8..=1 {
                let (sum, cout, steps) =
                    run_add4(&mut f, &program, a, b, cin);
                let total = u16::from(a) + u16::from(b) + u16::from(cin);

                assert_eq!(sum, (total & 0x0f) as u8, "A={a} B={b} Cin={cin}");
                assert_eq!(cout, ((total >> 4) & 1) as u8, "A={a} B={b} Cin={cin}");
                assert_eq!(steps, 57);
                cases += 1;
            }
        }
    }

    assert_eq!(cases, 512);

    // Representative human-readable checkpoints.
    for (a, b, cin) in [
        (0, 0, 0),
        (1, 1, 0),
        (3, 5, 0),
        (7, 1, 0),
        (7, 8, 0),
        (15, 0, 0),
        (15, 1, 0),
        (15, 15, 0),
        (15, 15, 1),
    ] {
        let (sum, cout, _) = run_add4(&mut f, &program, a, b, cin);
        println!(
            "RIPPLE4_TRACE a={a} b={b} cin={cin} sum={sum} cout={cout} active_steps=57"
        );
    }

    let after = f.store.link_count();
    println!(
        "RIPPLE4_EXHAUSTIVE=GREEN cases=512 links_before={before} links_after={after}"
    );
}

#[test]
fn m3_ripple4_rejects_wrong_word_arity_by_no_match() {
    let mut f = Fixture::new();
    let program = Add4Program::install(&mut f);

    let a3 = materialize_exact_sequence(
        &mut f.store,
        &[f.zero, f.zero, f.zero],
    )
    .unwrap();
    let b4 = materialize_exact_sequence(
        &mut f.store,
        &[f.zero, f.zero, f.zero, f.zero],
    )
    .unwrap();
    let args =
        materialize_exact_sequence(&mut f.store, &[a3, b4, f.zero]).unwrap();
    let invocation = call(&mut f.store, f.apply, program.add4, args);
    let initial = f.store.ensure_pair(f.k, invocation).unwrap();

    f.engine.set_current(&f.store, &[initial]).unwrap();
    let reaction = f.engine.run(&mut f.store).unwrap();

    assert!(reaction.quiescent);
    assert_eq!(reaction.raw_rule_matches, 0);
    assert_eq!(reaction.handoff_count, 0);
    assert_eq!(f.engine.current(), &[initial]);
}

fn sub1_bit(f: &Fixture, value: Handle) -> u8 {
    if value == f.one {
        1
    } else {
        assert_eq!(value, f.zero, "SUB1 result must be canonical 0/1");
        0
    }
}

fn run_sub1(
    f: &mut Fixture,
    program: &Sub1Program,
    a: u8,
    b: u8,
    bin: u8,
) -> (u8, u8, Handle) {
    assert!(a <= 1 && b <= 1 && bin <= 1);

    let bits = [f.zero, f.one];
    let args = materialize_exact_sequence(
        &mut f.store,
        &[bits[a as usize], bits[b as usize], bits[bin as usize]],
    )
    .unwrap();
    let invocation = call(&mut f.store, f.apply, program.sub, args);
    let initial = f.store.ensure_pair(f.k, invocation).unwrap();

    f.engine.set_current(&f.store, &[initial]).unwrap();

    for step in 0..program.active_steps {
        let reaction = f.engine.run(&mut f.store).unwrap();
        assert!(
            !reaction.quiescent,
            "SUB1 a={a} b={b} bin={bin}: unexpected quiescence at step {step}",
        );
        assert_eq!(reaction.raw_rule_matches, 1, "step {step} matches");
        assert_eq!(reaction.transitioned_members, 1, "step {step} transitioned");
        assert_eq!(reaction.handoff_count, 1, "step {step} handoff");
        assert_eq!(reaction.next_members.len(), 1, "step {step} Scope");
    }

    let stable = f.engine.current_bank();
    let quiescent = f.engine.run(&mut f.store).unwrap();
    assert!(quiescent.quiescent);
    assert_eq!(quiescent.raw_rule_matches, 0);
    assert_eq!(quiescent.handoff_count, 0);
    assert_eq!(f.engine.current_bank(), stable);
    assert_eq!(f.engine.current().len(), 1);

    let final_link = f.engine.current()[0];
    let (caller, result) = f.store.poles(final_link).unwrap();
    assert_eq!(caller, f.k);

    let values = read_exact_sequence(&f.store, result).unwrap();
    assert_eq!(values.len(), 2, "SUB1 result arity");
    let diff = sub1_bit(f, values[0]);
    let borrow = sub1_bit(f, values[1]);

    (diff, borrow, result)
}

fn expected_sub1(a: u8, b: u8, bin: u8) -> (u8, u8) {
    let raw = i16::from(a) - i16::from(b) - i16::from(bin);
    (raw.rem_euclid(2) as u8, u8::from(raw < 0))
}

#[test]
fn m3_sub1_shared_adder_exhaustive_truth_table() {
    let mut f = Fixture::new();
    let program = Sub1Program::install(&mut f);
    assert_eq!(program.active_steps, 21);

    let mut cases = 0usize;
    for a in 0u8..=1 {
        for b in 0u8..=1 {
            for bin in 0u8..=1 {
                let (diff, borrow, _) =
                    run_sub1(&mut f, &program, a, b, bin);
                assert_eq!(
                    (diff, borrow),
                    expected_sub1(a, b, bin),
                    "SUB1 a={a} b={b} bin={bin}"
                );
                cases += 1;
            }
        }
    }

    assert_eq!(cases, 8);
}

#[test]
fn m3_sub1_result_order_and_steady_state_are_structural() {
    let mut f = Fixture::new();
    let program = Sub1Program::install(&mut f);

    // 1 - 0 - 0 => Diff=1, BorrowOut=0 gives an asymmetric result,
    // so reversing positions must produce a distinct ExactSequence.
    let (diff, borrow, result) =
        run_sub1(&mut f, &program, 1, 0, 0);
    assert_eq!((diff, borrow), (1, 0));

    let values = read_exact_sequence(&f.store, result).unwrap();
    assert_eq!(values, vec![f.one, f.zero]);

    let reversed =
        materialize_exact_sequence(&mut f.store, &[f.zero, f.one]).unwrap();
    assert_ne!(result, reversed, "[Diff,BorrowOut] order is semantic");

    // Once this exact computation has materialized every reachable Link,
    // an identical execution must not grow semantic state.
    let after_first = f.store.link_count();
    let second = run_sub1(&mut f, &program, 1, 0, 0);
    assert_eq!((second.0, second.1), (1, 0));
    assert_eq!(
        f.store.link_count(),
        after_first,
        "repeated identical SUB1 materialized new Links"
    );
}

#[test]
fn m4_flag_patch_schema_reinstalls_canonically() {
    let mut store = OptimizedLinkStore::new();
    let o = store.ensure_start_self_closed(ROOT_HANDLE).unwrap();
    let c = store.ensure_end_self_closed(ROOT_HANDLE).unwrap();
    let seed = store.ensure_pair(c, o).unwrap();

    let a = FlagPatchSchema::install(&mut store, seed, o, c);
    let links = store.link_count();
    let b = FlagPatchSchema::install(&mut store, seed, o, c);

    assert_eq!(a.set_tag, b.set_tag);
    assert_eq!(a.undefined_tag, b.undefined_tag);
    assert_eq!(a.cf, b.cf);
    assert_eq!(a.pf, b.pf);
    assert_eq!(a.af, b.af);
    assert_eq!(a.zf, b.zf);
    assert_eq!(a.sf, b.sf);
    assert_eq!(a.of, b.of);
    assert_eq!(store.link_count(), links);
}

#[derive(Clone, Copy, Debug, PartialEq, Eq)]
struct ArithmeticOutcome {
    value: u32,
    status: u8,
    aux_raw: u8,
    sign_in_raw: u8,
    final_raw: u8,
    mode: u8,
}

fn arith_mask(width: usize) -> u32 {
    if width == 32 {
        u32::MAX
    } else {
        (1u32 << width) - 1
    }
}

fn word_bits(f: &Fixture, width: usize, value: u32) -> Vec<Handle> {
    (0..width)
        .map(|bit| if (value >> bit) & 1 == 1 { f.one } else { f.zero })
        .collect()
}

fn decode_word_n(f: &Fixture, width: usize, word: Handle) -> u32 {
    let bits = read_exact_sequence(&f.store, word).unwrap();
    assert_eq!(bits.len(), width);
    let mut value = 0u32;
    for (index, bit) in bits.into_iter().enumerate() {
        if bit == f.one {
            value |= 1u32 << index;
        } else {
            assert_eq!(bit, f.zero);
        }
    }
    value
}

fn decode_flag(f: &Fixture, bit: Handle) -> u8 {
    if bit == f.one {
        1
    } else {
        assert_eq!(bit, f.zero);
        0
    }
}

fn run_arithmetic(
    f: &mut Fixture,
    program: &ArithmeticProgram,
    a: u32,
    b: u32,
    x: u8,
    mode: u8,
) -> ArithmeticOutcome {
    let a_bits = word_bits(f, program.width, a);
    let b_bits = word_bits(f, program.width, b);
    let aword = materialize_exact_sequence(&mut f.store, &a_bits).unwrap();
    let bword = materialize_exact_sequence(&mut f.store, &b_bits).unwrap();
    let xh = if x == 0 { f.zero } else { f.one };
    let mh = if mode == 0 { f.zero } else { f.one };
    let args = materialize_exact_sequence(&mut f.store, &[aword, bword, xh, mh]).unwrap();
    let invocation = call(&mut f.store, f.apply, program.arithmetic, args);
    let initial = f.store.ensure_pair(f.k, invocation).unwrap();
    f.engine.set_current(&f.store, &[initial]).unwrap();
    for step in 0..program.active_steps {
        let reaction = f.engine.run(&mut f.store).unwrap();
        assert!(!reaction.quiescent, "A={a} B={b} X={x} M={mode}: step {step}");
        assert_eq!(reaction.raw_rule_matches, 1, "step {step} matches");
        assert_eq!(reaction.transitioned_members, 1, "step {step} transitioned");
        assert_eq!(reaction.handoff_count, 1, "step {step} handoff");
        assert_eq!(reaction.next_members.len(), 1, "step {step} Scope");
    }
    let stable = f.engine.current_bank();
    let quiescent = f.engine.run(&mut f.store).unwrap();
    assert!(quiescent.quiescent);
    assert_eq!(f.engine.current_bank(), stable);
    let final_link = f.engine.current()[0];
    let (caller, result) = f.store.poles(final_link).unwrap();
    assert_eq!(caller, f.k);
    let (result_tag, payload) = f.store.poles(result).unwrap();
    assert_eq!(result_tag, program.result_tag);
    let values = read_exact_sequence(&f.store, payload).unwrap();
    assert_eq!(values.len(), 6);
    ArithmeticOutcome {
        value: decode_word_n(f, program.width, values[0]),
        status: decode_flag(f, values[1]),
        aux_raw: decode_flag(f, values[2]),
        sign_in_raw: decode_flag(f, values[3]),
        final_raw: decode_flag(f, values[4]),
        mode: decode_flag(f, values[5]),
    }
}

fn expected_arithmetic(width: usize, a: u32, b: u32, x: u8, mode: u8) -> ArithmeticOutcome {
    let m = arith_mask(width);
    let effective_b = if mode == 0 { b } else { b ^ m };
    let mut carry = x ^ mode;
    let mut value = 0u32;
    let mut aux_raw = 0u8;
    let mut sign_in_raw = 0u8;
    for bit in 0..width {
        if bit == width - 1 {
            sign_in_raw = carry;
        }
        let av = ((a >> bit) & 1) as u8;
        let bv = ((effective_b >> bit) & 1) as u8;
        let sum = av ^ bv ^ carry;
        let next = (av & bv) | (av & carry) | (bv & carry);
        value |= u32::from(sum) << bit;
        carry = next;
        if bit == 3 {
            aux_raw = carry;
        }
    }
    ArithmeticOutcome { value, status: carry ^ mode, aux_raw, sign_in_raw, final_raw: carry, mode }
}

#[test]
fn arith_width4_add_and_sub_match_oracle() {
    let mut f = Fixture::new();
    let program = ArithmeticProgram::install(&mut f, 4);
    assert_eq!(program.active_steps, 69);
    for a in 0u32..16 {
        for b in [0u32, 1, 7, 8, 15] {
            for (x, mode) in [(0u8, 0u8), (1, 0), (0, 1), (1, 1)] {
                let got = run_arithmetic(&mut f, &program, a, b, x, mode);
                assert_eq!(got, expected_arithmetic(4, a, b, x, mode), "A={a} B={b} X={x} M={mode}");
                let total = if mode == 0 {
                    (a + b + u32::from(x)) & 0xf
                } else {
                    a.wrapping_sub(b).wrapping_sub(u32::from(x)) & 0xf
                };
                assert_eq!(got.value, total);
            }
        }
    }
}

#[test]
fn arith_width8_edges_and_steady_state() {
    let mut f = Fixture::new();
    let program = ArithmeticProgram::install(&mut f, 8);
    assert_eq!(program.active_steps, 133);
    assert_eq!(program.links_after_build, f.store.link_count());
    for (a, b, x, mode) in [(0xffu32, 1u32, 0u8, 0u8), (0, 1, 0, 1), (0x80, 0x7f, 1, 1), (0x7f, 1, 0, 0)] {
        let got = run_arithmetic(&mut f, &program, a, b, x, mode);
        assert_eq!(got, expected_arithmetic(8, a, b, x, mode));
    }
    let after_first = f.store.link_count();
    run_arithmetic(&mut f, &program, 0x7f, 1, 0, 0);
    assert_eq!(f.store.link_count(), after_first);
}

fn run_logic_steps(f: &mut Fixture, steps: usize, label: &str) {
    for step in 0..steps {
        let reaction = f.engine.run(&mut f.store).unwrap();
        assert!(!reaction.quiescent, "{label}: unexpected quiescence at step {step}");
        assert_eq!(reaction.raw_rule_matches, 1, "{label} step {step} matches");
        assert_eq!(reaction.transitioned_members, 1, "{label} step {step} transitioned");
        assert_eq!(reaction.handoff_count, 1, "{label} step {step} handoff");
        assert_eq!(reaction.next_members.len(), 1, "{label} step {step} Scope");
    }
    let stable = f.engine.current_bank();
    let quiescent = f.engine.run(&mut f.store).unwrap();
    assert!(quiescent.quiescent, "{label}: final quiescence");
    assert_eq!(quiescent.raw_rule_matches, 0);
    assert_eq!(quiescent.handoff_count, 0);
    assert_eq!(f.engine.current_bank(), stable);
}

fn decode_logic_result(f: &Fixture, program: &LogicProgram) -> u32 {
    assert_eq!(f.engine.current().len(), 1);
    let final_link = f.engine.current()[0];
    let (caller, endpoint) = f.store.poles(final_link).unwrap();
    assert_eq!(caller, f.k);
    let (tag, payload) = f.store.poles(endpoint).unwrap();
    assert_eq!(tag, program.result_tag);
    let values = read_exact_sequence(&f.store, payload).unwrap();
    assert_eq!(values.len(), 1);
    decode_word_n(f, program.width, values[0])
}

fn run_binary(f: &mut Fixture, program: &LogicProgram, gate: Handle, a: u32, b: u32) -> u32 {
    let a_bits = word_bits(f, program.width, a);
    let b_bits = word_bits(f, program.width, b);
    let aword = materialize_exact_sequence(&mut f.store, &a_bits).unwrap();
    let bword = materialize_exact_sequence(&mut f.store, &b_bits).unwrap();
    let args = materialize_exact_sequence(&mut f.store, &[gate, aword, bword]).unwrap();
    let invocation = call(&mut f.store, f.apply, program.word_binary, args);
    let initial = f.store.ensure_pair(f.k, invocation).unwrap();
    f.engine.set_current(&f.store, &[initial]).unwrap();
    run_logic_steps(f, program.binary_steps, "WORD_BIN");
    decode_logic_result(f, program)
}

fn run_not(f: &mut Fixture, program: &LogicProgram, a: u32) -> u32 {
    let a_bits = word_bits(f, program.width, a);
    let aword = materialize_exact_sequence(&mut f.store, &a_bits).unwrap();
    let args = materialize_exact_sequence(&mut f.store, &[aword]).unwrap();
    let invocation = call(&mut f.store, f.apply, program.word_not, args);
    let initial = f.store.ensure_pair(f.k, invocation).unwrap();
    f.engine.set_current(&f.store, &[initial]).unwrap();
    run_logic_steps(f, program.unary_steps, "WORD_NOT");
    decode_logic_result(f, program)
}

#[test]
fn word_logic_width8_selects_gate_by_value() {
    let mut f = Fixture::new();
    let program = LogicProgram::install(&mut f, 8);
    assert_eq!(program.binary_steps, 17);
    assert_eq!(program.unary_steps, 17);
    for (a, b) in [(0u32, 0u32), (0xff, 0), (0xaa, 0x55), (0xf0, 0x3c), (0x81, 0x01), (0xff, 0xff)] {
        assert_eq!(run_binary(&mut f, &program, program.gates.and2, a, b), a & b, "AND {a:#x} {b:#x}");
        assert_eq!(run_binary(&mut f, &program, program.gates.or2, a, b), a | b, "OR {a:#x} {b:#x}");
        assert_eq!(run_binary(&mut f, &program, program.gates.xor2, a, b), a ^ b, "XOR {a:#x} {b:#x}");
        assert_eq!(run_not(&mut f, &program, a), !a & 0xff, "NOT {a:#x}");
    }
    let after_first = f.store.link_count();
    run_binary(&mut f, &program, program.gates.xor2, 0xaa, 0x55);
    assert_eq!(f.store.link_count(), after_first);
}

#[derive(Clone, Copy, Debug, PartialEq, Eq)]
struct FlagOutcome {
    value: u32,
    cf: u8,
    pf: u8,
    af: u8,
    zf: u8,
    sf: u8,
    of: u8,
}

fn run_flagged(f: &mut Fixture, program: &FlaggedArithmeticProgram, a: u32, b: u32, x: u8, mode: u8) -> FlagOutcome {
    let a_bits = word_bits(f, program.width, a);
    let b_bits = word_bits(f, program.width, b);
    let aword = materialize_exact_sequence(&mut f.store, &a_bits).unwrap();
    let bword = materialize_exact_sequence(&mut f.store, &b_bits).unwrap();
    let xh = if x == 0 { f.zero } else { f.one };
    let mh = if mode == 0 { f.zero } else { f.one };
    let args = materialize_exact_sequence(&mut f.store, &[aword, bword, xh, mh]).unwrap();
    let invocation = call(&mut f.store, f.apply, program.flagged, args);
    let initial = f.store.ensure_pair(f.k, invocation).unwrap();
    f.engine.set_current(&f.store, &[initial]).unwrap();
    run_logic_steps(f, program.active_steps, "FLAGS");
    let final_link = f.engine.current()[0];
    let (caller, endpoint) = f.store.poles(final_link).unwrap();
    assert_eq!(caller, f.k);
    let (tag, payload) = f.store.poles(endpoint).unwrap();
    assert_eq!(tag, program.result_tag);
    let values = read_exact_sequence(&f.store, payload).unwrap();
    assert_eq!(values.len(), 7);
    FlagOutcome {
        value: decode_word_n(f, program.width, values[0]),
        cf: decode_flag(f, values[1]),
        pf: decode_flag(f, values[2]),
        af: decode_flag(f, values[3]),
        zf: decode_flag(f, values[4]),
        sf: decode_flag(f, values[5]),
        of: decode_flag(f, values[6]),
    }
}

fn signed_value(width: usize, value: u32) -> i64 {
    let sign = 1u64 << (width - 1);
    let modulus = 1i64 << width;
    let v = u64::from(value & arith_mask(width));
    if v & sign == 0 {
        v as i64
    } else {
        v as i64 - modulus
    }
}

fn expected_flags(width: usize, a: u32, b: u32, x: u8, mode: u8) -> FlagOutcome {
    let m = arith_mask(width);
    let wide_mask = u64::from(m);
    let (value, cf) = if mode == 0 {
        let total = u64::from(a) + u64::from(b) + u64::from(x);
        ((total & wide_mask) as u32, u8::from(total > wide_mask))
    } else {
        let subtrahend = u64::from(b) + u64::from(x);
        (a.wrapping_sub(b).wrapping_sub(u32::from(x)) & m, u8::from(u64::from(a) < subtrahend))
    };
    let af = if mode == 0 {
        u8::from(u16::from((a & 0x0f) as u8) + u16::from((b & 0x0f) as u8) + u16::from(x) > 0x0f)
    } else {
        u8::from(u16::from((a & 0x0f) as u8) < u16::from((b & 0x0f) as u8) + u16::from(x))
    };
    let sa = signed_value(width, a);
    let sb = signed_value(width, b);
    let signed_math = if mode == 0 { sa + sb + i64::from(x) } else { sa - sb - i64::from(x) };
    let min = -(1i64 << (width - 1));
    let max = (1i64 << (width - 1)) - 1;
    let of = u8::from(signed_math < min || signed_math > max);
    FlagOutcome {
        value,
        cf,
        pf: u8::from((value as u8).count_ones() % 2 == 0),
        af,
        zf: u8::from(value == 0),
        sf: ((value >> (width - 1)) & 1) as u8,
        of,
    }
}

#[test]
fn eflags_width8_named_edges_match_oracle() {
    let mut f = Fixture::new();
    let program = FlaggedArithmeticProgram::install(&mut f, 8);
    assert_eq!(program.active_steps, 31 + 18 * 8);
    let zero = run_flagged(&mut f, &program, 0xff, 0, 1, 0);
    assert_eq!(zero, expected_flags(8, 0xff, 0, 1, 0));
    assert_eq!((zero.cf, zero.zf, zero.pf), (1, 1, 1));
    let borrow = run_flagged(&mut f, &program, 0, 0, 1, 1);
    assert_eq!(borrow, expected_flags(8, 0, 0, 1, 1));
    assert_eq!((borrow.cf, borrow.sf), (1, 1));
    assert_eq!(run_flagged(&mut f, &program, 0x7f, 0, 1, 0).of, 1);
    assert_eq!(run_flagged(&mut f, &program, 0x80, 0, 1, 1).of, 1);
    assert_eq!(run_flagged(&mut f, &program, 0x0f, 0, 1, 0).af, 1);
    assert_eq!(run_flagged(&mut f, &program, 0x10, 1, 0, 1).af, 1);
    assert_eq!(run_flagged(&mut f, &program, 0x03, 0, 0, 0).pf, 1);
    assert_eq!(run_flagged(&mut f, &program, 0x01, 0, 0, 0).pf, 0);
    for (a, b, x, mode) in [(0x12u32, 0x9au32, 1u8, 1u8), (0x55, 0xaa, 0, 0), (0xc3, 0x3c, 1, 0), (0x40, 0x41, 0, 1)] {
        assert_eq!(run_flagged(&mut f, &program, a, b, x, mode), expected_flags(8, a, b, x, mode));
    }
    let links = f.store.link_count();
    let again = run_flagged(&mut f, &program, 0x12, 0x9a, 1, 1);
    assert_eq!(again, expected_flags(8, 0x12, 0x9a, 1, 1));
    assert_eq!(f.store.link_count(), links);
}

/// Decodes a flag patch into (flag, Some(value) | None for undefined).
fn decode_patch(f: &Fixture, schema: &FlagPatchSchema, patch: Handle) -> Vec<(Handle, Option<u8>)> {
    let actions = read_exact_sequence(&f.store, patch).unwrap();
    actions
        .into_iter()
        .map(|action| {
            let (tag, payload) = f.store.poles(action).unwrap();
            let values = read_exact_sequence(&f.store, payload).unwrap();
            if tag == schema.set_tag {
                assert_eq!(values.len(), 2);
                (values[0], Some(decode_flag(f, values[1])))
            } else {
                assert_eq!(tag, schema.undefined_tag);
                assert_eq!(values.len(), 1);
                (values[0], None)
            }
        })
        .collect()
}

fn run_effect(f: &mut Fixture, program: &LogicEffectProgram, call_args: &[Handle], function: Handle, steps: usize) -> Vec<Handle> {
    let args = materialize_exact_sequence(&mut f.store, call_args).unwrap();
    let invocation = call(&mut f.store, f.apply, function, args);
    let initial = f.store.ensure_pair(f.k, invocation).unwrap();
    f.engine.set_current(&f.store, &[initial]).unwrap();
    run_logic_steps(f, steps, "EFFECT");
    let final_link = f.engine.current()[0];
    let (caller, endpoint) = f.store.poles(final_link).unwrap();
    assert_eq!(caller, f.k);
    let (tag, payload) = f.store.poles(endpoint).unwrap();
    assert_eq!(tag, program.result_tag);
    read_exact_sequence(&f.store, payload).unwrap()
}

#[test]
fn logic_effects_width8_set_partial_flags() {
    let mut f = Fixture::new();
    let program = LogicEffectProgram::install(&mut f, 8);
    assert_eq!(program.binary_steps, 19 + 32);
    assert_eq!(program.not_steps, 3 + 16);
    let schema = program.schema;
    for (a, b) in [(0xf0u32, 0x0fu32), (0x81, 0x81), (0x03, 0x01), (0xaa, 0xff)] {
        for (gate, value) in [(program.logic.gates.and2, a & b), (program.logic.gates.xor2, a ^ b)] {
            let a_bits = word_bits(&f, 8, a);
            let b_bits = word_bits(&f, 8, b);
            let aword = materialize_exact_sequence(&mut f.store, &a_bits).unwrap();
            let bword = materialize_exact_sequence(&mut f.store, &b_bits).unwrap();
            let writeback = f.one;
            let out = run_effect(&mut f, &program, &[gate, aword, bword, writeback], program.binary_effect, program.binary_steps);
            assert_eq!(out.len(), 3);
            assert_eq!(out[0], f.one);
            assert_eq!(decode_word_n(&f, 8, out[1]), value);
            let patch = decode_patch(&f, &schema, out[2]);
            let pf = u8::from((value as u8).count_ones() % 2 == 0);
            let expected = vec![
                (schema.cf, Some(0)),
                (schema.pf, Some(pf)),
                (schema.af, None),
                (schema.zf, Some(u8::from(value == 0))),
                (schema.sf, Some(((value >> 7) & 1) as u8)),
                (schema.of, Some(0)),
            ];
            assert_eq!(patch, expected, "a={a:#x} b={b:#x}");
        }
    }
    let a_bits = word_bits(&f, 8, 0x3c);
    let aword = materialize_exact_sequence(&mut f.store, &a_bits).unwrap();
    let out = run_effect(&mut f, &program, &[aword], program.not_effect, program.not_steps);
    assert_eq!(out.len(), 3);
    assert_eq!(out[0], f.one);
    assert_eq!(decode_word_n(&f, 8, out[1]), 0xc3);
    assert_eq!(out[2], ROOT_HANDLE);
}

#[derive(Clone, Debug, PartialEq, Eq)]
struct ShiftOutcome {
    writeback: u8,
    value: u32,
    patch: Vec<(Handle, Option<u8>)>,
    reactions: usize,
}

fn run_shift(f: &mut Fixture, program: &Shift32Program, function: Handle, value: u32, count: u8) -> ShiftOutcome {
    let word_bits_v = word_bits(f, 32, value);
    let count_bits = word_bits(f, 8, u32::from(count));
    let word = materialize_exact_sequence(&mut f.store, &word_bits_v).unwrap();
    let count_word = materialize_exact_sequence(&mut f.store, &count_bits).unwrap();
    let args = materialize_exact_sequence(&mut f.store, &[word, count_word]).unwrap();
    let invocation = call(&mut f.store, f.apply, function, args);
    let initial = f.store.ensure_pair(f.k, invocation).unwrap();
    f.engine.set_current(&f.store, &[initial]).unwrap();
    let mut reactions = 0usize;
    loop {
        let result = f.engine.run(&mut f.store).unwrap();
        if result.quiescent {
            assert_eq!(result.raw_rule_matches, 0);
            assert_eq!(result.handoff_count, 0);
            break;
        }
        reactions += 1;
        assert_eq!(result.raw_rule_matches, 1, "reaction {reactions}");
        assert_eq!(result.transitioned_members, 1, "reaction {reactions}");
        assert_eq!(result.handoff_count, 1, "reaction {reactions}");
        assert_eq!(result.next_members.len(), 1, "reaction {reactions}");
        assert!(reactions <= 90, "SHIFT32 failed to quiesce");
    }
    assert_eq!(f.engine.current().len(), 1);
    let final_link = f.engine.current()[0];
    let (caller, endpoint) = f.store.poles(final_link).unwrap();
    assert_eq!(caller, f.k);
    let (tag, payload) = f.store.poles(endpoint).unwrap();
    assert_eq!(tag, program.result_tag);
    let values = read_exact_sequence(&f.store, payload).unwrap();
    assert_eq!(values.len(), 3);
    ShiftOutcome {
        writeback: decode_flag(f, values[0]),
        value: decode_word_n(f, 32, values[1]),
        patch: decode_patch(f, &program.schema, values[2]),
        reactions,
    }
}

fn expected_shift(program: &Shift32Program, function: Handle, value: u32, count: u8) -> ShiftOutcome {
    let masked = usize::from(count & 31);
    if masked == 0 {
        return ShiftOutcome { writeback: 1, value, patch: vec![], reactions: 1 };
    }
    let (result, cf) = if function == program.shl {
        (value.wrapping_shl(masked as u32), ((value >> (32 - masked)) & 1) as u8)
    } else if function == program.shr {
        (value >> masked, ((value >> (masked - 1)) & 1) as u8)
    } else {
        assert_eq!(function, program.sar);
        (((value as i32) >> masked) as u32, ((value >> (masked - 1)) & 1) as u8)
    };
    let of = if masked == 1 {
        if function == program.shl {
            Some((((result >> 31) & 1) as u8) ^ cf)
        } else if function == program.shr {
            Some(((value >> 31) & 1) as u8)
        } else {
            Some(0)
        }
    } else {
        None
    };
    let s = program.schema;
    ShiftOutcome {
        writeback: 1,
        value: result,
        patch: vec![
            (s.cf, Some(cf)),
            (s.pf, Some(u8::from((result as u8).count_ones() % 2 == 0))),
            (s.af, None),
            (s.zf, Some(u8::from(result == 0))),
            (s.sf, Some(((result >> 31) & 1) as u8)),
            (s.of, of),
        ],
        reactions: if masked == 1 && function == program.shl { 84 } else { 82 },
    }
}

#[test]
fn shift32_shl_and_sar_match_oracle() {
    let mut f = Fixture::new();
    let program = Shift32Program::install(&mut f);
    assert_eq!(program.sal, program.shl);
    for (function, value, count) in [(program.shl, 0x8000_0001u32, 1u8), (program.sar, 0xa5a5_5a5a, 2)] {
        let actual = run_shift(&mut f, &program, function, value, count);
        let expected = expected_shift(&program, function, value, count);
        assert_eq!(actual, expected, "value={value:#010x} count={count} function={function}");
    }
}

fn run_exact_steps(f: &mut Fixture, steps: usize, label: &str) {
    for step in 0..steps {
        let result = f.engine.run(&mut f.store).unwrap();
        assert!(!result.quiescent, "{label}: unexpected quiescence at {step}");
        assert_eq!(result.raw_rule_matches, 1, "{label} step {step}");
        assert_eq!(result.transitioned_members, 1, "{label} step {step}");
        assert_eq!(result.handoff_count, 1, "{label} step {step}");
        assert_eq!(result.next_members.len(), 1, "{label} step {step}");
    }
    let tail = f.engine.run(&mut f.store).unwrap();
    assert!(tail.quiescent, "{label}: did not quiesce after {steps} steps");
}

fn mux_result(f: &Fixture, tag: Handle) -> Handle {
    let final_link = f.engine.current()[0];
    let (caller, endpoint) = f.store.poles(final_link).unwrap();
    assert_eq!(caller, f.k);
    let (result_tag, payload) = f.store.poles(endpoint).unwrap();
    assert_eq!(result_tag, tag);
    let values = read_exact_sequence(&f.store, payload).unwrap();
    assert_eq!(values.len(), 1);
    values[0]
}

fn run_mux1(f: &mut Fixture, program: &MuxProgram, function: Handle, steps: usize, s: u8, a: u8, b: u8) -> u8 {
    let bits = [f.zero, f.one];
    let args = materialize_exact_sequence(&mut f.store, &[bits[s as usize], bits[a as usize], bits[b as usize]]).unwrap();
    let invocation = call(&mut f.store, f.apply, function, args);
    let initial = f.store.ensure_pair(f.k, invocation).unwrap();
    f.engine.set_current(&f.store, &[initial]).unwrap();
    run_exact_steps(f, steps, "MUX1");
    decode_flag(f, mux_result(f, program.bit_result_tag))
}

fn run_mux32(f: &mut Fixture, program: &MuxProgram, s: u8, a: u32, b: u32) -> u32 {
    let bits = [f.zero, f.one];
    let a_bits = word_bits(f, 32, a);
    let b_bits = word_bits(f, 32, b);
    let aword = materialize_exact_sequence(&mut f.store, &a_bits).unwrap();
    let bword = materialize_exact_sequence(&mut f.store, &b_bits).unwrap();
    let args = materialize_exact_sequence(&mut f.store, &[bits[s as usize], aword, bword]).unwrap();
    let invocation = call(&mut f.store, f.apply, program.mux32, args);
    let initial = f.store.ensure_pair(f.k, invocation).unwrap();
    f.engine.set_current(&f.store, &[initial]).unwrap();
    run_exact_steps(f, program.mux32_steps, "MUX32");
    decode_word_n(f, 32, mux_result(f, program.word_result_tag))
}

#[test]
fn m1_mux1_direct_and_composed_all_rows() {
    let mut f = Fixture::new();
    let program = MuxProgram::install(&mut f);
    assert_eq!(program.direct_steps, 1);
    assert_eq!(program.mux1_steps, 7);
    for s in 0u8..=1 {
        for a in 0u8..=1 {
            for b in 0u8..=1 {
                let direct = run_mux1(&mut f, &program, program.direct_mux1, program.direct_steps, s, a, b);
                let composed = run_mux1(&mut f, &program, program.mux1, program.mux1_steps, s, a, b);
                let expected = if s == 0 { a } else { b };
                assert_eq!(direct, expected);
                assert_eq!(composed, expected);
                assert_eq!(direct, composed);
            }
        }
    }
}

#[test]
fn m1_mux32_steady_state_has_zero_link_growth() {
    let mut f = Fixture::new();
    let program = MuxProgram::install(&mut f);
    assert_eq!(program.mux32_steps, 257);
    let a = 0x1357_9bdfu32;
    let b = 0x2468_ace0u32;
    assert_eq!(run_mux32(&mut f, &program, 0, a, b), a);
    let first = run_mux32(&mut f, &program, 1, a, b);
    assert_eq!(first, b);
    let links = f.store.link_count();
    let second = run_mux32(&mut f, &program, 1, a, b);
    assert_eq!(second, first);
    assert_eq!(f.store.link_count(), links, "repeated identical MUX32 materialized new Links");
}

#[test]
fn web_mux1_proof_refuses_non_bits() {
    assert!(web_prove_mux1(2, 0, 0, 1).is_none());
    assert!(web_prove_mux1(0, 2, 0, 1).is_none());
    assert!(web_prove_mux1(0, 0, 5, 1).is_none());
}

#[test]
fn web_run_mux32_selects_b_and_is_steady() {
    let out = web_run_mux32(1, 0x1357_9bdf, 0x2468_ace0).expect("MUX32 run");
    assert_eq!(out.value, 0x2468_ace0);
    assert_eq!(out.reactions, 257);
    assert_eq!(out.steady_link_delta, 0);
    assert_eq!(out.quiescent, 1);
    assert!(out.links_after_first > out.links_after_build);
    assert!(web_run_mux32(2, 0, 0).is_none());
}

#[test]
fn web_run_mux1_selects_and_refuses_non_bits() {
    let out = web_run_mux1(0, 1, 0).expect("MUX1 run");
    assert_eq!(out.value, 1);
    assert_eq!(out.reactions, 7);
    assert_eq!(out.steady_link_delta, 0);
    assert!(web_run_mux1(0, 2, 0).is_none());
    assert!(web_run_mux1(3, 0, 0).is_none());
}

#[test]
fn word_bits_and_decode_word_round_trip() {
    let mut f = Fixture::new();
    let bits = library_word_bits(f.zero, f.one, 8, 0xa5);
    assert_eq!(bits, word_bits(&f, 8, 0xa5));
    let word = materialize_exact_sequence(&mut f.store, &bits).unwrap();
    assert_eq!(decode_word(&f.store, f.zero, f.one, 8, word), Some(0xa5));
    assert_eq!(decode_word(&f.store, f.zero, f.one, 7, word), None);
    let mixed = materialize_exact_sequence(&mut f.store, &[f.one, f.k]).unwrap();
    assert_eq!(decode_word(&f.store, f.zero, f.one, 2, mixed), None);
    assert_eq!(decode_bit(f.zero, f.one, f.one), Some(1));
    assert_eq!(decode_bit(f.zero, f.one, f.zero), Some(0));
    assert_eq!(decode_bit(f.zero, f.one, f.k), None);
    let full = library_word_bits(f.zero, f.one, 32, 0x8000_0001);
    let full_word = materialize_exact_sequence(&mut f.store, &full).unwrap();
    assert_eq!(decode_word(&f.store, f.zero, f.one, 32, full_word), Some(0x8000_0001));
}

#[test]
fn web_logic_masks_split_defined_undefined_and_preserved_flags() {
    let full = EffectOutcome {
        writeback: 1,
        value: 0,
        cf: Some(0),
        pf: Some(1),
        af_undefined: true,
        zf: Some(1),
        sf: Some(0),
        of: Some(0),
        patch_len: 6,
    };
    assert_eq!(web_logic_masks(full), (0x8c5, 0x44, 0x10, 0));
    let untouched = EffectOutcome {
        writeback: 1,
        value: 7,
        cf: None,
        pf: None,
        af_undefined: false,
        zf: None,
        sf: None,
        of: None,
        patch_len: 0,
    };
    assert_eq!(web_logic_masks(untouched), (0, 0, 0, 0x8d5));
}

#[test]
fn web_run_logic_and_sets_partial_flags() {
    let out = web_run_logic(1, 0xf0f0_f0f0, 0x0ff0_0ff0).expect("AND run");
    assert_eq!(out.value, 0x00f0_00f0);
    assert_eq!(out.writeback, 1);
    assert_eq!(out.defined_mask, 0x8c5);
    assert_eq!(out.value_mask, 0x4);
    assert_eq!(out.undefined_mask, 0x10);
    assert_eq!(out.preserve_mask, 0);
    assert_eq!(out.reactions, 147);
    assert_eq!(out.steady_link_delta, 0);
    assert!(web_run_logic(6, 0, 0).is_none());
    assert!(web_run_logic(0, 0, 0).is_none());
}

#[test]
fn web_run_logic_not_changes_no_flag() {
    let out = web_run_logic(4, 0x0000_00ff, 0).expect("NOT run");
    assert_eq!(out.value, 0xffff_ff00);
    assert_eq!(out.writeback, 1);
    assert_eq!(out.defined_mask, 0);
    assert_eq!(out.undefined_mask, 0);
    assert_eq!(out.preserve_mask, 0x8d5);
    assert_eq!(out.reactions, 67);
}

#[test]
fn web_run_logic_test_does_not_write_back() {
    let out = web_run_logic(5, 0x8000_0000, 0x8000_0001).expect("TEST run");
    assert_eq!(out.value, 0x8000_0000);
    assert_eq!(out.writeback, 0);
    assert_eq!(out.value_mask, 0x84);
}

#[test]
fn web_flag_masks_classify_each_flag() {
    let masks = web_flag_masks([
        (0x1, FlagState::SetTo(1)),
        (0x4, FlagState::SetTo(0)),
        (0x10, FlagState::Undefined),
        (0x40, FlagState::Preserve),
        (0x80, FlagState::SetTo(1)),
        (0x800, FlagState::Undefined),
    ]);
    assert_eq!(masks, (0x85, 0x81, 0x810, 0x40));
}

#[test]
fn web_run_shift32_shl_by_one_sets_cf_and_of() {
    let out = web_run_shift32(13, 0x8000_0001, 1).expect("SHL run");
    assert_eq!(out.value, 0x0000_0002);
    assert_eq!(out.writeback, 1);
    assert_eq!(out.defined_mask, 0x8c5);
    assert_eq!(out.value_mask, 0x801);
    assert_eq!(out.undefined_mask, 0x10);
    assert_eq!(out.preserve_mask, 0);
    assert_eq!(out.reactions, 84);
    assert_eq!(out.steady_link_delta, 0);
    assert!(web_run_shift32(13, 0, 256).is_none());
    assert!(web_run_shift32(12, 0, 1).is_none());
}

#[test]
fn web_run_shift32_count_zero_preserves_every_flag() {
    let out = web_run_shift32(15, 0x8000_0000, 32).expect("SAR run");
    assert_eq!(out.value, 0x8000_0000);
    assert_eq!(out.defined_mask, 0);
    assert_eq!(out.undefined_mask, 0);
    assert_eq!(out.preserve_mask, 0x8d5);
    assert_eq!(out.reactions, 1);
}

#[derive(Clone, Copy, Debug, PartialEq, Eq)]
struct Shift1Outcome {
    value: u32,
    cf: u8,
    kind: Handle,
}

fn run_shift1(f: &mut Fixture, program: &Shift1Program, function: Handle, value: u32) -> Shift1Outcome {
    let bits = word_bits(f, program.width, value);
    let word = materialize_exact_sequence(&mut f.store, &bits).unwrap();
    let args = materialize_exact_sequence(&mut f.store, &[word]).unwrap();
    let invocation = call(&mut f.store, f.apply, function, args);
    let initial = f.store.ensure_pair(f.k, invocation).unwrap();
    f.engine.set_current(&f.store, &[initial]).unwrap();
    run_exact_steps(f, program.active_steps, "SHIFT1");
    let final_link = f.engine.current()[0];
    let (caller, envelope) = f.store.poles(final_link).unwrap();
    assert_eq!(caller, f.k);
    let (tag, payload) = f.store.poles(envelope).unwrap();
    assert_eq!(tag, program.result_tag);
    let values = read_exact_sequence(&f.store, payload).unwrap();
    assert_eq!(values.len(), 3);
    Shift1Outcome {
        value: decode_word_n(f, program.width, values[0]),
        cf: decode_flag(f, values[1]),
        kind: values[2],
    }
}

#[test]
fn m4_shift1_cf_sign_fill_and_steady_state() {
    let mut f = Fixture::new();
    let program = Shift1Program::install(&mut f, 32);
    assert_eq!(program.active_steps, 1);
    assert_eq!(program.sal1, program.shl1);

    let shl = run_shift1(&mut f, &program, program.shl1, 0x8000_0000);
    assert_eq!(shl.value, 0);
    assert_eq!(shl.cf, 1);
    assert_eq!(shl.kind, program.shl1);

    let shr = run_shift1(&mut f, &program, program.shr1, 1);
    assert_eq!(shr.value, 0);
    assert_eq!(shr.cf, 1);
    assert_eq!(shr.kind, program.shr1);

    let sar = run_shift1(&mut f, &program, program.sar1, 0x8000_0001);
    assert_eq!(sar.value, 0xc000_0000);
    assert_eq!(sar.cf, 1);
    assert_eq!(sar.kind, program.sar1);

    let first = run_shift1(&mut f, &program, program.sar1, 0x9234_5679);
    let links = f.store.link_count();
    let second = run_shift1(&mut f, &program, program.sar1, 0x9234_5679);
    assert_eq!(second, first);
    assert_eq!(f.store.link_count(), links, "repeated identical SHIFT1_32 materialized new Links");
}

#[test]
fn shift1_width8_matches_shift_oracle() {
    let mut f = Fixture::new();
    let program = Shift1Program::install(&mut f, 8);
    for value in [0u32, 0x01, 0x80, 0xa5, 0xff, 0x5a] {
        let shl = run_shift1(&mut f, &program, program.shl1, value);
        assert_eq!(shl, Shift1Outcome { value: (value << 1) & 0xff, cf: ((value >> 7) & 1) as u8, kind: program.shl1 });
        let shr = run_shift1(&mut f, &program, program.shr1, value);
        assert_eq!(shr, Shift1Outcome { value: value >> 1, cf: (value & 1) as u8, kind: program.shr1 });
        let sar = run_shift1(&mut f, &program, program.sar1, value);
        assert_eq!(sar, Shift1Outcome { value: (value >> 1) | (value & 0x80), cf: (value & 1) as u8, kind: program.sar1 });
    }
}

fn run_rotate(f: &mut Fixture, program: &Rotate32Program, function: Handle, value: u32, count: u8) -> (u8, u32, Vec<(Handle, Option<u8>)>) {
    let value_bits = word_bits(f, 32, value);
    let count_bits = word_bits(f, 8, u32::from(count));
    let word = materialize_exact_sequence(&mut f.store, &value_bits).unwrap();
    let count_word = materialize_exact_sequence(&mut f.store, &count_bits).unwrap();
    let args = materialize_exact_sequence(&mut f.store, &[word, count_word]).unwrap();
    let invocation = call(&mut f.store, f.apply, function, args);
    let initial = f.store.ensure_pair(f.k, invocation).unwrap();
    f.engine.set_current(&f.store, &[initial]).unwrap();
    let mut reactions = 0usize;
    loop {
        let result = f.engine.run(&mut f.store).unwrap();
        if result.quiescent {
            break;
        }
        reactions += 1;
        assert_eq!(result.raw_rule_matches, 1);
        assert!(reactions <= 20, "ROTATE32 failed to quiesce");
    }
    let final_link = f.engine.current()[0];
    let (caller, endpoint) = f.store.poles(final_link).unwrap();
    assert_eq!(caller, f.k);
    let (tag, payload) = f.store.poles(endpoint).unwrap();
    assert_eq!(tag, program.result_tag);
    let values = read_exact_sequence(&f.store, payload).unwrap();
    assert_eq!(values.len(), 3);
    let patch = if values[2] == ROOT_HANDLE { vec![] } else { decode_patch(f, &program.schema, values[2]) };
    (decode_flag(f, values[0]), decode_word_n(f, 32, values[1]), patch)
}

#[test]
fn rotate32_counts_and_flags_match_80386() {
    let mut f = Fixture::new();
    let program = Rotate32Program::install(&mut f);
    let s = program.schema;
    assert_eq!(run_rotate(&mut f, &program, program.rol, 0x8000_0001, 1), (1, 0x0000_0003, vec![(s.cf, Some(1)), (s.of, Some(1))]));
    assert_eq!(run_rotate(&mut f, &program, program.ror, 0x0000_00f1, 4), (1, 0x1000_000f, vec![(s.cf, Some(0)), (s.of, None)]));
    assert_eq!(run_rotate(&mut f, &program, program.ror, 0x1234_5678, 32), (1, 0x1234_5678, vec![]));
    let first = run_rotate(&mut f, &program, program.rol, 0x9234_5679, 37);
    assert_eq!(first, (1, 0x9234_5679u32.rotate_left(5), vec![(s.cf, Some((0x9234_5679u32.rotate_left(5) & 1) as u8)), (s.of, None)]));
    let links = f.store.link_count();
    let second = run_rotate(&mut f, &program, program.rol, 0x9234_5679, 37);
    assert_eq!(second, first);
    assert_eq!(f.store.link_count(), links, "repeated identical ROTATE32 materialized new Links");
}

fn run_add64(f: &mut Fixture, program: &Wide64Program, a: u64, b: u64, cin: u8) -> (u64, u8) {
    let mut wide = |f: &mut Fixture, value: u64| {
        let lo_bits = word_bits(f, 32, value as u32);
        let hi_bits = word_bits(f, 32, (value >> 32) as u32);
        let lo = materialize_exact_sequence(&mut f.store, &lo_bits).unwrap();
        let hi = materialize_exact_sequence(&mut f.store, &hi_bits).unwrap();
        materialize_exact_sequence(&mut f.store, &[lo, hi]).unwrap()
    };
    let awide = wide(f, a);
    let bwide = wide(f, b);
    let cin_h = if cin == 0 { f.zero } else { f.one };
    let args = materialize_exact_sequence(&mut f.store, &[awide, bwide, cin_h]).unwrap();
    let invocation = call(&mut f.store, f.apply, program.add64, args);
    let initial = f.store.ensure_pair(f.k, invocation).unwrap();
    f.engine.set_current(&f.store, &[initial]).unwrap();
    run_exact_steps(f, program.active_steps, "ADD64");
    let (caller, endpoint) = f.store.poles(f.engine.current()[0]).unwrap();
    assert_eq!(caller, f.k);
    let (tag, payload) = f.store.poles(endpoint).unwrap();
    assert_eq!(tag, program.result_tag);
    let values = read_exact_sequence(&f.store, payload).unwrap();
    assert_eq!(values.len(), 2);
    let halves = read_exact_sequence(&f.store, values[0]).unwrap();
    assert_eq!(halves.len(), 2);
    let lo = decode_word_n(f, 32, halves[0]);
    let hi = decode_word_n(f, 32, halves[1]);
    (u64::from(lo) | (u64::from(hi) << 32), decode_flag(f, values[1]))
}

#[test]
fn wide64_add64_propagates_the_low_carry() {
    let mut f = Fixture::new();
    let program = Wide64Program::install(&mut f);
    assert_eq!(program.active_steps, 1037);
    assert_eq!(run_add64(&mut f, &program, 0xffff_ffff, 1, 0), (0x1_0000_0000, 0));
    assert_eq!(run_add64(&mut f, &program, 0xffff_ffff_ffff_ffff, 0, 1), (0, 1));
}

fn run_sub_n(f: &mut Fixture, program: &RippleSubProgram, a: u32, b: u32, bin: u8) -> (u32, u8) {
    let a_bits = word_bits(f, program.width, a);
    let b_bits = word_bits(f, program.width, b);
    let aword = materialize_exact_sequence(&mut f.store, &a_bits).unwrap();
    let bword = materialize_exact_sequence(&mut f.store, &b_bits).unwrap();
    let bin_h = if bin == 0 { f.zero } else { f.one };
    let args = materialize_exact_sequence(&mut f.store, &[aword, bword, bin_h]).unwrap();
    let invocation = call(&mut f.store, f.apply, program.sub_n, args);
    let initial = f.store.ensure_pair(f.k, invocation).unwrap();
    f.engine.set_current(&f.store, &[initial]).unwrap();
    run_exact_steps(f, program.active_steps, "SUB_N");
    let (caller, result) = f.store.poles(f.engine.current()[0]).unwrap();
    assert_eq!(caller, f.k);
    let values = read_exact_sequence(&f.store, result).unwrap();
    assert_eq!(values.len(), 2);
    (decode_word_n(f, program.width, values[0]), decode_flag(f, values[1]))
}

#[test]
fn ripple_sub_width4_and_width8_match_borrow_oracle() {
    for width in [4usize, 8] {
        let mut f = Fixture::new();
        let program = RippleSubProgram::install(&mut f, width);
        assert_eq!(program.active_steps, 1 + 22 * width);
        let m = (1u32 << width) - 1;
        for (a, b, bin) in [(0u32, 0u32, 0u8), (0, 1, 0), (0, 0, 1), (m, m, 1), (5, 3, 1), (3, 5, 0), (m, 0, 0)] {
            let expected_diff = a.wrapping_sub(b).wrapping_sub(u32::from(bin)) & m;
            let expected_borrow = u8::from(a < b + u32::from(bin));
            assert_eq!(run_sub_n(&mut f, &program, a, b, bin), (expected_diff, expected_borrow), "width={width} a={a} b={b} bin={bin}");
        }
    }
}

#[test]
fn web_run_arithmetic_add_wraps_and_sets_every_flag() {
    let out = web_run_arithmetic(6, 0xffff_ffff, 1, 0).expect("ADD run");
    assert_eq!(out.value, 0);
    assert_eq!(out.writeback, 1);
    assert_eq!(out.defined_mask, 0x8d5);
    assert_eq!(out.value_mask, 0x55);
    assert_eq!(out.undefined_mask, 0);
    assert_eq!(out.preserve_mask, 0);
    assert_eq!(out.reactions, 609);
    assert_eq!(out.steady_link_delta, 0);
    assert!(web_run_arithmetic(5, 0, 0, 0).is_none());
    assert!(web_run_arithmetic(7, 0, 0, 2).is_none());
}

#[test]
fn web_run_arithmetic_cmp_is_sub_without_writeback() {
    let out = web_run_arithmetic(10, 1, 2, 0).expect("CMP run");
    assert_eq!(out.value, 0xffff_ffff);
    assert_eq!(out.writeback, 0);
    assert_eq!(out.value_mask, 0x95);
}

#[test]
fn web_run_rotate32_rol_by_one_defines_cf_and_of() {
    let out = web_run_rotate32(16, 0x8000_0001, 1).expect("ROL run");
    assert_eq!(out.value, 3);
    assert_eq!(out.writeback, 1);
    assert_eq!(out.defined_mask, 0x801);
    assert_eq!(out.value_mask, 0x801);
    assert_eq!(out.undefined_mask, 0);
    assert_eq!(out.preserve_mask, 0xd4);
    assert_eq!(out.reactions, 3);
    assert_eq!(out.steady_link_delta, 0);
    assert!(web_run_rotate32(18, 0, 1).is_none());
    assert!(web_run_rotate32(16, 0, 256).is_none());
}

#[test]
fn web_run_rotate32_ror_leaves_of_undefined() {
    let out = web_run_rotate32(17, 0x0000_00f1, 4).expect("ROR run");
    assert_eq!(out.value, 0x1000_000f);
    assert_eq!(out.defined_mask, 0x1);
    assert_eq!(out.value_mask, 0);
    assert_eq!(out.undefined_mask, 0x800);
    assert_eq!(out.preserve_mask, 0xd4);
    assert_eq!(out.reactions, 1);
}

#[test]
fn web_run_rotate_carry32_moves_the_carry_through_the_ring() {
    let rcl = web_run_rotate_carry32(18, 0x8000_0000, 1, 0).expect("RCL run");
    assert_eq!(rcl.value, 0);
    assert_eq!(rcl.defined_mask, 0x801);
    assert_eq!(rcl.value_mask, 0x801);
    assert_eq!(rcl.preserve_mask, 0xd4);
    assert_eq!(rcl.reactions, 3);
    assert_eq!(rcl.steady_link_delta, 0);
    assert!(web_run_rotate_carry32(18, 0, 1, 2).is_none());
}

#[test]
fn web_run_rotate_carry32_rcr_takes_the_carry_in() {
    let rcr = web_run_rotate_carry32(19, 1, 1, 1).expect("RCR run");
    assert_eq!(rcr.value, 0x8000_0000);
    assert_eq!(rcr.value_mask, 0x801);
}

#[test]
fn web_lab_rejects_unknown_op_and_invalid_select() {
    assert!(execute(99, 0, 0, 0, 1).is_none());
    assert!(execute(11, 0, 0, 2, 1).is_none());
    assert!(execute(12, 2, 0, 0, 1).is_none());
    assert!(lab_supports(12));
    assert!(lab_supports(22));
    assert!(lab_supports(23));
    assert!(lab_supports(24));
    assert!(!lab_supports(25));
    assert!(execute(13, 0, 256, 0, 1).is_none());
    assert!(execute(18, 0, 1, 2, 1).is_none());
}

#[test]
fn web_lab_executes_logic_and_mux32() {
    let and = execute(1, 0xf0f0_1234, 0x0ff0_ffff, 0, 1).unwrap().outcome;
    assert_eq!(and.value, 0x00f0_1234);
    assert_eq!(and.writeback, 1);
    assert_eq!(and.undefined_mask & 0x10, 0x10);
    assert_eq!(and.steady_link_delta, 0);
    assert_eq!(and.quiescent, 1);
    let mux = execute(11, 0xaaaa_aaaa, 0x5555_5555, 1, 1).unwrap();
    assert!(mux.proof.is_none());
    assert_eq!(mux.outcome.value, 0x5555_5555);
    assert_eq!(mux.outcome.preserve_mask, 0x8d5);
    assert_eq!(mux.outcome.steady_link_delta, 0);
}

#[test]
fn web_lab_executes_shift_and_rotate() {
    let shl = execute(13, 0x8000_0001, 1, 0, 1).unwrap().outcome;
    assert_eq!(shl.value, 2);
    assert_eq!(shl.value_mask & 0x1, 0x1);
    let ror = execute(17, 1, 1, 0, 1).unwrap().outcome;
    assert_eq!(ror.value, 0x8000_0000);
    assert_eq!(ror.steady_link_delta, 0);
}

#[test]
fn web_run_unary32_inc_preserves_cf() {
    let inc = web_run_unary32(20, 0x7fff_ffff).expect("INC run");
    assert_eq!(inc.value, 0x8000_0000);
    assert_eq!(inc.defined_mask, 0x8d4);
    assert_eq!(inc.value_mask, 0x894);
    assert_eq!(inc.preserve_mask & 0x1, 0x1);
    assert_eq!(inc.steady_link_delta, 0);
    assert!(web_run_unary32(23, 0).is_none());
}

#[test]
fn web_lab_neg_sets_cf() {
    let neg = execute(22, 1, 0, 0, 1).unwrap().outcome;
    assert_eq!(neg.value, u32::MAX);
    assert_eq!(neg.value_mask & 0x1, 0x1);
    assert_eq!(neg.value_mask, 0x95);
    assert_eq!(neg.defined_mask, 0x8d5);
    assert_eq!(neg.preserve_mask, 0);
    assert!(execute(24, 1, 2, 0, 1).is_none());
}

#[test]
fn web_lab_mul32_gives_both_product_halves() {
    let mul = execute(23, u32::MAX, 2, 0, 1).unwrap().outcome;
    assert_eq!(mul.value, 0xffff_fffe);
    assert_eq!(mul.value_hi, 1);
    assert_eq!(mul.reactions, 33 + 1038);
    assert_eq!(mul.preserve_mask, 0x8d5);
    assert_eq!(mul.defined_mask, 0);
    assert_eq!(mul.steady_link_delta, 0);
}

#[test]
fn web_run_mul32_by_zero_takes_only_the_stage_steps() {
    let mul = web_run_mul32(0x1234_5678, 0).expect("MUL32 run");
    assert_eq!(mul.lo, 0);
    assert_eq!(mul.hi, 0);
    assert_eq!(mul.reactions, 33);
    assert_eq!(mul.steady_link_delta, 0);
}
