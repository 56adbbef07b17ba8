# amemory_optimized_cpu_probe

A verified A-memory link store and structural reaction engine.

A store holds Links, each a record `(start, end)` of two older Links, with
ROOT `(R, R)` at handle 1. Construction is canonical: building the same PAIR,
START self-closed or END self-closed Link twice yields one handle. Links are
written and read as Anum text (`8` ROOT, `9` START form, `6` END form, `1`
PAIR). On top of the store, the structural layer builds ROOT-originating exact
sequences, role dictionaries, rules and interpreters, and a two-bank engine
rewrites a scope of Links by the rules its interpreter's theory admits.

## Layout

- `src/model.rs`: the record model (`Seq<Option<(u32, u32)>>`), well-formedness,
  canonical construction and the Anum grammar as spec functions.
- `src/store.rs`: `OptimizedLinkStore`, its hash indexes and their proofs.
- `src/store_laws.rs`: laws of the store (round trip, replay, transactional
  import, portable identity, canonical construction, exact incidence).
- `src/structural_model.rs`: the structural layer as spec functions, with its
  laws (sequence, dictionary and interpreter round trips, sound matching).
- `src/structural.rs`: exact sequences, rules, unification, instantiation,
  trigger discovery and `OptimizedStructuralEngine`.
- `src/accelerator.rs`: the CPU oracles of the browser accelerator probe.
- `src/circuit.rs`: the circuit fixture (a full adder made of gates, run by
  the engine) and the rule-building helpers every circuit uses.
- `src/ripple_adder.rs`, `src/arith_circuit.rs`, `src/flags_circuit.rs`: the
  4-bit ripple adder, the N-bit adder/subtractor and its 80386 status flags.
- `src/logic_circuit.rs`, `src/effect_circuit.rs`: N-bit word logic and its
  write-back and flag-patch effects.
- `src/subtractor.rs`, `src/ripple_subtractor.rs`: the 1-bit subtractor on
  the shared full adder and the N-bit ripple subtractor built from it.
- `src/wide64_circuit.rs`: 64-bit addition from two 32-bit additions.
- `src/shift1_circuit.rs`, `src/shift_circuit.rs`, `src/rotate_circuit.rs`:
  one-position shifts, the 32-bit SHL/SAL, SHR and SAR program, and ROL/ROR.
- `src/mux_circuit.rs`: MUX1 (direct and composed from gates) and MUX32.
- `src/arith_effect_circuit.rs`, `src/rotate_carry_circuit.rs`,
  `src/unary_circuit.rs`, `src/mul_circuit.rs`: ADD/ADC/SUB/SBB/CMP with
  write-back and flags, RCL/RCR, INC/DEC/NEG, and the shift-and-add MUL32.
- `src/logic_run.rs`, `src/arith_run.rs`, `src/shift_run.rs`,
  `src/rotate_run.rs`, `src/unary_run.rs`, `src/mul_run.rs`, `src/mux_run.rs`:
  running those programs twice in a fresh memory; a run is reported only when
  its decoded result equals the 80386 definition, stated as a spec function,
  and the identical rerun adds no Link.
- `src/lab.rs`: the i386 lab's operation dispatch over those runs.

Every installer's contract says that the store only grows and keeps each
Link it had (`grown`). Where a program's meaning sits in single rules, the
contract states those rules over the store's model: the Boolean tables of
AND2, OR2, XOR2 and NOT1 (`gate_truth_tables`), the two direct MUX1 rows,
the one-position shift rules, and for every masked count the SHL/SHR/SAR,
ROL/ROR and RCL/RCR rules with their shifted or rotated output words. The runners' contracts state what a
reported result is; how many reactions a run took is stated over the
engine's reaction model (`single_reactions_spec`).
- `src/mux_proof.rs`: the MUX1 proof record (prepare, portable load, run and
  decode in one runtime memory).
- `app/`: the C ABI exports of the accelerator probe and of the i386 lab
  (with the MUX1 proof as JSON text), and the storage scale benchmark.
- `tests/`: scenario tests of the store, the engine and every circuit.
