//! Running the multiplexer: bits and words in and out of the structural
//! form, a run of exactly the expected number of reactions, and the lab's
//! MUX1 and MUX32 runs, each made twice to measure the steady state.
use vstd::prelude::*;

use crate::circuit::Fixture;
use crate::mux_circuit::MuxProgram;
use crate::store::OptimizedLinkStore;
use crate::structural::{materialize_exact_sequence, read_exact_sequence, OptimizedStructuralEngine};
use crate::structural_model::{quiescent_spec, read_sequence_spec, single_reactions_spec};
use crate::Handle;

verus! {

/// Setting bit `i` of `value` changes no other bit.
proof fn lemma_set_bit(value: u32, i: u32, j: u32)
    requires
        i < 32,
        j < 32,
    ensures
        ((value | (1u32 << i)) >> j) & 1 == (if j == i { 1u32 } else { (value >> j) & 1 }),
{
    assert(((value | (1u32 << i)) >> j) & 1 == (if j == i { 1u32 } else { (value >> j) & 1 })) by (bit_vector)
        requires
            i < 32,
            j < 32,
    ;
}

/// Every bit of zero is clear.
proof fn lemma_zero_bits(j: u32)
    requires
        j < 32,
    ensures
        (0u32 >> j) & 1 == 0,
{
    assert((0u32 >> j) & 1 == 0) by (bit_vector)
        requires
            j < 32,
    ;
}

/// Bit `j` of `value`, as 0 or 1.
pub open spec fn bit_of(value: u32, j: int) -> u32 {
    (value >> (j as u32)) & 1
}

/// The bit Links of the low `width` bits of `value`, least significant first.
pub fn word_bits(zero: Handle, one: Handle, width: usize, value: u32) -> (v: Vec<Handle>)
    requires
        width <= 32,
    ensures
        v@.len() == width,
        forall|i: int| 0 <= i < width ==> #[trigger] v@[i] == (if bit_of(value, i) == 1 { one } else { zero }),
{
    let mut v: Vec<Handle> = Vec::new();
    let mut i: usize = 0;
    while i < width
        invariant
            i <= width <= 32,
            v@.len() == i,
            forall|k: int| 0 <= k < i ==> #[trigger] v@[k] == (if bit_of(value, k) == 1 { one } else { zero }),
        decreases width - i,
    {
        let bit = (value >> (i as u32)) & 1;
        v.push(
            if bit == 1 {
                one
            } else {
                zero
            },
        );
        i += 1;
    }
    v
}

/// A bit Link as 0 or 1; `None` for any other Link.
pub fn decode_bit(zero: Handle, one: Handle, bit: Handle) -> (r: Option<u8>)
    ensures
        r == (if bit == one {
            Some(1u8)
        } else if bit == zero {
            Some(0u8)
        } else {
            None
        }),
{
    if bit == one {
        Some(1)
    } else if bit == zero {
        Some(0)
    } else {
        None
    }
}

/// The bits of a word are all `zero` or `one`.
pub open spec fn all_bits(bits: Seq<Handle>, zero: Handle, one: Handle) -> bool {
    forall|i: int| 0 <= i < bits.len() ==> #[trigger] bits[i] == zero || bits[i] == one
}

/// The value of a sequence of `width` bit Links, least significant first:
/// `Some(v)` exactly when the sequence reads back with `width` members, each
/// `zero` or `one`, and then bit `j` of `v` is set exactly when member `j`
/// is `one`.
pub fn decode_word(store: &OptimizedLinkStore, zero: Handle, one: Handle, width: usize, word: Handle) -> (r: Option<
    u32,
>)
    requires
        store.wf(),
        width <= 32,
    ensures
        r is Some <==> (read_sequence_spec(store.links(), word) matches Ok(bits) && bits.len() == width
            && all_bits(bits, zero, one)),
        r matches Some(v) ==> read_sequence_spec(store.links(), word) matches Ok(bits) && forall|j: int|
            0 <= j < 32 ==> (#[trigger] bit_of(v, j) == 1 <==> (j < width && bits[j] == one)),
{
    let bits = match read_exact_sequence(store, word) {
        Ok(b) => b,
        Err(_) => return None,
    };
    if bits.len() != width {
        return None;
    }
    let mut value: u32 = 0;
    proof {
        assert forall|j: int| 0 <= j < 32 implies #[trigger] bit_of(value, j) == 0 by {
            lemma_zero_bits(j as u32);
        }
    }
    let mut i: usize = 0;
    while i < width
        invariant
            i <= width <= 32,
            bits@.len() == width,
            read_sequence_spec(store.links(), word) matches Ok(b) && b == bits@,
            forall|k: int| 0 <= k < i ==> #[trigger] bits@[k] == zero || bits@[k] == one,
            forall|j: int| 0 <= j < 32 ==> (#[trigger] bit_of(value, j) == 1 <==> (j < i && bits@[j] == one)),
        decreases width - i,
    {
        if bits[i] == one {
            let ghost old_value = value;
            value = value | (1u32 << (i as u32));
            proof {
                assert forall|j: int| 0 <= j < 32 implies (#[trigger] bit_of(value, j) == 1 <==> (j < i + 1
                    && bits@[j] == one)) by {
                    lemma_set_bit(old_value, i as u32, j as u32);
                    assert(bit_of(old_value, j) == 1 <==> (j < i && bits@[j] == one));
                }
            }
        } else if bits[i] != zero {
            proof {
                assert(!(bits@[i as int] == zero || bits@[i as int] == one));
            }
            return None;
        }
        i += 1;
    }
    proof {
        assert(all_bits(bits@, zero, one));
    }
    Some(value)
}

/// Runs exactly `steps` active reactions, each matching one rule and
/// handing one member over, followed by a quiescent one. `false` as soon as
/// a reaction fails or does otherwise.
pub(crate) fn run_exact_steps(engine: &mut OptimizedStructuralEngine, store: &mut OptimizedLinkStore, steps: usize) -> (ok:
    bool)
    requires
        old(engine).wf(),
        old(store).wf(),
    ensures
        final(engine).wf(),
        final(store).wf(),
        final(store).limit() == old(store).limit(),
        final(engine).interpreter_view() == old(engine).interpreter_view(),
        final(engine).scope_cap() == old(engine).scope_cap(),
        ok ==> final(engine).quiescent_view(),
        ok ==> (single_reactions_spec(
            old(store).links(),
            old(store).limit(),
            old(engine).interpreter_view(),
            old(engine).current_view(),
            old(engine).scope_cap(),
            steps as nat,
        ) matches Some((links, scope)) && quiescent_spec(
            links,
            old(store).limit(),
            old(engine).interpreter_view(),
            scope,
            old(engine).scope_cap(),
        )),
{
    let mut step: usize = 0;
    while step < steps
        invariant
            step <= steps,
            engine.wf(),
            store.wf(),
            store.limit() == old(store).limit(),
            engine.interpreter_view() == old(engine).interpreter_view(),
            engine.scope_cap() == old(engine).scope_cap(),
            single_reactions_spec(
                old(store).links(),
                old(store).limit(),
                old(engine).interpreter_view(),
                old(engine).current_view(),
                old(engine).scope_cap(),
                step as nat,
            ) == Some((store.links(), engine.current_view())),
        decreases steps - step,
    {
        let result = match engine.run(store) {
            Ok(r) => r,
            Err(_) => return false,
        };
        if result.quiescent || result.raw_rule_matches != 1 || result.transitioned_members != 1
            || result.handoff_count != 1 || result.next_members.len() != 1 {
            return false;
        }
        step += 1;
    }
    match engine.run(store) {
        Ok(r) => r.quiescent,
        Err(_) => false,
    }
}

/// A fixture whose store and engine are well-formed, with no capacity bound.
pub open spec fn runnable(f: &Fixture) -> bool {
    &&& f.store.wf()
    &&& f.engine.wf()
    &&& f.store.limit() is None
}

/// One MUX1 call through `function` on the bits `s`, `a`, `b` (each 0 or 1),
/// run for exactly `steps` reactions; the decoded result bit.
fn run_mux1(f: &mut Fixture, program: &MuxProgram, function: Handle, steps: usize, s: u8, a: u8, b: u8) -> (r:
    Option<u8>)
    requires
        runnable(old(f)),
        s <= 1,
        a <= 1,
        b <= 1,
    ensures
        runnable(final(f)),
        final(f).k == old(f).k && final(f).zero == old(f).zero && final(f).one == old(f).one,
        final(f).apply == old(f).apply,
        r matches Some(v) ==> v <= 1,
{
    let bits = [f.zero, f.one];
    let args = match materialize_exact_sequence(&mut f.store, &[bits[s as usize], bits[a as usize], bits[b as usize]]) {
        Ok(h) => h,
        Err(_) => return None,
    };
    if !start_call_runnable(f, function, args) {
        return None;
    }
    if !run_exact_steps(&mut f.engine, &mut f.store, steps) {
        return None;
    }
    let values = match result_payload(f, program.bit_result_tag) {
        Some(v) => v,
        None => return None,
    };
    if values.len() != 1 {
        return None;
    }
    decode_bit(f.zero, f.one, values[0])
}

/// Starts `K -> Call(function, args)` as the whole scope.
pub(crate) fn start_call_runnable(f: &mut Fixture, function: Handle, args: Handle) -> (ok: bool)
    requires
        runnable(old(f)),
    ensures
        runnable(final(f)),
        final(f).k == old(f).k && final(f).zero == old(f).zero && final(f).one == old(f).one,
        final(f).apply == old(f).apply,
{
    let invocation = match f.store.ensure_pair(function, args) {
        Ok(h) => h,
        Err(_) => return false,
    };
    let call = match f.store.ensure_pair(f.apply, invocation) {
        Ok(h) => h,
        Err(_) => return false,
    };
    let initial = match f.store.ensure_pair(f.k, call) {
        Ok(h) => h,
        Err(_) => return false,
    };
    match f.engine.set_current(&f.store, &[initial]) {
        Ok(()) => true,
        Err(_) => false,
    }
}

/// The payload values of the result `K -> PAIR(tag, [values..])` that is
/// the whole current scope.
pub(crate) fn result_payload(f: &Fixture, tag: Handle) -> (r: Option<Vec<Handle>>)
    requires
        runnable(f),
{
    let current = f.engine.current();
    if current.len() != 1 {
        return None;
    }
    let (caller, endpoint) = match f.store.poles(current[0]) {
        Ok(p) => p,
        Err(_) => return None,
    };
    if caller != f.k {
        return None;
    }
    let (result_tag, payload) = match f.store.poles(endpoint) {
        Ok(p) => p,
        Err(_) => return None,
    };
    if result_tag != tag {
        return None;
    }
    match read_exact_sequence(&f.store, payload) {
        Ok(v) => Some(v),
        Err(_) => None,
    }
}

/// One MUX32 call selecting between the words `a` and `b` by the bit `s`;
/// the decoded result word.
fn run_mux32(f: &mut Fixture, program: &MuxProgram, s: u8, a: u32, b: u32) -> (r: Option<u32>)
    requires
        runnable(old(f)),
        s <= 1,
    ensures
        runnable(final(f)),
        final(f).k == old(f).k && final(f).zero == old(f).zero && final(f).one == old(f).one,
        final(f).apply == old(f).apply,
{
    let bits = [f.zero, f.one];
    let a_bits = word_bits(f.zero, f.one, 32, a);
    let b_bits = word_bits(f.zero, f.one, 32, b);
    let aword = match materialize_exact_sequence(&mut f.store, a_bits.as_slice()) {
        Ok(h) => h,
        Err(_) => return None,
    };
    let bword = match materialize_exact_sequence(&mut f.store, b_bits.as_slice()) {
        Ok(h) => h,
        Err(_) => return None,
    };
    let args = match materialize_exact_sequence(&mut f.store, &[bits[s as usize], aword, bword]) {
        Ok(h) => h,
        Err(_) => return None,
    };
    if !start_call_runnable(f, program.mux32, args) {
        return None;
    }
    if !run_exact_steps(&mut f.engine, &mut f.store, program.mux32_steps) {
        return None;
    }
    let values = match result_payload(f, program.word_result_tag) {
        Some(v) => v,
        None => return None,
    };
    if values.len() != 1 {
        return None;
    }
    decode_word(&f.store, f.zero, f.one, 32, values[0])
}

/// A lab run: the result, its reaction count, and the store's size after
/// the build, after the first run and its growth on an identical second run.
#[derive(Clone, Copy, Debug, PartialEq, Eq)]
pub struct WebMuxOutcome {
    pub value: u32,
    pub reactions: u32,
    pub links_after_build: usize,
    pub links_after_first: usize,
    pub steady_link_delta: usize,
    pub quiescent: u8,
}

/// A fresh fixture with the multiplexer installed, ready to run.
fn mux_fixture() -> (r: (Fixture, MuxProgram))
    ensures
        runnable(&r.0),
        r.1.mux1_steps == 7,
        r.1.mux32_steps == 257,
{
    let mut f = Fixture::new();
    let program = MuxProgram::install(&mut f);
    (f, program)
}

/// What a multiplexer selects: `a` for select 0, `b` otherwise.
pub open spec fn mux_select(select: u32, a: u32, b: u32) -> u32 {
    if select == 0 {
        a
    } else {
        b
    }
}

/// MUX32 in a fresh memory, run twice. The result is the word decoded from
/// the memory; it is returned only when it is the word a multiplexer selects
/// and the second, identical run reproduced it without adding a Link.
/// `None` for a select other than 0 or 1, and for any run that fails or
/// breaks one of these promises.
pub fn web_run_mux32(select: u32, a: u32, b: u32) -> (r: Option<WebMuxOutcome>)
    ensures
        select > 1 ==> r is None,
        r matches Some(o) ==> {
            &&& o.value == mux_select(select, a, b)
            &&& o.reactions == 257
            &&& o.quiescent == 1
            &&& o.steady_link_delta == 0
            &&& o.links_after_build <= o.links_after_first
        },
{
    if select > 1 {
        return None;
    }
    let (mut f, program) = mux_fixture();
    let links_after_build = f.store.link_count();
    let first = match run_mux32(&mut f, &program, select as u8, a, b) {
        Some(v) => v,
        None => return None,
    };
    let links_after_first = f.store.link_count();
    let second = match run_mux32(&mut f, &program, select as u8, a, b) {
        Some(v) => v,
        None => return None,
    };
    let selected = if select == 0 {
        a
    } else {
        b
    };
    if first != selected || second != first {
        return None;
    }
    let links_after_second = f.store.link_count();
    if links_after_first < links_after_build || links_after_second != links_after_first {
        return None;
    }
    Some(
        WebMuxOutcome {
            value: first,
            reactions: 257,
            links_after_build,
            links_after_first,
            steady_link_delta: links_after_second - links_after_first,
            quiescent: 1,
        },
    )
}

/// Composed MUX1 in a fresh memory on the bits `select`, `a`, `b`, run
/// twice; returned only when the decoded bit is the selected one and the
/// identical rerun reproduced it without adding a Link. `None` when an
/// input is not a bit, and for any run that fails or breaks a promise.
pub fn web_run_mux1(select: u32, a: u32, b: u32) -> (r: Option<WebMuxOutcome>)
    ensures
        select > 1 || a > 1 || b > 1 ==> r is None,
        r matches Some(o) ==> {
            &&& o.value == mux_select(select, a, b)
            &&& o.steady_link_delta == 0
            &&& o.reactions == 7
            &&& o.quiescent == 1
            &&& o.links_after_build <= o.links_after_first
        },
{
    if select > 1 || a > 1 || b > 1 {
        return None;
    }
    let (mut f, program) = mux_fixture();
    let links_after_build = f.store.link_count();
    let first = match run_mux1(&mut f, &program, program.mux1, 7, select as u8, a as u8, b as u8) {
        Some(v) => v,
        None => return None,
    };
    let links_after_first = f.store.link_count();
    let second = match run_mux1(&mut f, &program, program.mux1, 7, select as u8, a as u8, b as u8) {
        Some(v) => v,
        None => return None,
    };
    let selected = if select == 0 {
        a
    } else {
        b
    };
    if first as u32 != selected || second != first {
        return None;
    }
    let links_after_second = f.store.link_count();
    if links_after_first < links_after_build || links_after_second != links_after_first {
        return None;
    }
    Some(
        WebMuxOutcome {
            value: first as u32,
            reactions: 7,
            links_after_build,
            links_after_first,
            steady_link_delta: links_after_second - links_after_first,
            quiescent: 1,
        },
    )
}

} // verus!
