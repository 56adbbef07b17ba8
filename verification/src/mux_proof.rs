//! A proof record of one MUX1 run. The program is compiled in a preparation
//! store that is then discarded; its Links travel as portable Anum text into
//! one fresh runtime memory, which is run to quiescence and from which the
//! result is decoded. Every stage of the record speaks of that one memory.
use vstd::prelude::*;

use crate::circuit::{call, pair, sequence, Fixture};
use crate::mux_circuit::MuxProgram;
use crate::store::OptimizedLinkStore;
use crate::structural::{read_exact_sequence, OptimizedStructuralEngine};
use crate::Handle;

verus! {

/// What a semantic root of the run stands for.
#[derive(Clone, Copy, Debug, PartialEq, Eq)]
pub enum RootRole {
    FunctionMux1,
    DataSelect,
    DataA,
    DataB,
    DataZero,
    DataOne,
    ExecutionInterpreter,
    ExecutionTheory,
    ExecutionApply,
    InvocationArgs,
    InvocationCall,
    ScopeInitial,
    ContextCaller,
    ResultTag,
}

/// The number of semantic roots.
pub const ROOT_COUNT: usize = 14;

/// A semantic root in the preparation store, as portable text.
#[derive(Clone, Debug)]
pub struct PreparedRoot {
    pub role: RootRole,
    pub source: String,
}

/// A semantic root resolved in the runtime memory.
#[derive(Clone, Debug)]
pub struct LoadedRoot {
    pub role: RootRole,
    pub source: String,
    pub local_handle: Handle,
}

/// The preparation stage: every Link of the compiled program as Anum text.
#[derive(Clone, Debug)]
pub struct PrepareStage {
    pub runtime_memory_exists: bool,
    pub aset_anums: Vec<String>,
    pub semantic_roots: Vec<PreparedRoot>,
}

/// The load stage: the text imported into the runtime memory.
#[derive(Clone, Debug)]
pub struct LoadStage {
    pub links_before_load: usize,
    pub links_after_load: usize,
    pub imported_anums: usize,
    pub portable_round_trip: bool,
    pub semantic_roots: Vec<LoadedRoot>,
}

/// One reaction of the runtime memory, with its scope before and after.
#[derive(Clone, Debug)]
pub struct ReactionStep {
    pub step: u32,
    pub scope_before: Vec<String>,
    pub raw_rule_matches: u32,
    pub transitioned_members: u32,
    pub handoff_count: u32,
    pub scope_after: Vec<String>,
    pub links_after: usize,
    pub quiescent: bool,
}

/// The execute stage.
#[derive(Clone, Debug)]
pub struct ExecuteStage {
    pub reactions: Vec<ReactionStep>,
    pub active_reaction_count: usize,
    pub final_quiescent: bool,
}

/// A Link of the runtime memory, with the roots it stands for.
#[derive(Clone, Debug)]
pub struct VisualLink {
    pub local_handle: Handle,
    pub start_handle: Handle,
    pub end_handle: Handle,
    pub anum: String,
    pub roles: Vec<RootRole>,
}

/// The result stage: the bit decoded in the runtime memory and the bit a
/// multiplexer selects.
#[derive(Clone, Debug)]
pub struct ResultStage {
    pub result_anum: String,
    pub result_sequence_anum: String,
    pub decoded_value: u8,
    pub oracle_value: u8,
    pub oracle_matches: bool,
    pub links_final: usize,
    pub identical_rerun_link_delta: usize,
    pub visual_links: Vec<VisualLink>,
}

/// The whole record; `memory_number` names the one runtime memory.
#[derive(Clone, Debug)]
pub struct Mux1Proof {
    pub schema_version: u32,
    pub memory_number: u32,
    pub prepare: PrepareStage,
    pub load: LoadStage,
    pub execute: ExecuteStage,
    pub result: ResultStage,
}

/// Every Link of the store, `1 ..= link_count`, as Anum text.
fn export_all_anums(store: &OptimizedLinkStore) -> (r: Option<Vec<String>>)
    requires
        store.wf(),
    ensures
        r matches Some(v) ==> v@.len() == store.links().len() - 1,
{
    proof {
        store.lemma_wf_links();
    }
    let count = store.link_count();
    let mut out: Vec<String> = Vec::new();
    let mut i: usize = 0;
    while i < count
        invariant
            count == store.links().len() - 1,
            count < 0x1_0000_0000,
            i <= count,
            out@.len() == i,
        decreases count - i,
    {
        match store.export_anum((i + 1) as u32) {
            Ok(text) => out.push(text),
            Err(_) => return None,
        }
        i += 1;
    }
    Some(out)
}

/// The members of a scope as Anum text.
fn export_scope(store: &OptimizedLinkStore, scope: &[Handle]) -> (r: Option<Vec<String>>)
    ensures
        r matches Some(v) ==> v@.len() == scope@.len(),
{
    let mut out: Vec<String> = Vec::new();
    let mut i: usize = 0;
    while i < scope.len()
        invariant
            i <= scope@.len(),
            out@.len() == i,
        decreases scope@.len() - i,
    {
        match store.export_anum(scope[i]) {
            Ok(text) => out.push(text),
            Err(_) => return None,
        }
        i += 1;
    }
    Some(out)
}

/// The roles of the semantic roots, in record order.
pub open spec fn root_order() -> Seq<RootRole> {
    seq![
        RootRole::FunctionMux1,
        RootRole::DataSelect,
        RootRole::DataA,
        RootRole::DataB,
        RootRole::DataZero,
        RootRole::DataOne,
        RootRole::ExecutionInterpreter,
        RootRole::ExecutionTheory,
        RootRole::ExecutionApply,
        RootRole::InvocationArgs,
        RootRole::InvocationCall,
        RootRole::ScopeInitial,
        RootRole::ContextCaller,
        RootRole::ResultTag,
    ]
}

fn root_roles() -> (r: [RootRole; 14])
    ensures
        r@ == root_order(),
{
    [
        RootRole::FunctionMux1,
        RootRole::DataSelect,
        RootRole::DataA,
        RootRole::DataB,
        RootRole::DataZero,
        RootRole::DataOne,
        RootRole::ExecutionInterpreter,
        RootRole::ExecutionTheory,
        RootRole::ExecutionApply,
        RootRole::InvocationArgs,
        RootRole::InvocationCall,
        RootRole::ScopeInitial,
        RootRole::ContextCaller,
        RootRole::ResultTag,
    ]
}

/// Each root handle of the preparation store with its text.
fn prepare_roots(store: &OptimizedLinkStore, handles: [Handle; 14]) -> (r: Option<Vec<PreparedRoot>>)
    ensures
        r matches Some(v) ==> v@.len() == ROOT_COUNT && forall|i: int| 0 <= i < ROOT_COUNT ==> #[trigger] v@[i].role
            == root_order()[i],
{
    let roles = root_roles();
    let mut out: Vec<PreparedRoot> = Vec::new();
    let mut i: usize = 0;
    while i < ROOT_COUNT
        invariant
            i <= ROOT_COUNT,
            out@.len() == i,
            roles@ == root_order(),
            forall|j: int| 0 <= j < i ==> #[trigger] out@[j].role == root_order()[j],
        decreases ROOT_COUNT - i,
    {
        match store.export_anum(handles[i]) {
            Ok(source) => out.push(PreparedRoot { role: roles[i], source }),
            Err(_) => return None,
        }
        i += 1;
    }
    Some(out)
}

/// Imports every text into the memory.
fn load_all(memory: &mut OptimizedLinkStore, anums: &Vec<String>) -> (ok: bool)
    requires
        old(memory).wf(),
    ensures
        final(memory).wf(),
{
    let mut i: usize = 0;
    while i < anums.len()
        invariant
            i <= anums@.len(),
            memory.wf(),
        decreases anums@.len() - i,
    {
        match memory.import_anum(anums[i].as_str()) {
            Ok(_) => {},
            Err(_) => return false,
        }
        i += 1;
    }
    true
}

/// Resolves each root in the loaded memory. A root whose resolution would
/// allocate a Link is refused (`None`): the load must already hold it. The
/// flag says whether each resolved root exports back to its text.
fn resolve_roots(memory: &mut OptimizedLinkStore, roots: &Vec<PreparedRoot>) -> (r: Option<(Vec<LoadedRoot>, bool)>)
    requires
        old(memory).wf(),
    ensures
        final(memory).wf(),
        r matches Some(p) ==> p.0@.len() == roots@.len() && forall|i: int| 0 <= i < roots@.len() ==> {
            &&& #[trigger] p.0@[i].role == roots@[i].role
            &&& p.0@[i].source@ == roots@[i].source@
        },
{
    let mut loaded: Vec<LoadedRoot> = Vec::new();
    let mut round_trip = true;
    let mut i: usize = 0;
    while i < roots.len()
        invariant
            i <= roots@.len(),
            memory.wf(),
            loaded@.len() == i,
            forall|j: int| 0 <= j < i ==> {
                &&& #[trigger] loaded@[j].role == roots@[j].role
                &&& loaded@[j].source@ == roots@[j].source@
            },
        decreases roots@.len() - i,
    {
        let before = memory.link_count();
        let handle = match memory.import_anum(roots[i].source.as_str()) {
            Ok(h) => h,
            Err(_) => return None,
        };
        if memory.link_count() != before {
            return None;
        }
        match memory.export_anum(handle) {
            Ok(text) => {
                if !(text == roots[i].source) {
                    round_trip = false;
                }
            },
            Err(_) => {
                round_trip = false;
            },
        }
        let source = roots[i].source.clone();
        loaded.push(LoadedRoot { role: roots[i].role, source, local_handle: handle });
        i += 1;
    }
    Some((loaded, round_trip))
}

/// Runs the engine until it is quiescent, at most 64 reactions, recording
/// each. `None` when it fails or is still active after the last one.
fn record_reactions(engine: &mut OptimizedStructuralEngine, memory: &mut OptimizedLinkStore) -> (r: Option<
    Vec<ReactionStep>,
>)
    requires
        old(engine).wf(),
        old(memory).wf(),
    ensures
        final(engine).wf(),
        final(memory).wf(),
        r matches Some(v) ==> {
            &&& 1 <= v@.len() <= 64
            &&& v@[v@.len() - 1].quiescent
            &&& forall|j: int| 0 <= j < v@.len() - 1 ==> !(#[trigger] v@[j]).quiescent
        },
{
    let mut reactions: Vec<ReactionStep> = Vec::new();
    let mut step: u32 = 0;
    while step < 64
        invariant
            step <= 64,
            engine.wf(),
            memory.wf(),
            reactions@.len() == step,
            forall|j: int| 0 <= j < step ==> !(#[trigger] reactions@[j]).quiescent,
        decreases 64 - step,
    {
        let scope_before = match export_scope(memory, engine.current()) {
            Some(v) => v,
            None => return None,
        };
        let reaction = match engine.run(memory) {
            Ok(x) => x,
            Err(_) => return None,
        };
        let scope_after = match export_scope(memory, engine.current()) {
            Some(v) => v,
            None => return None,
        };
        let quiescent = reaction.quiescent;
        reactions.push(
            ReactionStep {
                step,
                scope_before,
                raw_rule_matches: reaction.raw_rule_matches,
                transitioned_members: reaction.transitioned_members,
                handoff_count: reaction.handoff_count,
                scope_after,
                links_after: memory.link_count(),
                quiescent,
            },
        );
        if quiescent {
            return Some(reactions);
        }
        step += 1;
    }
    None
}

/// Every Link of the memory with its poles, its text and the roots that
/// resolved to it.
fn visual_snapshot(memory: &OptimizedLinkStore, roots: &Vec<LoadedRoot>) -> (r: Option<Vec<VisualLink>>)
    requires
        memory.wf(),
    ensures
        r matches Some(v) ==> v@.len() == memory.links().len() - 1 && forall|i: int| 0 <= i < v@.len() ==> {
            &&& (#[trigger] v@[i]).local_handle == i + 1
            &&& memory.links()[i + 1] == Some((v@[i].start_handle, v@[i].end_handle))
        },
{
    proof {
        memory.lemma_wf_links();
    }
    let count = memory.link_count();
    let mut out: Vec<VisualLink> = Vec::new();
    let mut k: usize = 0;
    while k < count
        invariant
            count == memory.links().len() - 1,
            count < 0x1_0000_0000,
            k <= count,
            out@.len() == k,
            forall|i: int| 0 <= i < out@.len() ==> {
                &&& (#[trigger] out@[i]).local_handle == i + 1
                &&& memory.links()[i + 1] == Some((out@[i].start_handle, out@[i].end_handle))
            },
        decreases count - k,
    {
        let h = (k + 1) as u32;
        let (start, end) = match memory.poles(h) {
            Ok(p) => p,
            Err(_) => return None,
        };
        let anum = match memory.export_anum(h) {
            Ok(text) => text,
            Err(_) => return None,
        };
        let mut roles: Vec<RootRole> = Vec::new();
        let mut j: usize = 0;
        while j < roots.len()
            invariant
                j <= roots@.len(),
            decreases roots@.len() - j,
        {
            if roots[j].local_handle == h {
                roles.push(roots[j].role);
            }
            j += 1;
        }
        out.push(VisualLink { local_handle: h, start_handle: start, end_handle: end, anum, roles });
        k += 1;
    }
    Some(out)
}

/// The MUX1 proof record for `select`, `a` and `b` (each 0 or 1) in the
/// runtime memory numbered `memory_number`. A record is returned only when
/// every root survived the portable round trip, the run took the program's
/// seven reactions, the bit decoded from the memory is the bit a
/// multiplexer selects (the oracle), and the identical invocation, run once
/// more, reached the same result without adding a Link. Any other input, and any stage that
/// fails or breaks one of these promises, gives `None`.
#[verifier::rlimit(100)]
pub fn web_prove_mux1(select: u32, a: u32, b: u32, memory_number: u32) -> (r: Option<Mux1Proof>)
    ensures
        select > 1 || a > 1 || b > 1 ==> r is None,
        r matches Some(p) ==> {
            &&& p.result.decoded_value as u32 == (if select == 0 { a } else { b })
            &&& p.result.oracle_matches
            &&& p.result.identical_rerun_link_delta == 0
            &&& p.load.portable_round_trip
            &&& p.execute.active_reaction_count == 7
            &&& p.schema_version == 1
            &&& p.memory_number == memory_number
            &&& !p.prepare.runtime_memory_exists
            &&& p.prepare.semantic_roots@.len() == ROOT_COUNT
            &&& p.load.links_before_load == 1
            &&& p.load.imported_anums == p.prepare.aset_anums@.len()
            &&& p.load.semantic_roots@.len() == ROOT_COUNT
            &&& forall|i: int| 0 <= i < ROOT_COUNT ==> {
                &&& #[trigger] p.load.semantic_roots@[i].role == p.prepare.semantic_roots@[i].role
                &&& p.load.semantic_roots@[i].role == root_order()[i]
                &&& p.load.semantic_roots@[i].source@ == p.prepare.semantic_roots@[i].source@
            }
            &&& 1 <= p.execute.reactions@.len() <= 64
            &&& p.execute.reactions@[p.execute.reactions@.len() - 1].quiescent
            &&& forall|j: int| 0 <= j < p.execute.reactions@.len() - 1 ==> !(#[trigger] p.execute.reactions@[j]).quiescent
            &&& p.execute.active_reaction_count == p.execute.reactions@.len() - 1
            &&& p.execute.final_quiescent
            &&& p.result.decoded_value <= 1
            &&& p.result.oracle_value == (if select == 0 { a } else { b })
            &&& p.result.oracle_matches == (p.result.decoded_value == p.result.oracle_value)
            &&& p.result.visual_links@.len() == p.result.links_final
        },
{
    if select > 1 || a > 1 || b > 1 {
        return None;
    }
    // Preparation: a complete portable Aset, before the runtime memory exists.
    let mut compiler = Fixture::new();
    let program = MuxProgram::install(&mut compiler);
    let bits = [compiler.zero, compiler.one];
    let s_bit = bits[select as usize];
    let a_bit = bits[a as usize];
    let b_bit = bits[b as usize];
    let args = sequence(&mut compiler.store, &[s_bit, a_bit, b_bit]);
    let invocation = call(&mut compiler.store, compiler.apply, program.mux1, args);
    let initial = pair(&mut compiler.store, compiler.k, invocation);
    let handles = [
        program.mux1,
        s_bit,
        a_bit,
        b_bit,
        compiler.zero,
        compiler.one,
        compiler.interpreter,
        compiler.theory,
        compiler.apply,
        args,
        invocation,
        initial,
        compiler.k,
        program.bit_result_tag,
    ];
    let prepared_roots = match prepare_roots(&compiler.store, handles) {
        Some(v) => v,
        None => return None,
    };
    let prepared_anums = match export_all_anums(&compiler.store) {
        Some(v) => v,
        None => return None,
    };

    // Load: exactly one runtime memory; every later stage uses it.
    let mut memory = OptimizedLinkStore::new();
    let links_before_load = memory.link_count();
    if !load_all(&mut memory, &prepared_anums) {
        return None;
    }
    let links_after_load = memory.link_count();
    let (loaded_roots, portable_round_trip) = match resolve_roots(&mut memory, &prepared_roots) {
        Some(p) => p,
        None => return None,
    };
    let interpreter = loaded_roots[6].local_handle;
    let scope_initial = loaded_roots[11].local_handle;
    let caller = loaded_roots[12].local_handle;
    let result_tag = loaded_roots[13].local_handle;
    let zero = loaded_roots[4].local_handle;
    let one = loaded_roots[5].local_handle;

    // Execute against the same runtime memory.
    let mut engine = OptimizedStructuralEngine::new(32);
    match engine.set_interpreter(&memory, interpreter) {
        Ok(()) => {},
        Err(_) => return None,
    }
    match engine.set_current(&memory, &[scope_initial]) {
        Ok(()) => {},
        Err(_) => return None,
    }
    let reactions = match record_reactions(&mut engine, &mut memory) {
        Some(v) => v,
        None => return None,
    };
    let active_reaction_count = reactions.len() - 1;
    if !portable_round_trip || active_reaction_count != program.mux1_steps {
        return None;
    }

    // Result: decoded from the same memory; the multiplexer value is only an oracle.
    let current = engine.current();
    if current.len() != 1 {
        return None;
    }
    let final_link = current[0];
    let (final_caller, endpoint) = match memory.poles(final_link) {
        Ok(p) => p,
        Err(_) => return None,
    };
    if final_caller != caller {
        return None;
    }
    let (tag, payload) = match memory.poles(endpoint) {
        Ok(p) => p,
        Err(_) => return None,
    };
    if tag != result_tag {
        return None;
    }
    let values = match read_exact_sequence(&memory, payload) {
        Ok(v) => v,
        Err(_) => return None,
    };
    if values.len() != 1 {
        return None;
    }
    let decoded_value: u8 = if values[0] == one {
        1
    } else if values[0] == zero {
        0
    } else {
        return None;
    };
    let oracle_value: u8 = if select == 0 {
        a as u8
    } else {
        b as u8
    };
    if decoded_value != oracle_value {
        return None;
    }
    let result_anum = match memory.export_anum(final_link) {
        Ok(t) => t,
        Err(_) => return None,
    };
    let result_sequence_anum = match memory.export_anum(payload) {
        Ok(t) => t,
        Err(_) => return None,
    };
    // The identical invocation, run once more in the same memory, must
    // reach the same result without adding a Link.
    let links_before_rerun = memory.link_count();
    match engine.set_current(&memory, &[scope_initial]) {
        Ok(()) => {},
        Err(_) => return None,
    }
    match record_reactions(&mut engine, &mut memory) {
        Some(_) => {},
        None => return None,
    }
    let rerun = engine.current();
    if rerun.len() != 1 || rerun[0] != final_link || memory.link_count() != links_before_rerun {
        return None;
    }
    let visual_links = match visual_snapshot(&memory, &loaded_roots) {
        Some(v) => v,
        None => return None,
    };
    let links_final = memory.link_count();
    let imported_anums = prepared_anums.len();
    Some(
        Mux1Proof {
            schema_version: 1,
            memory_number,
            prepare: PrepareStage {
                runtime_memory_exists: false,
                aset_anums: prepared_anums,
                semantic_roots: prepared_roots,
            },
            load: LoadStage {
                links_before_load,
                links_after_load,
                imported_anums,
                portable_round_trip,
                semantic_roots: loaded_roots,
            },
            execute: ExecuteStage { reactions, active_reaction_count, final_quiescent: true },
            result: ResultStage {
                result_anum,
                result_sequence_anum,
                decoded_value,
                oracle_value,
                oracle_matches: decoded_value == oracle_value,
                links_final,
                identical_rerun_link_delta: 0,
                visual_links,
            },
        },
    )
}

} // verus!
