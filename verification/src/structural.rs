//! The structural layer: ROOT-originating exact sequences, role
//! dictionaries, rules, interpreters, template unification and
//! instantiation, and the two-bank structural reaction engine.
use std::collections::{HashMap, HashSet};
use vstd::prelude::*;

use crate::model::{
    extends, is_valid_in, lemma_ensure_end_spec, lemma_ensure_pair_spec, lemma_ensure_start_spec,
    lemma_forms_extend, links_wf, poles_in, Links,
};
use crate::store::{compute_pair_key, pair_key, OptimizedLinkStore, StoreError};
use crate::structural_model::{
    ImageView, add_all_spec, add_next_spec, apply_images_spec, binding_map_spec, bindings_spec,
    define_dictionary_spec, define_interpreter_spec, discover_spec, exact_cells, image_of, images_from,
    instantiate_spec, instantiate_template_spec, lemma_add_all_error_propagates,
    lemma_apply_images_error_propagates, lemma_binding_map_error_propagates, lemma_bindings_error_propagates,
    lemma_instantiate_builds, lemma_instantiate_stable, lemma_materialize_error_propagates,
    lemma_normalize_error_propagates, lemma_push_to_set, lemma_react_members_error_propagates,
    lemma_role_check_propagates, lemma_submap_trans, lemma_unify_settled_extends, lemma_unify_settles,
    materialize_spec, normalize_spec, reaches_role, react_members_spec, reaction_spec, read_dictionary_spec,
    read_interpreter_spec, read_sequence_spec, role_check, structural_pair_spec, unify_settled, unify_spec,
    unify_template_spec,
};
use crate::{Handle, ROOT_HANDLE};

verus! {

broadcast use vstd::std_specs::hash::group_hash_axioms;

#[derive(Clone, Debug, PartialEq, Eq)]
pub enum StructuralError {
    Store(StoreError),
    DuplicateRole,
    InvalidRoleDictionary(Handle),
    InvalidRule(Handle),
    RuleNotAdmitted,
    TemplateMismatch,
    MissingRoleBinding(Handle),
    InvalidExactSequence(Handle),
    UnsupportedCycle(Handle),
    InvalidInterpreter(Handle),
    MissingInterpreter,
    ScopeCapacity { requested: usize, cap: usize },
}

impl From<StoreError> for StructuralError {
    fn from(value: StoreError) -> (e: Self)
        ensures
            e == StructuralError::Store(value),
    {
        Self::Store(value)
    }
}

impl vstd::std_specs::convert::FromSpecImpl<StoreError> for StructuralError {
    open spec fn obeys_from_spec() -> bool {
        true
    }

    open spec fn from_spec(v: StoreError) -> StructuralError {
        StructuralError::Store(v)
    }
}

#[derive(Clone, Copy, Debug, PartialEq, Eq)]
pub struct StructuralRoleBinding {
    pub role: Handle,
    pub value: Handle,
}

#[derive(Clone, Copy, Debug, PartialEq, Eq)]
pub struct StructuralInterpreter {
    pub dictionary: Handle,
    pub grammar: Handle,
    pub theory: Handle,
}

#[derive(Clone, Debug, PartialEq, Eq)]
pub struct StructuralReactionResult {
    pub old_members: Vec<Handle>,
    pub next_members: Vec<Handle>,
    pub raw_rule_matches: u32,
    pub transitioned_members: u32,
    pub quiescent: bool,
    pub handoff_count: u32,
}

/// A rule image discovered for a current member: the output bundle template
/// of the rule and the role bindings of its unification.
#[derive(Clone, Debug)]
pub struct StructuralImage {
    pub output_bundle_template: Handle,
    pub bindings: Vec<StructuralRoleBinding>,
}

pub open spec fn image_view(image: StructuralImage) -> ImageView {
    (image.output_bundle_template, image.bindings@)
}

/// Lifts a store result into the structural layer.
fn lift(r: Result<Handle, StoreError>) -> (out: Result<Handle, StructuralError>)
    ensures
        match r {
            Ok(h) => out == Ok::<Handle, StructuralError>(h),
            Err(e) => out == Err::<Handle, StructuralError>(StructuralError::Store(e)),
        },
{
    match r {
        Ok(h) => Ok(h),
        Err(e) => Err(StructuralError::Store(e)),
    }
}

/// Builds the ROOT-originating exact sequence of `values`: starting from
/// ROOT, each value is appended as `START(PAIR(previous, value))`.
pub fn materialize_exact_sequence(store: &mut OptimizedLinkStore, values: &[Handle]) -> (r: Result<
    Handle,
    StructuralError,
>)
    requires
        old(store).wf(),
    ensures
        final(store).wf(),
        final(store).limit() == old(store).limit(),
        (r, final(store).links()) == materialize_spec(old(store).links(), old(store).limit(), values@),
{
    let mut current = ROOT_HANDLE;
    let mut i: usize = 0;
    proof {
        assert(values@.subrange(0, 0) =~= Seq::<Handle>::empty());
    }
    while i < values.len()
        invariant
            i <= values@.len(),
            store.wf(),
            store.limit() == old(store).limit(),
            (Ok::<Handle, StructuralError>(current), store.links()) == materialize_spec(
                old(store).links(),
                old(store).limit(),
                values@.subrange(0, i as int),
            ),
        decreases values@.len() - i,
    {
        let value = values[i];
        proof {
            assert(values@.subrange(0, i + 1).drop_last() =~= values@.subrange(0, i as int));
            assert(values@.subrange(0, i + 1).last() == value);
        }
        if !store.is_valid(value) {
            proof {
                lemma_materialize_error_propagates(old(store).links(), old(store).limit(), values@, i + 1);
            }
            return Err(StructuralError::Store(StoreError::UnknownHandle(value)));
        }
        let payload = match lift(store.ensure_pair(current, value)) {
            Ok(p) => p,
            Err(e) => {
                proof {
                    lemma_materialize_error_propagates(old(store).links(), old(store).limit(), values@, i + 1);
                }
                return Err(e);
            },
        };
        current = match lift(store.ensure_start_self_closed(payload)) {
            Ok(c) => c,
            Err(e) => {
                proof {
                    lemma_materialize_error_propagates(old(store).links(), old(store).limit(), values@, i + 1);
                }
                return Err(e);
            },
        };
        i += 1;
    }
    proof {
        assert(values@.subrange(0, i as int) =~= values@);
    }
    Ok(current)
}

/// Reads the values of the exact sequence whose final cell is `final_link`.
pub fn read_exact_sequence(store: &OptimizedLinkStore, final_link: Handle) -> (r: Result<
    Vec<Handle>,
    StructuralError,
>)
    requires
        store.wf(),
    ensures
        match read_sequence_spec(store.links(), final_link) {
            Ok(values) => r matches Ok(v) && v@ == values,
            Err(e) => r == Err::<Vec<Handle>, StructuralError>(e),
        },
{
    if final_link == ROOT_HANDLE {
        return Ok(Vec::new());
    }
    if !store.is_valid(final_link) {
        return Err(StructuralError::Store(StoreError::UnknownHandle(final_link)));
    }
    let ghost links = store.links();
    proof {
        store.lemma_wf_links();
    }

    let mut reversed: Vec<Handle> = Vec::new();
    let mut visited: HashSet<Handle> = HashSet::new();
    let mut current = final_link;

    while current != ROOT_HANDLE
        invariant
            links == store.links(),
            links_wf(links),
            final_link != 1,
            is_valid_in(links, final_link),
            is_valid_in(links, current),
            forall|v: Handle| visited@.contains(v) ==> v > current,
            match exact_cells(links, current) {
                Some(prefix) => exact_cells(links, final_link) == Some(
                    prefix + reversed@.reverse(),
                ),
                None => exact_cells(links, final_link) is None,
            },
        decreases current,
    {
        if !visited.insert(current) {
            return Err(StructuralError::InvalidExactSequence(final_link));
        }

        let (cell_start, cell_end) = match store.poles(current) {
            Ok(p) => p,
            Err(e) => return Err(StructuralError::Store(e)),
        };
        if cell_start != current {
            proof {
                assert(exact_cells(links, current) is None);
            }
            return Err(StructuralError::InvalidExactSequence(final_link));
        }
        proof {
            crate::model::lemma_poles_valid(links, current);
        }

        let (previous, value) = match store.poles(cell_end) {
            Ok(p) => p,
            Err(e) => return Err(StructuralError::Store(e)),
        };
        proof {
            crate::model::lemma_poles_valid(links, cell_end);
            if current >= 2 {
                assert(crate::model::record_well_founded(links, current as int));
            }
            if cell_end >= 2 {
                assert(crate::model::record_well_founded(links, cell_end as int));
            }
            let ghost old_reversed = reversed@;
            assert(old_reversed.push(value).reverse() =~= seq![value] + old_reversed.reverse());
        }
        reversed.push(value);
        current = previous;
    }

    let mut values: Vec<Handle> = Vec::new();
    let mut k = reversed.len();
    while k > 0
        invariant
            k <= reversed@.len(),
            values@ == reversed@.subrange(k as int, reversed@.len() as int).reverse(),
        decreases k,
    {
        k -= 1;
        values.push(reversed[k]);
        proof {
            assert(reversed@.subrange(k as int, reversed@.len() as int).reverse() =~= reversed@.subrange(
                k + 1,
                reversed@.len() as int,
            ).reverse().push(reversed@[k as int]));
        }
    }
    proof {
        assert(reversed@.subrange(0, reversed@.len() as int) =~= reversed@);
        assert(Seq::<Handle>::empty() + reversed@.reverse() =~= reversed@.reverse());
    }
    Ok(values)
}

/// Defines a role dictionary: the START self-closed Link over the exact
/// sequence of `roles`, which must be known and pairwise distinct.
pub fn define_structural_role_dictionary(store: &mut OptimizedLinkStore, roles: &[Handle]) -> (r:
    Result<Handle, StructuralError>)
    requires
        old(store).wf(),
    ensures
        final(store).wf(),
        final(store).limit() == old(store).limit(),
        (r, final(store).links()) == define_dictionary_spec(
            old(store).links(),
            old(store).limit(),
            roles@,
        ),
{
    let ghost links = store.links();
    let mut unique: HashSet<Handle> = HashSet::new();
    let mut i: usize = 0;
    while i < roles.len()
        invariant
            i <= roles@.len(),
            links == store.links(),
            role_check(links, roles@.subrange(0, i as int)) is None,
            unique@ == roles@.subrange(0, i as int).to_set(),
            store.wf(),
        decreases roles@.len() - i,
    {
        let role = roles[i];
        proof {
            assert(roles@.subrange(0, i + 1).drop_last() =~= roles@.subrange(0, i as int));
            assert(roles@.subrange(0, i + 1).last() == role);
        }
        if !store.is_valid(role) {
            proof {
                lemma_role_check_propagates(links, roles@, i + 1);
            }
            return Err(StructuralError::Store(StoreError::UnknownHandle(role)));
        }
        if !unique.insert(role) {
            proof {
                assert(roles@.subrange(0, i as int).to_set().contains(role));
                assert(roles@.subrange(0, i as int).contains(role));
                lemma_role_check_propagates(links, roles@, i + 1);
            }
            return Err(StructuralError::DuplicateRole);
        }
        proof {
            assert(!roles@.subrange(0, i as int).contains(role));
            assert(roles@.subrange(0, i + 1) =~= roles@.subrange(0, i as int).push(role));
            lemma_push_to_set(roles@.subrange(0, i as int), role);
        }
        i += 1;
    }
    proof {
        assert(roles@.subrange(0, i as int) =~= roles@);
    }

    let sequence = materialize_exact_sequence(store, roles)?;
    lift(store.ensure_start_self_closed(sequence))
}

/// Reads a role dictionary back into its ordered, pairwise distinct roles.
pub fn read_structural_role_dictionary(store: &OptimizedLinkStore, dictionary: Handle) -> (r: Result<
    Vec<Handle>,
    StructuralError,
>)
    requires
        store.wf(),
    ensures
        match read_dictionary_spec(store.links(), dictionary) {
            Ok(roles) => r matches Ok(v) && v@ == roles,
            Err(e) => r == Err::<Vec<Handle>, StructuralError>(e),
        },
{
    proof {
        store.lemma_wf_links();
    }
    let (start, end) = match store.poles(dictionary) {
        Ok(p) => p,
        Err(e) => return Err(StructuralError::Store(e)),
    };
    if start != dictionary || end == dictionary {
        return Err(StructuralError::InvalidRoleDictionary(dictionary));
    }

    let roles = read_exact_sequence(store, end)?;
    let mut unique: HashSet<Handle> = HashSet::new();
    let mut i: usize = 0;
    while i < roles.len()
        invariant
            i <= roles@.len(),
            roles@.subrange(0, i as int).no_duplicates(),
            unique@ == roles@.subrange(0, i as int).to_set(),
            read_dictionary_spec(store.links(), dictionary) == if roles@.no_duplicates() {
                Ok::<Seq<u32>, StructuralError>(roles@)
            } else {
                Err(StructuralError::DuplicateRole)
            },
        decreases roles@.len() - i,
    {
        let role = roles[i];
        if !unique.insert(role) {
            proof {
                assert(roles@.subrange(0, i as int).to_set().contains(role));
                let k = choose|k: int| 0 <= k < i && #[trigger] roles@.subrange(0, i as int)[k] == role;
                assert(roles@[k] == roles@[i as int]);
                assert(!roles@.no_duplicates());
            }
            return Err(StructuralError::DuplicateRole);
        }
        proof {
            assert(roles@.subrange(0, i + 1) =~= roles@.subrange(0, i as int).push(role));
            lemma_push_to_set(roles@.subrange(0, i as int), role);
            let prefix = roles@.subrange(0, i as int);
            let grown = roles@.subrange(0, i + 1);
            assert(grown =~= prefix.push(role));
            assert(!prefix.contains(role));
            assert forall|a: int, b: int|
                0 <= a < grown.len() && 0 <= b < grown.len() && a != b implies #[trigger] grown[a]
                != #[trigger] grown[b] by {
                if a == i {
                    assert(prefix[b] == grown[b]);
                } else if b == i {
                    assert(prefix[a] == grown[a]);
                }
            }
        }
        i += 1;
    }
    proof {
        assert(roles@.subrange(0, i as int) =~= roles@);
    }
    Ok(roles)
}

/// Defines a rule `PAIR(role_dictionary, body)`.
pub fn define_structural_rule(store: &mut OptimizedLinkStore, role_dictionary: Handle, body: Handle) -> (r:
    Result<Handle, StructuralError>)
    requires
        old(store).wf(),
    ensures
        final(store).wf(),
        final(store).limit() == old(store).limit(),
        (r, final(store).links()) == structural_pair_spec(
            old(store).links(),
            old(store).limit(),
            role_dictionary,
            body,
        ),
{
    lift(store.ensure_pair(role_dictionary, body))
}

/// Admits a rule into a theory: `PAIR(theory, rule)`.
pub fn admit_structural_rule(store: &mut OptimizedLinkStore, theory: Handle, rule: Handle) -> (r: Result<
    Handle,
    StructuralError,
>)
    requires
        old(store).wf(),
    ensures
        final(store).wf(),
        final(store).limit() == old(store).limit(),
        (r, final(store).links()) == structural_pair_spec(
            old(store).links(),
            old(store).limit(),
            theory,
            rule,
        ),
{
    lift(store.ensure_pair(theory, rule))
}

/// Indexes an admission under a trigger key: `PAIR(trigger_key, admission)`.
pub fn index_structural_rule_trigger(
    store: &mut OptimizedLinkStore,
    trigger_key: Handle,
    admission: Handle,
) -> (r: Result<Handle, StructuralError>)
    requires
        old(store).wf(),
    ensures
        final(store).wf(),
        final(store).limit() == old(store).limit(),
        (r, final(store).links()) == structural_pair_spec(
            old(store).links(),
            old(store).limit(),
            trigger_key,
            admission,
        ),
{
    lift(store.ensure_pair(trigger_key, admission))
}

/// Defines an interpreter `PAIR(dictionary, PAIR(grammar, theory))`.
pub fn define_structural_interpreter(
    store: &mut OptimizedLinkStore,
    dictionary: Handle,
    grammar: Handle,
    theory: Handle,
) -> (r: Result<Handle, StructuralError>)
    requires
        old(store).wf(),
    ensures
        final(store).wf(),
        final(store).limit() == old(store).limit(),
        (r, final(store).links()) == define_interpreter_spec(
            old(store).links(),
            old(store).limit(),
            dictionary,
            grammar,
            theory,
        ),
{
    let grammar_theory = lift(store.ensure_pair(grammar, theory))?;
    lift(store.ensure_pair(dictionary, grammar_theory))
}

/// Reads an interpreter's dictionary, grammar and theory back.
pub fn read_structural_interpreter(store: &OptimizedLinkStore, interpreter: Handle) -> (r: Result<
    StructuralInterpreter,
    StructuralError,
>)
    requires
        store.wf(),
    ensures
        r == read_interpreter_spec(store.links(), interpreter),
{
    proof {
        store.lemma_wf_links();
    }
    let (dictionary, grammar_theory) = match store.poles(interpreter) {
        Ok(p) => p,
        Err(_) => return Err(StructuralError::InvalidInterpreter(interpreter)),
    };
    let (grammar, theory) = match store.poles(grammar_theory) {
        Ok(p) => p,
        Err(_) => return Err(StructuralError::InvalidInterpreter(interpreter)),
    };

    Ok(StructuralInterpreter { dictionary, grammar, theory })
}

/// Every memoized answer is for a known Link and is whether it reaches a role.
spec fn memo_sound(links: Links, roles: Set<Handle>, memo: Map<Handle, bool>) -> bool {
    forall|x: Handle| #[trigger]
        memo.contains_key(x) ==> is_valid_in(links, x) && memo[x] == reaches_role(links, roles, x)
}

/// Every visited template/claim pair whose template is below `bound` is settled.
spec fn visited_settled(
    links: Links,
    roles: Set<Handle>,
    visited: Set<u64>,
    inferred: Map<Handle, Handle>,
    bound: Handle,
) -> bool {
    forall|a: Handle, b: Handle| #[trigger]
        visited.contains(pair_key(a, b)) && a < bound ==> unify_settled(links, roles, a, b, inferred)
}

fn contains_role(
    store: &OptimizedLinkStore,
    node: Handle,
    roles: &HashSet<Handle>,
    memo: &mut HashMap<Handle, bool>,
    active: &mut HashSet<Handle>,
) -> (r: Result<bool, StructuralError>)
    requires
        store.wf(),
        memo_sound(store.links(), roles@, old(memo)@),
        forall|a: Handle| old(active)@.contains(a) ==> a >= node,
    ensures
        memo_sound(store.links(), roles@, final(memo)@),
        final(active)@ == old(active)@,
        roles@.contains(node) ==> r == Ok::<bool, StructuralError>(true),
        !roles@.contains(node) && old(memo)@.contains_key(node) ==> r == Ok::<bool, StructuralError>(
            reaches_role(store.links(), roles@, node),
        ),
        !roles@.contains(node) && !old(memo)@.contains_key(node) && old(active)@.contains(node)
            ==> r == Ok::<bool, StructuralError>(false),
        !roles@.contains(node) && !old(memo)@.contains_key(node) && !old(active)@.contains(node)
            && !is_valid_in(store.links(), node) ==> r == Err::<bool, StructuralError>(
            StructuralError::Store(StoreError::UnknownHandle(node)),
        ),
        !roles@.contains(node) && !old(memo)@.contains_key(node) && !old(active)@.contains(node)
            && is_valid_in(store.links(), node) ==> r == Ok::<bool, StructuralError>(
            reaches_role(store.links(), roles@, node),
        ),
    decreases node, if old(active)@.contains(node) {
        0int
    } else {
        1int
    },
{
    let ghost links = store.links();
    proof {
        store.lemma_wf_links();
    }
    if roles.contains(&node) {
        return Ok(true);
    }
    if let Some(value) = memo.get(&node) {
        return Ok(*value);
    }
    let ghost entry_active = active@;
    if !active.insert(node) {
        return Ok(false);
    }

    let result: Result<bool, StructuralError> = match store.poles(node) {
        Err(e) => Err(StructuralError::Store(e)),
        Ok((start, end)) => {
            proof {
                crate::model::lemma_poles_valid(links, node);
            }
            match contains_role(store, start, roles, memo, active) {
                Err(e) => Err(e),
                Ok(true) => Ok(true),
                Ok(false) => contains_role(store, end, roles, memo, active),
            }
        },
    };

    proof {
        if result is Ok {
            let (s, e) = poles_in(links, node);
            assert(reaches_role(links, roles@, node) == ((s < node && reaches_role(links, roles@, s)) || (
            e < node && reaches_role(links, roles@, e))));
        }
    }
    active.remove(&node);
    proof {
        assert(active@ =~= entry_active);
    }
    let result = result?;
    memo.insert(node, result);
    Ok(result)
}

fn unify_node(
    store: &OptimizedLinkStore,
    template: Handle,
    claimed: Handle,
    roles: &HashSet<Handle>,
    inferred: &mut HashMap<Handle, Handle>,
    contains_memo: &mut HashMap<Handle, bool>,
    contains_active: &mut HashSet<Handle>,
    visited: &mut HashSet<u64>,
) -> (r: Result<(), StructuralError>)
    requires
        store.wf(),
        memo_sound(store.links(), roles@, old(contains_memo)@),
        old(contains_active)@ == Set::<Handle>::empty(),
        visited_settled(store.links(), roles@, old(visited)@, old(inferred)@, template),
    ensures
        memo_sound(store.links(), roles@, final(contains_memo)@),
        final(contains_active)@ == Set::<Handle>::empty(),
        roles@.contains(template) || !is_valid_in(store.links(), template) || !reaches_role(
            store.links(),
            roles@,
            template,
        ) || !old(visited)@.contains(pair_key(template, claimed)) ==> match unify_spec(
            store.links(),
            roles@,
            template,
            claimed,
            old(inferred)@,
        ) {
            Ok(m) => r is Ok && final(inferred)@ == m,
            Err(e) => r == Err::<(), StructuralError>(e),
        },
        !roles@.contains(template) && is_valid_in(store.links(), template) && reaches_role(
            store.links(),
            roles@,
            template,
        ) && old(visited)@.contains(pair_key(template, claimed)) ==> r is Ok && final(inferred)@
            == old(inferred)@,
        r is Ok ==> old(visited)@.subset_of(final(visited)@),
        r is Ok ==> old(inferred)@.submap_of(final(inferred)@),
        r is Ok ==> forall|a: Handle, b: Handle| #[trigger]
            final(visited)@.contains(pair_key(a, b)) && !old(visited)@.contains(pair_key(a, b))
                ==> unify_settled(store.links(), roles@, a, b, final(inferred)@),
    decreases template, if old(visited)@.contains(pair_key(template, claimed)) {
        0int
    } else {
        1int
    },
{
    let ghost links = store.links();
    proof {
        store.lemma_wf_links();
    }
    if roles.contains(&template) {
        match inferred.get(&template) {
            Some(previous) => {
                if *previous != claimed {
                    return Err(StructuralError::TemplateMismatch);
                }
            },
            None => {
                inferred.insert(template, claimed);
                proof {
                    assert(old(inferred)@.submap_of(inferred@));
                }
            },
        }
        return Ok(());
    }

    let has_role = contains_role(store, template, roles, contains_memo, contains_active)?;
    if !has_role {
        if template != claimed {
            return Err(StructuralError::TemplateMismatch);
        }
        return Ok(());
    }

    let key = compute_pair_key(template, claimed);
    if !visited.insert(key) {
        return Ok(());
    }
    let ghost entry_visited = old(visited)@;
    let ghost entry_inferred = old(inferred)@;

    let (template_start, template_end) = match store.poles(template) {
        Ok(p) => p,
        Err(e) => return Err(StructuralError::Store(e)),
    };
    let (claimed_start, claimed_end) = match store.poles(claimed) {
        Ok(p) => p,
        Err(e) => return Err(StructuralError::Store(e)),
    };
    proof {
        crate::model::lemma_poles_valid(links, template);
    }

    if (template_start == template) != (claimed_start == claimed) || (template_end == template) != (
    claimed_end == claimed) {
        return Err(StructuralError::TemplateMismatch);
    }

    proof {
        assert forall|a: Handle, b: Handle| #[trigger]
            visited@.contains(pair_key(a, b)) && a < template_start implies unify_settled(
            links,
            roles@,
            a,
            b,
            inferred@,
        ) by {
            if pair_key(a, b) == key {
                crate::store::lemma_pair_key_injective(a, b, template, claimed);
            }
        }
    }
    let ghost before_first_visited = visited@;
    let ghost before_first_inferred = inferred@;
    unify_node(
        store,
        template_start,
        claimed_start,
        roles,
        inferred,
        contains_memo,
        contains_active,
        visited,
    )?;
    let ghost mid_inferred = inferred@;
    let ghost mid_visited = visited@;
    proof {
        if template_start < template && entry_visited.contains(pair_key(template_start, claimed_start)) {
            assert(unify_settled(links, roles@, template_start, claimed_start, entry_inferred));
        }
        assert forall|a: Handle, b: Handle| #[trigger]
            visited@.contains(pair_key(a, b)) && a < template implies unify_settled(
            links,
            roles@,
            a,
            b,
            inferred@,
        ) by {
            if before_first_visited.contains(pair_key(a, b)) {
                if pair_key(a, b) == key {
                    crate::store::lemma_pair_key_injective(a, b, template, claimed);
                }
                assert(entry_visited.contains(pair_key(a, b)));
                lemma_unify_settled_extends(links, roles@, a, b, entry_inferred, inferred@);
            }
        }
    }
    let second = unify_node(
        store,
        template_end,
        claimed_end,
        roles,
        inferred,
        contains_memo,
        contains_active,
        visited,
    );
    proof {
        if template_end < template && entry_visited.contains(pair_key(template_end, claimed_end)) {
            assert(mid_visited.contains(pair_key(template_end, claimed_end)));
        }
        if second is Ok {
            let out = inferred@;
            lemma_submap_trans(entry_inferred, mid_inferred, out);
            lemma_unify_settles(links, roles@, template, claimed, entry_inferred);
            assert forall|a: Handle, b: Handle| #[trigger]
                visited@.contains(pair_key(a, b)) && !entry_visited.contains(pair_key(a, b))
                    implies unify_settled(links, roles@, a, b, out) by {
                if pair_key(a, b) == key {
                    crate::store::lemma_pair_key_injective(a, b, template, claimed);
                } else if !mid_visited.contains(pair_key(a, b)) {
                } else {
                    lemma_unify_settled_extends(links, roles@, a, b, mid_inferred, out);
                }
            }
        }
    }
    second
}

/// Unifies a rule template with a claimed Link and reports the value bound
/// to each role, in role order.
pub fn unify_structural_rule_template(
    store: &OptimizedLinkStore,
    template: Handle,
    claimed: Handle,
    roles: &[Handle],
) -> (r: Result<Vec<StructuralRoleBinding>, StructuralError>)
    requires
        store.wf(),
    ensures
        match unify_template_spec(store.links(), template, claimed, roles@) {
            Ok(bindings) => r matches Ok(v) && v@ == bindings,
            Err(e) => r == Err::<Vec<StructuralRoleBinding>, StructuralError>(e),
        },
{
    let mut role_set: HashSet<Handle> = HashSet::new();
    let mut i: usize = 0;
    while i < roles.len()
        invariant
            i <= roles@.len(),
            roles@.subrange(0, i as int).no_duplicates(),
            role_set@ == roles@.subrange(0, i as int).to_set(),
        decreases roles@.len() - i,
    {
        let role = roles[i];
        if !role_set.insert(role) {
            proof {
                assert(roles@.subrange(0, i as int).to_set().contains(role));
                let k = choose|k: int| 0 <= k < i && #[trigger] roles@.subrange(0, i as int)[k] == role;
                assert(roles@[k] == roles@[i as int]);
                assert(!roles@.no_duplicates());
            }
            return Err(StructuralError::DuplicateRole);
        }
        proof {
            assert(roles@.subrange(0, i + 1) =~= roles@.subrange(0, i as int).push(role));
            lemma_push_to_set(roles@.subrange(0, i as int), role);
            let prefix = roles@.subrange(0, i as int);
            let grown = roles@.subrange(0, i + 1);
            assert(!prefix.contains(role));
            assert forall|a: int, b: int|
                0 <= a < grown.len() && 0 <= b < grown.len() && a != b implies #[trigger] grown[a]
                != #[trigger] grown[b] by {
                if a == i {
                    assert(prefix[b] == grown[b]);
                } else if b == i {
                    assert(prefix[a] == grown[a]);
                }
            }
        }
        i += 1;
    }
    proof {
        assert(roles@.subrange(0, i as int) =~= roles@);
    }

    let mut inferred: HashMap<Handle, Handle> = HashMap::new();
    let mut contains_memo: HashMap<Handle, bool> = HashMap::new();
    let mut contains_active: HashSet<Handle> = HashSet::new();
    let mut visited: HashSet<u64> = HashSet::new();
    proof {
        assert(inferred@ == Map::<Handle, Handle>::empty());
    }

    unify_node(
        store,
        template,
        claimed,
        &role_set,
        &mut inferred,
        &mut contains_memo,
        &mut contains_active,
        &mut visited,
    )?;

    let mut bindings: Vec<StructuralRoleBinding> = Vec::new();
    let mut j: usize = 0;
    proof {
        assert(roles@.subrange(0, 0) =~= Seq::<Handle>::empty());
    }
    while j < roles.len()
        invariant
            j <= roles@.len(),
            unify_template_spec(store.links(), template, claimed, roles@) == bindings_spec(
                roles@,
                inferred@,
            ),
            bindings_spec(roles@.subrange(0, j as int), inferred@) == Ok::<
                Seq<StructuralRoleBinding>,
                StructuralError,
            >(bindings@),
        decreases roles@.len() - j,
    {
        let role = roles[j];
        proof {
            assert(roles@.subrange(0, j + 1).drop_last() =~= roles@.subrange(0, j as int));
            assert(roles@.subrange(0, j + 1).last() == role);
        }
        match inferred.get(&role) {
            Some(value) => {
                bindings.push(StructuralRoleBinding { role, value: *value });
            },
            None => {
                proof {
                    lemma_bindings_error_propagates(roles@, inferred@, j + 1);
                }
                return Err(StructuralError::MissingRoleBinding(role));
            },
        }
        j += 1;
    }
    proof {
        assert(roles@.subrange(0, j as int) =~= roles@);
    }
    Ok(bindings)
}

/// Every memoized instantiation is what instantiating that position gives,
/// without further change, in the store `links`.
spec fn instance_memo_sound(
    links: Links,
    limit: Option<usize>,
    bindings: Map<Handle, Handle>,
    memo: Map<Handle, Handle>,
) -> bool {
    forall|x: Handle| #[trigger]
        memo.contains_key(x) ==> instantiate_spec(links, limit, bindings, x) == (
            Ok::<Handle, StructuralError>(memo[x]),
            links,
        )
}

proof fn lemma_instance_memo_extends(
    links: Links,
    limit: Option<usize>,
    bindings: Map<Handle, Handle>,
    memo: Map<Handle, Handle>,
    later: Links,
)
    requires
        links_wf(links),
        links_wf(later),
        extends(links, later),
        instance_memo_sound(links, limit, bindings, memo),
    ensures
        instance_memo_sound(later, limit, bindings, memo),
{
    assert forall|x: Handle| #[trigger] memo.contains_key(x) implies instantiate_spec(
        later,
        limit,
        bindings,
        x,
    ) == (Ok::<Handle, StructuralError>(memo[x]), later) by {
        lemma_instantiate_stable(links, limit, bindings, x, later, limit);
    }
}

fn instantiate_node(
    store: &mut OptimizedLinkStore,
    source: Handle,
    bindings: &HashMap<Handle, Handle>,
    visiting: &mut HashSet<Handle>,
    memo: &mut HashMap<Handle, Handle>,
) -> (r: Result<Handle, StructuralError>)
    requires
        old(store).wf(),
        forall|v: Handle| old(visiting)@.contains(v) ==> v > source,
        instance_memo_sound(old(store).links(), old(store).limit(), bindings@, old(memo)@),
    ensures
        final(store).wf(),
        final(store).limit() == old(store).limit(),
        (r, final(store).links()) == instantiate_spec(
            old(store).links(),
            old(store).limit(),
            bindings@,
            source,
        ),
        instance_memo_sound(final(store).links(), final(store).limit(), bindings@, final(memo)@),
        r is Ok ==> final(visiting)@ == old(visiting)@,
    decreases source,
{
    let ghost links = store.links();
    let ghost limit = store.limit();
    proof {
        store.lemma_wf_links();
    }
    if let Some(bound) = bindings.get(&source) {
        return Ok(*bound);
    }
    if let Some(value) = memo.get(&source) {
        return Ok(*value);
    }

    let (start, end) = match store.poles(source) {
        Ok(p) => p,
        Err(e) => return Err(StructuralError::Store(e)),
    };
    proof {
        crate::model::lemma_poles_valid(links, source);
        if source >= 2 {
            assert(crate::model::record_well_founded(links, source as int));
        }
    }

    let value = if start == source && end == source {
        ROOT_HANDLE
    } else if start == source {
        let child = instantiate_node(store, end, bindings, visiting, memo)?;
        let ghost mid = store.links();
        proof {
            lemma_instantiate_builds(links, limit, bindings@, end);
        }
        let made = lift(store.ensure_start_self_closed(child))?;
        proof {
            store.lemma_wf_links();
            lemma_ensure_start_spec(mid, limit, child);
            lemma_instance_memo_extends(mid, limit, bindings@, memo@, store.links());
        }
        made
    } else if end == source {
        let child = instantiate_node(store, start, bindings, visiting, memo)?;
        let ghost mid = store.links();
        proof {
            lemma_instantiate_builds(links, limit, bindings@, start);
        }
        let made = lift(store.ensure_end_self_closed(child))?;
        proof {
            store.lemma_wf_links();
            lemma_ensure_end_spec(mid, limit, child);
            lemma_instance_memo_extends(mid, limit, bindings@, memo@, store.links());
        }
        made
    } else {
        let ghost entry_visiting = visiting@;
        if !visiting.insert(source) {
            return Err(StructuralError::UnsupportedCycle(source));
        }
        let new_start = instantiate_node(store, start, bindings, visiting, memo)?;
        let ghost l1 = store.links();
        proof {
            lemma_instantiate_builds(links, limit, bindings@, start);
            lemma_forms_extend(links, l1, end);
        }
        let new_end = instantiate_node(store, end, bindings, visiting, memo)?;
        let ghost l2 = store.links();
        proof {
            lemma_instantiate_builds(l1, limit, bindings@, end);
        }
        visiting.remove(&source);
        proof {
            assert(visiting@ =~= entry_visiting);
        }
        let made = lift(store.ensure_pair(new_start, new_end))?;
        proof {
            store.lemma_wf_links();
            lemma_ensure_pair_spec(l2, limit, new_start, new_end);
            lemma_instance_memo_extends(l2, limit, bindings@, memo@, store.links());
        }
        made
    };

    proof {
        lemma_instantiate_builds(links, limit, bindings@, source);
        assert((Ok::<Handle, StructuralError>(value), store.links()) == instantiate_spec(
            links,
            limit,
            bindings@,
            source,
        ));
        assert(store.links().subrange(0, store.links().len() as int) =~= store.links());
        lemma_instantiate_stable(links, limit, bindings@, source, store.links(), limit);
    }
    memo.insert(source, value);
    Ok(value)
}

/// Instantiates `template` with each role replaced by its bound value; a
/// role bound twice must be bound to the same value.
pub fn instantiate_structural_template(
    store: &mut OptimizedLinkStore,
    template: Handle,
    bindings: &[StructuralRoleBinding],
) -> (r: Result<Handle, StructuralError>)
    requires
        old(store).wf(),
    ensures
        final(store).wf(),
        final(store).limit() == old(store).limit(),
        (r, final(store).links()) == instantiate_template_spec(
            old(store).links(),
            old(store).limit(),
            template,
            bindings@,
        ),
{
    let mut mapping: HashMap<Handle, Handle> = HashMap::new();
    let mut i: usize = 0;
    proof {
        assert(bindings@.subrange(0, 0) =~= Seq::<StructuralRoleBinding>::empty());
    }
    while i < bindings.len()
        invariant
            i <= bindings@.len(),
            binding_map_spec(bindings@.subrange(0, i as int)) == Ok::<
                Map<Handle, Handle>,
                StructuralError,
            >(mapping@),
            store.wf(),
            store.links() == old(store).links(),
            store.limit() == old(store).limit(),
        decreases bindings@.len() - i,
    {
        let binding = bindings[i];
        proof {
            assert(bindings@.subrange(0, i + 1).drop_last() =~= bindings@.subrange(0, i as int));
            assert(bindings@.subrange(0, i + 1).last() == binding);
        }
        if let Some(previous) = mapping.insert(binding.role, binding.value) {
            if previous != binding.value {
                proof {
                    lemma_binding_map_error_propagates(bindings@, i + 1);
                }
                return Err(StructuralError::TemplateMismatch);
            }
        }
        i += 1;
    }
    proof {
        assert(bindings@.subrange(0, i as int) =~= bindings@);
    }

    let mut visiting: HashSet<Handle> = HashSet::new();
    let mut memo: HashMap<Handle, Handle> = HashMap::new();
    instantiate_node(store, template, &mapping, &mut visiting, &mut memo)
}

/// The image that one trigger Link contributes for `active`, if any.
fn trigger_image(
    store: &OptimizedLinkStore,
    theory: Handle,
    active: Handle,
    trigger_key: Handle,
    trigger: Handle,
) -> (image: Option<StructuralImage>)
    requires
        store.wf(),
    ensures
        match image_of(store.links(), theory, active, trigger_key, trigger) {
            Some(v) => image matches Some(i) && image_view(i) == v,
            None => image is None,
        },
{
    proof {
        store.lemma_wf_links();
    }
    if trigger == trigger_key {
        return None;
    }
    let Ok((trigger_start, admission)) = store.poles(trigger) else {
        return None;
    };
    if trigger_start != trigger_key {
        return None;
    }
    let Ok((admission_theory, rule)) = store.poles(admission) else {
        return None;
    };
    if admission_theory != theory || rule == admission {
        return None;
    }
    let Ok((role_dictionary, body)) = store.poles(rule) else {
        return None;
    };
    let Ok(roles) = read_structural_role_dictionary(store, role_dictionary) else {
        return None;
    };
    let Ok((before, output_bundle_template)) = store.poles(body) else {
        return None;
    };
    let Ok(bindings) = unify_structural_rule_template(store, before, active, roles.as_slice()) else {
        return None;
    };
    Some(StructuralImage { output_bundle_template, bindings })
}

/// The rule images that `active` triggers under `theory`, in the order of
/// the trigger key's START incidence.
pub fn discover_triggered_rule_images(store: &OptimizedLinkStore, theory: Handle, active: Handle) -> (r:
    Result<Vec<StructuralImage>, StructuralError>)
    requires
        store.wf(),
    ensures
        match discover_spec(store.links(), theory, active) {
            Ok(images) => r matches Ok(v) && v@.map_values(|i: StructuralImage| image_view(i))
                == images,
            Err(e) => r is Err && r->Err_0 == e,
        },
{
    let ghost links = store.links();
    proof {
        store.lemma_wf_links();
    }
    let (_, endpoint) = match store.poles(active) {
        Ok(p) => p,
        Err(e) => return Err(StructuralError::Store(e)),
    };
    proof {
        crate::model::lemma_poles_valid(links, active);
    }
    let (trigger_key, _) = match store.poles(endpoint) {
        Ok(p) => p,
        Err(e) => return Err(StructuralError::Store(e)),
    };
    proof {
        crate::model::lemma_poles_valid(links, endpoint);
    }
    let triggers = match store.start_incidence(trigger_key) {
        Ok(t) => t,
        Err(e) => return Err(StructuralError::Store(e)),
    };

    let mut images: Vec<StructuralImage> = Vec::new();
    let mut i: usize = 0;
    proof {
        assert(triggers@.subrange(0, 0) =~= Seq::<Handle>::empty());
        assert(images@.map_values(|i: StructuralImage| image_view(i)) =~= Seq::<ImageView>::empty());
    }
    while i < triggers.len()
        invariant
            i <= triggers@.len(),
            store.wf(),
            images@.map_values(|i: StructuralImage| image_view(i)) == images_from(
                store.links(),
                theory,
                active,
                trigger_key,
                triggers@.subrange(0, i as int),
            ),
        decreases triggers@.len() - i,
    {
        let trigger = triggers[i];
        proof {
            assert(triggers@.subrange(0, i + 1).drop_last() =~= triggers@.subrange(0, i as int));
            assert(triggers@.subrange(0, i + 1).last() == trigger);
        }
        let ghost before = images@;
        if let Some(image) = trigger_image(store, theory, active, trigger_key, trigger) {
            images.push(image);
            proof {
                assert(images@.map_values(|i: StructuralImage| image_view(i)) =~= before.map_values(
                    |i: StructuralImage| image_view(i),
                ).push(image_view(image)));
            }
        }
        i += 1;
    }
    proof {
        assert(triggers@.subrange(0, i as int) =~= triggers@);
    }
    Ok(images)
}

/// Copies a list of handles.
fn copy_handles(source: &Vec<Handle>) -> (copy: Vec<Handle>)
    ensures
        copy@ == source@,
{
    let mut copy: Vec<Handle> = Vec::new();
    let mut i: usize = 0;
    while i < source.len()
        invariant
            i <= source@.len(),
            copy@ == source@.subrange(0, i as int),
        decreases source@.len() - i,
    {
        copy.push(source[i]);
        i += 1;
        proof {
            assert(copy@ =~= source@.subrange(0, i as int));
        }
    }
    proof {
        assert(copy@ =~= source@);
    }
    copy
}

/// Adds `link` to the next scope unless it is already there; a new member
/// beyond `cap` is refused.
fn add_next(
    next_members: &mut Vec<Handle>,
    next_seen: &mut HashSet<Handle>,
    link: Handle,
    cap: usize,
) -> (r: Result<(), StructuralError>)
    requires
        old(next_seen)@ == old(next_members)@.to_set(),
        old(next_members)@.no_duplicates(),
        old(next_members)@.len() <= cap,
    ensures
        match add_next_spec(old(next_members)@, link, cap) {
            Ok(n) => r is Ok && final(next_members)@ == n,
            Err(e) => r == Err::<(), StructuralError>(e),
        },
        r is Ok ==> final(next_seen)@ == final(next_members)@.to_set(),
        r is Ok ==> final(next_members)@.no_duplicates(),
        r is Ok ==> final(next_members)@.len() <= cap,
{
    let ghost entry = next_members@;
    if next_seen.insert(link) {
        if next_members.len() >= cap {
            return Err(StructuralError::ScopeCapacity { requested: next_members.len().wrapping_add(1), cap });
        }
        next_members.push(link);
        proof {
            lemma_push_to_set(entry, link);
            assert forall|a: int, b: int|
                0 <= a < next_members@.len() && 0 <= b < next_members@.len() && a != b implies
                #[trigger] next_members@[a] != #[trigger] next_members@[b] by {
                if a == entry.len() {
                    assert(entry[b] == next_members@[b]);
                } else if b == entry.len() {
                    assert(entry[a] == next_members@[a]);
                } else {
                    assert(entry[a] == next_members@[a]);
                    assert(entry[b] == next_members@[b]);
                }
            }
        }
    }
    Ok(())
}

/// A two-bank structural reaction engine: the current bank holds the scope;
/// a reaction writes the next scope into the other bank and hands off.
#[derive(Clone, Debug)]
pub struct OptimizedStructuralEngine {
    cap: usize,
    scope_banks: [Vec<Handle>; 2],
    current_bank: usize,
    interpreter: Option<Handle>,
    raw_rule_matches: u32,
    transitioned_members: u32,
    handoff_count: u32,
    quiescent: bool,
}

impl OptimizedStructuralEngine {
    /// The most members a scope may hold.
    pub closed spec fn scope_cap(&self) -> usize {
        self.cap
    }

    /// The members held in `bank`.
    pub closed spec fn bank_view(&self, bank: int) -> Seq<Handle> {
        self.scope_banks@[bank]@
    }

    /// The index of the bank holding the current scope.
    pub closed spec fn current_index(&self) -> int {
        self.current_bank as int
    }

    /// The members of the current scope.
    pub open spec fn current_view(&self) -> Seq<Handle> {
        self.bank_view(self.current_index())
    }

    pub closed spec fn interpreter_view(&self) -> Option<Handle> {
        self.interpreter
    }

    pub closed spec fn matches_view(&self) -> u32 {
        self.raw_rule_matches
    }

    pub closed spec fn transitioned_view(&self) -> u32 {
        self.transitioned_members
    }

    pub closed spec fn handoff_view(&self) -> u32 {
        self.handoff_count
    }

    pub closed spec fn quiescent_view(&self) -> bool {
        self.quiescent
    }

    /// Both banks are duplicate-free scopes within the capacity.
    pub closed spec fn wf(&self) -> bool {
        &&& 0 < self.cap
        &&& self.current_bank < 2
        &&& forall|b: int|
            0 <= b < 2 ==> (#[trigger] self.scope_banks@[b])@.len() <= self.cap
                && self.scope_banks@[b]@.no_duplicates()
    }

    /// A well-formed engine's current bank is bank 0 or bank 1.
    pub proof fn lemma_bank_index(&self)
        requires
            self.wf(),
        ensures
            0 <= self.current_index() < 2,
    {
    }

    pub fn new(cap: usize) -> (engine: Self)
        requires
            0 < cap,
        ensures
            engine.wf(),
            engine.scope_cap() == cap,
            engine.bank_view(0) == Seq::<Handle>::empty(),
            engine.bank_view(1) == Seq::<Handle>::empty(),
            engine.current_index() == 0,
            engine.interpreter_view() == None::<Handle>,
            engine.matches_view() == 0,
            engine.transitioned_view() == 0,
            engine.handoff_view() == 0,
            !engine.quiescent_view(),
    {
        Self {
            cap,
            scope_banks: [Vec::new(), Vec::new()],
            current_bank: 0,
            interpreter: None,
            raw_rule_matches: 0,
            transitioned_members: 0,
            handoff_count: 0,
            quiescent: false,
        }
    }

    /// Installs the interpreter whose theory drives reactions; it must read back.
    pub fn set_interpreter(&mut self, store: &OptimizedLinkStore, interpreter: Handle) -> (r: Result<
        (),
        StructuralError,
    >)
        requires
            old(self).wf(),
            store.wf(),
        ensures
            final(self).wf(),
            match read_interpreter_spec(store.links(), interpreter) {
                Ok(_) => r is Ok && final(self).interpreter_view() == Some(interpreter)
                    && final(self).scope_cap() == old(self).scope_cap() && final(self).current_index()
                    == old(self).current_index() && final(self).bank_view(0) == old(self).bank_view(0)
                    && final(self).bank_view(1) == old(self).bank_view(1) && final(self).matches_view()
                    == old(self).matches_view() && final(self).transitioned_view()
                    == old(self).transitioned_view() && final(self).handoff_view()
                    == old(self).handoff_view() && final(self).quiescent_view()
                    == old(self).quiescent_view(),
                Err(e) => r == Err::<(), StructuralError>(e) && *final(self) == *old(self),
            },
    {
        read_structural_interpreter(store, interpreter)?;
        self.interpreter = Some(interpreter);
        Ok(())
    }

    /// Replaces the current scope with `members`, keeping the first
    /// occurrence of each; every member must be a known Link.
    pub fn set_current(&mut self, store: &OptimizedLinkStore, members: &[Handle]) -> (r: Result<
        (),
        StructuralError,
    >)
        requires
            old(self).wf(),
            store.wf(),
        ensures
            final(self).wf(),
            final(self).scope_cap() == old(self).scope_cap(),
            final(self).current_index() == old(self).current_index(),
            final(self).interpreter_view() == old(self).interpreter_view(),
            final(self).matches_view() == old(self).matches_view(),
            final(self).transitioned_view() == old(self).transitioned_view(),
            final(self).handoff_view() == old(self).handoff_view(),
            final(self).quiescent_view() == old(self).quiescent_view(),
            final(self).bank_view(1 - old(self).current_index()) == old(self).bank_view(
                1 - old(self).current_index(),
            ),
            members@.len() > old(self).scope_cap() ==> r == Err::<(), StructuralError>(
                StructuralError::ScopeCapacity {
                    requested: members@.len() as usize,
                    cap: old(self).scope_cap(),
                },
            ) && final(self).current_view() == old(self).current_view(),
            members@.len() <= old(self).scope_cap() ==> match normalize_spec(store.links(), members@) {
                Ok(n) => r is Ok && final(self).current_view() == n,
                Err(e) => r == Err::<(), StructuralError>(e) && final(self).current_view()
                    == old(self).current_view(),
            },
            r is Err ==> final(self).bank_view(0) == old(self).bank_view(0) && final(self).bank_view(1)
                == old(self).bank_view(1),
    {
        if members.len() > self.cap {
            return Err(StructuralError::ScopeCapacity { requested: members.len(), cap: self.cap });
        }

        let ghost links = store.links();
        let mut seen: HashSet<Handle> = HashSet::new();
        let mut normalized: Vec<Handle> = Vec::new();
        let mut i: usize = 0;
        proof {
            assert(members@.subrange(0, 0) =~= Seq::<Handle>::empty());
        }
        while i < members.len()
            invariant
                i <= members@.len(),
                links == store.links(),
                normalize_spec(links, members@.subrange(0, i as int)) == Ok::<
                    Seq<Handle>,
                    StructuralError,
                >(normalized@),
                seen@ == normalized@.to_set(),
                normalized@.no_duplicates(),
                normalized@.len() <= i,
                *self == *old(self),
                self.wf(),
                members@.len() <= self.cap,
            decreases members@.len() - i,
        {
            let member = members[i];
            proof {
                assert(members@.subrange(0, i + 1).drop_last() =~= members@.subrange(0, i as int));
                assert(members@.subrange(0, i + 1).last() == member);
            }
            if !store.is_valid(member) {
                proof {
                    lemma_normalize_error_propagates(links, members@, i + 1);
                }
                return Err(StructuralError::Store(StoreError::UnknownHandle(member)));
            }
            let ghost entry = normalized@;
            if seen.insert(member) {
                normalized.push(member);
                proof {
                    lemma_push_to_set(entry, member);
                    assert forall|a: int, b: int|
                        0 <= a < normalized@.len() && 0 <= b < normalized@.len() && a != b implies
                        #[trigger] normalized@[a] != #[trigger] normalized@[b] by {
                        if a == entry.len() {
                            assert(entry[b] == normalized@[b]);
                        } else if b == entry.len() {
                            assert(entry[a] == normalized@[a]);
                        } else {
                            assert(entry[a] == normalized@[a]);
                            assert(entry[b] == normalized@[b]);
                        }
                    }
                }
            }
            i += 1;
        }
        proof {
            assert(members@.subrange(0, i as int) =~= members@);
        }
        self.scope_banks[self.current_bank] = normalized;
        Ok(())
    }

    /// `a` and `b` agree on everything but the quiescence flag.
    spec fn agrees_except_quiescence(a: Self, b: Self) -> bool {
        &&& a.cap == b.cap
        &&& a.scope_banks == b.scope_banks
        &&& a.current_bank == b.current_bank
        &&& a.interpreter == b.interpreter
        &&& a.raw_rule_matches == b.raw_rule_matches
        &&& a.transitioned_members == b.transitioned_members
        &&& a.handoff_count == b.handoff_count
    }

    /// One reaction of the current scope under the installed interpreter's
    /// theory. Members without a triggered rule carry over; each triggered
    /// rule image is instantiated and its output sequence joins the next
    /// scope. When no rule matched the scope is quiescent and stays in
    /// place; otherwise the next scope is written to the other bank, which
    /// becomes current.
    pub fn run(&mut self, store: &mut OptimizedLinkStore) -> (r: Result<
        StructuralReactionResult,
        StructuralError,
    >)
        requires
            old(self).wf(),
            old(store).wf(),
        ensures
            final(self).wf(),
            final(store).wf(),
            final(store).limit() == old(store).limit(),
            final(self).scope_cap() == old(self).scope_cap(),
            final(self).interpreter_view() == old(self).interpreter_view(),
            ({
                let (out, links) = reaction_spec(
                    old(store).links(),
                    old(store).limit(),
                    old(self).interpreter_view(),
                    old(self).current_view(),
                    old(self).scope_cap(),
                );
                &&& final(store).links() == links
                &&& match out {
                    Err(e) => {
                        &&& r == Err::<StructuralReactionResult, StructuralError>(e)
                        &&& !final(self).quiescent_view()
                        &&& final(self).current_index() == old(self).current_index()
                        &&& final(self).bank_view(0) == old(self).bank_view(0)
                        &&& final(self).bank_view(1) == old(self).bank_view(1)
                        &&& final(self).matches_view() == old(self).matches_view()
                        &&& final(self).transitioned_view() == old(self).transitioned_view()
                        &&& final(self).handoff_view() == old(self).handoff_view()
                    },
                    Ok((next, raw, transitioned)) => {
                        &&& r is Ok
                        &&& r->Ok_0.old_members@ == old(self).current_view()
                        &&& r->Ok_0.raw_rule_matches == raw
                        &&& r->Ok_0.transitioned_members == transitioned
                        &&& final(self).matches_view() == raw
                        &&& final(self).transitioned_view() == transitioned
                        &&& raw == 0 ==> {
                            &&& r->Ok_0.next_members@ == old(self).current_view()
                            &&& r->Ok_0.quiescent
                            &&& r->Ok_0.handoff_count == 0
                            &&& final(self).quiescent_view()
                            &&& final(self).handoff_view() == 0
                            &&& final(self).current_index() == old(self).current_index()
                            &&& final(self).current_view() == old(self).current_view()
                            &&& final(self).bank_view(0) == old(self).bank_view(0)
                            &&& final(self).bank_view(1) == old(self).bank_view(1)
                        }
                        &&& raw != 0 ==> {
                            &&& r->Ok_0.next_members@ == next
                            &&& !r->Ok_0.quiescent
                            &&& r->Ok_0.handoff_count == 1
                            &&& !final(self).quiescent_view()
                            &&& final(self).handoff_view() == 1
                            &&& final(self).current_index() == 1 - old(self).current_index()
                            &&& final(self).current_view() == next
                            &&& final(self).bank_view(old(self).current_index()) == old(
                                self,
                            ).current_view()
                        }
                    },
                }
            }),
    {
        let ghost links0 = store.links();
        let ghost limit0 = store.limit();
        proof {
            store.lemma_wf_links();
        }
        self.quiescent = false;

        let interpreter = match self.interpreter {
            Some(i) => i,
            None => return Err(StructuralError::MissingInterpreter),
        };
        let authority = read_structural_interpreter(store, interpreter)?;
        let old_members = copy_handles(&self.scope_banks[self.current_bank]);

        if old_members.len() > self.cap {
            return Err(StructuralError::ScopeCapacity { requested: old_members.len(), cap: self.cap });
        }

        let cap = self.cap;
        let theory = authority.theory;
        let ghost engine0 = *self;
        let mut next_members: Vec<Handle> = Vec::new();
        let mut next_seen: HashSet<Handle> = HashSet::new();
        let mut raw_rule_matches = 0u32;
        let mut transitioned_members = 0u32;

        let mut m: usize = 0;
        proof {
            assert(old_members@.subrange(0, 0) =~= Seq::<Handle>::empty());
            assert(next_members@.to_set() =~= Set::<Handle>::empty());
        }
        while m < old_members.len()
            invariant
                m <= old_members@.len(),
                *self == engine0,
                Self::agrees_except_quiescence(engine0, *old(self)),
                !engine0.quiescent,
                reaction_spec(
                    old(store).links(),
                    old(store).limit(),
                    old(self).interpreter_view(),
                    old(self).current_view(),
                    old(self).scope_cap(),
                ) == react_members_spec(links0, limit0, theory, old_members@, cap),
                self.wf(),
                links0 == old(store).links(),
                limit0 == old(store).limit(),
                store.wf(),
                store.limit() == limit0,
                0 < cap,
                react_members_spec(links0, limit0, theory, old_members@.subrange(0, m as int), cap)
                    == (
                    Ok::<(Seq<Handle>, u32, u32), StructuralError>(
                        (next_members@, raw_rule_matches, transitioned_members),
                    ),
                    store.links(),
                ),
                next_seen@ == next_members@.to_set(),
                next_members@.no_duplicates(),
                next_members@.len() <= cap,
            decreases old_members@.len() - m,
        {
            let active = old_members[m];
            let ghost links_m = store.links();
            let ghost next_m = next_members@;
            let ghost raw_m = raw_rule_matches;
            let ghost trans_m = transitioned_members;
            proof {
                assert(old_members@.subrange(0, m + 1).drop_last() =~= old_members@.subrange(
                    0,
                    m as int,
                ));
                assert(old_members@.subrange(0, m + 1).last() == active);
            }
            let images = match discover_triggered_rule_images(store, theory, active) {
                Ok(v) => v,
                Err(e) => {
                    proof {
                        lemma_react_members_error_propagates(
                            links0,
                            limit0,
                            theory,
                            old_members@,
                            cap,
                            m + 1,
                        );
                    }
                    return Err(e);
                },
            };
            let ghost views = images@.map_values(|i: StructuralImage| image_view(i));

            if images.len() == 0 {
                match add_next(&mut next_members, &mut next_seen, active, cap) {
                    Ok(()) => {},
                    Err(e) => {
                        proof {
                            lemma_react_members_error_propagates(
                                links0,
                                limit0,
                                theory,
                                old_members@,
                                cap,
                                m + 1,
                            );
                        }
                        return Err(e);
                    },
                }
            } else {
                transitioned_members = transitioned_members.saturating_add(1);
                let mut k: usize = 0;
                proof {
                    store.lemma_wf_links();
                    assert(views.subrange(0, 0) =~= Seq::<ImageView>::empty());
                }
                while k < images.len()
                    invariant
                        k <= images@.len(),
                        views == images@.map_values(|i: StructuralImage| image_view(i)),
                        views.len() > 0,
                        *self == engine0,
                Self::agrees_except_quiescence(engine0, *old(self)),
                !engine0.quiescent,
                reaction_spec(
                    old(store).links(),
                    old(store).limit(),
                    old(self).interpreter_view(),
                    old(self).current_view(),
                    old(self).scope_cap(),
                ) == react_members_spec(links0, limit0, theory, old_members@, cap),
                        self.wf(),
                        links0 == old(store).links(),
                        limit0 == old(store).limit(),
                        m < old_members@.len(),
                        old_members@[m as int] == active,
                        react_members_spec(links0, limit0, theory, old_members@.subrange(0, m as int), cap)
                            == (
                            Ok::<(Seq<Handle>, u32, u32), StructuralError>(
                                (next_m, raw_m, trans_m),
                            ),
                            links_m,
                        ),
                        old_members@.subrange(0, m + 1).drop_last() == old_members@.subrange(0, m as int),
                        old_members@.subrange(0, m + 1).last() == active,
                        discover_spec(links_m, theory, active) == Ok::<Seq<ImageView>, StructuralError>(views),
                        transitioned_members == trans_m.saturating_add(1),
                        store.wf(),
                        store.limit() == limit0,
                        0 < cap,
                        links_wf(links_m),
                        apply_images_spec(links_m, limit0, views.subrange(0, k as int), next_m, raw_m, cap)
                            == (
                            Ok::<(Seq<Handle>, u32), StructuralError>(
                                (next_members@, raw_rule_matches),
                            ),
                            store.links(),
                        ),
                        next_seen@ == next_members@.to_set(),
                        next_members@.no_duplicates(),
                        next_members@.len() <= cap,
                    decreases images@.len() - k,
                {
                    let ghost links_k = store.links();
                    let ghost next_k = next_members@;
                    let ghost raw_k = raw_rule_matches;
                    proof {
                        assert(views.subrange(0, k + 1).drop_last() =~= views.subrange(0, k as int));
                        assert(views.subrange(0, k + 1).last() == image_view(images@[k as int]));
                    }
                    raw_rule_matches = raw_rule_matches.saturating_add(1);
                    let image = &images[k];
                    let grounded = match instantiate_structural_template(
                        store,
                        image.output_bundle_template,
                        image.bindings.as_slice(),
                    ) {
                        Ok(g) => g,
                        Err(e) => {
                            proof {
                                lemma_apply_images_error_propagates(
                                    links_m,
                                    limit0,
                                    views,
                                    next_m,
                                    raw_m,
                                    cap,
                                    k + 1,
                                );
                                lemma_react_members_error_propagates(
                                    links0,
                                    limit0,
                                    theory,
                                    old_members@,
                                    cap,
                                    m + 1,
                                );
                            }
                            return Err(e);
                        },
                    };
                    let outputs = match read_exact_sequence(store, grounded) {
                        Ok(o) => o,
                        Err(e) => {
                            proof {
                                lemma_apply_images_error_propagates(
                                    links_m,
                                    limit0,
                                    views,
                                    next_m,
                                    raw_m,
                                    cap,
                                    k + 1,
                                );
                                lemma_react_members_error_propagates(
                                    links0,
                                    limit0,
                                    theory,
                                    old_members@,
                                    cap,
                                    m + 1,
                                );
                            }
                            return Err(e);
                        },
                    };
                    let mut o: usize = 0;
                    proof {
                        assert(outputs@.subrange(0, 0) =~= Seq::<Handle>::empty());
                    }
                    while o < outputs.len()
                        invariant
                            o <= outputs@.len(),
                            0 < cap,
                            k < images@.len(),
                            views == images@.map_values(|i: StructuralImage| image_view(i)),
                            views.len() > 0,
                            *self == engine0,
                Self::agrees_except_quiescence(engine0, *old(self)),
                !engine0.quiescent,
                reaction_spec(
                    old(store).links(),
                    old(store).limit(),
                    old(self).interpreter_view(),
                    old(self).current_view(),
                    old(self).scope_cap(),
                ) == react_members_spec(links0, limit0, theory, old_members@, cap),
                            self.wf(),
                            links0 == old(store).links(),
                            limit0 == old(store).limit(),
                            m < old_members@.len(),
                            react_members_spec(links0, limit0, theory, old_members@.subrange(0, m as int), cap)
                                == (
                                Ok::<(Seq<Handle>, u32, u32), StructuralError>(
                                    (next_m, raw_m, trans_m),
                                ),
                                links_m,
                            ),
                            old_members@.subrange(0, m + 1).drop_last() == old_members@.subrange(0, m as int),
                            old_members@.subrange(0, m + 1).last() == active,
                            discover_spec(links_m, theory, active) == Ok::<Seq<ImageView>, StructuralError>(views),
                            transitioned_members == trans_m.saturating_add(1),
                            views.subrange(0, k + 1).drop_last() == views.subrange(0, k as int),
                            views.subrange(0, k + 1).last() == image_view(images@[k as int]),
                            apply_images_spec(links_m, limit0, views.subrange(0, k as int), next_m, raw_m, cap)
                                == (
                                Ok::<(Seq<Handle>, u32), StructuralError>((next_k, raw_k)),
                                links_k,
                            ),
                            raw_rule_matches == raw_k.saturating_add(1),
                            instantiate_template_spec(links_k, limit0, image_view(images@[k as int]).0, image_view(images@[k as int]).1)
                                == (Ok::<Handle, StructuralError>(grounded), store.links()),
                            read_sequence_spec(store.links(), grounded) == Ok::<Seq<Handle>, StructuralError>(outputs@),
                            store.wf(),
                            store.limit() == limit0,
                            links_wf(links_m),
                            add_all_spec(next_k, outputs@.subrange(0, o as int), cap) == Ok::<
                                Seq<Handle>,
                                StructuralError,
                            >(next_members@),
                            next_seen@ == next_members@.to_set(),
                            next_members@.no_duplicates(),
                            next_members@.len() <= cap,
                        decreases outputs@.len() - o,
                    {
                        let successor = outputs[o];
                        proof {
                            assert(outputs@.subrange(0, o + 1).drop_last() =~= outputs@.subrange(
                                0,
                                o as int,
                            ));
                            assert(outputs@.subrange(0, o + 1).last() == successor);
                        }
                        match add_next(&mut next_members, &mut next_seen, successor, cap) {
                            Ok(()) => {},
                            Err(e) => {
                                proof {
                                    lemma_add_all_error_propagates(next_k, outputs@, cap, o + 1);
                                    lemma_apply_images_error_propagates(
                                        links_m,
                                        limit0,
                                        views,
                                        next_m,
                                        raw_m,
                                        cap,
                                        k + 1,
                                    );
                                    lemma_react_members_error_propagates(
                                        links0,
                                        limit0,
                                        theory,
                                        old_members@,
                                        cap,
                                        m + 1,
                                    );
                                }
                                return Err(e);
                            },
                        }
                        o += 1;
                    }
                    proof {
                        assert(outputs@.subrange(0, o as int) =~= outputs@);
                    }
                    k += 1;
                }
                proof {
                    assert(views.subrange(0, k as int) =~= views);
                }
            }
            m += 1;
        }
        proof {
            assert(old_members@.subrange(0, m as int) =~= old_members@);
        }

        self.raw_rule_matches = raw_rule_matches;
        self.transitioned_members = transitioned_members;
        self.handoff_count = 0;

        if raw_rule_matches == 0 {
            self.quiescent = true;
            return Ok(
                StructuralReactionResult {
                    old_members: copy_handles(&old_members),
                    next_members: old_members,
                    raw_rule_matches,
                    transitioned_members,
                    quiescent: true,
                    handoff_count: 0,
                },
            );
        }

        let target_bank = 1usize - self.current_bank;
        self.scope_banks[target_bank] = copy_handles(&next_members);
        self.current_bank = target_bank;
        self.handoff_count = 1;

        Ok(
            StructuralReactionResult {
                old_members,
                next_members,
                raw_rule_matches,
                transitioned_members,
                quiescent: false,
                handoff_count: 1,
            },
        )
    }

    /// The members of the current scope.
    pub fn current(&self) -> (members: &[Handle])
        requires
            self.wf(),
        ensures
            members@ == self.current_view(),
    {
        self.scope_banks[self.current_bank].as_slice()
    }

    pub fn current_bank(&self) -> (bank: usize)
        ensures
            bank == self.current_index(),
    {
        self.current_bank
    }

    pub fn bank(&self, bank: usize) -> (members: Option<&[Handle]>)
        ensures
            bank < 2 ==> (members matches Some(m) && m@ == self.bank_view(bank as int)),
            bank >= 2 ==> members is None,
    {
        if bank < 2 {
            Some(self.scope_banks[bank].as_slice())
        } else {
            None
        }
    }

    pub fn raw_rule_matches(&self) -> (n: u32)
        ensures
            n == self.matches_view(),
    {
        self.raw_rule_matches
    }

    pub fn transitioned_members(&self) -> (n: u32)
        ensures
            n == self.transitioned_view(),
    {
        self.transitioned_members
    }

    pub fn handoff_count(&self) -> (n: u32)
        ensures
            n == self.handoff_view(),
    {
        self.handoff_count
    }

    pub fn quiescent(&self) -> (q: bool)
        ensures
            q == self.quiescent_view(),
    {
        self.quiescent
    }
}

} // verus!
