//! The model of the structural layer: ROOT-originating exact sequences,
//! role dictionaries, rules and interpreters, read over the record model.
use vstd::prelude::*;

use crate::model::{
    ensure_end_spec, ensure_pair_spec, ensure_start_spec, extends, lemma_ensure_end_spec,
    lemma_ensure_end_stable, lemma_ensure_pair_stable, lemma_ensure_start_stable, is_valid_in, lemma_ensure_pair_spec,
    lemma_ensure_start_spec, lemma_extends_trans, lemma_forms_extend, lemma_poles_valid, links_wf,
    poles_in, record_well_founded, start_incidence_of, Links,
};
use crate::store::StoreError;
use crate::structural::{StructuralError, StructuralInterpreter, StructuralRoleBinding};

verus! {

/// One step of exact-sequence construction: append `value` after the cell `current`.
pub open spec fn sequence_step(links: Links, limit: Option<usize>, current: u32, value: u32) -> (
    Result<u32, StructuralError>,
    Links,
) {
    if !is_valid_in(links, value) {
        (Err(StructuralError::Store(StoreError::UnknownHandle(value))), links)
    } else {
        let (r, l1) = ensure_pair_spec(links, limit, current, value);
        match r {
            Err(e) => (Err(StructuralError::Store(e)), l1),
            Ok(payload) => {
                let (r2, l2) = ensure_start_spec(l1, limit, payload);
                match r2 {
                    Err(e) => (Err(StructuralError::Store(e)), l2),
                    Ok(cell) => (Ok(cell), l2),
                }
            },
        }
    }
}

/// Building the ROOT-originating exact sequence of `values`, first value first.
pub open spec fn materialize_spec(links: Links, limit: Option<usize>, values: Seq<u32>) -> (
    Result<u32, StructuralError>,
    Links,
)
    decreases values.len(),
{
    if values.len() == 0 {
        (Ok(1u32), links)
    } else {
        let (r, l1) = materialize_spec(links, limit, values.drop_last());
        match r {
            Err(e) => (Err(e), l1),
            Ok(current) => sequence_step(l1, limit, current, values.last()),
        }
    }
}

/// Once building a prefix of `values` has failed, building all of them fails the same way.
pub proof fn lemma_materialize_error_propagates(
    links: Links,
    limit: Option<usize>,
    values: Seq<u32>,
    j: int,
)
    requires
        0 <= j <= values.len(),
        materialize_spec(links, limit, values.subrange(0, j)).0 is Err,
    ensures
        materialize_spec(links, limit, values) == materialize_spec(
            links,
            limit,
            values.subrange(0, j),
        ),
    decreases values.len() - j,
{
    if j < values.len() {
        assert(values.drop_last().subrange(0, j) =~= values.subrange(0, j));
        lemma_materialize_error_propagates(links, limit, values.drop_last(), j);
    } else {
        assert(values.subrange(0, j) =~= values);
    }
}

/// The values of the exact sequence whose final cell is `cell`, or `None`
/// when the chain from `cell` back to ROOT is not made of sequence cells.
pub open spec fn exact_cells(links: Links, cell: u32) -> Option<Seq<u32>>
    decreases cell,
{
    if cell == 1 {
        Some(Seq::empty())
    } else if !is_valid_in(links, cell) {
        None
    } else {
        let (cell_start, cell_end) = poles_in(links, cell);
        if cell_start != cell || !is_valid_in(links, cell_end) {
            None
        } else {
            let (previous, value) = poles_in(links, cell_end);
            if previous < cell {
                match exact_cells(links, previous) {
                    Some(values) => Some(values.push(value)),
                    None => None,
                }
            } else {
                None
            }
        }
    }
}

/// Reading an exact sequence back from its final cell.
pub open spec fn read_sequence_spec(links: Links, final_link: u32) -> Result<
    Seq<u32>,
    StructuralError,
> {
    if final_link == 1 {
        Ok(Seq::empty())
    } else if !is_valid_in(links, final_link) {
        Err(StructuralError::Store(StoreError::UnknownHandle(final_link)))
    } else {
        match exact_cells(links, final_link) {
            Some(values) => Ok(values),
            None => Err(StructuralError::InvalidExactSequence(final_link)),
        }
    }
}

/// The first problem among `roles`, in order: an unknown handle or a repeat.
pub open spec fn role_check(links: Links, roles: Seq<u32>) -> Option<StructuralError>
    decreases roles.len(),
{
    if roles.len() == 0 {
        None
    } else {
        match role_check(links, roles.drop_last()) {
            Some(e) => Some(e),
            None => {
                let role = roles.last();
                if !is_valid_in(links, role) {
                    Some(StructuralError::Store(StoreError::UnknownHandle(role)))
                } else if roles.drop_last().contains(role) {
                    Some(StructuralError::DuplicateRole)
                } else {
                    None
                }
            },
        }
    }
}

pub proof fn lemma_push_to_set(s: Seq<u32>, x: u32)
    ensures
        s.push(x).to_set() == s.to_set().insert(x),
        s.push(x).contains(x),
{
    assert forall|a: u32| #[trigger] s.push(x).contains(a) <==> s.contains(a) || a == x by {
        if s.push(x).contains(a) {
            let i = choose|i: int| 0 <= i < s.push(x).len() && #[trigger] s.push(x)[i] == a;
            if i < s.len() {
                assert(s[i] == a);
            }
        }
        if s.contains(a) {
            let i = choose|i: int| 0 <= i < s.len() && #[trigger] s[i] == a;
            assert(s.push(x)[i] == a);
        }
        if a == x {
            assert(s.push(x)[s.len() as int] == x);
        }
    }
    assert(s.push(x).to_set() =~= s.to_set().insert(x));
}

/// Once a prefix of `roles` has a problem, all of `roles` has the same first problem.
pub proof fn lemma_role_check_propagates(links: Links, roles: Seq<u32>, j: int)
    requires
        0 <= j <= roles.len(),
        role_check(links, roles.subrange(0, j)) is Some,
    ensures
        role_check(links, roles) == role_check(links, roles.subrange(0, j)),
    decreases roles.len() - j,
{
    if j < roles.len() {
        assert(roles.drop_last().subrange(0, j) =~= roles.subrange(0, j));
        lemma_role_check_propagates(links, roles.drop_last(), j);
    } else {
        assert(roles.subrange(0, j) =~= roles);
    }
}

/// Defining a role dictionary: the START self-closed Link over the exact
/// sequence of its roles.
pub open spec fn define_dictionary_spec(links: Links, limit: Option<usize>, roles: Seq<u32>) -> (
    Result<u32, StructuralError>,
    Links,
) {
    match role_check(links, roles) {
        Some(e) => (Err(e), links),
        None => {
            let (r, l1) = materialize_spec(links, limit, roles);
            match r {
                Err(e) => (Err(e), l1),
                Ok(sequence) => {
                    let (r2, l2) = ensure_start_spec(l1, limit, sequence);
                    match r2 {
                        Err(e) => (Err(StructuralError::Store(e)), l2),
                        Ok(dictionary) => (Ok(dictionary), l2),
                    }
                },
            }
        },
    }
}

/// Reading a role dictionary back.
pub open spec fn read_dictionary_spec(links: Links, dictionary: u32) -> Result<
    Seq<u32>,
    StructuralError,
> {
    if !is_valid_in(links, dictionary) {
        Err(StructuralError::Store(StoreError::UnknownHandle(dictionary)))
    } else {
        let (start, end) = poles_in(links, dictionary);
        if start != dictionary || end == dictionary {
            Err(StructuralError::InvalidRoleDictionary(dictionary))
        } else {
            match read_sequence_spec(links, end) {
                Err(e) => Err(e),
                Ok(roles) => if roles.no_duplicates() {
                    Ok(roles)
                } else {
                    Err(StructuralError::DuplicateRole)
                },
            }
        }
    }
}

/// A canonical PAIR built at the structural layer.
pub open spec fn structural_pair_spec(links: Links, limit: Option<usize>, start: u32, end: u32) -> (
    Result<u32, StructuralError>,
    Links,
) {
    let (r, l1) = ensure_pair_spec(links, limit, start, end);
    match r {
        Err(e) => (Err(StructuralError::Store(e)), l1),
        Ok(h) => (Ok(h), l1),
    }
}

/// Defining an interpreter: `PAIR(dictionary, PAIR(grammar, theory))`.
pub open spec fn define_interpreter_spec(
    links: Links,
    limit: Option<usize>,
    dictionary: u32,
    grammar: u32,
    theory: u32,
) -> (Result<u32, StructuralError>, Links) {
    let (r, l1) = structural_pair_spec(links, limit, grammar, theory);
    match r {
        Err(e) => (Err(e), l1),
        Ok(grammar_theory) => structural_pair_spec(l1, limit, dictionary, grammar_theory),
    }
}

/// Reading an interpreter's three parts back.
pub open spec fn read_interpreter_spec(links: Links, interpreter: u32) -> Result<
    StructuralInterpreter,
    StructuralError,
> {
    if !is_valid_in(links, interpreter) || !is_valid_in(links, poles_in(links, interpreter).1) {
        Err(StructuralError::InvalidInterpreter(interpreter))
    } else {
        let (dictionary, grammar_theory) = poles_in(links, interpreter);
        let (grammar, theory) = poles_in(links, grammar_theory);
        Ok(StructuralInterpreter { dictionary, grammar, theory })
    }
}

} // verus!

verus! {

/// The values read back from a cell do not change when records are appended.
pub proof fn lemma_exact_cells_extends(links: Links, next: Links, cell: u32)
    requires
        links_wf(links),
        extends(links, next),
        cell == 1 || is_valid_in(links, cell),
    ensures
        exact_cells(next, cell) == exact_cells(links, cell),
    decreases cell,
{
    if cell != 1 {
        lemma_forms_extend(links, next, cell);
        lemma_poles_valid(links, cell);
        let (cs, ce) = poles_in(links, cell);
        lemma_forms_extend(links, next, ce);
        lemma_poles_valid(links, ce);
        let (previous, value) = poles_in(links, ce);
        if cs == cell && previous < cell {
            lemma_exact_cells_extends(links, next, previous);
        }
    }
}

/// Building an exact sequence keeps the store well-formed, only appends,
/// and yields a cell that reads back as exactly the values given.
pub proof fn lemma_materialize_builds(links: Links, limit: Option<usize>, values: Seq<u32>)
    requires
        links_wf(links),
    ensures
        ({
            let (r, next) = materialize_spec(links, limit, values);
            &&& links_wf(next)
            &&& extends(links, next)
            &&& (r matches Ok(cell) ==> (cell == 1 || is_valid_in(next, cell)) && exact_cells(
                next,
                cell,
            ) == Some(values))
        }),
    decreases values.len(),
{
    assert(links.subrange(0, links.len() as int) =~= links);
    if values.len() == 0 {
        assert(exact_cells(links, 1) == Some(Seq::<u32>::empty()));
        assert(values =~= Seq::<u32>::empty());
    } else {
        let (r1, l1) = materialize_spec(links, limit, values.drop_last());
        lemma_materialize_builds(links, limit, values.drop_last());
        if let Ok(current) = r1 {
            let value = values.last();
            if is_valid_in(l1, value) {
                let (rp, lp) = ensure_pair_spec(l1, limit, current, value);
                lemma_ensure_pair_spec(l1, limit, current, value);
                lemma_extends_trans(links, l1, lp);
                if let Ok(payload) = rp {
                    let (rc, lc) = ensure_start_spec(lp, limit, payload);
                    lemma_ensure_start_spec(lp, limit, payload);
                    lemma_extends_trans(links, lp, lc);
                    lemma_extends_trans(l1, lp, lc);
                    if let Ok(cell) = rc {
                        lemma_forms_extend(lp, lc, payload);
                        assert(poles_in(lc, payload) == (current, value));
                        assert(record_well_founded(lc, payload as int));
                        assert(record_well_founded(lc, cell as int));
                        lemma_exact_cells_extends(l1, lc, current);
                        assert(values.drop_last().push(value) =~= values);
                    }
                }
            }
        }
    }
}

pub proof fn lemma_role_check_sound(links: Links, roles: Seq<u32>)
    requires
        role_check(links, roles) is None,
    ensures
        roles.no_duplicates(),
        forall|i: int| 0 <= i < roles.len() ==> is_valid_in(links, #[trigger] roles[i]),
    decreases roles.len(),
{
    if roles.len() > 0 {
        let prefix = roles.drop_last();
        lemma_role_check_sound(links, prefix);
        assert(roles =~= prefix.push(roles.last()));
        assert forall|a: int, b: int|
            0 <= a < roles.len() && 0 <= b < roles.len() && a != b implies #[trigger] roles[a]
            != #[trigger] roles[b] by {
            if a == roles.len() - 1 {
                assert(prefix[b] == roles[b]);
            } else if b == roles.len() - 1 {
                assert(prefix[a] == roles[a]);
            } else {
                assert(prefix[a] == roles[a]);
                assert(prefix[b] == roles[b]);
            }
        }
        assert forall|i: int| 0 <= i < roles.len() implies is_valid_in(links, #[trigger] roles[i]) by {
            if i < roles.len() - 1 {
                assert(prefix[i] == roles[i]);
            }
        }
    }
}

/// Once an exact sequence has been built, building it again in that store or
/// any later well-formed state of it gives the same cell and allocates nothing.
pub proof fn lemma_materialize_stable(
    links: Links,
    limit: Option<usize>,
    values: Seq<u32>,
    later: Links,
    later_limit: Option<usize>,
)
    requires
        links_wf(links),
        materialize_spec(links, limit, values).0 is Ok,
        links_wf(later),
        extends(materialize_spec(links, limit, values).1, later),
    ensures
        materialize_spec(later, later_limit, values) == (materialize_spec(links, limit, values).0, later),
    decreases values.len(),
{
    if values.len() > 0 {
        let prefix = values.drop_last();
        let value = values.last();
        let (r1, l1) = materialize_spec(links, limit, prefix);
        lemma_materialize_builds(links, limit, prefix);
        let current = r1->Ok_0;
        let (rp, lp) = ensure_pair_spec(l1, limit, current, value);
        lemma_ensure_pair_spec(l1, limit, current, value);
        let payload = rp->Ok_0;
        let (rc, lc) = ensure_start_spec(lp, limit, payload);
        lemma_ensure_start_spec(lp, limit, payload);
        let cell = rc->Ok_0;
        lemma_extends_trans(lp, lc, later);
        lemma_extends_trans(l1, lp, later);
        lemma_materialize_stable(links, limit, prefix, later, later_limit);
        lemma_forms_extend(l1, later, value);
        lemma_ensure_pair_stable(lp, later, later_limit, payload, current, value);
        lemma_ensure_start_stable(lc, later, later_limit, cell, payload);
    }
}

/// Exact sequences are canonical: building a sequence again allocates
/// nothing; two sequences give the same cell exactly when they are equal;
/// the empty sequence is ROOT and any other one is a START self-closed cell.
pub proof fn law_exact_sequence_canonical(
    links: Links,
    limit: Option<usize>,
    values: Seq<u32>,
    later: Links,
    later_limit: Option<usize>,
    others: Seq<u32>,
)
    requires
        links_wf(links),
        materialize_spec(links, limit, values).0 is Ok,
        links_wf(later),
        extends(materialize_spec(links, limit, values).1, later),
    ensures
        materialize_spec(later, later_limit, values) == (materialize_spec(links, limit, values).0, later),
        materialize_spec(links, limit, values).0->Ok_0 == 1 <==> values.len() == 0,
        values.len() > 0 ==> poles_in(
            materialize_spec(links, limit, values).1,
            materialize_spec(links, limit, values).0->Ok_0,
        ).0 == materialize_spec(links, limit, values).0->Ok_0,
        materialize_spec(later, later_limit, others).0 matches Ok(other_cell) ==> (other_cell
            == materialize_spec(links, limit, values).0->Ok_0 <==> others == values),
{
    let (r, next) = materialize_spec(links, limit, values);
    let cell = r->Ok_0;
    lemma_materialize_builds(links, limit, values);
    lemma_materialize_stable(links, limit, values, later, later_limit);
    if values.len() > 0 {
        let prefix = values.drop_last();
        let (r1, l1) = materialize_spec(links, limit, prefix);
        lemma_materialize_builds(links, limit, prefix);
        let (rp, lp) = ensure_pair_spec(l1, limit, r1->Ok_0, values.last());
        lemma_ensure_pair_spec(l1, limit, r1->Ok_0, values.last());
        lemma_ensure_start_spec(lp, limit, rp->Ok_0);
        assert(next[1] == Some((1u32, 1u32)));
    }
    let (r2, l2) = materialize_spec(later, later_limit, others);
    if let Ok(other_cell) = r2 {
        lemma_materialize_builds(later, later_limit, others);
        if other_cell == cell {
            if cell != 1 {
                lemma_exact_cells_extends(next, later, cell);
                lemma_forms_extend(next, later, cell);
                lemma_exact_cells_extends(later, l2, cell);
            }
        }
        if others == values {
        }
    }
}

/// Exact sequences round-trip: the cell built for `values` reads back as
/// exactly `values`, in order.
pub proof fn law_exact_sequence_roundtrip(links: Links, limit: Option<usize>, values: Seq<u32>)
    requires
        links_wf(links),
        materialize_spec(links, limit, values).0 is Ok,
    ensures
        read_sequence_spec(
            materialize_spec(links, limit, values).1,
            materialize_spec(links, limit, values).0->Ok_0,
        ) == Ok::<Seq<u32>, StructuralError>(values),
{
    lemma_materialize_builds(links, limit, values);
}

/// Role dictionaries round-trip: a defined dictionary reads back as its roles.
pub proof fn law_role_dictionary_roundtrip(links: Links, limit: Option<usize>, roles: Seq<u32>)
    requires
        links_wf(links),
        define_dictionary_spec(links, limit, roles).0 is Ok,
    ensures
        read_dictionary_spec(
            define_dictionary_spec(links, limit, roles).1,
            define_dictionary_spec(links, limit, roles).0->Ok_0,
        ) == Ok::<Seq<u32>, StructuralError>(roles),
{
    lemma_role_check_sound(links, roles);
    let (rs, ls) = materialize_spec(links, limit, roles);
    lemma_materialize_builds(links, limit, roles);
    let sequence = rs->Ok_0;
    let (rd, ld) = ensure_start_spec(ls, limit, sequence);
    lemma_ensure_start_spec(ls, limit, sequence);
    if sequence != 1 {
        lemma_exact_cells_extends(ls, ld, sequence);
        lemma_forms_extend(ls, ld, sequence);
    }
}

/// Interpreters round-trip: a defined interpreter reads back as its
/// dictionary, grammar and theory.
pub proof fn law_interpreter_roundtrip(
    links: Links,
    limit: Option<usize>,
    dictionary: u32,
    grammar: u32,
    theory: u32,
)
    requires
        links_wf(links),
        define_interpreter_spec(links, limit, dictionary, grammar, theory).0 is Ok,
    ensures
        read_interpreter_spec(
            define_interpreter_spec(links, limit, dictionary, grammar, theory).1,
            define_interpreter_spec(links, limit, dictionary, grammar, theory).0->Ok_0,
        ) == Ok::<StructuralInterpreter, StructuralError>(
            StructuralInterpreter { dictionary, grammar, theory },
        ),
{
    let (r1, l1) = ensure_pair_spec(links, limit, grammar, theory);
    lemma_ensure_pair_spec(links, limit, grammar, theory);
    let gt = r1->Ok_0;
    let (r2, l2) = ensure_pair_spec(l1, limit, dictionary, gt);
    lemma_ensure_pair_spec(l1, limit, dictionary, gt);
    lemma_forms_extend(l1, l2, gt);
}

} // verus!

verus! {

/// `node` structurally contains a role: it is one, or one of its poles
/// other than itself contains one.
pub open spec fn reaches_role(links: Links, roles: Set<u32>, node: u32) -> bool
    decreases node,
{
    ||| roles.contains(node)
    ||| (is_valid_in(links, node) && {
        let (s, e) = poles_in(links, node);
        ||| (s < node && reaches_role(links, roles, s))
        ||| (e < node && reaches_role(links, roles, e))
    })
}

/// Structural unification of a rule template against a claimed Link:
/// roles bind to what they meet (consistently), role-free parts must be
/// identical, and every other position must have the same self-incidence
/// shape on both sides.
pub open spec fn unify_spec(
    links: Links,
    roles: Set<u32>,
    template: u32,
    claimed: u32,
    inferred: Map<u32, u32>,
) -> Result<Map<u32, u32>, StructuralError>
    decreases template,
{
    if roles.contains(template) {
        if inferred.contains_key(template) {
            if inferred[template] != claimed {
                Err(StructuralError::TemplateMismatch)
            } else {
                Ok(inferred)
            }
        } else {
            Ok(inferred.insert(template, claimed))
        }
    } else if !is_valid_in(links, template) {
        Err(StructuralError::Store(StoreError::UnknownHandle(template)))
    } else if !reaches_role(links, roles, template) {
        if template != claimed {
            Err(StructuralError::TemplateMismatch)
        } else {
            Ok(inferred)
        }
    } else if !is_valid_in(links, claimed) {
        Err(StructuralError::Store(StoreError::UnknownHandle(claimed)))
    } else {
        let (ts, te) = poles_in(links, template);
        let (cs, ce) = poles_in(links, claimed);
        if (ts == template) != (cs == claimed) || (te == template) != (ce == claimed) {
            Err(StructuralError::TemplateMismatch)
        } else {
            let first = if ts < template {
                unify_spec(links, roles, ts, cs, inferred)
            } else {
                Ok(inferred)
            };
            match first {
                Err(e) => Err(e),
                Ok(m1) => if te < template {
                    unify_spec(links, roles, te, ce, m1)
                } else {
                    Ok(m1)
                },
            }
        }
    }
}

/// Unifying `template` with `claimed` under `inferred` succeeds and adds nothing.
pub open spec fn unify_settled(
    links: Links,
    roles: Set<u32>,
    template: u32,
    claimed: u32,
    inferred: Map<u32, u32>,
) -> bool {
    unify_spec(links, roles, template, claimed, inferred) == Ok::<Map<u32, u32>, StructuralError>(
        inferred,
    )
}

pub proof fn lemma_unify_grows(
    links: Links,
    roles: Set<u32>,
    template: u32,
    claimed: u32,
    inferred: Map<u32, u32>,
)
    ensures
        unify_spec(links, roles, template, claimed, inferred) matches Ok(m) ==> inferred.submap_of(m),
    decreases template,
{
    if roles.contains(template) {
        if !inferred.contains_key(template) {
            assert(inferred.submap_of(inferred.insert(template, claimed)));
        }
    } else if is_valid_in(links, template) && reaches_role(links, roles, template) && is_valid_in(
        links,
        claimed,
    ) {
        let (ts, te) = poles_in(links, template);
        let (cs, ce) = poles_in(links, claimed);
        if ts < template {
            lemma_unify_grows(links, roles, ts, cs, inferred);
        }
        let first = if ts < template {
            unify_spec(links, roles, ts, cs, inferred)
        } else {
            Ok(inferred)
        };
        if let Ok(m1) = first {
            if te < template {
                lemma_unify_grows(links, roles, te, ce, m1);
                if let Ok(m2) = unify_spec(links, roles, te, ce, m1) {
                    lemma_submap_trans(inferred, m1, m2);
                }
            }
        }
    }
}

pub proof fn lemma_submap_trans(a: Map<u32, u32>, b: Map<u32, u32>, c: Map<u32, u32>)
    requires
        a.submap_of(b),
        b.submap_of(c),
    ensures
        a.submap_of(c),
{
    assert forall|k: u32| #[trigger] a.dom().contains(k) implies c.dom().contains(k) && a[k] == c[k] by {
        assert(b.dom().contains(k));
    }
}

pub proof fn lemma_submap_antisym(a: Map<u32, u32>, b: Map<u32, u32>)
    requires
        a.submap_of(b),
        b.submap_of(a),
    ensures
        a == b,
{
    assert(a.dom() =~= b.dom());
    assert forall|k: u32| #[trigger] a.dom().contains(k) implies a[k] == b[k] by {}
    assert(a =~= b);
}

/// A settled unification stays settled when more bindings are known.
pub proof fn lemma_unify_settled_extends(
    links: Links,
    roles: Set<u32>,
    template: u32,
    claimed: u32,
    inferred: Map<u32, u32>,
    more: Map<u32, u32>,
)
    requires
        unify_settled(links, roles, template, claimed, inferred),
        inferred.submap_of(more),
    ensures
        unify_settled(links, roles, template, claimed, more),
    decreases template,
{
    if roles.contains(template) {
        if !inferred.contains_key(template) {
            assert(inferred.insert(template, claimed).contains_key(template));
        }
    } else if is_valid_in(links, template) && reaches_role(links, roles, template) && is_valid_in(
        links,
        claimed,
    ) {
        let (ts, te) = poles_in(links, template);
        let (cs, ce) = poles_in(links, claimed);
        let first = if ts < template {
            unify_spec(links, roles, ts, cs, inferred)
        } else {
            Ok(inferred)
        };
        if ts < template {
            lemma_unify_grows(links, roles, ts, cs, inferred);
        }
        let m1 = first->Ok_0;
        if te < template {
            lemma_unify_grows(links, roles, te, ce, m1);
        }
        if te < template {
            lemma_submap_antisym(m1, inferred);
        } else {
            assert(m1 == inferred);
        }
        if ts < template {
            lemma_unify_settled_extends(links, roles, ts, cs, inferred, more);
        }
        if te < template {
            lemma_unify_settled_extends(links, roles, te, ce, inferred, more);
        }
    }
}

/// A successful unification is settled under the bindings it produced.
pub proof fn lemma_unify_settles(
    links: Links,
    roles: Set<u32>,
    template: u32,
    claimed: u32,
    inferred: Map<u32, u32>,
)
    requires
        unify_spec(links, roles, template, claimed, inferred) is Ok,
    ensures
        unify_settled(
            links,
            roles,
            template,
            claimed,
            unify_spec(links, roles, template, claimed, inferred)->Ok_0,
        ),
    decreases template,
{
    let out = unify_spec(links, roles, template, claimed, inferred)->Ok_0;
    if roles.contains(template) {
    } else if is_valid_in(links, template) && reaches_role(links, roles, template) {
        let (ts, te) = poles_in(links, template);
        let (cs, ce) = poles_in(links, claimed);
        let first = if ts < template {
            unify_spec(links, roles, ts, cs, inferred)
        } else {
            Ok(inferred)
        };
        let m1 = first->Ok_0;
        if te < template {
            lemma_unify_settles(links, roles, te, ce, m1);
            lemma_unify_grows(links, roles, te, ce, m1);
        }
        if ts < template {
            lemma_unify_settles(links, roles, ts, cs, inferred);
            lemma_unify_settled_extends(links, roles, ts, cs, m1, out);
        }
    }
}

} // verus!

verus! {

/// The bindings of `roles`, in role order, read from the unifier's result.
pub open spec fn bindings_spec(roles: Seq<u32>, inferred: Map<u32, u32>) -> Result<
    Seq<StructuralRoleBinding>,
    StructuralError,
>
    decreases roles.len(),
{
    if roles.len() == 0 {
        Ok(Seq::empty())
    } else {
        match bindings_spec(roles.drop_last(), inferred) {
            Err(e) => Err(e),
            Ok(bindings) => {
                let role = roles.last();
                if inferred.contains_key(role) {
                    Ok(bindings.push(StructuralRoleBinding { role, value: inferred[role] }))
                } else {
                    Err(StructuralError::MissingRoleBinding(role))
                }
            },
        }
    }
}

/// Unifying a rule template with a claimed Link, reported per role.
pub open spec fn unify_template_spec(links: Links, template: u32, claimed: u32, roles: Seq<u32>) -> Result<
    Seq<StructuralRoleBinding>,
    StructuralError,
> {
    if !roles.no_duplicates() {
        Err(StructuralError::DuplicateRole)
    } else {
        match unify_spec(links, roles.to_set(), template, claimed, Map::empty()) {
            Err(e) => Err(e),
            Ok(inferred) => bindings_spec(roles, inferred),
        }
    }
}

pub proof fn lemma_bindings_error_propagates(roles: Seq<u32>, inferred: Map<u32, u32>, j: int)
    requires
        0 <= j <= roles.len(),
        bindings_spec(roles.subrange(0, j), inferred) is Err,
    ensures
        bindings_spec(roles, inferred) == bindings_spec(roles.subrange(0, j), inferred),
    decreases roles.len() - j,
{
    if j < roles.len() {
        assert(roles.drop_last().subrange(0, j) =~= roles.subrange(0, j));
        lemma_bindings_error_propagates(roles.drop_last(), inferred, j);
    } else {
        assert(roles.subrange(0, j) =~= roles);
    }
}

} // verus!

verus! {

pub open spec fn lift_store(r: (Result<u32, StoreError>, Links)) -> (Result<u32, StructuralError>, Links) {
    match r.0 {
        Ok(h) => (Ok(h), r.1),
        Err(e) => (Err(StructuralError::Store(e)), r.1),
    }
}

/// Instantiating a template: every bound role is replaced by its value and
/// the rest is rebuilt canonically, preserving self-incidence shape.
pub open spec fn instantiate_spec(
    links: Links,
    limit: Option<usize>,
    bindings: Map<u32, u32>,
    source: u32,
) -> (Result<u32, StructuralError>, Links)
    decreases source,
{
    if bindings.contains_key(source) {
        (Ok(bindings[source]), links)
    } else if !is_valid_in(links, source) {
        (Err(StructuralError::Store(StoreError::UnknownHandle(source))), links)
    } else {
        let (s, e) = poles_in(links, source);
        if s == source && e == source {
            (Ok(1u32), links)
        } else if s == source {
            if e < source {
                let (r, l1) = instantiate_spec(links, limit, bindings, e);
                match r {
                    Err(x) => (Err(x), l1),
                    Ok(child) => lift_store(ensure_start_spec(l1, limit, child)),
                }
            } else {
                (Err(StructuralError::UnsupportedCycle(source)), links)
            }
        } else if e == source {
            if s < source {
                let (r, l1) = instantiate_spec(links, limit, bindings, s);
                match r {
                    Err(x) => (Err(x), l1),
                    Ok(child) => lift_store(ensure_end_spec(l1, limit, child)),
                }
            } else {
                (Err(StructuralError::UnsupportedCycle(source)), links)
            }
        } else if s < source && e < source {
            let (r1, l1) = instantiate_spec(links, limit, bindings, s);
            match r1 {
                Err(x) => (Err(x), l1),
                Ok(new_start) => {
                    let (r2, l2) = instantiate_spec(l1, limit, bindings, e);
                    match r2 {
                        Err(x) => (Err(x), l2),
                        Ok(new_end) => lift_store(ensure_pair_spec(l2, limit, new_start, new_end)),
                    }
                },
            }
        } else {
            (Err(StructuralError::UnsupportedCycle(source)), links)
        }
    }
}

/// The role-to-value map of a binding list; a role bound twice must be bound
/// to the same value.
pub open spec fn binding_map_spec(bindings: Seq<StructuralRoleBinding>) -> Result<
    Map<u32, u32>,
    StructuralError,
>
    decreases bindings.len(),
{
    if bindings.len() == 0 {
        Ok(Map::empty())
    } else {
        match binding_map_spec(bindings.drop_last()) {
            Err(e) => Err(e),
            Ok(m) => {
                let b = bindings.last();
                if m.contains_key(b.role) && m[b.role] != b.value {
                    Err(StructuralError::TemplateMismatch)
                } else {
                    Ok(m.insert(b.role, b.value))
                }
            },
        }
    }
}

/// Instantiating a template under a binding list.
pub open spec fn instantiate_template_spec(
    links: Links,
    limit: Option<usize>,
    template: u32,
    bindings: Seq<StructuralRoleBinding>,
) -> (Result<u32, StructuralError>, Links) {
    match binding_map_spec(bindings) {
        Err(e) => (Err(e), links),
        Ok(m) => instantiate_spec(links, limit, m, template),
    }
}

pub proof fn lemma_binding_map_error_propagates(bindings: Seq<StructuralRoleBinding>, j: int)
    requires
        0 <= j <= bindings.len(),
        binding_map_spec(bindings.subrange(0, j)) is Err,
    ensures
        binding_map_spec(bindings) == binding_map_spec(bindings.subrange(0, j)),
    decreases bindings.len() - j,
{
    if j < bindings.len() {
        assert(bindings.drop_last().subrange(0, j) =~= bindings.subrange(0, j));
        lemma_binding_map_error_propagates(bindings.drop_last(), j);
    } else {
        assert(bindings.subrange(0, j) =~= bindings);
    }
}

/// Instantiation keeps the store well-formed and only appends; a result is
/// a valid Link unless it is a bound value.
pub proof fn lemma_instantiate_builds(
    links: Links,
    limit: Option<usize>,
    bindings: Map<u32, u32>,
    source: u32,
)
    requires
        links_wf(links),
    ensures
        links_wf(instantiate_spec(links, limit, bindings, source).1),
        extends(links, instantiate_spec(links, limit, bindings, source).1),
    decreases source,
{
    assert(links.subrange(0, links.len() as int) =~= links);
    if !bindings.contains_key(source) && is_valid_in(links, source) {
        let (s, e) = poles_in(links, source);
        if s == source && e == source {
        } else if s == source && e < source {
            let (r, l1) = instantiate_spec(links, limit, bindings, e);
            lemma_instantiate_builds(links, limit, bindings, e);
            if let Ok(child) = r {
                lemma_ensure_start_spec(l1, limit, child);
                lemma_extends_trans(links, l1, ensure_start_spec(l1, limit, child).1);
            }
        } else if e == source && s < source {
            let (r, l1) = instantiate_spec(links, limit, bindings, s);
            lemma_instantiate_builds(links, limit, bindings, s);
            if let Ok(child) = r {
                lemma_ensure_end_spec(l1, limit, child);
                lemma_extends_trans(links, l1, ensure_end_spec(l1, limit, child).1);
            }
        } else if s != source && e != source && s < source && e < source {
            let (r1, l1) = instantiate_spec(links, limit, bindings, s);
            lemma_instantiate_builds(links, limit, bindings, s);
            if let Ok(new_start) = r1 {
                let (r2, l2) = instantiate_spec(l1, limit, bindings, e);
                lemma_instantiate_builds(l1, limit, bindings, e);
                lemma_extends_trans(links, l1, l2);
                if let Ok(new_end) = r2 {
                    lemma_ensure_pair_spec(l2, limit, new_start, new_end);
                    lemma_extends_trans(links, l2, ensure_pair_spec(l2, limit, new_start, new_end).1);
                }
            }
        }
    }
}

/// Once a template position has been instantiated, instantiating it again
/// in any later well-formed store gives the same Link and changes nothing.
pub proof fn lemma_instantiate_stable(
    links: Links,
    limit: Option<usize>,
    bindings: Map<u32, u32>,
    source: u32,
    later: Links,
    later_limit: Option<usize>,
)
    requires
        links_wf(links),
        instantiate_spec(links, limit, bindings, source).0 is Ok,
        links_wf(later),
        extends(instantiate_spec(links, limit, bindings, source).1, later),
    ensures
        instantiate_spec(later, later_limit, bindings, source) == (
            instantiate_spec(links, limit, bindings, source).0,
            later,
        ),
    decreases source,
{
    let (r, next) = instantiate_spec(links, limit, bindings, source);
    lemma_instantiate_builds(links, limit, bindings, source);
    if !bindings.contains_key(source) {
        lemma_extends_trans(links, next, later);
        lemma_forms_extend(links, later, source);
        lemma_poles_valid(links, source);
        let (s, e) = poles_in(links, source);
        if s == source && e == source {
        } else if s == source {
            let (r1, l1) = instantiate_spec(links, limit, bindings, e);
            lemma_instantiate_builds(links, limit, bindings, e);
            let c = r1->Ok_0;
            lemma_ensure_start_spec(l1, limit, c);
            lemma_extends_trans(l1, next, later);
            lemma_instantiate_stable(links, limit, bindings, e, later, later_limit);
            lemma_ensure_start_stable(next, later, later_limit, r->Ok_0, c);
        } else if e == source {
            let (r1, l1) = instantiate_spec(links, limit, bindings, s);
            lemma_instantiate_builds(links, limit, bindings, s);
            let c = r1->Ok_0;
            lemma_ensure_end_spec(l1, limit, c);
            lemma_extends_trans(l1, next, later);
            lemma_instantiate_stable(links, limit, bindings, s, later, later_limit);
            lemma_ensure_end_stable(next, later, later_limit, r->Ok_0, c);
        } else {
            let (r1, l1) = instantiate_spec(links, limit, bindings, s);
            lemma_instantiate_builds(links, limit, bindings, s);
            let a = r1->Ok_0;
            let (r2, l2) = instantiate_spec(l1, limit, bindings, e);
            lemma_instantiate_builds(l1, limit, bindings, e);
            let b = r2->Ok_0;
            lemma_ensure_pair_spec(l2, limit, a, b);
            lemma_extends_trans(l2, next, later);
            lemma_extends_trans(l1, l2, later);
            lemma_extends_trans(links, l1, l2);
            lemma_forms_extend(links, l1, e);
            lemma_instantiate_stable(links, limit, bindings, s, later, later_limit);
            lemma_instantiate_stable(l1, limit, bindings, e, later, later_limit);
            lemma_ensure_pair_stable(next, later, later_limit, r->Ok_0, a, b);
        }
    }
}


/// Unification only binds roles (beyond what was already inferred).
pub proof fn lemma_unify_keys(
    links: Links,
    roles: Set<u32>,
    template: u32,
    claimed: u32,
    inferred: Map<u32, u32>,
)
    ensures
        unify_spec(links, roles, template, claimed, inferred) matches Ok(m) ==> forall|k: u32|
            #[trigger] m.dom().contains(k) ==> inferred.dom().contains(k) || roles.contains(k),
    decreases template,
{
    if !roles.contains(template) && is_valid_in(links, template) && reaches_role(
        links,
        roles,
        template,
    ) && is_valid_in(links, claimed) {
        let (ts, te) = poles_in(links, template);
        let (cs, ce) = poles_in(links, claimed);
        if ts < template {
            lemma_unify_keys(links, roles, ts, cs, inferred);
        }
        let first = if ts < template {
            unify_spec(links, roles, ts, cs, inferred)
        } else {
            Ok(inferred)
        };
        if let Ok(m1) = first {
            if te < template {
                lemma_unify_keys(links, roles, te, ce, m1);
            }
        }
    }
}

/// A role-free part of a template instantiates to itself when only roles
/// are bound, and nothing is allocated.
pub proof fn lemma_role_free_instantiates(
    links: Links,
    limit: Option<usize>,
    roles: Set<u32>,
    bindings: Map<u32, u32>,
    node: u32,
)
    requires
        links_wf(links),
        is_valid_in(links, node),
        !reaches_role(links, roles, node),
        forall|k: u32| #[trigger] bindings.dom().contains(k) ==> roles.contains(k),
    ensures
        instantiate_spec(links, limit, bindings, node) == (Ok::<u32, StructuralError>(node), links),
    decreases node,
{
    assert(links.subrange(0, links.len() as int) =~= links);
    assert(extends(links, links));
    lemma_poles_valid(links, node);
    let (s, e) = poles_in(links, node);
    if s == node && e == node {
        if node != 1 {
            assert(record_well_founded(links, node as int));
        }
    } else if s == node {
        lemma_role_free_instantiates(links, limit, roles, bindings, e);
        lemma_ensure_start_stable(links, links, limit, node, e);
    } else if e == node {
        lemma_role_free_instantiates(links, limit, roles, bindings, s);
        lemma_ensure_end_stable(links, links, limit, node, s);
    } else {
        if node >= 2 {
            assert(record_well_founded(links, node as int));
        }
        lemma_role_free_instantiates(links, limit, roles, bindings, s);
        lemma_role_free_instantiates(links, limit, roles, bindings, e);
        lemma_ensure_pair_stable(links, links, limit, node, s, e);
    }
}

/// Matching is sound: when a template unifies with a claimed Link, the
/// template instantiated under any roles-only extension of the bindings
/// found rebuilds exactly the claimed Link, allocating nothing.
pub proof fn lemma_unify_instantiates(
    links: Links,
    limit: Option<usize>,
    roles: Set<u32>,
    template: u32,
    claimed: u32,
    inferred: Map<u32, u32>,
    bindings: Map<u32, u32>,
)
    requires
        links_wf(links),
        unify_spec(links, roles, template, claimed, inferred) is Ok,
        unify_spec(links, roles, template, claimed, inferred)->Ok_0.submap_of(bindings),
        forall|k: u32| #[trigger] bindings.dom().contains(k) ==> roles.contains(k),
    ensures
        instantiate_spec(links, limit, bindings, template) == (
            Ok::<u32, StructuralError>(claimed),
            links,
        ),
    decreases template,
{
    let m = unify_spec(links, roles, template, claimed, inferred)->Ok_0;
    assert(links.subrange(0, links.len() as int) =~= links);
    assert(extends(links, links));
    if roles.contains(template) {
        assert(m.dom().contains(template));
        assert(bindings.dom().contains(template));
    } else if !reaches_role(links, roles, template) {
        lemma_role_free_instantiates(links, limit, roles, bindings, template);
    } else {
        lemma_poles_valid(links, template);
        lemma_poles_valid(links, claimed);
        let (ts, te) = poles_in(links, template);
        let (cs, ce) = poles_in(links, claimed);
        let first = if ts < template {
            unify_spec(links, roles, ts, cs, inferred)
        } else {
            Ok(inferred)
        };
        let m1 = first->Ok_0;
        if te < template {
            lemma_unify_grows(links, roles, te, ce, m1);
            lemma_submap_trans(m1, m, bindings);
        } else {
            assert(m1 == m);
        }
        if ts < template {
            lemma_unify_instantiates(links, limit, roles, ts, cs, inferred, bindings);
        }
        if te < template {
            lemma_unify_instantiates(links, limit, roles, te, ce, m1, bindings);
        }
        if ts == template && te == template {
            assert(!reaches_role(links, roles, template));
        } else if ts == template {
            if claimed >= 2 {
                assert(record_well_founded(links, claimed as int));
            }
            lemma_ensure_start_stable(links, links, limit, claimed, ce);
        } else if te == template {
            if claimed >= 2 {
                assert(record_well_founded(links, claimed as int));
            }
            lemma_ensure_end_stable(links, links, limit, claimed, cs);
        } else {
            if template >= 2 {
                assert(record_well_founded(links, template as int));
            }
            lemma_ensure_pair_stable(links, links, limit, claimed, cs, ce);
        }
    }
}


/// The binding list read out for distinct roles maps each role to its
/// inferred value, and nothing else.
pub proof fn lemma_bindings_map(roles: Seq<u32>, inferred: Map<u32, u32>)
    requires
        roles.no_duplicates(),
        bindings_spec(roles, inferred) is Ok,
    ensures
        binding_map_spec(bindings_spec(roles, inferred)->Ok_0) is Ok,
        forall|k: u32| #[trigger]
            binding_map_spec(bindings_spec(roles, inferred)->Ok_0)->Ok_0.dom().contains(k)
                <==> roles.contains(k),
        forall|k: u32| #[trigger]
            binding_map_spec(bindings_spec(roles, inferred)->Ok_0)->Ok_0.dom().contains(k)
                ==> inferred.dom().contains(k) && binding_map_spec(
                bindings_spec(roles, inferred)->Ok_0,
            )->Ok_0[k] == inferred[k],
    decreases roles.len(),
{
    if roles.len() > 0 {
        let prefix = roles.drop_last();
        let role = roles.last();
        assert(prefix.no_duplicates()) by {
            assert forall|a: int, b: int| 0 <= a < prefix.len() && 0 <= b < prefix.len() && a != b
                implies #[trigger] prefix[a] != #[trigger] prefix[b] by {
                assert(prefix[a] == roles[a] && prefix[b] == roles[b]);
            }
        }
        lemma_bindings_map(prefix, inferred);
        let previous = bindings_spec(prefix, inferred)->Ok_0;
        let bs = bindings_spec(roles, inferred)->Ok_0;
        assert(bs.drop_last() =~= previous);
        let m = binding_map_spec(previous)->Ok_0;
        assert(!prefix.contains(role)) by {
            if prefix.contains(role) {
                let i = choose|i: int| 0 <= i < prefix.len() && prefix[i] == role;
                assert(roles[i] == roles[roles.len() - 1]);
            }
        }
        assert(!m.dom().contains(role));
        assert forall|k: u32| roles.contains(k) <==> prefix.contains(k) || k == role by {
            if roles.contains(k) && k != role {
                let i = choose|i: int| 0 <= i < roles.len() && roles[i] == k;
                assert(prefix[i] == k);
            }
            if prefix.contains(k) {
                let i = choose|i: int| 0 <= i < prefix.len() && prefix[i] == k;
                assert(roles[i] == k);
            }
            if k == role {
                assert(roles[roles.len() - 1] == k);
            }
        }
    }
}

/// Matching is sound: when a rule template unifies with a claimed Link,
/// instantiating the template with the role bindings found rebuilds exactly
/// that Link, and the store is left as it was.
pub proof fn law_match_instantiates_claim(
    links: Links,
    limit: Option<usize>,
    template: u32,
    claimed: u32,
    roles: Seq<u32>,
)
    requires
        links_wf(links),
        unify_template_spec(links, template, claimed, roles) is Ok,
    ensures
        instantiate_template_spec(
            links,
            limit,
            template,
            unify_template_spec(links, template, claimed, roles)->Ok_0,
        ) == (Ok::<u32, StructuralError>(claimed), links),
{
    let role_set = roles.to_set();
    let inferred = unify_spec(links, role_set, template, claimed, Map::empty())->Ok_0;
    lemma_bindings_map(roles, inferred);
    lemma_unify_keys(links, role_set, template, claimed, Map::empty());
    let m = binding_map_spec(bindings_spec(roles, inferred)->Ok_0)->Ok_0;
    assert forall|k: u32| #[trigger] m.dom().contains(k) implies role_set.contains(k) by {
        assert(roles.contains(k));
    }
    assert forall|k: u32| #[trigger] inferred.dom().contains(k) implies m.dom().contains(k) && inferred[k]
        == m[k] by {
        assert(role_set.contains(k));
        assert(roles.contains(k));
    }
    assert(inferred.submap_of(m));
    lemma_unify_instantiates(links, limit, role_set, template, claimed, Map::empty(), m);
}

} // verus!

verus! {

/// A discovered rule image: the output bundle template and the role bindings.
pub type ImageView = (u32, Seq<StructuralRoleBinding>);

/// What one trigger Link contributes for `active` under `theory`: the rule
/// it leads to must be admitted by `theory`, its dictionary must read back,
/// and its `before` template must unify with `active`.
pub open spec fn image_of(links: Links, theory: u32, active: u32, trigger_key: u32, trigger: u32) -> Option<
    ImageView,
> {
    if trigger == trigger_key || !is_valid_in(links, trigger) {
        None
    } else {
        let (trigger_start, admission) = poles_in(links, trigger);
        if trigger_start != trigger_key || !is_valid_in(links, admission) {
            None
        } else {
            let (admission_theory, rule) = poles_in(links, admission);
            if admission_theory != theory || rule == admission || !is_valid_in(links, rule) {
                None
            } else {
                let (role_dictionary, body) = poles_in(links, rule);
                match read_dictionary_spec(links, role_dictionary) {
                    Err(_) => None,
                    Ok(roles) => if !is_valid_in(links, body) {
                        None
                    } else {
                        let (before, output_bundle_template) = poles_in(links, body);
                        match unify_template_spec(links, before, active, roles) {
                            Err(_) => None,
                            Ok(bindings) => Some((output_bundle_template, bindings)),
                        }
                    },
                }
            }
        }
    }
}

/// The images contributed by `triggers`, in order.
pub open spec fn images_from(
    links: Links,
    theory: u32,
    active: u32,
    trigger_key: u32,
    triggers: Seq<u32>,
) -> Seq<ImageView>
    decreases triggers.len(),
{
    if triggers.len() == 0 {
        Seq::empty()
    } else {
        let prefix = images_from(links, theory, active, trigger_key, triggers.drop_last());
        match image_of(links, theory, active, trigger_key, triggers.last()) {
            Some(image) => prefix.push(image),
            None => prefix,
        }
    }
}

/// The rule images triggered by `active`: its trigger key is the START pole
/// of its END pole, and every Link starting at that key is a candidate.
pub open spec fn discover_spec(links: Links, theory: u32, active: u32) -> Result<
    Seq<ImageView>,
    StructuralError,
> {
    if !is_valid_in(links, active) {
        Err(StructuralError::Store(StoreError::UnknownHandle(active)))
    } else {
        let endpoint = poles_in(links, active).1;
        let trigger_key = poles_in(links, endpoint).0;
        Ok(
            images_from(
                links,
                theory,
                active,
                trigger_key,
                start_incidence_of(links, trigger_key),
            ),
        )
    }
}

} // verus!

verus! {

/// Adding one Link to the next scope: duplicates are dropped, and a new
/// member beyond the capacity is refused.
pub open spec fn add_next_spec(next: Seq<u32>, link: u32, cap: usize) -> Result<
    Seq<u32>,
    StructuralError,
> {
    if next.contains(link) {
        Ok(next)
    } else if next.len() >= cap {
        Err(StructuralError::ScopeCapacity { requested: vstd::wrapping::usize_specs::wrapping_add(next.len() as usize, 1usize), cap })
    } else {
        Ok(next.push(link))
    }
}

/// Adding Links to the next scope, in order.
pub open spec fn add_all_spec(next: Seq<u32>, links_to_add: Seq<u32>, cap: usize) -> Result<
    Seq<u32>,
    StructuralError,
>
    decreases links_to_add.len(),
{
    if links_to_add.len() == 0 {
        Ok(next)
    } else {
        match add_all_spec(next, links_to_add.drop_last(), cap) {
            Err(e) => Err(e),
            Ok(n) => add_next_spec(n, links_to_add.last(), cap),
        }
    }
}

/// Applying the discovered images of one member: each is counted, grounded
/// by instantiation, and its output sequence is added to the next scope.
pub open spec fn apply_images_spec(
    links: Links,
    limit: Option<usize>,
    images: Seq<ImageView>,
    next: Seq<u32>,
    raw: u32,
    cap: usize,
) -> (Result<(Seq<u32>, u32), StructuralError>, Links)
    decreases images.len(),
{
    if images.len() == 0 {
        (Ok((next, raw)), links)
    } else {
        let (r, l1) = apply_images_spec(links, limit, images.drop_last(), next, raw, cap);
        match r {
            Err(e) => (Err(e), l1),
            Ok((n1, raw1)) => {
                let image = images.last();
                let raw2 = raw1.saturating_add(1);
                let (g, l2) = instantiate_template_spec(l1, limit, image.0, image.1);
                match g {
                    Err(e) => (Err(e), l2),
                    Ok(bundle) => match read_sequence_spec(l2, bundle) {
                        Err(e) => (Err(e), l2),
                        Ok(outputs) => match add_all_spec(n1, outputs, cap) {
                            Err(e) => (Err(e), l2),
                            Ok(n2) => (Ok((n2, raw2)), l2),
                        },
                    },
                }
            },
        }
    }
}

/// Reacting one current member: without images it carries over unchanged;
/// otherwise it is replaced by the outputs of all its images.
pub open spec fn react_member_spec(
    links: Links,
    limit: Option<usize>,
    theory: u32,
    active: u32,
    state: (Seq<u32>, u32, u32),
    cap: usize,
) -> (Result<(Seq<u32>, u32, u32), StructuralError>, Links) {
    let (next, raw, transitioned) = state;
    match discover_spec(links, theory, active) {
        Err(e) => (Err(e), links),
        Ok(images) => if images.len() == 0 {
            match add_next_spec(next, active, cap) {
                Err(e) => (Err(e), links),
                Ok(n) => (Ok((n, raw, transitioned)), links),
            }
        } else {
            let (r, l1) = apply_images_spec(links, limit, images, next, raw, cap);
            match r {
                Err(e) => (Err(e), l1),
                Ok((n, raw2)) => (Ok((n, raw2, transitioned.saturating_add(1))), l1),
            }
        },
    }
}

/// Reacting every current member in order: the next scope, the number of
/// rule matches and the number of members that transitioned.
pub open spec fn react_members_spec(
    links: Links,
    limit: Option<usize>,
    theory: u32,
    members: Seq<u32>,
    cap: usize,
) -> (Result<(Seq<u32>, u32, u32), StructuralError>, Links)
    decreases members.len(),
{
    if members.len() == 0 {
        (Ok((Seq::empty(), 0u32, 0u32)), links)
    } else {
        let (r, l1) = react_members_spec(links, limit, theory, members.drop_last(), cap);
        match r {
            Err(e) => (Err(e), l1),
            Ok(state) => react_member_spec(l1, limit, theory, members.last(), state, cap),
        }
    }
}

/// The scope a member list normalizes to: known Links, first occurrence kept.
pub open spec fn normalize_spec(links: Links, members: Seq<u32>) -> Result<
    Seq<u32>,
    StructuralError,
>
    decreases members.len(),
{
    if members.len() == 0 {
        Ok(Seq::empty())
    } else {
        match normalize_spec(links, members.drop_last()) {
            Err(e) => Err(e),
            Ok(n) => {
                let m = members.last();
                if !is_valid_in(links, m) {
                    Err(StructuralError::Store(StoreError::UnknownHandle(m)))
                } else if n.contains(m) {
                    Ok(n)
                } else {
                    Ok(n.push(m))
                }
            },
        }
    }
}

pub proof fn lemma_add_all_error_propagates(next: Seq<u32>, outputs: Seq<u32>, cap: usize, j: int)
    requires
        0 <= j <= outputs.len(),
        add_all_spec(next, outputs.subrange(0, j), cap) is Err,
    ensures
        add_all_spec(next, outputs, cap) == add_all_spec(next, outputs.subrange(0, j), cap),
    decreases outputs.len() - j,
{
    if j < outputs.len() {
        assert(outputs.drop_last().subrange(0, j) =~= outputs.subrange(0, j));
        lemma_add_all_error_propagates(next, outputs.drop_last(), cap, j);
    } else {
        assert(outputs.subrange(0, j) =~= outputs);
    }
}

pub proof fn lemma_apply_images_error_propagates(
    links: Links,
    limit: Option<usize>,
    images: Seq<ImageView>,
    next: Seq<u32>,
    raw: u32,
    cap: usize,
    j: int,
)
    requires
        0 <= j <= images.len(),
        apply_images_spec(links, limit, images.subrange(0, j), next, raw, cap).0 is Err,
    ensures
        apply_images_spec(links, limit, images, next, raw, cap) == apply_images_spec(
            links,
            limit,
            images.subrange(0, j),
            next,
            raw,
            cap,
        ),
    decreases images.len() - j,
{
    if j < images.len() {
        assert(images.drop_last().subrange(0, j) =~= images.subrange(0, j));
        lemma_apply_images_error_propagates(links, limit, images.drop_last(), next, raw, cap, j);
    } else {
        assert(images.subrange(0, j) =~= images);
    }
}

pub proof fn lemma_react_members_error_propagates(
    links: Links,
    limit: Option<usize>,
    theory: u32,
    members: Seq<u32>,
    cap: usize,
    j: int,
)
    requires
        0 <= j <= members.len(),
        react_members_spec(links, limit, theory, members.subrange(0, j), cap).0 is Err,
    ensures
        react_members_spec(links, limit, theory, members, cap) == react_members_spec(
            links,
            limit,
            theory,
            members.subrange(0, j),
            cap,
        ),
    decreases members.len() - j,
{
    if j < members.len() {
        assert(members.drop_last().subrange(0, j) =~= members.subrange(0, j));
        lemma_react_members_error_propagates(links, limit, theory, members.drop_last(), cap, j);
    } else {
        assert(members.subrange(0, j) =~= members);
    }
}

pub proof fn lemma_normalize_error_propagates(links: Links, members: Seq<u32>, j: int)
    requires
        0 <= j <= members.len(),
        normalize_spec(links, members.subrange(0, j)) is Err,
    ensures
        normalize_spec(links, members) == normalize_spec(links, members.subrange(0, j)),
    decreases members.len() - j,
{
    if j < members.len() {
        assert(members.drop_last().subrange(0, j) =~= members.subrange(0, j));
        lemma_normalize_error_propagates(links, members.drop_last(), j);
    } else {
        assert(members.subrange(0, j) =~= members);
    }
}

} // verus!

verus! {

/// One reaction of a scope: the interpreter's theory must read back, the
/// scope must fit the capacity, and every member reacts in order.
pub open spec fn reaction_spec(
    links: Links,
    limit: Option<usize>,
    interpreter: Option<u32>,
    members: Seq<u32>,
    cap: usize,
) -> (Result<(Seq<u32>, u32, u32), StructuralError>, Links) {
    match interpreter {
        None => (Err(StructuralError::MissingInterpreter), links),
        Some(i) => match read_interpreter_spec(links, i) {
            Err(e) => (Err(e), links),
            Ok(authority) => if members.len() > cap {
                (
                    Err(
                        StructuralError::ScopeCapacity { requested: members.len() as usize, cap },
                    ),
                    links,
                )
            } else {
                react_members_spec(links, limit, authority.theory, members, cap)
            },
        },
    }
}


/// The store and scope after `n` reactions from scope `members`, each of
/// which matches exactly one rule and hands exactly one member on; `None`
/// when one of them fails or has another shape.
pub open spec fn single_reactions_spec(
    links: Links,
    limit: Option<usize>,
    interpreter: Option<u32>,
    members: Seq<u32>,
    cap: usize,
    n: nat,
) -> Option<(Links, Seq<u32>)>
    decreases n,
{
    if n == 0 {
        Some((links, members))
    } else {
        match single_reactions_spec(links, limit, interpreter, members, cap, (n - 1) as nat) {
            None => None,
            Some((before, scope)) => {
                let (out, after) = reaction_spec(before, limit, interpreter, scope, cap);
                match out {
                    Ok((next, raw, transitioned)) => if raw == 1 && transitioned == 1 && next.len() == 1 {
                        Some((after, next))
                    } else {
                        None
                    },
                    Err(_) => None,
                }
            },
        }
    }
}

/// The reaction of scope `members` succeeds and matches no rule.
pub open spec fn quiescent_spec(
    links: Links,
    limit: Option<usize>,
    interpreter: Option<u32>,
    members: Seq<u32>,
    cap: usize,
) -> bool {
    reaction_spec(links, limit, interpreter, members, cap).0 matches Ok((_, raw, _)) && raw == 0
}

/// Applying images only counts up, and applying any image counts at least one.
proof fn lemma_apply_images_counts(
    links: Links,
    limit: Option<usize>,
    images: Seq<ImageView>,
    next: Seq<u32>,
    raw: u32,
    cap: usize,
)
    ensures
        apply_images_spec(links, limit, images, next, raw, cap).0 matches Ok((n, raw2)) ==> raw2
            >= raw && (images.len() > 0 ==> raw2 >= 1),
    decreases images.len(),
{
    if images.len() > 0 {
        lemma_apply_images_counts(links, limit, images.drop_last(), next, raw, cap);
    }
}

/// Reacting one member only counts up; with no new match it leaves the
/// store and the transition count as they were.
proof fn lemma_react_member_counts(
    links: Links,
    limit: Option<usize>,
    theory: u32,
    active: u32,
    state: (Seq<u32>, u32, u32),
    cap: usize,
)
    ensures
        react_member_spec(links, limit, theory, active, state, cap).0 matches Ok((n, raw2, t2)) ==> {
            &&& raw2 >= state.1
            &&& raw2 == 0 ==> react_member_spec(links, limit, theory, active, state, cap).1
                == links && t2 == state.2
        },
{
    if let Ok(images) = discover_spec(links, theory, active) {
        if images.len() > 0 {
            lemma_apply_images_counts(links, limit, images, state.0, state.1, cap);
        }
    }
}

proof fn lemma_react_members_quiet(
    links: Links,
    limit: Option<usize>,
    theory: u32,
    members: Seq<u32>,
    cap: usize,
)
    ensures
        react_members_spec(links, limit, theory, members, cap).0 matches Ok((n, raw, t)) ==> {
            &&& raw == 0 ==> react_members_spec(links, limit, theory, members, cap).1 == links
            &&& raw == 0 ==> t == 0
        },
    decreases members.len(),
{
    if members.len() > 0 {
        let (r, l1) = react_members_spec(links, limit, theory, members.drop_last(), cap);
        lemma_react_members_quiet(links, limit, theory, members.drop_last(), cap);
        if let Ok(state) = r {
            lemma_react_member_counts(l1, limit, theory, members.last(), state, cap);
        }
    }
}

/// Every Link of `a` is in `b`.
pub open spec fn within(a: Seq<u32>, b: Seq<u32>) -> bool {
    forall|x: u32| a.contains(x) ==> #[trigger] b.contains(x)
}

proof fn lemma_add_next_keeps(next: Seq<u32>, link: u32, cap: usize)
    ensures
        add_next_spec(next, link, cap) matches Ok(n) ==> within(next, n) && n.contains(link),
{
    if !next.contains(link) && next.len() < cap {
        let n = next.push(link);
        assert(n[n.len() - 1] == link);
        assert forall|x: u32| next.contains(x) implies #[trigger] n.contains(x) by {
            let i = choose|i: int| 0 <= i < next.len() && next[i] == x;
            assert(n[i] == x);
        }
    }
}

proof fn lemma_add_all_keeps(next: Seq<u32>, outputs: Seq<u32>, cap: usize)
    ensures
        add_all_spec(next, outputs, cap) matches Ok(n) ==> within(next, n),
    decreases outputs.len(),
{
    if outputs.len() > 0 {
        lemma_add_all_keeps(next, outputs.drop_last(), cap);
        if let Ok(n1) = add_all_spec(next, outputs.drop_last(), cap) {
            lemma_add_next_keeps(n1, outputs.last(), cap);
        }
    }
}

proof fn lemma_apply_images_keeps(
    links: Links,
    limit: Option<usize>,
    images: Seq<ImageView>,
    next: Seq<u32>,
    raw: u32,
    cap: usize,
)
    ensures
        apply_images_spec(links, limit, images, next, raw, cap).0 matches Ok((n, _)) ==> within(next, n),
    decreases images.len(),
{
    if images.len() > 0 {
        lemma_apply_images_keeps(links, limit, images.drop_last(), next, raw, cap);
        let (r, l1) = apply_images_spec(links, limit, images.drop_last(), next, raw, cap);
        if let Ok((n1, raw1)) = r {
            let image = images.last();
            let (g, l2) = instantiate_template_spec(l1, limit, image.0, image.1);
            if let Ok(bundle) = g {
                if let Ok(outputs) = read_sequence_spec(l2, bundle) {
                    lemma_add_all_keeps(n1, outputs, cap);
                }
            }
        }
    }
}

proof fn lemma_react_member_keeps(
    links: Links,
    limit: Option<usize>,
    theory: u32,
    active: u32,
    state: (Seq<u32>, u32, u32),
    cap: usize,
)
    ensures
        react_member_spec(links, limit, theory, active, state, cap).0 matches Ok((n, _, _)) ==> within(state.0, n),
{
    lemma_add_next_keeps(state.0, active, cap);
    if let Ok(images) = discover_spec(links, theory, active) {
        lemma_apply_images_keeps(links, limit, images, state.0, state.1, cap);
    }
}

/// A reaction that succeeds succeeded on every prefix of its members, and
/// the next scope of a prefix is within the whole one.
proof fn lemma_react_members_prefix(
    links: Links,
    limit: Option<usize>,
    theory: u32,
    members: Seq<u32>,
    cap: usize,
    j: int,
)
    requires
        0 <= j <= members.len(),
        react_members_spec(links, limit, theory, members, cap).0 is Ok,
    ensures
        react_members_spec(links, limit, theory, members.subrange(0, j), cap).0 is Ok,
        within(
            react_members_spec(links, limit, theory, members.subrange(0, j), cap).0->Ok_0.0,
            react_members_spec(links, limit, theory, members, cap).0->Ok_0.0,
        ),
    decreases members.len() - j,
{
    if j < members.len() {
        let (r, l1) = react_members_spec(links, limit, theory, members.drop_last(), cap);
        assert(r is Ok);
        lemma_react_member_keeps(l1, limit, theory, members.last(), r->Ok_0, cap);
        assert(members.drop_last().subrange(0, j) =~= members.subrange(0, j));
        lemma_react_members_prefix(links, limit, theory, members.drop_last(), cap, j);
    } else {
        assert(members.subrange(0, j) =~= members);
    }
}

/// Members without a rule carry over: in a reaction of `members` that
/// succeeds, a member for which, at its turn, no rule image is discovered is
/// in the next scope, whatever the other members did.
pub proof fn law_unmatched_member_carries_over(
    links: Links,
    limit: Option<usize>,
    theory: u32,
    members: Seq<u32>,
    cap: usize,
    j: int,
)
    requires
        0 <= j < members.len(),
        react_members_spec(links, limit, theory, members, cap).0 is Ok,
        discover_spec(
            react_members_spec(links, limit, theory, members.subrange(0, j), cap).1,
            theory,
            members[j],
        ) == Ok::<Seq<ImageView>, StructuralError>(Seq::empty()),
    ensures
        react_members_spec(links, limit, theory, members, cap).0->Ok_0.0.contains(members[j]),
{
    lemma_react_members_prefix(links, limit, theory, members, cap, j + 1);
    let prefix = members.subrange(0, j + 1);
    assert(prefix.drop_last() =~= members.subrange(0, j));
    assert(prefix.last() == members[j]);
    let (r, l) = react_members_spec(links, limit, theory, members.subrange(0, j), cap);
    if let Ok(state) = r {
        lemma_add_next_keeps(state.0, members[j], cap);
    }
}

/// The same for a whole engine reaction: when the interpreter's theory
/// discovers no rule image for a current member at its turn, the member is
/// in the next scope of a reaction that succeeds.
pub proof fn law_reaction_keeps_unmatched_member(
    links: Links,
    limit: Option<usize>,
    interpreter: u32,
    members: Seq<u32>,
    cap: usize,
    j: int,
)
    requires
        0 <= j < members.len(),
        read_interpreter_spec(links, interpreter) is Ok,
        reaction_spec(links, limit, Some(interpreter), members, cap).0 is Ok,
        discover_spec(
            react_members_spec(
                links,
                limit,
                read_interpreter_spec(links, interpreter)->Ok_0.theory,
                members.subrange(0, j),
                cap,
            ).1,
            read_interpreter_spec(links, interpreter)->Ok_0.theory,
            members[j],
        ) == Ok::<Seq<ImageView>, StructuralError>(Seq::empty()),
    ensures
        reaction_spec(links, limit, Some(interpreter), members, cap).0->Ok_0.0.contains(members[j]),
{
    let theory = read_interpreter_spec(links, interpreter)->Ok_0.theory;
    law_unmatched_member_carries_over(links, limit, theory, members, cap, j);
}

/// Quiescence is stable: a reaction in which no rule matches leaves the
/// store unchanged and transitions no member, so reacting again from the
/// same scope gives the same quiescent result.
pub proof fn law_quiescence_is_stable(
    links: Links,
    limit: Option<usize>,
    interpreter: Option<u32>,
    members: Seq<u32>,
    cap: usize,
)
    requires
        reaction_spec(links, limit, interpreter, members, cap).0 matches Ok((next, raw, t)) && raw
            == 0,
    ensures
        reaction_spec(links, limit, interpreter, members, cap).1 == links,
        reaction_spec(links, limit, interpreter, members, cap).0->Ok_0.2 == 0,
        reaction_spec(reaction_spec(links, limit, interpreter, members, cap).1, limit, interpreter, members, cap)
            == reaction_spec(links, limit, interpreter, members, cap),
{
    let authority = read_interpreter_spec(links, interpreter->Some_0)->Ok_0;
    lemma_react_members_quiet(links, limit, authority.theory, members, cap);
}

} // verus!
