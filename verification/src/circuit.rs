//! Circuit programs built out of structural rules: the full
//! adder fixture made of gates and the circuits installed on it. Building never fails on
//! a store without a capacity bound that still has room for the Links the
//! program needs.
use vstd::prelude::*;

use crate::model::{
    ensure_pair_spec, ensure_start_spec, is_valid_in, lemma_ensure_pair_spec, lemma_ensure_start_spec,
    lemma_ensure_end_spec, links_wf, poles_in, record_well_founded, slot_bound, Links, extends,
};
use crate::store::OptimizedLinkStore;
use crate::structural::{
    define_structural_interpreter, define_structural_role_dictionary, materialize_exact_sequence,
    OptimizedStructuralEngine, StructuralError,
};
use crate::structural_model::{
    lemma_materialize_builds, materialize_spec, role_check, read_interpreter_spec,
    law_exact_sequence_roundtrip, law_role_dictionary_roundtrip, lemma_exact_cells_extends,
    read_dictionary_spec, read_sequence_spec,
};
use crate::Handle;

verus! {

/// The store can grow by `n` more Links: it is well-formed, has no
/// capacity bound, and the handle space has room.
pub open spec fn has_room(store: &OptimizedLinkStore, n: nat) -> bool {
    &&& store.wf()
    &&& store.limit() is None
    &&& store.links().len() + n <= slot_bound()
}

/// `h` is a Link of the store.
pub open spec fn holds(store: &OptimizedLinkStore, h: Handle) -> bool {
    1 <= h < store.links().len()
}

/// `next` is `before` after at most `n` allocations.
pub open spec fn grown(before: &OptimizedLinkStore, next: &OptimizedLinkStore, n: nat) -> bool {
    &&& next.wf()
    &&& next.limit() == before.limit()
    &&& before.links().len() <= next.links().len() <= before.links().len() + n
    &&& keeps(before.links(), next.links())
}

/// Every Link of `before` stands unchanged in `next`.
pub open spec fn keeps(before: Links, next: Links) -> bool {
    &&& before.len() <= next.len()
    &&& forall|i: int| 0 <= i < before.len() ==> #[trigger] next[i] == before[i]
}

/// In a well-formed store every handle below the length is a Link.
pub proof fn lemma_held_valid(links: Links, h: u32)
    requires
        links_wf(links),
        1 <= h < links.len(),
    ensures
        is_valid_in(links, h),
{
    if h >= 2 {
        assert(record_well_founded(links, h as int));
    }
}

/// The canonical PAIR `(a, b)`; it is newer than both poles.
pub fn pair(store: &mut OptimizedLinkStore, a: Handle, b: Handle) -> (h: Handle)
    requires
        has_room(old(store), 1),
        holds(old(store), a),
        holds(old(store), b),
    ensures
        grown(old(store), final(store), 1),
        holds(final(store), h),
        a < h,
        b < h,
        final(store).links()[h as int] == Some((a, b)),
        extends(old(store).links(), final(store).links()),
{
    proof {
        old(store).lemma_wf_links();
        lemma_held_valid(old(store).links(), a);
        lemma_held_valid(old(store).links(), b);
        lemma_ensure_pair_spec(old(store).links(), old(store).limit(), a, b);
    }
    let r = store.ensure_pair(a, b);
    proof {
        store.lemma_wf_links();
    }
    match r {
        Ok(h) => {
            proof {
                assert(record_well_founded(store.links(), h as int));
            }
            h
        },
        Err(_) => {
            proof {
                assert(false);
            }
            0
        },
    }
}

/// Two function Links made one after the other by the same generator are
/// different Links.
pub proof fn lemma_functions_differ(l1: Links, l2: Links, f1: u32, f2: u32, between: u32)
    requires
        f1 < l1.len(),
        l1[f1 as int] is Some,
        poles_in(l1, f1).1 <= between,
        extends(l1, l2),
        l2[f2 as int] is Some,
        between < poles_in(l2, f2).0,
        poles_in(l1, f1).0 < poles_in(l1, f1).1,
    ensures
        f1 != f2,
{
    assert(l2[f1 as int] == l2.subrange(0, l1.len() as int)[f1 as int]);
}

/// Two PAIRs with different poles are different Links, also after the
/// store has grown.
pub proof fn lemma_pairs_differ(l1: Links, l2: Links, h1: u32, p1: (u32, u32), h2: u32, p2: (u32, u32))
    requires
        h1 < l1.len(),
        l1[h1 as int] == Some(p1),
        extends(l1, l2),
        l2[h2 as int] == Some(p2),
        p1 != p2,
    ensures
        h1 != h2,
{
    assert(l2[h1 as int] == l2.subrange(0, l1.len() as int)[h1 as int]);
}

/// The canonical START self-closed Link over `child`.
pub fn start_form(store: &mut OptimizedLinkStore, child: Handle) -> (h: Handle)
    requires
        has_room(old(store), 1),
        holds(old(store), child),
    ensures
        grown(old(store), final(store), 1),
        holds(final(store), h),
        child < h,
{
    proof {
        old(store).lemma_wf_links();
        lemma_held_valid(old(store).links(), child);
        lemma_ensure_start_spec(old(store).links(), old(store).limit(), child);
    }
    let r = store.ensure_start_self_closed(child);
    proof {
        store.lemma_wf_links();
    }
    match r {
        Ok(h) => {
            proof {
                assert(record_well_founded(store.links(), h as int));
            }
            h
        },
        Err(_) => {
            proof {
                assert(false);
            }
            0
        },
    }
}

/// The canonical END self-closed Link over `child`.
pub fn end_form(store: &mut OptimizedLinkStore, child: Handle) -> (h: Handle)
    requires
        has_room(old(store), 1),
        holds(old(store), child),
    ensures
        grown(old(store), final(store), 1),
        holds(final(store), h),
        child < h,
{
    proof {
        old(store).lemma_wf_links();
        lemma_held_valid(old(store).links(), child);
        lemma_ensure_end_spec(old(store).links(), old(store).limit(), child);
    }
    let r = store.ensure_end_self_closed(child);
    proof {
        store.lemma_wf_links();
    }
    match r {
        Ok(h) => {
            proof {
                assert(record_well_founded(store.links(), h as int));
            }
            h
        },
        Err(_) => {
            proof {
                assert(false);
            }
            0
        },
    }
}

/// Building an exact sequence of Links on a store with room succeeds and
/// allocates at most two Links per value.
pub proof fn lemma_materialize_room(links: Links, values: Seq<u32>)
    requires
        links_wf(links),
        links.len() + 2 * values.len() <= slot_bound(),
        forall|i: int| 0 <= i < values.len() ==> 1 <= #[trigger] values[i] < links.len(),
    ensures
        materialize_spec(links, None, values).0 matches Ok(cell) && 1 <= cell < materialize_spec(
            links,
            None,
            values,
        ).1.len(),
        materialize_spec(links, None, values).1.len() <= links.len() + 2 * values.len(),
    decreases values.len(),
{
    lemma_materialize_builds(links, None, values);
    if values.len() > 0 {
        let prefix = values.drop_last();
        let value = values.last();
        assert forall|i: int| 0 <= i < prefix.len() implies 1 <= #[trigger] prefix[i] < links.len() by {
            assert(prefix[i] == values[i]);
        }
        lemma_materialize_room(links, prefix);
        lemma_materialize_builds(links, None, prefix);
        let (r1, l1) = materialize_spec(links, None, prefix);
        let current = r1->Ok_0;
        assert(values[values.len() - 1] == value);
        lemma_held_valid(l1, value);
        lemma_held_valid(l1, current);
        lemma_ensure_pair_spec(l1, None, current, value);
        let (rp, lp) = ensure_pair_spec(l1, None, current, value);
        let payload = rp->Ok_0;
        lemma_ensure_start_spec(lp, None, payload);
    }
}

/// The role check passes for distinct Links.
pub proof fn lemma_role_check_passes(links: Links, roles: Seq<u32>)
    requires
        links_wf(links),
        roles.no_duplicates(),
        forall|i: int| 0 <= i < roles.len() ==> 1 <= #[trigger] roles[i] < links.len(),
    ensures
        role_check(links, roles) is None,
    decreases roles.len(),
{
    if roles.len() > 0 {
        let prefix = roles.drop_last();
        let role = roles.last();
        assert forall|i: int| 0 <= i < prefix.len() implies 1 <= #[trigger] prefix[i] < links.len() by {
            assert(prefix[i] == roles[i]);
        }
        assert(prefix.no_duplicates()) by {
            assert forall|a: int, b: int| 0 <= a < prefix.len() && 0 <= b < prefix.len() && a != b
                implies #[trigger] prefix[a] != #[trigger] prefix[b] by {
                assert(prefix[a] == roles[a] && prefix[b] == roles[b]);
            }
        }
        lemma_role_check_passes(links, prefix);
        assert(roles[roles.len() - 1] == role);
        lemma_held_valid(links, role);
        if prefix.contains(role) {
            let i = choose|i: int| 0 <= i < prefix.len() && prefix[i] == role;
            assert(roles[i] == roles[roles.len() - 1]);
        }
    }
}

/// `h` reads back as the exact sequence `values`.
#[verifier::opaque]
pub open spec fn sequence_reads(links: Links, h: u32, values: Seq<u32>) -> bool {
    read_sequence_spec(links, h) == Ok::<Seq<u32>, StructuralError>(values)
}

/// `h` reads back as the role dictionary of `roles`.
#[verifier::opaque]
pub open spec fn dictionary_reads(links: Links, h: u32, roles: Seq<u32>) -> bool {
    read_dictionary_spec(links, h) == Ok::<Seq<u32>, StructuralError>(roles)
}

/// A sequence that reads back keeps reading back after more Links.
pub proof fn lemma_sequence_reads_keep(l1: Links, l2: Links, h: u32, values: Seq<u32>)
    requires
        links_wf(l1),
        keeps(l1, l2),
        sequence_reads(l1, h, values),
    ensures
        sequence_reads(l2, h, values),
{
    reveal(sequence_reads);
    assert(l2.subrange(0, l1.len() as int) =~= l1);
    if h != 1 {
        lemma_exact_cells_extends(l1, l2, h);
    }
}

/// A dictionary that reads back keeps reading back after more Links.
pub proof fn lemma_dictionary_reads_keep(l1: Links, l2: Links, h: u32, roles: Seq<u32>)
    requires
        links_wf(l1),
        keeps(l1, l2),
        dictionary_reads(l1, h, roles),
    ensures
        dictionary_reads(l2, h, roles),
{
    reveal(dictionary_reads);
    reveal(sequence_reads);
    let end = poles_in(l1, h).1;
    assert(sequence_reads(l1, end, roles));
    lemma_sequence_reads_keep(l1, l2, end, roles);
}

/// `admission` admits, under `theory`, the rule with role dictionary
/// `roles` that rewrites `before` into the exact sequence `after`.
#[verifier::opaque]
pub open spec fn admits_rule(
    links: Links,
    theory: u32,
    admission: u32,
    roles: Seq<u32>,
    before: u32,
    after: Seq<u32>,
) -> bool {
    let rule = poles_in(links, admission).1;
    let body = poles_in(links, rule).1;
    &&& is_valid_in(links, admission)
    &&& poles_in(links, admission).0 == theory
    &&& is_valid_in(links, rule)
    &&& dictionary_reads(links, poles_in(links, rule).0, roles)
    &&& is_valid_in(links, body)
    &&& poles_in(links, body).0 == before
    &&& sequence_reads(links, poles_in(links, body).1, after)
}

/// A Link runs from `key` to `admission`: the rule is found from `key`.
pub open spec fn indexed_under(links: Links, key: u32, admission: u32) -> bool {
    exists|h: u32| is_valid_in(links, h) && #[trigger] poles_in(links, h) == (key, admission)
}

/// An admitted and indexed rule stays so after more Links.
pub proof fn lemma_admits_rule_keep(
    l1: Links,
    l2: Links,
    theory: u32,
    admission: u32,
    roles: Seq<u32>,
    before: u32,
    after: Seq<u32>,
)
    requires
        links_wf(l1),
        keeps(l1, l2),
        admits_rule(l1, theory, admission, roles, before, after),
    ensures
        admits_rule(l2, theory, admission, roles, before, after),
{
    reveal(admits_rule);
    let rule = poles_in(l1, admission).1;
    let body = poles_in(l1, rule).1;
    assert(l2[admission as int] == l1[admission as int]);
    assert(l2[rule as int] == l1[rule as int]);
    assert(l2[body as int] == l1[body as int]);
    lemma_dictionary_reads_keep(l1, l2, poles_in(l1, rule).0, roles);
    lemma_sequence_reads_keep(l1, l2, poles_in(l1, body).1, after);
}

/// An index Link stays after more Links.
pub proof fn lemma_indexed_keep(l1: Links, l2: Links, key: u32, admission: u32)
    requires
        keeps(l1, l2),
        indexed_under(l1, key, admission),
    ensures
        indexed_under(l2, key, admission),
{
    let h = choose|h: u32| is_valid_in(l1, h) && #[trigger] poles_in(l1, h) == (key, admission);
    assert(l2[h as int] == l1[h as int]);
    assert(is_valid_in(l2, h) && poles_in(l2, h) == (key, admission));
}

/// `h` is `K -> Call(function, args)`, that is
/// `PAIR(k, PAIR(apply, PAIR(function, args)))`, with `args` reading as `values`.
pub open spec fn call_shape(links: Links, h: u32, k: u32, apply: u32, function: u32, values: Seq<u32>) -> bool {
    let invocation = poles_in(links, h).1;
    let target = poles_in(links, invocation).1;
    &&& is_valid_in(links, h)
    &&& poles_in(links, h).0 == k
    &&& is_valid_in(links, invocation)
    &&& poles_in(links, invocation).0 == apply
    &&& is_valid_in(links, target)
    &&& poles_in(links, target).0 == function
    &&& sequence_reads(links, poles_in(links, target).1, values)
}

/// `h` is `K -> PAIR(tag, payload)` with `payload` reading as `values`.
pub open spec fn tagged_shape(links: Links, h: u32, k: u32, tag: u32, values: Seq<u32>) -> bool {
    let endpoint = poles_in(links, h).1;
    &&& is_valid_in(links, h)
    &&& poles_in(links, h).0 == k
    &&& is_valid_in(links, endpoint)
    &&& poles_in(links, endpoint).0 == tag
    &&& sequence_reads(links, poles_in(links, endpoint).1, values)
}

/// A call shape stays after more Links.
pub proof fn lemma_call_shape_keep(l1: Links, l2: Links, h: u32, k: u32, apply: u32, function: u32, values: Seq<u32>)
    requires
        links_wf(l1),
        keeps(l1, l2),
        call_shape(l1, h, k, apply, function, values),
    ensures
        call_shape(l2, h, k, apply, function, values),
{
    let invocation = poles_in(l1, h).1;
    let target = poles_in(l1, invocation).1;
    assert(l2[h as int] == l1[h as int]);
    assert(l2[invocation as int] == l1[invocation as int]);
    assert(l2[target as int] == l1[target as int]);
    lemma_sequence_reads_keep(l1, l2, poles_in(l1, target).1, values);
}

/// A tagged shape stays after more Links.
pub proof fn lemma_tagged_shape_keep(l1: Links, l2: Links, h: u32, k: u32, tag: u32, values: Seq<u32>)
    requires
        links_wf(l1),
        keeps(l1, l2),
        tagged_shape(l1, h, k, tag, values),
    ensures
        tagged_shape(l2, h, k, tag, values),
{
    let endpoint = poles_in(l1, h).1;
    assert(l2[h as int] == l1[h as int]);
    assert(l2[endpoint as int] == l1[endpoint as int]);
    lemma_sequence_reads_keep(l1, l2, poles_in(l1, endpoint).1, values);
}

/// The ROOT-originating exact sequence of `values`.
pub fn sequence(store: &mut OptimizedLinkStore, values: &[Handle]) -> (h: Handle)
    requires
        has_room(old(store), 2 * values@.len()),
        forall|i: int| 0 <= i < values@.len() ==> holds(old(store), #[trigger] values@[i]),
    ensures
        grown(old(store), final(store), 2 * values@.len()),
        holds(final(store), h),
        sequence_reads(final(store).links(), h, values@),
{
    proof {
        old(store).lemma_wf_links();
        lemma_materialize_room(old(store).links(), values@);
        lemma_materialize_builds(old(store).links(), None, values@);
        law_exact_sequence_roundtrip(old(store).links(), None, values@);
        reveal(sequence_reads);
    }
    let r = materialize_exact_sequence(store, values);
    match r {
        Ok(h) => h,
        Err(_) => {
            proof {
                assert(false);
            }
            1
        },
    }
}

/// The role dictionary of distinct roles.
pub fn dictionary(store: &mut OptimizedLinkStore, roles: &[Handle]) -> (h: Handle)
    requires
        has_room(old(store), 2 * roles@.len() + 1),
        roles@.no_duplicates(),
        forall|i: int| 0 <= i < roles@.len() ==> holds(old(store), #[trigger] roles@[i]),
    ensures
        grown(old(store), final(store), 2 * roles@.len() + 1),
        holds(final(store), h),
        dictionary_reads(final(store).links(), h, roles@),
{
    proof {
        let links = old(store).links();
        old(store).lemma_wf_links();
        lemma_role_check_passes(links, roles@);
        lemma_materialize_room(links, roles@);
        lemma_materialize_builds(links, None, roles@);
        let (r, l1) = materialize_spec(links, None, roles@);
        lemma_held_valid(l1, r->Ok_0);
        lemma_ensure_start_spec(l1, None, r->Ok_0);
        let (r2, l2) = ensure_start_spec(l1, None, r->Ok_0);
        assert(record_well_founded(l2, r2->Ok_0 as int));
        law_role_dictionary_roundtrip(links, None, roles@);
        reveal(dictionary_reads);
    }
    let r = define_structural_role_dictionary(store, roles);
    match r {
        Ok(h) => h,
        Err(_) => {
            proof {
                assert(false);
            }
            1
        },
    }
}

/// The strictly increasing values `s`: all distinct.
pub open spec fn increasing(s: Seq<u32>) -> bool {
    forall|i: int, j: int| 0 <= i < j < s.len() ==> #[trigger] s[i] < #[trigger] s[j]
}

pub proof fn lemma_increasing_distinct(s: Seq<u32>)
    requires
        increasing(s),
    ensures
        s.no_duplicates(),
{
    assert forall|a: int, b: int| 0 <= a < s.len() && 0 <= b < s.len() && a != b implies #[trigger] s[a]
        != #[trigger] s[b] by {
        if a < b {
            assert(s[a] < s[b]);
        } else {
            assert(s[b] < s[a]);
        }
    }
}

/// `Call(function, argument)`: `PAIR(apply, PAIR(function, argument))`.
pub fn call(store: &mut OptimizedLinkStore, apply: Handle, function: Handle, argument: Handle) -> (h: Handle)
    requires
        has_room(old(store), 2),
        holds(old(store), apply),
        holds(old(store), function),
        holds(old(store), argument),
    ensures
        grown(old(store), final(store), 2),
        holds(final(store), h),
{
    let invocation = pair(store, function, argument);
    pair(store, apply, invocation)
}

/// A rule with distinct `roles` rewriting `before` into the exact sequence
/// `after`, admitted by `theory`: the rule and its admission.
pub fn define_bundle_rule(
    store: &mut OptimizedLinkStore,
    theory: Handle,
    roles: &[Handle],
    before: Handle,
    after: &[Handle],
) -> (r: (Handle, Handle))
    requires
        has_room(old(store), 2 * roles@.len() + 2 * after@.len() + 4),
        roles@.no_duplicates(),
        forall|i: int| 0 <= i < roles@.len() ==> holds(old(store), #[trigger] roles@[i]),
        forall|i: int| 0 <= i < after@.len() ==> holds(old(store), #[trigger] after@[i]),
        holds(old(store), theory),
        holds(old(store), before),
    ensures
        grown(old(store), final(store), 2 * roles@.len() + 2 * after@.len() + 4),
        holds(final(store), r.0),
        holds(final(store), r.1),
        admits_rule(final(store).links(), theory, r.1, roles@, before, after@),
{
    let dict = dictionary(store, roles);
    let ghost l_dict = store.links();
    proof {
        store.lemma_wf_links();
    }
    let output_bundle = sequence(store, after);
    let ghost l_out = store.links();
    proof {
        store.lemma_wf_links();
    }
    let body = pair(store, before, output_bundle);
    let rule = pair(store, dict, body);
    let admission = pair(store, theory, rule);
    proof {
        store.lemma_wf_links();
        lemma_dictionary_reads_keep(l_dict, store.links(), dict, roles@);
        lemma_sequence_reads_keep(l_out, store.links(), output_bundle, after@);
        reveal(admits_rule);
    }
    (rule, admission)
}

/// Indexes `admission` under one trigger key.
pub fn index_rule(store: &mut OptimizedLinkStore, trigger_key: Handle, admission: Handle)
    requires
        has_room(old(store), 1),
        holds(old(store), trigger_key),
        holds(old(store), admission),
    ensures
        grown(old(store), final(store), 1),
        indexed_under(final(store).links(), trigger_key, admission),
{
    let h = pair(store, trigger_key, admission);
    assert(is_valid_in(store.links(), h) && poles_in(store.links(), h) == (trigger_key, admission));
}

/// Indexes `admission` under each trigger key.
pub fn index_rule_for(store: &mut OptimizedLinkStore, trigger_keys: &[Handle], admission: Handle)
    requires
        has_room(old(store), trigger_keys@.len()),
        forall|i: int| 0 <= i < trigger_keys@.len() ==> holds(old(store), #[trigger] trigger_keys@[i]),
        holds(old(store), admission),
    ensures
        grown(old(store), final(store), trigger_keys@.len()),
        forall|i: int| 0 <= i < trigger_keys@.len() ==> indexed_under(final(store).links(), #[trigger] trigger_keys@[i], admission),
{
    let ghost start = store.links().len();
    let mut i: usize = 0;
    while i < trigger_keys.len()
        invariant
            i <= trigger_keys@.len(),
            grown(old(store), store, i as nat),
            has_room(old(store), trigger_keys@.len()),
            forall|j: int| 0 <= j < trigger_keys@.len() ==> holds(old(store), #[trigger] trigger_keys@[j]),
            holds(old(store), admission),
            forall|j: int| 0 <= j < i ==> indexed_under(store.links(), #[trigger] trigger_keys@[j], admission),
        decreases trigger_keys@.len() - i,
    {
        let ghost before = store.links();
        index_rule(store, trigger_keys[i], admission);
        proof {
            assert forall|j: int| 0 <= j < i + 1 implies indexed_under(store.links(), #[trigger] trigger_keys@[j], admission) by {
                if j < i {
                    lemma_indexed_keep(before, store.links(), trigger_keys@[j], admission);
                }
            }
        }
        i += 1;
    }
}

/// A rule as `define_bundle_rule`, indexed under one trigger key; the rule.
pub fn admit_bundle_rule(
    store: &mut OptimizedLinkStore,
    theory: Handle,
    trigger_key: Handle,
    roles: &[Handle],
    before: Handle,
    after: &[Handle],
) -> (rule: Handle)
    requires
        has_room(old(store), 2 * roles@.len() + 2 * after@.len() + 5),
        roles@.no_duplicates(),
        forall|i: int| 0 <= i < roles@.len() ==> holds(old(store), #[trigger] roles@[i]),
        forall|i: int| 0 <= i < after@.len() ==> holds(old(store), #[trigger] after@[i]),
        holds(old(store), theory),
        holds(old(store), trigger_key),
        holds(old(store), before),
    ensures
        grown(old(store), final(store), 2 * roles@.len() + 2 * after@.len() + 5),
        holds(final(store), rule),
{
    let (rule, admission) = define_bundle_rule(store, theory, roles, before, after);
    index_rule(store, trigger_key, admission);
    rule
}

/// `count` fresh anchors: a chain of PAIRs from `PAIR(u, l)`, alternating
/// the poles `o` and `c`; each is newer than the one before.
pub fn fresh(
    store: &mut OptimizedLinkStore,
    o: Handle,
    c: Handle,
    u: Handle,
    l: Handle,
    count: usize,
) -> (anchors: Vec<Handle>)
    requires
        has_room(old(store), count as nat + 1),
        holds(old(store), o),
        holds(old(store), c),
        holds(old(store), u),
        holds(old(store), l),
    ensures
        grown(old(store), final(store), count as nat + 1),
        anchors@.len() == count,
        increasing(anchors@),
        forall|i: int| 0 <= i < count ==> holds(final(store), #[trigger] anchors@[i]),
{
    let mut seed = pair(store, u, l);
    let mut result: Vec<Handle> = Vec::new();
    let mut i: usize = 0;
    while i < count
        invariant
            i <= count,
            result@.len() == i,
            grown(old(store), store, i as nat + 1),
            has_room(old(store), count as nat + 1),
            holds(old(store), o),
            holds(old(store), c),
            holds(store, seed),
            increasing(result@),
            forall|j: int| 0 <= j < i ==> holds(store, #[trigger] result@[j]) && result@[j] <= seed,
        decreases count - i,
    {
        let pole = if i % 2 == 0 {
            o
        } else {
            c
        };
        seed = pair(store, seed, pole);
        result.push(seed);
        i += 1;
    }
    result
}

/// The structural basis: `o` and `c`, the START and END self-closed Links
/// over ROOT, then `l = PAIR(o, c)` and `u = PAIR(c, o)`.
pub fn basis(store: &mut OptimizedLinkStore) -> (b: (Handle, Handle, Handle, Handle))
    requires
        has_room(old(store), 4),
    ensures
        grown(old(store), final(store), 4),
        holds(final(store), b.0),
        holds(final(store), b.1),
        holds(final(store), b.2),
        holds(final(store), b.3),
{
    proof {
        store.lemma_wf_links();
    }
    let o = start_form(store, 1);
    let c = end_form(store, 1);
    let l = pair(store, o, c);
    let u = pair(store, c, o);
    (o, c, l, u)
}

/// `PAIR(tag, value)`: a value handed back under `tag`.
pub fn done(store: &mut OptimizedLinkStore, done_tag: Handle, value: Handle) -> (h: Handle)
    requires
        has_room(old(store), 1),
        holds(old(store), done_tag),
        holds(old(store), value),
    ensures
        grown(old(store), final(store), 1),
        holds(final(store), h),
{
    pair(store, done_tag, value)
}

/// The frame of a half adder waiting for its XOR: `START(PAIR(caller, args))`.
pub fn half_xor_frame(store: &mut OptimizedLinkStore, caller: Handle, args: Handle) -> (h: Handle)
    requires
        has_room(old(store), 2),
        holds(old(store), caller),
        holds(old(store), args),
    ensures
        grown(old(store), final(store), 2),
        holds(final(store), h),
{
    let descriptor = pair(store, caller, args);
    start_form(store, descriptor)
}

/// The frame of a half adder waiting for its AND: `START(PAIR(caller, PAIR(args, sum)))`.
pub fn half_and_frame(store: &mut OptimizedLinkStore, caller: Handle, args: Handle, sum: Handle) -> (h:
    Handle)
    requires
        has_room(old(store), 3),
        holds(old(store), caller),
        holds(old(store), args),
        holds(old(store), sum),
    ensures
        grown(old(store), final(store), 3),
        holds(final(store), h),
{
    let args_sum = pair(store, args, sum);
    let descriptor = pair(store, caller, args_sum);
    start_form(store, descriptor)
}

/// The frame of a finishing half adder: `START(PAIR(caller, sum))`.
pub fn half_finish_frame(store: &mut OptimizedLinkStore, caller: Handle, sum: Handle) -> (h: Handle)
    requires
        has_room(old(store), 2),
        holds(old(store), caller),
        holds(old(store), sum),
    ensures
        grown(old(store), final(store), 2),
        holds(final(store), h),
{
    let descriptor = pair(store, caller, sum);
    start_form(store, descriptor)
}

/// A tagged frame: `START(PAIR(tag, PAIR(caller, value)))`.
pub fn tagged_frame(store: &mut OptimizedLinkStore, tag: Handle, caller: Handle, value: Handle) -> (h:
    Handle)
    requires
        has_room(old(store), 3),
        holds(old(store), tag),
        holds(old(store), caller),
        holds(old(store), value),
    ensures
        grown(old(store), final(store), 3),
        holds(final(store), h),
{
    let caller_value = pair(store, caller, value);
    let descriptor = pair(store, tag, caller_value);
    start_form(store, descriptor)
}

/// An interpreter `PAIR(dictionary, PAIR(grammar, theory))` that reads back.
pub fn interpreter(store: &mut OptimizedLinkStore, dictionary: Handle, grammar: Handle, theory: Handle) -> (h:
    Handle)
    requires
        has_room(old(store), 2),
        holds(old(store), dictionary),
        holds(old(store), grammar),
        holds(old(store), theory),
    ensures
        grown(old(store), final(store), 2),
        holds(final(store), h),
        read_interpreter_spec(final(store).links(), h) is Ok,
{
    let ghost links = store.links();
    proof {
        store.lemma_wf_links();
        lemma_held_valid(links, grammar);
        lemma_held_valid(links, theory);
        lemma_held_valid(links, dictionary);
        lemma_ensure_pair_spec(links, None, grammar, theory);
        let (r1, l1) = ensure_pair_spec(links, None, grammar, theory);
        assert(record_well_founded(l1, r1->Ok_0 as int));
        lemma_held_valid(l1, dictionary);
        lemma_ensure_pair_spec(l1, None, dictionary, r1->Ok_0);
        let (r2, l2) = ensure_pair_spec(l1, None, dictionary, r1->Ok_0);
        assert(record_well_founded(l2, r2->Ok_0 as int));
        lemma_held_valid(l2, r1->Ok_0);
    }
    match define_structural_interpreter(store, dictionary, grammar, theory) {
        Ok(h) => h,
        Err(_) => {
            proof {
                assert(false);
            }
            1
        },
    }
}

/// The full adder, made of gates, installed in a fresh store, together with
/// the engine that runs it. `zero` and `one` are the two bit values, `o`
/// and `c` the structural poles, `apply` the call tag, `full` the full
/// adder's function Link, `k` a caller context, `theory` the theory that
/// admits every rule, `interpreter` the interpreter the engine runs under,
/// and `args3[a][b][cin]` the argument sequences.
pub struct Fixture {
    pub store: OptimizedLinkStore,
    pub engine: OptimizedStructuralEngine,
    pub o: Handle,
    pub c: Handle,
    pub theory: Handle,
    pub interpreter: Handle,
    pub full: Handle,
    pub k: Handle,
    pub zero: Handle,
    pub one: Handle,
    pub apply: Handle,
    pub args3: [[[Handle; 2]; 2]; 2],
}

impl Fixture {
    /// The store is well-formed without a capacity bound, the engine is
    /// well-formed, and every named handle is a Link of the store.
    pub open spec fn wf(&self) -> bool {
        &&& has_room(&self.store, 0)
        &&& self.engine.wf()
        &&& holds(&self.store, self.o)
        &&& holds(&self.store, self.c)
        &&& holds(&self.store, self.theory)
        &&& holds(&self.store, self.interpreter)
        &&& holds(&self.store, self.full)
        &&& holds(&self.store, self.k)
        &&& holds(&self.store, self.zero)
        &&& holds(&self.store, self.one)
        &&& holds(&self.store, self.apply)
        &&& forall|a: int, b: int, x: int|
            0 <= a < 2 && 0 <= b < 2 && 0 <= x < 2 ==> holds(&self.store, #[trigger] self.args3[a][b][x])
    }
}

/// `FULL OPEN`: `K -> Call(FULL, [a, b, cin])` becomes
/// `H1Frame(K, cin) -> Call(HALF, [a, b])`.
fn install_full_open(
    store: &mut OptimizedLinkStore,
    theory: Handle,
    o: Handle,
    apply: Handle,
    full: Handle,
    half: Handle,
    h1_tag: Handle,
    roles: [Handle; 4],
)
    requires
        has_room(old(store), 40),
        holds(old(store), theory),
        holds(old(store), o),
        holds(old(store), apply),
        holds(old(store), full),
        holds(old(store), half),
        holds(old(store), h1_tag),
        increasing(roles@),
        forall|i: int| 0 <= i < 4 ==> holds(old(store), #[trigger] roles@[i]),
    ensures
        grown(old(store), final(store), 40),
{
    let (k_role, a_role, b_role, cin_role) = (roles[0], roles[1], roles[2], roles[3]);
    let args_template = sequence(store, &[a_role, b_role, cin_role]);
    let before_call = call(store, apply, full, args_template);
    let before = pair(store, k_role, before_call);
    let first_half_args = sequence(store, &[a_role, b_role]);
    let h1 = tagged_frame(store, h1_tag, k_role, cin_role);
    let after_call = call(store, apply, half, first_half_args);
    let after = pair(store, h1, after_call);
    proof {
        lemma_increasing_distinct(roles@);
    }
    admit_bundle_rule(store, theory, o, &roles, before, &[after]);
}

/// `HALF OPEN`: `caller -> Call(HALF, args)` becomes
/// `XorFrame(caller, args) -> Call(XOR, args)`.
fn install_half_open(
    store: &mut OptimizedLinkStore,
    theory: Handle,
    o: Handle,
    apply: Handle,
    half: Handle,
    xor: Handle,
    caller_role: Handle,
    args_role: Handle,
)
    requires
        has_room(old(store), 20),
        holds(old(store), theory),
        holds(old(store), o),
        holds(old(store), apply),
        holds(old(store), half),
        holds(old(store), xor),
        holds(old(store), caller_role),
        holds(old(store), args_role),
        caller_role < args_role,
    ensures
        grown(old(store), final(store), 20),
{
    let before_call = call(store, apply, half, args_role);
    let before = pair(store, caller_role, before_call);
    let frame = half_xor_frame(store, caller_role, args_role);
    let after_call = call(store, apply, xor, args_role);
    let after = pair(store, frame, after_call);
    let roles = [caller_role, args_role];
    proof {
        lemma_increasing_distinct(roles@);
    }
    admit_bundle_rule(store, theory, o, &roles, before, &[after]);
}

/// One XOR row: `XorFrame(caller, argseq) -> Call(XOR, argseq)` becomes
/// `AndFrame(caller, argseq, sum) -> Call(AND, argseq)`.
fn install_xor_row(
    store: &mut OptimizedLinkStore,
    theory: Handle,
    o: Handle,
    apply: Handle,
    xor: Handle,
    and: Handle,
    argseq: Handle,
    sum: Handle,
    caller_role: Handle,
)
    requires
        has_room(old(store), 20),
        holds(old(store), theory),
        holds(old(store), o),
        holds(old(store), apply),
        holds(old(store), xor),
        holds(old(store), and),
        holds(old(store), argseq),
        holds(old(store), sum),
        holds(old(store), caller_role),
    ensures
        grown(old(store), final(store), 20),
{
    let frame = half_xor_frame(store, caller_role, argseq);
    let before_call = call(store, apply, xor, argseq);
    let before = pair(store, frame, before_call);
    let next_frame = half_and_frame(store, caller_role, argseq, sum);
    let after_call = call(store, apply, and, argseq);
    let after = pair(store, next_frame, after_call);
    let roles = [caller_role];
    proof {
        lemma_increasing_distinct(roles@);
    }
    admit_bundle_rule(store, theory, o, &roles, before, &[after]);
}

/// One AND row: `AndFrame(caller, argseq, sum) -> Call(AND, argseq)` becomes
/// `FinishFrame(caller, sum) -> Done(carry)`.
fn install_and_row(
    store: &mut OptimizedLinkStore,
    theory: Handle,
    o: Handle,
    apply: Handle,
    and: Handle,
    done_tag: Handle,
    argseq: Handle,
    carry: Handle,
    caller_role: Handle,
    sum_role: Handle,
)
    requires
        has_room(old(store), 25),
        holds(old(store), theory),
        holds(old(store), o),
        holds(old(store), apply),
        holds(old(store), and),
        holds(old(store), done_tag),
        holds(old(store), argseq),
        holds(old(store), carry),
        holds(old(store), caller_role),
        holds(old(store), sum_role),
        caller_role < sum_role,
    ensures
        grown(old(store), final(store), 25),
{
    let frame = half_and_frame(store, caller_role, argseq, sum_role);
    let before_call = call(store, apply, and, argseq);
    let before = pair(store, frame, before_call);
    let finish = half_finish_frame(store, caller_role, sum_role);
    let done_carry = done(store, done_tag, carry);
    let after = pair(store, finish, done_carry);
    let roles = [caller_role, sum_role];
    proof {
        lemma_increasing_distinct(roles@);
    }
    admit_bundle_rule(store, theory, o, &roles, before, &[after]);
}

/// `HALF FINALIZE`: `FinishFrame(caller, sum) -> Done(carry)` becomes
/// `caller -> [sum, carry]`.
fn install_half_finalize(
    store: &mut OptimizedLinkStore,
    theory: Handle,
    c: Handle,
    done_tag: Handle,
    roles: [Handle; 3],
)
    requires
        has_room(old(store), 30),
        holds(old(store), theory),
        holds(old(store), c),
        holds(old(store), done_tag),
        increasing(roles@),
        forall|i: int| 0 <= i < 3 ==> holds(old(store), #[trigger] roles@[i]),
    ensures
        grown(old(store), final(store), 30),
{
    let (caller_role, sum_role, carry_role) = (roles[0], roles[1], roles[2]);
    let finish = half_finish_frame(store, caller_role, sum_role);
    let done_carry = done(store, done_tag, carry_role);
    let before = pair(store, finish, done_carry);
    let result = sequence(store, &[sum_role, carry_role]);
    let after = pair(store, caller_role, result);
    proof {
        lemma_increasing_distinct(roles@);
    }
    admit_bundle_rule(store, theory, c, &roles, before, &[after]);
}

/// A half adder return: `frame_tag(K, x) -> [s, carry]` becomes
/// `next_tag(K, keep) -> Call(function, args)`, indexed under every
/// possible half adder result. The roles are `[K, x, s, carry]`; `keep`
/// and the two arguments are picked among them by the caller.
fn install_half_return(
    store: &mut OptimizedLinkStore,
    theory: Handle,
    apply: Handle,
    function: Handle,
    frame_tag: Handle,
    next_tag: Handle,
    half_outputs: [Handle; 3],
    roles: [Handle; 4],
    keep: Handle,
    args: [Handle; 2],
)
    requires
        has_room(old(store), 50),
        holds(old(store), theory),
        holds(old(store), apply),
        holds(old(store), function),
        holds(old(store), frame_tag),
        holds(old(store), next_tag),
        forall|i: int| 0 <= i < 3 ==> holds(old(store), #[trigger] half_outputs@[i]),
        increasing(roles@),
        forall|i: int| 0 <= i < 4 ==> holds(old(store), #[trigger] roles@[i]),
        holds(old(store), keep),
        holds(old(store), args[0]),
        holds(old(store), args[1]),
    ensures
        grown(old(store), final(store), 50),
{
    let frame = tagged_frame(store, frame_tag, roles[0], roles[1]);
    let half_result = sequence(store, &[roles[2], roles[3]]);
    let before = pair(store, frame, half_result);
    let next_frame = tagged_frame(store, next_tag, roles[0], keep);
    let next_args = sequence(store, &args);
    let next_call = call(store, apply, function, next_args);
    let after = pair(store, next_frame, next_call);
    proof {
        lemma_increasing_distinct(roles@);
    }
    let (_, admission) = define_bundle_rule(store, theory, &roles, before, &[after]);
    index_rule_for(store, &half_outputs, admission);
}

/// One OR row: `OrFrame(K, sum) -> Call(OR, argseq)` becomes
/// `FullFinishFrame(K, sum) -> FullDone(cout)`.
fn install_or_row(
    store: &mut OptimizedLinkStore,
    theory: Handle,
    o: Handle,
    apply: Handle,
    or: Handle,
    or_tag: Handle,
    full_finish_tag: Handle,
    full_done_tag: Handle,
    argseq: Handle,
    cout: Handle,
    k_role: Handle,
    sum_role: Handle,
)
    requires
        has_room(old(store), 25),
        holds(old(store), theory),
        holds(old(store), o),
        holds(old(store), apply),
        holds(old(store), or),
        holds(old(store), or_tag),
        holds(old(store), full_finish_tag),
        holds(old(store), full_done_tag),
        holds(old(store), argseq),
        holds(old(store), cout),
        holds(old(store), k_role),
        holds(old(store), sum_role),
        k_role < sum_role,
    ensures
        grown(old(store), final(store), 25),
{
    let frame = tagged_frame(store, or_tag, k_role, sum_role);
    let before_call = call(store, apply, or, argseq);
    let before = pair(store, frame, before_call);
    let finish = tagged_frame(store, full_finish_tag, k_role, sum_role);
    // The full adder returns under its own tag: `C -> cout` would also match
    // the generic half adder finalization.
    let done_cout = done(store, full_done_tag, cout);
    let after = pair(store, finish, done_cout);
    let roles = [k_role, sum_role];
    proof {
        lemma_increasing_distinct(roles@);
    }
    admit_bundle_rule(store, theory, o, &roles, before, &[after]);
}

/// `FULL FINALIZE`: `FullFinishFrame(K, sum) -> FullDone(cout)` becomes
/// `K -> [sum, cout]`.
fn install_full_finalize(
    store: &mut OptimizedLinkStore,
    theory: Handle,
    full_finish_tag: Handle,
    full_done_tag: Handle,
    roles: [Handle; 3],
)
    requires
        has_room(old(store), 30),
        holds(old(store), theory),
        holds(old(store), full_finish_tag),
        holds(old(store), full_done_tag),
        increasing(roles@),
        forall|i: int| 0 <= i < 3 ==> holds(old(store), #[trigger] roles@[i]),
    ensures
        grown(old(store), final(store), 30),
{
    let (k_role, sum_role, cout_role) = (roles[0], roles[1], roles[2]);
    let finish = tagged_frame(store, full_finish_tag, k_role, sum_role);
    let done_cout = done(store, full_done_tag, cout_role);
    let before = pair(store, finish, done_cout);
    let result = sequence(store, &[sum_role, cout_role]);
    let after = pair(store, k_role, result);
    proof {
        lemma_increasing_distinct(roles@);
    }
    admit_bundle_rule(store, theory, full_done_tag, &roles, before, &[after]);
}

/// The Link identities of the full adder program.
#[derive(Clone, Copy)]
struct AdderNames {
    theory: Handle,
    o: Handle,
    c: Handle,
    apply: Handle,
    done_tag: Handle,
    zero: Handle,
    one: Handle,
    half: Handle,
    xor: Handle,
    and: Handle,
    or: Handle,
    full: Handle,
    h1_tag: Handle,
    h2_tag: Handle,
    or_tag: Handle,
    full_finish_tag: Handle,
    full_done_tag: Handle,
    a00: Handle,
    a01: Handle,
    a10: Handle,
    a11: Handle,
}

impl AdderNames {
    spec fn held(&self, store: &OptimizedLinkStore) -> bool {
        &&& holds(store, self.theory)
        &&& holds(store, self.o)
        &&& holds(store, self.c)
        &&& holds(store, self.apply)
        &&& holds(store, self.done_tag)
        &&& holds(store, self.zero)
        &&& holds(store, self.one)
        &&& holds(store, self.half)
        &&& holds(store, self.xor)
        &&& holds(store, self.and)
        &&& holds(store, self.or)
        &&& holds(store, self.full)
        &&& holds(store, self.h1_tag)
        &&& holds(store, self.h2_tag)
        &&& holds(store, self.or_tag)
        &&& holds(store, self.full_finish_tag)
        &&& holds(store, self.full_done_tag)
        &&& holds(store, self.a00)
        &&& holds(store, self.a01)
        &&& holds(store, self.a10)
        &&& holds(store, self.a11)
    }
}

/// Anchors that are Links of the store, strictly increasing.
pub open spec fn anchors_held(store: &OptimizedLinkStore, anchors: Seq<Handle>, count: int) -> bool {
    &&& anchors.len() == count
    &&& increasing(anchors)
    &&& forall|i: int| 0 <= i < count ==> holds(store, #[trigger] anchors[i])
}

/// The half adder: OPEN, the XOR and AND rows, FINALIZE.
#[verifier::rlimit(100)]
fn install_half_adder(store: &mut OptimizedLinkStore, n: AdderNames, anchors: &Vec<Handle>)
    requires
        has_room(old(store), 250),
        n.held(old(store)),
        anchors_held(old(store), anchors@, 320),
    ensures
        grown(old(store), final(store), 250),
{
    install_half_open(store, n.theory, n.o, n.apply, n.half, n.xor, anchors[50], anchors[51]);
    install_xor_row(store, n.theory, n.o, n.apply, n.xor, n.and, n.a00, n.zero, anchors[60]);
    install_xor_row(store, n.theory, n.o, n.apply, n.xor, n.and, n.a01, n.one, anchors[61]);
    install_xor_row(store, n.theory, n.o, n.apply, n.xor, n.and, n.a10, n.one, anchors[62]);
    install_xor_row(store, n.theory, n.o, n.apply, n.xor, n.and, n.a11, n.zero, anchors[63]);
    install_and_row(store, n.theory, n.o, n.apply, n.and, n.done_tag, n.a00, n.zero, anchors[64], anchors[65]);
    install_and_row(store, n.theory, n.o, n.apply, n.and, n.done_tag, n.a01, n.zero, anchors[66], anchors[67]);
    install_and_row(store, n.theory, n.o, n.apply, n.and, n.done_tag, n.a10, n.zero, anchors[68], anchors[69]);
    install_and_row(store, n.theory, n.o, n.apply, n.and, n.done_tag, n.a11, n.one, anchors[70], anchors[71]);
    let roles = [anchors[90], anchors[91], anchors[92]];
    install_half_finalize(store, n.theory, n.c, n.done_tag, roles);
}

/// The full adder: OPEN, the two half adder returns, the OR rows, FINALIZE.
#[verifier::rlimit(100)]
fn install_full_adder(store: &mut OptimizedLinkStore, n: AdderNames, anchors: &Vec<Handle>)
    requires
        has_room(old(store), 300),
        n.held(old(store)),
        anchors_held(old(store), anchors@, 320),
    ensures
        grown(old(store), final(store), 300),
{
    let open_roles = [anchors[40], anchors[41], anchors[42], anchors[43]];
    install_full_open(store, n.theory, n.o, n.apply, n.full, n.half, n.h1_tag, open_roles);

    // Every possible half adder result; the continuations are generic but
    // indexed under each result sequence.
    let h00 = sequence(store, &[n.zero, n.zero]);
    let h10 = sequence(store, &[n.one, n.zero]);
    let h01 = sequence(store, &[n.zero, n.one]);
    let half_outputs = [h00, h10, h01];

    // H1 return: H1Frame(K, cin) -> [s1, c1] becomes
    // H2Frame(K, c1) -> Call(HALF, [s1, cin]).
    let h1_roles = [anchors[100], anchors[101], anchors[102], anchors[103]];
    install_half_return(
        store,
        n.theory,
        n.apply,
        n.half,
        n.h1_tag,
        n.h2_tag,
        half_outputs,
        h1_roles,
        anchors[103],
        [anchors[102], anchors[101]],
    );
    // H2 return: H2Frame(K, c1) -> [sum, c2] becomes
    // OrFrame(K, sum) -> Call(OR, [c1, c2]).
    let h2_roles = [anchors[110], anchors[111], anchors[112], anchors[113]];
    install_half_return(
        store,
        n.theory,
        n.apply,
        n.or,
        n.h2_tag,
        n.or_tag,
        half_outputs,
        h2_roles,
        anchors[112],
        [anchors[111], anchors[113]],
    );

    install_or_row(store, n.theory, n.o, n.apply, n.or, n.or_tag, n.full_finish_tag, n.full_done_tag, n.a00, n.zero, anchors[72], anchors[73]);
    install_or_row(store, n.theory, n.o, n.apply, n.or, n.or_tag, n.full_finish_tag, n.full_done_tag, n.a01, n.one, anchors[74], anchors[75]);
    install_or_row(store, n.theory, n.o, n.apply, n.or, n.or_tag, n.full_finish_tag, n.full_done_tag, n.a10, n.one, anchors[76], anchors[77]);
    install_or_row(store, n.theory, n.o, n.apply, n.or, n.or_tag, n.full_finish_tag, n.full_done_tag, n.a11, n.one, anchors[78], anchors[79]);

    let finalize_roles = [anchors[140], anchors[141], anchors[142]];
    install_full_finalize(store, n.theory, n.full_finish_tag, n.full_done_tag, finalize_roles);
}

/// The Link identities of the full adder program, taken from the anchors,
/// and the four two-bit argument sequences.
#[verifier::rlimit(100)]
fn adder_names(
    store: &mut OptimizedLinkStore,
    anchors: &Vec<Handle>,
    theory: Handle,
    o: Handle,
    c: Handle,
    zero: Handle,
    one: Handle,
) -> (n: AdderNames)
    requires
        has_room(old(store), 100),
        anchors_held(old(store), anchors@, 320),
        holds(old(store), theory),
        holds(old(store), o),
        holds(old(store), c),
        holds(old(store), zero),
        holds(old(store), one),
    ensures
        grown(old(store), final(store), 100),
        n.held(final(store)),
        n.theory == theory && n.o == o && n.c == c && n.apply == o && n.done_tag == c,
        n.zero == zero && n.one == one,
{
    // Ordinary Link identities; the engine has no gate or opcode knowledge.
    let half = pair(store, anchors[4], anchors[5]);
    let xor = pair(store, anchors[6], anchors[7]);
    let and = pair(store, anchors[8], anchors[9]);
    let or = pair(store, anchors[10], anchors[11]);
    let full = pair(store, anchors[12], anchors[13]);
    let h1_tag = pair(store, anchors[16], anchors[17]);
    let h2_tag = pair(store, anchors[18], anchors[19]);
    let or_tag = pair(store, anchors[20], anchors[21]);
    let full_finish_tag = pair(store, anchors[22], anchors[23]);
    let full_done_tag = pair(store, anchors[24], anchors[25]);
    let a00 = sequence(store, &[zero, zero]);
    let a01 = sequence(store, &[zero, one]);
    let a10 = sequence(store, &[one, zero]);
    let a11 = sequence(store, &[one, one]);
    // Call and done tags are the accepted structural Links `o` and `c`.
    AdderNames {
        theory,
        o,
        c,
        apply: o,
        done_tag: c,
        zero,
        one,
        half,
        xor,
        and,
        or,
        full,
        h1_tag,
        h2_tag,
        or_tag,
        full_finish_tag,
        full_done_tag,
        a00,
        a01,
        a10,
        a11,
    }
}

/// The eight three-bit argument sequences, indexed `[a][b][cin]`.
fn argument_triples(store: &mut OptimizedLinkStore, zero: Handle, one: Handle) -> (args3: [[[Handle; 2]; 2]; 2])
    requires
        has_room(old(store), 48),
        holds(old(store), zero),
        holds(old(store), one),
    ensures
        grown(old(store), final(store), 48),
        forall|a: int, b: int, x: int|
            0 <= a < 2 && 0 <= b < 2 && 0 <= x < 2 ==> holds(final(store), #[trigger] args3[a][b][x]),
{
    let a000 = sequence(store, &[zero, zero, zero]);
    let a001 = sequence(store, &[zero, zero, one]);
    let a010 = sequence(store, &[zero, one, zero]);
    let a011 = sequence(store, &[zero, one, one]);
    let a100 = sequence(store, &[one, zero, zero]);
    let a101 = sequence(store, &[one, zero, one]);
    let a110 = sequence(store, &[one, one, zero]);
    let a111 = sequence(store, &[one, one, one]);
    [[[a000, a001], [a010, a011]], [[a100, a101], [a110, a111]]]
}

impl Fixture {
    /// Installs the full adder made of gates: reusable XOR, AND and OR gate
    /// rows, a half adder composed of them, and a full adder composed of two
    /// half adders and an OR, all as structural rules admitted by one
    /// theory; the engine runs under that theory's interpreter. A full
    /// adder call takes 13 reactions.
    #[verifier::rlimit(100)]
    pub fn new() -> (f: Fixture)
        ensures
            f.wf(),
            f.engine.scope_cap() == 32,
            f.engine.interpreter_view() == Some(f.interpreter),
            f.engine.current_view() == Seq::<Handle>::empty(),
            f.apply == f.o,
            f.store.links().len() <= 100000,
    {
        let mut store = OptimizedLinkStore::new();
        let (o, c, l, u) = basis(&mut store);
        let anchors = fresh(&mut store, o, c, u, l, 320);

        let theory = pair(&mut store, anchors[0], anchors[1]);
        let authority_dictionary = dictionary(&mut store, &[]);
        let grammar = pair(&mut store, anchors[2], anchors[3]);
        let interp = interpreter(&mut store, authority_dictionary, grammar, theory);
        let mut engine = OptimizedStructuralEngine::new(32);
        match engine.set_interpreter(&store, interp) {
            Ok(()) => {},
            Err(_) => {
                proof {
                    assert(false);
                }
            },
        }

        let k = pair(&mut store, anchors[14], anchors[15]);
        // The two bits are the accepted structural Links `u` and `l`.
        let names = adder_names(&mut store, &anchors, theory, o, c, u, l);
        let args3 = argument_triples(&mut store, u, l);
        install_full_adder(&mut store, names, &anchors);
        install_half_adder(&mut store, names, &anchors);
        Fixture { store, engine, o, c, theory, interpreter: interp, full: names.full, k, zero: u, one: l, apply: o, args3 }
    }
}

/// `count` anchors chained from `seed`, alternating the poles `o` and `c`.
pub fn fresh_from(store: &mut OptimizedLinkStore, seed: Handle, o: Handle, c: Handle, count: usize) -> (anchors:
    Vec<Handle>)
    requires
        has_room(old(store), count as nat),
        holds(old(store), seed),
        holds(old(store), o),
        holds(old(store), c),
    ensures
        grown(old(store), final(store), count as nat),
        anchors_held(final(store), anchors@, count as int),
{
    let mut seed = seed;
    let mut result: Vec<Handle> = Vec::new();
    let mut i: usize = 0;
    while i < count
        invariant
            i <= count,
            result@.len() == i,
            grown(old(store), store, i as nat),
            has_room(old(store), count as nat),
            holds(old(store), o),
            holds(old(store), c),
            holds(store, seed),
            increasing(result@),
            forall|j: int| 0 <= j < i ==> holds(store, #[trigger] result@[j]) && result@[j] <= seed,
        decreases count - i,
    {
        let pole = if i % 2 == 0 {
            o
        } else {
            c
        };
        seed = pair(store, seed, pole);
        result.push(seed);
        i += 1;
    }
    result
}

/// A staged frame: `START(PAIR(tag, ExactSequence(values)))`.
pub fn stage_frame(store: &mut OptimizedLinkStore, tag: Handle, values: &[Handle]) -> (h: Handle)
    requires
        has_room(old(store), 2 * values@.len() + 2),
        holds(old(store), tag),
        forall|i: int| 0 <= i < values@.len() ==> holds(old(store), #[trigger] values@[i]),
    ensures
        grown(old(store), final(store), 2 * values@.len() + 2),
        holds(final(store), h),
{
    let payload = sequence(store, values);
    let descriptor = pair(store, tag, payload);
    start_form(store, descriptor)
}

} // verus!
