use amemory_optimized_cpu_probe::structural::{
    admit_structural_rule, define_structural_interpreter, define_structural_role_dictionary,
    define_structural_rule, discover_triggered_rule_images, index_structural_rule_trigger,
    instantiate_structural_template, materialize_exact_sequence, read_exact_sequence,
    read_structural_interpreter, read_structural_role_dictionary, unify_structural_rule_template,
    OptimizedStructuralEngine, StructuralError, StructuralInterpreter, StructuralRoleBinding,
};
use amemory_optimized_cpu_probe::{Handle, OptimizedLinkStore, StoreError, ROOT_HANDLE};

fn fresh(store: &mut OptimizedLinkStore, count: usize) -> Vec<Handle> {
    let o = store.ensure_start_self_closed(ROOT_HANDLE).unwrap();
    let c = store.ensure_end_self_closed(ROOT_HANDLE).unwrap();
    let mut seed = store.ensure_pair(c, o).unwrap();
    let mut result = Vec::new();
    for i in 0..count {
        seed = store
            .ensure_pair(seed, if i % 2 == 0 { o } else { c })
            .unwrap();
        result.push(seed);
    }
    result
}

#[test]
fn exact_sequence_is_root_originating_and_ordered() {
    let mut store = OptimizedLinkStore::new();
    let o = store.ensure_start_self_closed(ROOT_HANDLE).unwrap();
    let c = store.ensure_end_self_closed(ROOT_HANDLE).unwrap();

    let empty = materialize_exact_sequence(&mut store, &[]).unwrap();
    assert_eq!(empty, ROOT_HANDLE);

    let oc = materialize_exact_sequence(&mut store, &[o, c]).unwrap();
    let co = materialize_exact_sequence(&mut store, &[c, o]).unwrap();
    assert_ne!(oc, co);
    assert_eq!(read_exact_sequence(&store, oc).unwrap(), vec![o, c]);
    assert_eq!(read_exact_sequence(&store, co).unwrap(), vec![c, o]);

    let raw_pair = store.ensure_pair(o, c).unwrap();
    assert_ne!(oc, raw_pair);
}

#[test]
fn structural_unifier_preserves_self_incidence_and_repeated_roles() {
    let mut store = OptimizedLinkStore::new();
    let anchors = fresh(&mut store, 12);
    let role = anchors[0];
    let value = anchors[1];

    let repeated_template = store.ensure_pair(role, role).unwrap();
    let repeated_claim = store.ensure_pair(value, value).unwrap();
    let bindings =
        unify_structural_rule_template(&store, repeated_template, repeated_claim, &[role])
            .unwrap();
    assert_eq!(bindings, vec![StructuralRoleBinding { role, value }]);

    let other = anchors[2];
    let inconsistent = store.ensure_pair(value, other).unwrap();
    assert_eq!(
        unify_structural_rule_template(&store, repeated_template, inconsistent, &[role]),
        Err(StructuralError::TemplateMismatch)
    );

    let start_template = store.ensure_start_self_closed(role).unwrap();
    let ordinary_claim = store.ensure_pair(value, other).unwrap();
    assert_eq!(
        unify_structural_rule_template(&store, start_template, ordinary_claim, &[role]),
        Err(StructuralError::TemplateMismatch)
    );
}

#[test]
fn generic_rule_instantiates_bound_output() {
    let mut store = OptimizedLinkStore::new();
    let anchors = fresh(&mut store, 20);
    let theory = anchors[0];
    let grammar = anchors[1];
    let caller = anchors[3];
    let input = anchors[4];
    let output = anchors[5];

    // fresh[] is a recursively nested chain. Use a later Link as the
    // placeholder role so the grounded input does not structurally contain
    // that same role occurrence.
    let role = anchors[10];

    let authority_dictionary = define_structural_role_dictionary(&mut store, &[]).unwrap();
    let interpreter =
        define_structural_interpreter(&mut store, authority_dictionary, grammar, theory)
            .unwrap();

    let role_dictionary = define_structural_role_dictionary(&mut store, &[role]).unwrap();

    let before = store.ensure_pair(role, input).unwrap();
    let after = store.ensure_pair(role, output).unwrap();
    let bundle = materialize_exact_sequence(&mut store, &[after]).unwrap();
    let body = store.ensure_pair(before, bundle).unwrap();
    let rule = define_structural_rule(&mut store, role_dictionary, body).unwrap();
    let admission = admit_structural_rule(&mut store, theory, rule).unwrap();

    let endpoint = input;
    let (trigger_key, _) = store.poles(endpoint).unwrap();
    index_structural_rule_trigger(&mut store, trigger_key, admission).unwrap();

    let active = store.ensure_pair(caller, input).unwrap();

    assert_eq!(
        read_structural_role_dictionary(&store, role_dictionary).unwrap(),
        vec![role],
        "role dictionary"
    );
    assert_eq!(
        unify_structural_rule_template(&store, before, active, &[role]).unwrap(),
        vec![StructuralRoleBinding { role, value: caller }],
        "structural unification"
    );

    let (_, endpoint) = store.poles(active).unwrap();
    let (derived_trigger_key, _) = store.poles(endpoint).unwrap();
    assert_eq!(derived_trigger_key, trigger_key, "trigger projection");

    let trigger_members = store.start_incidence(trigger_key).unwrap().to_vec();
    assert!(
        trigger_members.contains(&store.ensure_pair(trigger_key, admission).unwrap()),
        "trigger index contains admission projection"
    );

    let images = discover_triggered_rule_images(&store, theory, active).unwrap();
    assert_eq!(images.len(), 1, "one discoverable structural image");

    let mut engine = OptimizedStructuralEngine::new(8);
    engine.set_interpreter(&store, interpreter).unwrap();
    engine.set_current(&store, &[active]).unwrap();

    let reaction = engine.run(&mut store).unwrap();
    let expected = store.ensure_pair(caller, output).unwrap();

    assert_eq!(reaction.raw_rule_matches, 1);
    assert_eq!(reaction.transitioned_members, 1);
    assert_eq!(reaction.handoff_count, 1);
    assert!(!reaction.quiescent);
    assert_eq!(engine.current(), &[expected]);

    let stable = engine.current_bank();
    let quiescent = engine.run(&mut store).unwrap();
    assert!(quiescent.quiescent);
    assert_eq!(quiescent.handoff_count, 0);
    assert_eq!(engine.current_bank(), stable);
    assert_eq!(engine.current(), &[expected]);
}

#[test]
fn role_dictionary_rejects_unknown_and_repeated_roles() {
    let mut store = OptimizedLinkStore::new();
    let anchors = fresh(&mut store, 4);
    assert_eq!(
        define_structural_role_dictionary(&mut store, &[anchors[0], 999]),
        Err(StructuralError::Store(StoreError::UnknownHandle(999)))
    );
    assert_eq!(
        define_structural_role_dictionary(&mut store, &[anchors[0], anchors[1], anchors[0]]),
        Err(StructuralError::DuplicateRole)
    );
    let dictionary =
        define_structural_role_dictionary(&mut store, &[anchors[2], anchors[1]]).unwrap();
    assert_eq!(
        read_structural_role_dictionary(&store, dictionary).unwrap(),
        vec![anchors[2], anchors[1]]
    );
    assert_eq!(
        read_structural_role_dictionary(&store, anchors[0]),
        Err(StructuralError::InvalidRoleDictionary(anchors[0]))
    );
    assert_eq!(
        read_structural_role_dictionary(&store, 5000),
        Err(StructuralError::Store(StoreError::UnknownHandle(5000)))
    );
}

#[test]
fn exact_sequence_reports_unknown_and_invalid_cells() {
    let mut store = OptimizedLinkStore::new();
    let anchors = fresh(&mut store, 3);
    assert_eq!(
        materialize_exact_sequence(&mut store, &[anchors[0], 777]),
        Err(StructuralError::Store(StoreError::UnknownHandle(777)))
    );
    assert_eq!(read_exact_sequence(&store, ROOT_HANDLE).unwrap(), Vec::<Handle>::new());
    assert_eq!(
        read_exact_sequence(&store, 777),
        Err(StructuralError::Store(StoreError::UnknownHandle(777)))
    );
    assert_eq!(
        read_exact_sequence(&store, anchors[1]),
        Err(StructuralError::InvalidExactSequence(anchors[1]))
    );
    let long = materialize_exact_sequence(&mut store, &[anchors[2], anchors[0], anchors[2]]).unwrap();
    assert_eq!(read_exact_sequence(&store, long).unwrap(), vec![anchors[2], anchors[0], anchors[2]]);
}

#[test]
fn interpreter_roundtrip_and_invalid_handle() {
    let mut store = OptimizedLinkStore::new();
    let anchors = fresh(&mut store, 3);
    let interpreter =
        define_structural_interpreter(&mut store, anchors[0], anchors[1], anchors[2]).unwrap();
    assert_eq!(
        read_structural_interpreter(&store, interpreter).unwrap(),
        StructuralInterpreter { dictionary: anchors[0], grammar: anchors[1], theory: anchors[2] }
    );
    assert_eq!(
        read_structural_interpreter(&store, 4242),
        Err(StructuralError::InvalidInterpreter(4242))
    );
}

#[test]
fn unifier_reports_duplicates_and_missing_bindings() {
    let mut store = OptimizedLinkStore::new();
    let anchors = fresh(&mut store, 6);
    let template = store.ensure_pair(anchors[0], anchors[1]).unwrap();
    assert_eq!(
        unify_structural_rule_template(&store, template, template, &[anchors[4], anchors[4]]),
        Err(StructuralError::DuplicateRole)
    );
    // A role absent from the template is never bound.
    assert_eq!(
        unify_structural_rule_template(&store, template, template, &[anchors[5]]),
        Err(StructuralError::MissingRoleBinding(anchors[5]))
    );
    // A role-free template must be identical to the claim.
    assert_eq!(
        unify_structural_rule_template(&store, template, anchors[2], &[]),
        Err(StructuralError::TemplateMismatch)
    );
    assert_eq!(unify_structural_rule_template(&store, template, template, &[]), Ok(vec![]));
}

#[test]
fn instantiation_replaces_roles_canonically() {
    let mut store = OptimizedLinkStore::new();
    let anchors = fresh(&mut store, 8);
    let role = anchors[7];
    let template = store.ensure_pair(role, anchors[1]).unwrap();
    let start_template = store.ensure_start_self_closed(template).unwrap();
    let grounded = instantiate_structural_template(
        &mut store,
        start_template,
        &[StructuralRoleBinding { role, value: anchors[0] }],
    )
    .unwrap();
    let pair = store.ensure_pair(anchors[0], anchors[1]).unwrap();
    assert_eq!(grounded, store.ensure_start_self_closed(pair).unwrap());
    assert_eq!(
        instantiate_structural_template(
            &mut store,
            template,
            &[
                StructuralRoleBinding { role, value: anchors[0] },
                StructuralRoleBinding { role, value: anchors[1] },
            ],
        ),
        Err(StructuralError::TemplateMismatch)
    );
    assert_eq!(
        instantiate_structural_template(&mut store, ROOT_HANDLE, &[]),
        Ok(ROOT_HANDLE)
    );
    assert_eq!(
        instantiate_structural_template(&mut store, 9999, &[]),
        Err(StructuralError::Store(StoreError::UnknownHandle(9999)))
    );
}

#[test]
fn matched_bindings_rebuild_the_claim() {
    let mut store = OptimizedLinkStore::new();
    let anchors = fresh(&mut store, 12);
    let (a, b) = (anchors[10], anchors[11]);
    // Template: START(PAIR(a, END(b))) with roles a and b.
    let end_b = store.ensure_end_self_closed(b).unwrap();
    let inner = store.ensure_pair(a, end_b).unwrap();
    let template = store.ensure_start_self_closed(inner).unwrap();
    // Claim: the same shape over anchors 1 and 2.
    let end_v = store.ensure_end_self_closed(anchors[2]).unwrap();
    let inner_v = store.ensure_pair(anchors[1], end_v).unwrap();
    let claim = store.ensure_start_self_closed(inner_v).unwrap();

    let bindings = unify_structural_rule_template(&store, template, claim, &[b, a]).unwrap();
    assert_eq!(
        bindings,
        vec![
            StructuralRoleBinding { role: b, value: anchors[2] },
            StructuralRoleBinding { role: a, value: anchors[1] },
        ]
    );
    let before = store.link_count();
    let rebuilt = instantiate_structural_template(&mut store, template, &bindings).unwrap();
    assert_eq!(rebuilt, claim);
    assert_eq!(store.link_count(), before);
}

#[test]
fn engine_scope_errors_and_normalization() {
    let mut store = OptimizedLinkStore::new();
    let anchors = fresh(&mut store, 4);
    let mut engine = OptimizedStructuralEngine::new(3);
    assert_eq!(engine.run(&mut store), Err(StructuralError::MissingInterpreter));
    assert!(!engine.quiescent());
    assert_eq!(
        engine.set_current(&store, &[anchors[0], anchors[1], anchors[2], anchors[3]]),
        Err(StructuralError::ScopeCapacity { requested: 4, cap: 3 })
    );
    assert_eq!(
        engine.set_current(&store, &[anchors[0], 31337]),
        Err(StructuralError::Store(StoreError::UnknownHandle(31337)))
    );
    engine.set_current(&store, &[anchors[1], anchors[1], anchors[0]]).unwrap();
    assert_eq!(engine.current(), &[anchors[1], anchors[0]]);
    assert_eq!(engine.bank(engine.current_bank()).unwrap(), &[anchors[1], anchors[0]]);
    assert_eq!(engine.bank(2), None);
    assert_eq!(
        engine.set_interpreter(&store, 8888),
        Err(StructuralError::InvalidInterpreter(8888))
    );

    // With an interpreter whose theory admits nothing, every member carries
    // over and the scope is quiescent.
    let dictionary = define_structural_role_dictionary(&mut store, &[]).unwrap();
    let interpreter =
        define_structural_interpreter(&mut store, dictionary, anchors[2], anchors[3]).unwrap();
    engine.set_interpreter(&store, interpreter).unwrap();
    let bank = engine.current_bank();
    let reaction = engine.run(&mut store).unwrap();
    assert!(reaction.quiescent);
    assert_eq!(reaction.raw_rule_matches, 0);
    assert_eq!(reaction.transitioned_members, 0);
    assert_eq!(reaction.next_members, vec![anchors[1], anchors[0]]);
    assert_eq!(reaction.old_members, vec![anchors[1], anchors[0]]);
    assert_eq!(engine.current_bank(), bank);
    assert_eq!(engine.raw_rule_matches(), 0);
    assert_eq!(engine.handoff_count(), 0);
    assert_eq!(engine.transitioned_members(), 0);
    assert!(engine.quiescent());
}

#[test]
fn store_error_lifts_into_structural_error() {
    let e: StructuralError = StoreError::CapacityExceeded.into();
    assert_eq!(e, StructuralError::Store(StoreError::CapacityExceeded));
}

#[test]
fn exact_sequences_are_canonical_and_injective() {
    let mut store = OptimizedLinkStore::new();
    let anchors = fresh(&mut store, 4);
    let ab = materialize_exact_sequence(&mut store, &[anchors[0], anchors[1]]).unwrap();
    let n = store.link_count();
    assert_eq!(materialize_exact_sequence(&mut store, &[anchors[0], anchors[1]]), Ok(ab));
    assert_eq!(store.link_count(), n);
    let ba = materialize_exact_sequence(&mut store, &[anchors[1], anchors[0]]).unwrap();
    let a = materialize_exact_sequence(&mut store, &[anchors[0]]).unwrap();
    assert_ne!(ab, ba);
    assert_ne!(ab, a);
    assert_ne!(a, ROOT_HANDLE);
    assert_eq!(store.poles(ab).unwrap().0, ab);
    assert_eq!(materialize_exact_sequence(&mut store, &[]), Ok(ROOT_HANDLE));
}
