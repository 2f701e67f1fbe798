use context_primitives::ambient::AmbientStore;
use context_primitives::scope::{
    collect_scope_props, compose_context_scopes, create_context_scope, ContextHandle, Scope,
    ScopeHookFactory, ScopeProps,
};

fn base_scope_value(props: &ScopeProps<u64>, key: &str) -> Vec<(String, Vec<ContextHandle<u64>>)> {
    let scope = props.get(&key.to_string()).expect("key must be present");
    let map = scope.as_ref().expect("scope must be present");
    let mut out = Vec::new();
    let mut i: usize = 0;
    while i < map.len() {
        out.push((map.name_at(i).clone(), map.contexts_at(i).clone()));
        i += 1;
    }
    out
}

#[test]
fn registry_assigns_indices_in_call_order() {
    let (mut creator, _factory) = create_context_scope::<u64>("A", Vec::new());
    let (p0, c0) = creator.create("RootA", Some(1));
    let (p1, c1) = creator.create("RootA", None);
    let (p2, c2) = creator.create("RootA", Some(3));
    assert_eq!(p0.index(), 0);
    assert_eq!(c0.index(), 0);
    assert_eq!(p1.index(), 1);
    assert_eq!(c1.index(), 1);
    assert_eq!(p2.index(), 2);
    assert_eq!(c2.index(), 2);
    assert_eq!(creator.registered(), 3);
    assert_eq!(p0.scope_name().as_str(), "A");
    assert_eq!(creator.scope_name().as_str(), "A");
}

#[test]
fn factory_sees_registrations_made_after_it() {
    // The factory handed back by create_context_scope holds no snapshot: its
    // hook reads the registry at invocation time.
    let (mut creator, factory) = create_context_scope::<u64>("A", Vec::new());
    let before = factory.hook(&creator, &None);
    assert_eq!(base_scope_value(&before, "__scopeA"), vec![("A".to_string(), vec![])]);
    creator.create("RootA", Some(10));
    creator.create("RootA", None);
    let after = factory.hook(&creator, &None);
    assert_eq!(
        base_scope_value(&after, "__scopeA"),
        vec![("A".to_string(), vec![ContextHandle::Value(10), ContextHandle::Placeholder])]
    );
}

#[test]
fn rederiving_scope_mapping_is_stable() {
    let (mut creator, factory) = create_context_scope::<u64>("A", Vec::new());
    creator.create("RootA", Some(10));
    creator.create("RootA", None);
    let props1 = factory.hook(&creator, &None);
    let props2 = factory.hook(&creator, &None);
    assert_eq!(props1.len(), 1);
    assert_eq!(props2.len(), 1);
    assert_eq!(props1.key_at(0).as_str(), props2.key_at(0).as_str());
    assert_eq!(base_scope_value(&props1, "__scopeA"), base_scope_value(&props2, "__scopeA"));
}

#[test]
fn base_hook_builds_context_list_with_placeholders() {
    let (mut creator, factory) = create_context_scope::<u64>("A", Vec::new());
    creator.create("RootA", Some(10));
    creator.create("RootA", None);
    let props = factory.hook(&creator, &None);
    assert_eq!(props.len(), 1);
    assert_eq!(props.key_at(0).as_str(), "__scopeA");
    let entries = base_scope_value(&props, "__scopeA");
    assert_eq!(
        entries,
        vec![
            ("A".to_string(), vec![ContextHandle::Value(10), ContextHandle::Placeholder]),
        ]
    );
}

#[test]
fn base_hook_preserves_sibling_scope_entries() {
    let (mut creator_a, factory_a) = create_context_scope::<u64>("A", Vec::new());
    creator_a.create("RootA", Some(1));
    let (mut creator_b, factory_b) = create_context_scope::<u64>("B", Vec::new());
    creator_b.create("RootB", Some(2));

    let props_a = factory_a.hook(&creator_a, &None);
    let scope_a: &Scope<u64> = props_a.scope_at(0);
    let inner_a = scope_a.as_ref().expect("scope must be present");
    // Feed A's scope into B's hook: the sibling entry for "A" must survive.
    let props_b = factory_b.hook(&creator_b, &Some(inner_a.duplicate()));
    let entries = base_scope_value(&props_b, "__scopeB");
    assert_eq!(
        entries,
        vec![
            ("A".to_string(), vec![ContextHandle::Value(1)]),
            ("B".to_string(), vec![ContextHandle::Value(2)]),
        ]
    );
}

#[test]
fn distinct_scope_names_lose_nothing_in_the_fold() {
    let (mut creator_a, _fa) = create_context_scope::<u64>("A", Vec::new());
    creator_a.create("RootA", Some(1));
    creator_a.create("RootA", Some(2));
    let (mut creator_b, _fb) = create_context_scope::<u64>("B", Vec::new());
    creator_b.create("RootB", Some(7));

    // Factories of two different scopes are composed in sealed form: each
    // carries its own registry's list, so the one registry supplied at hook
    // time (ignored by sealed parts) cannot be ambiguous.
    let parts = vec![creator_a.hook_factory(), creator_b.hook_factory()];
    let folded = collect_scope_props(&parts, &creator_a, &None);
    assert_eq!(folded.len(), 2);
    let entries_a = base_scope_value(&folded, "__scopeA");
    assert_eq!(
        entries_a,
        vec![("A".to_string(), vec![ContextHandle::Value(1), ContextHandle::Value(2)])]
    );
    let entries_b = base_scope_value(&folded, "__scopeB");
    assert_eq!(entries_b, vec![("B".to_string(), vec![ContextHandle::Value(7)])]);

    // The composed hook reduces the fold to its first entry under the fixed
    // base key: both of A's and B's context lists were in the fold, but only
    // the first factory's scope stays addressable after the reduction.
    let composed = compose_context_scopes(vec![creator_a.hook_factory(), creator_b.hook_factory()]);
    let reduced = composed.hook(&creator_a, &None);
    assert_eq!(reduced.len(), 1);
    assert_eq!(reduced.key_at(0).as_str(), "__scopebaseScope");
    let reduced_entries = base_scope_value(&reduced, "__scopebaseScope");
    assert_eq!(
        reduced_entries,
        vec![("A".to_string(), vec![ContextHandle::Value(1), ContextHandle::Value(2)])]
    );
}

#[test]
fn colliding_scope_names_keep_only_the_later_entry() {
    let (mut creator_one, factory_one) = create_context_scope::<u64>("A", Vec::new());
    let (mut creator_two, factory_two) = create_context_scope::<u64>("A", Vec::new());
    creator_one.create("RootOne", Some(1));
    creator_two.create("RootTwo", Some(2));

    // Both factories read the scope "A" registry supplied at hook time —
    // here the second one — and both write the key "__scopeA", so the fold
    // holds one entry with the later registry's list; the first is gone.
    let composed = compose_context_scopes(vec![factory_one, factory_two]);
    match &composed {
        ScopeHookFactory::Composed { parts } => {
            let folded = collect_scope_props(parts, &creator_two, &None);
            assert_eq!(folded.len(), 1);
            let entries = base_scope_value(&folded, "__scopeA");
            assert_eq!(entries, vec![("A".to_string(), vec![ContextHandle::Value(2)])]);
        },
        _ => panic!("two factories must compose"),
    }
    let reduced = composed.hook(&creator_two, &None);
    let reduced_entries = base_scope_value(&reduced, "__scopebaseScope");
    assert_eq!(reduced_entries, vec![("A".to_string(), vec![ContextHandle::Value(2)])]);
}

#[test]
fn composing_a_single_factory_changes_nothing() {
    let (mut creator, factory) = create_context_scope::<u64>("A", Vec::new());
    creator.create("RootA", Some(5));
    let direct = factory.hook(&creator, &None);
    let composed = compose_context_scopes(vec![factory]);
    let via_composed = composed.hook(&creator, &None);
    assert_eq!(via_composed.len(), direct.len());
    assert_eq!(via_composed.key_at(0).as_str(), direct.key_at(0).as_str());
    assert_eq!(
        base_scope_value(&via_composed, "__scopeA"),
        base_scope_value(&direct, "__scopeA")
    );
}

#[test]
fn composing_no_factories_yields_an_empty_mapping() {
    let (creator, _factory) = create_context_scope::<u64>("A", Vec::new());
    let composed = compose_context_scopes::<u64>(Vec::new());
    let props = composed.hook(&creator, &None);
    assert_eq!(props.len(), 0);
}

#[test]
fn scope_creation_composes_dependency_factories() {
    let (mut creator_b, _fb) = create_context_scope::<u64>("B", Vec::new());
    creator_b.create("RootB", Some(9));
    let deps = vec![creator_b.hook_factory()];
    let (mut creator_a, factory) = create_context_scope::<u64>("A", deps);
    match &factory {
        ScopeHookFactory::Composed { parts } => assert_eq!(parts.len(), 2),
        _ => panic!("a scope with dependencies must compose"),
    }
    creator_a.create("RootA", Some(5));
    let props = factory.hook(&creator_a, &None);
    assert_eq!(props.len(), 1);
    assert_eq!(props.key_at(0).as_str(), "__scopebaseScope");
    // The new scope's own factory runs first, so its current context list —
    // including the registration made after the factory was built — is the
    // one addressable under the base key.
    let entries = base_scope_value(&props, "__scopebaseScope");
    assert_eq!(entries, vec![("A".to_string(), vec![ContextHandle::Value(5)])]);
}

#[test]
fn scoped_provider_injects_and_consumer_reads() {
    let (mut creator, _factory) = create_context_scope::<u64>("A", Vec::new());
    let (provider, consumer) = creator.create("RootA", Some(40));
    let mut store = AmbientStore::empty();
    provider.render(11, &mut store);
    assert_eq!(consumer.consume("useSlot", &store), 11);
}

#[test]
fn scoped_consumer_falls_back_and_fails_loudly() {
    let (mut creator, _factory) = create_context_scope::<u64>("A", Vec::new());
    let (_provider, with_default) = creator.create("AccordionRoot", Some(40));
    let (_provider2, without_default) = creator.create("AccordionRoot", None);
    let store = AmbientStore::empty();
    assert_eq!(with_default.consume("useAccordion", &store), 40);
    match without_default.try_consume("useAccordionItem", &store) {
        Ok(_) => panic!("a consumer with no provider and no default must fail"),
        Err(msg) => {
            assert_eq!(msg, "`useAccordionItem` must be used within `AccordionRoot`");
        },
    }
}
