use delegation::impl_trait::{
    BindSlot, GeneratedNames, LifetimeParam, Receiver, ReceiverKind, Signature, SlotPos, TraitDef, TraitError,
    TraitItem, classify_receiver,
};

fn method(ident: &str, receiver: Receiver) -> Signature {
    Signature {
        ident: ident.to_string(),
        receiver,
        lifetime_params: vec![],
        bounded_lifetimes: vec![],
        input_lifetimes: vec![],
        output_lifetimes: vec![],
        arg_count: 0,
    }
}

fn prepended(bounded: bool) -> Signature {
    // fn as_prepended_string<'s>(&self, prefix: &'s str) -> String
    Signature {
        ident: "as_prepended_string".to_string(),
        receiver: Receiver::Ref(None),
        lifetime_params: vec![LifetimeParam { name: "'s".to_string(), self_bounded: false }],
        bounded_lifetimes: if bounded { vec!["'s".to_string()] } else { vec![] },
        input_lifetimes: vec!["'s".to_string()],
        output_lifetimes: vec![],
        arg_count: 1,
    }
}

#[test]
fn receivers_are_classified_by_ownership_mode() {
    assert_eq!(classify_receiver(&Receiver::Value), Some(ReceiverKind::Owned));
    assert_eq!(classify_receiver(&Receiver::Ref(None)), Some(ReceiverKind::Ref));
    assert_eq!(
        classify_receiver(&Receiver::RefMut(Some("'a".to_string()))),
        Some(ReceiverKind::RefMut)
    );
    assert_eq!(classify_receiver(&Receiver::Typed), None);
    assert_eq!(classify_receiver(&Receiver::Missing), None);
}

#[test]
fn methods_are_partitioned_by_receiver() {
    let items = vec![
        TraitItem::Method(method("as_str", Receiver::Ref(None))),
        TraitItem::Method(method("into_string", Receiver::Value)),
        TraitItem::Method(method("as_mut_str", Receiver::RefMut(None))),
        TraitItem::Method(method("len", Receiver::Ref(None))),
    ];
    let def = TraitDef::parse("AsString".to_string(), items).unwrap();
    assert_eq!(def.owned, vec![1]);
    assert_eq!(def.by_ref, vec![0, 3]);
    assert_eq!(def.by_mut, vec![2]);
}

#[test]
fn typed_receiver_is_rejected() {
    let items = vec![
        TraitItem::Method(method("ok", Receiver::Ref(None))),
        TraitItem::Method(method("boxed", Receiver::Typed)),
    ];
    assert!(matches!(
        TraitDef::parse("T".to_string(), items),
        Err(TraitError::TypedReceiver(1))
    ));
    let items = vec![TraitItem::Method(method("free", Receiver::Missing))];
    assert!(matches!(
        TraitDef::parse("T".to_string(), items),
        Err(TraitError::TypedReceiver(0))
    ));
}

#[test]
fn associated_items_are_rejected() {
    let items = vec![
        TraitItem::Other,
        TraitItem::Method(method("boxed", Receiver::Typed)),
    ];
    assert!(matches!(
        TraitDef::parse("T".to_string(), items),
        Err(TraitError::NonMethodItem(0))
    ));
}

#[test]
fn lifetime_that_must_be_early_bound_is_rejected() {
    let sig = prepended(false);
    assert_eq!(sig.to_be_early_bounded_lifetimes(), vec!["'s"]);
    let items = vec![
        TraitItem::Method(method("as_str", Receiver::Ref(None))),
        TraitItem::Method(prepended(false)),
    ];
    match TraitDef::parse("AsStr".to_string(), items) {
        Err(TraitError::EarlyBoundLifetimes(1, ls)) => assert_eq!(ls, vec!["'s"]),
        other => panic!("unexpected: {other:?}"),
    }
}

#[test]
fn explicit_self_bound_allows_the_lifetime() {
    assert!(prepended(true).to_be_early_bounded_lifetimes().is_empty());
    let mut sig = prepended(false);
    sig.lifetime_params[0].self_bounded = true;
    assert!(sig.to_be_early_bounded_lifetimes().is_empty());
    let items = vec![TraitItem::Method(prepended(true))];
    assert!(TraitDef::parse("AsStr".to_string(), items).is_ok());
}

#[test]
fn lifetimes_of_receiver_return_or_trait_are_not_early_bound() {
    // fn name<'b>(&'b self, other: &'b str, x: &'t str) -> &'b str
    let sig = Signature {
        ident: "name".to_string(),
        receiver: Receiver::Ref(Some("'b".to_string())),
        lifetime_params: vec![LifetimeParam { name: "'b".to_string(), self_bounded: false }],
        bounded_lifetimes: vec![],
        input_lifetimes: vec!["'b".to_string(), "'t".to_string()],
        output_lifetimes: vec!["'b".to_string()],
        arg_count: 2,
    };
    assert!(sig.to_be_early_bounded_lifetimes().is_empty());
    // fn pick<'x>(&self, a: &'x str, b: &'x str) -> String
    let sig = Signature {
        ident: "pick".to_string(),
        receiver: Receiver::Ref(None),
        lifetime_params: vec![LifetimeParam { name: "'x".to_string(), self_bounded: false }],
        bounded_lifetimes: vec![],
        input_lifetimes: vec!["'x".to_string(), "'x".to_string()],
        output_lifetimes: vec![],
        arg_count: 2,
    };
    assert_eq!(sig.to_be_early_bounded_lifetimes(), vec!["'x"]);
}

#[test]
fn bind_slots_follow_ownership_order() {
    let mut into = method("into_string", Receiver::Value);
    into.arg_count = 0;
    let mut prefix = method("prefix", Receiver::Ref(None));
    prefix.arg_count = 2;
    let mut push = method("push", Receiver::RefMut(None));
    push.arg_count = 1;
    let items = vec![
        TraitItem::Method(prefix),
        TraitItem::Method(push),
        TraitItem::Method(into),
    ];
    let def = TraitDef::parse("T".to_string(), items).unwrap();
    let slots = def.bind_slots();
    let expected = vec![
        BindSlot { method: 2, pos: SlotPos::Return },
        BindSlot { method: 0, pos: SlotPos::Arg(0) },
        BindSlot { method: 0, pos: SlotPos::Arg(1) },
        BindSlot { method: 0, pos: SlotPos::Return },
        BindSlot { method: 1, pos: SlotPos::Arg(0) },
        BindSlot { method: 1, pos: SlotPos::Return },
    ];
    assert_eq!(slots, expected);
}

#[test]
fn early_bound_error_names_the_first_method_in_ownership_order() {
    let mut owned = prepended(false);
    owned.ident = "into_prepended".to_string();
    owned.receiver = Receiver::Value;
    let items = vec![
        TraitItem::Method(prepended(false)),
        TraitItem::Method(owned),
    ];
    match TraitDef::parse("T".to_string(), items) {
        Err(TraitError::EarlyBoundLifetimes(i, _)) => assert_eq!(i, 1),
        other => panic!("unexpected: {other:?}"),
    }
}

#[test]
fn generated_names_are_prefixed() {
    let n = GeneratedNames::of("AsStr");
    assert_eq!(n.owned, "__delegate_AsStr__DelegateOwned");
    assert_eq!(n.by_ref, "__delegate_AsStr__DelegateRef");
    assert_eq!(n.by_mut, "__delegate_AsStr__DelegateRefMut");
    assert_eq!(n.scope, "__delegate_AsStr__Scope");
    assert_eq!(n.bind, "__delegate_AsStr__Bind");
    assert_eq!(n.wrapper, "__delegate_AsStr__Wrapper");
}

#[test]
fn early_bound_error_lists_each_lifetime_once() {
    // fn prepend_with<'s>(&self, a: &'s str, b: &'s str) -> String
    let mut sig = prepended(false);
    sig.input_lifetimes = vec!["'s".to_string(), "'s".to_string()];
    sig.arg_count = 2;
    match TraitDef::parse("PrependWith".to_string(), vec![TraitItem::Method(sig)]) {
        Err(TraitError::EarlyBoundLifetimes(0, ls)) => assert_eq!(ls, vec!["'s"]),
        other => panic!("unexpected: {other:?}"),
    }
}
