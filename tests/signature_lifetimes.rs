use delegation::signature::{Lifetime, LifetimeSig, SelfArg};

fn lt(s: &str) -> Lifetime {
    match s {
        "" => Lifetime::Elided,
        "'_" => Lifetime::Anonymous,
        _ => Lifetime::Named(s.to_string()),
    }
}

fn show(l: &Lifetime) -> String {
    match l {
        Lifetime::Elided => String::new(),
        Lifetime::Anonymous => "'_".to_string(),
        Lifetime::Named(s) => s.clone(),
        Lifetime::Fresh(n) => format!("'__delegate{n}"),
    }
}

fn shows(v: &[Lifetime]) -> Vec<String> {
    v.iter().map(show).collect()
}

fn sig(
    receiver: SelfArg,
    params: &[&str],
    inputs: &[&str],
    output: &[&str],
    outlives: &[(&str, &str)],
) -> LifetimeSig {
    LifetimeSig {
        receiver,
        params: params.iter().map(|s| lt(s)).collect(),
        inputs: inputs.iter().map(|s| lt(s)).collect(),
        output: output.iter().map(|s| lt(s)).collect(),
        outlives: outlives.iter().map(|(a, b)| (lt(a), lt(b))).collect(),
    }
}

fn with() -> String {
    "'__delegated".to_string()
}

fn check(
    mut s: LifetimeSig,
    params: &[&str],
    inputs: &[&str],
    output: &[&str],
    outlives: &[(&str, &str)],
) {
    s.lift_receiver_lifetime(&with());
    assert_eq!(shows(&s.params), params);
    assert_eq!(shows(&s.inputs), inputs);
    assert_eq!(shows(&s.output), output);
    let pairs: Vec<(String, String)> = s.outlives.iter().map(|(a, b)| (show(a), show(b))).collect();
    let expected: Vec<(String, String)> =
        outlives.iter().map(|(a, b)| (a.to_string(), b.to_string())).collect();
    assert_eq!(pairs, expected);
}

#[test]
fn without_receiver() {
    // fn test<'a, 'b>(arg1: &'a i32, arg2: &'b i32) -> &'a i32
    let s = sig(SelfArg::Other, &["'a", "'b"], &["'a", "'b"], &["'a"], &[]);
    let mut lifted = sig(SelfArg::Other, &["'a", "'b"], &["'a", "'b"], &["'a"], &[]);
    lifted.lift_receiver_lifetime(&with());
    assert!(matches!(lifted.receiver, SelfArg::Other));
    check(s, &["'a", "'b"], &["'a", "'b"], &["'a"], &[]);
}

#[test]
fn receiver_without_reference() {
    // fn test<'a>(self, arg2: &'a i32) -> &'a i32
    check(sig(SelfArg::Value, &["'a"], &["'a"], &["'a"], &[]), &["'a"], &["'a"], &["'a"], &[]);
}

#[test]
fn receiver_without_lifetime() {
    // fn test<'a>(&self, arg2: &'a i32) -> &i32
    let mut s = sig(SelfArg::Ref(lt("")), &["'a"], &["'a"], &[""], &[]);
    s.lift_receiver_lifetime(&with());
    assert!(matches!(s.receiver, SelfArg::Value));
    assert_eq!(shows(&s.output), ["'__delegated"]);
    // fn test<'a>(&self, arg2: &'a i32) -> &'_ i32
    check(sig(SelfArg::Ref(lt("")), &["'a"], &["'a"], &["'_"], &[]), &["'a"], &["'a"], &["'__delegated"], &[]);
    // fn test<'a>(&self, arg2: &'a i32) -> &'a i32
    check(sig(SelfArg::Ref(lt("")), &["'a"], &["'a"], &["'a"], &[]), &["'a"], &["'a"], &["'a"], &[]);
}

#[test]
fn receiver_with_anonymous_lifetime() {
    let r = || SelfArg::Ref(lt("'_"));
    // fn test<'a>(&'_ self, arg2: &'a i32) -> &i32
    check(sig(r(), &["'a"], &["'a"], &[""], &[]), &["'a"], &["'a"], &["'__delegated"], &[]);
    // fn test<'a>(&'_ self, arg2: &'a i32) -> &'_ i32
    check(sig(r(), &["'a"], &["'a"], &["'_"], &[]), &["'a"], &["'a"], &["'__delegated"], &[]);
    // fn test<'a>(&'_ self, arg2: &'a i32) -> &'a i32
    check(sig(r(), &["'a"], &["'a"], &["'a"], &[]), &["'a"], &["'a"], &["'a"], &[]);
    // fn test(&'_ self, arg2: &'_ i32) -> &i32
    check(sig(r(), &[], &["'_"], &[""], &[]), &[], &["'_"], &["'__delegated"], &[]);
    // fn test(&'_ self, arg2: &'_ i32) -> &'_ i32
    check(sig(r(), &[], &["'_"], &["'_"], &[]), &[], &["'_"], &["'__delegated"], &[]);
}

#[test]
fn receiver_with_lifetime() {
    let r = || SelfArg::Ref(lt("'a"));
    let d = "'__delegated";
    // fn test<'a, 'b>(&'a self, arg2: &'b i32) -> &'a i32
    check(sig(r(), &["'a", "'b"], &["'b"], &["'a"], &[]), &["'b"], &["'b"], &[d], &[]);
    // fn test<'a, 'b>(&'a self, arg2: &'b i32) -> &'b i32
    check(sig(r(), &["'a", "'b"], &["'b"], &["'b"], &[]), &["'b"], &["'b"], &["'b"], &[]);
    // fn test<'b>(&'a self, arg2: &'b i32) -> &'a i32
    check(sig(r(), &["'b"], &["'b"], &["'a"], &[]), &["'b"], &["'b"], &[d], &[("'a", d), (d, "'a")]);
    // fn test<'b>(&'a self, arg2: &'b i32) -> &'b i32
    check(sig(r(), &["'b"], &["'b"], &["'b"], &[]), &["'b"], &["'b"], &["'b"], &[("'a", d), (d, "'a")]);
    // fn test<'a>(&'a self, arg2: &'b i32) -> &'b i32
    check(sig(r(), &["'a"], &["'b"], &["'b"], &[]), &[], &["'b"], &["'b"], &[]);
    // fn test<'a>(&'a self, arg2: &'b i32) -> &'a i32
    check(sig(r(), &["'a"], &["'b"], &["'a"], &[]), &[], &["'b"], &[d], &[]);
    // fn test<'a, 'b>(&'a self, arg2: &'b i32) -> &'a i32 where 'a: 'b
    check(
        sig(r(), &["'a", "'b"], &["'b"], &["'a"], &[("'a", "'b")]),
        &["'b"],
        &["'b"],
        &[d],
        &[(d, "'b")],
    );
    // fn test<'b>(&'a self, arg2: &'b i32) -> &'a i32 where 'a: 'b
    check(
        sig(r(), &["'b"], &["'b"], &["'a"], &[("'a", "'b")]),
        &["'b"],
        &["'b"],
        &[d],
        &[(d, "'b"), ("'a", d), (d, "'a")],
    );
}

#[test]
fn expand_names_every_elided_lifetime() {
    // fn f(&self, a: &str, b: &'_ str, c: &'x str) -> &str
    let mut s = sig(SelfArg::Ref(lt("")), &[], &["", "'_", "'x"], &[""], &[]);
    s.expand_lifetimes(&lt("'__delegate"), 1, true);
    assert!(matches!(&s.receiver, SelfArg::Ref(Lifetime::Named(l)) if l == "'__delegate"));
    assert_eq!(shows(&s.output), ["'__delegate"]);
    assert_eq!(shows(&s.inputs), ["'__delegate1", "'__delegate2", "'x"]);
    assert_eq!(shows(&s.params), ["'__delegate", "'__delegate1", "'__delegate2"]);
}

#[test]
fn expand_uses_receiver_lifetime_for_return_type() {
    // fn f<'r>(&'r self) -> &'_ str
    let mut s = sig(SelfArg::RefMut(lt("'r")), &["'r"], &[], &["'_"], &[]);
    s.expand_lifetimes(&lt("'__delegate"), 1, true);
    assert_eq!(shows(&s.output), ["'r"]);
    assert_eq!(shows(&s.params), ["'r"]);
}

#[test]
fn expand_without_receiver_lifetime_adds_return_lifetime() {
    // fn f(self, a: &str) -> Cow<'_, str>
    let mut s = sig(SelfArg::Value, &[], &[""], &["'_"], &[]);
    s.expand_lifetimes(&lt("'__delegate"), 1, true);
    assert_eq!(shows(&s.output), ["'__delegate"]);
    assert_eq!(shows(&s.inputs), ["'__delegate1"]);
    assert_eq!(shows(&s.params), ["'__delegate", "'__delegate1"]);
}

#[test]
fn expand_with_anonymous_generator_still_expands_arguments() {
    // fn f(&self, a: &str) -> &str, expanded with '_ itself
    let mut s = sig(SelfArg::Ref(lt("")), &[], &[""], &[""], &[]);
    s.expand_lifetimes(&Lifetime::Anonymous, 1, false);
    assert_eq!(shows(&s.output), ["'_"]);
    assert_eq!(shows(&s.inputs), ["'_"]);
    assert_eq!(shows(&s.params), ["'_", "'_"]);
}

#[test]
fn expand_mints_fresh_lifetimes_behind_anonymous_receiver() {
    // fn f(&'_ self, a: &str) -> &'_ str
    let mut s = sig(SelfArg::Ref(lt("'_")), &[], &[""], &["'_"], &[]);
    s.expand_lifetimes(&lt("'__delegate"), 1, true);
    assert!(matches!(s.receiver, SelfArg::Ref(Lifetime::Anonymous)));
    assert_eq!(shows(&s.output), ["'__delegate1"]);
    assert_eq!(shows(&s.inputs), ["'__delegate2"]);
    assert_eq!(shows(&s.params), ["'__delegate1", "'__delegate2"]);
}
