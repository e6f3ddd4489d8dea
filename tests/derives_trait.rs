use delegation::derive::{ConvertBody, Definition, FieldDecl, Mode, VariantDecl};
use delegation::generics::Generics;
use delegation::{Convert, Either, Void};

trait AsString {
    fn into_string(self) -> String;
    fn as_str(&self) -> &str;
    fn as_mut_str(&mut self) -> &mut String;
}

impl AsString for String {
    fn into_string(self) -> String {
        self
    }

    fn as_str(&self) -> &str {
        self
    }

    fn as_mut_str(&mut self) -> &mut String {
        self
    }
}

fn absurd<T>(v: Void) -> T {
    match v {
        Void::Never(n) => match n {},
    }
}

enum Name {
    First(FirstName),
    Last { name: LastName },
}

struct FirstName(String);

struct LastName {
    name: String,
}

impl Convert for Name {
    type Owned = Either<FirstName, Either<LastName, Void>>;
    type Ref<'a> = Either<&'a FirstName, Either<&'a LastName, Void>>;
    type RefMut<'a> = Either<&'a mut FirstName, Either<&'a mut LastName, Void>>;

    fn convert_owned(self) -> Self::Owned {
        match self {
            Self::First(v) => Either::Left(v),
            Self::Last { name } => Either::Right(Either::Left(name)),
        }
    }

    fn convert_ref(&self) -> Self::Ref<'_> {
        match self {
            Self::First(v) => Either::Left(v),
            Self::Last { name } => Either::Right(Either::Left(name)),
        }
    }

    fn convert_ref_mut(&mut self) -> Self::RefMut<'_> {
        match self {
            Self::First(v) => Either::Left(v),
            Self::Last { name } => Either::Right(Either::Left(name)),
        }
    }
}

impl Convert for FirstName {
    type Owned = Either<String, Void>;
    type Ref<'a> = Either<&'a String, Void>;
    type RefMut<'a> = Either<&'a mut String, Void>;

    fn convert_owned(self) -> Self::Owned {
        Either::Left(self.0)
    }

    fn convert_ref(&self) -> Self::Ref<'_> {
        Either::Left(&self.0)
    }

    fn convert_ref_mut(&mut self) -> Self::RefMut<'_> {
        Either::Left(&mut self.0)
    }
}

impl Convert for LastName {
    type Owned = Either<String, Void>;
    type Ref<'a> = Either<&'a String, Void>;
    type RefMut<'a> = Either<&'a mut String, Void>;

    fn convert_owned(self) -> Self::Owned {
        Either::Left(self.name)
    }

    fn convert_ref(&self) -> Self::Ref<'_> {
        Either::Left(&self.name)
    }

    fn convert_ref_mut(&mut self) -> Self::RefMut<'_> {
        Either::Left(&mut self.name)
    }
}

impl AsString for FirstName {
    fn into_string(self) -> String {
        self.convert_owned().either(|l| l.into_string(), absurd)
    }

    fn as_str(&self) -> &str {
        self.convert_ref().either(|l| AsString::as_str(l), absurd)
    }

    fn as_mut_str(&mut self) -> &mut String {
        self.convert_ref_mut().either(|l| AsString::as_mut_str(l), absurd)
    }
}

impl AsString for LastName {
    fn into_string(self) -> String {
        self.convert_owned().either(|l| l.into_string(), absurd)
    }

    fn as_str(&self) -> &str {
        self.convert_ref().either(|l| AsString::as_str(l), absurd)
    }

    fn as_mut_str(&mut self) -> &mut String {
        self.convert_ref_mut().either(|l| AsString::as_mut_str(l), absurd)
    }
}

impl AsString for Name {
    fn into_string(self) -> String {
        self.convert_owned().either(
            |l| l.into_string(),
            |r| r.either(|l| l.into_string(), absurd),
        )
    }

    fn as_str(&self) -> &str {
        self.convert_ref()
            .either(|l| AsString::as_str(l), |r| r.either(|l| AsString::as_str(l), absurd))
    }

    fn as_mut_str(&mut self) -> &mut String {
        self.convert_ref_mut().either(
            |l| AsString::as_mut_str(l),
            |r| r.either(|l| AsString::as_mut_str(l), absurd),
        )
    }
}

#[test]
fn derives_trait_newtype_derives_trait() {
    let mut first_name = FirstName("John".into());
    *first_name.as_mut_str() = "Jane".into();
    assert_eq!(first_name.as_str(), "Jane");
    assert_eq!(first_name.into_string(), "Jane");

    let mut last_name = LastName { name: "Doe".into() };
    *last_name.as_mut_str() = "Smith".into();
    assert_eq!(last_name.as_str(), "Smith");
    assert_eq!(last_name.into_string(), "Smith");
}

#[test]
fn derives_trait_enum_derives_trait() {
    let mut first_name = Name::First(FirstName("John".into()));
    *first_name.as_mut_str() = "Jane".into();
    assert_eq!(first_name.as_str(), "Jane");
    assert_eq!(first_name.into_string(), "Jane");

    let mut last_name = Name::Last {
        name: LastName { name: "Doe".into() },
    };
    *last_name.as_mut_str() = "Smith".into();
    assert_eq!(last_name.as_str(), "Smith");
    assert_eq!(last_name.into_string(), "Smith");
}

fn decl_field(ident: Option<&str>, ty: &str) -> FieldDecl {
    FieldDecl { ident: ident.map(str::to_string), ty: ty.to_string(), attrs: vec![] }
}


#[test]
fn derives_trait_plan_matches_conversion() {
    let variants = vec![
        VariantDecl {
            ident: "First".to_string(),
            fields: vec![decl_field(None, "FirstName")],
            attrs: vec![],
        },
        VariantDecl {
            ident: "Last".to_string(),
            fields: vec![decl_field(Some("name"), "LastName")],
            attrs: vec![],
        },
    ];
    let plan = Definition::parse_enum("Name".to_string(), Generics::empty(), &variants, vec![])
        .unwrap()
        .impl_convert();
    // The hand-written conversion has exactly this owned type.
    let _: Either<FirstName, Either<LastName, Void>> = Name::First(FirstName("x".into())).convert_owned();
    assert_eq!(
        plan.choice.render(Mode::Owned, ""),
        "::Either<FirstName, ::Either<LastName, ::Void>>"
    );
    let ConvertBody::Match(arms) = &plan.body else {
        panic!("an enum converts through a match");
    };
    let first = Name::First(FirstName("John".into()));
    let last = Name::Last { name: LastName { name: "Doe".into() } };
    let (f, l) = (first.convert_ref(), last.convert_ref());
    assert_eq!(arms[0].depth, match f { Either::Left(_) => 0, Either::Right(_) => 1 });
    assert_eq!(arms[1].depth, match l { Either::Left(_) => 0, Either::Right(_) => 1 });
    assert_eq!(arms[1].field_ident.as_deref(), Some("name"));

    let fields = vec![decl_field(None, "String")];
    let plan = Definition::parse_struct("FirstName".to_string(), Generics::empty(), &fields, vec![])
        .unwrap()
        .impl_convert();
    let _: Either<String, Void> = FirstName("x".into()).convert_owned();
    assert_eq!(plan.choice.render(Mode::Owned, ""), "::Either<String, ::Void>");
}
