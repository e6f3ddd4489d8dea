use delegation::{Convert, Either, Void};

trait Name {}

impl Name for String {}

trait Named<N>
where
    N: Name,
{
    fn name(&self) -> N;
}

#[derive(Clone, Copy, Debug, PartialEq)]
struct Ver<const V: u8>;

trait Versioned<const V: u8> {
    fn version(&self) -> String;

    fn version_num(&self) -> Ver<V>;
}

fn absurd<T>(v: Void) -> T {
    match v {
        Void::Never(n) => match n {},
    }
}

enum Users {
    Oleg(UserOleg),
    Boris { user: UserBoris },
}

impl Convert for Users {
    type Owned = Either<UserOleg, Either<UserBoris, Void>>;
    type Ref<'a> = Either<&'a UserOleg, Either<&'a UserBoris, Void>>;
    type RefMut<'a> = Either<&'a mut UserOleg, Either<&'a mut UserBoris, Void>>;

    fn convert_owned(self) -> Self::Owned {
        match self {
            Self::Oleg(v) => Either::Left(v),
            Self::Boris { user } => Either::Right(Either::Left(user)),
        }
    }

    fn convert_ref(&self) -> Self::Ref<'_> {
        match self {
            Self::Oleg(v) => Either::Left(v),
            Self::Boris { user } => Either::Right(Either::Left(user)),
        }
    }

    fn convert_ref_mut(&mut self) -> Self::RefMut<'_> {
        match self {
            Self::Oleg(v) => Either::Left(v),
            Self::Boris { user } => Either::Right(Either::Left(user)),
        }
    }
}

impl Named<String> for Users {
    fn name(&self) -> String {
        self.convert_ref()
            .either(|l| l.name(), |r| r.either(|l| l.name(), absurd))
    }
}

impl<const V: u8> Versioned<V> for Users {
    fn version(&self) -> String {
        self.convert_ref().either(
            |l| <UserOleg as Versioned<V>>::version(l),
            |r| r.either(|l| <UserBoris as Versioned<V>>::version(l), absurd),
        )
    }

    fn version_num(&self) -> Ver<V> {
        self.convert_ref().either(
            |l| <UserOleg as Versioned<V>>::version_num(l),
            |r| r.either(|l| <UserBoris as Versioned<V>>::version_num(l), absurd),
        )
    }
}

struct UserOleg(String);

impl Named<String> for UserOleg {
    fn name(&self) -> String {
        self.0.clone()
    }
}

impl<const V: u8> Versioned<V> for UserOleg {
    fn version(&self) -> String {
        format!("UserOleg v{V}")
    }

    fn version_num(&self) -> Ver<V> {
        Ver::<V>
    }
}

struct UserBoris {
    name: String,
}

impl Named<String> for UserBoris {
    fn name(&self) -> String {
        self.name.clone()
    }
}

impl<const V: u8> Versioned<V> for UserBoris {
    fn version(&self) -> String {
        format!("UserBoris v{V}")
    }

    fn version_num(&self) -> Ver<V> {
        Ver::<V>
    }
}

#[test]
fn trait_generic_param_derives_with_generics() {
    let oleg = Users::Oleg(UserOleg("Oleg".to_string()));
    assert_eq!(oleg.name(), "Oleg");

    let boris = Users::Boris { user: UserBoris { name: "Boris".to_string() } };
    assert_eq!(boris.name(), "Boris");
}

#[test]
fn trait_generic_param_derives_with_const_generics() {
    let oleg = Users::Oleg(UserOleg("Oleg".to_string()));
    assert_eq!(<Users as Versioned<2>>::version(&oleg), "UserOleg v2");
    assert_eq!(oleg.version_num(), Ver::<2>);

    let boris = Users::Boris { user: UserBoris { name: "Boris".to_string() } };
    assert_eq!(<Users as Versioned<2>>::version(&boris), "UserBoris v2");
    assert_eq!(boris.version_num(), Ver::<2>);
}
