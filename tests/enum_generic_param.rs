use delegation::{Convert, Either, Void};

struct UserTypes;

const USER_OLEG: u8 = 1;

const USER_BORIS: u8 = 2;

trait UserType<const V: u8> {
    type User: User;
}

type TypedUser<const V: u8> = <UserTypes as UserType<V>>::User;

impl UserType<{ USER_OLEG }> for UserTypes {
    type User = UserOleg;
}

impl UserType<{ USER_BORIS }> for UserTypes {
    type User = UserBoris;
}

trait User {
    fn name(&self) -> &str;
}

fn absurd<T>(v: Void) -> T {
    match v {
        Void::Never(n) => match n {},
    }
}

enum EitherUser<L, R> {
    Left(L),
    Right { user: R },
}

enum GenericUser<const U1: u8, const U2: u8>
where
    UserTypes: UserType<{ U1 }> + UserType<{ U2 }>,
{
    Left(TypedUser<{ U1 }>),
    Right { user: TypedUser<{ U2 }> },
}

impl<L, R> Convert for EitherUser<L, R> {
    type Owned = Either<L, Either<R, Void>>;
    type Ref<'a>
        = Either<&'a L, Either<&'a R, Void>>
    where
        Self: 'a;
    type RefMut<'a>
        = Either<&'a mut L, Either<&'a mut R, Void>>
    where
        Self: 'a;

    fn convert_owned(self) -> Self::Owned {
        match self {
            Self::Left(v) => Either::Left(v),
            Self::Right { user } => Either::Right(Either::Left(user)),
        }
    }

    fn convert_ref(&self) -> Self::Ref<'_> {
        match self {
            Self::Left(v) => Either::Left(v),
            Self::Right { user } => Either::Right(Either::Left(user)),
        }
    }

    fn convert_ref_mut(&mut self) -> Self::RefMut<'_> {
        match self {
            Self::Left(v) => Either::Left(v),
            Self::Right { user } => Either::Right(Either::Left(user)),
        }
    }
}

impl<const U1: u8, const U2: u8> Convert for GenericUser<U1, U2>
where
    UserTypes: UserType<{ U1 }> + UserType<{ U2 }>,
{
    type Owned = Either<TypedUser<{ U1 }>, Either<TypedUser<{ U2 }>, Void>>;
    type Ref<'a>
        = Either<&'a TypedUser<{ U1 }>, Either<&'a TypedUser<{ U2 }>, Void>>
    where
        Self: 'a;
    type RefMut<'a>
        = Either<&'a mut TypedUser<{ U1 }>, Either<&'a mut TypedUser<{ U2 }>, Void>>
    where
        Self: 'a;

    fn convert_owned(self) -> Self::Owned {
        match self {
            Self::Left(v) => Either::Left(v),
            Self::Right { user } => Either::Right(Either::Left(user)),
        }
    }

    fn convert_ref(&self) -> Self::Ref<'_> {
        match self {
            Self::Left(v) => Either::Left(v),
            Self::Right { user } => Either::Right(Either::Left(user)),
        }
    }

    fn convert_ref_mut(&mut self) -> Self::RefMut<'_> {
        match self {
            Self::Left(v) => Either::Left(v),
            Self::Right { user } => Either::Right(Either::Left(user)),
        }
    }
}

impl<L: User + 'static> User for EitherUser<L, UserBoris> {
    fn name(&self) -> &str {
        self.convert_ref()
            .either(|l| l.name(), |r| r.either(|l| l.name(), absurd))
    }
}

impl User for GenericUser<{ USER_OLEG }, { USER_BORIS }> {
    fn name(&self) -> &str {
        self.convert_ref()
            .either(|l| l.name(), |r| r.either(|l| l.name(), absurd))
    }
}

struct UserOleg;

impl User for UserOleg {
    fn name(&self) -> &str {
        "Oleg"
    }
}

struct UserBoris;

impl User for UserBoris {
    fn name(&self) -> &str {
        "Boris"
    }
}

#[test]
fn enum_generic_param_derives_with_generics() {
    let oleg = EitherUser::<UserOleg, UserBoris>::Left(UserOleg);
    assert_eq!(oleg.name(), "Oleg");

    let boris = EitherUser::<UserOleg, UserBoris>::Right { user: UserBoris };
    assert_eq!(boris.name(), "Boris");
}

#[test]
fn enum_generic_param_derives_with_const_generics() {
    let oleg = GenericUser::<{ USER_OLEG }, { USER_BORIS }>::Left(UserOleg);
    assert_eq!(oleg.name(), "Oleg");

    let boris =
        GenericUser::<{ USER_OLEG }, { USER_BORIS }>::Right { user: UserBoris };
    assert_eq!(boris.name(), "Boris");
}
