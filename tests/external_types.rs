use delegation::{Convert, Either, Void};

trait AsStr {
    fn as_str(&self) -> &str;

    #[allow(dead_code)]
    fn as_prepended_string<'s>(&self, prefix: &'s str) -> String
    where
        's: 's;
}

impl AsStr for String {
    fn as_str(&self) -> &str {
        self
    }

    fn as_prepended_string<'s>(&self, prefix: &'s str) -> String
    where
        's: 's,
    {
        format!("{prefix}{self}")
    }
}

fn absurd<T>(v: Void) -> T {
    match v {
        Void::Never(n) => match n {},
    }
}

// The adapter stands in for `Either<String, String>`, which carries no
// delegation of its own.
enum EitherDef {
    Left(String),
    Right(String),
}

enum EitherDefRef<'a> {
    Left(&'a String),
    Right(&'a String),
}

impl<'a> From<&'a Either<String, String>> for EitherDefRef<'a> {
    fn from(t: &'a Either<String, String>) -> Self {
        match t {
            Either::Left(t) => EitherDefRef::Left(t),
            Either::Right(t) => EitherDefRef::Right(t),
        }
    }
}

impl From<Either<String, String>> for EitherDef {
    fn from(t: Either<String, String>) -> Self {
        match t {
            Either::Left(t) => EitherDef::Left(t),
            Either::Right(t) => EitherDef::Right(t),
        }
    }
}

impl<'a> EitherDefRef<'a> {
    fn convert_ref(self) -> Either<&'a String, Either<&'a String, Void>> {
        match self {
            Self::Left(v) => Either::Left(v),
            Self::Right(v) => Either::Right(Either::Left(v)),
        }
    }
}

impl Convert for EitherDef {
    type Owned = Either<String, Either<String, Void>>;
    type Ref<'a> = Either<&'a String, Either<&'a String, Void>>;
    type RefMut<'a> = Either<&'a mut String, Either<&'a mut String, Void>>;

    fn convert_owned(self) -> Self::Owned {
        match self {
            Self::Left(v) => Either::Left(v),
            Self::Right(v) => Either::Right(Either::Left(v)),
        }
    }

    fn convert_ref(&self) -> Self::Ref<'_> {
        match self {
            Self::Left(v) => Either::Left(v),
            Self::Right(v) => Either::Right(Either::Left(v)),
        }
    }

    fn convert_ref_mut(&mut self) -> Self::RefMut<'_> {
        match self {
            Self::Left(v) => Either::Left(v),
            Self::Right(v) => Either::Right(Either::Left(v)),
        }
    }
}

impl AsStr for EitherDef {
    fn as_str(&self) -> &str {
        self.convert_ref()
            .either(|l| l.as_str(), |r| r.either(|l| l.as_str(), absurd))
    }

    fn as_prepended_string<'s>(&self, prefix: &'s str) -> String
    where
        's: 's,
    {
        self.convert_ref().either(
            |l| l.as_prepended_string(prefix),
            |r| r.either(|l| l.as_prepended_string(prefix), absurd),
        )
    }
}

struct EitherString(Either<String, String>);

impl AsStr for EitherString {
    fn as_str(&self) -> &str {
        let adapted = <EitherDefRef<'_> as From<&Either<String, String>>>::from(&self.0);
        adapted
            .convert_ref()
            .either(|l| l.as_str(), |r| r.either(|l| l.as_str(), absurd))
    }

    fn as_prepended_string<'s>(&self, prefix: &'s str) -> String
    where
        's: 's,
    {
        let adapted = <EitherDef as From<Either<String, String>>>::from(self.0.clone());
        adapted.as_prepended_string(prefix)
    }
}

#[test]
fn derives_on_external_type() {
    let left = EitherString(Either::Left("left".to_string()));
    let right = EitherString(Either::Right("right".to_string()));
    assert_eq!(left.as_str(), "left");
    assert_eq!(right.as_str(), "right");
}

#[test]
fn adapter_gives_the_same_results_as_the_adapter_type() {
    let via_adapter = EitherString(Either::Right("right".to_string()));
    let direct = EitherDef::Right("right".to_string());
    assert_eq!(via_adapter.as_str(), direct.as_str());
    assert_eq!(
        via_adapter.as_prepended_string(">"),
        direct.as_prepended_string(">")
    );
    assert_eq!(direct.as_prepended_string(">"), ">right");
}
