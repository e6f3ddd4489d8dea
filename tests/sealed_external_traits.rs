use delegation::{Convert, Either, Void};

trait AsStr {
    fn as_str(&self) -> &str;

    #[allow(dead_code)]
    fn as_prepended_string<'s>(&self, prefix: &'s str) -> String
    where
        's: 's;
}

impl AsStr for String {
    fn as_str(&self) -> &str {
        self
    }

    fn as_prepended_string<'s>(&self, prefix: &'s str) -> String
    where
        's: 's,
    {
        format!("{prefix}{self}")
    }
}

fn absurd<T>(v: Void) -> T {
    match v {
        Void::Never(n) => match n {},
    }
}

enum Name {
    First(String),
}

impl Convert for Name {
    type Owned = Either<String, Void>;
    type Ref<'a> = Either<&'a String, Void>;
    type RefMut<'a> = Either<&'a mut String, Void>;

    fn convert_owned(self) -> Self::Owned {
        match self {
            Self::First(v) => Either::Left(v),
        }
    }

    fn convert_ref(&self) -> Self::Ref<'_> {
        match self {
            Self::First(v) => Either::Left(v),
        }
    }

    fn convert_ref_mut(&mut self) -> Self::RefMut<'_> {
        match self {
            Self::First(v) => Either::Left(v),
        }
    }
}

impl AsRef<str> for Name {
    fn as_ref(&self) -> &str {
        match self.convert_ref() {
            Either::Left(l) => l.as_ref(),
            Either::Right(v) => absurd(v),
        }
    }
}

impl AsStr for Name {
    fn as_str(&self) -> &str {
        self.convert_ref().either(|l| l.as_str(), absurd)
    }

    fn as_prepended_string<'s>(&self, prefix: &'s str) -> String
    where
        's: 's,
    {
        self.convert_ref()
            .either(|l| l.as_prepended_string(prefix), absurd)
    }
}

#[test]
fn derives_external_trait() {
    let name = Name::First("John".to_string());
    assert_eq!(<Name as AsRef<str>>::as_ref(&name), "John");
}

#[test]
fn derives_local_trait_as_external() {
    let name = Name::First("John".to_string());
    assert_eq!(name.as_str(), "John");
}
