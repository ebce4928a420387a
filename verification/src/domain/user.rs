use vstd::prelude::*;

verus! {

pub struct User {
    pub id: UserId,
    pub name: UserName,
}

/// Identifier of a user row.
#[derive(Debug, Clone, Copy, PartialEq, Eq, Structural)]
pub struct UserId {
    value: i64,
}

impl UserId {
    pub closed spec fn spec_value(&self) -> i64 {
        self.value
    }

    pub fn new(id: i64) -> (r: Self)
        ensures
            r.spec_value() == id,
    {
        Self { value: id }
    }

    #[verifier::when_used_as_spec(spec_value)]
    pub fn value(&self) -> (r: i64)
        ensures
            r == self.spec_value(),
    {
        self.value
    }
}

/// Display name of a user.
#[derive(Debug, Clone, PartialEq, Eq)]
pub struct UserName {
    name: String,
}

impl UserName {
    pub closed spec fn spec_name(&self) -> Seq<char> {
        self.name@
    }

    pub fn new(name: String) -> (r: Self)
        ensures
            r.spec_name() == name@,
    {
        Self { name }
    }

    pub fn as_str(&self) -> (r: &str)
        ensures
            r@ == self.spec_name(),
    {
        self.name.as_str()
    }
}

} // verus!
