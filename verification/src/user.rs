use vstd::prelude::*;

verus! {

/// A single user entry: a mutable display name with no format constraints.
pub struct User {
    pub name: String,
}

impl User {
    pub fn new(name: String) -> (u: User)
        ensures
            u.name == name,
    {
        User { name }
    }

    pub fn name(&self) -> (r: &str)
        ensures
            r@ == self.name@,
    {
        self.name.as_str()
    }

    pub fn set_name(&mut self, name: String)
        ensures
            final(self).name == name,
    {
        self.name = name;
    }
}

impl Clone for User {
    fn clone(&self) -> (r: Self)
        ensures
            r == *self,
    {
        User { name: self.name.clone() }
    }
}

/// A user entry together with the identifier the store assigned to it.
pub struct UserRecord {
    pub id: String,
    pub user: User,
}

impl Clone for UserRecord {
    fn clone(&self) -> (r: Self)
        ensures
            r == *self,
    {
        UserRecord { id: self.id.clone(), user: self.user.clone() }
    }
}

} // verus!
