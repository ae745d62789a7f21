//! Naming a repository for the release tooling that surrounds the codec.

use vstd::prelude::*;

verus! {

/// A hosted repository, named by its owner and its name.
pub struct Repo {
    user: String,
    name: String,
}

impl Repo {
    /// The owner's name.
    pub closed spec fn user_view(&self) -> Seq<char> {
        self.user@
    }

    /// The repository's name.
    pub closed spec fn name_view(&self) -> Seq<char> {
        self.name@
    }

    /// Names a repository by owner and name.
    pub fn new(user: &str, name: &str) -> (r: Repo)
        ensures
            r.user_view() == user@,
            r.name_view() == name@,
    {
        Repo { user: user.to_owned(), name: name.to_owned() }
    }
}

} // verus!
