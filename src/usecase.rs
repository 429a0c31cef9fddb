use vstd::prelude::*;

verus! {

/// Application logic over a repository of short links.
pub struct Usecase<R> {
    url_repository: R,
}

impl<R> Usecase<R> {
    pub fn new(url_repository: R) -> (r: Self)
        ensures
            r.repository() == url_repository,
    {
        Usecase { url_repository }
    }

    /// The repository this logic works on.
    pub closed spec fn repository(&self) -> R {
        self.url_repository
    }
}

} // verus!
