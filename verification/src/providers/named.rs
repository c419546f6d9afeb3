//! A source under another name.

use vstd::prelude::*;
use vstd::string::StringExecFns;
use crate::metadata::Metadata;
use crate::profile::Profile;
use crate::provider::may_describe;
use crate::provider::may_prefer;
use crate::provider::may_tabulate;
use crate::provider::may_yield;
use crate::provider::Provider;
use crate::value::Dict;
use crate::value::Tag;

verus! {

/// Wraps a source and gives it a new name. Everything but the name in its
/// description is the wrapped source's own.
#[derive(Debug, Clone)]
pub struct Named<T> {
    name: String,
    provider: T,
}

impl<T> Named<T> {
    /// The name that the wrapper reports.
    pub closed spec fn label(&self) -> Seq<char> {
        self.name@
    }

    /// The wrapped source.
    pub closed spec fn inner(&self) -> T {
        self.provider
    }

    /// Wraps `provider`, giving it the name `name`.
    pub fn new(name: &str, provider: T) -> (named: Self)
        ensures
            named.label() == name@,
            named.inner() == provider,
    {
        Self { name: String::from_str(name), provider }
    }
}

impl<T: Provider> Provider for Named<T> {
    /// The wrapped source's description under the wrapper's name.
    fn metadata(&self) -> (m: Metadata)
        ensures
            exists|inner: Metadata| #[trigger]
                may_describe(self.inner(), inner) && m@ == inner@.renamed(self.label()),
    {
        let mut meta = self.provider.metadata();
        let ghost inner = meta;
        meta.name = self.name.clone();
        assert(may_describe(self.inner(), inner) && meta@ == inner@.renamed(self.label()));
        meta
    }

    /// What the wrapped source's `data` returns.
    fn data(&self) -> (r: Result<Vec<(Profile, Dict)>, String>)
        ensures
            may_yield(self.inner(), r),
    {
        self.provider.data()
    }

    /// What the wrapped source's `profile` returns.
    fn profile(&self) -> (p: Option<Profile>)
        ensures
            may_prefer(self.inner(), p),
    {
        self.provider.profile()
    }

    /// What the wrapped source's `__metadata_map` returns.
    fn __metadata_map(&self) -> (t: Option<Vec<(Tag, Metadata)>>)
        ensures
            may_tabulate(self.inner(), t),
    {
        self.provider.__metadata_map()
    }
}

} // verus!
