//! Profiles: named partitions of configuration, compared without regard to
//! the case of ASCII letters.

use vstd::prelude::*;
use vstd::string::StrSliceExecFns;
use vstd::string::StringExecFns;

verus! {

/// The lower-case form of an ASCII capital; any other character unchanged.
pub open spec fn fold_char(c: char) -> char {
    if 'A' <= c && c <= 'Z' {
        ((c as u8) + 32) as char
    } else {
        c
    }
}

/// A name with every ASCII capital in lower case.
pub open spec fn fold(name: Seq<char>) -> Seq<char> {
    Seq::new(name.len(), |i: int| fold_char(name[i]))
}

/// The folded name of the default profile.
pub open spec fn default_name() -> Seq<char> {
    fold("default"@)
}

/// The lower-case form of an ASCII capital; any other character unchanged.
pub fn lower(c: char) -> (r: char)
    ensures
        r == fold_char(c),
{
    if 'A' <= c && c <= 'Z' {
        ((c as u8) + 32) as char
    } else {
        c
    }
}

/// A profile name. Two profiles are the same when their names agree up to
/// the case of ASCII letters; the view is the folded name.
#[derive(Debug)]
pub struct Profile {
    name: String,
}

impl View for Profile {
    type V = Seq<char>;

    closed spec fn view(&self) -> Seq<char> {
        fold(self.name@)
    }
}

impl Profile {
    /// The name as it was given.
    pub closed spec fn spelling(&self) -> Seq<char> {
        self.name@
    }

    /// The profile called `name`.
    pub fn new(name: &str) -> (p: Profile)
        ensures
            p.spelling() == name@,
            p@ == fold(name@),
    {
        Profile { name: String::from_str(name) }
    }

    /// The default profile, which underlies every other.
    pub fn default_profile() -> (p: Profile)
        ensures
            p@ == default_name(),
    {
        Profile::new("default")
    }

    /// The name as it was given.
    pub fn as_str(&self) -> (s: &str)
        ensures
            s@ == self.spelling(),
    {
        self.name.as_str()
    }

    /// A copy of the profile.
    pub fn duplicate(&self) -> (p: Profile)
        ensures
            p@ == self@,
            p.spelling() == self.spelling(),
    {
        Profile { name: self.name.clone() }
    }

    /// Whether the two names agree up to the case of ASCII letters.
    pub fn same(&self, other: &Profile) -> (b: bool)
        ensures
            b == (self@ == other@),
    {
        let a = self.name.as_str();
        let o = other.name.as_str();
        let n = a.unicode_len();
        if n != o.unicode_len() {
            assert(self@.len() != other@.len());
            return false;
        }
        let mut i: usize = 0;
        while i < n
            invariant
                i <= n,
                n == a@.len(),
                n == o@.len(),
                a@ == self.name@,
                o@ == other.name@,
                forall|j: int| 0 <= j < i ==> fold_char(a@[j]) == fold_char(o@[j]),
            decreases n - i,
        {
            if lower(a.get_char(i)) != lower(o.get_char(i)) {
                assert(self@[i as int] != other@[i as int]);
                return false;
            }
            i += 1;
        }
        assert(self@ =~= other@);
        true
    }

    /// Whether this is the default profile.
    pub fn is_default(&self) -> (b: bool)
        ensures
            b == (self@ == default_name()),
    {
        let d = Profile::default_profile();
        self.same(&d)
    }

    /// Whether the name has no characters.
    pub fn is_empty(&self) -> (b: bool)
        ensures
            b == (self@.len() == 0),
    {
        self.name.as_str().unicode_len() == 0
    }
}

} // verus!
