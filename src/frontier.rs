//! The frontier: the set of page keys already claimed for fetching.
use vstd::prelude::*;
use vstd::hash_set::StringHashSet;

verus! {

/// The set of frontier keys claimed so far. Its one mutation is
/// [`Frontier::try_claim`], which inserts a key only when it is absent and
/// tells the caller whether it did.
pub struct Frontier {
    keys: StringHashSet,
}

impl View for Frontier {
    type V = Set<Seq<char>>;

    closed spec fn view(&self) -> Set<Seq<char>> {
        self.keys@
    }
}

impl Frontier {
    /// An empty frontier.
    pub fn new() -> (r: Frontier)
        ensures
            r@ == Set::<Seq<char>>::empty(),
    {
        Frontier { keys: StringHashSet::new() }
    }

    /// The number of keys claimed.
    pub fn len(&self) -> (r: usize)
        ensures
            r == self@.len(),
    {
        self.keys.len()
    }

    /// Whether `key` has been claimed.
    pub fn contains(&self, key: &str) -> (r: bool)
        ensures
            r == self@.contains(key@),
    {
        self.keys.contains(key)
    }

    /// Claims `key`: true iff this call inserted it, false where an earlier
    /// claim holds it. Afterwards the key is in the frontier either way.
    pub fn try_claim(&mut self, key: &str) -> (claimed: bool)
        ensures
            claimed == !old(self)@.contains(key@),
            final(self)@ == old(self)@.insert(key@),
    {
        self.keys.insert(String::from_str(key))
    }
}

} // verus!
