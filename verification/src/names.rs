use vstd::prelude::*;
use vstd::hash_map::StringHashMap;

verus! {

/// A map from names to names, used to rename variables.
pub struct NameMap {
    map: StringHashMap<String>,
}

impl View for NameMap {
    type V = Map<Seq<char>, Seq<char>>;

    closed spec fn view(&self) -> Map<Seq<char>, Seq<char>> {
        self.map@.map_values(|value: String| value@)
    }
}

impl NameMap {
    /// An empty map.
    pub fn new() -> (names: Self)
        ensures
            names@ == Map::<Seq<char>, Seq<char>>::empty(),
    {
        let names = NameMap { map: StringHashMap::new() };
        assert(names@ =~= Map::<Seq<char>, Seq<char>>::empty());
        names
    }

    /// Maps `name` to `renamed`, replacing what `name` was mapped to before.
    pub fn insert(&mut self, name: String, renamed: String)
        ensures
            final(self)@ == old(self)@.insert(name@, renamed@),
    {
        self.map.insert(name, renamed);
        assert(self@ =~= old(self)@.insert(name@, renamed@));
    }

    /// What `name` is mapped to, if anything.
    pub fn get(&self, name: &str) -> (renamed: Option<&String>)
        ensures
            match renamed {
                Some(r) => self@.contains_key(name@) && r@ == self@[name@],
                None => !self@.contains_key(name@),
            },
    {
        self.map.get(name)
    }

    /// Whether `name` is mapped to anything.
    pub fn contains(&self, name: &str) -> (found: bool)
        ensures
            found == self@.contains_key(name@),
    {
        self.map.contains_key(name)
    }
}

} // verus!
