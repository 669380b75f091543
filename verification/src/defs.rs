//! Definitions loaded from data files, the storage that holds them by id
//! and by name, and the ids that refer to them.
use vstd::prelude::*;

pub mod body;
pub mod building;
pub mod condition;
pub mod foliage;
pub mod item;
pub mod material;
pub mod needs;
pub mod parser;
pub mod race;
pub mod reaction;

verus! {

/// Refers to a reaction definition by its position in the definition storage.
#[derive(Debug, Clone, Copy, PartialEq, Eq, Hash, Structural)]
pub struct ReactionDefinitionId(pub usize);

/// Refers to a material definition by its position in the definition storage.
#[derive(Debug, Clone, Copy, PartialEq, Eq, Hash, Structural)]
pub struct MaterialDefinitionId(pub usize);

/// Refers to a building definition by its position in the definition storage.
#[derive(Debug, Clone, Copy, PartialEq, Eq, Hash, Structural)]
pub struct BuildingDefinitionId(pub usize);

/// Refers to an item definition by its position in the definition storage.
#[derive(Debug, Clone, Copy, PartialEq, Eq, Hash, Structural)]
pub struct ItemDefinitionId(pub usize);

/// Refers to a race definition by its position in the definition storage.
#[derive(Debug, Clone, Copy, PartialEq, Eq, Hash, Structural)]
pub struct RaceDefinitionId(pub usize);

/// Refers to a body definition by its position in the definition storage.
#[derive(Debug, Clone, Copy, PartialEq, Eq, Hash, Structural)]
pub struct BodyDefinitionId(pub usize);

/// Refers to a creature definition by its position in the definition storage.
#[derive(Debug, Clone, Copy, PartialEq, Eq, Hash, Structural)]
pub struct CreatureDefinitionId(pub usize);

/// Refers to a workshop definition by its position in the definition storage.
#[derive(Debug, Clone, Copy, PartialEq, Eq, Hash, Structural)]
pub struct WorkshopDefinitionId(pub usize);

/// The names and descriptions shared by every definition.
#[derive(Debug, Clone)]
pub struct DefinitionDetails {
    name: String,
    display_name: String,
    description: String,
    long_description: String,
}

impl DefinitionDetails {
    pub closed spec fn spec_name(&self) -> Seq<char> {
        self.name@
    }

    pub closed spec fn spec_display_name(&self) -> Seq<char> {
        self.display_name@
    }

    pub closed spec fn spec_description(&self) -> Seq<char> {
        self.description@
    }

    pub closed spec fn spec_long_description(&self) -> Seq<char> {
        self.long_description@
    }

    /// Details named `name`, shown under the same name, with no description.
    pub fn new(name: &str) -> (r: DefinitionDetails)
        ensures
            r.spec_name() == name@,
            r.spec_display_name() == name@,
            r.spec_description() == Seq::<char>::empty(),
            r.spec_long_description() == Seq::<char>::empty(),
    {
        DefinitionDetails {
            name: name.to_owned(),
            display_name: name.to_owned(),
            description: String::new(),
            long_description: String::new(),
        }
    }

    pub fn name(&self) -> (r: &str)
        ensures
            r@ == self.spec_name(),
    {
        self.name.as_str()
    }

    pub fn display_name(&self) -> (r: &str)
        ensures
            r@ == self.spec_display_name(),
    {
        self.display_name.as_str()
    }

    pub fn description(&self) -> (r: &str)
        ensures
            r@ == self.spec_description(),
    {
        self.description.as_str()
    }

    pub fn long_description(&self) -> (r: &str)
        ensures
            r@ == self.spec_long_description(),
    {
        self.long_description.as_str()
    }
}

/// A definition that a storage can hold: it has a name and takes the id
/// the storage gives it.
pub trait Definition: Sized {
    spec fn spec_name(&self) -> Seq<char>;

    spec fn spec_id(&self) -> usize;

    fn name(&self) -> (r: &str)
        ensures
            r@ == self.spec_name(),
    ;

    fn set_id(&mut self, id: usize)
        ensures
            final(self).spec_id() == id,
            final(self).spec_name() == old(self).spec_name(),
    ;
}

/// What `str::to_lowercase` makes of a string.
pub uninterp spec fn lowercased(s: Seq<char>) -> Seq<char>;

/// `str::to_lowercase` of std: the string in lower case, by the Unicode
/// lowercase mapping. The contract names the result and says no more.
#[verifier::external_body]
fn to_lowercase(s: &str) -> (r: String)
    ensures
        r@ == lowercased(s@),
{
    s.to_lowercase()
}

/// The definitions of one kind, by id and by lower case name. The id of a
/// definition is its position; a name refers to the last definition
/// inserted under it.
pub struct DefinitionStorage<T> {
    storage: Vec<T>,
    lookup: Vec<String>,
}

/// The last position of `name` in `names`, if it occurs.
pub open spec fn last_index_of(names: Seq<Seq<char>>, name: Seq<char>) -> Option<int>
    decreases names.len(),
{
    if names.len() == 0 {
        None
    } else if names.last() == name {
        Some(names.len() - 1)
    } else {
        last_index_of(names.drop_last(), name)
    }
}

impl<T: Definition> DefinitionStorage<T> {
    /// The definitions, by id.
    pub closed spec fn defs(&self) -> Seq<T> {
        self.storage@
    }

    /// The lower case name each id is found under.
    pub closed spec fn names(&self) -> Seq<Seq<char>> {
        self.lookup@.map_values(|s: String| s@)
    }

    /// Every definition carries its own id and is found under its name.
    pub closed spec fn wf(&self) -> bool {
        &&& self.storage@.len() == self.lookup@.len()
        &&& forall|i: int| 0 <= i < self.storage@.len() ==> #[trigger] self.storage@[i].spec_id() == i
        &&& forall|i: int|
            0 <= i < self.storage@.len() ==> #[trigger] self.lookup@[i]@ == lowercased(
                self.storage@[i].spec_name(),
            )
    }

    /// An empty storage.
    pub fn new() -> (r: DefinitionStorage<T>)
        ensures
            r.wf(),
            r.defs() == Seq::<T>::empty(),
    {
        DefinitionStorage { storage: Vec::new(), lookup: Vec::new() }
    }

    /// Adds `def` under the next id and under its name in lower case.
    pub fn insert(&mut self, def: T)
        requires
            old(self).wf(),
        ensures
            final(self).wf(),
            final(self).defs().len() == old(self).defs().len() + 1,
            forall|i: int| 0 <= i < old(self).defs().len() ==> #[trigger] final(self).defs()[i] == old(self).defs()[i],
            final(self).defs().last().spec_id() == old(self).defs().len(),
            final(self).defs().last().spec_name() == def.spec_name(),
            final(self).names() == old(self).names().push(lowercased(def.spec_name())),
    {
        let mut def = def;
        let id = self.storage.len();
        def.set_id(id);
        let name = to_lowercase(def.name());
        self.storage.push(def);
        self.lookup.push(name);
        proof {
            assert(self.names() =~= old(self).names().push(lowercased(def.spec_name())));
        }
    }

    pub fn len(&self) -> (r: usize)
        ensures
            r == self.defs().len(),
    {
        self.storage.len()
    }

    pub fn is_empty(&self) -> (r: bool)
        ensures
            r == (self.defs().len() == 0),
    {
        self.len() < 1
    }

    /// The definition of id `id`, if there is one.
    pub fn get(&self, id: usize) -> (r: Option<&T>)
        ensures
            match r {
                Some(d) => id < self.defs().len() && *d == self.defs()[id as int],
                None => id >= self.defs().len(),
            },
    {
        if id < self.storage.len() {
            Some(&self.storage[id])
        } else {
            None
        }
    }

    /// Whether `id` is at most the number of definitions.
    pub fn has_id(&self, id: usize) -> (r: bool)
        ensures
            r == (self.defs().len() >= id),
    {
        self.storage.len() >= id
    }

    /// Whether `name`, taken as it is, is the lower case name of a definition.
    pub fn has_key(&self, name: &str) -> (r: bool)
        ensures
            r == self.names().contains(name@),
    {
        let key = name.to_owned();
        let mut i: usize = 0;
        while i < self.lookup.len()
            invariant
                i <= self.lookup@.len(),
                key@ == name@,
                forall|j: int| 0 <= j < i ==> self.lookup@[j]@ != name@,
            decreases self.lookup@.len() - i,
        {
            if self.lookup[i] == key {
                proof {
                    assert(self.names()[i as int] == name@);
                }
                return true;
            }
            i = i + 1;
        }
        proof {
            if self.names().contains(name@) {
                let k = choose|k: int| 0 <= k < self.names().len() && self.names()[k] == name@;
                assert(self.lookup@[k]@ == name@);
            }
        }
        false
    }

    /// The id of the definition last inserted under the lower case of `name`.
    pub fn get_id(&self, name: &str) -> (r: Option<usize>)
        ensures
            match r {
                Some(id) => last_index_of(self.names(), lowercased(name@)) == Some(id as int),
                None => last_index_of(self.names(), lowercased(name@)) is None,
            },
    {
        let key = to_lowercase(name);
        let ghost names = self.names();
        let mut i: usize = self.lookup.len();
        proof {
            assert(names.len() == self.lookup@.len());
            assert(names.subrange(0, i as int) == names);
        }
        while i > 0
            invariant
                i <= self.lookup@.len(),
                names == self.names(),
                key@ == lowercased(name@),
                names.len() == self.lookup@.len(),
                last_index_of(names, key@) == last_index_of(names.subrange(0, i as int), key@),
            decreases i,
        {
            let j = i - 1;
            proof {
                let sub = names.subrange(0, i as int);
                assert(sub.drop_last() == names.subrange(0, j as int));
                assert(sub.last() == self.lookup@[j as int]@);
            }
            if self.lookup[j] == key {
                proof {
                    let sub = names.subrange(0, i as int);
                    assert(sub.last() == key@);
                    assert(last_index_of(sub, key@) == Some(j as int));
                }
                return Some(j);
            }
            i = j;
        }
        None
    }

    /// The definition last inserted under the lower case of `name`, as `find`.
    pub fn get_by_name(&self, name: &str) -> (r: Option<&T>)
        requires
            self.wf(),
        ensures
            match last_index_of(self.names(), lowercased(name@)) {
                Some(i) => r == Some(&self.defs()[i]),
                None => r is None,
            },
    {
        self.find(name)
    }

    /// The definitions, by id.
    pub fn iter(&self) -> (r: &Vec<T>)
        ensures
            r@ == self.defs(),
    {
        &self.storage
    }

    /// The lower case names definitions are found under, each once.
    pub fn keys(&self) -> (r: Vec<String>)
        ensures
            r@.map_values(|s: String| s@).to_set() == self.names().to_set(),
            r@.map_values(|s: String| s@).no_duplicates(),
    {
        let mut r: Vec<String> = Vec::new();
        let mut i: usize = 0;
        while i < self.lookup.len()
            invariant
                i <= self.lookup@.len(),
                r@.map_values(|s: String| s@).to_set() == self.names().subrange(0, i as int).to_set(),
                r@.map_values(|s: String| s@).no_duplicates(),
            decreases self.lookup@.len() - i,
        {
            let ghost seen = r@.map_values(|s: String| s@);
            let name = &self.lookup[i];
            let mut found = false;
            let mut j: usize = 0;
            while j < r.len()
                invariant
                    j <= r@.len(),
                    seen == r@.map_values(|s: String| s@),
                    found <==> exists|k: int| 0 <= k < j && seen[k] == name@,
                decreases r@.len() - j,
            {
                proof {
                    assert(seen[j as int] == r@[j as int]@);
                }
                if r[j] == *name {
                    found = true;
                }
                j = j + 1;
            }
            proof {
                let sub = self.names().subrange(0, i as int);
                assert(self.names().subrange(0, i + 1) =~= sub.push(name@));
                assert(self.names()[i as int] == name@);
            }
            if !found {
                r.push(name.clone());
                proof {
                    assert(r@.map_values(|s: String| s@) =~= seen.push(name@));
                    assert(!seen.contains(name@)) by {
                        if seen.contains(name@) {
                            let k = choose|k: int| 0 <= k < seen.len() && seen[k] == name@;
                        }
                    }
                }
            } else {
                proof {
                    let k = choose|k: int| 0 <= k < j && seen[k] == name@;
                    assert(seen.to_set().contains(name@));
                }
            }
            proof {
                let sub = self.names().subrange(0, i as int);
                sub.lemma_push_to_set_commute(name@);
                if !found {
                    seen.lemma_push_to_set_commute(name@);
                }
                assert(r@.map_values(|s: String| s@).to_set() =~= self.names().subrange(0, i + 1).to_set());
            }
            i = i + 1;
        }
        proof {
            assert(self.names().subrange(0, i as int) =~= self.names());
        }
        r
    }

    /// The definition last inserted under the lower case of `name`.
    pub fn find(&self, name: &str) -> (r: Option<&T>)
        requires
            self.wf(),
        ensures
            match last_index_of(self.names(), lowercased(name@)) {
                Some(i) => r == Some(&self.defs()[i]),
                None => r is None,
            },
    {
        proof {
            lemma_last_index_in_range(self.names(), lowercased(name@));
        }
        match self.get_id(name) {
            Some(id) => self.get(id),
            None => None,
        }
    }
}

/// A definition just inserted is the one found under its name: the lookup
/// after the insertion gives the id the definition was inserted under.
pub proof fn lemma_find_after_insert<T: Definition>(s: &DefinitionStorage<T>, def: T)
    requires
        s.wf(),
    ensures
        last_index_of(s.names().push(lowercased(def.spec_name())), lowercased(def.spec_name()))
            == Some(s.defs().len() as int),
{
    let names = s.names().push(lowercased(def.spec_name()));
    assert(names.last() == lowercased(def.spec_name()));
    assert(s.names().len() == s.defs().len());
}

/// A position found by `last_index_of` is one of the sequence, holding
/// the name.
pub proof fn lemma_last_index_in_range(names: Seq<Seq<char>>, name: Seq<char>)
    ensures
        match last_index_of(names, name) {
            Some(i) => 0 <= i < names.len() && names[i] == name,
            None => !names.contains(name),
        },
    decreases names.len(),
{
    if names.len() > 0 {
        lemma_last_index_in_range(names.drop_last(), name);
        if names.last() != name && names.contains(name) {
            let k = choose|k: int| 0 <= k < names.len() && names[k] == name;
            assert(names.drop_last()[k] == name);
        }
    }
}

} // verus!
