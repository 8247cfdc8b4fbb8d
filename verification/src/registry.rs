//! An insertion-ordered map from text identifiers to values.

use vstd::prelude::*;

use crate::text::texts;

verus! {

/// Values keyed by identifier, in the order in which the identifiers came.
pub struct Registry<V> {
    keys: Vec<String>,
    values: Vec<V>,
}

impl<V> Registry<V> {
    /// The identifiers, in order.
    pub closed spec fn ids(&self) -> Seq<Seq<char>> {
        texts(self.keys@)
    }

    /// The values, in the order of the identifiers.
    pub closed spec fn vals(&self) -> Seq<V> {
        self.values@
    }

    /// No identifier occurs twice, and each has one value.
    pub open spec fn wf(&self) -> bool {
        &&& self.ids().len() == self.vals().len()
        &&& self.ids().no_duplicates()
    }

    /// Whether the identifier is in the registry.
    pub open spec fn has(&self, id: Seq<char>) -> bool {
        self.ids().contains(id)
    }

    /// The value of an identifier in the registry.
    pub open spec fn at(&self, id: Seq<char>) -> V {
        self.vals()[self.ids().index_of(id)]
    }

    /// The value of an identifier, if it is in the registry.
    pub open spec fn lookup(&self, id: Seq<char>) -> Option<V> {
        if self.has(id) {
            Some(self.at(id))
        } else {
            None
        }
    }

    proof fn lemma_position(&self, id: Seq<char>, i: int)
        requires
            self.wf(),
            0 <= i < self.ids().len(),
            self.ids()[i] == id,
        ensures
            self.has(id),
            self.ids().index_of(id) == i,
            self.at(id) == self.vals()[i],
    {
    }

    /// Make an empty registry.
    pub fn new() -> (r: Self)
        ensures
            r.wf(),
            r.ids() == Seq::<Seq<char>>::empty(),
    {
        let r = Registry { keys: Vec::new(), values: Vec::new() };
        assert(r.ids() =~= Seq::<Seq<char>>::empty());
        r
    }

    /// Number of identifiers.
    pub fn len(&self) -> (r: usize)
        requires
            self.wf(),
        ensures
            r == self.ids().len(),
    {
        self.keys.len()
    }

    /// Whether there is no identifier.
    pub fn is_empty(&self) -> (r: bool)
        requires
            self.wf(),
        ensures
            r == (self.ids().len() == 0),
    {
        self.keys.len() == 0
    }

    /// The identifier at a position.
    pub fn id_at(&self, i: usize) -> (r: &String)
        requires
            self.wf(),
            i < self.ids().len(),
        ensures
            r@ == self.ids()[i as int],
    {
        &self.keys[i]
    }

    /// The value at a position.
    pub fn value_at(&self, i: usize) -> (r: &V)
        requires
            self.wf(),
            i < self.ids().len(),
        ensures
            *r == self.vals()[i as int],
            self.has(self.ids()[i as int]),
            *r == self.at(self.ids()[i as int]),
    {
        proof {
            self.lemma_position(self.ids()[i as int], i as int);
        }
        &self.values[i]
    }

    /// Position of an identifier.
    pub fn position(&self, id: &str) -> (r: Option<usize>)
        requires
            self.wf(),
        ensures
            match r {
                Some(i) => self.has(id@) && i < self.ids().len() && self.ids()[i as int] == id@
                    && self.ids().index_of(id@) == i,
                None => !self.has(id@),
            },
    {
        let wanted = id.to_owned();
        let mut i: usize = 0;
        while i < self.keys.len()
            invariant
                self.wf(),
                wanted@ == id@,
                i <= self.keys.len(),
                forall|j: int| 0 <= j < i ==> #[trigger] self.ids()[j] != id@,
            decreases self.keys.len() - i,
        {
            assert(self.ids()[i as int] == self.keys@[i as int]@);
            if self.keys[i] == wanted {
                proof {
                    self.lemma_position(id@, i as int);
                }
                return Some(i);
            }
            i += 1;
        }
        None
    }

    /// Whether the identifier is in the registry.
    pub fn contains_key(&self, id: &str) -> (r: bool)
        requires
            self.wf(),
        ensures
            r == self.has(id@),
    {
        self.position(id).is_some()
    }

    /// The value of an identifier.
    pub fn get(&self, id: &str) -> (r: Option<&V>)
        requires
            self.wf(),
        ensures
            match r {
                Some(v) => self.lookup(id@) == Some(*v),
                None => self.lookup(id@) is None,
            },
    {
        match self.position(id) {
            Some(i) => Some(&self.values[i]),
            None => None,
        }
    }

    /// A mutable reference to the value of an identifier.
    pub fn get_mut(&mut self, id: &str) -> (r: Option<&mut V>)
        requires
            old(self).wf(),
        ensures
            final(self).wf(),
            final(self).ids() == old(self).ids(),
            match r {
                Some(v) => {
                    &&& old(self).lookup(id@) == Some(*v)
                    &&& final(self).vals() == old(self).vals().update(
                        old(self).ids().index_of(id@),
                        *final(v),
                    )
                },
                None => !old(self).has(id@) && *final(self) == *old(self),
            },
    {
        match self.position(id) {
            Some(i) => Some(&mut self.values[i]),
            None => None,
        }
    }

    /// Replace the value of an identifier, or append a new identifier.
    pub fn insert(&mut self, id: String, value: V)
        requires
            old(self).wf(),
        ensures
            final(self).wf(),
            old(self).has(id@) ==> {
                &&& final(self).ids() == old(self).ids()
                &&& final(self).vals() == old(self).vals().update(
                    old(self).ids().index_of(id@),
                    value,
                )
            },
            !old(self).has(id@) ==> {
                &&& final(self).ids() == old(self).ids().push(id@)
                &&& final(self).vals() == old(self).vals().push(value)
            },
    {
        match self.position(id.as_str()) {
            Some(i) => {
                self.values.set(i, value);
            },
            None => {
                let ghost before = self.ids();
                self.keys.push(id);
                self.values.push(value);
                assert(self.ids() =~= before.push(id@));
            },
        }
    }

    /// Drop an identifier and give back its value.
    pub fn remove(&mut self, id: &str) -> (r: Option<V>)
        requires
            old(self).wf(),
        ensures
            final(self).wf(),
            r == old(self).lookup(id@),
            old(self).has(id@) ==> {
                &&& final(self).ids() == old(self).ids().remove(old(self).ids().index_of(id@))
                &&& final(self).vals() == old(self).vals().remove(old(self).ids().index_of(id@))
            },
            !old(self).has(id@) ==> *final(self) == *old(self),
    {
        match self.position(id) {
            Some(i) => {
                let ghost before = self.ids();
                self.keys.remove(i);
                let value = self.values.remove(i);
                assert(self.ids() =~= before.remove(i as int));
                Some(value)
            },
            None => None,
        }
    }
}

/// After an update in place, the identifier has the new value and every other
/// identifier keeps its own.
pub proof fn law_update_is_local<V>(before: Registry<V>, after: Registry<V>, id: Seq<char>, value: V)
    requires
        before.wf(),
        before.has(id),
        after.ids() == before.ids(),
        after.vals() == before.vals().update(before.ids().index_of(id), value),
    ensures
        after.wf(),
        forall|other: Seq<char>|
            #![trigger after.lookup(other)]
            after.lookup(other) == if other == id {
                Some(value)
            } else {
                before.lookup(other)
            },
{
    let at = before.ids().index_of(id);
    assert forall|other: Seq<char>| #![trigger after.lookup(other)] true implies after.lookup(other)
        == if other == id {
        Some(value)
    } else {
        before.lookup(other)
    } by {
        if before.has(other) && other != id {
            let i = before.ids().index_of(other);
            assert(before.ids()[i] == other);
        }
    }
}

/// After a new identifier is appended, it has its value and every other
/// identifier keeps its own.
pub proof fn law_append_is_local<V>(before: Registry<V>, after: Registry<V>, id: Seq<char>, value: V)
    requires
        before.wf(),
        !before.has(id),
        after.ids() == before.ids().push(id),
        after.vals() == before.vals().push(value),
    ensures
        after.wf(),
        forall|other: Seq<char>|
            #![trigger after.lookup(other)]
            after.lookup(other) == if other == id {
                Some(value)
            } else {
                before.lookup(other)
            },
{
    let n = before.ids().len() as int;
    assert(after.ids()[n] == id);
    assert(after.ids().no_duplicates());
    assert forall|other: Seq<char>| #![trigger after.lookup(other)] true implies after.lookup(other)
        == if other == id {
        Some(value)
    } else {
        before.lookup(other)
    } by {
        if after.has(other) {
            let i = after.ids().index_of(other);
            assert(after.ids()[i] == other);
            if i < n {
                assert(before.ids()[i] == other);
            }
        }
        if before.has(other) {
            let i = before.ids().index_of(other);
            assert(after.ids()[i] == other);
        }
    }
}

/// After a removal, the identifier is gone and every other one keeps its value.
pub proof fn law_remove_is_local<V>(before: Registry<V>, after: Registry<V>, id: Seq<char>)
    requires
        before.wf(),
        before.has(id),
        after.ids() == before.ids().remove(before.ids().index_of(id)),
        after.vals() == before.vals().remove(before.ids().index_of(id)),
    ensures
        after.wf(),
        forall|other: Seq<char>|
            #![trigger after.lookup(other)]
            after.lookup(other) == if other == id {
                None
            } else {
                before.lookup(other)
            },
{
    let at = before.ids().index_of(id);
    assert(before.ids()[at] == id);
    assert forall|i: int, j: int|
        0 <= i < after.ids().len() && 0 <= j < after.ids().len() && i
            != j implies after.ids()[i] != after.ids()[j] by {
        let bi = if i < at { i } else { i + 1 };
        let bj = if j < at { j } else { j + 1 };
        assert(after.ids()[i] == before.ids()[bi]);
        assert(after.ids()[j] == before.ids()[bj]);
    }
    assert forall|other: Seq<char>| #![trigger after.lookup(other)] true implies after.lookup(other)
        == if other == id {
        None
    } else {
        before.lookup(other)
    } by {
        if after.has(other) {
            let i = after.ids().index_of(other);
            let bi = if i < at { i } else { i + 1 };
            assert(after.ids()[i] == before.ids()[bi]);
            assert(after.vals()[i] == before.vals()[bi]);
        }
        if before.has(other) && other != id {
            let bi = before.ids().index_of(other);
            let i = if bi < at { bi } else { bi - 1 };
            assert(after.ids()[i] == before.ids()[bi]);
        }
    }
}

} // verus!
