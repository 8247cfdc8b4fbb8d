//! A map from text identifiers to values, kept in the order of the identifiers.

use vstd::prelude::*;

use crate::collate::{
    at_or_before, lemma_order_antisymmetric, lemma_order_total, lemma_order_transitive,
    text_at_or_before,
};
use crate::text::texts;

verus! {

/// Whether each text is before every later one.
pub open spec fn ascending(s: Seq<Seq<char>>) -> bool {
    forall|i: int, j: int|
        0 <= i < j < s.len() ==> at_or_before(#[trigger] s[i], #[trigger] s[j]) && s[i] != s[j]
}

/// Values keyed by identifier, in ascending order of the identifiers.
#[derive(Debug)]
pub struct OrderedMap<V> {
    keys: Vec<String>,
    values: Vec<V>,
}

impl<V> View for OrderedMap<V> {
    type V = Map<Seq<char>, V>;

    open spec fn view(&self) -> Map<Seq<char>, V> {
        Map::new(
            |id: Seq<char>| self.ids().contains(id),
            |id: Seq<char>| self.vals()[self.ids().index_of(id)],
        )
    }
}

impl<V> OrderedMap<V> {
    /// The identifiers, in order.
    pub closed spec fn ids(&self) -> Seq<Seq<char>> {
        texts(self.keys@)
    }

    /// The values, in the order of the identifiers.
    pub closed spec fn vals(&self) -> Seq<V> {
        self.values@
    }

    /// The identifiers ascend, and each has one value.
    pub open spec fn wf(&self) -> bool {
        &&& self.ids().len() == self.vals().len()
        &&& ascending(self.ids())
    }

    proof fn lemma_position(&self, id: Seq<char>, i: int)
        requires
            self.wf(),
            0 <= i < self.ids().len(),
            self.ids()[i] == id,
        ensures
            self@.dom().contains(id),
            self.ids().index_of(id) == i,
            self@[id] == self.vals()[i],
    {
        let at = self.ids().index_of(id);
        assert(self.ids()[at] == id);
        if at < i {
            assert(self.ids()[at] != self.ids()[i]);
        } else if i < at {
            assert(self.ids()[i] != self.ids()[at]);
        }
    }

    /// Make an empty map.
    pub fn new() -> (r: Self)
        ensures
            r.wf(),
            r.ids() == Seq::<Seq<char>>::empty(),
            r@ == Map::<Seq<char>, V>::empty(),
    {
        let r = OrderedMap { keys: Vec::new(), values: Vec::new() };
        assert(r.ids() =~= Seq::<Seq<char>>::empty());
        assert(r@ =~= Map::<Seq<char>, V>::empty());
        r
    }

    /// Number of identifiers.
    pub fn len(&self) -> (r: usize)
        requires
            self.wf(),
        ensures
            r == self.ids().len(),
    {
        self.keys.len()
    }

    /// Whether there is no identifier.
    pub fn is_empty(&self) -> (r: bool)
        requires
            self.wf(),
        ensures
            r == (self.ids().len() == 0),
    {
        self.keys.len() == 0
    }

    /// The identifier at a position.
    pub fn id_at(&self, i: usize) -> (r: &String)
        requires
            self.wf(),
            i < self.ids().len(),
        ensures
            r@ == self.ids()[i as int],
    {
        &self.keys[i]
    }

    /// The value at a position.
    pub fn value_at(&self, i: usize) -> (r: &V)
        requires
            self.wf(),
            i < self.ids().len(),
        ensures
            *r == self.vals()[i as int],
            self@.dom().contains(self.ids()[i as int]),
            *r == self@[self.ids()[i as int]],
    {
        proof {
            self.lemma_position(self.ids()[i as int], i as int);
        }
        &self.values[i]
    }

    /// The value of an identifier.
    pub fn get(&self, id: &str) -> (r: Option<&V>)
        requires
            self.wf(),
        ensures
            match r {
                Some(v) => self@.dom().contains(id@) && self@[id@] == *v,
                None => !self@.dom().contains(id@),
            },
    {
        let wanted = id.to_owned();
        let mut i: usize = 0;
        while i < self.keys.len()
            invariant
                self.wf(),
                wanted@ == id@,
                i <= self.keys.len(),
                forall|j: int| 0 <= j < i ==> #[trigger] self.ids()[j] != id@,
            decreases self.keys.len() - i,
        {
            assert(self.ids()[i as int] == self.keys@[i as int]@);
            if self.keys[i] == wanted {
                proof {
                    self.lemma_position(id@, i as int);
                }
                return Some(&self.values[i]);
            }
            i += 1;
        }
        None
    }

    /// Replace the value of an identifier, or add the identifier in its place.
    pub fn insert(&mut self, id: String, value: V)
        requires
            old(self).wf(),
        ensures
            final(self).wf(),
            final(self)@ == old(self)@.insert(id@, value),
    {
        let ghost before = *self;
        let ghost ids = self.ids();
        let mut at: usize = 0;
        while at < self.keys.len() && !text_at_or_before(id.as_str(), self.keys[at].as_str())
            invariant
                at <= self.keys.len(),
                *self == before,
                ids == self.ids(),
                self.wf(),
                forall|j: int|
                    0 <= j < at ==> at_or_before(#[trigger] ids[j], id@) && ids[j] != id@,
            decreases self.keys.len() - at,
        {
            proof {
                assert(ids[at as int] == self.keys@[at as int]@);
                lemma_order_total(ids[at as int], id@);
                lemma_order_total(id@, id@);
            }
            at += 1;
        }
        assert(at < ids.len() ==> ids[at as int] == self.keys@[at as int]@);
        if at < self.keys.len() && self.keys[at] == id {
            proof {
                self.lemma_position(id@, at as int);
            }
            self.values.set(at, value);
            proof {
                assert(self.ids() == ids);
                assert forall|other: Seq<char>| self@.dom().contains(other) implies self@[other]
                    == before@.insert(id@, value)[other] by {
                    let i = self.ids().index_of(other);
                    assert(self.ids()[i] == other);
                    self.lemma_position(other, i);
                    before.lemma_position(other, i);
                    if i != at {
                        assert(other != id@);
                    }
                }
                assert(self@ =~= before@.insert(id@, value));
            }
        } else {
            self.keys.insert(at, id);
            self.values.insert(at, value);
            proof {
                let after = self.ids();
                assert(after =~= ids.insert(at as int, id@));
                assert forall|i: int, j: int| 0 <= i < j < after.len() implies at_or_before(
                    #[trigger] after[i],
                    #[trigger] after[j],
                ) && after[i] != after[j] by {
                    if i == at {
                        let k = j - 1;
                        assert(after[j] == ids[k]);
                        if k > at {
                            assert(at_or_before(ids[at as int], ids[k]));
                            lemma_order_transitive(id@, ids[at as int], ids[k]);
                            if ids[k] == id@ {
                                lemma_order_antisymmetric(id@, ids[at as int]);
                            }
                        }
                    } else if j == at {
                        assert(after[i] == ids[i]);
                    } else {
                        let bi = if i < at { i } else { i - 1 };
                        let bj = if j < at { j } else { j - 1 };
                        assert(after[i] == ids[bi] && after[j] == ids[bj]);
                    }
                }
                self.lemma_position(id@, at as int);
                assert forall|other: Seq<char>| self@.dom().contains(other)
                    == before@.insert(id@, value).dom().contains(other) by {
                    if self@.dom().contains(other) {
                        let i = self.ids().index_of(other);
                        assert(self.ids()[i] == other);
                        if i != at {
                            let bi = if i < at { i } else { i - 1 };
                            assert(ids[bi] == other);
                        }
                    }
                    if before@.dom().contains(other) {
                        let bi = ids.index_of(other);
                        assert(ids[bi] == other);
                        let i = if bi < at { bi } else { bi + 1 };
                        assert(after[i] == other);
                    }
                }
                assert forall|other: Seq<char>| self@.dom().contains(other) implies self@[other]
                    == before@.insert(id@, value)[other] by {
                    let i = self.ids().index_of(other);
                    assert(self.ids()[i] == other);
                    self.lemma_position(other, i);
                    if i != at {
                        let bi = if i < at { i } else { i - 1 };
                        assert(ids[bi] == other);
                        before.lemma_position(other, bi);
                        assert(after[i] == other && after[at as int] == id@);
                        if i < at {
                            assert(after[i] != after[at as int]);
                        } else {
                            assert(after[at as int] != after[i]);
                        }
                    }
                }
                assert(self@ =~= before@.insert(id@, value));
            }
        }
    }
}

} // verus!
