//! Which VMs automatic scaling owns, across daemon restarts.

use vstd::prelude::*;
use vstd::string::StringExecFns;

use crate::backends::IoFailure;
use crate::registry::{law_append_is_local, Registry};
use crate::text::texts;

verus! {

/// Failure to load, change or store the ownership of VMs.
#[derive(Debug, Clone)]
pub enum StateError {
    /// The registry file could not be read or written.
    Io(IoFailure),
    /// The registry file does not hold ownership sets.
    Parse(String),
    /// A VM would be both managed and unmanaged.
    Conflict(String),
}

/// The text content of a [`StateError`].
pub enum StateErrorView {
    /// The registry file could not be read or written.
    Io(Seq<char>),
    /// The registry file does not hold ownership sets.
    Parse(Seq<char>),
    /// A VM would be both managed and unmanaged.
    Conflict(Seq<char>),
}

impl View for StateError {
    type V = StateErrorView;

    open spec fn view(&self) -> StateErrorView {
        match *self {
            StateError::Io(e) => StateErrorView::Io(e.message@),
            StateError::Parse(s) => StateErrorView::Parse(s@),
            StateError::Conflict(s) => StateErrorView::Conflict(s@),
        }
    }
}

impl StateErrorView {
    /// The rendered failure.
    pub open spec fn rendered(self) -> Seq<char> {
        match self {
            StateErrorView::Io(s) => "io: "@ + s,
            StateErrorView::Parse(s) => "parse: "@ + s,
            StateErrorView::Conflict(id) => "VM "@ + id + " is both managed and unmanaged"@,
        }
    }
}

impl StateError {
    /// Render the failure for people.
    pub fn message(&self) -> (r: String)
        ensures
            r@ == self@.rendered(),
    {
        match self {
            StateError::Io(e) => "io: ".to_owned().concat(e.message.as_str()),
            StateError::Parse(s) => "parse: ".to_owned().concat(s.as_str()),
            StateError::Conflict(id) => "VM ".to_owned().concat(id.as_str()).concat(
                " is both managed and unmanaged",
            ),
        }
    }
}

/// Managed and unmanaged VMs.
pub struct VmOwnership {
    managed_by_id: Registry<bool>,
}

impl VmOwnership {
    /// The classified VMs.
    pub closed spec fn classified(&self) -> Registry<bool> {
        self.managed_by_id
    }

    /// No VM is classified twice.
    pub open spec fn wf(&self) -> bool {
        self.classified().wf()
    }

    /// Whether a VM is managed, if it is classified.
    pub open spec fn of(&self, id: Seq<char>) -> Option<bool> {
        self.classified().lookup(id)
    }

    /// Whether nothing but the classification of `id` differs from `before`.
    pub open spec fn only_changed(&self, before: Self, id: Seq<char>, managed: bool) -> bool {
        forall|other: Seq<char>|
            #![trigger self.of(other)]
            self.of(other) == if other == id {
                Some(managed)
            } else {
                before.of(other)
            }
    }

    /// No VM classified.
    pub fn new() -> (r: Self)
        ensures
            r.wf(),
            forall|id: Seq<char>| #[trigger] r.of(id) is None,
    {
        VmOwnership { managed_by_id: Registry::new() }
    }

    /// Whether a VM is managed, if it is classified.
    pub fn classification(&self, id: &str) -> (r: Option<bool>)
        requires
            self.wf(),
        ensures
            r == self.of(id@),
    {
        match self.managed_by_id.get(id) {
            Some(managed) => Some(*managed),
            None => None,
        }
    }

    /// Classify a VM; a VM classified the other way stays as it is.
    pub fn record(&mut self, id: &str, managed: bool) -> (r: Result<(), StateError>)
        requires
            old(self).wf(),
        ensures
            final(self).wf(),
            old(self).of(id@) == Some(!managed) ==> {
                &&& r is Err
                &&& r->Err_0@ == StateErrorView::Conflict(id@)
                &&& *final(self) == *old(self)
            },
            old(self).of(id@) != Some(!managed) ==> {
                &&& r is Ok
                &&& final(self).only_changed(*old(self), id@, managed)
            },
    {
        match self.classification(id) {
            Some(present) => {
                if present != managed {
                    return Err(StateError::Conflict(id.to_owned()));
                }
                Ok(())
            },
            None => {
                let ghost before = self.managed_by_id;
                self.managed_by_id.insert(id.to_owned(), managed);
                proof {
                    law_append_is_local(before, self.managed_by_id, id@, managed);
                }
                Ok(())
            },
        }
    }

    /// Build the ownership from its two sets.
    pub fn from_sets(managed: &Vec<String>, unmanaged: &Vec<String>) -> (r: Result<Self, StateError>)
        ensures
            match r {
                Ok(o) => o.wf() && described(o, texts(managed@), texts(unmanaged@)),
                Err(e) => e@ is Conflict && texts(managed@).contains(e@->Conflict_0) && texts(
                    unmanaged@,
                ).contains(e@->Conflict_0),
            },
            r is Ok == forall|id: Seq<char>|
                !(#[trigger] texts(managed@).contains(id) && texts(unmanaged@).contains(id)),
    {
        let mut out = VmOwnership::new();
        let ghost yes = texts(managed@);
        let ghost no = texts(unmanaged@);
        let mut i: usize = 0;
        while i < managed.len()
            invariant
                i <= managed.len(),
                yes == texts(managed@),
                out.wf(),
                forall|id: Seq<char>| #[trigger]
                    out.of(id) == if yes.take(i as int).contains(id) {
                        Some(true)
                    } else {
                        None
                    },
            decreases managed.len() - i,
        {
            let ghost before = out;
            let ghost id = managed@[i as int]@;
            assert(yes[i as int] == id);
            let done = out.record(managed[i].as_str(), true);
            proof {
                assert(done is Ok);
                lemma_take_one(yes, i as int);
                assert forall|other: Seq<char>| #[trigger] out.of(other) == if yes.take(
                    i + 1,
                ).contains(other) {
                    Some(true)
                } else {
                    None
                } by {
                    assert(before.of(other) == before.of(other));
                }
            }
            i += 1;
        }
        assert(yes.take(i as int) =~= yes);
        let mut k: usize = 0;
        while k < unmanaged.len()
            invariant
                k <= unmanaged.len(),
                yes == texts(managed@),
                no == texts(unmanaged@),
                out.wf(),
                forall|id: Seq<char>| #[trigger]
                    out.of(id) == if yes.contains(id) {
                        Some(true)
                    } else if no.take(k as int).contains(id) {
                        Some(false)
                    } else {
                        None
                    },
                forall|id: Seq<char>|
                    !(#[trigger] yes.contains(id) && no.take(k as int).contains(id)),
            decreases unmanaged.len() - k,
        {
            let ghost before = out;
            let ghost id = unmanaged@[k as int]@;
            assert(no[k as int] == id);
            proof {
                lemma_take_one(no, k as int);
                assert(before.of(id) == out.of(id));
            }
            match out.record(unmanaged[k].as_str(), false) {
                Ok(_) => {},
                Err(error) => {
                    assert(no.contains(id));
                    assert(yes.contains(id));
                    return Err(error);
                },
            }
            proof {
                assert forall|other: Seq<char>| #[trigger] out.of(other) == if yes.contains(other) {
                    Some(true)
                } else if no.take(k + 1).contains(other) {
                    Some(false)
                } else {
                    None
                } by {
                    assert(before.of(other) == before.of(other));
                }
            }
            k += 1;
        }
        assert(no.take(k as int) =~= no);
        Ok(out)
    }

    /// The VMs of one of the two sets, in the order in which they were classified.
    pub fn ids(&self, managed: bool) -> (r: Vec<String>)
        requires
            self.wf(),
        ensures
            texts(r@) == listed(*self, managed, self.classified().ids().len() as int),
            lists(texts(r@), *self, managed),
    {
        let mut out: Vec<String> = Vec::new();
        let mut i: usize = 0;
        assert(texts(out@) =~= Seq::<Seq<char>>::empty());
        while i < self.managed_by_id.len()
            invariant
                self.wf(),
                i <= self.classified().ids().len(),
                texts(out@) == listed(*self, managed, i as int),
            decreases self.classified().ids().len() - i,
        {
            if *self.managed_by_id.value_at(i) == managed {
                let ghost before = out@;
                let id = self.managed_by_id.id_at(i).clone();
                out.push(id);
                assert(texts(out@) =~= texts(before).push(id@));
            }
            i += 1;
        }
        proof {
            lemma_listed(*self, managed, i as int);
            assert forall|id: Seq<char>| #[trigger] texts(out@).contains(id) <==> self.of(id)
                == Some(managed) by {
                if self.classified().has(id) {
                    let at = self.classified().ids().index_of(id);
                    assert(self.classified().ids()[at] == id);
                }
            }
        }
        out
    }
}

/// The VMs of one set among the first `n` classified ones.
pub open spec fn listed(ownership: VmOwnership, managed: bool, n: int) -> Seq<Seq<char>>
    decreases n,
{
    if n <= 0 {
        seq![]
    } else if ownership.classified().vals()[n - 1] == managed {
        listed(ownership, managed, n - 1).push(ownership.classified().ids()[n - 1])
    } else {
        listed(ownership, managed, n - 1)
    }
}

proof fn lemma_listed(ownership: VmOwnership, managed: bool, n: int)
    requires
        ownership.wf(),
        0 <= n <= ownership.classified().ids().len(),
    ensures
        forall|id: Seq<char>| #[trigger]
            listed(ownership, managed, n).contains(id) <==> exists|i: int|
                0 <= i < n && #[trigger] ownership.classified().ids()[i] == id
                    && ownership.classified().vals()[i] == managed,
    decreases n,
{
    if n > 0 {
        lemma_listed(ownership, managed, n - 1);
        let front = listed(ownership, managed, n - 1);
        let ids = ownership.classified().ids();
        assert forall|id: Seq<char>| #[trigger]
            listed(ownership, managed, n).contains(id) <==> exists|i: int|
                0 <= i < n && #[trigger] ids[i] == id && ownership.classified().vals()[i]
                    == managed by {
            if listed(ownership, managed, n).contains(id) {
                if front.contains(id) {
                    let i = choose|i: int|
                        0 <= i < n - 1 && #[trigger] ids[i] == id && ownership.classified().vals()[i]
                            == managed;
                    assert(ids[i] == id);
                } else {
                    assert(ids[n - 1] == id);
                }
            }
            if exists|i: int|
                0 <= i < n && #[trigger] ids[i] == id && ownership.classified().vals()[i]
                    == managed {
                let i = choose|i: int|
                    0 <= i < n && #[trigger] ids[i] == id && ownership.classified().vals()[i]
                        == managed;
                if i < n - 1 {
                    assert(front.contains(id));
                    let at = front.index_of(id);
                    assert(listed(ownership, managed, n)[at] == id);
                } else {
                    assert(listed(ownership, managed, n).last() == id);
                }
            }
        }
    }
}

/// Whether a list holds exactly the VMs of one of the two sets.
pub open spec fn lists(ids: Seq<Seq<char>>, ownership: VmOwnership, managed: bool) -> bool {
    forall|id: Seq<char>| #[trigger] ids.contains(id) <==> ownership.of(id) == Some(managed)
}

/// Whether the ownership is the one that two lists describe.
pub open spec fn described(
    ownership: VmOwnership,
    managed: Seq<Seq<char>>,
    unmanaged: Seq<Seq<char>>,
) -> bool {
    forall|id: Seq<char>| #[trigger]
        ownership.of(id) == if managed.contains(id) {
            Some(true)
        } else if unmanaged.contains(id) {
            Some(false)
        } else {
            None
        }
}

/// Classifications survive a restart: the two lists of an ownership do not
/// overlap, and the ownership that they describe classifies every VM as before.
pub proof fn law_ownership_survives_restart(
    before: VmOwnership,
    managed: Seq<Seq<char>>,
    unmanaged: Seq<Seq<char>>,
    after: VmOwnership,
)
    requires
        lists(managed, before, true),
        lists(unmanaged, before, false),
        described(after, managed, unmanaged),
    ensures
        forall|id: Seq<char>| !(#[trigger] managed.contains(id) && unmanaged.contains(id)),
        forall|id: Seq<char>| #[trigger] after.of(id) == before.of(id),
{
    assert forall|id: Seq<char>| #[trigger] after.of(id) == before.of(id) by {
        assert(managed.contains(id) <==> before.of(id) == Some(true));
        assert(unmanaged.contains(id) <==> before.of(id) == Some(false));
    }
}

/// What one more element adds to a prefix.
pub proof fn lemma_take_one<T>(s: Seq<T>, i: int)
    requires
        0 <= i < s.len(),
    ensures
        forall|x: T| #[trigger] s.take(i + 1).contains(x) <==> s.take(i).contains(x) || x == s[i],
{
    assert forall|x: T| #[trigger] s.take(i + 1).contains(x) <==> s.take(i).contains(x) || x == s[i]
        by {
        if s.take(i + 1).contains(x) {
            let at = s.take(i + 1).index_of(x);
            if at < i {
                assert(s.take(i)[at] == x);
            }
        }
        if s.take(i).contains(x) {
            let at = s.take(i).index_of(x);
            assert(s.take(i + 1)[at] == x);
        }
        assert(s.take(i + 1)[i] == s[i]);
    }
}

/// Classifying one VM concerns no other.
pub proof fn law_classifications_are_independent(
    before: VmOwnership,
    after: VmOwnership,
    id: Seq<char>,
    managed: bool,
    other: Seq<char>,
)
    requires
        after.only_changed(before, id, managed),
        other != id,
    ensures
        after.of(id) == Some(managed),
        after.of(other) == before.of(other),
{
    assert(after.of(other) == before.of(other));
    assert(after.of(id) == Some(managed));
}

/// A VM is classified exactly where the registry has it, and then as the registry says.
pub proof fn law_classification_is_what_is_recorded(ownership: VmOwnership, id: Seq<char>)
    ensures
        ownership.of(id) is Some <==> ownership.classified().ids().contains(id),
        ownership.of(id) is Some ==> ownership.of(id)->0
            == ownership.classified().vals()[ownership.classified().ids().index_of(id)],
{
}

/// The ownership that two lists describe has the VMs of the one as managed, those of the other as
/// unmanaged, and no others.
pub proof fn law_lists_describe_the_ownership(
    ownership: VmOwnership,
    managed: Seq<Seq<char>>,
    unmanaged: Seq<Seq<char>>,
    id: Seq<char>,
)
    requires
        described(ownership, managed, unmanaged),
        !(managed.contains(id) && unmanaged.contains(id)),
    ensures
        ownership.of(id) == Some(true) <==> managed.contains(id),
        ownership.of(id) == Some(false) <==> unmanaged.contains(id),
        ownership.of(id) is None <==> !managed.contains(id) && !unmanaged.contains(id),
{
    assert(ownership.of(id) == ownership.of(id));
}

} // verus!
