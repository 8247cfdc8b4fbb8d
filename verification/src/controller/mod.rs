//! Engine-agnostic fleet inventory, sampling, and actuation.
//!
//! The controller owns the inventory and its rules. Whoever drives it performs
//! the outside work that it asks for: calls of VM clients and of the scaling
//! engine, and reading the host's counters.

use vstd::prelude::*;
use vstd::string::StringExecFns;

use crate::backends::{BackendClientError, ClientErrorView};
use crate::binary64::Binary64;
use crate::collate::{in_order, sort_texts};
use crate::config::Config;
use crate::controller::host::HostCpuSample;
use crate::instance::Instance;
use crate::registry::Registry;
use crate::state::{StateError, StateErrorView, VmOwnership};
use crate::text::texts;

pub mod actuation;
pub mod host;
pub mod ownership;
pub mod refresh;
pub mod sync;

verus! {

/// Failure of a controller operation.
#[derive(Debug)]
pub enum ControllerError {
    /// A VM client failed.
    BackendClient(BackendClientError),
    /// The ownership registry failed.
    State(StateError),
    /// A requested worker count is unusable.
    ThreadCountError(String),
    /// A VM is unknown or inconsistent.
    VmError(String),
}

/// The text content of a [`ControllerError`].
pub enum ControllerErrorView {
    /// A VM client failed.
    BackendClient(ClientErrorView),
    /// The ownership registry failed.
    State(StateErrorView),
    /// A requested worker count is unusable.
    ThreadCountError(Seq<char>),
    /// A VM is unknown or inconsistent.
    VmError(Seq<char>),
}

impl View for ControllerError {
    type V = ControllerErrorView;

    open spec fn view(&self) -> ControllerErrorView {
        match *self {
            ControllerError::BackendClient(e) => ControllerErrorView::BackendClient(e@),
            ControllerError::State(e) => ControllerErrorView::State(e@),
            ControllerError::ThreadCountError(s) => ControllerErrorView::ThreadCountError(s@),
            ControllerError::VmError(s) => ControllerErrorView::VmError(s@),
        }
    }
}

impl ControllerErrorView {
    /// The rendered failure.
    pub open spec fn rendered(self) -> Seq<char> {
        match self {
            ControllerErrorView::BackendClient(e) => e.rendered(),
            ControllerErrorView::State(e) => e.rendered(),
            ControllerErrorView::ThreadCountError(s) => "Set thread count error: "@ + s,
            ControllerErrorView::VmError(s) => "VM error: "@ + s,
        }
    }
}

impl ControllerError {
    /// Render the failure for people.
    pub fn message(&self) -> (r: String)
        ensures
            r@ == self@.rendered(),
    {
        match self {
            ControllerError::BackendClient(e) => e.message(),
            ControllerError::State(e) => e.message(),
            ControllerError::ThreadCountError(s) => "Set thread count error: ".to_owned().concat(
                s.as_str(),
            ),
            ControllerError::VmError(s) => "VM error: ".to_owned().concat(s.as_str()),
        }
    }
}

/// Live VM inventory and per-tick rules.
pub struct Controller {
    /// Effective daemon configuration.
    pub cfg: Config,
    /// Restart-surviving managed and unmanaged VM sets, loaded once.
    pub vm_ownership: VmOwnership,
    /// Tracked VMs keyed by stable identifier.
    pub instances: Registry<Instance>,
    /// Monotonically increasing tick sequence.
    pub tick_index: u64,
    /// Previous host CPU sample.
    pub last_host_cpu: Option<HostCpuSample>,
    /// Fraction of host CPU consumed since the previous tick.
    pub host_cpu_util: Binary64,
}

impl Controller {
    /// Each VM is tracked once, under its own identifier.
    pub open spec fn wf(&self) -> bool {
        &&& self.instances.wf()
        &&& self.vm_ownership.wf()
        &&& keyed_by_id(self.instances)
    }

    /// Whether nothing but the inventory differs from `before`.
    pub open spec fn same_but_instances(&self, before: Self) -> bool {
        &&& self.cfg == before.cfg
        &&& self.vm_ownership == before.vm_ownership
        &&& self.tick_index == before.tick_index
        &&& self.last_host_cpu == before.last_host_cpu
        &&& self.host_cpu_util == before.host_cpu_util
    }

    /// Whether nothing but the VM `id` differs from `before`.
    pub open spec fn only_changed(&self, before: Self, id: Seq<char>, instance: Instance) -> bool {
        &&& self.same_but_instances(before)
        &&& self.instances.ids() == before.instances.ids()
        &&& forall|other: Seq<char>|
            #![trigger self.instances.lookup(other)]
            self.instances.lookup(other) == if other == id {
                Some(instance)
            } else {
                before.instances.lookup(other)
            }
    }

    /// Construct an empty controller from the ownership that was loaded.
    pub fn new(cfg: Config, loaded: Result<VmOwnership, StateError>) -> (r: Result<
        Self,
        ControllerError,
    >)
        requires
            loaded is Ok ==> loaded->Ok_0.wf(),
        ensures
            match loaded {
                Ok(ownership) => {
                    &&& r is Ok
                    &&& r->Ok_0.wf()
                    &&& r->Ok_0.cfg == cfg
                    &&& r->Ok_0.vm_ownership == ownership
                    &&& r->Ok_0.instances.ids().len() == 0
                    &&& r->Ok_0.tick_index == 0
                    &&& r->Ok_0.last_host_cpu is None
                    &&& r->Ok_0.host_cpu_util == Binary64::zero_spec()
                },
                Err(e) => r is Err && r->Err_0@ == ControllerErrorView::State(e@),
            },
    {
        match loaded {
            Ok(vm_ownership) => Ok(
                Controller {
                    cfg,
                    vm_ownership,
                    instances: Registry::new(),
                    tick_index: 0,
                    last_host_cpu: None,
                    host_cpu_util: Binary64::zero(),
                },
            ),
            Err(error) => Err(ControllerError::State(error)),
        }
    }
}

impl Controller {
    /// The tracked VMs in the order of their status lines.
    pub fn status_order(&self) -> (r: Vec<String>)
        requires
            self.wf(),
        ensures
            in_order(texts(r@)),
            r@.len() == self.instances.ids().len(),
            forall|id: Seq<char>| #[trigger]
                texts(r@).contains(id) <==> self.instances.has(id),
    {
        let mut ids: Vec<String> = Vec::new();
        let mut i: usize = 0;
        while i < self.instances.len()
            invariant
                self.wf(),
                i <= self.instances.ids().len(),
                texts(ids@) == self.instances.ids().take(i as int),
            decreases self.instances.ids().len() - i,
        {
            let ghost before = ids@;
            let id = self.instances.id_at(i).clone();
            ids.push(id);
            assert(texts(ids@) =~= texts(before).push(id@));
            i += 1;
        }
        assert(texts(ids@) =~= self.instances.ids());
        let sorted = sort_texts(ids);
        proof {
            sorted@.to_multiset_ensures();
            ids@.to_multiset_ensures();
            assert forall|id: Seq<char>| #[trigger]
                texts(sorted@).contains(id) <==> self.instances.has(id) by {
                if texts(sorted@).contains(id) {
                    let at = texts(sorted@).index_of(id);
                    assert(sorted@.contains(sorted@[at]));
                    assert(sorted@.to_multiset().count(sorted@[at]) > 0);
                    assert(ids@.to_multiset().count(sorted@[at]) > 0);
                    let k = ids@.index_of(sorted@[at]);
                    assert(texts(ids@)[k] == id);
                }
                if self.instances.has(id) {
                    let at = texts(ids@).index_of(id);
                    assert(ids@.contains(ids@[at]));
                    assert(ids@.to_multiset().count(ids@[at]) > 0);
                    assert(sorted@.to_multiset().count(ids@[at]) > 0);
                    let k = sorted@.index_of(ids@[at]);
                    assert(texts(sorted@)[k] == id);
                }
            }
        }
        sorted
    }
}

/// Whether every VM is kept under its own identifier.
pub open spec fn keyed_by_id(instances: Registry<Instance>) -> bool {
    forall|i: int|
        0 <= i < instances.ids().len() ==> (#[trigger] instances.vals()[i]).id@ == instances.ids()[i]
}

pub(crate) proof fn lemma_ids_kept(before: Registry<Instance>, after: Registry<Instance>, id: Seq<char>)
    requires
        before.wf(),
        keyed_by_id(before),
        before.has(id),
        after.ids() == before.ids(),
        after.vals().len() == before.vals().len(),
        after.vals()[before.ids().index_of(id)].id@ == id,
        forall|i: int|
            0 <= i < before.vals().len() && i != before.ids().index_of(id)
                ==> #[trigger] after.vals()[i] == before.vals()[i],
    ensures
        keyed_by_id(after),
{
    let at = before.ids().index_of(id);
    assert(before.ids()[at] == id);
    assert forall|i: int| 0 <= i < after.ids().len() implies (#[trigger] after.vals()[i]).id@
        == after.ids()[i] by {
        if i != at {
            assert(before.vals()[i].id@ == before.ids()[i]);
        }
    }
}

pub(crate) proof fn lemma_ids_after_remove(before: Registry<Instance>, after: Registry<Instance>, id: Seq<char>)
    requires
        before.wf(),
        keyed_by_id(before),
        before.has(id),
        after.ids() == before.ids().remove(before.ids().index_of(id)),
        after.vals() == before.vals().remove(before.ids().index_of(id)),
    ensures
        keyed_by_id(after),
{
    let at = before.ids().index_of(id);
    assert forall|i: int| 0 <= i < after.ids().len() implies (#[trigger] after.vals()[i]).id@
        == after.ids()[i] by {
        let b = if i < at { i } else { i + 1 };
        assert(before.vals()[b].id@ == before.ids()[b]);
    }
}

/// What concerns one VM changes no other, and nothing else that the controller holds.
pub proof fn law_vms_are_independent(
    before: Controller,
    after: Controller,
    id: Seq<char>,
    instance: Instance,
    other: Seq<char>,
)
    requires
        after.only_changed(before, id, instance),
        other != id,
    ensures
        after.instances.lookup(id) == Some(instance),
        after.instances.lookup(other) == before.instances.lookup(other),
        after.instances.ids() == before.instances.ids(),
        after.cfg == before.cfg,
        after.vm_ownership == before.vm_ownership,
        after.tick_index == before.tick_index,
        after.last_host_cpu == before.last_host_cpu,
        after.host_cpu_util == before.host_cpu_util,
{
    assert(after.instances.lookup(other) == before.instances.lookup(other));
    assert(after.instances.lookup(id) == Some(instance));
}

/// Each tracked VM is found under its own identifier.
pub proof fn law_vms_are_found_under_their_ids(controller: Controller, id: Seq<char>)
    requires
        controller.wf(),
        controller.instances.ids().contains(id),
    ensures
        controller.instances.lookup(id) is Some,
        controller.instances.lookup(id)->0.id@ == id,
        controller.instances.ids().no_duplicates(),
{
    let at = controller.instances.ids().index_of(id);
    assert(controller.instances.vals()[at].id@ == controller.instances.ids()[at]);
}

} // verus!
