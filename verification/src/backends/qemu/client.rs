//! Per-VM state of the QEMU backend.
//!
//! The client caches the topology of one VM (IOThread ids and tasks, virtio-scsi
//! device path, virtqueue count) and the previous CPU sample. Sending QMP
//! commands and reading process information are the caller's: the client says
//! what is to be done next and takes in the answer.

use vstd::prelude::*;
use vstd::string::StringExecFns;

use crate::backends::qemu::helpers::{
    iot_id, law_each_queue_once, law_shares_hold_queues, lowest_free, metric_lines, next_qemu_iothread_id, round_robin_vq_mapping, share,
    CpuSample, QemuError, QemuErrorView, QemuTopology, TopologyView,
};
use crate::backends::{BackendClientError, ClientErrorView, IoErrorKind, VqMapping};
use crate::binary64::Binary64;
use crate::collate::{in_order, sort_texts};
use crate::instance::{InstancePerfSample, ThreadPoolSnapshot};
use crate::numerals::{decimal, decimal_text, signed_decimal, signed_text};
use crate::ordered::OrderedMap;
use crate::text::{same_text, texts};

verus! {

/// Client of a QEMU-managed VM.
#[derive(Debug)]
pub struct QemuInstanceClient {
    /// libvirt VM UUID.
    pub uuid: u128,
    /// Maximum vCPU count reported by libvirt; `None` where it could not be read.
    pub vcpu_count: Option<u32>,
    /// Host process ID, or zero until discovered.
    pub pid: i32,
    /// Managed IOThread object identifiers.
    pub iothreads: Vec<String>,
    /// Mapping from IOThread identifier to host task ID.
    pub iothread_tids: OrderedMap<i32>,
    /// QOM path of the managed virtio-scsi device.
    pub device_path: String,
    /// Number of command virtqueues exposed by the device.
    pub vq_count: u16,
    /// Previous per-task CPU sample used to calculate utilisation.
    pub last_sample: Option<CpuSample>,
    /// Whether a warning that metrics are unsupported was given.
    pub warned_unsupported_metrics: bool,
}

/// Where a change of the worker count stands.
#[derive(Debug)]
pub enum ScalePhase {
    /// Nothing has been asked yet.
    Ready,
    /// An IOThread is being added.
    Adding {
        /// Its identifier.
        id: String,
    },
    /// The virtqueues are being spread over a larger set.
    Spreading {
        /// Identifier of the new IOThread.
        id: String,
        /// The larger set.
        set: Vec<String>,
    },
    /// The new IOThread is being deleted again.
    RollingBack {
        /// Why.
        error: QemuError,
    },
    /// The virtqueues are being moved away from the last IOThread.
    Gathering,
    /// The last IOThread is being deleted.
    Deleting,
}

/// What is to be done next for a change of the worker count.
#[derive(Debug)]
pub enum ScaleStep {
    /// Add an IOThread.
    AddIoThread {
        /// Its identifier.
        id: String,
    },
    /// Set the virtqueue mapping of the device.
    SetVqMapping {
        /// QOM path of the device.
        device_path: String,
        /// The mapping.
        mapping: Vec<VqMapping>,
    },
    /// Delete an IOThread.
    DelIoThread {
        /// Its identifier.
        id: String,
    },
    /// Nothing: the change has ended.
    Finish(Result<(), QemuError>),
}

/// Whether a mapping spreads `count` virtqueues over the IOThreads in round-robin
/// order.
pub open spec fn spreads(mapping: Seq<VqMapping>, ids: Seq<String>, count: u16) -> bool {
    &&& mapping.len() == if count == 0 {
        0
    } else {
        ids.len()
    }
    &&& forall|i: int|
        0 <= i < mapping.len() ==> (#[trigger] mapping[i])@ == (
            ids[i]@,
            share(i, ids.len() as int, count as int),
        )
}

/// The refusal to delete the last IOThread.
pub open spec fn refusal(have: nat) -> QemuErrorView {
    QemuErrorView::Parse("refusing to scale below one iothread (have "@ + decimal(have) + ")"@)
}

/// Whether a step and a phase are what comes first on the way from the IOThreads
/// of a client to a number of them.
pub open spec fn sets_out(
    client: QemuInstanceClient,
    target: u32,
    step: ScaleStep,
    phase: ScalePhase,
) -> bool {
    let ids = client.iothreads@;
    if ids.len() < target {
        &&& step matches ScaleStep::AddIoThread { id }
        &&& phase matches ScalePhase::Adding { id: adding }
        &&& adding@ == id@
        &&& exists|n: nat| #[trigger] lowest_free(texts(ids), n) && id@ == iot_id(n)
    } else if ids.len() == target {
        step == ScaleStep::Finish(Ok(())) && phase is Ready
    } else if ids.len() <= 1 {
        &&& step matches ScaleStep::Finish(Err(error))
        &&& error@ == refusal(ids.len())
        &&& phase is Ready
    } else {
        &&& step matches ScaleStep::SetVqMapping { device_path, mapping }
        &&& device_path@ == client.device_path@
        &&& spreads(mapping@, ids.drop_last(), client.vq_count)
        &&& phase is Gathering
    }
}

/// Whether two clients differ in nothing but their IOThreads.
pub open spec fn same_but_iothreads(a: QemuInstanceClient, b: QemuInstanceClient) -> bool {
    &&& a.uuid == b.uuid
    &&& a.vcpu_count == b.vcpu_count
    &&& a.pid == b.pid
    &&& a.iothread_tids == b.iothread_tids
    &&& a.device_path == b.device_path
    &&& a.vq_count == b.vq_count
    &&& a.last_sample == b.last_sample
    &&& a.warned_unsupported_metrics == b.warned_unsupported_metrics
}

/// Whether a client, a step and a phase are what comes of the answer to a step of a change of the
/// worker count.
pub open spec fn resumes(
    before: QemuInstanceClient,
    after: QemuInstanceClient,
    target: u32,
    phase: ScalePhase,
    answer: Result<(), QemuError>,
    step: ScaleStep,
    next: ScalePhase,
) -> bool {
    &&& same_but_iothreads(after, before)
    &&& match (phase, answer) {
        (ScalePhase::Ready, _) => after == before && sets_out(before, target, step, next),
        (ScalePhase::Adding { id }, Ok(_)) => {
            &&& after == before
            &&& step matches ScaleStep::SetVqMapping { device_path, mapping }
            &&& next matches ScalePhase::Spreading { id: adding, set }
            &&& adding == id
            &&& in_order(texts(set@))
            &&& set@.to_multiset() == before.iothreads@.push(id).to_multiset()
            &&& set@.len() == before.iothreads@.len() + 1
            &&& device_path@ == before.device_path@
            &&& spreads(mapping@, set@, before.vq_count)
        },
        (ScalePhase::Spreading { id, set }, Ok(_)) => after.iothreads == set && sets_out(
            after,
            target,
            step,
            next,
        ),
        (ScalePhase::Spreading { id, set }, Err(e)) => after == before && step
            == (ScaleStep::DelIoThread { id }) && next == (ScalePhase::RollingBack { error: e }),
        (ScalePhase::RollingBack { error }, _) => after == before && step == ScaleStep::Finish(
            Err(error),
        ) && next is Ready,
        (ScalePhase::Gathering, Ok(_)) => {
            &&& after == before
            &&& step matches ScaleStep::DelIoThread { id }
            &&& id == before.iothreads@.last()
            &&& next is Deleting
        },
        (ScalePhase::Deleting, Ok(_)) => after.iothreads@ == before.iothreads@.drop_last()
            && sets_out(after, target, step, next),
        (_, Err(e)) => after == before && step == ScaleStep::Finish(Err(e)) && next is Ready,
    }
}

fn copied(ids: &Vec<String>, count: usize) -> (r: Vec<String>)
    requires
        count <= ids@.len(),
    ensures
        r@ == ids@.take(count as int),
{
    let mut out: Vec<String> = Vec::new();
    let mut i: usize = 0;
    while i < count
        invariant
            i <= count <= ids@.len(),
            out@ == ids@.take(i as int),
        decreases count - i,
    {
        out.push(ids[i].clone());
        i += 1;
    }
    out
}

impl QemuInstanceClient {
    /// Whether the client is the empty one of a VM.
    pub open spec fn empty_for(&self, uuid: u128, vcpu_count: Option<u32>) -> bool {
        &&& self.uuid == uuid
        &&& self.vcpu_count == vcpu_count
        &&& self.pid == 0
        &&& self.iothreads@.len() == 0
        &&& self.iothread_tids.wf()
        &&& self.iothread_tids.ids().len() == 0
        &&& self.device_path@.len() == 0
        &&& self.vq_count == 0
        &&& self.last_sample is None
        &&& !self.warned_unsupported_metrics
    }

    /// Construct an empty per-VM client.
    pub fn new(uuid: u128, vcpu_count: Option<u32>) -> (r: Self)
        ensures
            r.empty_for(uuid, vcpu_count),
    {
        QemuInstanceClient {
            uuid,
            vcpu_count,
            pid: 0,
            iothreads: Vec::new(),
            iothread_tids: OrderedMap::new(),
            device_path: String::new(),
            vq_count: 0,
            last_sample: None,
            warned_unsupported_metrics: false,
        }
    }

    /// The sizes that a client handles: a worker count is a 32-bit number.
    pub open spec fn sized(&self) -> bool {
        self.iothreads@.len() < u32::MAX
    }

    /// Set out for a number of IOThreads: one more, one less, or done.
    pub fn set_thread_count(&self, target: u32) -> (r: (ScaleStep, ScalePhase))
        requires
            self.sized(),
        ensures
            sets_out(*self, target, r.0, r.1),
    {
        let have: u32 = self.iothreads.len() as u32;
        if have < target {
            let id = next_qemu_iothread_id(self.iothreads.as_slice());
            return (ScaleStep::AddIoThread { id: id.clone() }, ScalePhase::Adding { id });
        }
        if have == target {
            return (ScaleStep::Finish(Ok(())), ScalePhase::Ready);
        }
        if have <= 1 {
            let text = "refusing to scale below one iothread (have ".to_owned().concat(
                decimal_text(have as u64).as_str(),
            ).concat(")");
            return (ScaleStep::Finish(Err(QemuError::Parse(text))), ScalePhase::Ready);
        }
        let remaining = copied(&self.iothreads, self.iothreads.len() - 1);
        assert(remaining@ =~= self.iothreads@.drop_last());
        let mapping = round_robin_vq_mapping(remaining.as_slice(), self.vq_count);
        (
            ScaleStep::SetVqMapping { device_path: self.device_path.clone(), mapping },
            ScalePhase::Gathering,
        )
    }

    /// Take in the answer to the step that a change of the worker count is at, and
    /// go on: a new IOThread counts once the virtqueues are spread over it, and is
    /// deleted again where that fails; an IOThread is deleted once no virtqueue is
    /// left to it. The first failure ends the change.
    pub fn resume_thread_count(
        &mut self,
        target: u32,
        phase: ScalePhase,
        answer: Result<(), QemuError>,
    ) -> (r: (ScaleStep, ScalePhase))
        requires
            old(self).sized(),
            phase is Spreading ==> phase->Spreading_set@.len() < u32::MAX,
            phase is Gathering || phase is Deleting ==> old(self).iothreads@.len() > 0,
        ensures
            resumes(*old(self), *final(self), target, phase, answer, r.0, r.1),
            same_but_iothreads(*final(self), *old(self)),
            final(self).sized(),
            match (phase, answer) {
                (ScalePhase::Ready, _) => *final(self) == *old(self) && sets_out(
                    *old(self),
                    target,
                    r.0,
                    r.1,
                ),
                (ScalePhase::Adding { id }, Ok(_)) => {
                    &&& *final(self) == *old(self)
                    &&& r.0 matches ScaleStep::SetVqMapping { device_path, mapping }
                    &&& r.1 matches ScalePhase::Spreading { id: adding, set }
                    &&& adding == id
                    &&& in_order(texts(set@))
                    &&& set@.to_multiset() == old(self).iothreads@.push(id).to_multiset()
                    &&& set@.len() == old(self).iothreads@.len() + 1
                    &&& device_path@ == old(self).device_path@
                    &&& spreads(mapping@, set@, old(self).vq_count)
                },
                (ScalePhase::Spreading { id, set }, Ok(_)) => {
                    &&& final(self).iothreads == set
                    &&& sets_out(*final(self), target, r.0, r.1)
                },
                (ScalePhase::Spreading { id, set }, Err(e)) => {
                    &&& *final(self) == *old(self)
                    &&& r.0 == ScaleStep::DelIoThread { id }
                    &&& r.1 == ScalePhase::RollingBack { error: e }
                },
                (ScalePhase::RollingBack { error }, _) => {
                    &&& *final(self) == *old(self)
                    &&& r.0 == ScaleStep::Finish(Err(error))
                    &&& r.1 is Ready
                },
                (ScalePhase::Gathering, Ok(_)) => {
                    &&& *final(self) == *old(self)
                    &&& r.0 matches ScaleStep::DelIoThread { id }
                    &&& id == old(self).iothreads@.last()
                    &&& r.1 is Deleting
                },
                (ScalePhase::Deleting, Ok(_)) => {
                    &&& final(self).iothreads@ == old(self).iothreads@.drop_last()
                    &&& sets_out(*final(self), target, r.0, r.1)
                },
                (_, Err(e)) => {
                    &&& *final(self) == *old(self)
                    &&& r.0 == ScaleStep::Finish(Err(e))
                    &&& r.1 is Ready
                },
            },
    {
        match phase {
            ScalePhase::Ready => self.set_thread_count(target),
            ScalePhase::Adding { id } => match answer {
                Ok(_) => {
                    let mut set = copied(&self.iothreads, self.iothreads.len());
                    assert(set@ =~= self.iothreads@);
                    set.push(id.clone());
                    let sorted = sort_texts(set);
                    let mapping = round_robin_vq_mapping(sorted.as_slice(), self.vq_count);
                    (
                        ScaleStep::SetVqMapping { device_path: self.device_path.clone(), mapping },
                        ScalePhase::Spreading { id, set: sorted },
                    )
                },
                Err(e) => (ScaleStep::Finish(Err(e)), ScalePhase::Ready),
            },
            ScalePhase::Spreading { id, set } => match answer {
                Ok(_) => {
                    self.iothreads = set;
                    self.set_thread_count(target)
                },
                Err(e) => (ScaleStep::DelIoThread { id }, ScalePhase::RollingBack { error: e }),
            },
            ScalePhase::RollingBack { error } => (ScaleStep::Finish(Err(error)), ScalePhase::Ready),
            ScalePhase::Gathering => match answer {
                Ok(_) => {
                    let doomed = self.iothreads[self.iothreads.len() - 1].clone();
                    (ScaleStep::DelIoThread { id: doomed }, ScalePhase::Deleting)
                },
                Err(e) => (ScaleStep::Finish(Err(e)), ScalePhase::Ready),
            },
            ScalePhase::Deleting => match answer {
                Ok(_) => {
                    self.iothreads.pop();
                    self.set_thread_count(target)
                },
                Err(e) => (ScaleStep::Finish(Err(e)), ScalePhase::Ready),
            },
        }
    }
}

// ---------------------------------------------------------------------
// Snapshots
// ---------------------------------------------------------------------

/// What to do with the answer to a metrics query.
#[derive(Debug)]
pub enum MetricsVerdict {
    /// The VM has no metrics: report what is cached.
    Fallback {
        /// Whether to warn of it, once per VM.
        warn: bool,
    },
    /// The refresh has failed.
    Failed(BackendClientError),
    /// The topology is usable: find the process of its first task.
    Usable {
        /// The topology.
        topology: QemuTopology,
        /// Host task ID of the first IOThread.
        first_tid: i32,
    },
}

/// Whether a failure means that the VM has no metrics query.
pub open spec fn metrics_unsupported(error: QemuErrorView) -> bool {
    &&& error is QmpError
    &&& error->QmpError_cmd == "x-query-prometheus-metrics"@
    &&& error->QmpError_class == "CommandNotFound"@
}

/// The complaint about a topology that cannot be used, if there is one.
pub open spec fn topology_fault(topology: QemuTopology) -> Option<Seq<char>> {
    let ids = topology.iothread_tids.ids();
    if ids.len() == 0 || topology.device_path@.len() == 0 {
        Some(
            "qemu topology incomplete: iothreads="@ + decimal(ids.len()) + " device="@
                + topology.device_path@,
        )
    } else if topology.iothread_tids.vals()[0] == 0 {
        Some("qemu topology reported no iothread TIDs"@)
    } else {
        None
    }
}

/// Whether two clients differ in nothing but the warning.
pub open spec fn same_but_warning(a: QemuInstanceClient, b: QemuInstanceClient) -> bool {
    same_but_iothreads(a, QemuInstanceClient {
        warned_unsupported_metrics: a.warned_unsupported_metrics,
        ..b
    }) && a.iothreads == b.iothreads
}

/// Whether a snapshot reports the pool of a client.
pub open spec fn reports_pool(
    client: QemuInstanceClient,
    per_thread_util: Option<Binary64>,
    perf: Result<Option<InstancePerfSample>, QemuError>,
    snapshot: ThreadPoolSnapshot,
) -> bool {
    &&& snapshot.thread_count == client.iothreads@.len()
    &&& snapshot.vcpu_count == client.vcpu_count
    &&& snapshot.per_thread_util == per_thread_util
    &&& snapshot.perf == QemuInstanceClient::best_effort(perf)
}

impl QemuInstanceClient {
    /// Decide on the answer to a metrics query.
    pub fn on_metrics(&mut self, answer: Result<String, QemuError>) -> (r: MetricsVerdict)
        requires
            old(self).iothread_tids.wf(),
        ensures
            same_but_warning(*final(self), *old(self)),
            match answer {
                Ok(body) => {
                    &&& final(self).warned_unsupported_metrics
                        == old(self).warned_unsupported_metrics
                    &&& exists|topology: QemuTopology|
                        {
                            &&& topology.wf()
                            &&& #[trigger] topology@ == TopologyView::after_all(
                                metric_lines(body@),
                            )
                            &&& match topology_fault(topology) {
                                Some(text) => {
                                    &&& r matches MetricsVerdict::Failed(error)
                                    &&& error@ == ClientErrorView::InvalidState(text)
                                },
                                None => r == (MetricsVerdict::Usable {
                                    topology,
                                    first_tid: topology.iothread_tids.vals()[0],
                                }),
                            }
                        }
                },
                Err(e) => if metrics_unsupported(e@) {
                    &&& r == (MetricsVerdict::Fallback {
                        warn: !old(self).warned_unsupported_metrics,
                    })
                    &&& final(self).warned_unsupported_metrics
                } else {
                    &&& r matches MetricsVerdict::Failed(error)
                    &&& error@ == e@.as_client_error()
                    &&& final(self).warned_unsupported_metrics
                        == old(self).warned_unsupported_metrics
                },
            },
    {
        match answer {
            Ok(body) => QemuInstanceClient::judge_topology(QemuTopology::new(body.as_str())),
            Err(e) => {
                let unsupported: bool = match &e {
                    QemuError::QmpError { cmd, class, desc } => same_text(
                        cmd.as_str(),
                        "x-query-prometheus-metrics",
                    ) && same_text(class.as_str(), "CommandNotFound"),
                    _ => false,
                };
                if unsupported {
                    let warn: bool = !self.warned_unsupported_metrics;
                    self.warned_unsupported_metrics = true;
                    MetricsVerdict::Fallback { warn }
                } else {
                    MetricsVerdict::Failed(e.into_client_error())
                }
            },
        }
    }

    /// Decide on a topology: it must name an IOThread with a task, and a device.
    pub fn judge_topology(topology: QemuTopology) -> (r: MetricsVerdict)
        requires
            topology.wf(),
        ensures
            match topology_fault(topology) {
                Some(text) => {
                    &&& r matches MetricsVerdict::Failed(error)
                    &&& error@ == ClientErrorView::InvalidState(text)
                },
                None => r == (MetricsVerdict::Usable {
                    topology,
                    first_tid: topology.iothread_tids.vals()[0],
                }),
            },
    {
        assert(texts(topology.iothreads@).len() == topology.iothreads@.len());
        if topology.iothreads.len() == 0 || topology.device_path.as_str().is_empty() {
            let text = "qemu topology incomplete: iothreads=".to_owned().concat(
                decimal_text(topology.iothreads.len() as u64).as_str(),
            ).concat(" device=").concat(topology.device_path.as_str());
            return MetricsVerdict::Failed(BackendClientError::InvalidState(text));
        }
        let first_tid: i32 = *topology.iothread_tids.value_at(0);
        if first_tid == 0 {
            return MetricsVerdict::Failed(
                BackendClientError::InvalidState(
                    "qemu topology reported no iothread TIDs".to_owned(),
                ),
            );
        }
        MetricsVerdict::Usable { topology, first_tid }
    }

    /// Check the process that was found for a task; the error is the rendered
    /// failure to read the task's status.
    pub fn check_pid(first_tid: i32, found: Result<i32, String>) -> (r: Result<
        i32,
        BackendClientError,
    >)
        ensures
            match found {
                Ok(pid) => if pid > 0 {
                    r == Ok::<i32, BackendClientError>(pid)
                } else {
                    r is Err && r->Err_0@ == ClientErrorView::InvalidState(
                        "invalid pid "@ + signed_decimal(pid as int) + " from tid "@
                            + signed_decimal(first_tid as int),
                    )
                },
                Err(e) => r is Err && r->Err_0@ == ClientErrorView::InvalidState(
                    "pid resolution: "@ + e@,
                ),
            },
    {
        match found {
            Ok(pid) => if pid > 0 {
                Ok(pid)
            } else {
                Err(
                    BackendClientError::InvalidState(
                        "invalid pid ".to_owned().concat(signed_text(pid).as_str()).concat(
                            " from tid ",
                        ).concat(signed_text(first_tid).as_str()),
                    ),
                )
            },
            Err(e) => Err(
                BackendClientError::InvalidState("pid resolution: ".to_owned().concat(e.as_str())),
            ),
        }
    }

    /// Take in a topology with its process and a CPU sample of its tasks, and
    /// report their average utilisation since the previous sample, if there is one.
    pub fn on_sample(
        &mut self,
        topology: QemuTopology,
        pid: i32,
        sample: CpuSample,
        hz: u64,
    ) -> (r: Result<Option<Binary64>, BackendClientError>)
        requires
            hz > 0,
        ensures
            sample.jiffies@.dom().len() == 0 ==> {
                &&& r is Err
                &&& r->Err_0@ == ClientErrorView::InvalidState("qemu per-thread sample empty"@)
                &&& *final(self) == *old(self)
            },
            sample.jiffies@.dom().len() > 0 ==> {
                &&& r is Ok
                &&& *final(self) == (QemuInstanceClient {
                    pid,
                    iothreads: topology.iothreads,
                    iothread_tids: topology.iothread_tids,
                    device_path: topology.device_path,
                    vq_count: topology.vq_count,
                    last_sample: Some(sample),
                    ..*old(self)
                })
                &&& match old(self).last_sample {
                    None => r->Ok_0 is None,
                    Some(prev) => r->Ok_0 is Some && CpuSample::is_average(
                        (r->Ok_0)->0,
                        prev,
                        sample,
                        hz,
                    ),
                }
            },
    {
        if sample.jiffies.len() == 0 {
            return Err(BackendClientError::InvalidState("qemu per-thread sample empty".to_owned()));
        }
        let per_thread_util = match &self.last_sample {
            Some(prev) => Some(CpuSample::diff_jiffies_sample(prev, &sample, hz)),
            None => None,
        };
        self.pid = pid;
        self.iothreads = topology.iothreads;
        self.iothread_tids = topology.iothread_tids;
        self.device_path = topology.device_path;
        self.vq_count = topology.vq_count;
        self.last_sample = Some(sample);
        Ok(per_thread_util)
    }

    /// The performance counters of a best-effort query.
    pub open spec fn best_effort(
        perf: Result<Option<InstancePerfSample>, QemuError>,
    ) -> Option<InstancePerfSample> {
        match perf {
            Ok(p) => p,
            Err(_) => None,
        }
    }

    fn perf_or_none(perf: Result<Option<InstancePerfSample>, QemuError>) -> (r: Option<
        InstancePerfSample,
    >)
        ensures
            r == QemuInstanceClient::best_effort(perf),
    {
        match perf {
            Ok(p) => p,
            Err(_) => None,
        }
    }

    /// Build the snapshot of a freshly sampled VM; a failed query for counters
    /// leaves them out.
    pub fn sampled_snapshot(
        &self,
        per_thread_util: Option<Binary64>,
        perf: Result<Option<InstancePerfSample>, QemuError>,
    ) -> (r: ThreadPoolSnapshot)
        requires
            self.sized(),
        ensures
            reports_pool(*self, per_thread_util, perf, r),
            r == (ThreadPoolSnapshot {
                thread_count: self.iothreads@.len() as u32,
                vcpu_count: self.vcpu_count,
                perf: QemuInstanceClient::best_effort(perf),
                per_thread_util,
            }),
    {
        ThreadPoolSnapshot {
            thread_count: self.iothreads.len() as u32,
            vcpu_count: self.vcpu_count,
            perf: QemuInstanceClient::perf_or_none(perf),
            per_thread_util,
        }
    }

    /// Build a best-effort snapshot from cached topology when the VM has no
    /// metrics: at least one worker, and no utilisation.
    pub fn snapshot_from_cached_topology(
        &self,
        perf: Result<Option<InstancePerfSample>, QemuError>,
    ) -> (r: ThreadPoolSnapshot)
        requires
            self.sized(),
        ensures
            self.iothreads@.len() > 0 ==> reports_pool(*self, None, perf, r),
            r == (ThreadPoolSnapshot {
                thread_count: if self.iothreads@.len() == 0 {
                    1
                } else {
                    self.iothreads@.len() as u32
                },
                vcpu_count: self.vcpu_count,
                perf: QemuInstanceClient::best_effort(perf),
                per_thread_util: None,
            }),
    {
        let have: u32 = self.iothreads.len() as u32;
        ThreadPoolSnapshot {
            thread_count: if have == 0 {
                1
            } else {
                have
            },
            vcpu_count: self.vcpu_count,
            perf: QemuInstanceClient::perf_or_none(perf),
            per_thread_util: None,
        }
    }
}

// ---------------------------------------------------------------------
// Laws
// ---------------------------------------------------------------------

/// A change of the worker count goes toward its target one IOThread at a time,
/// ends well only at the target, never asks for the last IOThread to go, and is
/// not refused where the target is at least one.
pub proof fn law_scale_goes_to_target(
    client: QemuInstanceClient,
    target: u32,
    step: ScaleStep,
    phase: ScalePhase,
)
    requires
        sets_out(client, target, step, phase),
    ensures
        step is AddIoThread ==> client.iothreads@.len() + 1 <= target,
        step is SetVqMapping ==> client.iothreads@.len() - 1 >= target && client.iothreads@.len()
            - 1 >= 1,
        step == ScaleStep::Finish(Ok(())) ==> client.iothreads@.len() == target,
        target >= 1 && client.iothreads@.len() >= 1 && step is Finish ==> step
            == ScaleStep::Finish(Ok(())),
{
}

/// Adding an IOThread keeps the identifiers distinct.
pub proof fn law_growth_keeps_ids_distinct(
    client: QemuInstanceClient,
    target: u32,
    step: ScaleStep,
    phase: ScalePhase,
    set: Seq<String>,
)
    requires
        texts(client.iothreads@).no_duplicates(),
        sets_out(client, target, step, phase),
        phase is Adding,
        set.to_multiset() == client.iothreads@.push(phase->Adding_id).to_multiset(),
    ensures
        texts(set).no_duplicates(),
{
    let pushed = client.iothreads@.push(phase->Adding_id);
    let old_ids = texts(client.iothreads@);
    let n = client.iothreads@.len() as int;
    assert forall|i: int, j: int| 0 <= i < pushed.len() && 0 <= j < pushed.len() && i
        != j implies pushed[i]@ != pushed[j]@ by {
        assert(i < n ==> old_ids[i] == pushed[i]@);
        assert(j < n ==> old_ids[j] == pushed[j]@);
        if i == n {
            assert(old_ids.contains(old_ids[j]));
        } else if j == n {
            assert(old_ids.contains(old_ids[i]));
        }
    }
    assert(pushed.no_duplicates());
    pushed.lemma_multiset_has_no_duplicates();
    set.to_multiset_ensures();
    pushed.to_multiset_ensures();
    assert forall|x: String| #[trigger] set.to_multiset().contains(x) implies set.to_multiset().count(
        x,
    ) == 1 by {
        assert(pushed.to_multiset().contains(x));
    }
    set.lemma_multiset_has_no_duplicates_conv();
    assert forall|i: int, j: int| 0 <= i < set.len() && 0 <= j < set.len() && i
        != j implies texts(set)[i] != texts(set)[j] by {
        assert(set.to_multiset().count(set[i]) > 0) by {
            assert(set.contains(set[i]));
        }
        assert(set.to_multiset().count(set[j]) > 0) by {
            assert(set.contains(set[j]));
        }
        assert(pushed.to_multiset().count(set[i]) > 0);
        assert(pushed.to_multiset().count(set[j]) > 0);
        assert(pushed.contains(set[i]) && pushed.contains(set[j]));
        let p = pushed.index_of(set[i]);
        let q = pushed.index_of(set[j]);
        assert(pushed[p] == set[i] && pushed[q] == set[j]);
        assert(set[i] != set[j]);
        assert(p != q);
    }
}

/// A change of the worker count sets out in the right direction: with too few IOThreads one is
/// added, under the lowest number that no IOThread has; with too many, and more than one, the
/// virtqueues of the device are moved to all but the last; with as many as asked for there is
/// nothing to do; and the last one is not taken away.
pub proof fn law_scale_sets_out_in_the_right_direction(
    client: QemuInstanceClient,
    target: u32,
    step: ScaleStep,
    phase: ScalePhase,
)
    requires
        sets_out(client, target, step, phase),
    ensures
        ({
            let ids = texts(client.iothreads@);
            let have = client.iothreads@.len();
            &&& step is AddIoThread <==> have < target
            &&& step is SetVqMapping <==> have > target && have > 1
            &&& have == target ==> step == ScaleStep::Finish(Ok(()))
            &&& have > target && have <= 1 ==> step is Finish && step->Finish_0 is Err
            &&& step is AddIoThread ==> {
                &&& phase is Adding
                &&& phase->Adding_id@ == step->AddIoThread_id@
                &&& !ids.contains(step->AddIoThread_id@)
                &&& exists|n: nat|
                    {
                        &&& step->AddIoThread_id@ == "iot"@ + #[trigger] decimal(n)
                        &&& forall|m: nat| m < n ==> ids.contains("iot"@ + #[trigger] decimal(m))
                    }
            }
            &&& step is SetVqMapping ==> {
                &&& phase is Gathering
                &&& step->device_path@ == client.device_path@
                &&& is_even_spread(step->mapping@, client.iothreads@.drop_last(), client.vq_count)
            }
        }),
{
    if step is AddIoThread {
        let ids = texts(client.iothreads@);
        let n = choose|n: nat| #[trigger]
            lowest_free(ids, n) && step->AddIoThread_id@ == iot_id(n);
        assert(step->AddIoThread_id@ == "iot"@ + decimal(n));
        assert forall|m: nat| m < n implies ids.contains("iot"@ + #[trigger] decimal(m)) by {
            assert(ids.contains(iot_id(m)));
        }
    }
    if step is SetVqMapping {
        law_spreads_are_even(step->mapping@, client.iothreads@.drop_last(), client.vq_count);
    }
}

/// Whether a mapping gives every virtqueue to exactly one of the IOThreads, the one at its
/// number modulo the number of IOThreads, and names them in their order. Without virtqueues
/// there is no mapping.
pub open spec fn is_even_spread(mapping: Seq<VqMapping>, ids: Seq<String>, count: u16) -> bool {
    &&& count == 0 ==> mapping.len() == 0
    &&& count > 0 ==> mapping.len() == ids.len()
    &&& forall|i: int| 0 <= i < mapping.len() ==> (#[trigger] mapping[i]).iothread@ == ids[i]@
    &&& forall|i: int, vq: u16|
        0 <= i < mapping.len() && vq < count ==> (#[trigger] mapping[i].vqs@.contains(vq) <==> vq
            as int % ids.len() as int == i)
}

/// Spreading virtqueues gives every one of them to exactly one IOThread.
pub proof fn law_spreads_are_even(mapping: Seq<VqMapping>, ids: Seq<String>, count: u16)
    requires
        spreads(mapping, ids, count),
    ensures
        is_even_spread(mapping, ids, count),
        forall|i: int, vq: u16|
            0 <= i < mapping.len() && #[trigger] mapping[i].vqs@.contains(vq) ==> vq < count,
{
    let n = ids.len() as int;
    assert forall|i: int| 0 <= i < mapping.len() implies (#[trigger] mapping[i]).iothread@
        == ids[i]@ by {
        assert(mapping[i]@ == (ids[i]@, share(i, n, count as int)));
    }
    assert forall|i: int, vq: u16|
        0 <= i < mapping.len() && vq < count implies (#[trigger] mapping[i].vqs@.contains(vq) <==> vq
        as int % n == i) by {
        assert(mapping[i]@ == (ids[i]@, share(i, n, count as int)));
        law_each_queue_once(vq as int, n, count as int);
        if vq as int % n == i {
            assert(share(i, n, count as int).contains(vq as int as u16));
        }
    }
    assert forall|i: int, vq: u16|
        0 <= i < mapping.len() && #[trigger] mapping[i].vqs@.contains(vq) implies vq < count by {
        assert(mapping[i]@ == (ids[i]@, share(i, n, count as int)));
        law_shares_hold_queues(i, n, count as int, vq);
    }
}

/// A topology is usable exactly where it names an IOThread, a device, and a task for the first
/// IOThread.
pub proof fn law_usable_topologies(topology: QemuTopology)
    ensures
        topology_fault(topology) is None <==> {
            &&& topology.iothread_tids.ids().len() > 0
            &&& topology.device_path@.len() > 0
            &&& topology.iothread_tids.vals()[0] != 0
        },
{
}

/// A VM has no metrics where QEMU does not know the command for them, and every other failure is
/// a failure.
pub proof fn law_unknown_command_means_no_metrics(
    cmd: Seq<char>,
    class: Seq<char>,
    desc: Seq<char>,
    kind: IoErrorKind,
    text: Seq<char>,
)
    ensures
        metrics_unsupported(QemuErrorView::QmpError { cmd, class, desc }) <==> cmd
            == "x-query-prometheus-metrics"@ && class == "CommandNotFound"@,
        !metrics_unsupported(QemuErrorView::Broken),
        !metrics_unsupported(QemuErrorView::Parse(text)),
        !metrics_unsupported(QemuErrorView::Io { kind, message: text }),
{
}

/// Counters are reported where they could be read, and left out where the query failed.
pub proof fn law_counters_are_best_effort(perf: Option<InstancePerfSample>, error: QemuError)
    ensures
        QemuInstanceClient::best_effort(Ok(perf)) == perf,
        QemuInstanceClient::best_effort(Err(error)) is None,
{
}

/// What a change of the worker count leaves alone: everything but the IOThreads.
pub proof fn law_scaling_changes_iothreads_only(a: QemuInstanceClient, b: QemuInstanceClient)
    requires
        same_but_iothreads(a, b),
    ensures
        (QemuInstanceClient { iothreads: b.iothreads, ..a }) == b,
{
}

/// What the answer to a metrics query leaves alone: everything but the warning.
pub proof fn law_metrics_change_the_warning_only(a: QemuInstanceClient, b: QemuInstanceClient)
    requires
        same_but_warning(a, b),
    ensures
        (QemuInstanceClient { warned_unsupported_metrics: b.warned_unsupported_metrics, ..a }) == b,
{
}

/// A failed step changes no IOThread that the client counts, and ends the change with that very
/// failure: at once, or, where the virtqueues could not be spread over a new IOThread, after that
/// IOThread was deleted again.
pub proof fn law_failed_steps_change_nothing(
    before: QemuInstanceClient,
    after: QemuInstanceClient,
    target: u32,
    phase: ScalePhase,
    error: QemuError,
    step: ScaleStep,
    next: ScalePhase,
)
    requires
        resumes(before, after, target, phase, Err(error), step, next),
        !(phase is Ready),
    ensures
        after == before,
        phase is Spreading ==> step is DelIoThread && step->DelIoThread_id == phase->Spreading_id
            && next is RollingBack && next->error == error,
        phase is RollingBack ==> step == ScaleStep::Finish(Err(phase->error)) && next is Ready,
        !(phase is Spreading) && !(phase is RollingBack) ==> step == ScaleStep::Finish(Err(error))
            && next is Ready,
{
}

/// A new IOThread counts once the virtqueues are spread over it and all the others, and not before:
/// then the client has one more, the new one besides those that it had.
pub proof fn law_new_iothreads_count_once_spread(
    client: QemuInstanceClient,
    middle: QemuInstanceClient,
    after: QemuInstanceClient,
    target: u32,
    phase: ScalePhase,
    spread: ScaleStep,
    spreading: ScalePhase,
    step: ScaleStep,
    next: ScalePhase,
)
    requires
        phase is Adding,
        resumes(client, middle, target, phase, Ok(()), spread, spreading),
        resumes(middle, after, target, spreading, Ok(()), step, next),
    ensures
        middle == client,
        spread is SetVqMapping,
        spread->device_path@ == client.device_path@,
        after.iothreads@.len() == client.iothreads@.len() + 1,
        after.iothreads@.to_multiset() == client.iothreads@.push(phase->Adding_id).to_multiset(),
        is_even_spread(spread->mapping@, after.iothreads@, client.vq_count),
        in_order(texts(after.iothreads@)),
        sets_out(after, target, step, next),
{
    law_spreads_are_even(spread->mapping@, spreading->Spreading_set@, client.vq_count);
}

/// The last IOThread is deleted once no virtqueue is left to it, and then no longer counts; the
/// others stay, in their order.
pub proof fn law_last_iothread_is_deleted_once_free(
    client: QemuInstanceClient,
    middle: QemuInstanceClient,
    after: QemuInstanceClient,
    target: u32,
    delete: ScaleStep,
    deleting: ScalePhase,
    step: ScaleStep,
    next: ScalePhase,
)
    requires
        client.iothreads@.len() > 0,
        resumes(client, middle, target, ScalePhase::Gathering, Ok(()), delete, deleting),
        resumes(middle, after, target, deleting, Ok(()), step, next),
    ensures
        middle == client,
        delete is DelIoThread,
        delete->DelIoThread_id == client.iothreads@[client.iothreads@.len() - 1],
        after.iothreads@ == client.iothreads@.take(client.iothreads@.len() - 1),
        sets_out(after, target, step, next),
{
    assert(client.iothreads@.drop_last() =~= client.iothreads@.take(client.iothreads@.len() - 1));
}

/// A snapshot reports the pool as it is: as many workers as the client has IOThreads, its vCPU count,
/// the utilisation that was measured, and the counters that could be read.
pub proof fn law_snapshots_report_the_pool(
    client: QemuInstanceClient,
    util: Option<Binary64>,
    perf: Option<InstancePerfSample>,
    snapshot: ThreadPoolSnapshot,
)
    requires
        reports_pool(client, util, Ok(perf), snapshot),
    ensures
        snapshot.thread_count == client.iothreads@.len(),
        snapshot.vcpu_count == client.vcpu_count,
        snapshot.per_thread_util == util,
        snapshot.perf == perf,
{
}

} // verus!
