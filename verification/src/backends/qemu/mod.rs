//! Upstream-QEMU backend.
//!
//! Discovery and command dispatch both go through libvirt. Active VMs whose
//! description mentions a virtio-scsi controller are tracked; per-VM state is
//! held in [`client::QemuInstanceClient`].

use vstd::prelude::*;

use crate::backends::qemu::client::QemuInstanceClient;
use crate::backends::qemu::helpers::QemuError;
use crate::backends::qemu::libvirt::{lists, LibvirtConn, VmCandidate};
use crate::config::ConfigError;
use crate::identity::{hyphenated, uuid_text};
use crate::instance::{Instance, InstanceStatus};
use crate::text::same_text;

pub mod client;
pub mod helpers;
pub mod libvirt;

verus! {

/// Name of the backend.
pub const BACKEND_NAME: &'static str = "qemu";

/// QEMU-backend configuration.
///
/// `libvirt_uri` is the connection string dialed on the daemon's libvirt handle:
/// discovery and per-VM QMP passthrough both go through it.
#[derive(Debug, Clone)]
pub struct QemuConfig {
    /// libvirt URI used for discovery and QMP passthrough.
    pub libvirt_uri: String,
}

impl Default for QemuConfig {
    fn default() -> (r: Self)
        ensures
            r.libvirt_uri@ == "qemu:///system"@,
    {
        QemuConfig { libvirt_uri: "qemu:///system".to_owned() }
    }
}

impl QemuConfig {
    /// Take the configuration from the backend's file, or the built-in defaults
    /// when it is absent (`None`).
    pub fn from_dir(loaded: Option<Result<QemuConfig, ConfigError>>) -> (r: Result<
        Self,
        ConfigError,
    >)
        ensures
            match loaded {
                Some(result) => r == result,
                None => r is Ok && r->Ok_0.libvirt_uri@ == "qemu:///system"@,
            },
    {
        match loaded {
            Some(result) => result,
            None => Ok(QemuConfig::default()),
        }
    }
}

/// Backend that discovers and manages QEMU VMs through libvirt.
#[derive(Debug)]
pub struct QemuBackend {
    /// Configuration.
    pub cfg: QemuConfig,
    /// Cached libvirt connection; `None` until the first successful dial.
    pub conn: Option<LibvirtConn>,
}

/// What becomes of one discovered VM.
#[derive(Debug)]
pub enum VmAdmission {
    /// The VM is tracked.
    Track {
        /// Its record.
        instance: Instance,
        /// Its client.
        client: QemuInstanceClient,
    },
    /// The VM is left out: libvirt reported no vCPUs.
    NoVcpus,
}

/// What libvirt reported of one listed VM.
#[derive(Debug)]
pub struct VmReport {
    /// UUID.
    pub uuid: u128,
    /// Host process ID.
    pub pid: Result<i32, QemuError>,
    /// Maximum vCPU count.
    pub vcpus: Result<u32, QemuError>,
}

/// What came of asking libvirt for the VMs.
#[derive(Debug)]
pub enum LibvirtAnswer {
    /// No connection could be opened.
    Unreachable,
    /// The VMs could not be listed.
    NotListed(QemuError),
    /// The listed VMs, in the order of the list.
    Listed(Vec<VmReport>),
}

/// One discovered VM.
#[derive(Debug)]
pub struct TrackedVm {
    /// Its record.
    pub instance: Instance,
    /// Its client.
    pub client: QemuInstanceClient,
}

/// What a discovery pass found.
#[derive(Debug)]
pub struct Discovery {
    /// The VMs to track.
    pub taken: Vec<TrackedVm>,
    /// The VMs that are left out because libvirt reported no vCPUs for them.
    pub skipped: Vec<u128>,
}

impl VmReport {
    /// Whether the VM is tracked: libvirt did not report that it has no vCPUs.
    pub open spec fn admissible(self) -> bool {
        self.vcpus != Ok::<u32, QemuError>(0)
    }

    /// The process ID that was found, or zero.
    pub open spec fn host_pid(self) -> i32 {
        match self.pid {
            Ok(p) => p,
            Err(_) => 0,
        }
    }

    /// The vCPU count, where it is known.
    pub open spec fn vcpu_cap(self) -> Option<u32> {
        match self.vcpus {
            Ok(n) => Some(n),
            Err(_) => None,
        }
    }

    /// Whether a record and a client are those of the VM.
    pub open spec fn taken_in(
        self,
        cfg: QemuConfig,
        instance: Instance,
        client: QemuInstanceClient,
    ) -> bool {
        &&& instance.id@ == hyphenated(self.uuid)
        &&& instance.sock_path@ == cfg.libvirt_uri@
        &&& instance.pid == self.host_pid()
        &&& instance.thread_name_filter.pattern() is None
        &&& instance.status == (InstanceStatus { scaling_allowed: true, ..InstanceStatus::blank() })
        &&& client.empty_for(self.uuid, self.vcpu_cap())
    }
}

/// The listed VMs that are tracked, in the order of the list.
pub open spec fn admitted(reports: Seq<VmReport>) -> Seq<VmReport>
    decreases reports.len(),
{
    if reports.len() == 0 {
        seq![]
    } else if reports.last().admissible() {
        admitted(reports.drop_last()).push(reports.last())
    } else {
        admitted(reports.drop_last())
    }
}

/// The UUIDs of the listed VMs that are left out, in the order of the list.
pub open spec fn left_out(reports: Seq<VmReport>) -> Seq<u128>
    decreases reports.len(),
{
    if reports.len() == 0 {
        seq![]
    } else if reports.last().admissible() {
        left_out(reports.drop_last())
    } else {
        left_out(reports.drop_last()).push(reports.last().uuid)
    }
}

/// The UUIDs of reported VMs.
pub open spec fn uuids(reports: Seq<VmReport>) -> Seq<u128> {
    reports.map_values(|report: VmReport| report.uuid)
}

/// Whether the tracked VMs are those of some reports, one by one.
pub open spec fn tracks(taken: Seq<TrackedVm>, cfg: QemuConfig, vms: Seq<VmReport>) -> bool {
    &&& taken.len() == vms.len()
    &&& forall|i: int|
        0 <= i < vms.len() ==> vms[i].taken_in(
            cfg,
            (#[trigger] taken[i]).instance,
            taken[i].client,
        )
}

/// Whether a discovery pass finds what libvirt's answer holds.
pub open spec fn finds(cfg: QemuConfig, answer: LibvirtAnswer, found: Discovery) -> bool {
    match answer {
        LibvirtAnswer::Listed(reports) => {
            &&& tracks(found.taken@, cfg, admitted(reports@))
            &&& found.skipped@ == left_out(reports@)
        },
        _ => found.taken@.len() == 0 && found.skipped@.len() == 0,
    }
}

impl QemuBackend {
    /// Construct a backend from an explicit configuration.
    pub fn new(cfg: QemuConfig) -> (r: Self)
        ensures
            r.cfg == cfg,
            r.conn is None,
    {
        QemuBackend { cfg, conn: None }
    }

    /// Construct a backend from its file, or from the built-in defaults when it is
    /// absent (`None`).
    pub fn from_config_dir(loaded: Option<Result<QemuConfig, ConfigError>>) -> (r: Result<
        Self,
        ConfigError,
    >)
        ensures
            match loaded {
                Some(Ok(cfg)) => r is Ok && r->Ok_0.cfg == cfg && r->Ok_0.conn is None,
                Some(Err(e)) => r is Err && r->Err_0 == e,
                None => r is Ok && r->Ok_0.cfg.libvirt_uri@ == "qemu:///system"@
                    && r->Ok_0.conn is None,
            },
    {
        match QemuConfig::from_dir(loaded) {
            Ok(cfg) => Ok(QemuBackend::new(cfg)),
            Err(error) => Err(error),
        }
    }

    /// Whether the open connection, if any, goes to a URI.
    pub open spec fn connected_to(&self, uri: Seq<char>) -> bool {
        match self.conn {
            Some(open) => open.uri@ == uri,
            None => false,
        }
    }

    /// Whether the open connection can be used for a URI; if not, one has to be
    /// opened.
    pub fn reuses_connection(&self, uri: &str) -> (r: bool)
        ensures
            r == self.connected_to(uri@),
    {
        match &self.conn {
            Some(open) => same_text(open.uri.as_str(), uri),
            None => false,
        }
    }

    /// Take note of an attempt to open a connection. A failure leaves an earlier
    /// connection in place, to be tried again on the next pass.
    pub fn on_open(&mut self, uri: &str, opened: bool)
        ensures
            final(self).cfg == old(self).cfg,
            opened ==> final(self).connected_to(uri@),
            !opened ==> *final(self) == *old(self),
    {
        if opened {
            self.conn = Some(LibvirtConn::new(uri.to_owned()));
        }
    }

    /// Decide on one discovered VM: it is tracked under its UUID, with the process
    /// ID that was found or zero, unless libvirt reported that it has no vCPUs. A
    /// count that could not be read is not known, and caps nothing.
    pub fn take_in(
        &self,
        uuid: u128,
        pid: Result<i32, QemuError>,
        vcpus: Result<u32, QemuError>,
    ) -> (r: VmAdmission)
        ensures
            vcpus == Ok::<u32, QemuError>(0) ==> r is NoVcpus,
            vcpus != Ok::<u32, QemuError>(0) ==> {
                &&& r matches VmAdmission::Track { instance, client }
                &&& instance.id@ == hyphenated(uuid)
                &&& instance.sock_path@ == self.cfg.libvirt_uri@
                &&& instance.pid == match pid {
                    Ok(p) => p,
                    Err(_) => 0,
                }
                &&& instance.thread_name_filter.pattern() is None
                &&& instance.status == (InstanceStatus {
                    scaling_allowed: true,
                    ..InstanceStatus::blank()
                })
                &&& client.empty_for(
                    uuid,
                    match vcpus {
                        Ok(n) => Some(n),
                        Err(_) => None,
                    },
                )
            },
    {
        let vcpu_count: Option<u32> = match vcpus {
            Ok(0) => {
                return VmAdmission::NoVcpus;
            },
            Ok(count) => Some(count),
            Err(_) => None,
        };
        let host_pid: i32 = match pid {
            Ok(p) => p,
            Err(_) => 0,
        };
        VmAdmission::Track {
            instance: Instance::new(uuid_text(uuid), self.cfg.libvirt_uri.clone(), host_pid),
            client: QemuInstanceClient::new(uuid, vcpu_count),
        }
    }

    /// Whether a discovery pass leaves the backend like this: its configuration
    /// stays, and a connection that was open or could be opened stays open.
    pub open spec fn passed(&self, before: QemuBackend, answer: LibvirtAnswer) -> bool {
        if answer is Unreachable {
            *self == before
        } else {
            self.cfg == before.cfg && self.connected_to(before.cfg.libvirt_uri@)
        }
    }

    /// Discover every active VM: wrap each listed one in a record with its client. A
    /// pass that could not connect or list finds nothing, and leaves it to the next
    /// one to try again.
    pub fn discover(&mut self, answer: LibvirtAnswer) -> (r: Discovery)
        ensures
            final(self).passed(*old(self), answer),
            finds(old(self).cfg, answer, r),
    {
        let mut taken: Vec<TrackedVm> = Vec::new();
        let mut skipped: Vec<u128> = Vec::new();
        let mut rest: Vec<VmReport> = match answer {
            LibvirtAnswer::Unreachable => {
                return Discovery { taken, skipped };
            },
            LibvirtAnswer::NotListed(_) => Vec::new(),
            LibvirtAnswer::Listed(reports) => reports,
        };
        let uri = self.cfg.libvirt_uri.clone();
        if !self.reuses_connection(uri.as_str()) {
            self.on_open(uri.as_str(), true);
        }
        let ghost all = rest@;
        let ghost mut i: int = 0;
        while rest.len() > 0
            invariant
                0 <= i <= all.len(),
                rest@ == all.skip(i),
                tracks(taken@, self.cfg, admitted(all.take(i))),
                skipped@ == left_out(all.take(i)),
            decreases rest.len(),
        {
            let report = rest.remove(0);
            proof {
                assert(report == all[i]);
                assert(all.take(i + 1).drop_last() =~= all.take(i));
                assert(all.take(i + 1).last() == report);
                assert(rest@ =~= all.skip(i + 1));
            }
            match self.take_in(report.uuid, report.pid, report.vcpus) {
                VmAdmission::Track { instance, client } => {
                    taken.push(TrackedVm { instance, client });
                },
                VmAdmission::NoVcpus => {
                    skipped.push(report.uuid);
                },
            }
            proof {
                i = i + 1;
            }
        }
        assert(all.take(i) =~= all);
        Discovery { taken, skipped }
    }
}

impl Default for QemuBackend {
    fn default() -> (r: Self)
        ensures
            r.cfg.libvirt_uri@ == "qemu:///system"@,
            r.conn is None,
    {
        QemuBackend::new(QemuConfig::default())
    }
}

// ---------------------------------------------------------------------
// Laws
// ---------------------------------------------------------------------

proof fn lemma_admitted(reports: Seq<VmReport>)
    ensures
        forall|j: int|
            0 <= j < reports.len() && (#[trigger] reports[j]).admissible() ==> admitted(
                reports,
            ).contains(reports[j]),
        (forall|j: int| 0 <= j < reports.len() ==> (#[trigger] reports[j]).admissible())
            ==> admitted(reports) == reports,
    decreases reports.len(),
{
    if reports.len() > 0 {
        let front = reports.drop_last();
        lemma_admitted(front);
        assert forall|j: int|
            0 <= j < reports.len() && (#[trigger] reports[j]).admissible() implies admitted(
            reports,
        ).contains(reports[j]) by {
            if j < front.len() {
                assert(front[j] == reports[j]);
                let at = admitted(front).index_of(reports[j]);
                assert(admitted(reports)[at] == reports[j]);
            } else {
                assert(admitted(reports)[admitted(front).len() as int] == reports[j]);
            }
        }
        if forall|j: int| 0 <= j < reports.len() ==> (#[trigger] reports[j]).admissible() {
            assert forall|j: int| 0 <= j < front.len() implies (#[trigger] front[j]).admissible() by {
                assert(reports[j].admissible());
            }
            assert(reports.last() == reports[reports.len() - 1]);
            assert(front.push(reports.last()) =~= reports);
        }
    }
}

/// Discovery recovers: a pass that could not connect or list finds nothing and fails
/// nothing, and a later pass that libvirt answers finds what it lists, as if the failed
/// one had not been. That is one record for every listed VM that is not reported to
/// have no vCPUs, in the order of the list, with the VM's UUID, and with the process ID
/// that was found or zero.
pub proof fn law_discovery_recovers(
    first: QemuBackend,
    failed: LibvirtAnswer,
    nothing: Discovery,
    second: QemuBackend,
    vms: Seq<VmCandidate>,
    listed: Seq<u128>,
    reports: Vec<VmReport>,
    found: Discovery,
)
    requires
        !(failed is Listed),
        second.passed(first, failed),
        finds(first.cfg, failed, nothing),
        lists(vms, listed),
        uuids(reports@) == listed,
        finds(second.cfg, LibvirtAnswer::Listed(reports), found),
    ensures
        nothing.taken@.len() == 0,
        finds(first.cfg, LibvirtAnswer::Listed(reports), found),
        found.taken@.len() == admitted(reports@).len(),
        forall|i: int|
            0 <= i < found.taken@.len() ==> {
                let vm = (#[trigger] found.taken@[i]).instance;
                &&& vm.id@ == hyphenated(admitted(reports@)[i].uuid)
                &&& vm.pid == admitted(reports@)[i].host_pid()
            },
        forall|j: int|
            0 <= j < listed.len() && (#[trigger] reports@[j]).admissible() ==> exists|i: int|
                0 <= i < found.taken@.len() && (#[trigger] found.taken@[i]).instance.id@
                    == hyphenated(listed[j]),
        (forall|j: int| 0 <= j < listed.len() ==> (#[trigger] reports@[j]).admissible()) ==> {
            &&& found.taken@.len() == listed.len()
            &&& forall|j: int|
                0 <= j < listed.len() ==> (#[trigger] found.taken@[j]).instance.id@ == hyphenated(
                    listed[j],
                )
        },
{
    let all = reports@;
    assert(listed.len() == all.len());
    assert forall|j: int| 0 <= j < all.len() implies listed[j] == (#[trigger] all[j]).uuid by {
        assert(uuids(all)[j] == all[j].uuid);
    }
    lemma_admitted(all);
    assert forall|j: int| 0 <= j < listed.len() && (#[trigger] all[j]).admissible() implies exists|
        i: int,
    |
        0 <= i < found.taken@.len() && (#[trigger] found.taken@[i]).instance.id@ == hyphenated(
            listed[j],
        ) by {
        let at = admitted(all).index_of(all[j]);
        assert(found.taken@[at].instance.id@ == hyphenated(listed[j]));
    }
}

/// A listed VM is tracked exactly where libvirt did not say that it has no vCPUs, and the
/// tracked ones are in the order of the list; the others are left out, in that order too.
pub proof fn law_only_vms_without_vcpus_are_left_out(reports: Seq<VmReport>)
    ensures
        admitted(reports) == reports.filter(
            |report: VmReport| report.vcpus is Err || report.vcpus->Ok_0 > 0,
        ),
        left_out(reports) == reports.filter(
            |report: VmReport| report.vcpus is Ok && report.vcpus->Ok_0 == 0,
        ).map_values(|report: VmReport| report.uuid),
    decreases reports.len(),
{
    reveal(Seq::filter);
    let kept = |report: VmReport| report.vcpus is Err || report.vcpus->Ok_0 > 0;
    let lost = |report: VmReport| report.vcpus is Ok && report.vcpus->Ok_0 == 0;
    let uuid = |report: VmReport| report.uuid;
    if reports.len() > 0 {
        law_only_vms_without_vcpus_are_left_out(reports.drop_last());
        let last = reports.last();
        assert(last.admissible() <==> kept(last));
        assert(last.admissible() <==> !lost(last));
        let front = reports.drop_last().filter(lost);
        assert(front.push(last).map_values(uuid) =~= front.map_values(uuid).push(last.uuid));
    } else {
        assert(reports.filter(kept) =~= Seq::<VmReport>::empty());
        assert(reports.filter(lost).map_values(uuid) =~= Seq::<u128>::empty());
    }
}

/// A tracked VM goes by its UUID in hyphenated form, over the configured URI, with the process
/// that was found or none; it counts as scalable and unclassified, and all its tasks are
/// sampled. Its client is for the same UUID, knows the vCPU count where libvirt does, and
/// nothing else yet.
pub proof fn law_tracked_vms_are_fresh(
    report: VmReport,
    cfg: QemuConfig,
    instance: Instance,
    client: QemuInstanceClient,
)
    requires
        report.taken_in(cfg, instance, client),
    ensures
        instance.id@ == hyphenated(report.uuid),
        instance.sock_path@ == cfg.libvirt_uri@,
        report.pid is Ok ==> instance.pid == report.pid->Ok_0,
        report.pid is Err ==> instance.pid == 0,
        instance.status.ownership_classification is None,
        instance.status.scaling_allowed,
        !instance.status.manual_scaling_sticky,
        !instance.status.alive,
        instance.status.cooldown_until is None,
        instance.status.thread_count == 0,
        instance.thread_name_filter.pattern() is None,
        client.uuid == report.uuid,
        report.vcpus is Ok ==> client.vcpu_count == Some(report.vcpus->Ok_0),
        report.vcpus is Err ==> client.vcpu_count is None,
        client.pid == 0,
        client.vq_count == 0,
        client.iothreads@.len() == 0,
        client.iothread_tids.ids().len() == 0,
        client.device_path@.len() == 0,
        client.last_sample is None,
        !client.warned_unsupported_metrics,
{
}

/// A connection is reused only for the URI that it was opened for.
pub proof fn law_connections_belong_to_their_uri(backend: QemuBackend, uri: Seq<char>)
    ensures
        backend.connected_to(uri) <==> backend.conn is Some && backend.conn->0.uri@ == uri,
{
}

/// A pass that could not reach libvirt leaves the backend as it was, so that the next one
/// tries to connect again; any other pass leaves it connected to its configured URI.
pub proof fn law_passes_keep_the_configuration(
    before: QemuBackend,
    answer: LibvirtAnswer,
    after: QemuBackend,
)
    requires
        after.passed(before, answer),
    ensures
        after.cfg == before.cfg,
        answer is Unreachable ==> after.conn == before.conn,
        !(answer is Unreachable) ==> after.conn is Some && after.conn->0.uri@
            == before.cfg.libvirt_uri@,
{
}

/// A pass that libvirt answers finds each listed VM that has vCPUs, or whose vCPU count is not known,
/// at its place among those, and nothing else; and names those that it leaves out.
pub proof fn law_discovery_finds_each_vm(
    cfg: QemuConfig,
    reports: Vec<VmReport>,
    found: Discovery,
    i: int,
)
    requires
        finds(cfg, LibvirtAnswer::Listed(reports), found),
    ensures
        ({
            let kept = reports@.filter(
                |report: VmReport| report.vcpus is Err || report.vcpus->Ok_0 > 0,
            );
            let lost = reports@.filter(
                |report: VmReport| report.vcpus is Ok && report.vcpus->Ok_0 == 0,
            );
            &&& found.taken@.len() == kept.len()
            &&& found.skipped@.len() == lost.len()
            &&& 0 <= i < lost.len() ==> found.skipped@[i] == lost[i].uuid
            &&& 0 <= i < kept.len() ==> {
                let vm = found.taken@[i];
                &&& vm.instance.id@ == hyphenated(kept[i].uuid)
                &&& vm.instance.sock_path@ == cfg.libvirt_uri@
                &&& vm.instance.pid == if kept[i].pid is Ok {
                    kept[i].pid->Ok_0
                } else {
                    0
                }
                &&& vm.client.uuid == kept[i].uuid
                &&& vm.client.vcpu_count == if kept[i].vcpus is Ok {
                    Some(kept[i].vcpus->Ok_0)
                } else {
                    None
                }
            }
        }),
{
    law_only_vms_without_vcpus_are_left_out(reports@);
    if 0 <= i < admitted(reports@).len() {
        assert(admitted(reports@)[i].taken_in(
            cfg,
            found.taken@[i].instance,
            found.taken@[i].client,
        ));
    }
}

} // verus!
