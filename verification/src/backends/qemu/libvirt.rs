//! QMP commands and replies, and the choice of VMs, for the libvirt transport.
//!
//! A command is a name with arguments; a reply is a JSON envelope. Sending,
//! encoding and decoding are the caller's.

use vstd::prelude::*;
use vstd::string::StringExecFns;

use crate::backends::qemu::helpers::{QemuError, QemuErrorView};
use crate::backends::{IoErrorKind, IoFailure, IoThreadProperties, VqMapping};
use crate::collate::sort_numbers;
use crate::instance::{add_saturating, saturated, InstancePerfSample};
use crate::numerals::{
    decimal, integer_value, is_digit, law_decimal_reads_back, law_signs_of_numerals, parse_i32,
};
use crate::text::{
    begins_with, contains, holds_text, is_blank, is_white, law_trimming, law_trimming_the_start, lines,
    lines_of, same_text, stands_at, starts_with, to_chars, trim, trim_start, trimmed, trimmed_start,
    views,
};

verus! {

// ---------------------------------------------------------------------
// Choice of VMs
// ---------------------------------------------------------------------

/// Whether a line opens a virtio-scsi controller element.
pub open spec fn opens_virtio_scsi(line: Seq<char>) -> bool {
    let t = trimmed_start(line);
    &&& begins_with(t, "<controller"@)
    &&& holds_text(t, "type='scsi'"@) || holds_text(t, "type=\"scsi\""@)
    &&& holds_text(t, "model='virtio-scsi'"@) || holds_text(t, "model=\"virtio-scsi\""@)
}

/// Whether a VM description has a virtio-scsi controller.
pub open spec fn describes_virtio_scsi(xml: Seq<char>) -> bool {
    exists|i: int| 0 <= i < lines_of(xml).len() && opens_virtio_scsi(#[trigger] lines_of(xml)[i])
}

fn line_opens_virtio_scsi(line: &Vec<char>) -> (r: bool)
    ensures
        r == opens_virtio_scsi(line@),
{
    let t = trim_start(line);
    starts_with(&t, "<controller") && (contains(&t, "type='scsi'") || contains(
        &t,
        "type=\"scsi\"",
    )) && (contains(&t, "model='virtio-scsi'") || contains(&t, "model=\"virtio-scsi\""))
}

/// Whether a VM description mentions, within one opening tag, a scsi controller
/// of the virtio-scsi model.
pub fn xml_has_virtio_scsi(xml: &str) -> (r: bool)
    ensures
        r == describes_virtio_scsi(xml@),
{
    let found = lines(&to_chars(xml));
    let ghost all = lines_of(xml@);
    let mut i: usize = 0;
    while i < found.len()
        invariant
            i <= found.len(),
            all == lines_of(xml@),
            all == views(found@),
            forall|j: int| 0 <= j < i ==> !opens_virtio_scsi(#[trigger] all[j]),
        decreases found.len() - i,
    {
        assert(all[i as int] == found@[i as int]@);
        if line_opens_virtio_scsi(&found[i]) {
            return true;
        }
        i += 1;
    }
    false
}

/// One active VM; a part that could not be fetched is `None`.
#[derive(Debug, Clone)]
pub struct VmCandidate {
    /// UUID.
    pub uuid: Option<u128>,
    /// Description.
    pub xml: Option<String>,
}

/// Whether a VM is to be tracked.
pub open spec fn qualifies(vm: VmCandidate) -> bool {
    vm.uuid is Some && vm.xml is Some && describes_virtio_scsi(vm.xml->0@)
}

/// The UUIDs of the VMs to be tracked.
pub open spec fn chosen(vms: Seq<VmCandidate>) -> Seq<u128>
    decreases vms.len(),
{
    if vms.len() == 0 {
        seq![]
    } else if qualifies(vms.last()) {
        chosen(vms.drop_last()).push(vms.last().uuid->0)
    } else {
        chosen(vms.drop_last())
    }
}

/// Whether a list holds the UUIDs of the VMs to be tracked, in ascending order.
pub open spec fn lists(vms: Seq<VmCandidate>, listed: Seq<u128>) -> bool {
    &&& forall|i: int, j: int| 0 <= i <= j < listed.len() ==> listed[i] <= listed[j]
    &&& listed.to_multiset() == chosen(vms).to_multiset()
    &&& listed.len() == chosen(vms).len()
}

/// The process ID in the text of a PID file, if it holds one.
pub open spec fn pid_in(text: Option<Seq<char>>) -> Option<int> {
    match text {
        Some(t) => match integer_value(trimmed(t)) {
            Some(n) => if 0 < n <= i32::MAX {
                Some(n)
            } else {
                None
            },
            None => None,
        },
        None => None,
    }
}

/// The text of a file that may be missing.
pub open spec fn file_text(text: Option<String>) -> Option<Seq<char>> {
    match text {
        Some(t) => Some(t@),
        None => None,
    }
}

fn read_pid(text: &Option<String>) -> (r: Option<i32>)
    ensures
        match pid_in(file_text(*text)) {
            Some(n) => r is Some && r->0 == n,
            None => r is None,
        },
{
    match text {
        Some(t) => match parse_i32(&trim(&to_chars(t.as_str()))) {
            Some(pid) => if pid > 0 {
                Some(pid)
            } else {
                None
            },
            None => None,
        },
        None => None,
    }
}

/// Shared libvirt session: one connection per daemon, dialed once.
#[derive(Debug, Clone)]
pub struct LibvirtConn {
    /// URI used to open this connection.
    pub uri: String,
}

impl LibvirtConn {
    /// Take note of a connection that was opened.
    pub fn new(uri: String) -> (r: Self)
        ensures
            r.uri == uri,
    {
        LibvirtConn { uri }
    }

    /// Choose the VMs that carry a virtio-scsi controller, in the order of their
    /// UUIDs. A VM of which something could not be fetched is left out.
    pub fn list_qemu_vms(&self, vms: &Vec<VmCandidate>) -> (r: Vec<u128>)
        ensures
            lists(vms@, r@),
    {
        let mut out: Vec<u128> = Vec::new();
        let mut i: usize = 0;
        while i < vms.len()
            invariant
                i <= vms.len(),
                out@ == chosen(vms@.take(i as int)),
            decreases vms.len() - i,
        {
            proof {
                assert(vms@.take(i + 1).drop_last() =~= vms@.take(i as int));
                assert(vms@.take(i + 1).last() == vms@[i as int]);
            }
            match (&vms[i].uuid, &vms[i].xml) {
                (Some(uuid), Some(xml)) => {
                    if xml_has_virtio_scsi(xml.as_str()) {
                        out.push(*uuid);
                    }
                },
                _ => {},
            }
            i += 1;
        }
        assert(vms@.take(i as int) =~= vms@);
        sort_numbers(out)
    }

    /// Return the host process ID of a VM from its PID files, the first that holds
    /// one, or zero if none does. `None` stands for a file that could not be read.
    pub fn qemu_host_pid(&self, first: &Option<String>, second: &Option<String>) -> (r: i32)
        ensures
            r == match (pid_in(file_text(*first)), pid_in(file_text(*second))) {
                (Some(n), _) => n,
                (None, Some(n)) => n,
                (None, None) => 0,
            },
    {
        match read_pid(first) {
            Some(pid) => pid,
            None => match read_pid(second) {
                Some(pid) => pid,
                None => 0,
            },
        }
    }
}

/// The failure of a libvirt call.
pub fn libvirt_failure(context: &str, error: &str) -> (r: QemuError)
    ensures
        r@ == (QemuErrorView::Io {
            kind: IoErrorKind::Other,
            message: context@ + ": "@ + error@,
        }),
{
    QemuError::Io(
        IoFailure {
            kind: IoErrorKind::Other,
            message: context.to_owned().concat(": ").concat(error),
        },
    )
}

/// The failure to run a blocking call.
pub fn spawn_failure(what: &str, error: &str) -> (r: QemuError)
    ensures
        r@ == QemuErrorView::Parse("spawn_blocking "@ + what@ + ": "@ + error@),
{
    QemuError::Parse("spawn_blocking ".to_owned().concat(what).concat(": ").concat(error))
}

// ---------------------------------------------------------------------
// Commands
// ---------------------------------------------------------------------

/// The value of a command argument.
#[derive(Debug)]
pub enum QmpValue {
    /// A string.
    Text(String),
    /// A number.
    Number(i64),
    /// A list of virtqueue mappings.
    Mapping(Vec<VqMapping>),
}

/// The content of a [`QmpValue`].
pub enum QmpValueView {
    /// A string.
    Text(Seq<char>),
    /// A number.
    Number(i64),
    /// A list of virtqueue mappings.
    Mapping(Seq<VqMapping>),
}

impl View for QmpValue {
    type V = QmpValueView;

    open spec fn view(&self) -> QmpValueView {
        match *self {
            QmpValue::Text(s) => QmpValueView::Text(s@),
            QmpValue::Number(n) => QmpValueView::Number(n),
            QmpValue::Mapping(m) => QmpValueView::Mapping(m@),
        }
    }
}

/// One argument of a command.
#[derive(Debug)]
pub struct QmpArgument {
    /// Name of the argument.
    pub key: String,
    /// Value of the argument.
    pub value: QmpValue,
}

impl View for QmpArgument {
    type V = (Seq<char>, QmpValueView);

    open spec fn view(&self) -> (Seq<char>, QmpValueView) {
        (self.key@, self.value@)
    }
}

/// A command with its arguments; a command without any sends none at all.
#[derive(Debug)]
pub struct QmpCommand {
    /// Name of the command.
    pub name: String,
    /// Arguments of the command.
    pub arguments: Vec<QmpArgument>,
}

/// The arguments of a command by content.
pub open spec fn argument_views(arguments: Seq<QmpArgument>) -> Seq<(Seq<char>, QmpValueView)> {
    arguments.map_values(|argument: QmpArgument| argument@)
}

impl View for QmpCommand {
    type V = (Seq<char>, Seq<(Seq<char>, QmpValueView)>);

    open spec fn view(&self) -> (Seq<char>, Seq<(Seq<char>, QmpValueView)>) {
        (self.name@, argument_views(self.arguments@))
    }
}

fn text_argument(key: &str, value: &str) -> (r: QmpArgument)
    ensures
        r@ == (key@, QmpValueView::Text(value@)),
{
    QmpArgument { key: key.to_owned(), value: QmpValue::Text(value.to_owned()) }
}

/// A numeric argument that is sent only where it is set.
pub open spec fn optional_argument(key: Seq<char>, value: Option<i64>) -> Seq<
    (Seq<char>, QmpValueView),
> {
    match value {
        Some(n) => seq![(key, QmpValueView::Number(n))],
        None => seq![],
    }
}

fn push_number(arguments: &mut Vec<QmpArgument>, key: &str, value: Option<i64>)
    ensures
        argument_views(final(arguments)@) == argument_views(old(arguments)@) + optional_argument(
            key@,
            value,
        ),
{
    match value {
        Some(n) => {
            let ghost before = arguments@;
            let argument = QmpArgument { key: key.to_owned(), value: QmpValue::Number(n) };
            arguments.push(argument);
            assert(argument_views(arguments@) =~= argument_views(before) + seq![
                (key@, QmpValueView::Number(n)),
            ]);
        },
        None => {
            assert(argument_views(arguments@) =~= argument_views(arguments@)
                + Seq::<(Seq<char>, QmpValueView)>::empty());
        },
    }
}

/// The arguments that IOThread properties add to a command.
pub open spec fn property_arguments(props: Option<IoThreadProperties>) -> Seq<
    (Seq<char>, QmpValueView),
> {
    match props {
        Some(p) => optional_argument("poll-max-ns"@, p.poll_max_ns) + optional_argument(
            "poll-grow"@,
            p.poll_grow,
        ) + optional_argument("poll-shrink"@, p.poll_shrink) + optional_argument(
            "aio-max-batch"@,
            p.aio_max_batch,
        ) + optional_argument("thread-pool-min"@, p.thread_pool_min) + optional_argument(
            "thread-pool-max"@,
            p.thread_pool_max,
        ),
        None => seq![],
    }
}

/// The failure that a message stands for.
pub open spec fn refused(message: Seq<char>) -> QemuErrorView {
    QemuErrorView::Parse(message)
}

fn bare_command(name: &str) -> (r: QmpCommand)
    ensures
        r@ == (name@, Seq::<(Seq<char>, QmpValueView)>::empty()),
{
    let arguments: Vec<QmpArgument> = Vec::new();
    assert(argument_views(arguments@) =~= Seq::<(Seq<char>, QmpValueView)>::empty());
    QmpCommand { name: name.to_owned(), arguments }
}

/// Per-VM QMP commands over libvirt.
#[derive(Debug, Clone)]
pub struct LibvirtQmp {
    /// libvirt VM UUID addressed by every command.
    pub uuid: String,
}

impl LibvirtQmp {
    /// Address a VM.
    pub fn new(uuid: String) -> (r: Self)
        ensures
            r.uuid == uuid,
    {
        LibvirtQmp { uuid }
    }

    /// Build the command that creates an IOThread, with optional overrides.
    #[verifier::rlimit(60)]
    pub fn add_io_thread(&self, id: &str, props: Option<&IoThreadProperties>) -> (r: Result<
        QmpCommand,
        QemuError,
    >)
        ensures
            trimmed(id@).len() == 0 ==> r is Err && r->Err_0@ == refused(
                "iothread id must be non-empty"@,
            ),
            trimmed(id@).len() > 0 ==> r is Ok && r->Ok_0@ == (
                "object-add"@,
                seq![
                    ("qom-type"@, QmpValueView::Text("iothread"@)),
                    ("id"@, QmpValueView::Text(id@)),
                ] + property_arguments(
                    match props {
                        Some(p) => Some(*p),
                        None => None,
                    },
                ),
            ),
    {
        if is_blank(id) {
            return Err(QemuError::Parse("iothread id must be non-empty".to_owned()));
        }
        let mut arguments: Vec<QmpArgument> = Vec::new();
        arguments.push(text_argument("qom-type", "iothread"));
        arguments.push(text_argument("id", id));
        let ghost fixed = seq![
            ("qom-type"@, QmpValueView::Text("iothread"@)),
            ("id"@, QmpValueView::Text(id@)),
        ];
        assert(argument_views(arguments@) =~= fixed);
        match props {
            Some(p) => {
                push_number(&mut arguments, "poll-max-ns", p.poll_max_ns);
                push_number(&mut arguments, "poll-grow", p.poll_grow);
                push_number(&mut arguments, "poll-shrink", p.poll_shrink);
                push_number(&mut arguments, "aio-max-batch", p.aio_max_batch);
                push_number(&mut arguments, "thread-pool-min", p.thread_pool_min);
                push_number(&mut arguments, "thread-pool-max", p.thread_pool_max);
                assert(argument_views(arguments@) =~= fixed + property_arguments(Some(*p)));
            },
            None => {
                assert(argument_views(arguments@) =~= fixed + property_arguments(None));
            },
        }
        Ok(QmpCommand { name: "object-add".to_owned(), arguments })
    }

    /// Build the command that deletes an IOThread.
    pub fn del_io_thread(&self, id: &str) -> (r: Result<QmpCommand, QemuError>)
        ensures
            trimmed(id@).len() == 0 ==> r is Err && r->Err_0@ == refused(
                "iothread id must be non-empty"@,
            ),
            trimmed(id@).len() > 0 ==> r is Ok && r->Ok_0@ == (
                "object-del"@,
                seq![("id"@, QmpValueView::Text(id@))],
            ),
    {
        if is_blank(id) {
            return Err(QemuError::Parse("iothread id must be non-empty".to_owned()));
        }
        let mut arguments: Vec<QmpArgument> = Vec::new();
        arguments.push(text_argument("id", id));
        assert(argument_views(arguments@) =~= seq![("id"@, QmpValueView::Text(id@))]);
        Ok(QmpCommand { name: "object-del".to_owned(), arguments })
    }

    /// Build the command that asks for the metrics body.
    pub fn query_prometheus_metrics(&self) -> (r: QmpCommand)
        ensures
            r@ == ("x-query-prometheus-metrics"@, Seq::<(Seq<char>, QmpValueView)>::empty()),
    {
        bare_command("x-query-prometheus-metrics")
    }

    /// Build the command that asks for the block statistics.
    pub fn query_blockstats(&self) -> (r: QmpCommand)
        ensures
            r@ == ("query-blockstats"@, Seq::<(Seq<char>, QmpValueView)>::empty()),
    {
        bare_command("query-blockstats")
    }

    /// Build the command that sets a device's virtqueue mapping.
    pub fn set_vq_mapping(&self, device_path: &str, mapping: Vec<VqMapping>) -> (r: Result<
        QmpCommand,
        QemuError,
    >)
        ensures
            trimmed(device_path@).len() == 0 ==> r is Err && r->Err_0@ == refused(
                "device path must be non-empty"@,
            ),
            trimmed(device_path@).len() > 0 && mapping@.len() == 0 ==> r is Err && r->Err_0@ == refused(
                "iothread-vq-mapping must contain at least one entry"@,
            ),
            trimmed(device_path@).len() > 0 && mapping@.len() > 0 ==> r is Ok && r->Ok_0@ == (
                "x-virtio-scsi-set-iothread-vq-mapping"@,
                seq![
                    ("path"@, QmpValueView::Text(device_path@)),
                    ("iothread-vq-mapping"@, QmpValueView::Mapping(mapping@)),
                ],
            ),
    {
        if is_blank(device_path) {
            return Err(QemuError::Parse("device path must be non-empty".to_owned()));
        }
        if mapping.len() == 0 {
            return Err(
                QemuError::Parse("iothread-vq-mapping must contain at least one entry".to_owned()),
            );
        }
        let mut arguments: Vec<QmpArgument> = Vec::new();
        arguments.push(text_argument("path", device_path));
        arguments.push(
            QmpArgument {
                key: "iothread-vq-mapping".to_owned(),
                value: QmpValue::Mapping(mapping),
            },
        );
        assert(argument_views(arguments@) =~= seq![
            ("path"@, QmpValueView::Text(device_path@)),
            ("iothread-vq-mapping"@, QmpValueView::Mapping(mapping@)),
        ]);
        Ok(QmpCommand { name: "x-virtio-scsi-set-iothread-vq-mapping".to_owned(), arguments })
    }

    /// Build the command that reads a device's virtqueue mapping.
    pub fn query_vq_mapping(&self, device_path: &str) -> (r: Result<QmpCommand, QemuError>)
        ensures
            trimmed(device_path@).len() == 0 ==> r is Err && r->Err_0@ == refused(
                "device path must be non-empty"@,
            ),
            trimmed(device_path@).len() > 0 ==> r is Ok && r->Ok_0@ == (
                "qom-get"@,
                seq![
                    ("path"@, QmpValueView::Text(device_path@)),
                    ("property"@, QmpValueView::Text("iothread-vq-mapping"@)),
                ],
            ),
    {
        if is_blank(device_path) {
            return Err(QemuError::Parse("device path must be non-empty".to_owned()));
        }
        let mut arguments: Vec<QmpArgument> = Vec::new();
        arguments.push(text_argument("path", device_path));
        arguments.push(text_argument("property", "iothread-vq-mapping"));
        assert(argument_views(arguments@) =~= seq![
            ("path"@, QmpValueView::Text(device_path@)),
            ("property"@, QmpValueView::Text("iothread-vq-mapping"@)),
        ]);
        Ok(QmpCommand { name: "qom-get".to_owned(), arguments })
    }
}

// ---------------------------------------------------------------------
// Replies
// ---------------------------------------------------------------------

/// The error part of a reply.
#[derive(Debug, Clone)]
pub struct QmpErrorBody {
    /// Error class.
    pub class: String,
    /// Error description.
    pub desc: String,
}

/// A decoded reply.
#[derive(Debug, Clone)]
pub struct QmpEnvelope {
    /// The returned JSON text, if there is a `return` part.
    pub ret: Option<String>,
    /// The error, if there is an `error` part.
    pub error: Option<QmpErrorBody>,
}

/// Split a QMP reply into either the `return` payload or an error. `decoded` is
/// what decoding `body` gave: the envelope, or the decoder's complaint.
pub fn parse_qmp_envelope(
    cmd: &str,
    body: &str,
    decoded: Result<QmpEnvelope, String>,
) -> (r: Result<String, QemuError>)
    ensures
        match decoded {
            Err(e) => r is Err && r->Err_0@ == QemuErrorView::Parse(
                "decode "@ + cmd@ + " response: "@ + e@ + " (body="@ + body@ + ")"@,
            ),
            Ok(env) => match (env.error, env.ret) {
                (Some(err), _) => r is Err && r->Err_0@ == (QemuErrorView::QmpError {
                    cmd: cmd@,
                    class: err.class@,
                    desc: err.desc@,
                }),
                (None, Some(ret)) => r is Ok && r->Ok_0 == ret,
                (None, None) => r is Err && r->Err_0@ == QemuErrorView::Parse(
                    "qmp "@ + cmd@ + " response missing return/error: "@ + body@,
                ),
            },
        },
{
    let env = match decoded {
        Ok(env) => env,
        Err(e) => {
            return Err(
                QemuError::Parse(
                    "decode ".to_owned().concat(cmd).concat(" response: ").concat(
                        e.as_str(),
                    ).concat(" (body=").concat(body).concat(")"),
                ),
            );
        },
    };
    match env.error {
        Some(err) => Err(
            QemuError::QmpError { cmd: cmd.to_owned(), class: err.class, desc: err.desc },
        ),
        None => match env.ret {
            Some(ret) => Ok(ret),
            None => Err(
                QemuError::Parse(
                    "qmp ".to_owned().concat(cmd).concat(
                        " response missing return/error: ",
                    ).concat(body),
                ),
            ),
        },
    }
}

/// Unwrap a decoded metrics reply.
pub fn parse_metrics(decoded: Result<String, String>) -> (r: Result<String, QemuError>)
    ensures
        match decoded {
            Ok(body) => r is Ok && r->Ok_0 == body,
            Err(e) => r is Err && r->Err_0@ == QemuErrorView::Parse(
                "decode x-query-prometheus-metrics: "@ + e@,
            ),
        },
{
    match decoded {
        Ok(body) => Ok(body),
        Err(e) => Err(
            QemuError::Parse(
                "decode x-query-prometheus-metrics: ".to_owned().concat(e.as_str()),
            ),
        ),
    }
}

/// Unwrap a virtqueue-mapping reply; an empty or null payload is no mapping.
/// `decoded` is what decoding `payload` gave.
pub fn parse_vq_mapping(payload: &str, decoded: Result<Vec<VqMapping>, String>) -> (r: Result<
    Vec<VqMapping>,
    QemuError,
>)
    ensures
        payload@.len() == 0 || payload@ == "null"@ ==> r is Ok && r->Ok_0@.len() == 0,
        !(payload@.len() == 0 || payload@ == "null"@) ==> match decoded {
            Ok(mapping) => r is Ok && r->Ok_0 == mapping,
            Err(e) => r is Err && r->Err_0@ == QemuErrorView::Parse(
                "parse qom-get iothread-vq-mapping: "@ + e@,
            ),
        },
{
    if payload.is_empty() || same_text(payload, "null") {
        return Ok(Vec::new());
    }
    match decoded {
        Ok(mapping) => Ok(mapping),
        Err(e) => Err(
            QemuError::Parse("parse qom-get iothread-vq-mapping: ".to_owned().concat(e.as_str())),
        ),
    }
}

/// Counters of one block device; a counter that is left out is zero.
#[derive(Debug, Clone, Copy, PartialEq, Eq, Structural)]
pub struct BlockStats {
    /// Bytes read.
    pub rd_bytes: u64,
    /// Bytes written.
    pub wr_bytes: u64,
    /// Completed reads.
    pub rd_operations: u64,
    /// Completed writes.
    pub wr_operations: u64,
    /// Completed flushes.
    pub flush_operations: u64,
    /// Completed unmaps.
    pub unmap_operations: u64,
}

/// Sums of the counters of all devices.
pub struct BlockSums {
    /// Completed reads.
    pub reads: int,
    /// Completed writes.
    pub writes: int,
    /// Completed flushes and unmaps.
    pub others: int,
    /// Bytes read.
    pub read_bytes: int,
    /// Bytes written.
    pub write_bytes: int,
}

/// Sums of the counters of all devices.
pub open spec fn block_sums(devices: Seq<BlockStats>) -> BlockSums
    decreases devices.len(),
{
    if devices.len() == 0 {
        BlockSums { reads: 0, writes: 0, others: 0, read_bytes: 0, write_bytes: 0 }
    } else {
        let front = block_sums(devices.drop_last());
        let last = devices.last();
        BlockSums {
            reads: front.reads + last.rd_operations,
            writes: front.writes + last.wr_operations,
            others: front.others + last.flush_operations + last.unmap_operations,
            read_bytes: front.read_bytes + last.rd_bytes,
            write_bytes: front.write_bytes + last.wr_bytes,
        }
    }
}

/// The sample that sums stand for, each held at the largest counter value.
pub open spec fn sample_of(sums: BlockSums) -> InstancePerfSample {
    InstancePerfSample {
        read_io_count: saturated(sums.reads) as u64,
        write_io_count: saturated(sums.writes) as u64,
        other_io_count: saturated(sums.others) as u64,
        read_bytes_total: saturated(sums.read_bytes) as u64,
        write_bytes_total: saturated(sums.write_bytes) as u64,
    }
}

proof fn lemma_sums_nonnegative(devices: Seq<BlockStats>)
    ensures
        block_sums(devices).reads >= 0,
        block_sums(devices).writes >= 0,
        block_sums(devices).others >= 0,
        block_sums(devices).read_bytes >= 0,
        block_sums(devices).write_bytes >= 0,
    decreases devices.len(),
{
    if devices.len() > 0 {
        lemma_sums_nonnegative(devices.drop_last());
    }
}

/// Fold every block device's counters into a single sample; no devices make no
/// sample. `decoded` is what decoding the reply gave.
pub fn parse_blockstats(decoded: Result<Vec<BlockStats>, String>) -> (r: Result<
    Option<InstancePerfSample>,
    QemuError,
>)
    ensures
        match decoded {
            Ok(devices) => r is Ok && r->Ok_0 == if devices@.len() == 0 {
                None
            } else {
                Some(sample_of(block_sums(devices@)))
            },
            Err(e) => r is Err && r->Err_0@ == QemuErrorView::Parse(
                "decode query-blockstats: "@ + e@,
            ),
        },
{
    let devices = match decoded {
        Ok(devices) => devices,
        Err(e) => {
            return Err(
                QemuError::Parse("decode query-blockstats: ".to_owned().concat(e.as_str())),
            );
        },
    };
    if devices.len() == 0 {
        return Ok(None);
    }
    let mut perf = InstancePerfSample::default();
    let mut i: usize = 0;
    while i < devices.len()
        invariant
            i <= devices.len(),
            perf == sample_of(block_sums(devices@.take(i as int))),
        decreases devices.len() - i,
    {
        let stats = devices[i];
        proof {
            assert(devices@.take(i + 1).drop_last() =~= devices@.take(i as int));
            assert(devices@.take(i + 1).last() == stats);
            lemma_sums_nonnegative(devices@.take(i as int));
        }
        perf.read_io_count = add_saturating(perf.read_io_count, stats.rd_operations);
        perf.write_io_count = add_saturating(perf.write_io_count, stats.wr_operations);
        perf.other_io_count = add_saturating(
            perf.other_io_count,
            add_saturating(stats.flush_operations, stats.unmap_operations),
        );
        perf.read_bytes_total = add_saturating(perf.read_bytes_total, stats.rd_bytes);
        perf.write_bytes_total = add_saturating(perf.write_bytes_total, stats.wr_bytes);
        i += 1;
    }
    assert(devices@.take(i as int) =~= devices@);
    Ok(Some(perf))
}

// ---------------------------------------------------------------------
// Laws
// ---------------------------------------------------------------------

/// The counters are additive over the devices: the sums of a list in two parts are the
/// sums of its parts added up.
pub proof fn law_block_sums_add_up(first: Seq<BlockStats>, second: Seq<BlockStats>)
    ensures
        ({
            let a = block_sums(first);
            let b = block_sums(second);
            let all = block_sums(first + second);
            &&& all.reads == a.reads + b.reads
            &&& all.writes == a.writes + b.writes
            &&& all.others == a.others + b.others
            &&& all.read_bytes == a.read_bytes + b.read_bytes
            &&& all.write_bytes == a.write_bytes + b.write_bytes
        }),
    decreases second.len(),
{
    if second.len() == 0 {
        assert(first + second =~= first);
    } else {
        law_block_sums_add_up(first, second.drop_last());
        assert((first + second).drop_last() =~= first + second.drop_last());
        assert((first + second).last() == second.last());
    }
}

/// The counters of a single device are its own: its reads, its writes, its flushes and
/// unmaps together, and its bytes.
pub proof fn law_one_device_counts_itself(device: BlockStats)
    ensures
        ({
            let sums = block_sums(seq![device]);
            &&& sums.reads == device.rd_operations
            &&& sums.writes == device.wr_operations
            &&& sums.others == device.flush_operations + device.unmap_operations
            &&& sums.read_bytes == device.rd_bytes
            &&& sums.write_bytes == device.wr_bytes
        }),
{
    reveal_with_fuel(block_sums, 2);
    assert(seq![device].drop_last() =~= Seq::<BlockStats>::empty());
}

/// Each counter of a sample is the sum over the devices, or the largest counter value
/// where the sum is larger.
pub proof fn law_samples_hold_the_sums(devices: Seq<BlockStats>)
    ensures
        ({
            let sums = block_sums(devices);
            let sample = sample_of(sums);
            let top = u64::MAX as int;
            &&& sample.read_io_count == if sums.reads <= top { sums.reads } else { top }
            &&& sample.write_io_count == if sums.writes <= top { sums.writes } else { top }
            &&& sample.other_io_count == if sums.others <= top { sums.others } else { top }
            &&& sample.read_bytes_total == if sums.read_bytes <= top { sums.read_bytes } else { top }
            &&& sample.write_bytes_total == if sums.write_bytes <= top {
                sums.write_bytes
            } else {
                top
            }
        }),
{
    lemma_sums_nonnegative(devices);
}

/// The order of the devices does not matter, nor does a device without any operations.
pub proof fn law_idle_devices_add_nothing(first: Seq<BlockStats>, idle: BlockStats, second: Seq<BlockStats>)
    requires
        idle.rd_operations == 0,
        idle.wr_operations == 0,
        idle.flush_operations == 0,
        idle.unmap_operations == 0,
        idle.rd_bytes == 0,
        idle.wr_bytes == 0,
    ensures
        block_sums(first + seq![idle] + second) == block_sums(first + second),
        block_sums(first + second) == block_sums(second + first),
{
    law_one_device_counts_itself(idle);
    law_block_sums_add_up(first, seq![idle]);
    law_block_sums_add_up(first + seq![idle], second);
    law_block_sums_add_up(first, second);
    law_block_sums_add_up(second, first);
}

/// A VM is listed if and only if it has a UUID and a description with a line that opens
/// a virtio-scsi controller, as often as it occurs.
pub proof fn law_listed_vms_qualify(vms: Seq<VmCandidate>, listed: Seq<u128>, uuid: u128)
    requires
        lists(vms, listed),
    ensures
        listed.contains(uuid) <==> exists|i: int|
            {
                &&& 0 <= i < vms.len()
                &&& (#[trigger] vms[i]).uuid == Some(uuid)
                &&& vms[i].xml is Some
                &&& exists|k: int|
                    0 <= k < lines_of(vms[i].xml->0@).len() && opens_virtio_scsi(
                        #[trigger] lines_of(vms[i].xml->0@)[k],
                    )
            },
        forall|i: int, j: int| 0 <= i <= j < listed.len() ==> listed[i] <= listed[j],
{
    lemma_chosen(vms, uuid);
    listed.to_multiset_ensures();
    chosen(vms).to_multiset_ensures();
    if listed.contains(uuid) {
        assert(listed.to_multiset().count(uuid) > 0);
        assert(chosen(vms).to_multiset().count(uuid) > 0);
        assert(chosen(vms).contains(uuid));
    }
    if chosen(vms).contains(uuid) {
        assert(chosen(vms).to_multiset().count(uuid) > 0);
        assert(listed.to_multiset().count(uuid) > 0);
    }
}

proof fn lemma_chosen(vms: Seq<VmCandidate>, uuid: u128)
    ensures
        chosen(vms).contains(uuid) <==> exists|i: int|
            {
                &&& 0 <= i < vms.len()
                &&& (#[trigger] vms[i]).uuid == Some(uuid)
                &&& vms[i].xml is Some
                &&& exists|k: int|
                    0 <= k < lines_of(vms[i].xml->0@).len() && opens_virtio_scsi(
                        #[trigger] lines_of(vms[i].xml->0@)[k],
                    )
            },
    decreases vms.len(),
{
    if vms.len() > 0 {
        let front = vms.drop_last();
        let n = vms.len() - 1;
        lemma_chosen(front, uuid);
        if chosen(front).contains(uuid) {
            let at = chosen(front).index_of(uuid);
            assert(chosen(vms)[at] == uuid);
        }
        if qualifies(vms.last()) && vms.last().uuid->0 == uuid {
            assert(chosen(vms)[chosen(front).len() as int] == uuid);
            assert(vms[n].uuid == Some(uuid));
        }
        if chosen(vms).contains(uuid) && !chosen(front).contains(uuid) {
            assert(vms[n].uuid == Some(uuid));
        }
        if chosen(front).contains(uuid) {
            let i = choose|i: int|
                {
                    &&& 0 <= i < front.len()
                    &&& (#[trigger] front[i]).uuid == Some(uuid)
                    &&& front[i].xml is Some
                    &&& exists|k: int|
                        0 <= k < lines_of(front[i].xml->0@).len() && opens_virtio_scsi(
                            #[trigger] lines_of(front[i].xml->0@)[k],
                        )
                };
            assert(vms[i] == front[i]);
        }
        assert forall|i: int|
            {
                &&& 0 <= i < vms.len()
                &&& (#[trigger] vms[i]).uuid == Some(uuid)
                &&& vms[i].xml is Some
                &&& exists|k: int|
                    0 <= k < lines_of(vms[i].xml->0@).len() && opens_virtio_scsi(
                        #[trigger] lines_of(vms[i].xml->0@)[k],
                    )
            } implies chosen(vms).contains(uuid) by {
            if i < n {
                assert(front[i] == vms[i]);
            }
        }
    }
}

/// A PID file holds its process ID: a positive number that fits, with or without white space
/// around it. One that is missing, that holds no number, or that holds a number that is not
/// positive, holds none.
pub proof fn law_pid_files_hold_their_pid(before: Seq<char>, n: nat, after: Seq<char>, text: Seq<char>)
    requires
        forall|i: int| 0 <= i < before.len() ==> is_white(#[trigger] before[i]),
        forall|i: int| 0 <= i < after.len() ==> is_white(#[trigger] after[i]),
        text == before + decimal(n) + after,
    ensures
        0 < n <= i32::MAX ==> pid_in(Some(text)) == Some(n as int),
        n == 0 || n > i32::MAX ==> pid_in(Some(text)) is None,
        pid_in(None) is None,
        forall|t: Seq<char>|
            integer_value(trimmed(t)) is None || integer_value(trimmed(t))->0 <= 0
                ==> #[trigger] pid_in(Some(t)) is None,
{
    law_decimal_reads_back(n);
    law_signs_of_numerals(n, seq![]);
    let d = decimal(n);
    let cut = law_trimming(text);
    let b = before.len() as int;
    let e = b + d.len();
    assert(is_digit(d[0]));
    assert(is_digit(d[d.len() - 1]));
    assert(text[b] == d[0]);
    assert(text[e - 1] == d[d.len() - 1]);
    assert(!is_white(text[b]) && !is_white(text[e - 1]));
    assert(cut.0 <= b && e <= cut.1);
    if cut.0 < b {
        assert(text[cut.0] == before[cut.0]);
    }
    if cut.1 > e {
        assert(text[cut.1 - 1] == after[cut.1 - 1 - e]);
    }
    assert(text.subrange(b, e) =~= d);
}

/// A line opens a virtio-scsi controller exactly where, after any indentation, it begins with the
/// tag and gives the type and the model of one, each in quotation marks of either kind.
pub proof fn law_controller_lines(indent: Seq<char>, tag: Seq<char>, line: Seq<char>)
    requires
        forall|i: int| 0 <= i < indent.len() ==> is_white(#[trigger] indent[i]),
        tag.len() > 0,
        !is_white(tag[0]),
        line == indent + tag,
    ensures
        opens_virtio_scsi(line) <==> {
            &&& stands_at(tag, "<controller"@, 0)
            &&& (exists|at: int| stands_at(tag, "type='scsi'"@, at)) || (exists|at: int|
                stands_at(tag, "type=\"scsi\""@, at))
            &&& (exists|at: int| stands_at(tag, "model='virtio-scsi'"@, at)) || (exists|at: int|
                stands_at(tag, "model=\"virtio-scsi\""@, at))
        },
{
    let cut = law_trimming_the_start(line);
    let n = indent.len() as int;
    assert(line[n] == tag[0]);
    assert(cut <= n);
    if cut < n {
        assert(line[cut] == indent[cut]);
    }
    assert(line.skip(n) =~= tag);
}

/// A description is one of a VM with a virtio-scsi controller exactly where one of its lines opens
/// one; more lines never take that away.
pub proof fn law_any_line_describes_the_controller(xml: Seq<char>, k: int)
    ensures
        0 <= k < lines_of(xml).len() && opens_virtio_scsi(lines_of(xml)[k])
            ==> describes_virtio_scsi(xml),
        describes_virtio_scsi(xml) ==> exists|i: int|
            0 <= i < lines_of(xml).len() && opens_virtio_scsi(#[trigger] lines_of(xml)[i]),
{
}

/// The number that an argument list gives to a key; none where it does not have the key.
pub open spec fn number_for(arguments: Seq<(Seq<char>, QmpValueView)>, key: Seq<char>) -> Option<i64>
    decreases arguments.len(),
{
    if arguments.len() == 0 {
        None
    } else if arguments.last().0 == key && arguments.last().1 is Number {
        Some(arguments.last().1->Number_0)
    } else {
        number_for(arguments.drop_last(), key)
    }
}

proof fn lemma_number_for(
    front: Seq<(Seq<char>, QmpValueView)>,
    key: Seq<char>,
    value: Option<i64>,
    wanted: Seq<char>,
)
    ensures
        number_for(front + optional_argument(key, value), wanted) == if key == wanted && value
            is Some {
            value
        } else {
            number_for(front, wanted)
        },
{
    let all = front + optional_argument(key, value);
    if value is Some {
        assert(all.drop_last() =~= front);
        assert(all.last() == (key, QmpValueView::Number(value->0)));
    } else {
        assert(all =~= front);
    }
}

/// Each property of an IOThread is sent under its own name with its own value, and not at all where
/// it is not set.
pub proof fn law_properties_are_sent_under_their_names(props: IoThreadProperties)
    ensures
        ({
            let sent = property_arguments(Some(props));
            &&& number_for(sent, "poll-max-ns"@) == props.poll_max_ns
            &&& number_for(sent, "poll-grow"@) == props.poll_grow
            &&& number_for(sent, "poll-shrink"@) == props.poll_shrink
            &&& number_for(sent, "aio-max-batch"@) == props.aio_max_batch
            &&& number_for(sent, "thread-pool-min"@) == props.thread_pool_min
            &&& number_for(sent, "thread-pool-max"@) == props.thread_pool_max
        }),
        property_arguments(None).len() == 0,
{
    let names = seq![
        "poll-max-ns"@,
        "poll-grow"@,
        "poll-shrink"@,
        "aio-max-batch"@,
        "thread-pool-min"@,
        "thread-pool-max"@,
    ];
    reveal_strlit("poll-max-ns");
    reveal_strlit("poll-grow");
    reveal_strlit("poll-shrink");
    reveal_strlit("aio-max-batch");
    reveal_strlit("thread-pool-min");
    reveal_strlit("thread-pool-max");
    assert("poll-max-ns"@[5] != "poll-shrink"@[5]);
    assert("aio-max-batch"@.len() == 13);
    assert("thread-pool-min"@[13] != "thread-pool-max"@[13]);
    assert forall|i: int, j: int| 0 <= i < 6 && 0 <= j < 6 && i != j implies names[i]
        != names[j] by {
        if names[i].len() == names[j].len() {
            assert(names[i][5] != names[j][5] || names[i][13] != names[j][13]);
        }
    }
    let a0 = Seq::<(Seq<char>, QmpValueView)>::empty();
    let a1 = optional_argument(names[0], props.poll_max_ns);
    let a2 = a1 + optional_argument(names[1], props.poll_grow);
    let a3 = a2 + optional_argument(names[2], props.poll_shrink);
    let a4 = a3 + optional_argument(names[3], props.aio_max_batch);
    let a5 = a4 + optional_argument(names[4], props.thread_pool_min);
    assert(a0 + a1 =~= a1);
    assert forall|k: int| 0 <= k < 6 implies number_for(
        property_arguments(Some(props)),
        #[trigger] names[k],
    ) == seq![
        props.poll_max_ns,
        props.poll_grow,
        props.poll_shrink,
        props.aio_max_batch,
        props.thread_pool_min,
        props.thread_pool_max,
    ][k] by {
        let w = names[k];
        lemma_number_for(a0, names[0], props.poll_max_ns, w);
        lemma_number_for(a1, names[1], props.poll_grow, w);
        lemma_number_for(a2, names[2], props.poll_shrink, w);
        lemma_number_for(a3, names[3], props.aio_max_batch, w);
        lemma_number_for(a4, names[4], props.thread_pool_min, w);
        lemma_number_for(a5, names[5], props.thread_pool_max, w);
        assert(number_for(a0, w) is None);
    }
    assert(names[0] == "poll-max-ns"@);
    assert(names[1] == "poll-grow"@);
    assert(names[2] == "poll-shrink"@);
    assert(names[3] == "aio-max-batch"@);
    assert(names[4] == "thread-pool-min"@);
    assert(names[5] == "thread-pool-max"@);
}

} // verus!
