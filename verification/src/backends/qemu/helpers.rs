//! Shared QEMU helpers.
//!
//! Everything here is transport-neutral: metrics-body topology parsing,
//! per-task tick samples, virtqueue round-robin, IOThread id allocation, and
//! the [`QemuError`] shape used by the QMP transport.

use std::collections::HashMap;

use vstd::prelude::*;
use vstd::std_specs::hash::into_iter_keys;
use vstd::string::StringExecFns;

use crate::backends::{
    transport_view, BackendClientError, ClientErrorView, IoErrorKind, IoFailure, VqMapping,
};
use crate::binary64::Binary64;
use crate::figures::{
    average_share, average_share_of, busy_share_of, law_average_of_one_task,
    law_average_share_is_unit,
};
use crate::numerals::{
    decimal, decimal_text, integer_value, is_digit, law_decimal_distinct, law_decimal_reads_back,
    law_signs_of_numerals, parse_i32,
};
use crate::ordered::OrderedMap;
use crate::patterns::{
    is_managed_id, metric_captures, metric_groups, pattern_matches, IOTHREAD_INFO, MANAGED_ID,
    SCSI_NUM_QUEUES,
};
use crate::quantity::{count_of, law_plain_numeral_counts, lemma_count_fits, read_count};
use crate::registry::{law_append_is_local, law_update_is_local, Registry};
use crate::text::{
    begins_with, find_char, first_index, from_chars, is_white, law_splitting_off_the_first,
    law_stripping, lemma_first_index, lemma_trimmed_already, lines, lines_of, part, pieces, split, strip_char, stripped,
    texts, to_chars, trim, trimmed, views,
};

verus! {

/// Errors produced while querying or reconfiguring a QEMU vm.
#[derive(Debug, Clone)]
pub enum QemuError {
    /// A prior transport failure made the client unusable.
    Broken,
    /// Host-side I/O or libvirt transport failure.
    Io(IoFailure),
    /// Structured error returned by QMP.
    QmpError {
        /// QMP command that failed.
        cmd: String,
        /// QMP error class.
        class: String,
        /// Human-readable QMP error description.
        desc: String,
    },
    /// Malformed or incomplete backend data.
    Parse(String),
}

/// The text content of a [`QemuError`].
pub enum QemuErrorView {
    /// A broken client.
    Broken,
    /// An I/O failure.
    Io {
        /// Kind of failure.
        kind: IoErrorKind,
        /// Rendered failure.
        message: Seq<char>,
    },
    /// A QMP error.
    QmpError {
        /// QMP command that failed.
        cmd: Seq<char>,
        /// QMP error class.
        class: Seq<char>,
        /// Error description.
        desc: Seq<char>,
    },
    /// Malformed data.
    Parse(Seq<char>),
}

impl View for QemuError {
    type V = QemuErrorView;

    open spec fn view(&self) -> QemuErrorView {
        match *self {
            QemuError::Broken => QemuErrorView::Broken,
            QemuError::Io(e) => QemuErrorView::Io { kind: e.kind, message: e.message@ },
            QemuError::QmpError { cmd, class, desc } => QemuErrorView::QmpError {
                cmd: cmd@,
                class: class@,
                desc: desc@,
            },
            QemuError::Parse(s) => QemuErrorView::Parse(s@),
        }
    }
}

impl QemuErrorView {
    /// The client failure that a QEMU error becomes.
    pub open spec fn as_client_error(self) -> ClientErrorView {
        match self {
            QemuErrorView::Broken => ClientErrorView::Transport("qemu client broken"@),
            QemuErrorView::Io { kind, message } => transport_view(kind, "io"@ + ": "@ + message),
            QemuErrorView::QmpError { cmd, class, desc } => ClientErrorView::QmpError {
                cmd,
                class,
                desc,
            },
            QemuErrorView::Parse(s) => ClientErrorView::Protocol(s),
        }
    }

    /// The rendered error.
    pub open spec fn rendered(self) -> Seq<char> {
        match self {
            QemuErrorView::Broken => "qemu client is broken"@,
            QemuErrorView::Io { kind, message } => "io: "@ + message,
            QemuErrorView::QmpError { cmd, class, desc } => "qmp "@ + cmd + " error: "@ + class
                + ": "@ + desc,
            QemuErrorView::Parse(s) => "parse: "@ + s,
        }
    }
}

impl QemuError {
    /// The backend-neutral failure that this error becomes.
    pub fn into_client_error(self) -> (r: BackendClientError)
        ensures
            r@ == self@.as_client_error(),
    {
        match self {
            QemuError::Broken => BackendClientError::Transport("qemu client broken".to_owned()),
            QemuError::Io(e) => BackendClientError::from_transport_io("io", &e),
            QemuError::QmpError { cmd, class, desc } => BackendClientError::QmpError {
                cmd,
                class,
                desc,
            },
            QemuError::Parse(s) => BackendClientError::Protocol(s),
        }
    }

    /// Render the error for people.
    pub fn message(&self) -> (r: String)
        ensures
            r@ == self@.rendered(),
    {
        match self {
            QemuError::Broken => "qemu client is broken".to_owned(),
            QemuError::Io(e) => "io: ".to_owned().concat(e.message.as_str()),
            QemuError::QmpError { cmd, class, desc } => "qmp ".to_owned().concat(
                cmd.as_str(),
            ).concat(" error: ").concat(class.as_str()).concat(": ").concat(desc.as_str()),
            QemuError::Parse(s) => "parse: ".to_owned().concat(s.as_str()),
        }
    }
}

// ---------------------------------------------------------------------
// Topology parser
// ---------------------------------------------------------------------

/// The key and the value of one label, if it has an `=`: both trimmed, the value
/// without the quotation marks around it.
pub open spec fn label_pair(piece: Seq<char>) -> Option<(Seq<char>, Seq<char>)> {
    let kv = trimmed(piece);
    let eq = first_index(kv, '=');
    if eq < kv.len() {
        Some((trimmed(kv.take(eq)), stripped(trimmed(kv.skip(eq + 1)), '"')))
    } else {
        None
    }
}

/// The value of the last label with the key.
pub open spec fn last_label(labels: Seq<Seq<char>>, key: Seq<char>) -> Option<Seq<char>>
    decreases labels.len(),
{
    if labels.len() == 0 {
        None
    } else if label_pair(labels.last()) is Some && (label_pair(labels.last())->0).0 == key {
        Some((label_pair(labels.last())->0).1)
    } else {
        last_label(labels.drop_last(), key)
    }
}

/// The value that a comma-separated label list gives to a key.
pub open spec fn label_value(labels: Seq<char>, key: Seq<char>) -> Option<Seq<char>> {
    last_label(pieces(labels, ','), key)
}

/// The value of the first key, or else of the second, or else nothing.
pub open spec fn label_or(labels: Seq<char>, first: Seq<char>, second: Seq<char>) -> Seq<char> {
    match label_value(labels, first) {
        Some(v) => v,
        None => match label_value(labels, second) {
            Some(v) => v,
            None => seq![],
        },
    }
}

/// One line of a metrics body, as far as the topology is concerned.
#[derive(Debug, Clone)]
pub enum MetricLine {
    /// Describes an IOThread.
    IoThread {
        /// Label list.
        labels: String,
    },
    /// Describes a virtio-scsi device.
    Queues {
        /// Label list.
        labels: String,
        /// Number of queues, as written.
        value: String,
    },
    /// Anything else.
    Other,
}

/// The text content of a [`MetricLine`].
pub enum MetricLineView {
    /// Describes an IOThread.
    IoThread {
        /// Label list.
        labels: Seq<char>,
    },
    /// Describes a virtio-scsi device.
    Queues {
        /// Label list.
        labels: Seq<char>,
        /// Number of queues, as written.
        value: Seq<char>,
    },
    /// Anything else.
    Other,
}

impl View for MetricLine {
    type V = MetricLineView;

    open spec fn view(&self) -> MetricLineView {
        match *self {
            MetricLine::IoThread { labels } => MetricLineView::IoThread { labels: labels@ },
            MetricLine::Queues { labels, value } => MetricLineView::Queues {
                labels: labels@,
                value: value@,
            },
            MetricLine::Other => MetricLineView::Other,
        }
    }
}

/// What a line of a metrics body describes; comments describe nothing.
pub open spec fn metric_line(line: Seq<char>) -> MetricLineView {
    let iothread = metric_groups("qemu_iothread_info"@, line);
    let queues = metric_groups("qemu_virtio_scsi_num_queues"@, line);
    if line.len() > 0 && line[0] == '#' {
        MetricLineView::Other
    } else if iothread is Some {
        MetricLineView::IoThread { labels: (iothread->0).0 }
    } else if queues is Some {
        MetricLineView::Queues { labels: (queues->0).0, value: (queues->0).1 }
    } else {
        MetricLineView::Other
    }
}

impl MetricLine {
    /// Read one line of a metrics body.
    pub fn read(line: &str) -> (r: Self)
        ensures
            r@ == metric_line(line@),
    {
        let chars = to_chars(line);
        if chars.len() > 0 && chars[0] == '#' {
            return MetricLine::Other;
        }
        match metric_captures(IOTHREAD_INFO, line) {
            Some(groups) => {
                return MetricLine::IoThread { labels: groups.0 };
            },
            None => {},
        }
        match metric_captures(SCSI_NUM_QUEUES, line) {
            Some(groups) => MetricLine::Queues { labels: groups.0, value: groups.1 },
            None => MetricLine::Other,
        }
    }
}

/// The identifier and the task of a managed IOThread that a label list names.
pub open spec fn iothread_entry(labels: Seq<char>) -> Option<(Seq<char>, i32)> {
    let id = label_value(labels, "id"@);
    let tid = integer_value(label_or(labels, "tid"@, "thread_id"@));
    if id is Some && is_managed_id(id->0) && tid is Some && i32::MIN <= tid->0 <= i32::MAX {
        Some((id->0, tid->0 as i32))
    } else {
        None
    }
}

/// What a metrics body says of the topology.
pub struct TopologyView {
    /// Host task ID for each managed IOThread.
    pub tids: Map<Seq<char>, i32>,
    /// QOM path of the managed virtio-scsi device.
    pub device_path: Seq<char>,
    /// Number of command virtqueues exposed by the device.
    pub vq_count: u16,
}

impl TopologyView {
    /// Nothing known.
    pub open spec fn unknown() -> TopologyView {
        TopologyView { tids: Map::empty(), device_path: seq![], vq_count: 0 }
    }

    /// What is known after one more line: a later line for the same IOThread
    /// wins, and the first device with a path and a readable count stays.
    pub open spec fn after(self, line: MetricLineView) -> TopologyView {
        match line {
            MetricLineView::IoThread { labels } => match iothread_entry(labels) {
                Some(entry) => TopologyView { tids: self.tids.insert(entry.0, entry.1), ..self },
                None => self,
            },
            MetricLineView::Queues { labels, value } => {
                let path = label_or(labels, "device"@, "path"@);
                if self.device_path.len() > 0 || path.len() == 0 || count_of(value) is None {
                    self
                } else {
                    TopologyView {
                        device_path: path,
                        vq_count: count_of(value)->0 as u16,
                        ..self
                    }
                }
            },
            MetricLineView::Other => self,
        }
    }

    /// What is known after a run of lines.
    pub open spec fn after_all(lines: Seq<MetricLineView>) -> TopologyView
        decreases lines.len(),
    {
        if lines.len() == 0 {
            TopologyView::unknown()
        } else {
            TopologyView::after_all(lines.drop_last()).after(lines.last())
        }
    }
}

/// What the lines of a metrics body describe.
pub open spec fn metric_lines(body: Seq<char>) -> Seq<MetricLineView> {
    lines_of(body).map_values(|line: Seq<char>| metric_line(line))
}

/// The text content of a run of metrics lines.
pub open spec fn line_views(read: Seq<MetricLine>) -> Seq<MetricLineView> {
    read.map_values(|line: MetricLine| line@)
}

/// IOThread and virtio-scsi topology parsed from QEMU metrics.
#[derive(Debug)]
pub struct QemuTopology {
    /// Sorted managed IOThread object identifiers.
    pub iothreads: Vec<String>,
    /// Host task ID for each managed IOThread.
    pub iothread_tids: OrderedMap<i32>,
    /// QOM path of the managed virtio-scsi device.
    pub device_path: String,
    /// Number of command virtqueues exposed by the device.
    pub vq_count: u16,
}

impl View for QemuTopology {
    type V = TopologyView;

    open spec fn view(&self) -> TopologyView {
        TopologyView {
            tids: self.iothread_tids@,
            device_path: self.device_path@,
            vq_count: self.vq_count,
        }
    }
}

impl Default for QemuTopology {
    fn default() -> (r: Self)
        ensures
            r.wf(),
            r@ == TopologyView::unknown(),
            r.iothreads@.len() == 0,
    {
        let r = QemuTopology {
            iothreads: Vec::new(),
            iothread_tids: OrderedMap::new(),
            device_path: String::new(),
            vq_count: 0,
        };
        assert(texts(r.iothreads@) =~= r.iothread_tids.ids());
        assert(r.device_path@ =~= Seq::<char>::empty());
        r
    }
}

impl QemuTopology {
    /// The identifiers are exactly those with a task, in ascending order.
    pub open spec fn wf(&self) -> bool {
        &&& self.iothread_tids.wf()
        &&& texts(self.iothreads@) == self.iothread_tids.ids()
    }

    /// Parse a label list into unquoted key/value pairs.
    pub fn parse_qemu_labels(labels: &str) -> (r: Registry<String>)
        ensures
            r.wf(),
            forall|key: Seq<char>|
                #![trigger r.lookup(key)]
                match label_value(labels@, key) {
                    Some(v) => r.lookup(key) is Some && r.lookup(key)->0@ == v,
                    None => r.lookup(key) is None,
                },
    {
        let found = split(&to_chars(labels), ',');
        let mut out: Registry<String> = Registry::new();
        let ghost all = views(found@);
        let mut i: usize = 0;
        while i < found.len()
            invariant
                i <= found.len(),
                all == views(found@),
                out.wf(),
                forall|key: Seq<char>|
                    #![trigger out.lookup(key)]
                    match last_label(all.take(i as int), key) {
                        Some(v) => out.lookup(key) is Some && out.lookup(key)->0@ == v,
                        None => out.lookup(key) is None,
                    },
            decreases found.len() - i,
        {
            let kv = trim(&found[i]);
            let eq: usize = find_char(&kv, 0, '=');
            let ghost before = out;
            proof {
                assert(all[i as int] == found@[i as int]@);
                assert(kv@.skip(0) =~= kv@);
                assert(all.take(i + 1).last() == all[i as int]);
                assert(all.take(i + 1).drop_last() =~= all.take(i as int));
            }
            if eq < kv.len() {
                let key = from_chars(&trim(&part(&kv, 0, eq)));
                let value = from_chars(&strip_char(&trim(&part(&kv, eq + 1, kv.len())), '"'));
                proof {
                    assert(kv@.subrange(0, eq as int) =~= kv@.take(eq as int));
                    assert(kv@.subrange(eq + 1, kv@.len() as int) =~= kv@.skip(eq + 1));
                    assert(label_pair(all[i as int]) == Some((key@, value@)));
                }
                out.insert(key, value);
                proof {
                    if before.has(key@) {
                        law_update_is_local(before, out, key@, value);
                    } else {
                        law_append_is_local(before, out, key@, value);
                    }
                    assert forall|k: Seq<char>| #![trigger out.lookup(k)] true implies match last_label(
                        all.take(i + 1),
                        k,
                    ) {
                        Some(v) => out.lookup(k) is Some && out.lookup(k)->0@ == v,
                        None => out.lookup(k) is None,
                    } by {
                        assert(before.lookup(k) == before.lookup(k));
                    }
                }
            } else {
                assert(label_pair(all[i as int]) is None);
            }
            i += 1;
        }
        assert(all.take(i as int) =~= all);
        out
    }

    fn label_text(labels: &Registry<String>, first: &str, second: &str) -> (r: String)
        requires
            labels.wf(),
        ensures
            r@ == match labels.lookup(first@) {
                Some(v) => v@,
                None => match labels.lookup(second@) {
                    Some(v) => v@,
                    None => seq![],
                },
            },
    {
        match labels.get(first) {
            Some(v) => v.clone(),
            None => match labels.get(second) {
                Some(v) => v.clone(),
                None => {
                    let r = String::new();
                    assert(r@ =~= Seq::<char>::empty());
                    r
                },
            },
        }
    }

    /// The managed IOThread that a label list names.
    fn read_iothread(labels: &str) -> (r: Option<(String, i32)>)
        ensures
            match iothread_entry(labels@) {
                Some(entry) => r is Some && (r->0).0@ == entry.0 && (r->0).1 == entry.1,
                None => r is None,
            },
    {
        let found = QemuTopology::parse_qemu_labels(labels);
        let id = match found.get("id") {
            Some(id) => id.clone(),
            None => {
                return None;
            },
        };
        if !pattern_matches(MANAGED_ID, id.as_str()) {
            return None;
        }
        let tid_text = QemuTopology::label_text(&found, "tid", "thread_id");
        match parse_i32(&to_chars(tid_text.as_str())) {
            Some(tid) => Some((id, tid)),
            None => None,
        }
    }

    /// Collect the topology from classified metrics lines.
    pub fn from_lines(read: &Vec<MetricLine>) -> (r: Self)
        ensures
            r.wf(),
            r@ == TopologyView::after_all(line_views(read@)),
    {
        let mut topo = QemuTopology::default();
        let ghost all = line_views(read@);
        let mut i: usize = 0;
        while i < read.len()
            invariant
                i <= read.len(),
                all == line_views(read@),
                topo.iothread_tids.wf(),
                topo@ == TopologyView::after_all(all.take(i as int)),
            decreases read.len() - i,
        {
            proof {
                assert(all[i as int] == read@[i as int]@);
                assert(all.take(i + 1).last() == all[i as int]);
                assert(all.take(i + 1).drop_last() =~= all.take(i as int));
            }
            match &read[i] {
                MetricLine::IoThread { labels } => {
                    match QemuTopology::read_iothread(labels.as_str()) {
                        Some(entry) => {
                            topo.iothread_tids.insert(entry.0, entry.1);
                        },
                        None => {},
                    }
                },
                MetricLine::Queues { labels, value } => {
                    if topo.device_path.as_str().is_empty() {
                        let found = QemuTopology::parse_qemu_labels(labels.as_str());
                        let path = QemuTopology::label_text(&found, "device", "path");
                        if !path.as_str().is_empty() {
                            match read_count(&to_chars(value.as_str())) {
                                Some(count) => {
                                    topo.device_path = path;
                                    topo.vq_count = count;
                                },
                                None => {},
                            }
                        }
                    }
                },
                MetricLine::Other => {},
            }
            i += 1;
        }
        assert(all.take(i as int) =~= all);
        let mut ids: Vec<String> = Vec::new();
        let mut k: usize = 0;
        while k < topo.iothread_tids.len()
            invariant
                topo.iothread_tids.wf(),
                k <= topo.iothread_tids.ids().len(),
                texts(ids@) == topo.iothread_tids.ids().take(k as int),
            decreases topo.iothread_tids.ids().len() - k,
        {
            let id = topo.iothread_tids.id_at(k).clone();
            let ghost before = ids@;
            ids.push(id);
            assert(texts(ids@) =~= texts(before).push(id@));
            k += 1;
        }
        assert(topo.iothread_tids.ids().take(k as int) =~= topo.iothread_tids.ids());
        topo.iothreads = ids;
        topo
    }

    /// Parse managed IOThreads and virtio-scsi queue data from QEMU metrics.
    pub fn new(body: &str) -> (r: Self)
        ensures
            r.wf(),
            r@ == TopologyView::after_all(metric_lines(body@)),
    {
        let split_lines = lines(&to_chars(body));
        let ghost all = lines_of(body@);
        let mut read: Vec<MetricLine> = Vec::new();
        let mut i: usize = 0;
        while i < split_lines.len()
            invariant
                i <= split_lines.len(),
                all == views(split_lines@),
                read@.len() == i,
                forall|j: int| 0 <= j < i ==> (#[trigger] read@[j])@ == metric_line(all[j]),
            decreases split_lines.len() - i,
        {
            assert(all[i as int] == split_lines@[i as int]@);
            read.push(MetricLine::read(from_chars(&split_lines[i]).as_str()));
            i += 1;
        }
        assert(line_views(read@) =~= metric_lines(body@));
        QemuTopology::from_lines(&read)
    }
}

/// Every IOThread of a topology is a managed one.
pub proof fn law_topology_is_managed(lines: Seq<MetricLineView>, id: Seq<char>)
    requires
        TopologyView::after_all(lines).tids.dom().contains(id),
    ensures
        is_managed_id(id),
    decreases lines.len(),
{
    if lines.len() > 0 {
        let front = TopologyView::after_all(lines.drop_last());
        if front.tids.dom().contains(id) {
            law_topology_is_managed(lines.drop_last(), id);
        }
    }
}

/// Once a device is known, further lines change neither its path nor its count.
pub proof fn law_first_device_stays(lines: Seq<MetricLineView>, more: Seq<MetricLineView>)
    requires
        TopologyView::after_all(lines).device_path.len() > 0,
    ensures
        TopologyView::after_all(lines + more).device_path == TopologyView::after_all(
            lines,
        ).device_path,
        TopologyView::after_all(lines + more).vq_count == TopologyView::after_all(lines).vq_count,
    decreases more.len(),
{
    if more.len() == 0 {
        assert(lines + more =~= lines);
    } else {
        law_first_device_stays(lines, more.drop_last());
        assert((lines + more).drop_last() =~= lines + more.drop_last());
    }
}

/// While no device is known, there are no virtqueues.
pub proof fn law_no_device_no_queues(lines: Seq<MetricLineView>)
    ensures
        TopologyView::after_all(lines).device_path.len() == 0 ==> TopologyView::after_all(
            lines,
        ).vq_count == 0,
    decreases lines.len(),
{
    if lines.len() > 0 {
        law_no_device_no_queues(lines.drop_last());
    }
}

/// The topology that lines of a metrics body describe.
pub open spec fn described(lines: Seq<Seq<char>>) -> TopologyView {
    TopologyView::after_all(lines.map_values(|line: Seq<char>| metric_line(line)))
}

proof fn lemma_other_line(before: Seq<MetricLineView>, rest: Seq<MetricLineView>)
    ensures
        TopologyView::after_all(before.push(MetricLineView::Other) + rest)
            == TopologyView::after_all(before + rest),
    decreases rest.len(),
{
    let other = before.push(MetricLineView::Other);
    if rest.len() == 0 {
        assert(other + rest =~= other);
        assert(before + rest =~= before);
        assert(other.drop_last() =~= before);
    } else {
        lemma_other_line(before, rest.drop_last());
        assert((other + rest).drop_last() =~= other + rest.drop_last());
        assert((before + rest).drop_last() =~= before + rest.drop_last());
    }
}

/// A comment, or a line that begins with the name and the opening brace of neither
/// metric, changes no topology, wherever it stands.
pub proof fn law_unrelated_lines_change_nothing(
    before: Seq<Seq<char>>,
    line: Seq<char>,
    rest: Seq<Seq<char>>,
)
    requires
        (line.len() > 0 && line[0] == '#') || (!begins_with(line, "qemu_iothread_info"@ + "{"@)
            && !begins_with(line, "qemu_virtio_scsi_num_queues"@ + "{"@)),
    ensures
        described(before.push(line) + rest) == described(before + rest),
{
    let read = |l: Seq<char>| metric_line(l);
    assert(metric_line(line) == MetricLineView::Other);
    lemma_other_line(before.map_values(read), rest.map_values(read));
    assert((before.push(line) + rest).map_values(read) =~= before.map_values(read).push(
        MetricLineView::Other,
    ) + rest.map_values(read));
    assert((before + rest).map_values(read) =~= before.map_values(read) + rest.map_values(read));
}

// ---------------------------------------------------------------------
// Per-task CPU counters
// ---------------------------------------------------------------------

/// The counters that a run of entries gives to tasks; a later entry wins.
pub open spec fn ticks_map(entries: Seq<(i32, u64)>) -> Map<i32, u64>
    decreases entries.len(),
{
    if entries.len() == 0 {
        Map::empty()
    } else {
        ticks_map(entries.drop_last()).insert(entries.last().0, entries.last().1)
    }
}

/// User and system ticks of one task.
#[derive(Debug, Clone, Copy, PartialEq, Eq, Structural)]
pub struct TaskTicks {
    /// Ticks spent in user mode.
    pub utime: u64,
    /// Ticks spent in kernel mode.
    pub stime: u64,
}

/// Per-IOThread cumulative CPU counters sampled at one wall-clock instant.
#[derive(Debug)]
pub struct CpuSample {
    /// Cumulative user-plus-system jiffies keyed by host task ID.
    pub jiffies: HashMap<i32, u64>,
    /// Wall-clock time at which the counters were sampled, in nanoseconds.
    pub wall: u128,
}

/// The entries that the tasks of a table and their ticks make.
pub open spec fn task_entries(tids: Seq<i32>, readings: Seq<TaskTicks>) -> Seq<(i32, u64)> {
    Seq::new(
        tids.len(),
        |i: int| (tids[i], (readings[i].utime + readings[i].stime) as u64),
    )
}

/// Whether a walk over the counters comes to each task once.
pub open spec fn walks(order: Seq<i32>, jiffies: Map<i32, u64>) -> bool {
    order.no_duplicates() && order.to_set() == jiffies.dom()
}

/// The counter increases of the tasks that two samples share, in the order of a walk
/// over the later one; a task whose counter went back is left out.
pub open spec fn shared_deltas(
    earlier: Map<i32, u64>,
    later: Map<i32, u64>,
    order: Seq<i32>,
) -> Seq<u64>
    decreases order.len(),
{
    if order.len() == 0 {
        seq![]
    } else {
        let front = shared_deltas(earlier, later, order.drop_last());
        let tid = order.last();
        if earlier.contains_key(tid) && earlier[tid] <= later[tid] {
            front.push((later[tid] - earlier[tid]) as u64)
        } else {
            front
        }
    }
}

impl CpuSample {
    /// The average fraction of the time between two samples that the tasks in both
    /// ran for, summed up in the order of a walk over the later one; 0 if no time has
    /// passed or they share no task.
    pub open spec fn average_between(
        earlier: CpuSample,
        later: CpuSample,
        hz: u64,
        order: Seq<i32>,
    ) -> Binary64 {
        if later.wall <= earlier.wall {
            Binary64::zero_spec()
        } else {
            average_share_of(
                shared_deltas(earlier.jiffies@, later.jiffies@, order),
                hz,
                (later.wall - earlier.wall) as u128,
            )
        }
    }

    /// Whether a fraction is the average between two samples, over some walk.
    pub open spec fn is_average(
        util: Binary64,
        earlier: CpuSample,
        later: CpuSample,
        hz: u64,
    ) -> bool {
        exists|order: Seq<i32>| #[trigger]
            walks(order, later.jiffies@) && util == CpuSample::average_between(
                earlier,
                later,
                hz,
                order,
            )
    }

    /// Sample cumulative CPU jiffies for every discovered IOThread task, from the
    /// ticks read for each task in the order of the identifiers.
    pub fn new(
        iothread_tids: &OrderedMap<i32>,
        readings: &Vec<TaskTicks>,
        wall: u128,
    ) -> (r: Self)
        requires
            iothread_tids.wf(),
            readings@.len() == iothread_tids.ids().len(),
            forall|i: int|
                0 <= i < readings@.len() ==> (#[trigger] readings@[i]).utime + readings@[i].stime
                    <= u64::MAX,
        ensures
            r.wall == wall,
            r.jiffies@ == ticks_map(task_entries(iothread_tids.vals(), readings@)),
    {
        broadcast use vstd::std_specs::hash::group_hash_axioms;

        let mut jiffies: HashMap<i32, u64> = HashMap::new();
        let ghost entries = task_entries(iothread_tids.vals(), readings@);
        let mut i: usize = 0;
        while i < readings.len()
            invariant
                iothread_tids.wf(),
                readings@.len() == iothread_tids.ids().len(),
                forall|j: int|
                    0 <= j < readings@.len() ==> (#[trigger] readings@[j]).utime
                        + readings@[j].stime <= u64::MAX,
                i <= readings.len(),
                entries == task_entries(iothread_tids.vals(), readings@),
                jiffies@ == ticks_map(entries.take(i as int)),
            decreases readings.len() - i,
        {
            let reading = readings[i];
            let ticks: u64 = reading.utime + reading.stime;
            let tid: i32 = *iothread_tids.value_at(i);
            proof {
                assert(entries[i as int] == (tid, ticks));
                assert(entries.take(i + 1).drop_last() =~= entries.take(i as int));
                assert(entries.take(i + 1).last() == entries[i as int]);
            }
            jiffies.insert(tid, ticks);
            i += 1;
        }
        assert(entries.take(i as int) =~= entries);
        CpuSample { jiffies, wall }
    }

    /// Average per-IOThread CPU utilisation between two samples, from the number of
    /// jiffies in a second. The order in which the tasks are summed up is that of a walk
    /// over the map, which is left open: rounding can make a difference in the last
    /// digits.
    pub fn diff_jiffies_sample(prev: &Self, cur: &Self, hz: u64) -> (r: Binary64)
        requires
            hz > 0,
        ensures
            CpuSample::is_average(r, *prev, *cur, hz),
    {
        broadcast use vstd::std_specs::hash::group_hash_axioms;

        let tids = cur.jiffies.keys();
        let ghost order = into_iter_keys(tids);
        assert(walks(order, cur.jiffies@));
        if cur.wall <= prev.wall {
            return Binary64::zero();
        }
        let elapsed_ns: u128 = cur.wall - prev.wall;
        let mut deltas: Vec<u64> = Vec::new();
        for tid in it: tids
            invariant
                it.seq().unref() == order,
                walks(order, cur.jiffies@),
                deltas@ == shared_deltas(
                    prev.jiffies@,
                    cur.jiffies@,
                    order.take(it.index()),
                ),
        {
            proof {
                assert(*tid == order[it.index()]);
                assert(order.to_set().contains(*tid));
                assert(order.take(it.index() + 1).drop_last() =~= order.take(it.index()));
                assert(order.take(it.index() + 1).last() == *tid);
            }
            match (cur.jiffies.get(tid), prev.jiffies.get(tid)) {
                (Some(after), Some(before)) => {
                    if *after >= *before {
                        deltas.push(*after - *before);
                    }
                },
                _ => {},
            }
        }
        assert(order.take(order.len() as int) =~= order);
        average_share(&deltas, hz, elapsed_ns)
    }
}

proof fn lemma_shared_count(earlier: Map<i32, u64>, later: Map<i32, u64>, order: Seq<i32>)
    ensures
        shared_deltas(earlier, later, order).len() <= order.len(),
    decreases order.len(),
{
    if order.len() > 0 {
        lemma_shared_count(earlier, later, order.drop_last());
    }
}

/// There are no more tasks than 32-bit numbers.
proof fn lemma_task_count(order: Seq<i32>)
    requires
        order.no_duplicates(),
    ensures
        order.len() <= 0x1_0000_0000,
{
    let numbers = order.map_values(|tid: i32| tid as int);
    let range = vstd::set_lib::set_int_range(i32::MIN as int, i32::MAX + 1);
    vstd::set_lib::lemma_int_range(i32::MIN as int, i32::MAX + 1);
    assert(numbers.no_duplicates());
    numbers.unique_seq_to_set();
    assert forall|n: int| #[trigger] numbers.to_set().contains(n) implies range.contains(n) by {
        let at = numbers.index_of(n);
        assert(n == order[at] as int);
    }
    vstd::set_lib::lemma_len_subset(numbers.to_set(), range);
}

/// The average utilisation between two samples is in `[0, 1]`, in whatever order the
/// tasks are summed up.
pub proof fn law_sampled_util_is_unit(
    util: Binary64,
    earlier: CpuSample,
    later: CpuSample,
    hz: u64,
)
    requires
        CpuSample::is_average(util, earlier, later, hz),
    ensures
        util.in_unit(),
{
    let order = choose|order: Seq<i32>| #[trigger]
        walks(order, later.jiffies@) && util == CpuSample::average_between(
            earlier,
            later,
            hz,
            order,
        );
    lemma_task_count(order);
    lemma_shared_count(earlier.jiffies@, later.jiffies@, order);
    if later.wall > earlier.wall {
        law_average_share_is_unit(
            shared_deltas(earlier.jiffies@, later.jiffies@, order),
            hz,
            (later.wall - earlier.wall) as u128,
        );
    }
}

// ---------------------------------------------------------------------
// Virtqueue mapping helpers
// ---------------------------------------------------------------------

/// How many of `count` virtqueues go to the IOThread at index `i` of `n`.
pub open spec fn share_len(i: int, n: int, count: int) -> nat {
    if i < count {
        ((count - i - 1) / n + 1) as nat
    } else {
        0
    }
}

/// The virtqueues of the IOThread at index `i` of `n`: every `n`-th one from `i`.
pub open spec fn share(i: int, n: int, count: int) -> Seq<u16> {
    Seq::new(share_len(i, n, count), |j: int| (i + j * n) as u16)
}

/// Assign virtqueues evenly across IOThreads in round-robin order.
pub fn round_robin_vq_mapping(iothread_ids: &[String], vq_count: u16) -> (r: Vec<VqMapping>)
    ensures
        vq_count == 0 ==> r@.len() == 0,
        vq_count > 0 ==> r@.len() == iothread_ids@.len(),
        forall|i: int|
            0 <= i < r@.len() ==> (#[trigger] r@[i])@ == (
                iothread_ids@[i]@,
                share(i, iothread_ids@.len() as int, vq_count as int),
            ),
{
    let mut mapping: Vec<VqMapping> = Vec::new();
    if vq_count == 0 {
        return mapping;
    }
    let n: usize = iothread_ids.len();
    let mut i: usize = 0;
    while i < n
        invariant
            i <= n,
            n == iothread_ids@.len(),
            mapping@.len() == i,
            forall|k: int|
                0 <= k < i ==> (#[trigger] mapping@[k])@ == (
                    iothread_ids@[k]@,
                    share(k, n as int, vq_count as int),
                ),
        decreases n - i,
    {
        let vqs = round_robin_share(i, n, vq_count);
        mapping.push(VqMapping { iothread: iothread_ids[i].clone(), vqs });
        i += 1;
    }
    mapping
}

fn round_robin_share(i: usize, n: usize, vq_count: u16) -> (r: Vec<u16>)
    requires
        i < n,
    ensures
        r@ == share(i as int, n as int, vq_count as int),
{
    let mut vqs: Vec<u16> = Vec::new();
    let count: usize = vq_count as usize;
    if i >= count {
        return vqs;
    }
    let mut vq: usize = i;
    let ghost target = share(i as int, n as int, vq_count as int);
    let ghost last = (count - i - 1) / (n as int);
    proof {
        vstd::arithmetic::div_mod::lemma_fundamental_div_mod(count - i - 1, n as int);
        vstd::arithmetic::div_mod::lemma_div_pos_is_pos(count - i - 1, n as int);
        assert(i + 0 * n == i);
    }
    loop
        invariant
            i < n,
            vq < count,
            count == vq_count,
            target == share(i as int, n as int, count as int),
            last == (count - i - 1) / (n as int),
            last >= 0,
            count - i - 1 == n * last + (count - i - 1) % (n as int),
            0 <= (count - i - 1) % (n as int) < n,
            vqs@.len() <= last,
            vq == i + vqs@.len() * n,
            target.len() == last + 1,
            forall|j: int| 0 <= j < vqs@.len() ==> #[trigger] vqs@[j] == target[j],
        decreases count - vq,
    {
        let ghost k = vqs@.len() as int;
        vqs.push(vq as u16);
        assert(target[k] == (i + k * n) as u16);
        if n >= count - vq {
            proof {
                assert(k == last) by (nonlinear_arith)
                    requires
                        n >= count - (i + k * n),
                        count - i - 1 == n * last + (count - i - 1) % (n as int),
                        0 <= (count - i - 1) % (n as int),
                        k <= last,
                        n > 0,
                ;
            }
            assert(vqs@ =~= target);
            return vqs;
        }
        proof {
            assert(k + 1 <= last) by (nonlinear_arith)
                requires
                    n < count - (i + k * n),
                    count - i - 1 == n * last + (count - i - 1) % (n as int),
                    (count - i - 1) % (n as int) < n,
                    n > 0,
            ;
            assert((k + 1) * n == k * n + n) by (nonlinear_arith);
        }
        vq = vq + n;
    }
}

/// Every virtqueue belongs to exactly one IOThread: the one at its number modulo
/// the number of IOThreads.
pub proof fn law_each_queue_once(vq: int, n: int, count: int)
    requires
        n > 0,
        0 <= vq < count <= u16::MAX,
    ensures
        share(vq % n, n, count).contains(vq as u16),
        forall|i: int| 0 <= i < n && #[trigger] share(i, n, count).contains(vq as u16) ==> i == vq % n,
{
    let i = vq % n;
    let j = vq / n;
    vstd::arithmetic::div_mod::lemma_fundamental_div_mod(vq, n);
    vstd::arithmetic::div_mod::lemma_div_pos_is_pos(vq, n);
    assert(n * j == j * n) by (nonlinear_arith);
    lemma_share_index(i, n, count, j);
    assert(share(i, n, count)[j] == vq as u16);
    assert forall|k: int| 0 <= k < n && #[trigger] share(k, n, count).contains(
        vq as u16,
    ) implies k == vq % n by {
        let s = share(k, n, count);
        let at = s.index_of(vq as u16);
        lemma_share_value(k, n, count, at);
        assert(s[at] == (k + at * n) as u16);
        assert(vq == k + at * n);
        vstd::arithmetic::div_mod::lemma_mod_multiples_vanish(at, k, n);
        vstd::arithmetic::div_mod::lemma_small_mod(k as nat, n as nat);
        assert(n * at + k == k + at * n) by (nonlinear_arith);
    }
}

proof fn lemma_share_index(i: int, n: int, count: int, j: int)
    requires
        n > 0,
        0 <= i,
        0 <= j,
        i + j * n < count,
    ensures
        j < share_len(i, n, count),
{
    let m = count - i - 1;
    assert(j * n >= 0) by (nonlinear_arith)
        requires
            j >= 0,
            n > 0,
    ;
    vstd::arithmetic::div_mod::lemma_fundamental_div_mod(m, n);
    assert(j <= m / n) by (nonlinear_arith)
        requires
            j * n <= m,
            m == n * (m / n) + m % n,
            m % n < n,
            n > 0,
    ;
}

proof fn lemma_share_value(i: int, n: int, count: int, j: int)
    requires
        n > 0,
        0 <= i,
        0 <= j < share_len(i, n, count),
    ensures
        0 <= i + j * n < count,
{
    let m = count - i - 1;
    vstd::arithmetic::div_mod::lemma_fundamental_div_mod(m, n);
    assert(0 <= j * n <= m) by (nonlinear_arith)
        requires
            0 <= j <= m / n,
            m == n * (m / n) + m % n,
            m % n >= 0,
            n > 0,
    ;
}

/// The mapping is even: an earlier IOThread has as many virtqueues as a later one,
/// or one more.
pub proof fn law_shares_are_even(i: int, j: int, n: int, count: int)
    requires
        0 <= i <= j < n,
        0 <= count,
    ensures
        share(j, n, count).len() <= share(i, n, count).len() <= share(j, n, count).len() + 1,
{
    if i < count {
        let a = count - i - 1;
        let b = count - j - 1;
        vstd::arithmetic::div_mod::lemma_fundamental_div_mod(a, n);
        if j < count {
            vstd::arithmetic::div_mod::lemma_fundamental_div_mod(b, n);
            assert(b / n <= a / n && a / n <= b / n + 1) by (nonlinear_arith)
                requires
                    b <= a < b + n,
                    a == n * (a / n) + a % n,
                    b == n * (b / n) + b % n,
                    0 <= a % n < n,
                    0 <= b % n < n,
            ;
            vstd::arithmetic::div_mod::lemma_div_pos_is_pos(b, n);
        } else {
            assert(a < n);
            vstd::arithmetic::div_mod::lemma_basic_div(a, n);
        }
    }
}

// ---------------------------------------------------------------------
// IOThread identifiers
// ---------------------------------------------------------------------

/// The managed IOThread identifier with a number.
pub open spec fn iot_id(n: nat) -> Seq<char> {
    "iot"@ + decimal(n)
}

/// Whether `n` is the lowest number whose identifier is not in use.
pub open spec fn lowest_free(existing: Seq<Seq<char>>, n: nat) -> bool {
    &&& !existing.contains(iot_id(n))
    &&& forall|m: nat| m < n ==> existing.contains(#[trigger] iot_id(m))
}

/// Return the lowest unused managed IOThread identifier.
pub fn next_qemu_iothread_id(existing: &[String]) -> (r: String)
    ensures
        exists|n: nat| #[trigger] lowest_free(texts(existing@), n) && r@ == iot_id(n),
{
    let ghost used = texts(existing@);
    let mut n: u64 = 0;
    loop
        invariant
            used == texts(existing@),
            n <= existing@.len(),
            forall|m: nat| m < n ==> used.contains(#[trigger] iot_id(m)),
        decreases existing@.len() - n,
    {
        let candidate = "iot".to_owned().concat(decimal_text(n).as_str());
        let mut taken = false;
        let mut i: usize = 0;
        while i < existing.len() && !taken
            invariant
                i <= existing.len(),
                used == texts(existing@),
                candidate@ == iot_id(n as nat),
                taken ==> used.contains(candidate@),
                !taken ==> forall|j: int| 0 <= j < i ==> #[trigger] used[j] != candidate@,
            decreases existing.len() - i, !taken as int,
        {
            assert(used[i as int] == existing@[i as int]@);
            if existing[i] == candidate {
                taken = true;
            } else {
                i += 1;
            }
        }
        if !taken {
            assert(lowest_free(used, n as nat));
            return candidate;
        }
        proof {
            assert forall|m: nat| m < n + 1 implies used.contains(#[trigger] iot_id(m)) by {
                if m == n {
                    assert(iot_id(m) == candidate@);
                }
            }
            lemma_used_numbers(used, (n + 1) as nat);
        }
        n += 1;
    }
}

/// If the identifiers of the first `n` numbers are in use, at least `n`
/// identifiers are.
proof fn lemma_used_numbers(used: Seq<Seq<char>>, n: nat)
    requires
        forall|m: nat| m < n ==> used.contains(#[trigger] iot_id(m)),
    ensures
        n <= used.len(),
{
    let first = Seq::new(n, |i: int| iot_id(i as nat));
    assert forall|i: int, j: int| 0 <= i < first.len() && 0 <= j < first.len() && i
        != j implies first[i] != first[j] by {
        if first[i] == first[j] {
            law_iot_ids_distinct(i as nat, j as nat);
        }
    }
    first.unique_seq_to_set();
    assert(first.to_set().subset_of(used.to_set())) by {
        assert forall|id: Seq<char>| first.to_set().contains(id) implies used.to_set().contains(
            id,
        ) by {
            let i = first.index_of(id);
            assert(first[i] == iot_id(i as nat));
        }
    }
    used.lemma_cardinality_of_set();
    vstd::set_lib::lemma_len_subset(first.to_set(), used.to_set());
}

/// Different numbers have different identifiers.
pub proof fn law_iot_ids_distinct(m: nat, n: nat)
    requires
        iot_id(m) == iot_id(n),
    ensures
        m == n,
{
    let k = "iot"@.len() as int;
    assert(iot_id(m).skip(k) =~= decimal(m));
    assert(iot_id(n).skip(k) =~= decimal(n));
    law_decimal_distinct(m, n);
}

/// A new identifier is one that the topology counts as managed.
pub proof fn law_iot_id_is_managed(n: nat)
    ensures
        is_managed_id(iot_id(n)),
{
    reveal_strlit("iot");
    law_decimal_reads_back(n);
    assert(iot_id(n).take(3) =~= "iot"@);
    assert(iot_id(n).skip(3) =~= decimal(n));
}

// ---------------------------------------------------------------------
// Laws
// ---------------------------------------------------------------------

/// An IOThread's share holds virtqueues of the device only, each at its place modulo the number
/// of IOThreads, in ascending order.
pub proof fn law_shares_hold_queues(i: int, n: int, count: int, vq: u16)
    requires
        0 <= i < n,
        0 <= count <= u16::MAX,
    ensures
        share(i, n, count).contains(vq) ==> vq < count && vq as int % n == i,
        forall|a: int, b: int|
            0 <= a < b < share(i, n, count).len() ==> #[trigger] share(i, n, count)[a]
                < #[trigger] share(i, n, count)[b],
{
    let s = share(i, n, count);
    assert forall|a: int| 0 <= a < s.len() implies 0 <= i + a * n < count && #[trigger] s[a] == i
        + a * n by {
        lemma_share_value(i, n, count, a);
        assert(s[a] == (i + a * n) as u16);
    }
    if s.contains(vq) {
        let at = s.index_of(vq);
        assert(s[at] == i + at * n);
        vstd::arithmetic::div_mod::lemma_mod_multiples_vanish(at, i, n);
        vstd::arithmetic::div_mod::lemma_small_mod(i as nat, n as nat);
        assert(n * at + i == i + at * n) by (nonlinear_arith);
    }
    assert forall|a: int, b: int| 0 <= a < b < s.len() implies #[trigger] s[a] < #[trigger] s[b] by {
        assert(i + a * n < i + b * n) by (nonlinear_arith)
            requires
                a < b,
                n > 0,
        ;
    }
}

/// The counters of a sample are those that were read: a task has what the last entry for it
/// says.
pub proof fn law_samples_hold_what_was_read(entries: Seq<(i32, u64)>, i: int)
    requires
        0 <= i < entries.len(),
        forall|j: int| i < j < entries.len() ==> (#[trigger] entries[j]).0 != entries[i].0,
    ensures
        ticks_map(entries).contains_key(entries[i].0),
        ticks_map(entries)[entries[i].0] == entries[i].1,
    decreases entries.len(),
{
    let front = entries.drop_last();
    if i < front.len() {
        assert(entries[entries.len() - 1].0 != entries[i].0);
        assert forall|j: int| i < j < front.len() implies (#[trigger] front[j]).0
            != front[i].0 by {
            assert(entries[j].0 != entries[i].0);
        }
        law_samples_hold_what_was_read(front, i);
    }
}

/// A task without an entry is in no sample.
pub proof fn law_samples_hold_nothing_else(entries: Seq<(i32, u64)>, tid: i32)
    requires
        forall|j: int| 0 <= j < entries.len() ==> (#[trigger] entries[j]).0 != tid,
    ensures
        !ticks_map(entries).contains_key(tid),
    decreases entries.len(),
{
    if entries.len() > 0 {
        let front = entries.drop_last();
        assert forall|j: int| 0 <= j < front.len() implies (#[trigger] front[j]).0 != tid by {
            assert(entries[j].0 != tid);
        }
        law_samples_hold_nothing_else(front, tid);
        assert(entries[entries.len() - 1].0 != tid);
    }
}

/// Each task that was asked about is entered with its user and system ticks together.
pub proof fn law_tasks_are_entered_with_all_their_ticks(
    tids: Seq<i32>,
    readings: Seq<TaskTicks>,
    i: int,
)
    requires
        0 <= i < tids.len(),
        readings.len() == tids.len(),
        readings[i].utime + readings[i].stime <= u64::MAX,
    ensures
        task_entries(tids, readings).len() == tids.len(),
        task_entries(tids, readings)[i].0 == tids[i],
        task_entries(tids, readings)[i].1 == readings[i].utime + readings[i].stime,
{
}

/// What counts between two samples are the tasks in both whose counters did not go back, each
/// with the increase of its own counter.
pub proof fn law_shared_tasks_count_with_their_increase(
    earlier: Map<i32, u64>,
    later: Map<i32, u64>,
    order: Seq<i32>,
)
    ensures
        shared_deltas(earlier, later, order) == order.filter(
            |tid: i32| earlier.dom().contains(tid) && later[tid] >= earlier[tid],
        ).map_values(|tid: i32| (later[tid] - earlier[tid]) as u64),
    decreases order.len(),
{
    reveal(Seq::filter);
    let counts = |tid: i32| earlier.dom().contains(tid) && later[tid] >= earlier[tid];
    let increase = |tid: i32| (later[tid] - earlier[tid]) as u64;
    if order.len() > 0 {
        law_shared_tasks_count_with_their_increase(earlier, later, order.drop_last());
        let front = order.drop_last().filter(counts);
        let last = order.last();
        assert(front.push(last).map_values(increase) =~= front.map_values(increase).push(
            increase(last),
        ));
    } else {
        assert(order.filter(counts).map_values(increase) =~= Seq::<u64>::empty());
    }
}

/// A sample of one task against an earlier sample of it measures that task's share of the time
/// between them.
pub proof fn law_one_task_is_measured_alone(
    util: Binary64,
    earlier: CpuSample,
    later: CpuSample,
    hz: u64,
    tid: i32,
)
    requires
        CpuSample::is_average(util, earlier, later, hz),
        later.jiffies@.dom() == set![tid],
        earlier.jiffies@.contains_key(tid),
        earlier.jiffies@[tid] <= later.jiffies@[tid],
        earlier.wall < later.wall,
    ensures
        util == busy_share_of(
            (later.jiffies@[tid] - earlier.jiffies@[tid]) as u64,
            hz,
            (later.wall - earlier.wall) as u128,
        ),
{
    let order = choose|order: Seq<i32>| #[trigger]
        walks(order, later.jiffies@) && util == CpuSample::average_between(
            earlier,
            later,
            hz,
            order,
        );
    order.unique_seq_to_set();
    assert(order.to_set() =~= set![tid]);
    assert(order.len() == 1);
    assert(order.to_set().contains(order[0]));
    assert(order =~= seq![tid]);
    assert(order.drop_last() =~= Seq::<i32>::empty());
    let spent = (later.jiffies@[tid] - earlier.jiffies@[tid]) as u64;
    reveal_with_fuel(shared_deltas, 2);
    assert(shared_deltas(earlier.jiffies@, later.jiffies@, order) =~= seq![spent]);
    law_average_of_one_task(spent, hz, (later.wall - earlier.wall) as u128);
}

/// No time, or no task in both samples, makes a utilisation of 0.
pub proof fn law_nothing_shared_measures_nothing(
    util: Binary64,
    earlier: CpuSample,
    later: CpuSample,
    hz: u64,
)
    requires
        CpuSample::is_average(util, earlier, later, hz),
        later.wall <= earlier.wall || forall|tid: i32| #[trigger]
            later.jiffies@.contains_key(tid) ==> !earlier.jiffies@.contains_key(tid)
                || earlier.jiffies@[tid] > later.jiffies@[tid],
    ensures
        util == Binary64::zero_spec(),
{
    let order = choose|order: Seq<i32>| #[trigger]
        walks(order, later.jiffies@) && util == CpuSample::average_between(
            earlier,
            later,
            hz,
            order,
        );
    if later.wall > earlier.wall {
        assert forall|i: int| 0 <= i < order.len() implies !earlier.jiffies@.contains_key(
            #[trigger] order[i],
        ) || earlier.jiffies@[order[i]] > later.jiffies@[order[i]] by {
            assert(order.to_set().contains(order[i]));
            assert(later.jiffies@.contains_key(order[i]));
        }
        lemma_nothing_shared(earlier.jiffies@, later.jiffies@, order);
    }
}

proof fn lemma_nothing_shared(earlier: Map<i32, u64>, later: Map<i32, u64>, order: Seq<i32>)
    requires
        forall|i: int|
            0 <= i < order.len() ==> !earlier.contains_key(#[trigger] order[i])
                || earlier[order[i]] > later[order[i]],
    ensures
        shared_deltas(earlier, later, order).len() == 0,
    decreases order.len(),
{
    if order.len() > 0 {
        let front = order.drop_last();
        assert forall|i: int| 0 <= i < front.len() implies !earlier.contains_key(
            #[trigger] front[i],
        ) || earlier[front[i]] > later[front[i]] by {
            assert(front[i] == order[i]);
        }
        lemma_nothing_shared(earlier, later, front);
        assert(order[order.len() - 1] == order.last());
    }
}

/// An IOThread line counts exactly where it names an identifier of the managed form and a task
/// that is a 32-bit number: then the topology has that task for that identifier, and all else
/// stays.
pub proof fn law_iothread_lines_are_entered(
    before: TopologyView,
    labels: Seq<char>,
    id: Seq<char>,
    tid: int,
    other: Seq<char>,
)
    requires
        label_value(labels, "id"@) == Some(id),
        label_value(labels, "tid"@) is Some,
        integer_value(label_value(labels, "tid"@)->0) == Some(tid),
        other != id,
    ensures
        ({
            let after = before.after(MetricLineView::IoThread { labels });
            let counts = is_managed_id(id) && i32::MIN <= tid <= i32::MAX;
            &&& counts ==> after.tids.contains_key(id) && after.tids[id] == tid
            &&& !counts ==> after == before
            &&& after.tids.contains_key(other) == before.tids.contains_key(other)
            &&& before.tids.contains_key(other) ==> after.tids[other] == before.tids[other]
            &&& after.device_path == before.device_path
            &&& after.vq_count == before.vq_count
        }),
{
}

/// A device line counts exactly where no device is known yet, and the line has a path and a
/// count that can be read: then the topology has that path and that count, and all else stays.
pub proof fn law_first_device_is_entered(
    before: TopologyView,
    labels: Seq<char>,
    value: Seq<char>,
    path: Seq<char>,
)
    requires
        label_value(labels, "device"@) == Some(path) || label_value(labels, "device"@) is None
            && label_value(labels, "path"@) == Some(path),
    ensures
        ({
            let after = before.after(MetricLineView::Queues { labels, value });
            let counts = before.device_path.len() == 0 && path.len() > 0 && count_of(value) is Some;
            &&& counts ==> after.device_path == path && after.vq_count == count_of(value)->0
            &&& !counts ==> after == before
            &&& after.tids == before.tids
        }),
{
    if count_of(value) is Some {
        lemma_count_fits(value);
    }
}

/// Whether a text can stand as a label's key or value without being changed: it has no comma, no
/// equals sign and no quotation mark, and no white space at its ends.
pub open spec fn is_plain(s: Seq<char>) -> bool {
    &&& s.len() > 0
    &&& !is_white(s[0])
    &&& !is_white(s.last())
    &&& forall|i: int| 0 <= i < s.len() ==> (#[trigger] s[i]) != ',' && s[i] != '=' && s[i] != '"'
}

/// A label as metrics have it: the key, an equals sign, and the value in quotation marks.
pub open spec fn written_label(key: Seq<char>, value: Seq<char>) -> Seq<char> {
    key + seq!['='] + (seq!['"'] + value + seq!['"'])
}

proof fn lemma_written_label(key: Seq<char>, value: Seq<char>)
    requires
        is_plain(key),
        is_plain(value),
    ensures
        label_pair(written_label(key, value)) == Some((key, value)),
        forall|i: int|
            0 <= i < written_label(key, value).len() ==> (#[trigger] written_label(key, value)[i])
                != ',',
{
    let quoted = seq!['"'] + value + seq!['"'];
    let s = written_label(key, value);
    let k = key.len() as int;
    assert(s[0] == key[0]);
    assert(s.last() == '"');
    assert(!is_white('"'));
    lemma_trimmed_already(s);
    lemma_trimmed_already(key);
    assert(quoted[0] == '"' && quoted.last() == '"');
    lemma_trimmed_already(quoted);
    assert forall|j: int| 0 <= j < k implies s[j] != '=' by {
        assert(s[j] == key[j]);
    }
    assert(s[k] == '=');
    lemma_first_index(s, '=', k);
    assert(s.take(k) =~= key);
    assert(s.skip(k + 1) =~= quoted);
    law_stripping(value, '"', 1, 1);
    assert(Seq::new(1, |i: int| '"') + value + Seq::new(1, |i: int| '"') =~= quoted);
    assert forall|i: int| 0 <= i < s.len() implies (#[trigger] s[i]) != ',' by {
        if i < k {
            assert(s[i] == key[i]);
        } else if i == k {
        } else {
            let j = i - k - 1;
            assert(s[i] == quoted[j]);
            if 0 < j < quoted.len() - 1 {
                assert(quoted[j] == value[j - 1]);
            }
        }
    }
}

/// A list of labels reads back: each key has the value that was written for it, and a key that
/// was not written has none.
pub proof fn law_labels_read_back(
    first: (Seq<char>, Seq<char>),
    second: (Seq<char>, Seq<char>),
    other: Seq<char>,
)
    requires
        is_plain(first.0),
        is_plain(first.1),
        is_plain(second.0),
        is_plain(second.1),
        first.0 != second.0,
        other != first.0,
        other != second.0,
    ensures
        ({
            let labels = written_label(first.0, first.1) + seq![','] + written_label(
                second.0,
                second.1,
            );
            &&& label_value(labels, first.0) == Some(first.1)
            &&& label_value(labels, second.0) == Some(second.1)
            &&& label_value(labels, other) is None
        }),
{
    let a = written_label(first.0, first.1);
    let b = written_label(second.0, second.1);
    let labels = a + seq![','] + b;
    lemma_written_label(first.0, first.1);
    lemma_written_label(second.0, second.1);
    law_splitting_off_the_first(a, ',', b);
    law_splitting_off_the_first(b, ',', Seq::<char>::empty());
    let parts = pieces(labels, ',');
    assert(parts =~= seq![a, b]);
    assert(parts.drop_last() =~= seq![a]);
    assert(parts.drop_last().drop_last() =~= Seq::<Seq<char>>::empty());
    reveal_with_fuel(last_label, 3);
}

/// Of several labels with the same key the last one counts.
pub proof fn law_last_label_counts(labels: Seq<Seq<char>>, key: Seq<char>, value: Seq<char>)
    requires
        is_plain(key),
        is_plain(value),
    ensures
        last_label(labels.push(written_label(key, value)), key) == Some(value),
{
    lemma_written_label(key, value);
    assert(labels.push(written_label(key, value)).last() == written_label(key, value));
}

/// A line for a managed IOThread, as metrics have it, enters that IOThread with its task into the
/// topology; a later line for the same IOThread replaces its task.
pub proof fn law_iothread_lines_read_back(
    before: TopologyView,
    n: nat,
    tid: nat,
    labels: Seq<char>,
    line: Seq<char>,
)
    requires
        tid <= i32::MAX,
        labels == written_label("id"@, iot_id(n)) + seq![','] + written_label(
            "tid"@,
            decimal(tid),
        ),
        metric_groups("qemu_iothread_info"@, line) is Some,
        (metric_groups("qemu_iothread_info"@, line)->0).0 == labels,
        line[0] != '#',
    ensures
        before.after(metric_line(line)) == (TopologyView {
            tids: before.tids.insert(iot_id(n), tid as i32),
            ..before
        }),
{
    let id = iot_id(n);
    reveal_strlit("id");
    reveal_strlit("tid");
    reveal_strlit("iot");
    reveal_strlit("thread_id");
    law_iot_id_is_managed(n);
    lemma_plain_numeral(n);
    lemma_plain_numeral(tid);
    assert(is_plain(id)) by {
        assert forall|i: int| 0 <= i < id.len() implies (#[trigger] id[i]) != ',' && id[i] != '='
            && id[i] != '"' by {
            if i >= 3 {
                assert(id[i] == decimal(n)[i - 3]);
            }
        }
        assert(id.last() == decimal(n).last());
    }
    assert("id"@ != "tid"@) by {
        assert("id"@.len() != "tid"@.len());
    }
    assert(is_plain("id"@));
    assert(is_plain("tid"@));
    let other = "iot"@;
    assert(other != "id"@) by {
        assert(other.len() != "id"@.len());
    }
    assert(other != "tid"@) by {
        assert(other[0] != "tid"@[0]);
    }
    law_labels_read_back(("id"@, id), ("tid"@, decimal(tid)), other);
    law_signs_of_numerals(tid, seq![]);
    assert(metric_line(line) == MetricLineView::IoThread { labels });
    assert(iothread_entry(labels) == Some((id, tid as i32)));
}

proof fn lemma_plain_numeral(n: nat)
    ensures
        is_plain(decimal(n)),
{
    law_decimal_reads_back(n);
    let s = decimal(n);
    assert forall|i: int| 0 <= i < s.len() implies (#[trigger] s[i]) != ',' && s[i] != '=' && s[i]
        != '"' && !is_white(s[i]) by {
        assert(is_digit(s[i]));
    }
    assert(!is_white(s[0]));
    assert(!is_white(s[s.len() - 1]));
}

/// A line for a device, as metrics have it, enters the device with its number of virtqueues into a
/// topology that knows of none, and changes nothing in one that does.
pub proof fn law_device_lines_read_back(
    before: TopologyView,
    path: Seq<char>,
    count: nat,
    line: Seq<char>,
)
    requires
        is_plain(path),
        metric_groups("qemu_iothread_info"@, line) is None,
        metric_groups("qemu_virtio_scsi_num_queues"@, line) == Some(
            (written_label("device"@, path), decimal(count)),
        ),
        line[0] != '#',
    ensures
        before.device_path.len() == 0 ==> before.after(metric_line(line)) == (TopologyView {
            device_path: path,
            vq_count: if count < 65535 {
                count as u16
            } else {
                65535
            },
            ..before
        }),
        before.device_path.len() > 0 ==> before.after(metric_line(line)) == before,
{
    let labels = written_label("device"@, path);
    reveal_strlit("device");
    assert(is_plain("device"@));
    lemma_written_label("device"@, path);
    law_splitting_off_the_first(labels, ',', Seq::<char>::empty());
    let parts = pieces(labels, ',');
    assert(parts =~= seq![labels]);
    assert(parts.last() == labels);
    assert(label_value(labels, "device"@) == Some(path));
    law_plain_numeral_counts(count);
    assert(metric_line(line) == MetricLineView::Queues { labels, value: decimal(count) });
}

/// The task of an IOThread can also stand under the longer name, which counts where the shorter one
/// is missing.
pub proof fn law_tasks_have_two_names(labels: Seq<char>, id: Seq<char>, tid: int)
    requires
        label_value(labels, "id"@) == Some(id),
        is_managed_id(id),
        label_value(labels, "tid"@) is None,
        label_value(labels, "thread_id"@) is Some,
        integer_value(label_value(labels, "thread_id"@)->0) == Some(tid),
        i32::MIN <= tid <= i32::MAX,
    ensures
        iothread_entry(labels) == Some((id, tid as i32)),
{
}

/// A line without an identifier, or without a task under either name, enters nothing.
pub proof fn law_incomplete_iothreads_are_left_out(before: TopologyView, labels: Seq<char>)
    requires
        label_value(labels, "id"@) is None || label_value(labels, "tid"@) is None && label_value(
            labels,
            "thread_id"@,
        ) is None,
    ensures
        before.after(MetricLineView::IoThread { labels }) == before,
{
    assert(integer_value(Seq::<char>::empty()) is None);
}

/// A failure of QEMU keeps its kind and its words when it becomes one of the backend: a refused
/// command stays one, a failed transfer is a disconnect or a transport failure by its kind, a
/// broken client is a transport failure, and anything unreadable is a protocol error.
pub proof fn law_failures_keep_their_kind(
    kind: IoErrorKind,
    message: Seq<char>,
    cmd: Seq<char>,
    class: Seq<char>,
    desc: Seq<char>,
)
    ensures
        QemuErrorView::Parse(message).as_client_error() == ClientErrorView::Protocol(message),
        (QemuErrorView::QmpError { cmd, class, desc }).as_client_error()
            == (ClientErrorView::QmpError { cmd, class, desc }),
        QemuErrorView::Broken.as_client_error() is Transport,
        ({
            let io = (QemuErrorView::Io { kind, message }).as_client_error();
            &&& kind is Other ==> io == ClientErrorView::Transport("io"@ + ": "@ + message)
            &&& !(kind is Other) ==> io == ClientErrorView::Disconnected("io"@ + ": "@ + message)
        }),
{
}

/// A metrics body is read line by line, from the first to the last, starting with nothing known.
pub proof fn law_bodies_are_read_line_by_line(
    lines: Seq<MetricLineView>,
    line: MetricLineView,
    body: Seq<char>,
    i: int,
)
    ensures
        TopologyView::after_all(lines.push(line)) == TopologyView::after_all(lines).after(line),
        TopologyView::after_all(Seq::<MetricLineView>::empty()).tids.dom().len() == 0,
        TopologyView::after_all(Seq::<MetricLineView>::empty()).device_path.len() == 0,
        TopologyView::after_all(Seq::<MetricLineView>::empty()).vq_count == 0,
        metric_lines(body).len() == lines_of(body).len(),
        0 <= i < lines_of(body).len() ==> metric_lines(body)[i] == metric_line(lines_of(body)[i]),
{
    assert(lines.push(line).drop_last() =~= lines);
}

} // verus!
