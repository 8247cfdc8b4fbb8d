//! Types shared by per-VM backend clients, and the fleet-level rules that do
//! not depend on one backend.

use vstd::prelude::*;
use vstd::string::StringExecFns;

pub mod qemu;

verus! {

/// One virtio-scsi IOThread-to-virtqueue mapping.
#[derive(Debug, Clone, PartialEq, Eq)]
pub struct VqMapping {
    /// IOThread object identifier.
    pub iothread: String,
    /// Virtqueue indices assigned to this IOThread.
    pub vqs: Vec<u16>,
}

impl View for VqMapping {
    type V = (Seq<char>, Seq<u16>);

    open spec fn view(&self) -> (Seq<char>, Seq<u16>) {
        (self.iothread@, self.vqs@)
    }
}

/// Optional properties used when creating a named IOThread.
#[derive(Debug, Clone, Copy, PartialEq, Eq, Structural)]
pub struct IoThreadProperties {
    /// Maximum polling window per iteration, in nanoseconds.
    pub poll_max_ns: Option<i64>,
    /// Poll-window growth step.
    pub poll_grow: Option<i64>,
    /// Poll-window shrink step.
    pub poll_shrink: Option<i64>,
    /// Maximum AIO completion batch.
    pub aio_max_batch: Option<i64>,
    /// Minimum AIO worker-pool size.
    pub thread_pool_min: Option<i64>,
    /// Maximum AIO worker-pool size.
    pub thread_pool_max: Option<i64>,
}

impl IoThreadProperties {
    /// No property set.
    pub open spec fn unset() -> IoThreadProperties {
        IoThreadProperties {
            poll_max_ns: None,
            poll_grow: None,
            poll_shrink: None,
            aio_max_batch: None,
            thread_pool_min: None,
            thread_pool_max: None,
        }
    }
}

impl Default for IoThreadProperties {
    fn default() -> (r: Self)
        ensures
            r == IoThreadProperties::unset(),
    {
        IoThreadProperties {
            poll_max_ns: None,
            poll_grow: None,
            poll_shrink: None,
            aio_max_batch: None,
            thread_pool_min: None,
            thread_pool_max: None,
        }
    }
}

/// The kinds of I/O failure that the transport rules tell apart.
#[derive(Debug, Clone, Copy, PartialEq, Eq, Structural)]
pub enum IoErrorKind {
    /// The write end of a pipe is closed.
    BrokenPipe,
    /// The peer reset the connection.
    ConnectionReset,
    /// The connection was aborted.
    ConnectionAborted,
    /// The stream ended early.
    UnexpectedEof,
    /// The entity was not found.
    NotFound,
    /// Any other kind.
    Other,
}

/// One I/O failure: its kind and its rendered message.
#[derive(Debug, Clone)]
pub struct IoFailure {
    /// Kind of failure.
    pub kind: IoErrorKind,
    /// Rendered failure.
    pub message: String,
}

/// Failure returned by a backend client operation.
#[derive(Debug, Clone)]
pub enum BackendClientError {
    /// The backend deliberately does not implement this operation.
    NotSupported(String),
    /// The transport disconnected while serving the request.
    Disconnected(String),
    /// Any other transport or framing failure.
    Transport(String),
    /// A structured QMP error response.
    QmpError {
        /// QMP command that failed.
        cmd: String,
        /// QMP error class.
        class: String,
        /// Human-readable error description.
        desc: String,
    },
    /// Protocol or framing error (payload limits, UTF-8, refusals, parse text).
    Protocol(String),
    /// Incomplete or inconsistent backend or host process state.
    InvalidState(String),
    /// The host's process information could not be read.
    Procfs(String),
    /// Any other failure, as rendered by where it came from.
    Opaque(String),
}

/// The text content of a [`BackendClientError`].
pub enum ClientErrorView {
    /// An unsupported operation.
    NotSupported(Seq<char>),
    /// A disconnect.
    Disconnected(Seq<char>),
    /// A transport failure.
    Transport(Seq<char>),
    /// A QMP error.
    QmpError {
        /// QMP command that failed.
        cmd: Seq<char>,
        /// QMP error class.
        class: Seq<char>,
        /// Error description.
        desc: Seq<char>,
    },
    /// A protocol error.
    Protocol(Seq<char>),
    /// An invalid state.
    InvalidState(Seq<char>),
    /// A failure to read process information.
    Procfs(Seq<char>),
    /// Any other failure.
    Opaque(Seq<char>),
}

impl View for BackendClientError {
    type V = ClientErrorView;

    open spec fn view(&self) -> ClientErrorView {
        match *self {
            BackendClientError::NotSupported(s) => ClientErrorView::NotSupported(s@),
            BackendClientError::Disconnected(s) => ClientErrorView::Disconnected(s@),
            BackendClientError::Transport(s) => ClientErrorView::Transport(s@),
            BackendClientError::QmpError { cmd, class, desc } => ClientErrorView::QmpError {
                cmd: cmd@,
                class: class@,
                desc: desc@,
            },
            BackendClientError::Protocol(s) => ClientErrorView::Protocol(s@),
            BackendClientError::InvalidState(s) => ClientErrorView::InvalidState(s@),
            BackendClientError::Procfs(s) => ClientErrorView::Procfs(s@),
            BackendClientError::Opaque(s) => ClientErrorView::Opaque(s@),
        }
    }
}

/// Whether an I/O failure represents normal peer teardown.
pub open spec fn is_teardown(kind: IoErrorKind) -> bool {
    kind != IoErrorKind::Other
}

/// The failure that a transport message stands for.
pub open spec fn transport_view(kind: IoErrorKind, message: Seq<char>) -> ClientErrorView {
    if is_teardown(kind) {
        ClientErrorView::Disconnected(message)
    } else {
        ClientErrorView::Transport(message)
    }
}

/// Return whether an I/O failure represents normal peer teardown.
pub fn is_peer_disconnect_kind(kind: IoErrorKind) -> (r: bool)
    ensures
        r == is_teardown(kind),
        r == (kind is BrokenPipe || kind is ConnectionReset || kind is ConnectionAborted
            || kind is UnexpectedEof || kind is NotFound),
{
    match kind {
        IoErrorKind::BrokenPipe => true,
        IoErrorKind::ConnectionReset => true,
        IoErrorKind::ConnectionAborted => true,
        IoErrorKind::UnexpectedEof => true,
        IoErrorKind::NotFound => true,
        IoErrorKind::Other => false,
    }
}

impl BackendClientError {
    /// Classify transport I/O while retaining operation context.
    pub fn from_transport_io(context: &str, error: &IoFailure) -> (r: Self)
        ensures
            r@ == transport_view(error.kind, context@ + ": "@ + error.message@),
    {
        let message = context.to_owned().concat(": ").concat(error.message.as_str());
        if is_peer_disconnect_kind(error.kind) {
            BackendClientError::Disconnected(message)
        } else {
            BackendClientError::Transport(message)
        }
    }

    /// Refuse a command line for a backend that has none.
    pub fn no_command_line(name: &str) -> (r: Self)
        ensures
            r@ == ClientErrorView::NotSupported(
                "backend `"@ + name@ + "` has no command-line interface"@,
            ),
    {
        BackendClientError::NotSupported(
            "backend `".to_owned().concat(name).concat("` has no command-line interface"),
        )
    }

    /// Render the failure for people.
    pub fn message(&self) -> (r: String)
        ensures
            r@ == self@.rendered(),
    {
        match self {
            BackendClientError::NotSupported(s) => {
                "operation not supported on this backend: ".to_owned().concat(s.as_str())
            },
            BackendClientError::Disconnected(s) => "disconnected: ".to_owned().concat(s.as_str()),
            BackendClientError::Transport(s) => "transport: ".to_owned().concat(s.as_str()),
            BackendClientError::QmpError { cmd, class, desc } => "qmp ".to_owned().concat(
                cmd.as_str(),
            ).concat(" error: ").concat(class.as_str()).concat(": ").concat(desc.as_str()),
            BackendClientError::Protocol(s) => s.clone(),
            BackendClientError::InvalidState(s) => s.clone(),
            BackendClientError::Procfs(_) => "proc error".to_owned(),
            BackendClientError::Opaque(s) => s.clone(),
        }
    }
}

impl ClientErrorView {
    /// The rendered failure.
    pub open spec fn rendered(self) -> Seq<char> {
        match self {
            ClientErrorView::NotSupported(s) => "operation not supported on this backend: "@ + s,
            ClientErrorView::Disconnected(s) => "disconnected: "@ + s,
            ClientErrorView::Transport(s) => "transport: "@ + s,
            ClientErrorView::QmpError { cmd, class, desc } => "qmp "@ + cmd + " error: "@ + class
                + ": "@ + desc,
            ClientErrorView::Protocol(s) => s,
            ClientErrorView::InvalidState(s) => s,
            ClientErrorView::Procfs(_) => "proc error"@,
            ClientErrorView::Opaque(s) => s,
        }
    }
}

impl From<IoFailure> for BackendClientError {
    fn from(error: IoFailure) -> (r: Self) {
        if is_peer_disconnect_kind(error.kind) {
            BackendClientError::Disconnected(error.message)
        } else {
            BackendClientError::Transport(error.message)
        }
    }
}

impl vstd::std_specs::convert::FromSpecImpl<IoFailure> for BackendClientError {
    open spec fn obeys_from_spec() -> bool {
        true
    }

    open spec fn from_spec(error: IoFailure) -> Self {
        if is_teardown(error.kind) {
            BackendClientError::Disconnected(error.message)
        } else {
            BackendClientError::Transport(error.message)
        }
    }
}

/// What a discovery walk does with one directory entry.
#[derive(Debug, Clone)]
pub enum EntryVerdict {
    /// Leave the entry out.
    Skip,
    /// Look up the peer of the entry's control socket.
    Probe {
        /// Identifier of the VM.
        id: String,
    },
}

/// Decide on one entry of a control-socket directory: only a readable directory
/// whose name is text is probed. `is_dir` is `None` when the entry's metadata
/// could not be read, `name` when the entry's name is not text.
pub fn control_socket_entry(is_dir: Option<bool>, name: Option<String>) -> (r: EntryVerdict)
    ensures
        match r {
            EntryVerdict::Probe { id } => is_dir == Some(true) && name == Some(id),
            EntryVerdict::Skip => is_dir != Some(true) || name is None,
        },
{
    match (is_dir, name) {
        (Some(true), Some(id)) => EntryVerdict::Probe { id },
        _ => EntryVerdict::Skip,
    }
}

/// What a discovery walk does after looking up a control-socket peer.
#[derive(Debug, Clone, Copy, PartialEq, Eq, Structural)]
pub enum PeerVerdict {
    /// Track the VM under this process.
    Track {
        /// Backend process ID.
        pid: i32,
    },
    /// Leave the VM out.
    Skip {
        /// Whether the failure is worth a warning.
        warn: bool,
    },
}

/// Decide on one peer lookup: a socket that is not there is left out silently.
pub fn control_socket_peer(peer: Result<i32, IoErrorKind>) -> (r: PeerVerdict)
    ensures
        r == (match peer {
            Ok(pid) => PeerVerdict::Track { pid },
            Err(kind) => PeerVerdict::Skip { warn: kind != IoErrorKind::NotFound },
        }),
{
    match peer {
        Ok(pid) => PeerVerdict::Track { pid },
        Err(kind) => PeerVerdict::Skip { warn: kind != IoErrorKind::NotFound },
    }
}

/// A peer that went away is a disconnect, and any other I/O failure a failure of the transport;
/// what was said of it is kept.
pub proof fn law_teardown_is_a_disconnect(kind: IoErrorKind, message: Seq<char>)
    ensures
        kind is BrokenPipe || kind is ConnectionReset || kind is ConnectionAborted
            || kind is UnexpectedEof || kind is NotFound ==> transport_view(kind, message)
            == ClientErrorView::Disconnected(message),
        kind is Other ==> transport_view(kind, message) == ClientErrorView::Transport(message),
{
}

} // verus!
