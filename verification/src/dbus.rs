//! Operator-facing verbs of the D-Bus surface.
//!
//! A request names a VM; the controller finds it and says which call its client
//! is to make.

use vstd::prelude::*;
use vstd::string::StringExecFns;

use crate::backends::IoThreadProperties;
use crate::controller::{Controller, ControllerErrorView};
use crate::numerals::{decimal, decimal_text};

verus! {

/// D-Bus well-known bus name the daemon claims at startup.
pub const DBUS_BUS_NAME: &'static str = "com.nutanix.io_thread_controller1";

/// Object path served by the daemon on the system bus.
pub const DBUS_OBJECT_PATH: &'static str = "/com/nutanix/io_thread_controller1";

/// Interface name the operator verbs live on.
pub const DBUS_INTERFACE: &'static str = "com.nutanix.io_thread_controller1";

/// Upper bound in seconds on how long a D-Bus verb waits for the controller to
/// service the request before failing the call.
pub const DBUS_REQUEST_TIMEOUT_SECS: u64 = 30;

/// One operator request; each variant matches one D-Bus method.
#[derive(Debug)]
pub enum DbusRequest {
    /// Set the worker count of a VM to exactly `threads`.
    SetThreadCount {
        /// VM to address.
        vm: String,
        /// Target thread count.
        threads: u32,
        /// Whether to suppress automatic scaling of the VM until cleared.
        sticky: bool,
    },
    /// Read the current virtqueue-to-IOThread mapping.
    GetIoThreadVqMapping {
        /// VM to address.
        vm: String,
        /// QOM device path whose mapping should be read.
        device: String,
    },
    /// Create a named IOThread object.
    AddIoThread {
        /// VM to address.
        vm: String,
        /// QOM identifier of the new IOThread.
        id: String,
        /// poll-max-ns override, or `-1` for "leave default".
        poll_max_ns: i64,
    },
    /// Delete a named IOThread object.
    DelIoThread {
        /// VM to address.
        vm: String,
        /// QOM identifier of the IOThread to remove.
        id: String,
    },
    /// Replace a device's virtqueue-to-IOThread mapping.
    SetIoThreadVqMapping {
        /// VM to address.
        vm: String,
        /// QOM device path whose mapping should be replaced.
        device: String,
        /// JSON-encoded list of mappings.
        mapping_json: String,
    },
}

/// A call that a VM's client is to make.
#[derive(Debug)]
pub enum ClientCall {
    /// Set the worker count, and report back.
    SetThreadCount {
        /// Target thread count.
        threads: u32,
        /// Whether to suppress automatic scaling of the VM until cleared.
        sticky: bool,
    },
    /// Read a device's virtqueue mapping.
    GetVqMapping {
        /// QOM path of the device.
        device: String,
    },
    /// Create an IOThread.
    AddIoThread {
        /// Its identifier.
        id: String,
        /// Its properties, if any are set.
        props: Option<IoThreadProperties>,
    },
    /// Delete an IOThread.
    DelIoThread {
        /// Its identifier.
        id: String,
    },
    /// Decode a mapping and give it to a device.
    SetVqMapping {
        /// QOM path of the device.
        device: String,
        /// JSON-encoded list of mappings.
        mapping_json: String,
    },
}

/// The properties that a poll-max-ns override stands for; `-1` stands for none.
pub open spec fn override_props(poll_max_ns: i64) -> Option<IoThreadProperties> {
    if poll_max_ns == -1 {
        None
    } else {
        Some(IoThreadProperties { poll_max_ns: Some(poll_max_ns), ..IoThreadProperties::unset() })
    }
}

/// The properties that a poll-max-ns override stands for.
pub fn poll_override(poll_max_ns: i64) -> (r: Option<IoThreadProperties>)
    ensures
        r == override_props(poll_max_ns),
{
    if poll_max_ns == -1 {
        None
    } else {
        let mut props = IoThreadProperties::default();
        props.poll_max_ns = Some(poll_max_ns);
        Some(props)
    }
}

impl DbusRequest {
    /// The VM that a request names.
    pub open spec fn addressed(&self) -> Seq<char> {
        match *self {
            DbusRequest::SetThreadCount { vm, .. } => vm@,
            DbusRequest::GetIoThreadVqMapping { vm, .. } => vm@,
            DbusRequest::AddIoThread { vm, .. } => vm@,
            DbusRequest::DelIoThread { vm, .. } => vm@,
            DbusRequest::SetIoThreadVqMapping { vm, .. } => vm@,
        }
    }

    /// The call that a request asks for.
    pub open spec fn asks_for(&self, call: ClientCall) -> bool {
        match *self {
            DbusRequest::SetThreadCount { threads, sticky, .. } => call
                == (ClientCall::SetThreadCount { threads, sticky }),
            DbusRequest::GetIoThreadVqMapping { device, .. } => call == (ClientCall::GetVqMapping {
                device,
            }),
            DbusRequest::AddIoThread { id, poll_max_ns, .. } => call == (ClientCall::AddIoThread {
                id,
                props: override_props(poll_max_ns),
            }),
            DbusRequest::DelIoThread { id, .. } => call == (ClientCall::DelIoThread { id }),
            DbusRequest::SetIoThreadVqMapping { device, mapping_json, .. } => call
                == (ClientCall::SetVqMapping { device, mapping_json }),
        }
    }
}

impl Controller {
    /// What is wrong with a request, if anything.
    pub open spec fn request_fault(&self, request: DbusRequest) -> Option<ControllerErrorView> {
        match request {
            DbusRequest::SetThreadCount { vm, threads, sticky } => self.manual_fault(vm@, threads),
            _ => if self.instances.has(request.addressed()) {
                None
            } else {
                Some(ControllerErrorView::VmError("unknown VM {vm}"@))
            },
        }
    }

    /// Serve one D-Bus request: the VM and the call that its client is to make, or
    /// the text of the refusal.
    pub fn handle_dbus_request(&self, request: DbusRequest) -> (r: Result<
        (String, ClientCall),
        String,
    >)
        requires
            self.wf(),
        ensures
            match self.request_fault(request) {
                Some(fault) => r is Err && r->Err_0@ == fault.rendered(),
                None => r is Ok && (r->Ok_0).0@ == request.addressed() && request.asks_for(
                    (r->Ok_0).1,
                ),
            },
    {
        match request {
            DbusRequest::SetThreadCount { vm, threads, sticky } => {
                match self.handle_set_thread_count(vm.as_str(), threads) {
                    Ok(_) => Ok((vm, ClientCall::SetThreadCount { threads, sticky })),
                    Err(error) => Err(error.message()),
                }
            },
            DbusRequest::GetIoThreadVqMapping { vm, device } => {
                match self.check_known(vm.as_str()) {
                    Some(text) => Err(text),
                    None => Ok((vm, ClientCall::GetVqMapping { device })),
                }
            },
            DbusRequest::AddIoThread { vm, id, poll_max_ns } => {
                match self.check_known(vm.as_str()) {
                    Some(text) => Err(text),
                    None => Ok(
                        (vm, ClientCall::AddIoThread { id, props: poll_override(poll_max_ns) }),
                    ),
                }
            },
            DbusRequest::DelIoThread { vm, id } => {
                match self.check_known(vm.as_str()) {
                    Some(text) => Err(text),
                    None => Ok((vm, ClientCall::DelIoThread { id })),
                }
            },
            DbusRequest::SetIoThreadVqMapping { vm, device, mapping_json } => {
                match self.check_known(vm.as_str()) {
                    Some(text) => Err(text),
                    None => Ok((vm, ClientCall::SetVqMapping { device, mapping_json })),
                }
            },
        }
    }

    /// The refusal of a request for a VM that is not in the inventory.
    fn check_known(&self, vm: &str) -> (r: Option<String>)
        requires
            self.wf(),
        ensures
            r is None == self.instances.has(vm@),
            r is Some ==> r->0@ == ControllerErrorView::VmError("unknown VM {vm}"@).rendered(),
    {
        if self.instances.contains_key(vm) {
            None
        } else {
            Some(
                crate::controller::ControllerError::VmError(
                    "unknown VM {vm}".to_owned(),
                ).message(),
            )
        }
    }
}

/// What came of waiting for the controller's reply.
#[derive(Debug)]
pub enum ReplyOutcome {
    /// The controller replied.
    Answered(Result<String, String>),
    /// The request could not be handed over.
    NotSent,
    /// The controller dropped the request.
    Closed,
    /// The controller did not reply in time.
    TimedOut,
}

/// Turn the outcome of waiting into the result of the D-Bus call.
pub fn settle_reply(outcome: ReplyOutcome) -> (r: Result<String, String>)
    ensures
        match outcome {
            ReplyOutcome::Answered(result) => r == result,
            ReplyOutcome::NotSent => r is Err && r->Err_0@ == "controller channel closed"@,
            ReplyOutcome::Closed => r is Err && r->Err_0@ == "controller reply channel closed"@,
            ReplyOutcome::TimedOut => r is Err && r->Err_0@ == "request timed out after "@
                + decimal(DBUS_REQUEST_TIMEOUT_SECS as nat) + "s"@,
        },
{
    match outcome {
        ReplyOutcome::Answered(result) => result,
        ReplyOutcome::NotSent => Err("controller channel closed".to_owned()),
        ReplyOutcome::Closed => Err("controller reply channel closed".to_owned()),
        ReplyOutcome::TimedOut => Err(
            "request timed out after ".to_owned().concat(
                decimal_text(DBUS_REQUEST_TIMEOUT_SECS).as_str(),
            ).concat("s"),
        ),
    }
}

// ---------------------------------------------------------------------
// Laws
// ---------------------------------------------------------------------

/// A request is for the VM that it names, and asks that VM's client for the matching call
/// with the request's own arguments.
pub proof fn law_requests_become_their_calls(
    vm: String,
    device: String,
    id: String,
    mapping_json: String,
    threads: u32,
    sticky: bool,
    poll_max_ns: i64,
    call: ClientCall,
)
    ensures
        ({
            let set = DbusRequest::SetThreadCount { vm, threads, sticky };
            let get = DbusRequest::GetIoThreadVqMapping { vm, device };
            let add = DbusRequest::AddIoThread { vm, id, poll_max_ns };
            let del = DbusRequest::DelIoThread { vm, id };
            let map = DbusRequest::SetIoThreadVqMapping { vm, device, mapping_json };
            &&& set.addressed() == vm@ && get.addressed() == vm@ && add.addressed() == vm@
                && del.addressed() == vm@ && map.addressed() == vm@
            &&& set.asks_for(call) ==> {
                &&& call is SetThreadCount
                &&& call->SetThreadCount_threads == threads
                &&& call->SetThreadCount_sticky == sticky
            }
            &&& get.asks_for(call) ==> call is GetVqMapping && call->GetVqMapping_device == device
            &&& add.asks_for(call) ==> {
                let props = call->AddIoThread_props;
                &&& call is AddIoThread
                &&& call->AddIoThread_id == id
                &&& props is None <==> poll_max_ns == -1
                &&& props is Some ==> {
                    &&& props->0.poll_max_ns == Some(poll_max_ns)
                    &&& props->0.poll_grow is None
                    &&& props->0.poll_shrink is None
                    &&& props->0.aio_max_batch is None
                    &&& props->0.thread_pool_min is None
                    &&& props->0.thread_pool_max is None
                }
            }
            &&& del.asks_for(call) ==> call is DelIoThread && call->DelIoThread_id == id
            &&& map.asks_for(call) ==> {
                &&& call is SetVqMapping
                &&& call->SetVqMapping_device == device
                &&& call->SetVqMapping_mapping_json == mapping_json
            }
        }),
{
}

/// A request for a VM that is not tracked is refused, whatever it asks for; and of those for a
/// tracked VM only one for a worker count can be refused.
pub proof fn law_unknown_vms_are_refused(controller: Controller, request: DbusRequest)
    ensures
        !controller.instances.ids().contains(request.addressed()) ==> controller.request_fault(
            request,
        ) is Some,
        controller.instances.ids().contains(request.addressed()) && !(request is SetThreadCount)
            ==> controller.request_fault(request) is None,
{
}

} // verus!
