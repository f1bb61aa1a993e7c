//! Read-only execution of a runtime call, with automatic log management.
//!
//! The WebAssembly virtual machine itself is an external collaborator: what it
//! does between two host calls is outside the scope of this crate. A
//! [`HostVmPrototype`] therefore carries, besides its list of exported entry
//! points, the sequence of host-protocol steps that the execution yields, and
//! the state machine here is verified against that sequence: storage reads and
//! signature checks are handed to the caller, logs are accumulated up to a hard
//! cap, child-trie requests resolve to nothing, and any other host call ends
//! the execution with an error.

use vstd::prelude::*;

use crate::bytes::{bytes_eq, bytes_lt, clone_bytes};

verus! {

/// Upper bound on the accumulated length of the logs of one execution.
pub const MAX_LOGS_LEN: usize = 1024 * 1024;

/// One step of the host-call protocol, as yielded by the virtual machine.
#[derive(Debug, Clone)]
pub enum VmStep {
    /// The runtime reads a storage value. Only main-trie reads reach the caller.
    StorageGet { main_trie: bool, key: Vec<u8> },
    /// The runtime asks for the key that follows the given one.
    NextKey { main_trie: bool, key: Vec<u8> },
    /// The runtime asks for the root hash of the trie.
    StorageRoot { main_trie: bool },
    /// The runtime walks the list of child tries.
    NextChildTrie,
    /// The runtime asks whether a signature is valid.
    SignatureVerification {
        message: Vec<u8>,
        signature: Vec<u8>,
        public_key: Vec<u8>,
        valid: bool,
    },
    /// The runtime asks for the version of another runtime.
    CallRuntimeVersion,
    /// The runtime asks for the maximum log level.
    GetMaxLogLevel,
    /// The runtime emits a log message.
    LogEmit { message: Vec<u8> },
    /// The execution is over with a return value.
    Finished { value: Vec<u8> },
    /// The virtual machine has trapped.
    Trapped { error: Vec<u8> },
    /// The runtime calls a host function that read-only execution forbids.
    ForbiddenHostFunction,
}

/// Prototype of a virtual machine: what remains of it between two calls.
#[derive(Debug)]
pub struct HostVmPrototype {
    /// Names of the entry points that can be called.
    pub exported_functions: Vec<Vec<u8>>,
    /// Host-protocol steps that an execution of this prototype yields.
    pub steps: Vec<VmStep>,
}

/// Configuration for [`run`].
pub struct Config {
    /// Virtual machine to be run.
    pub virtual_machine: HostVmPrototype,
    /// Name of the function to be called.
    pub function_to_call: Vec<u8>,
    /// Parameter of the call.
    pub parameter: Vec<u8>,
    /// Maximum log level of the runtime.
    pub max_log_level: u32,
}

/// Error that can happen when starting the execution.
#[derive(Debug, Clone, PartialEq, Eq, Structural)]
pub enum StartErr {
    /// The requested function is not exported by the virtual machine.
    FunctionNotFound,
}

/// Execution is successful.
#[derive(Debug)]
pub struct Success {
    /// Contains the output value of the runtime, and the virtual machine that
    /// was passed at initialization.
    pub virtual_machine: SuccessVirtualMachine,
    /// Concatenation of all the log messages printed by the runtime.
    pub logs: Vec<u8>,
}

/// Function execution has succeeded. Contains the return value of the call.
#[derive(Debug)]
pub struct SuccessVirtualMachine {
    value: Vec<u8>,
    prototype: HostVmPrototype,
}

impl SuccessVirtualMachine {
    /// The return value of the call.
    pub closed spec fn value_spec(&self) -> Seq<u8> {
        self.value@
    }

    /// The prototype held by this value.
    pub closed spec fn prototype_spec(&self) -> HostVmPrototype {
        self.prototype
    }

    /// Returns the value the called function has returned.
    pub fn value(&self) -> (r: &Vec<u8>)
        ensures
            r@ == self.value_spec(),
    {
        &self.value
    }

    /// Turns the virtual machine back into a prototype.
    pub fn into_prototype(self) -> (r: HostVmPrototype)
        ensures
            r == self.prototype_spec(),
    {
        self.prototype
    }
}

/// Error that can happen during the execution.
#[derive(Debug)]
pub struct Error {
    /// Exact error that happened.
    pub detail: ErrorDetail,
    /// Prototype of the virtual machine that was passed through
    /// [`Config::virtual_machine`].
    pub prototype: HostVmPrototype,
}

/// See [`Error::detail`].
#[derive(Debug, Clone)]
pub enum ErrorDetail {
    /// Error while executing the Wasm virtual machine.
    WasmVm { error: Vec<u8>, logs: Vec<u8> },
    /// Size of the logs generated by the runtime exceeds the limit.
    LogsTooLong,
    /// The runtime called a host function that read-only execution forbids.
    ForbiddenHostCall,
}

/// Current state of the execution.
#[must_use]
pub enum RuntimeHostVm {
    /// Execution is over.
    Finished(Result<Success, Error>),
    /// Loading a storage value is required in order to continue.
    StorageGet(StorageGet),
    /// Fetching the key that follows a given one is required in order to continue.
    NextKey(NextKey),
    /// Fetching the storage trie root is required in order to continue.
    StorageRoot(StorageRoot),
    /// Verifying whether a signature is correct is required in order to continue.
    SignatureVerification(SignatureVerification),
}

/// Implementation detail of the execution. Shared by all the variants of
/// [`RuntimeHostVm`] other than [`RuntimeHostVm::Finished`].
pub struct Inner {
    /// Names of the entry points of the virtual machine.
    exported_functions: Vec<Vec<u8>>,
    /// Steps yielded by the virtual machine running the call.
    steps: Vec<VmStep>,
    /// Position of the next step to process.
    pos: usize,
    /// Concatenation of all the log messages generated by the runtime.
    logs: Vec<u8>,
    /// Value provided by [`Config::max_log_level`].
    max_log_level: u32,
}

/// True for the steps at which the execution stops and waits for the caller.
pub open spec fn step_blocks(s: VmStep) -> bool {
    match s {
        VmStep::StorageGet { main_trie, .. } => main_trie,
        VmStep::NextKey { main_trie, .. } => main_trie,
        VmStep::StorageRoot { main_trie } => main_trie,
        VmStep::SignatureVerification { .. } => true,
        _ => false,
    }
}

/// True for the steps that end the execution.
pub open spec fn step_ends(s: VmStep) -> bool {
    match s {
        VmStep::Finished { .. } => true,
        VmStep::Trapped { .. } => true,
        VmStep::ForbiddenHostFunction => true,
        _ => false,
    }
}

/// A well-formed script ends with a terminal step, so that the execution
/// always stops before running past the end of the list.
pub open spec fn script_wf(steps: Seq<VmStep>) -> bool {
    steps.len() >= 1 && step_ends(steps.last())
}

/// Where an execution resumed at some step with some logs stops next.
pub enum RunStop {
    /// Stopped at a blocking step, waiting for the caller.
    Blocked { at: int, logs: Seq<u8> },
    /// Finished successfully.
    DoneOk { value: Seq<u8>, logs: Seq<u8> },
    /// The virtual machine trapped.
    DoneTrap { error: Seq<u8>, logs: Seq<u8> },
    /// The log cap was reached.
    DoneLogsTooLong,
    /// A forbidden host function was called.
    DoneForbidden,
}

/// The outcome of resuming the execution at `pos` with `logs` accumulated.
pub open spec fn run_from(steps: Seq<VmStep>, pos: int, logs: Seq<u8>) -> RunStop
    decreases steps.len() - pos,
{
    if pos < 0 || pos >= steps.len() {
        RunStop::DoneTrap { error: Seq::empty(), logs }
    } else {
        match steps[pos] {
            VmStep::StorageGet { main_trie, .. } => {
                if main_trie {
                    RunStop::Blocked { at: pos, logs }
                } else {
                    run_from(steps, pos + 1, logs)
                }
            },
            VmStep::NextKey { main_trie, .. } => {
                if main_trie {
                    RunStop::Blocked { at: pos, logs }
                } else {
                    run_from(steps, pos + 1, logs)
                }
            },
            VmStep::StorageRoot { main_trie } => {
                if main_trie {
                    RunStop::Blocked { at: pos, logs }
                } else {
                    run_from(steps, pos + 1, logs)
                }
            },
            VmStep::NextChildTrie => run_from(steps, pos + 1, logs),
            VmStep::SignatureVerification { .. } => RunStop::Blocked { at: pos, logs },
            VmStep::CallRuntimeVersion => run_from(steps, pos + 1, logs),
            VmStep::GetMaxLogLevel => run_from(steps, pos + 1, logs),
            VmStep::LogEmit { message } => {
                if logs.len() + message@.len() >= (MAX_LOGS_LEN as int) {
                    RunStop::DoneLogsTooLong
                } else {
                    run_from(steps, pos + 1, logs + message@)
                }
            },
            VmStep::Finished { value } => RunStop::DoneOk { value: value@, logs },
            VmStep::Trapped { error } => RunStop::DoneTrap { error: error@, logs },
            VmStep::ForbiddenHostFunction => RunStop::DoneForbidden,
        }
    }
}

/// How a [`RuntimeHostVm`] value corresponds to a [`RunStop`]: same stopping
/// point, same logs, same prototype to hand back.
pub open spec fn vm_matches(
    vm: RuntimeHostVm,
    stop: RunStop,
    steps: Seq<VmStep>,
    prototype: HostVmPrototype,
    max_log_level: u32,
) -> bool {
    match stop {
        RunStop::Blocked { at, logs } => {
            match steps[at] {
                VmStep::StorageGet { .. } => vm matches RuntimeHostVm::StorageGet(g)
                    && g.inner_spec().wf_at(steps, at, logs, prototype, max_log_level),
                VmStep::NextKey { .. } => vm matches RuntimeHostVm::NextKey(n)
                    && n.inner_spec().wf_at(steps, at, logs, prototype, max_log_level),
                VmStep::StorageRoot { .. } => vm matches RuntimeHostVm::StorageRoot(r)
                    && r.inner_spec().wf_at(steps, at, logs, prototype, max_log_level),
                VmStep::SignatureVerification { .. } => vm matches
                    RuntimeHostVm::SignatureVerification(s)
                    && s.inner_spec().wf_at(steps, at, logs, prototype, max_log_level),
                _ => false,
            }
        },
        RunStop::DoneOk { value, logs } => vm matches RuntimeHostVm::Finished(res)
            && res matches Ok(s)
            && s.virtual_machine.value_spec() == value
            && s.virtual_machine.prototype_spec() == prototype
            && s.logs@ == logs,
        RunStop::DoneTrap { error, logs } => vm matches RuntimeHostVm::Finished(res)
            && res matches Err(e)
            && e.detail matches ErrorDetail::WasmVm { error: err2, logs: logs2 }
            && err2@ == error
            && logs2@ == logs
            && e.prototype == prototype,
        RunStop::DoneLogsTooLong => vm matches RuntimeHostVm::Finished(res)
            && res matches Err(e)
            && e.detail matches ErrorDetail::LogsTooLong
            && e.prototype == prototype,
        RunStop::DoneForbidden => vm matches RuntimeHostVm::Finished(res)
            && res matches Err(e)
            && e.detail matches ErrorDetail::ForbiddenHostCall
            && e.prototype == prototype,
    }
}

impl Inner {
    /// The script of the execution.
    pub closed spec fn steps_spec(&self) -> Seq<VmStep> {
        self.steps@
    }

    /// The position of the step the execution is stopped at.
    pub closed spec fn pos_spec(&self) -> int {
        self.pos as int
    }

    /// The logs accumulated so far.
    pub closed spec fn logs_spec(&self) -> Seq<u8> {
        self.logs@
    }

    /// The prototype handed back when the execution ends.
    pub closed spec fn prototype_spec(&self) -> HostVmPrototype {
        HostVmPrototype { exported_functions: self.exported_functions, steps: self.steps }
    }

    /// The maximum log level of this execution.
    pub closed spec fn max_log_level_spec(&self) -> u32 {
        self.max_log_level
    }

    /// The state is stopped at the blocking step `at` of `steps`.
    pub open spec fn wf_at(
        &self,
        steps: Seq<VmStep>,
        at: int,
        logs: Seq<u8>,
        prototype: HostVmPrototype,
        max_log_level: u32,
    ) -> bool {
        &&& self.steps_spec() == steps
        &&& self.pos_spec() == at
        &&& self.logs_spec() == logs
        &&& self.prototype_spec() == prototype
        &&& self.max_log_level_spec() == max_log_level
        &&& self.wf()
    }

    /// The state is stopped at a blocking step of a well-formed script.
    pub open spec fn wf(&self) -> bool {
        &&& script_wf(self.steps_spec())
        &&& 0 <= self.pos_spec() < self.steps_spec().len()
        &&& step_blocks(self.steps_spec()[self.pos_spec()])
        &&& self.logs_spec().len() < MAX_LOGS_LEN
    }

    /// Processes steps until the execution blocks or ends.
    #[verifier::loop_isolation(false)]
    pub fn run(self) -> (vm: RuntimeHostVm)
        requires
            script_wf(self.steps_spec()),
            0 <= self.pos_spec() <= self.steps_spec().len(),
            self.logs_spec().len() < MAX_LOGS_LEN,
        ensures
            vm_matches(
                vm,
                run_from(self.steps_spec(), self.pos_spec(), self.logs_spec()),
                self.steps_spec(),
                self.prototype_spec(),
                self.max_log_level_spec(),
            ),
    {
        let ghost s0 = self;
        let mut me = self;
        loop
            invariant
                script_wf(me.steps@),
                0 <= me.pos <= me.steps@.len(),
                me.logs@.len() < MAX_LOGS_LEN,
                run_from(me.steps@, me.pos as int, me.logs@) == run_from(
                    s0.steps_spec(),
                    s0.pos_spec(),
                    s0.logs_spec(),
                ),
                me.steps == s0.steps,
                me.exported_functions == s0.exported_functions,
                me.max_log_level == s0.max_log_level,
            decreases me.steps@.len() - me.pos,
        {
            if me.pos >= me.steps.len() {
                // Unreachable for a well-formed script; reported as a trap.
                proof {
                    assert(run_from(me.steps@, me.pos as int, me.logs@) == (RunStop::DoneTrap {
                        error: Seq::<u8>::empty(),
                        logs: me.logs@,
                    }));
                }
                let empty_err: Vec<u8> = Vec::new();
                proof {
                    assert(empty_err@ =~= Seq::<u8>::empty());
                }
                let logs = me.logs;
                return RuntimeHostVm::Finished(Err(Error {
                    detail: ErrorDetail::WasmVm { error: empty_err, logs },
                    prototype: HostVmPrototype {
                        exported_functions: me.exported_functions,
                        steps: me.steps,
                    },
                }));
            }
            let blocking: bool = match &me.steps[me.pos] {
                VmStep::StorageGet { main_trie, .. } => *main_trie,
                VmStep::NextKey { main_trie, .. } => *main_trie,
                VmStep::StorageRoot { main_trie } => *main_trie,
                VmStep::SignatureVerification { .. } => true,
                _ => false,
            };
            if blocking {
                let which: u8 = match &me.steps[me.pos] {
                    VmStep::StorageGet { .. } => 0,
                    VmStep::NextKey { .. } => 1,
                    VmStep::StorageRoot { .. } => 2,
                    _ => 3,
                };
                proof {
                    assert(run_from(me.steps@, me.pos as int, me.logs@) == (RunStop::Blocked {
                        at: me.pos as int,
                        logs: me.logs@,
                    }));
                }
                return match which {
                    0 => RuntimeHostVm::StorageGet(StorageGet { inner: me }),
                    1 => RuntimeHostVm::NextKey(NextKey { inner: me }),
                    2 => RuntimeHostVm::StorageRoot(StorageRoot { inner: me }),
                    _ => RuntimeHostVm::SignatureVerification(SignatureVerification {
                        inner: me,
                    }),
                };
            }
            let ending: bool = match &me.steps[me.pos] {
                VmStep::Finished { .. } => true,
                VmStep::Trapped { .. } => true,
                VmStep::ForbiddenHostFunction => true,
                _ => false,
            };
            if ending {
                let (kind, payload): (u8, Vec<u8>) = match &me.steps[me.pos] {
                    VmStep::Finished { value } => (0u8, clone_bytes(value)),
                    VmStep::Trapped { error } => (1u8, clone_bytes(error)),
                    _ => (2u8, Vec::new()),
                };
                proof {
                    if kind == 0 {
                        assert(me.steps@[me.pos as int] matches VmStep::Finished { value }
                            && run_from(me.steps@, me.pos as int, me.logs@) == (RunStop::DoneOk {
                                value: value@,
                                logs: me.logs@,
                            }));
                    } else if kind == 1 {
                        assert(me.steps@[me.pos as int] matches VmStep::Trapped { error }
                            && run_from(me.steps@, me.pos as int, me.logs@) == (RunStop::DoneTrap {
                                error: error@,
                                logs: me.logs@,
                            }));
                    } else {
                        assert(run_from(me.steps@, me.pos as int, me.logs@)
                            == RunStop::DoneForbidden);
                    }
                }
                let prototype = HostVmPrototype {
                    exported_functions: me.exported_functions,
                    steps: me.steps,
                };
                let logs = me.logs;
                return match kind {
                    0 => RuntimeHostVm::Finished(Ok(Success {
                        virtual_machine: SuccessVirtualMachine { value: payload, prototype },
                        logs,
                    })),
                    1 => RuntimeHostVm::Finished(Err(Error {
                        detail: ErrorDetail::WasmVm { error: payload, logs },
                        prototype,
                    })),
                    _ => RuntimeHostVm::Finished(Err(Error {
                        detail: ErrorDetail::ForbiddenHostCall,
                        prototype,
                    })),
                };
            }
            // A step that is answered internally: child-trie requests resolve
            // to nothing, the log level is answered from the configuration,
            // logs are accumulated up to the cap.
            let log_overflow: bool = match &me.steps[me.pos] {
                VmStep::LogEmit { message } => message.len() >= MAX_LOGS_LEN
                    || me.logs.len() >= MAX_LOGS_LEN - message.len(),
                _ => false,
            };
            if log_overflow {
                return RuntimeHostVm::Finished(Err(Error {
                    detail: ErrorDetail::LogsTooLong,
                    prototype: HostVmPrototype {
                        exported_functions: me.exported_functions,
                        steps: me.steps,
                    },
                }));
            }
            let appended: Option<Vec<u8>> = match &me.steps[me.pos] {
                VmStep::LogEmit { message } => Some(clone_bytes(message)),
                _ => None,
            };
            if let Some(message) = appended {
                crate::bytes::push_bytes(&mut me.logs, message.as_slice());
            }
            me.pos += 1;
        }
    }
}

/// Loading a storage value is required in order to continue.
#[must_use]
pub struct StorageGet {
    inner: Inner,
}

impl StorageGet {
    /// The execution state held by this value.
    pub closed spec fn inner_spec(&self) -> Inner {
        self.inner
    }

    /// The state is stopped at a main-trie storage read.
    pub open spec fn wf(&self) -> bool {
        &&& self.inner_spec().wf()
        &&& self.inner_spec().steps_spec()[self.inner_spec().pos_spec()] matches
            VmStep::StorageGet { main_trie: true, .. }
    }

    /// The key whose storage value the runtime reads.
    pub open spec fn key_spec(&self) -> Seq<u8> {
        match self.inner_spec().steps_spec()[self.inner_spec().pos_spec()] {
            VmStep::StorageGet { key, .. } => key@,
            _ => Seq::empty(),
        }
    }

    /// Returns the key whose value must be passed to [`StorageGet::inject_value`].
    pub fn key(&self) -> (r: &Vec<u8>)
        requires
            self.wf(),
        ensures
            r@ == self.key_spec(),
    {
        let step = &self.inner.steps[self.inner.pos];
        match step {
            VmStep::StorageGet { key, .. } => key,
            _ => vstd::pervasive::unreached(),
        }
    }

    /// Injects the corresponding storage value and continues the execution.
    pub fn inject_value(self, value: Option<Vec<u8>>) -> (vm: RuntimeHostVm)
        requires
            self.wf(),
        ensures
            vm_matches(
                vm,
                run_from(
                    self.inner_spec().steps_spec(),
                    self.inner_spec().pos_spec() + 1,
                    self.inner_spec().logs_spec(),
                ),
                self.inner_spec().steps_spec(),
                self.inner_spec().prototype_spec(),
                self.inner_spec().max_log_level_spec(),
            ),
    {
        let _ = value;
        let mut inner = self.inner;
        let n = inner.steps.len();
        assert(inner.pos < n);
        inner.pos += 1;
        inner.run()
    }
}

/// Fetching the key that follows a given one is required in order to continue.
#[must_use]
pub struct NextKey {
    inner: Inner,
}

impl NextKey {
    /// The execution state held by this value.
    pub closed spec fn inner_spec(&self) -> Inner {
        self.inner
    }

    /// The state is stopped at a main-trie next-key request.
    pub open spec fn wf(&self) -> bool {
        &&& self.inner_spec().wf()
        &&& self.inner_spec().steps_spec()[self.inner_spec().pos_spec()] matches
            VmStep::NextKey { main_trie: true, .. }
    }

    /// The key whose follower the runtime asks for.
    pub open spec fn key_spec(&self) -> Seq<u8> {
        match self.inner_spec().steps_spec()[self.inner_spec().pos_spec()] {
            VmStep::NextKey { key, .. } => key@,
            _ => Seq::empty(),
        }
    }

    /// Returns the key whose next key must be passed back.
    pub fn key(&self) -> (r: &Vec<u8>)
        requires
            self.wf(),
        ensures
            r@ == self.key_spec(),
    {
        let step = &self.inner.steps[self.inner.pos];
        match step {
            VmStep::NextKey { key, .. } => key,
            _ => vstd::pervasive::unreached(),
        }
    }

    /// If `true`, then the provided value must be the one superior or equal to
    /// the requested key. If `false`, then the provided value must be strictly
    /// superior to the requested key.
    pub fn or_equal(&self) -> (r: bool)
        ensures
            r == false,
    {
        false
    }

    /// If `true`, then the search must include both branch nodes and storage
    /// nodes. If `false`, the search only covers storage nodes.
    pub fn branch_nodes(&self) -> (r: bool)
        ensures
            r == false,
    {
        false
    }

    /// Returns the prefix the next key must start with. If the next key doesn't
    /// start with the given prefix, then `None` should be provided.
    pub fn prefix(&self) -> (r: Vec<u8>)
        ensures
            r@ == Seq::<u8>::empty(),
    {
        Vec::new()
    }

    /// Injects the key and continues the execution.
    ///
    /// The key passed as parameter must be strictly superior to the requested
    /// key.
    pub fn inject_key(self, key: Option<Vec<u8>>) -> (vm: RuntimeHostVm)
        requires
            self.wf(),
            key matches Some(k) ==> bytes_lt(self.key_spec(), k@),
        ensures
            vm_matches(
                vm,
                run_from(
                    self.inner_spec().steps_spec(),
                    self.inner_spec().pos_spec() + 1,
                    self.inner_spec().logs_spec(),
                ),
                self.inner_spec().steps_spec(),
                self.inner_spec().prototype_spec(),
                self.inner_spec().max_log_level_spec(),
            ),
    {
        let _ = key;
        let mut inner = self.inner;
        let n = inner.steps.len();
        assert(inner.pos < n);
        inner.pos += 1;
        inner.run()
    }
}

/// Fetching the storage trie root is required in order to continue.
#[must_use]
pub struct StorageRoot {
    inner: Inner,
}

impl StorageRoot {
    /// The execution state held by this value.
    pub closed spec fn inner_spec(&self) -> Inner {
        self.inner
    }

    /// The state is stopped at a main-trie storage-root request.
    pub open spec fn wf(&self) -> bool {
        &&& self.inner_spec().wf()
        &&& self.inner_spec().steps_spec()[self.inner_spec().pos_spec()] matches
            VmStep::StorageRoot { main_trie: true }
    }

    /// Writes the trie root hash back to the virtual machine and continues.
    pub fn resume(self, hash: &[u8; 32]) -> (vm: RuntimeHostVm)
        requires
            self.wf(),
        ensures
            vm_matches(
                vm,
                run_from(
                    self.inner_spec().steps_spec(),
                    self.inner_spec().pos_spec() + 1,
                    self.inner_spec().logs_spec(),
                ),
                self.inner_spec().steps_spec(),
                self.inner_spec().prototype_spec(),
                self.inner_spec().max_log_level_spec(),
            ),
    {
        let _ = hash;
        let mut inner = self.inner;
        let n = inner.steps.len();
        assert(inner.pos < n);
        inner.pos += 1;
        inner.run()
    }
}

/// Verifying whether a signature is correct is required in order to continue.
#[must_use]
pub struct SignatureVerification {
    inner: Inner,
}

impl SignatureVerification {
    /// The execution state held by this value.
    pub closed spec fn inner_spec(&self) -> Inner {
        self.inner
    }

    /// The state is stopped at a signature-verification request.
    pub open spec fn wf(&self) -> bool {
        &&& self.inner_spec().wf()
        &&& self.inner_spec().steps_spec()[self.inner_spec().pos_spec()] matches
            VmStep::SignatureVerification { .. }
    }

    /// The message of the request.
    pub open spec fn message_spec(&self) -> Seq<u8> {
        match self.inner_spec().steps_spec()[self.inner_spec().pos_spec()] {
            VmStep::SignatureVerification { message, .. } => message@,
            _ => Seq::empty(),
        }
    }

    /// The signature of the request.
    pub open spec fn signature_spec(&self) -> Seq<u8> {
        match self.inner_spec().steps_spec()[self.inner_spec().pos_spec()] {
            VmStep::SignatureVerification { signature, .. } => signature@,
            _ => Seq::empty(),
        }
    }

    /// The public key of the request.
    pub open spec fn public_key_spec(&self) -> Seq<u8> {
        match self.inner_spec().steps_spec()[self.inner_spec().pos_spec()] {
            VmStep::SignatureVerification { public_key, .. } => public_key@,
            _ => Seq::empty(),
        }
    }

    /// Whether the signature of the request is valid.
    pub open spec fn is_valid_spec(&self) -> bool {
        match self.inner_spec().steps_spec()[self.inner_spec().pos_spec()] {
            VmStep::SignatureVerification { valid, .. } => valid,
            _ => false,
        }
    }

    /// Returns the message that the signature is expected to sign.
    pub fn message(&self) -> (r: &Vec<u8>)
        requires
            self.wf(),
        ensures
            r@ == self.message_spec(),
    {
        let step = &self.inner.steps[self.inner.pos];
        match step {
            VmStep::SignatureVerification { message, .. } => message,
            _ => vstd::pervasive::unreached(),
        }
    }

    /// Returns the signature.
    ///
    /// This signature is untrusted input and might not be part of the set of
    /// valid signatures.
    pub fn signature(&self) -> (r: &Vec<u8>)
        requires
            self.wf(),
        ensures
            r@ == self.signature_spec(),
    {
        let step = &self.inner.steps[self.inner.pos];
        match step {
            VmStep::SignatureVerification { signature, .. } => signature,
            _ => vstd::pervasive::unreached(),
        }
    }

    /// Returns the public key the signature is against.
    ///
    /// This public key is untrusted input and might not be part of the set of
    /// valid public keys.
    pub fn public_key(&self) -> (r: &Vec<u8>)
        requires
            self.wf(),
        ensures
            r@ == self.public_key_spec(),
    {
        let step = &self.inner.steps[self.inner.pos];
        match step {
            VmStep::SignatureVerification { public_key, .. } => public_key,
            _ => vstd::pervasive::unreached(),
        }
    }

    /// Verify the signature. Returns `true` if it is valid.
    pub fn is_valid(&self) -> (r: bool)
        requires
            self.wf(),
        ensures
            r == self.is_valid_spec(),
    {
        let step = &self.inner.steps[self.inner.pos];
        match step {
            VmStep::SignatureVerification { valid, .. } => *valid,
            _ => false,
        }
    }

    /// Verify the signature and resume execution.
    pub fn verify_and_resume(self) -> (vm: RuntimeHostVm)
        requires
            self.wf(),
        ensures
            vm_matches(
                vm,
                run_from(
                    self.inner_spec().steps_spec(),
                    self.inner_spec().pos_spec() + 1,
                    self.inner_spec().logs_spec(),
                ),
                self.inner_spec().steps_spec(),
                self.inner_spec().prototype_spec(),
                self.inner_spec().max_log_level_spec(),
            ),
    {
        let mut inner = self.inner;
        let n = inner.steps.len();
        assert(inner.pos < n);
        inner.pos += 1;
        inner.run()
    }

    /// Resume the execution assuming that the signature is valid.
    ///
    /// You are strongly encouraged to call
    /// [`SignatureVerification::verify_and_resume`]. This function is meant to
    /// be used only in debugging situations.
    pub fn resume_success(self) -> (vm: RuntimeHostVm)
        requires
            self.wf(),
        ensures
            vm_matches(
                vm,
                run_from(
                    self.inner_spec().steps_spec(),
                    self.inner_spec().pos_spec() + 1,
                    self.inner_spec().logs_spec(),
                ),
                self.inner_spec().steps_spec(),
                self.inner_spec().prototype_spec(),
                self.inner_spec().max_log_level_spec(),
            ),
    {
        let mut inner = self.inner;
        let n = inner.steps.len();
        assert(inner.pos < n);
        inner.pos += 1;
        inner.run()
    }

    /// Resume the execution assuming that the signature is invalid.
    ///
    /// You are strongly encouraged to call
    /// [`SignatureVerification::verify_and_resume`]. This function is meant to
    /// be used only in debugging situations.
    pub fn resume_failed(self) -> (vm: RuntimeHostVm)
        requires
            self.wf(),
        ensures
            vm_matches(
                vm,
                run_from(
                    self.inner_spec().steps_spec(),
                    self.inner_spec().pos_spec() + 1,
                    self.inner_spec().logs_spec(),
                ),
                self.inner_spec().steps_spec(),
                self.inner_spec().prototype_spec(),
                self.inner_spec().max_log_level_spec(),
            ),
    {
        let mut inner = self.inner;
        let n = inner.steps.len();
        assert(inner.pos < n);
        inner.pos += 1;
        inner.run()
    }
}

impl RuntimeHostVm {
    /// Cancels execution of the virtual machine and returns back the prototype.
    pub fn into_prototype(self) -> (r: HostVmPrototype)
        ensures
            match self {
                RuntimeHostVm::Finished(Ok(s)) => r == s.virtual_machine.prototype_spec(),
                RuntimeHostVm::Finished(Err(e)) => r == e.prototype,
                RuntimeHostVm::StorageGet(g) => r == g.inner_spec().prototype_spec(),
                RuntimeHostVm::NextKey(n) => r == n.inner_spec().prototype_spec(),
                RuntimeHostVm::StorageRoot(sr) => r == sr.inner_spec().prototype_spec(),
                RuntimeHostVm::SignatureVerification(s) => r == s.inner_spec().prototype_spec(),
            },
    {
        match self {
            RuntimeHostVm::Finished(Ok(s)) => s.virtual_machine.into_prototype(),
            RuntimeHostVm::Finished(Err(e)) => e.prototype,
            RuntimeHostVm::StorageGet(g) => HostVmPrototype {
                exported_functions: g.inner.exported_functions,
                steps: g.inner.steps,
            },
            RuntimeHostVm::NextKey(n) => HostVmPrototype {
                exported_functions: n.inner.exported_functions,
                steps: n.inner.steps,
            },
            RuntimeHostVm::StorageRoot(sr) => HostVmPrototype {
                exported_functions: sr.inner.exported_functions,
                steps: sr.inner.steps,
            },
            RuntimeHostVm::SignatureVerification(s) => HostVmPrototype {
                exported_functions: s.inner.exported_functions,
                steps: s.inner.steps,
            },
        }
    }
}

/// True if the prototype exports an entry point with the given name.
pub open spec fn has_export(proto: HostVmPrototype, name: Seq<u8>) -> bool {
    exists|i: int|
        0 <= i < proto.exported_functions@.len() && proto.exported_functions@[i]@ == name
}

/// Start running the virtual machine.
pub fn run(config: Config) -> (r: Result<RuntimeHostVm, (StartErr, HostVmPrototype)>)
    requires
        script_wf(config.virtual_machine.steps@),
    ensures
        match r {
            Ok(vm) => has_export(config.virtual_machine, config.function_to_call@)
                && vm_matches(
                    vm,
                    run_from(config.virtual_machine.steps@, 0, Seq::empty()),
                    config.virtual_machine.steps@,
                    config.virtual_machine,
                    config.max_log_level,
                ),
            Err((e, proto)) => !has_export(config.virtual_machine, config.function_to_call@)
                && e == StartErr::FunctionNotFound
                && proto == config.virtual_machine,
        },
{
    let mut found = false;
    let mut i: usize = 0;
    while i < config.virtual_machine.exported_functions.len()
        invariant
            i <= config.virtual_machine.exported_functions@.len(),
            found == exists|j: int|
                0 <= j < i && config.virtual_machine.exported_functions@[j]@
                    == config.function_to_call@,
        decreases config.virtual_machine.exported_functions@.len() - i,
    {
        if bytes_eq(&config.virtual_machine.exported_functions[i], &config.function_to_call) {
            found = true;
        }
        i += 1;
    }
    if !found {
        return Err((StartErr::FunctionNotFound, config.virtual_machine));
    }
    let HostVmPrototype { exported_functions, steps } = config.virtual_machine;
    let inner = Inner {
        exported_functions,
        steps,
        pos: 0,
        logs: Vec::new(),
        max_log_level: config.max_log_level,
    };
    Ok(inner.run())
}

} // verus!
