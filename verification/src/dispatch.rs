use vstd::prelude::*;

use crate::identity::PluginIdentity;
use crate::registry::{CapabilityGrant, CapabilityRegistry};

verus! {

/// The execution backends a plugin invocation can be routed to.
#[derive(Clone, Copy, PartialEq, Eq, Structural, Debug)]
pub enum Runtime {
    /// A symbol resolved in a dynamically loaded library, called in-process.
    Native,
    Node,
    Php,
    Python,
}

/// One plugin invocation request: which backend, what to run there, the
/// arguments, and the permission the action requires. Created per dispatch
/// call and consumed once.
pub struct ScriptInvocation {
    pub runtime: Runtime,
    /// A script path for interpreter backends, a symbol name for the native one.
    pub target: String,
    pub arguments: Vec<String>,
    /// The permission string the grant must cover for this action to run.
    pub capability: String,
}

/// An admitted invocation, ready for its backend: the runtime, the target
/// and the arguments. Holding a plan is the only way to reach a backend, so
/// a denied invocation invokes nothing.
pub struct BackendPlan {
    pub runtime: Runtime,
    pub target: String,
    pub arguments: Vec<String>,
}

/// What a backend run came back with, as observed at the process or call
/// boundary.
pub enum BackendEvent {
    /// The interpreter binary could not be found.
    InterpreterMissing,
    /// The script path does not name a readable file.
    ScriptMissing,
    /// The child process ran to completion.
    Exited { code: i32, stdout: String, stderr: String },
    /// The configured bound elapsed and the child was terminated.
    TimedOut,
    /// The native symbol was called and returned a marshaled value.
    NativeReturned { value: String },
    /// The native library or symbol could not be resolved or the call failed.
    NativeFailed { symbol: String, cause: String },
}

/// The one result shape every backend is normalized to: the child's exit
/// status verbatim, and the captured text.
pub struct Output {
    pub status: i32,
    pub stdout: String,
    pub stderr: String,
}

/// Why a dispatch did not produce an `Output`. Every variant is returned to
/// the caller, never raised: one failed invocation leaves the dispatcher
/// usable for the next.
#[derive(Debug)]
pub enum DispatchError {
    /// The grant does not cover the requested capability; nothing was invoked.
    PermissionDenied,
    /// The interpreter binary for the requested runtime was not found.
    RuntimeUnavailable,
    /// The script path does not name an existing file.
    ScriptNotFound,
    /// The child ran but exited nonzero; the captured text is kept.
    NonZeroExit { code: i32, stdout: String, stderr: String },
    /// The native call failed; the symbol and the cause are kept.
    NativeCallFailed { symbol: String, cause: String },
    /// The configured time bound elapsed.
    Timeout,
}

/// The normalization every backend observation maps through: an exit with
/// status zero and a native return become an `Output`; everything else is the
/// matching error, with captured text and exit status carried verbatim.
pub open spec fn normalizes(event: BackendEvent, r: Result<Output, DispatchError>) -> bool {
    match event {
        BackendEvent::InterpreterMissing => r == Err::<Output, DispatchError>(
            DispatchError::RuntimeUnavailable,
        ),
        BackendEvent::ScriptMissing => r == Err::<Output, DispatchError>(
            DispatchError::ScriptNotFound,
        ),
        BackendEvent::Exited { code, stdout, stderr } => {
            if code == 0 {
                r == Ok::<Output, DispatchError>(Output { status: code, stdout, stderr })
            } else {
                r == Err::<Output, DispatchError>(
                    DispatchError::NonZeroExit { code, stdout, stderr },
                )
            }
        },
        BackendEvent::TimedOut => r == Err::<Output, DispatchError>(DispatchError::Timeout),
        BackendEvent::NativeReturned { value } => (r matches Ok(out) && out.status == 0
            && out.stdout == value && out.stderr@ == Seq::<char>::empty()),
        BackendEvent::NativeFailed { symbol, cause } => r == Err::<Output, DispatchError>(
            DispatchError::NativeCallFailed { symbol, cause },
        ),
    }
}

/// Normalizes a backend observation into the single caller-visible result
/// shape, backend-agnostically.
pub fn normalize_outcome(event: BackendEvent) -> (r: Result<Output, DispatchError>)
    ensures
        normalizes(event, r),
{
    match event {
        BackendEvent::InterpreterMissing => Err(DispatchError::RuntimeUnavailable),
        BackendEvent::ScriptMissing => Err(DispatchError::ScriptNotFound),
        BackendEvent::Exited { code, stdout, stderr } => {
            if code == 0 {
                Ok(Output { status: code, stdout, stderr })
            } else {
                Err(DispatchError::NonZeroExit { code, stdout, stderr })
            }
        },
        BackendEvent::TimedOut => Err(DispatchError::Timeout),
        BackendEvent::NativeReturned { value } => {
            let out = Output { status: 0, stdout: value, stderr: String::new() };
            proof {
                assert(out.stderr@ =~= Seq::<char>::empty());
            }
            Ok(out)
        },
        BackendEvent::NativeFailed { symbol, cause } => Err(
            DispatchError::NativeCallFailed { symbol, cause },
        ),
    }
}

/// The enforcement point: admits `invocation` only when `grant` covers its
/// capability. On denial no plan exists, so no backend process is spawned and
/// no native symbol is called.
pub fn dispatch_gate(invocation: ScriptInvocation, grant: &CapabilityGrant) -> (r: Result<
    BackendPlan,
    DispatchError,
>)
    ensures
        grant.spec_covers(invocation.capability@) ==> (r matches Ok(plan) && plan.runtime
            == invocation.runtime && plan.target == invocation.target && plan.arguments
            == invocation.arguments),
        !grant.spec_covers(invocation.capability@) ==> (r matches Err(e) && e
            == DispatchError::PermissionDenied),
{
    if grant.covers(&invocation.capability) {
        Ok(
            BackendPlan {
                runtime: invocation.runtime,
                target: invocation.target,
                arguments: invocation.arguments,
            },
        )
    } else {
        Err(DispatchError::PermissionDenied)
    }
}

/// The enforcement point keyed by subject: admits `invocation` only when the
/// registry's committed grant for `subject` covers its capability. A subject
/// with no grant is denied everything (deny by default).
pub fn dispatch_gate_for(
    registry: &CapabilityRegistry,
    subject: &PluginIdentity,
    invocation: ScriptInvocation,
) -> (r: Result<BackendPlan, DispatchError>)
    ensures
        registry.spec_permissions_of(subject.key()).contains(invocation.capability@) ==> (r
            matches Ok(plan) && plan.runtime == invocation.runtime && plan.target
            == invocation.target && plan.arguments == invocation.arguments),
        !registry.spec_permissions_of(subject.key()).contains(invocation.capability@) ==> (r
            matches Err(e) && e == DispatchError::PermissionDenied),
{
    if registry.subject_covers(subject, &invocation.capability) {
        Ok(
            BackendPlan {
                runtime: invocation.runtime,
                target: invocation.target,
                arguments: invocation.arguments,
            },
        )
    } else {
        Err(DispatchError::PermissionDenied)
    }
}

} // verus!
