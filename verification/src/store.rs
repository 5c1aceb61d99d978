use vstd::prelude::*;

verus! {

#[verifier::external_type_specification]
#[verifier::external_body]
pub struct ExValue(serde_json::Value);

/// Relies on serde_json::Value::as_u64: Some only when the value is an
/// integer representable as u64, None otherwise. The contract states nothing,
/// so callers handle every outcome.
pub assume_specification[ serde_json::Value::as_u64 ](v: &serde_json::Value) -> (r: Option<u64>);

/// The typed persisted state the supervisor works with, in place of ad hoc
/// key/value presence checks: the schema version for migrations, and the
/// last-known process id of the supervised local service.
pub struct PersistedState {
    pub schema_version: String,
    pub service_pid: Option<u32>,
}

/// Decides the effective schema version at startup: a stored version wins,
/// and a missing one is replaced by the host's current version, which is then
/// written back exactly once.
pub fn reconcile_version(stored: Option<String>, current: String) -> (r: (String, bool))
    ensures
        stored matches Some(v) ==> r.0 == v && r.1 == false,
        stored matches None ==> r.0 == current && r.1 == true,
{
    match stored {
        Some(v) => (v, false),
        None => (current, true),
    }
}

/// Builds the typed state from what the backing store held, with explicit
/// defaulting: a missing version becomes the host's current one (to be written
/// back, as the flag says), and a missing or invalid pid becomes "no persisted
/// instance".
pub fn load_persisted_state(
    stored_version: Option<String>,
    current_version: String,
    raw_pid: Option<u64>,
) -> (r: (PersistedState, bool))
    ensures
        stored_version matches Some(v) ==> r.0.schema_version == v && r.1 == false,
        stored_version matches None ==> r.0.schema_version == current_version && r.1 == true,
        r.0.service_pid == (match raw_pid {
            Some(n) => if n <= u32::MAX as u64 { Some(n as u32) } else { None::<u32> },
            None => None::<u32>,
        }),
{
    let (schema_version, write_back) = reconcile_version(stored_version, current_version);
    let service_pid = decode_service_pid(raw_pid);
    (PersistedState { schema_version, service_pid }, write_back)
}

/// Reads a persisted process id out of a raw store value. A missing entry, a
/// non-integer entry, and an integer too large for a process id all yield
/// None; the validation itself is `decode_service_pid`.
pub fn load_service_pid(raw: Option<serde_json::Value>) -> (r: Option<u32>)
    ensures
        raw matches None ==> r matches None,
        r matches Some(p) ==> p <= u32::MAX,
{
    match raw {
        Some(v) => decode_service_pid(v.as_u64()),
        None => None,
    }
}

/// Validates a raw persisted process id: only values that fit a process id
/// are accepted; anything else is treated as "no persisted instance".
pub fn decode_service_pid(raw: Option<u64>) -> (r: Option<u32>)
    ensures
        r == (match raw {
            Some(n) => if n <= u32::MAX as u64 { Some(n as u32) } else { None::<u32> },
            None => None::<u32>,
        }),
{
    match raw {
        Some(n) => {
            if n <= u32::MAX as u64 {
                Some(n as u32)
            } else {
                None
            }
        },
        None => None,
    }
}

} // verus!
