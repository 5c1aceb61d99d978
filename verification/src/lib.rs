use vstd::prelude::*;

pub mod dispatch;
pub mod identity;
pub mod registry;
pub mod store;
pub mod supervisor;

use crate::identity::PluginIdentity;
use crate::registry::{perm_views, CapabilityRegistry, IssueError};

verus! {

/// The key a window/webview label pair names: an empty webview label means the
/// surface has no dedicated webview.
pub open spec fn labels_key(window: Seq<char>, webview: Seq<char>) -> (
    Seq<char>,
    Option<Seq<char>>,
) {
    (
        window,
        if webview.len() == 0 {
            None
        } else {
            Some(webview)
        },
    )
}

/// The capability command of the host surface: issues a grant for the surface
/// the labels name, with the requested permission set. The caller needs no
/// return payload; the committed grant is the side effect, and the surface
/// must not be made interactive before this returns `Ok` (grant before
/// expose).
pub fn issue_capability(
    registry: &mut CapabilityRegistry,
    window: String,
    webview: String,
    permissions: Vec<String>,
) -> (r: Result<(), IssueError>)
    requires
        old(registry).wf(),
    ensures
        final(registry).wf(),
        r matches Ok(u) <==> (old(registry).all_recognized(permissions@) && !old(
            registry,
        ).spec_has_grant(labels_key(window@, webview@))),
        r matches Err(e) ==> *final(registry) == *old(registry) && (e
            == IssueError::UnknownPermission <==> !old(registry).all_recognized(permissions@)),
        r matches Ok(u) ==> final(registry).spec_permissions_of(labels_key(window@, webview@))
            == perm_views(permissions@) && final(registry).spec_has_grant(
            labels_key(window@, webview@),
        ),
        r matches Ok(u) ==> forall|key2: (Seq<char>, Option<Seq<char>>)|
            key2 != labels_key(window@, webview@) ==> final(registry).spec_permissions_of(key2)
                == old(registry).spec_permissions_of(key2) && final(registry).spec_has_grant(key2)
                == old(registry).spec_has_grant(key2),
{
    let subject = PluginIdentity::from_labels(window, webview);
    registry.issue(subject, permissions)
}

/// The single-permission form of the capability command, for surfaces that
/// need exactly one capability.
pub fn issue_single_capability(
    registry: &mut CapabilityRegistry,
    window: String,
    webview: String,
    permission: String,
) -> (r: Result<(), IssueError>)
    requires
        old(registry).wf(),
    ensures
        final(registry).wf(),
        r matches Ok(u) <==> (old(registry).recognized(permission@) && !old(
            registry,
        ).spec_has_grant(labels_key(window@, webview@))),
        r matches Ok(u) ==> final(registry).spec_permissions_of(labels_key(window@, webview@))
            == seq![permission@] && final(registry).spec_has_grant(labels_key(window@, webview@)),
        r matches Err(e) ==> *final(registry) == *old(registry) && (e
            == registry::IssueError::UnknownPermission <==> !old(registry).recognized(
            permission@,
        )),
        r matches Ok(u) ==> forall|key2: (Seq<char>, Option<Seq<char>>)|
            key2 != labels_key(window@, webview@) ==> final(registry).spec_permissions_of(key2)
                == old(registry).spec_permissions_of(key2) && final(registry).spec_has_grant(key2)
                == old(registry).spec_has_grant(key2),
{
    let mut permissions: Vec<String> = Vec::new();
    permissions.push(permission);
    proof {
        assert(perm_views(permissions@) =~= seq![permissions@[0]@]);
        assert(forall|j: int|
            0 <= j < permissions@.len() ==> #[trigger] permissions@[j]@ == permission@);
    }
    issue_capability(registry, window, webview, permissions)
}

/// The expose step of a plugin surface's creation: admits the surface only
/// when its grant is already committed, so a surface never becomes
/// interactive before its permission set is in force (grant before expose).
/// The returned flag says whether the surface may be shown.
pub fn expose_surface(
    registry: &CapabilityRegistry,
    exposed: &mut Vec<PluginIdentity>,
    subject: PluginIdentity,
) -> (r: bool)
    ensures
        r == registry.spec_has_grant(subject.key()),
        r ==> final(exposed)@ == old(exposed)@.push(subject),
        !r ==> final(exposed)@ == old(exposed)@,
{
    if registry.has_grant(&subject) {
        exposed.push(subject);
        true
    } else {
        false
    }
}

} // verus!
