use vstd::prelude::*;

use crate::identity::PluginIdentity;

verus! {

/// Why issuing a grant was refused.
#[derive(Clone, Copy, PartialEq, Eq, Structural, Debug)]
pub enum IssueError {
    /// Some requested permission string is outside the recognized vocabulary.
    UnknownPermission,
    /// The subject already holds a grant; the policy is strict, not additive.
    DuplicateSubject,
}

/// An explicit, enumerated permission set bound to one plugin surface.
/// Owned exclusively by the registry once issued.
pub struct CapabilityGrant {
    pub subject: PluginIdentity,
    pub permissions: Vec<String>,
}

/// The permission strings of a sequence, as character sequences. Membership
/// in this sequence is the set the grant stands for.
pub open spec fn perm_views(v: Seq<String>) -> Seq<Seq<char>> {
    v.map_values(|p: String| p@)
}

impl CapabilityGrant {
    /// The permission set of this grant, as a sequence of character sequences;
    /// the set it stands for is its membership.
    pub open spec fn perms(&self) -> Seq<Seq<char>> {
        perm_views(self.permissions@)
    }

    /// Whether this grant covers the given permission.
    pub open spec fn spec_covers(&self, perm: Seq<char>) -> bool {
        self.perms().contains(perm)
    }

    /// Whether this grant covers the given permission.
    pub fn covers(&self, permission: &String) -> (r: bool)
        ensures
            r == self.spec_covers(permission@),
    {
        contains_string(&self.permissions, permission)
    }
}

/// Whether `v` holds a string equal to `s`, character for character.
pub fn contains_string(v: &Vec<String>, s: &String) -> (r: bool)
    ensures
        r == perm_views(v@).contains(s@),
{
    let n = v.len();
    let mut i: usize = 0;
    while i < n
        invariant
            n == v@.len(),
            0 <= i <= n,
            forall|j: int| 0 <= j < i ==> perm_views(v@)[j] != s@,
        decreases n - i,
    {
        if v[i].eq(s) {
            assert(perm_views(v@)[i as int] == s@);
            return true;
        }
        i += 1;
    }
    assert(!perm_views(v@).contains(s@));
    false
}

/// The first-match permission set of `key` among `gs`: the permissions of the
/// first grant whose subject is `key`, or the empty sequence when none is.
/// Under registry well-formedness at most one grant per subject exists, so
/// "first match" is "the match".
pub open spec fn perms_in(gs: Seq<CapabilityGrant>, key: (Seq<char>, Option<Seq<char>>)) -> Seq<
    Seq<char>,
>
    decreases gs.len(),
{
    if gs.len() == 0 {
        Seq::empty()
    } else if gs[0].subject.key() == key {
        gs[0].perms()
    } else {
        perms_in(gs.drop_first(), key)
    }
}

/// Whether some grant among `gs` is bound to `key`.
pub open spec fn has_grant_in(gs: Seq<CapabilityGrant>, key: (Seq<char>, Option<Seq<char>>)) -> bool
    decreases gs.len(),
{
    if gs.len() == 0 {
        false
    } else {
        gs[0].subject.key() == key || has_grant_in(gs.drop_first(), key)
    }
}

/// `has_grant_in` in quantifier form.
pub proof fn lemma_has_grant_exists(gs: Seq<CapabilityGrant>, key: (Seq<char>, Option<Seq<char>>))
    ensures
        has_grant_in(gs, key) <==> exists|j: int|
            0 <= j < gs.len() && gs[j].subject.key() == key,
    decreases gs.len(),
{
    if gs.len() > 0 {
        lemma_has_grant_exists(gs.drop_first(), key);
        if gs[0].subject.key() == key {
            assert(gs[0].subject.key() == key);
        } else if has_grant_in(gs.drop_first(), key) {
            let j = choose|j: int|
                0 <= j < gs.drop_first().len() && gs.drop_first()[j].subject.key() == key;
            assert(gs[j + 1].subject.key() == key);
        } else if exists|j: int| 0 <= j < gs.len() && gs[j].subject.key() == key {
            let j = choose|j: int| 0 <= j < gs.len() && gs[j].subject.key() == key;
            assert(gs.drop_first()[j - 1].subject.key() == key);
        }
    }
}

/// Deny by default: a subject with no grant among `gs` has the empty
/// permission set.
pub proof fn lemma_deny_by_default(gs: Seq<CapabilityGrant>, key: (Seq<char>, Option<Seq<char>>))
    requires
        !has_grant_in(gs, key),
    ensures
        perms_in(gs, key) == Seq::<Seq<char>>::empty(),
    decreases gs.len(),
{
    if gs.len() > 0 {
        lemma_deny_by_default(gs.drop_first(), key);
    }
}

/// The permission set of `key` is the permissions of the grant at `i`, when
/// that grant is bound to `key` and no earlier one is.
proof fn lemma_perms_in_found(gs: Seq<CapabilityGrant>, key: (Seq<char>, Option<Seq<char>>), i: int)
    requires
        0 <= i < gs.len(),
        gs[i].subject.key() == key,
        forall|j: int| 0 <= j < i ==> gs[j].subject.key() != key,
    ensures
        perms_in(gs, key) == gs[i].perms(),
        has_grant_in(gs, key),
    decreases gs.len(),
{
    if i > 0 {
        assert(gs.drop_first()[i - 1] == gs[i]);
        assert(forall|j: int|
            0 <= j < i - 1 ==> gs.drop_first()[j].subject.key() != key) by {
            assert(forall|j: int| 0 <= j < i - 1 ==> gs.drop_first()[j] == gs[j + 1]);
        }
        lemma_perms_in_found(gs.drop_first(), key, i - 1);
    }
}

/// Appending a grant for a fresh subject gives that subject its permissions
/// and leaves every other subject's set unchanged.
proof fn lemma_perms_in_push(
    gs: Seq<CapabilityGrant>,
    g: CapabilityGrant,
    key: (Seq<char>, Option<Seq<char>>),
)
    requires
        !has_grant_in(gs, g.subject.key()),
    ensures
        perms_in(gs.push(g), key) == if key == g.subject.key() {
            g.perms()
        } else {
            perms_in(gs, key)
        },
        has_grant_in(gs.push(g), key) == (key == g.subject.key() || has_grant_in(gs, key)),
    decreases gs.len(),
{
    if gs.len() == 0 {
        assert(gs.push(g)[0] == g);
        assert(gs.push(g).drop_first() =~= Seq::<CapabilityGrant>::empty());
        if key == g.subject.key() {
            assert(perms_in(gs.push(g), key) == g.perms());
            assert(has_grant_in(gs.push(g), key));
        } else {
            assert(perms_in(gs.push(g), key) == perms_in(
                Seq::<CapabilityGrant>::empty(),
                key,
            ));
            assert(perms_in(gs, key) == Seq::<Seq<char>>::empty());
            assert(has_grant_in(gs.push(g), key) == has_grant_in(
                Seq::<CapabilityGrant>::empty(),
                key,
            ));
        }
    } else {
        assert(gs.push(g)[0] == gs[0]);
        assert(gs.push(g).drop_first() =~= gs.drop_first().push(g));
        assert(!has_grant_in(gs.drop_first(), g.subject.key()));
        lemma_perms_in_push(gs.drop_first(), g, key);
        assert(gs[0].subject.key() != g.subject.key());
        if gs[0].subject.key() == key {
            assert(perms_in(gs.push(g), key) == gs[0].perms());
            assert(perms_in(gs, key) == gs[0].perms());
            assert(has_grant_in(gs.push(g), key));
            assert(has_grant_in(gs, key));
        } else {
            assert(perms_in(gs.push(g), key) == perms_in(gs.drop_first().push(g), key));
            assert(perms_in(gs, key) == perms_in(gs.drop_first(), key));
            assert(has_grant_in(gs.push(g), key) == has_grant_in(gs.drop_first().push(g), key));
            assert(has_grant_in(gs, key) == has_grant_in(gs.drop_first(), key));
        }
    }
}

/// Removing the one grant bound to `key` leaves `key` grantless and every
/// other subject's set unchanged.
proof fn lemma_perms_in_remove(gs: Seq<CapabilityGrant>, key: (Seq<char>, Option<Seq<char>>), i: int)
    requires
        0 <= i < gs.len(),
        gs[i].subject.key() == key,
        forall|j: int| 0 <= j < gs.len() && j != i ==> gs[j].subject.key() != key,
    ensures
        !has_grant_in(gs.remove(i), key),
        forall|key2: (Seq<char>, Option<Seq<char>>)|
            key2 != key ==> perms_in(gs.remove(i), key2) == perms_in(gs, key2),
        forall|key2: (Seq<char>, Option<Seq<char>>)|
            key2 != key ==> has_grant_in(gs.remove(i), key2) == has_grant_in(gs, key2),
    decreases gs.len(),
{
    if i == 0 {
        assert(gs.remove(0) =~= gs.drop_first());
        lemma_has_grant_exists(gs.drop_first(), key);
        assert(forall|j: int| 0 <= j < gs.drop_first().len() ==> gs.drop_first()[j] == gs[j + 1]);
        assert forall|key2: (Seq<char>, Option<Seq<char>>)| key2 != key implies perms_in(
            gs.drop_first(),
            key2,
        ) == perms_in(gs, key2) && has_grant_in(gs.drop_first(), key2) == has_grant_in(
            gs,
            key2,
        ) by {
            assert(gs[0].subject.key() == key);
            assert(perms_in(gs, key2) == perms_in(gs.drop_first(), key2));
            assert(has_grant_in(gs, key2) == (gs[0].subject.key() == key2 || has_grant_in(
                gs.drop_first(),
                key2,
            )));
        }
    } else {
        assert(gs.remove(i)[0] == gs[0]);
        assert(gs.remove(i).len() > 0);
        assert(gs.remove(i).drop_first() =~= gs.drop_first().remove(i - 1));
        assert(gs.drop_first()[i - 1] == gs[i]);
        assert(forall|j: int|
            0 <= j < gs.drop_first().len() && j != i - 1 ==> gs.drop_first()[j] == gs[j + 1]);
        lemma_perms_in_remove(gs.drop_first(), key, i - 1);
        assert(gs[0].subject.key() != key);
        assert(!has_grant_in(gs.remove(i), key)) by {
            assert(has_grant_in(gs.remove(i), key) == (gs.remove(i)[0].subject.key() == key
                || has_grant_in(gs.remove(i).drop_first(), key)));
        }
        assert forall|key2: (Seq<char>, Option<Seq<char>>)| key2 != key implies perms_in(
            gs.remove(i),
            key2,
        ) == perms_in(gs, key2) && has_grant_in(gs.remove(i), key2) == has_grant_in(gs, key2) by {
            assert(perms_in(gs, key2) == if gs[0].subject.key() == key2 {
                gs[0].perms()
            } else {
                perms_in(gs.drop_first(), key2)
            });
            assert(perms_in(gs.remove(i), key2) == if gs[0].subject.key() == key2 {
                gs[0].perms()
            } else {
                perms_in(gs.remove(i).drop_first(), key2)
            });
            assert(has_grant_in(gs, key2) == (gs[0].subject.key() == key2 || has_grant_in(
                gs.drop_first(),
                key2,
            )));
            assert(has_grant_in(gs.remove(i), key2) == (gs[0].subject.key() == key2
                || has_grant_in(gs.remove(i).drop_first(), key2)));
        }
    }
}

/// Issues, tracks and hands out capability grants: at most one active grant
/// per subject; permission strings must come from the fixed vocabulary the
/// registry was created with. A second `issue` for an already-granted subject
/// fails with `DuplicateSubject`: the policy is strict replacement-by-revoke,
/// not silent merging.
pub struct CapabilityRegistry {
    pub vocabulary: Vec<String>,
    pub grants: Vec<CapabilityGrant>,
}

impl CapabilityRegistry {
    /// At most one grant per subject.
    pub open spec fn wf(&self) -> bool {
        forall|i: int, j: int|
            0 <= i < j < self.grants@.len() ==> self.grants@[i].subject.key()
                != self.grants@[j].subject.key()
    }

    /// Whether `p` is a recognized permission string.
    pub open spec fn recognized(&self, p: Seq<char>) -> bool {
        perm_views(self.vocabulary@).contains(p)
    }

    /// Whether every permission in `perms` is recognized.
    pub open spec fn all_recognized(&self, perms: Seq<String>) -> bool {
        forall|j: int| 0 <= j < perms.len() ==> self.recognized(#[trigger] perms[j]@)
    }

    /// Whether `key` holds an active grant.
    pub open spec fn spec_has_grant(&self, key: (Seq<char>, Option<Seq<char>>)) -> bool {
        has_grant_in(self.grants@, key)
    }

    /// The permission set of `key`: empty when no grant is active.
    pub open spec fn spec_permissions_of(&self, key: (Seq<char>, Option<Seq<char>>)) -> Seq<
        Seq<char>,
    > {
        perms_in(self.grants@, key)
    }

    /// A fresh registry over the host-defined permission vocabulary: no
    /// subject holds a grant.
    pub fn new(vocabulary: Vec<String>) -> (r: CapabilityRegistry)
        ensures
            r.wf(),
            r.vocabulary == vocabulary,
            r.grants@.len() == 0,
            forall|key: (Seq<char>, Option<Seq<char>>)| !r.spec_has_grant(key),
    {
        CapabilityRegistry { vocabulary, grants: Vec::new() }
    }

    /// The index of the grant bound to `subject`, if one is.
    fn find_grant(&self, subject: &PluginIdentity) -> (r: Option<usize>)
        ensures
            r matches Some(i) ==> i < self.grants@.len() && self.grants@[i as int].subject.key()
                == subject.key() && (forall|j: int|
                0 <= j < i ==> self.grants@[j].subject.key() != subject.key()),
            r matches None ==> !self.spec_has_grant(subject.key()),
    {
        let n = self.grants.len();
        let mut i: usize = 0;
        while i < n
            invariant
                n == self.grants@.len(),
                0 <= i <= n,
                forall|j: int| 0 <= j < i ==> self.grants@[j].subject.key() != subject.key(),
            decreases n - i,
        {
            if self.grants[i].subject.matches(subject) {
                return Some(i);
            }
            i += 1;
        }
        proof {
            lemma_has_grant_exists(self.grants@, subject.key());
        }
        None
    }

    /// Whether `subject` holds an active grant.
    pub fn has_grant(&self, subject: &PluginIdentity) -> (r: bool)
        ensures
            r == self.spec_has_grant(subject.key()),
    {
        proof {
            lemma_has_grant_exists(self.grants@, subject.key());
        }
        match self.find_grant(subject) {
            Some(_) => true,
            None => false,
        }
    }

    /// Issues a grant binding `permissions` to `subject`. Fails with
    /// `UnknownPermission` when any permission string is outside the
    /// vocabulary, and with `DuplicateSubject` when `subject` already holds a
    /// grant; on failure the registry is unchanged — no partial grant is ever
    /// recorded.
    pub fn issue(&mut self, subject: PluginIdentity, permissions: Vec<String>) -> (r: Result<
        (),
        IssueError,
    >)
        requires
            old(self).wf(),
        ensures
            final(self).wf(),
            final(self).vocabulary == old(self).vocabulary,
            r matches Err(e) ==> *final(self) == *old(self) && (e == IssueError::UnknownPermission
                <==> !old(self).all_recognized(permissions@)),
            (r matches Err(e) && e == IssueError::DuplicateSubject) <==> (old(self).all_recognized(
                permissions@,
            ) && old(self).spec_has_grant(subject.key())),
            r matches Ok(u) <==> (old(self).all_recognized(permissions@) && !old(
                self,
            ).spec_has_grant(subject.key())),
            r matches Ok(u) ==> final(self).spec_permissions_of(subject.key()) == perm_views(
                permissions@,
            ) && final(self).spec_has_grant(subject.key()),
            r matches Ok(u) ==> forall|key2: (Seq<char>, Option<Seq<char>>)|
                key2 != subject.key() ==> final(self).spec_permissions_of(key2) == old(
                    self,
                ).spec_permissions_of(key2) && final(self).spec_has_grant(key2) == old(
                    self,
                ).spec_has_grant(key2),
    {
        let n = permissions.len();
        let mut k: usize = 0;
        while k < n
            invariant
                n == permissions@.len(),
                0 <= k <= n,
                forall|j: int| 0 <= j < k ==> self.recognized(#[trigger] permissions@[j]@),
                *self == *old(self),
                old(self).wf(),
            decreases n - k,
        {
            if !contains_string(&self.vocabulary, &permissions[k]) {
                return Err(IssueError::UnknownPermission);
            }
            k += 1;
        }
        match self.find_grant(&subject) {
            Some(_) => {
                proof {
                    lemma_has_grant_exists(self.grants@, subject.key());
                }
                Err(IssueError::DuplicateSubject)
            },
            None => {
                let ghost old_grants = self.grants@;
                let ghost skey = subject.key();
                let g = CapabilityGrant { subject, permissions };
                self.grants.push(g);
                proof {
                    assert(self.grants@ =~= old_grants.push(g));
                    lemma_perms_in_push(old_grants, g, skey);
                    assert(self.spec_permissions_of(skey) == g.perms());
                    assert(self.spec_has_grant(skey));
                    assert forall|key2: (Seq<char>, Option<Seq<char>>)| key2 != skey implies
                        self.spec_permissions_of(key2) == perms_in(old_grants, key2)
                        && self.spec_has_grant(key2) == has_grant_in(old_grants, key2) by {
                        lemma_perms_in_push(old_grants, g, key2);
                    }
                    lemma_has_grant_exists(old_grants, skey);
                    assert forall|i: int, j: int|
                        0 <= i < j < self.grants@.len() implies self.grants@[i].subject.key()
                        != self.grants@[j].subject.key() by {
                        if j == self.grants@.len() - 1 {
                            assert(self.grants@[i] == old_grants[i]);
                        }
                    }
                }
                Ok(())
            },
        }
    }

    /// Withdraws the grant of `subject`, if one is active; reports whether one
    /// was. Idempotent: a second call finds nothing and changes nothing.
    pub fn revoke(&mut self, subject: &PluginIdentity) -> (r: bool)
        requires
            old(self).wf(),
        ensures
            final(self).wf(),
            final(self).vocabulary == old(self).vocabulary,
            r == old(self).spec_has_grant(subject.key()),
            !final(self).spec_has_grant(subject.key()),
            forall|key2: (Seq<char>, Option<Seq<char>>)|
                key2 != subject.key() ==> final(self).spec_permissions_of(key2) == old(
                    self,
                ).spec_permissions_of(key2) && final(self).spec_has_grant(key2) == old(
                    self,
                ).spec_has_grant(key2),
            !r ==> *final(self) == *old(self),
    {
        match self.find_grant(subject) {
            Some(i) => {
                let ghost old_grants = self.grants@;
                let ghost skey = subject.key();
                self.grants.remove(i);
                proof {
                    assert(self.grants@ =~= old_grants.remove(i as int));
                    lemma_has_grant_exists(old_grants, skey);
                    assert(forall|j: int|
                        0 <= j < old_grants.len() && j != i ==> old_grants[j].subject.key()
                            != skey);
                    lemma_perms_in_remove(old_grants, skey, i as int);
                    assert(forall|j: int|
                        0 <= j < self.grants@.len() ==> self.grants@[j] == (if j < i {
                            old_grants[j]
                        } else {
                            old_grants[j + 1]
                        }));
                }
                true
            },
            None => {
                proof {
                    lemma_deny_by_default(self.grants@, subject.key());
                }
                false
            },
        }
    }

    /// The permission set of `subject`: the permissions of its active grant,
    /// or the empty set when it holds none — never an error, so callers treat
    /// "no grant" as "no permissions".
    pub fn permissions_of(&self, subject: &PluginIdentity) -> (r: Vec<String>)
        ensures
            perm_views(r@) == self.spec_permissions_of(subject.key()),
            !self.spec_has_grant(subject.key()) ==> r@.len() == 0,
    {
        match self.find_grant(subject) {
            Some(i) => {
                proof {
                    lemma_perms_in_found(self.grants@, subject.key(), i as int);
                }
                let r = clone_strings(&self.grants[i].permissions);
                proof {
                    assert(perm_views(r@) =~= perm_views(self.grants@[i as int].permissions@));
                }
                r
            },
            None => {
                proof {
                    lemma_deny_by_default(self.grants@, subject.key());
                    assert(perm_views(Seq::<String>::empty()) =~= Seq::<Seq<char>>::empty());
                }
                Vec::new()
            },
        }
    }

    /// Whether the active grant of `subject` covers `permission`; a subject
    /// with no grant covers nothing.
    pub fn subject_covers(&self, subject: &PluginIdentity, permission: &String) -> (r: bool)
        ensures
            r == self.spec_permissions_of(subject.key()).contains(permission@),
    {
        match self.find_grant(subject) {
            Some(i) => {
                proof {
                    lemma_perms_in_found(self.grants@, subject.key(), i as int);
                }
                self.grants[i].covers(permission)
            },
            None => {
                proof {
                    lemma_deny_by_default(self.grants@, subject.key());
                }
                false
            },
        }
    }
}

/// An element-for-element copy of a vector of strings.
fn clone_strings(v: &Vec<String>) -> (r: Vec<String>)
    ensures
        r@ == v@,
{
    let n = v.len();
    let mut r: Vec<String> = Vec::new();
    let mut i: usize = 0;
    while i < n
        invariant
            n == v@.len(),
            0 <= i <= n,
            r@ == v@.take(i as int),
        decreases n - i,
    {
        r.push(v[i].clone());
        proof {
            assert(r@ =~= v@.take(i as int + 1));
        }
        i += 1;
    }
    proof {
        assert(v@.take(n as int) =~= v@);
    }
    r
}

} // verus!
