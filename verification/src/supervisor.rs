use vstd::prelude::*;

verus! {

/// One live OS process, as the supervisor models it: its process id and its
/// executable name.
pub struct ProcessRecord {
    pub pid: u32,
    pub name: String,
}

/// The supervisor's model of the OS process table: the processes it may have
/// to terminate or account for. The embedding layer mirrors every termination
/// and spawn it performs into this table, so what is proved of the table holds
/// of the processes the supervisor manages.
pub struct ProcessTable {
    pub procs: Vec<ProcessRecord>,
}

/// The single supervised local service instance: the identity that is
/// persisted across restarts.
pub struct ServiceHandle {
    pub pid: u32,
    pub name: String,
}

/// A process table as a mathematical sequence of (pid, name) pairs.
pub open spec fn table_model(procs: Seq<ProcessRecord>) -> Seq<(u32, Seq<char>)> {
    procs.map_values(|r: ProcessRecord| (r.pid, r.name@))
}

/// The table after every process named `name` is terminated.
pub open spec fn kill_name(m: Seq<(u32, Seq<char>)>, name: Seq<char>) -> Seq<(u32, Seq<char>)>
    decreases m.len(),
{
    if m.len() == 0 {
        Seq::empty()
    } else if m[0].1 == name {
        kill_name(m.drop_first(), name)
    } else {
        seq![m[0]] + kill_name(m.drop_first(), name)
    }
}

/// The pids of the processes named `name`, in table order: the ones a
/// termination sweep signals.
pub open spec fn victims(m: Seq<(u32, Seq<char>)>, name: Seq<char>) -> Seq<u32>
    decreases m.len(),
{
    if m.len() == 0 {
        Seq::empty()
    } else if m[0].1 == name {
        seq![m[0].0] + victims(m.drop_first(), name)
    } else {
        victims(m.drop_first(), name)
    }
}

/// The table after the process with id `pid` is terminated.
pub open spec fn kill_pid(m: Seq<(u32, Seq<char>)>, pid: u32) -> Seq<(u32, Seq<char>)>
    decreases m.len(),
{
    if m.len() == 0 {
        Seq::empty()
    } else if m[0].0 == pid {
        kill_pid(m.drop_first(), pid)
    } else {
        seq![m[0]] + kill_pid(m.drop_first(), pid)
    }
}

/// How many live processes are named `name`.
pub open spec fn live_count(m: Seq<(u32, Seq<char>)>, name: Seq<char>) -> nat
    decreases m.len(),
{
    if m.len() == 0 {
        0nat
    } else if m[0].1 == name {
        1nat + live_count(m.drop_first(), name)
    } else {
        live_count(m.drop_first(), name)
    }
}

/// Whether a process with id `pid` is live.
pub open spec fn has_pid(m: Seq<(u32, Seq<char>)>, pid: u32) -> bool {
    exists|j: int| 0 <= j < m.len() && m[j].0 == pid
}

/// What one reconciliation does to the table: the persisted instance, if any,
/// is terminated first, then the fresh instance is started.
pub open spec fn spec_reconcile(
    m: Seq<(u32, Seq<char>)>,
    persisted: Option<u32>,
    new_pid: u32,
    name: Seq<char>,
) -> Seq<(u32, Seq<char>)> {
    (match persisted {
        Some(q) => kill_pid(m, q),
        None => m,
    }).push((new_pid, name))
}

/// The pid a persisted handle names, if one was persisted.
pub open spec fn handle_pid(p: Option<ServiceHandle>) -> Option<u32> {
    match p {
        Some(h) => Some(h.pid),
        None => None,
    }
}

/// Every entry that survives `kill_pid` comes from the table and does not
/// carry the terminated pid.
proof fn lemma_kill_pid_elements(m: Seq<(u32, Seq<char>)>, pid: u32)
    ensures
        forall|j: int|
            0 <= j < kill_pid(m, pid).len() ==> (#[trigger] kill_pid(m, pid)[j]).0 != pid
                && m.contains(kill_pid(m, pid)[j]),
    decreases m.len(),
{
    if m.len() > 0 {
        lemma_kill_pid_elements(m.drop_first(), pid);
        assert forall|e: (u32, Seq<char>)| m.drop_first().contains(e) implies m.contains(e) by {
            let i = choose|i: int| 0 <= i < m.drop_first().len() && m.drop_first()[i] == e;
            assert(m[i + 1] == e);
        }
        assert forall|j: int| 0 <= j < kill_pid(m, pid).len() implies (#[trigger] kill_pid(
            m,
            pid,
        )[j]).0 != pid && m.contains(kill_pid(m, pid)[j]) by {
            if m[0].0 == pid {
                assert(kill_pid(m, pid) == kill_pid(m.drop_first(), pid));
                assert(kill_pid(m, pid)[j] == kill_pid(m.drop_first(), pid)[j]);
            } else if j == 0 {
                assert(kill_pid(m, pid)[0] == m[0]);
                assert(m.contains(m[0]));
            } else {
                assert(kill_pid(m, pid)[j] == kill_pid(m.drop_first(), pid)[j - 1]);
            }
        }
    }
}

/// Every entry that survives `kill_name` comes from the table and does not
/// carry the terminated name.
proof fn lemma_kill_name_elements(m: Seq<(u32, Seq<char>)>, name: Seq<char>)
    ensures
        forall|j: int|
            0 <= j < kill_name(m, name).len() ==> (#[trigger] kill_name(m, name)[j]).1 != name
                && m.contains(kill_name(m, name)[j]),
    decreases m.len(),
{
    if m.len() > 0 {
        lemma_kill_name_elements(m.drop_first(), name);
        assert forall|e: (u32, Seq<char>)| m.drop_first().contains(e) implies m.contains(e) by {
            let i = choose|i: int| 0 <= i < m.drop_first().len() && m.drop_first()[i] == e;
            assert(m[i + 1] == e);
        }
        assert forall|j: int| 0 <= j < kill_name(m, name).len() implies (#[trigger] kill_name(
            m,
            name,
        )[j]).1 != name && m.contains(kill_name(m, name)[j]) by {
            if m[0].1 == name {
                assert(kill_name(m, name) == kill_name(m.drop_first(), name));
                assert(kill_name(m, name)[j] == kill_name(m.drop_first(), name)[j]);
            } else if j == 0 {
                assert(kill_name(m, name)[0] == m[0]);
                assert(m.contains(m[0]));
            } else {
                assert(kill_name(m, name)[j] == kill_name(m.drop_first(), name)[j - 1]);
            }
        }
    }
}

/// `live_count` in quantifier form when it is zero.
proof fn lemma_live_count_zero(m: Seq<(u32, Seq<char>)>, name: Seq<char>)
    ensures
        (live_count(m, name) == 0) <==> (forall|j: int|
            0 <= j < m.len() ==> (#[trigger] m[j]).1 != name),
    decreases m.len(),
{
    if m.len() > 0 {
        lemma_live_count_zero(m.drop_first(), name);
        if live_count(m, name) == 0 {
            assert forall|j: int| 0 <= j < m.len() implies (#[trigger] m[j]).1 != name by {
                if j > 0 {
                    assert(m.drop_first()[j - 1] == m[j]);
                }
            }
        }
        if forall|j: int| 0 <= j < m.len() ==> (#[trigger] m[j]).1 != name {
            assert forall|j: int|
                0 <= j < m.drop_first().len() implies (#[trigger] m.drop_first()[j]).1 != name by {
                assert(m.drop_first()[j] == m[j + 1]);
            }
            assert(live_count(m.drop_first(), name) == 0);
        }
    }
}

/// Appending one process raises the count of its name by one and leaves every
/// other name's count unchanged.
proof fn lemma_live_count_push(m: Seq<(u32, Seq<char>)>, e: (u32, Seq<char>), name: Seq<char>)
    ensures
        live_count(m.push(e), name) == live_count(m, name) + (if e.1 == name {
            1nat
        } else {
            0nat
        }),
    decreases m.len(),
{
    if m.len() == 0 {
        assert(m.push(e)[0] == e);
        assert(m.push(e).drop_first() =~= Seq::<(u32, Seq<char>)>::empty());
        assert(live_count(m.push(e).drop_first(), name) == 0);
        assert(live_count(m, name) == 0);
    } else {
        assert(m.push(e)[0] == m[0]);
        assert(m.push(e).drop_first() =~= m.drop_first().push(e));
        lemma_live_count_push(m.drop_first(), e, name);
        assert(live_count(m.push(e).drop_first(), name) == live_count(
            m.drop_first().push(e),
            name,
        ));
    }
}

/// A termination sweep that finds nothing returns normally: the table is left
/// exactly as it was and no pid is signaled.
pub proof fn lemma_terminate_no_match(m: Seq<(u32, Seq<char>)>, name: Seq<char>)
    requires
        forall|j: int| 0 <= j < m.len() ==> (#[trigger] m[j]).1 != name,
    ensures
        kill_name(m, name) == m,
        victims(m, name) == Seq::<u32>::empty(),
    decreases m.len(),
{
    if m.len() == 0 {
        assert(kill_name(m, name) =~= m);
    } else {
        assert forall|j: int|
            0 <= j < m.drop_first().len() implies (#[trigger] m.drop_first()[j]).1 != name by {
            assert(m.drop_first()[j] == m[j + 1]);
        }
        lemma_terminate_no_match(m.drop_first(), name);
        assert(kill_name(m, name) == seq![m[0]] + m.drop_first());
        assert(seq![m[0]] + m.drop_first() =~= m);
    }
}

/// What one reconciliation guarantees of the table: exactly one live instance
/// of the service afterwards, it is the fresh one, and a distinct stale
/// instance is gone. The preconditions are what the startup sweep and the OS
/// give: every live instance of the name is the persisted one, and the fresh
/// pid is not yet in the table.
pub proof fn lemma_reconcile_effect(
    m: Seq<(u32, Seq<char>)>,
    persisted: Option<u32>,
    new_pid: u32,
    name: Seq<char>,
)
    requires
        forall|j: int|
            0 <= j < m.len() && (#[trigger] m[j]).1 == name ==> Some(m[j].0) == persisted,
        !has_pid(m, new_pid),
    ensures
        live_count(spec_reconcile(m, persisted, new_pid, name), name) == 1,
        has_pid(spec_reconcile(m, persisted, new_pid, name), new_pid),
        forall|j: int|
            0 <= j < spec_reconcile(m, persisted, new_pid, name).len() && (
            #[trigger] spec_reconcile(m, persisted, new_pid, name)[j]).1 == name ==> spec_reconcile(
                m,
                persisted,
                new_pid,
                name,
            )[j].0 == new_pid,
        forall|q: u32|
            persisted == Some(q) && q != new_pid ==> !has_pid(
                spec_reconcile(m, persisted, new_pid, name),
                q,
            ),
{
    let base = match persisted {
        Some(q) => kill_pid(m, q),
        None => m,
    };
    let r = spec_reconcile(m, persisted, new_pid, name);
    assert(r == base.push((new_pid, name)));
    match persisted {
        Some(q) => {
            lemma_kill_pid_elements(m, q);
            assert forall|j: int| 0 <= j < base.len() implies (#[trigger] base[j]).1 != name by {
                if base[j].1 == name {
                    let i = choose|i: int| 0 <= i < m.len() && m[i] == base[j];
                    assert(m[i].1 == name);
                }
            }
            lemma_live_count_zero(base, name);
        },
        None => {
            lemma_live_count_zero(base, name);
        },
    }
    lemma_live_count_push(base, (new_pid, name), name);
    assert(r[r.len() - 1] == (new_pid, name));
    assert forall|j: int| 0 <= j < r.len() && (#[trigger] r[j]).1 == name implies r[j].0
        == new_pid by {
        if j < base.len() {
            assert(base[j].1 != name);
        }
    }
    match persisted {
        Some(q) => {
            if q != new_pid {
                assert forall|j: int| 0 <= j < r.len() implies (#[trigger] r[j]).0 != q by {
                    if j < base.len() {
                        lemma_kill_pid_elements(m, q);
                    }
                }
            }
        },
        None => {},
    }
}

/// Reconciling twice in a row — two startups with no shutdown between them —
/// still leaves exactly one live instance, the one the second call started,
/// so a crashed run never accumulates instances.
pub proof fn lemma_reconcile_idempotent(
    m: Seq<(u32, Seq<char>)>,
    persisted: Option<u32>,
    first_pid: u32,
    second_pid: u32,
    name: Seq<char>,
)
    requires
        forall|j: int|
            0 <= j < m.len() && (#[trigger] m[j]).1 == name ==> Some(m[j].0) == persisted,
        !has_pid(m, first_pid),
        !has_pid(spec_reconcile(m, persisted, first_pid, name), second_pid),
    ensures
        live_count(
            spec_reconcile(
                spec_reconcile(m, persisted, first_pid, name),
                Some(first_pid),
                second_pid,
                name,
            ),
            name,
        ) == 1,
        forall|j: int|
            0 <= j < spec_reconcile(
                spec_reconcile(m, persisted, first_pid, name),
                Some(first_pid),
                second_pid,
                name,
            ).len() && (#[trigger] spec_reconcile(
                spec_reconcile(m, persisted, first_pid, name),
                Some(first_pid),
                second_pid,
                name,
            )[j]).1 == name ==> spec_reconcile(
                spec_reconcile(m, persisted, first_pid, name),
                Some(first_pid),
                second_pid,
                name,
            )[j].0 == second_pid,
{
    let m1 = spec_reconcile(m, persisted, first_pid, name);
    lemma_reconcile_effect(m, persisted, first_pid, name);
    lemma_reconcile_effect(m1, Some(first_pid), second_pid, name);
}

impl ProcessTable {
    /// The table as a sequence of (pid, name) pairs.
    pub open spec fn model(&self) -> Seq<(u32, Seq<char>)> {
        table_model(self.procs@)
    }

    /// An empty table.
    pub fn new() -> (r: ProcessTable)
        ensures
            r.model() == Seq::<(u32, Seq<char>)>::empty(),
    {
        let r = ProcessTable { procs: Vec::new() };
        proof {
            assert(r.model() =~= Seq::<(u32, Seq<char>)>::empty());
        }
        r
    }

    /// Records one live process.
    pub fn record(&mut self, pid: u32, name: &String)
        ensures
            final(self).model() == old(self).model().push((pid, name@)),
    {
        self.procs.push(ProcessRecord { pid, name: name.clone() });
        proof {
            assert(final(self).model() =~= old(self).model().push((pid, name@)));
        }
    }

    /// Best-effort termination sweep: removes every process named `name` and
    /// reports the pids that were signaled, in table order. Never fails the
    /// caller; when nothing matches, the table is untouched and the report is
    /// empty.
    pub fn terminate_by_name(&mut self, name: &String) -> (killed: Vec<u32>)
        ensures
            final(self).model() == kill_name(old(self).model(), name@),
            killed@ == victims(old(self).model(), name@),
            live_count(final(self).model(), name@) == 0,
    {
        let ghost m = self.model();
        let n = self.procs.len();
        let mut kept: Vec<ProcessRecord> = Vec::new();
        let mut killed: Vec<u32> = Vec::new();
        let mut i: usize = 0;
        proof {
            assert(m.skip(0) =~= m);
            assert(table_model(kept@) =~= Seq::<(u32, Seq<char>)>::empty());
        }
        while i < n
            invariant
                n == self.procs@.len(),
                0 <= i <= n,
                m == self.model(),
                kill_name(m, name@) == table_model(kept@) + kill_name(m.skip(i as int), name@),
                victims(m, name@) == killed@ + victims(m.skip(i as int), name@),
            decreases n - i,
        {
            proof {
                assert(m.skip(i as int)[0] == m[i as int]);
                assert(m.skip(i as int).drop_first() =~= m.skip(i as int + 1));
                assert(m[i as int] == (self.procs@[i as int].pid, self.procs@[i as int].name@));
            }
            if self.procs[i].name.eq(name) {
                killed.push(self.procs[i].pid);
                proof {
                    assert(victims(m, name@) =~= killed@ + victims(m.skip(i as int + 1), name@));
                }
            } else {
                kept.push(ProcessRecord { pid: self.procs[i].pid, name: self.procs[i].name.clone() });
                proof {
                    assert(table_model(kept@) =~= table_model(kept@.drop_last()).push(
                        m[i as int],
                    ));
                    assert(table_model(kept@) + kill_name(m.skip(i as int + 1), name@)
                        =~= table_model(kept@.drop_last()) + kill_name(m.skip(i as int), name@));
                }
            }
            i += 1;
        }
        proof {
            assert(m.skip(n as int) =~= Seq::<(u32, Seq<char>)>::empty());
            assert(kill_name(m, name@) =~= table_model(kept@));
            assert(victims(m, name@) =~= killed@);
        }
        self.procs = kept;
        proof {
            lemma_kill_name_elements(m, name@);
            lemma_live_count_zero(kill_name(m, name@), name@);
        }
        killed
    }

    /// Terminates the process with id `pid`, if it is live.
    fn remove_pid(&mut self, pid: u32)
        ensures
            final(self).model() == kill_pid(old(self).model(), pid),
    {
        let ghost m = self.model();
        let n = self.procs.len();
        let mut kept: Vec<ProcessRecord> = Vec::new();
        let mut i: usize = 0;
        proof {
            assert(m.skip(0) =~= m);
            assert(table_model(kept@) =~= Seq::<(u32, Seq<char>)>::empty());
        }
        while i < n
            invariant
                n == self.procs@.len(),
                0 <= i <= n,
                m == self.model(),
                kill_pid(m, pid) == table_model(kept@) + kill_pid(m.skip(i as int), pid),
            decreases n - i,
        {
            proof {
                assert(m.skip(i as int)[0] == m[i as int]);
                assert(m.skip(i as int).drop_first() =~= m.skip(i as int + 1));
                assert(m[i as int] == (self.procs@[i as int].pid, self.procs@[i as int].name@));
            }
            if self.procs[i].pid != pid {
                kept.push(ProcessRecord { pid: self.procs[i].pid, name: self.procs[i].name.clone() });
                proof {
                    assert(table_model(kept@) =~= table_model(kept@.drop_last()).push(
                        m[i as int],
                    ));
                    assert(table_model(kept@) + kill_pid(m.skip(i as int + 1), pid)
                        =~= table_model(kept@.drop_last()) + kill_pid(m.skip(i as int), pid));
                }
            }
            i += 1;
        }
        proof {
            assert(m.skip(n as int) =~= Seq::<(u32, Seq<char>)>::empty());
            assert(kill_pid(m, pid) =~= table_model(kept@));
        }
        self.procs = kept;
    }

    /// Reconciles against the persisted identity and starts the fresh
    /// instance: the persisted process, possibly a stale survivor of a crash,
    /// is terminated before the fresh instance (already spawned by the
    /// embedding layer, with pid `new_pid`) is recorded. Afterwards exactly
    /// one live instance of the service exists — singleton liveness — and the
    /// returned handle, which the caller must persist on the success path,
    /// names it.
    pub fn reconcile_and_start(
        &mut self,
        persisted: &Option<ServiceHandle>,
        new_pid: u32,
        name: &String,
    ) -> (h: ServiceHandle)
        requires
            forall|j: int|
                0 <= j < old(self).model().len() && (#[trigger] old(self).model()[j]).1 == name@
                    ==> Some(old(self).model()[j].0) == handle_pid(*persisted),
            !has_pid(old(self).model(), new_pid),
        ensures
            h.pid == new_pid && h.name@ == name@,
            final(self).model() == spec_reconcile(
                old(self).model(),
                handle_pid(*persisted),
                new_pid,
                name@,
            ),
            live_count(final(self).model(), name@) == 1,
            has_pid(final(self).model(), new_pid),
            forall|j: int|
                0 <= j < final(self).model().len() && (#[trigger] final(self).model()[j]).1
                    == name@ ==> final(self).model()[j].0 == new_pid,
            forall|q: u32|
                handle_pid(*persisted) == Some(q) && q != new_pid ==> !has_pid(
                    final(self).model(),
                    q,
                ),
    {
        let ghost m = self.model();
        let ghost popt: Option<u32> = handle_pid(*persisted);
        match persisted {
            Some(ph) => {
                self.remove_pid(ph.pid);
            },
            None => {},
        }
        self.record(new_pid, name);
        proof {
            assert(self.model() == spec_reconcile(m, popt, new_pid, name@));
            lemma_reconcile_effect(m, popt, new_pid, name@);
        }
        ServiceHandle { pid: new_pid, name: name.clone() }
    }

    /// Supervised shutdown: terminates the instance the handle names. The
    /// service is absent afterwards when the handle was the one live instance.
    pub fn stop(&mut self, handle: &ServiceHandle)
        ensures
            final(self).model() == kill_pid(old(self).model(), handle.pid),
            !has_pid(final(self).model(), handle.pid),
    {
        self.remove_pid(handle.pid);
        proof {
            lemma_kill_pid_elements(old(self).model(), handle.pid);
        }
    }
}

} // verus!
