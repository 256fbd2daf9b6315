use vstd::prelude::*;
use std::sync::{Condvar, Mutex, MutexGuard, PoisonError, TryLockError, WaitTimeoutResult};

verus! {

// ---------------------------------------------------------------------------
// std's locks, as Verus sees them
// ---------------------------------------------------------------------------

#[verifier::external_type_specification]
#[verifier::external_body]
#[verifier::reject_recursive_types(T)]
pub struct ExMutex<T: ?Sized>(Mutex<T>);

#[verifier::external_type_specification]
#[verifier::external_body]
#[verifier::reject_recursive_types(T)]
pub struct ExMutexGuard<'a, T: ?Sized + 'a>(MutexGuard<'a, T>);

#[verifier::external_type_specification]
#[verifier::external_body]
pub struct ExCondvar(Condvar);

#[verifier::external_type_specification]
#[verifier::external_body]
#[verifier::reject_recursive_types(T)]
pub struct ExPoisonError<T>(PoisonError<T>);

#[verifier::external_type_specification]
#[verifier::external_body]
#[verifier::reject_recursive_types(T)]
pub struct ExTryLockError<T>(TryLockError<T>);

#[verifier::external_type_specification]
#[verifier::external_body]
pub struct ExWaitTimeoutResult(WaitTimeoutResult);

/// `std::sync::Mutex::new`: a mutex that holds `value`.
#[verifier::external_body]
fn mutex_new<T>(value: T) -> Mutex<T> {
    Mutex::new(value)
}

/// `std::sync::Mutex::try_lock`: takes the lock if it is free, without
/// blocking. Nothing is stated: the outcome depends on other threads.
#[verifier::external_body]
fn mutex_try_lock<T>(m: &Mutex<T>) -> Result<MutexGuard<'_, T>, TryLockError<MutexGuard<'_, T>>> {
    m.try_lock()
}

/// `std::sync::PoisonError::into_inner`: the guard that a poisoned lock still
/// hands out.
#[verifier::external_body]
fn poison_into_inner<G>(e: PoisonError<G>) -> G {
    e.into_inner()
}

/// Turns a `std::sync::TryLockError` into a [`TryLockFailure`], variant for
/// variant: `Poisoned` keeps its poison error, `WouldBlock` stays `WouldBlock`.
/// Nothing is stated: the std type is opaque here, so which variant came in
/// cannot be written down.
#[verifier::external_body]
fn try_lock_failure<G>(e: TryLockError<G>) -> TryLockFailure<G> {
    match e {
        TryLockError::Poisoned(p) => TryLockFailure::Poisoned(p),
        TryLockError::WouldBlock => TryLockFailure::WouldBlock,
    }
}

/// `std::sync::Condvar::new`.
#[verifier::external_body]
fn condvar_new() -> Condvar {
    Condvar::new()
}

/// `std::sync::Condvar::notify_one`.
#[verifier::external_body]
fn condvar_notify_one(c: &Condvar) {
    c.notify_one()
}

/// `std::sync::Condvar::notify_all`.
#[verifier::external_body]
fn condvar_notify_all(c: &Condvar) {
    c.notify_all()
}

// ---------------------------------------------------------------------------
// Results of locking, with poisoning ignored
// ---------------------------------------------------------------------------

/// The guard of a lock result whether or not the lock was poisoned: the guard
/// itself when the lock was not poisoned, otherwise the one that the poison
/// error holds.
pub fn unpoisoned<G>(r: Result<G, PoisonError<G>>) -> (g: G)
    ensures
        r matches Ok(x) ==> g == x,
{
    match r {
        Ok(guard) => guard,
        Err(poisoned) => poison_into_inner(poisoned),
    }
}

/// Why a lock could not be taken at once: a panicking thread poisoned it (the
/// poison error still holds the guard), or another holder has it.
#[verifier::reject_recursive_types(G)]
pub enum TryLockFailure<G> {
    Poisoned(PoisonError<G>),
    WouldBlock,
}

/// The guard of a try-lock outcome whether or not the lock was poisoned: the
/// guard of a free lock, the guard that the poison error holds for a poisoned
/// one, and nothing only when another holder has the lock.
pub fn unpoisoned_try_outcome<G>(r: Result<G, TryLockFailure<G>>) -> (g: Option<G>)
    ensures
        r matches Ok(x) ==> g == Some(x),
        r matches Err(TryLockFailure::Poisoned(_)) ==> g is Some,
        r matches Err(TryLockFailure::WouldBlock) ==> g is None,
{
    match r {
        Ok(guard) => Some(guard),
        Err(TryLockFailure::Poisoned(poisoned)) => Some(poison_into_inner(poisoned)),
        Err(TryLockFailure::WouldBlock) => None,
    }
}

/// A std try-lock result read through [`unpoisoned_try_outcome`]: the guard
/// if the lock was free, poisoned or not; nothing if it was held.
pub fn unpoisoned_try<G>(r: Result<G, TryLockError<G>>) -> (g: Option<G>)
    ensures
        r matches Ok(x) ==> g == Some(x),
        g is None ==> r is Err,
{
    match r {
        Ok(guard) => unpoisoned_try_outcome(Ok(guard)),
        Err(error) => unpoisoned_try_outcome(Err(try_lock_failure(error))),
    }
}

// ---------------------------------------------------------------------------
// A mutex with its condition variable
// ---------------------------------------------------------------------------

/// What waiting on a [`CondMutex`] gave: the guard (and, after a wait with a
/// time limit, whether it ran out), or the poison error of a lock that a
/// panicking thread held.
#[verifier::reject_recursive_types(T)]
pub enum CondMutexResult<'a, T> {
    Locked(MutexGuard<'a, T>),
    TimeoutOk((MutexGuard<'a, T>, WaitTimeoutResult)),
    Poisoned(PoisonError<MutexGuard<'a, T>>),
    TimeoutErr(PoisonError<(MutexGuard<'a, T>, WaitTimeoutResult)>),
}

/// A value behind a mutex, with a condition variable to wait on it. The
/// operations here never block; those that block on the lock or on the
/// condition variable are written over [`CondMutex::mutex`] and
/// [`CondMutex::condvar`].
#[verifier::reject_recursive_types(T)]
pub struct CondMutex<T>(Mutex<T>, Condvar);

impl<T> CondMutex<T> {
    /// The mutex.
    pub closed spec fn mutex_of(&self) -> Mutex<T> {
        self.0
    }

    /// The condition variable.
    pub closed spec fn condvar_of(&self) -> Condvar {
        self.1
    }

    pub fn new(value: T) -> Self {
        CondMutex(mutex_new(value), condvar_new())
    }

    /// The mutex that holds the value.
    pub fn mutex(&self) -> (r: &Mutex<T>)
        ensures
            *r == self.mutex_of(),
    {
        &self.0
    }

    /// The condition variable that goes with the mutex.
    pub fn condvar(&self) -> (r: &Condvar)
        ensures
            *r == self.condvar_of(),
    {
        &self.1
    }

    pub fn try_lock(&self) -> Result<MutexGuard<'_, T>, TryLockError<MutexGuard<'_, T>>> {
        mutex_try_lock(&self.0)
    }

    /// Takes the lock if no one holds it, without blocking, and reads the
    /// outcome through [`unpoisoned_try_outcome`]: the guard, also from a
    /// poisoned lock; nothing only when another holder has the lock.
    pub fn try_lock_outcome(&self) -> Result<MutexGuard<'_, T>, TryLockFailure<MutexGuard<'_, T>>> {
        match mutex_try_lock(&self.0) {
            Ok(guard) => Ok(guard),
            Err(error) => Err(try_lock_failure(error)),
        }
    }

    /// The guard if the lock could be taken at once, poisoned or not; nothing
    /// if another holder has it.
    pub fn try_lock_poisoned(&self) -> Option<MutexGuard<'_, T>> {
        unpoisoned_try_outcome(self.try_lock_outcome())
    }

    pub fn notify_one(&self) {
        condvar_notify_one(&self.1);
    }

    pub fn notify_all(&self) {
        condvar_notify_all(&self.1);
    }
}

// ---------------------------------------------------------------------------
// A second running instance
// ---------------------------------------------------------------------------

/// Whether two byte strings are equal.
fn same_bytes(a: &Vec<u8>, b: &Vec<u8>) -> (r: bool)
    ensures
        r == (a@ == b@),
{
    if a.len() != b.len() {
        return false;
    }
    let mut i: usize = 0;
    while i < a.len()
        invariant
            a@.len() == b@.len(),
            i <= a@.len(),
            forall|k: int| 0 <= k < i ==> a@[k] == b@[k],
        decreases a@.len() - i,
    {
        if a[i] != b[i] {
            return false;
        }
        i += 1;
    }
    assert(a@ =~= b@);
    true
}

/// Some process other than this one (by its id) runs the same program (by the
/// path of its executable).
pub open spec fn runs_twice(own_exe: Seq<u8>, own_pid: usize, processes: Seq<(Vec<u8>, usize)>) -> bool {
    exists|i: int| 0 <= i < processes.len() && #[trigger] processes[i].0@ == own_exe && processes[i].1 != own_pid
}

/// Whether another process runs the same program as this one. `processes` holds,
/// for each running process, the path of its executable (as bytes) and its id.
pub fn kill_double(own_exe: &Vec<u8>, own_pid: usize, processes: &Vec<(Vec<u8>, usize)>) -> (r:
    bool)
    ensures
        r == runs_twice(own_exe@, own_pid, processes@),
{
    let mut i: usize = 0;
    while i < processes.len()
        invariant
            i <= processes@.len(),
            forall|k: int|
                0 <= k < i ==> !(#[trigger] processes@[k].0@ == own_exe@ && processes@[k].1 != own_pid),
        decreases processes@.len() - i,
    {
        let (exe, pid) = &processes[i];
        if same_bytes(exe, own_exe) && *pid != own_pid {
            return true;
        }
        i += 1;
    }
    false
}

/// Another process that runs the same program is seen whatever its id, lower
/// or higher than this one's: one more such entry makes the answer yes.
pub proof fn law_any_other_instance_is_seen(
    own_exe: Seq<u8>,
    own_pid: usize,
    processes: Seq<(Vec<u8>, usize)>,
    exe: Vec<u8>,
    pid: usize,
)
    requires
        exe@ == own_exe,
        pid != own_pid,
    ensures
        runs_twice(own_exe, own_pid, processes.push((exe, pid))),
        runs_twice(own_exe, own_pid, seq![(exe, pid)]),
{
    let ps = processes.push((exe, pid));
    assert(ps[processes.len() as int] == (exe, pid));
    assert(ps[processes.len() as int].0@ == own_exe);
    let one = seq![(exe, pid)];
    assert(one[0] == (exe, pid));
    assert(one[0].0@ == own_exe);
}

/// Two instances of one program see each other: each one's answer on a table
/// that lists only the other is the same.
pub proof fn law_instances_see_each_other(exe: Vec<u8>, p: usize, q: usize)
    ensures
        runs_twice(exe@, p, seq![(exe, q)]) == runs_twice(exe@, q, seq![(exe, p)]),
        runs_twice(exe@, p, seq![(exe, q)]) == (p != q),
{
    let a = seq![(exe, q)];
    let b = seq![(exe, p)];
    assert(a[0] == (exe, q));
    assert(b[0] == (exe, p));
    assert(a[0].0@ == exe@);
    assert(b[0].0@ == exe@);
    if runs_twice(exe@, p, a) {
        let i = choose|i: int| 0 <= i < a.len() && #[trigger] a[i].0@ == exe@ && a[i].1 != p;
        assert(i == 0);
    }
    if runs_twice(exe@, q, b) {
        let i = choose|i: int| 0 <= i < b.len() && #[trigger] b[i].0@ == exe@ && b[i].1 != q;
        assert(i == 0);
    }
}

/// Entries of another program, or of this very process, never count: an empty
/// table gives no, and such an entry added to a table leaves the answer as it was.
pub proof fn law_only_other_instances_count(
    own_exe: Seq<u8>,
    own_pid: usize,
    processes: Seq<(Vec<u8>, usize)>,
    exe: Vec<u8>,
    pid: usize,
)
    requires
        exe@ != own_exe || pid == own_pid,
    ensures
        !runs_twice(own_exe, own_pid, Seq::<(Vec<u8>, usize)>::empty()),
        runs_twice(own_exe, own_pid, processes.push((exe, pid))) == runs_twice(
            own_exe,
            own_pid,
            processes,
        ),
{
    let ps = processes.push((exe, pid));
    if runs_twice(own_exe, own_pid, ps) {
        let i = choose|i: int|
            0 <= i < ps.len() && #[trigger] ps[i].0@ == own_exe && ps[i].1 != own_pid;
        assert(i < processes.len());
        assert(processes[i] == ps[i]);
    }
    if runs_twice(own_exe, own_pid, processes) {
        let i = choose|i: int|
            0 <= i < processes.len() && #[trigger] processes[i].0@ == own_exe && processes[i].1
                != own_pid;
        assert(ps[i] == processes[i]);
    }
}

} // verus!
