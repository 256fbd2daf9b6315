use mad_rust_util::thread::{
    kill_double, unpoisoned, unpoisoned_try, unpoisoned_try_outcome, CondMutex, TryLockFailure,
};
use std::sync::{PoisonError, TryLockError};

#[test]
fn cond_mutex_try_locks() {
    let m = CondMutex::new(5);
    {
        let mut g = m.try_lock().unwrap();
        *g += 1;
    }
    let g = m.try_lock_poisoned();
    assert_eq!(g.map(|g| *g), Some(6));
    let held = m.mutex().try_lock().unwrap();
    assert!(m.try_lock().is_err());
    assert!(m.try_lock_poisoned().is_none());
    drop(held);
    assert_eq!(*m.try_lock_poisoned().unwrap(), 6);
    m.notify_one();
    m.notify_all();
}

#[test]
fn cond_mutex_exposes_its_parts() {
    let m = CondMutex::new(String::from("a"));
    m.mutex().try_lock().unwrap().push('b');
    m.condvar().notify_all();
    assert_eq!(m.try_lock().unwrap().as_str(), "ab");
}

#[test]
fn unpoisoned_keeps_the_guard() {
    let ok: Result<u32, PoisonError<u32>> = Ok(3);
    assert_eq!(unpoisoned(ok), 3);
    let poisoned: Result<u32, PoisonError<u32>> = Err(PoisonError::new(7));
    assert_eq!(unpoisoned(poisoned), 7);
}

#[test]
fn unpoisoned_try_tells_held_from_poisoned() {
    let ok: Result<u32, TryLockError<u32>> = Ok(1);
    assert_eq!(unpoisoned_try(ok), Some(1));
    let poisoned: Result<u32, TryLockError<u32>> = Err(TryLockError::Poisoned(PoisonError::new(2)));
    assert_eq!(unpoisoned_try(poisoned), Some(2));
    let held: Result<u32, TryLockError<u32>> = Err(TryLockError::WouldBlock);
    assert_eq!(unpoisoned_try(held), None);
}

#[test]
fn another_instance_is_found() {
    let me = b"/usr/bin/driver".to_vec();
    let others = vec![(b"/usr/bin/other".to_vec(), 10), (me.clone(), 42)];
    assert!(!kill_double(&me, 42, &others));
    let more = vec![(me.clone(), 42), (me.clone(), 43)];
    assert!(kill_double(&me, 42, &more));
    assert!(!kill_double(&me, 42, &vec![]));
}

#[test]
fn try_outcome_gives_the_guard_unless_held() {
    let ok: Result<u32, TryLockFailure<u32>> = Ok(4);
    assert_eq!(unpoisoned_try_outcome(ok), Some(4));
    let poisoned: Result<u32, TryLockFailure<u32>> =
        Err(TryLockFailure::Poisoned(PoisonError::new(5)));
    assert_eq!(unpoisoned_try_outcome(poisoned), Some(5));
    let held: Result<u32, TryLockFailure<u32>> = Err(TryLockFailure::WouldBlock);
    assert_eq!(unpoisoned_try_outcome(held), None);
}

#[test]
fn try_lock_outcome_tells_free_from_held() {
    let m = CondMutex::new(8);
    assert!(matches!(m.try_lock_outcome(), Ok(g) if *g == 8));
    let held = m.try_lock_poisoned().unwrap();
    assert!(matches!(m.try_lock_outcome(), Err(TryLockFailure::WouldBlock)));
    assert!(m.try_lock_poisoned().is_none());
    drop(held);
    assert_eq!(m.try_lock_poisoned().map(|g| *g), Some(8));
}
