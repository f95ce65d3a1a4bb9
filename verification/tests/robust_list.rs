//! Robust futex lists of exiting threads.

use linux_syscalls::robust_list::{
    exit_robust_list, futex_death_step, handle_futex_death, DeathStep, FutexWord, ListNode,
    RobustListHead, FUTEX_OWNER_DIED, FUTEX_WAITERS, ROBUST_LIST_LIMIT,
};

#[test]
fn a_dead_owner_is_marked() {
    assert!(
        futex_death_step(7 | FUTEX_WAITERS, 7, false, false)
            == DeathStep::Store { value: FUTEX_OWNER_DIED | FUTEX_WAITERS, wake: true }
    );
    assert!(
        futex_death_step(7, 7, false, false)
            == DeathStep::Store { value: FUTEX_OWNER_DIED, wake: false }
    );
    assert!(futex_death_step(8, 7, false, false) == DeathStep::Leave);
    assert!(futex_death_step(0, 7, false, true) == DeathStep::Wake);
    assert!(futex_death_step(0, 7, false, false) == DeathStep::Leave);
}

#[test]
fn one_futex_is_handed_on() {
    let mut words = vec![FutexWord { addr: 0x1010, value: 7 | FUTEX_WAITERS }];
    let mut wakes: Vec<u64> = vec![];
    assert!(handle_futex_death(&mut words, &mut wakes, 0x1000, 0x10, 7, false).is_ok());
    assert_eq!(words[0].value, FUTEX_OWNER_DIED | FUTEX_WAITERS);
    assert_eq!(wakes, vec![0x1010]);
    assert!(handle_futex_death(&mut words, &mut wakes, 0x2000, 0x10, 7, false).is_err());
}

#[test]
fn an_exit_releases_own_locks_only() {
    let nodes = vec![
        ListNode { addr: 0x1000, next: 0x2000 },
        ListNode { addr: 0x2000, next: 0x100 },
    ];
    let mut words = vec![
        FutexWord { addr: 0x1010, value: 7 | FUTEX_WAITERS },
        FutexWord { addr: 0x2010, value: 8 | FUTEX_WAITERS },
        FutexWord { addr: 0x3010, value: 0 },
    ];
    let head = RobustListHead { list: 0x1000, futex_offset: 0x10, list_op_pending: 0x3000 };
    let wakes = exit_robust_list(&nodes, &mut words, 0x100, Some(head), 7);
    assert_eq!(words[0].value, FUTEX_OWNER_DIED | FUTEX_WAITERS);
    assert_eq!(words[1].value, 8 | FUTEX_WAITERS);
    assert_eq!(words[2].value, 0);
    assert_eq!(wakes, vec![0x1010, 0x3010]);
}

#[test]
fn an_unreadable_head_does_nothing() {
    let mut words = vec![FutexWord { addr: 0x1010, value: 7 }];
    assert!(exit_robust_list(&vec![], &mut words, 0x100, None, 7).is_empty());
    assert_eq!(words[0].value, 7);
}

#[test]
fn circular_lists_end() {
    let nodes = vec![ListNode { addr: 0x1000, next: 0x1000 }];
    let mut words = vec![FutexWord { addr: 0x1010, value: 7 }];
    let head = RobustListHead { list: 0x1000, futex_offset: 0x10, list_op_pending: 0 };
    let wakes = exit_robust_list(&nodes, &mut words, 0x100, Some(head), 7);
    assert!(wakes.len() <= ROBUST_LIST_LIMIT);
    assert_eq!(words[0].value, FUTEX_OWNER_DIED);
}
