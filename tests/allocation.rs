use walnuk::allocator::{AllocAction, AllocEvent, SequenceAllocator, MAX_RETRIES};

#[test]
fn allocation_succeeds_after_one_read_and_swap() {
    let mut a = SequenceAllocator::new();
    assert!(matches!(a.pending(), AllocAction::ReadCounter));
    let act = a.step(AllocEvent::CounterRead { value: 41 });
    assert!(matches!(act, AllocAction::CompareAndSet { expected: 41, new: 42 }));
    let act = a.step(AllocEvent::SwapApplied);
    assert!(matches!(act, AllocAction::Allocated { value: 42 }));
    // A finished allocation stays finished.
    let act = a.step(AllocEvent::SwapRejected);
    assert!(matches!(act, AllocAction::Allocated { value: 42 }));
}

#[test]
fn repeated_conflicts_exhaust_the_budget() {
    let mut a = SequenceAllocator::new();
    let mut swaps = 0;
    let mut waits = 0;
    let mut act = a.pending();
    let mut steps = 0;
    loop {
        steps += 1;
        assert!(steps < 100);
        act = match act {
            AllocAction::ReadCounter => a.step(AllocEvent::CounterRead { value: 7 }),
            AllocAction::CompareAndSet { expected, new } => {
                assert_eq!((expected, new), (7, 8));
                swaps += 1;
                a.step(AllocEvent::SwapRejected)
            }
            AllocAction::Wait { millis } => {
                assert!(millis >= 100);
                waits += 1;
                a.step(AllocEvent::Waited)
            }
            AllocAction::Allocated { .. } => panic!("a rejected swap allocated a value"),
            AllocAction::Exhausted => break,
        };
    }
    assert_eq!(swaps, MAX_RETRIES + 1);
    assert_eq!(waits, MAX_RETRIES);
}

#[test]
fn conflict_then_success_returns_the_swapped_value() {
    let mut a = SequenceAllocator::new();
    a.step(AllocEvent::CounterRead { value: 10 });
    let act = a.step(AllocEvent::SwapRejected);
    assert!(matches!(act, AllocAction::Wait { .. }));
    assert!(matches!(a.step(AllocEvent::Waited), AllocAction::ReadCounter));
    let act = a.step(AllocEvent::CounterRead { value: 11 });
    assert!(matches!(act, AllocAction::CompareAndSet { expected: 11, new: 12 }));
    assert!(matches!(a.step(AllocEvent::SwapApplied), AllocAction::Allocated { value: 12 }));
}

#[test]
fn counter_at_its_maximum_is_never_swapped() {
    let mut a = SequenceAllocator::new();
    let act = a.step(AllocEvent::CounterRead { value: i64::MAX });
    assert!(matches!(act, AllocAction::Wait { .. }));
}

#[test]
fn read_failures_are_retried() {
    let mut a = SequenceAllocator::new();
    assert!(matches!(a.step(AllocEvent::ReadFailed), AllocAction::Wait { .. }));
    assert!(matches!(a.step(AllocEvent::Waited), AllocAction::ReadCounter));
}
