//! What needs no runtime, or only an error from one.

use scoped_join_set::lifetime_obfuscation::{from_bytes_unchecked, obfuscate_lifetime};
use scoped_join_set::scope::finish_closing;
use scoped_join_set::scoped_join_set::{
    finish_join, finish_join_all, finish_join_next, finish_try_join,
};
use scoped_join_set::{JoinError, OutputSlot, Progress, ScopePhase, SendPtr, WriteOutput};
use tokio::runtime::Builder;

fn cancelled() -> tokio::task::JoinError {
    let runtime = Builder::new_current_thread().build().unwrap();
    runtime.block_on(async {
        let task = tokio::spawn(std::future::pending::<()>());
        task.abort();
        task.await.unwrap_err()
    })
}

fn panicked() -> tokio::task::JoinError {
    let runtime = Builder::new_current_thread().build().unwrap();
    runtime.block_on(async { tokio::spawn(async { panic!("the payload") }).await.unwrap_err() })
}

#[test]
fn a_pending_future_keeps_its_slot() {
    let mut slot: OutputSlot<u32> = OutputSlot::empty();
    let mut wrapper = WriteOutput::new(8);
    assert_eq!(wrapper.output_ptr(), 8);
    assert!(matches!(wrapper.poll(Progress::Pending, &mut slot), Progress::Pending));
    assert!(!slot.is_written());
    assert_eq!(wrapper.drop().map(|ptr| *ptr), Some(8));
}

#[test]
fn a_ready_future_gives_its_slot_away() {
    let mut slot = OutputSlot::empty();
    let mut wrapper = WriteOutput::new(8);
    wrapper.poll(Progress::Pending, &mut slot);
    match wrapper.poll(Progress::Ready("output"), &mut slot) {
        Progress::Ready(ptr) => assert_eq!(*ptr, 8),
        Progress::Pending => panic!("the future is ready"),
    }
    assert!(wrapper.drop().is_none());
    assert!(slot.is_written());
    assert_eq!(slot.into_output(), "output");
}

#[test]
fn a_slot_gives_back_what_was_written() {
    let mut slot = OutputSlot::empty();
    slot.write(vec![1, 2, 3]);
    assert_eq!(slot.into_output(), vec![1, 2, 3]);
}

#[test]
fn an_address_is_kept() {
    assert_eq!(*SendPtr::new(usize::MAX), usize::MAX);
}

#[test]
fn a_cancelled_task_has_no_output() {
    let error = JoinError::from(cancelled());
    assert!(matches!(error, JoinError::Cancelled));
    assert_eq!(error.to_string(), "task was cancelled");
}

#[test]
fn a_panicked_task_has_no_output() {
    let error = JoinError::from(panicked());
    assert_eq!(error.to_string(), "task panicked");
    match error {
        JoinError::Panicked(error) => {
            assert_eq!(error.into_panic().downcast_ref::<&str>(), Some(&"the payload"));
        }
        JoinError::Cancelled => panic!("the task was not cancelled"),
    }
}

#[test]
fn reasons() {
    assert!(matches!(JoinError::from_reason(true, false, cancelled()), JoinError::Cancelled));
    assert!(matches!(JoinError::from_reason(true, true, panicked()), JoinError::Cancelled));
    assert!(matches!(JoinError::from_reason(false, true, panicked()), JoinError::Panicked(_)));
    assert!(matches!(JoinError::from_reason(false, false, cancelled()), JoinError::Cancelled));
}

#[test]
fn finishing_a_join() {
    assert!(matches!(finish_join(Ok(SendPtr::new(3)), |ptr| *ptr * 2), Ok(6)));
    assert!(matches!(finish_join(Err(cancelled()), |ptr| *ptr), Err(JoinError::Cancelled)));
    assert!(matches!(finish_join(Err(panicked()), |ptr| *ptr), Err(JoinError::Panicked(_))));
}

#[test]
fn finishing_an_attempt_to_join() {
    assert!(finish_try_join(None, |ptr| *ptr).is_none());
    assert!(matches!(finish_try_join(Some(Ok(SendPtr::new(3))), |ptr| *ptr * 2), Some(Ok(6))));
    let res = finish_try_join(Some(Err(cancelled())), |ptr| *ptr);
    assert!(matches!(res, Some(Err(JoinError::Cancelled))));
    let res = finish_try_join(Some(Err(panicked())), |ptr| *ptr);
    assert!(matches!(res, Some(Err(JoinError::Panicked(_)))));
}

#[test]
fn finishing_a_poll_for_a_task() {
    let recover = |ptr: SendPtr| *ptr * 2;
    assert!(matches!(finish_join_next(Progress::Pending, recover), Progress::Pending));
    assert!(matches!(finish_join_next(Progress::Ready(None), recover), Progress::Ready(None)));
    let res = finish_join_next(Progress::Ready(Some(Ok(SendPtr::new(3)))), recover);
    assert!(matches!(res, Progress::Ready(Some(Ok(6)))));
    let res = finish_join_next(Progress::Ready(Some(Err(panicked()))), recover);
    assert!(matches!(res, Progress::Ready(Some(Err(JoinError::Panicked(_))))));
}

#[test]
fn finishing_polls_for_all_tasks() {
    let recover = |ptr: SendPtr| *ptr * 2;
    let mut results = Vec::new();
    let joined = [Ok(SendPtr::new(3)), Err(cancelled()), Err(panicked()), Ok(SendPtr::new(5))];
    for outcome in joined {
        let polled = Progress::Ready(Some(outcome));
        assert!(finish_join_all(polled, &mut results, recover).is_none());
    }
    let res = finish_join_all(Progress::Pending, &mut results, recover);
    assert!(matches!(res, Some(Progress::Pending)));
    let res = finish_join_all(Progress::Ready(None), &mut results, recover);
    assert!(matches!(res, Some(Progress::Ready(()))));
    assert_eq!(results.len(), 4);
    assert!(matches!(results[0], Ok(6)));
    assert!(matches!(results[1], Err(JoinError::Cancelled)));
    assert!(matches!(results[2], Err(JoinError::Panicked(_))));
    assert!(matches!(results[3], Ok(10)));
}

#[test]
fn finishing_a_poll_of_a_closing_scope() {
    let (phase, res) = finish_closing(Progress::Pending, "result", vec![Ok(1)]);
    assert!(matches!(res, Progress::Pending));
    match phase {
        ScopePhase::Closing { result, joined } => {
            assert_eq!(result, "result");
            assert!(matches!(joined.as_slice(), [Ok(1)]));
        }
        _ => panic!("tasks are left"),
    }
    let (phase, res) = finish_closing(Progress::Ready(()), "result", vec![Ok(1)]);
    assert!(matches!(res, Progress::Ready("result")));
    assert!(matches!(phase, ScopePhase::Closed));
}

#[test]
fn bytes_come_back_as_they_were() {
    let value: u64 = 0x0123_4567_89ab_cdef;
    let memory = value.to_ne_bytes();
    let bytes = obfuscate_lifetime::<u64>(&memory);
    assert_eq!(bytes, memory.to_vec());
    let mut restored = [0u8; 8];
    from_bytes_unchecked::<u64>(&bytes, &mut restored);
    assert_eq!(u64::from_ne_bytes(restored), value);
}

#[test]
fn a_value_without_memory_has_no_bytes() {
    assert!(obfuscate_lifetime::<()>(&[]).is_empty());
    from_bytes_unchecked::<()>(&[], &mut []);
}
