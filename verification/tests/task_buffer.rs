use kraft_lib::runtime_core::task_buffer::{after_attempt, next_index, ClaimStep, TaskBufferImpl};
use kraft_lib::service_utils::errors::ServiceError;

#[test]
fn test_claim_spot_sequential() {
    let mut buffer: TaskBufferImpl<i32> = TaskBufferImpl::new();

    let spot1 = buffer.claim_spot().expect("Should claim spot 0");
    let spot2 = buffer.claim_spot().expect("Should claim spot 1");
    let spot3 = buffer.claim_spot().expect("Should claim spot 2");

    assert_eq!(spot1, 0);
    assert_eq!(spot2, 1);
    assert_eq!(spot3, 2);
}

#[test]
fn test_claim_spot_overflow_protection() {
    let mut buffer: TaskBufferImpl<i32> = TaskBufferImpl::new();

    // Set write_index near u64::MAX to test overflow protection
    buffer.write_index = u64::MAX;

    let result = buffer.claim_spot();
    assert!(result.is_err());
    match result {
        Err(ServiceError::ThrottlingError(msg)) => {
            assert!(msg.contains("overflow"), "Error should mention overflow");
        }
        _ => panic!("Expected ThrottlingError for overflow"),
    }
}

#[test]
fn test_peek_size() {
    let mut buffer: TaskBufferImpl<i32> = TaskBufferImpl::new();

    assert_eq!(buffer.peek_size(), 0);

    buffer.claim_spot().unwrap();
    assert_eq!(buffer.peek_size(), 1);

    buffer.claim_spot().unwrap();
    buffer.claim_spot().unwrap();
    assert_eq!(buffer.peek_size(), 3);
}

#[test]
fn tasks_are_put_and_read_round_and_round() {
    let mut buffer = TaskBufferImpl { read_index: 0, write_index: 0, tasks: vec![10, 20, 30] };
    buffer.put_task(99, 4);
    assert_eq!(buffer.tasks, vec![10, 99, 20, 30]);
    assert_eq!(buffer.get_task(), Some(&10));
    assert_eq!(buffer.get_task(), Some(&99));
    buffer.read_index = 6;
    assert_eq!(buffer.get_task(), Some(&20));
    assert_eq!(buffer.read_index, 7);
}

#[test]
fn contended_claims_give_up() {
    assert_eq!(next_index(7).unwrap(), 8);
    assert!(next_index(u64::MAX).is_err());
    assert!(matches!(after_attempt(5, true, 1), ClaimStep::Done(Ok(5))));
    assert!(matches!(after_attempt(5, false, 99), ClaimStep::Retry));
    assert!(matches!(
        after_attempt(5, false, 100),
        ClaimStep::Done(Err(ServiceError::RaceConditionError))
    ));
}

#[test]
fn interleaved_claims_are_unique() {
    // Three claimants read the write index before any of them moves it on.
    let mut write_index: u64 = 4;
    let mut spots = Vec::new();
    let mut read = vec![write_index; 3];
    let mut tried = vec![0u32; 3];
    while spots.len() < 3 {
        for claimant in 0..3 {
            if tried[claimant] == u32::MAX {
                continue;
            }
            let next = next_index(read[claimant]).unwrap();
            let won = write_index == read[claimant];
            if won {
                write_index = next;
            }
            tried[claimant] += 1;
            match after_attempt(read[claimant], won, tried[claimant]) {
                ClaimStep::Done(spot) => {
                    spots.push(spot.unwrap());
                    tried[claimant] = u32::MAX;
                }
                ClaimStep::Retry => read[claimant] = write_index,
            }
        }
    }
    spots.sort();
    assert_eq!(spots, vec![4, 5, 6]);
    assert_eq!(write_index, 7);
}
