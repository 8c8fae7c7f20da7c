use bufpool::engine::{Completion, IoEngine, IoOp, Request, Waited};
use bufpool::error::{IoCause, PoolError};

#[test]
fn new_engine_is_idle() {
    let mut engine = IoEngine::new(4);
    assert_eq!(engine.queue_depth(), 4);
    assert_eq!(engine.in_flight(), 0);
    assert!(!engine.is_saturated());
    assert!(engine.poll_completions().is_empty());
}

#[test]
fn tokens_count_up_from_zero() {
    let mut engine = IoEngine::new(4);
    assert_eq!(engine.submit_read(10, 0), Ok(0));
    assert_eq!(engine.submit_write(11, 1), Ok(1));
    assert_eq!(engine.submit_read(12, 2), Ok(2));
    assert_eq!(engine.in_flight(), 3);
    assert_eq!(
        engine.pending_request(1),
        Some(Request { token: 1, op: IoOp::Write, page_id: 11, frame_index: 1 })
    );
    assert_eq!(engine.pending_request(3), None);
}

#[test]
fn submission_beyond_queue_depth_is_refused() {
    let mut engine = IoEngine::new(2);
    assert_eq!(engine.submit_read(1, 0), Ok(0));
    assert_eq!(engine.submit_read(2, 1), Ok(1));
    assert!(engine.is_saturated());
    assert_eq!(engine.submit_read(3, 2), Err(PoolError::QueueSaturated));
    assert_eq!(engine.submit_write(3, 2), Err(PoolError::QueueSaturated));
    assert_eq!(engine.in_flight(), 2);
    assert_eq!(engine.pending_request(2), None);
}

#[test]
fn zero_depth_refuses_everything() {
    let mut engine = IoEngine::new(0);
    assert_eq!(engine.submit_read(1, 0), Err(PoolError::QueueSaturated));
}

#[test]
fn completions_equal_accepted_submissions() {
    let mut engine = IoEngine::new(3);
    let mut accepted: Vec<u64> = Vec::new();
    let mut refused = 0;
    for page in 0..5u64 {
        match engine.submit_read(page, page as usize) {
            Ok(token) => accepted.push(token),
            Err(e) => {
                assert_eq!(e, PoolError::QueueSaturated);
                refused += 1;
            }
        }
    }
    assert_eq!(accepted, vec![0, 1, 2]);
    assert_eq!(refused, 2);
    for token in accepted.iter() {
        assert!(engine.complete(*token, 4096, 4096));
    }
    let drained = engine.poll_completions();
    assert_eq!(drained.len(), accepted.len());
    assert_eq!(engine.in_flight(), 0);
    assert!(engine.poll_completions().is_empty());
    assert_eq!(engine.submit_read(9, 0), Ok(3));
}

#[test]
fn slot_is_freed_by_draining_not_by_completing() {
    let mut engine = IoEngine::new(1);
    assert_eq!(engine.submit_read(1, 0), Ok(0));
    assert!(engine.complete(0, 8, 8));
    assert_eq!(engine.in_flight(), 1);
    assert_eq!(engine.submit_read(2, 0), Err(PoolError::QueueSaturated));
    assert_eq!(engine.poll_completions().len(), 1);
    assert_eq!(engine.submit_read(2, 0), Ok(1));
}

#[test]
fn completions_arrive_out_of_order() {
    let mut engine = IoEngine::new(4);
    engine.submit_read(10, 0).unwrap();
    engine.submit_write(11, 1).unwrap();
    engine.submit_read(12, 2).unwrap();
    assert!(engine.complete(2, 7, 0));
    assert!(engine.complete(0, 8, 0));
    let drained = engine.poll_completions();
    assert_eq!(
        drained,
        vec![
            Completion {
                request: Request { token: 2, op: IoOp::Read, page_id: 12, frame_index: 2 },
                byte_count: 7,
                result: 0,
            },
            Completion {
                request: Request { token: 0, op: IoOp::Read, page_id: 10, frame_index: 0 },
                byte_count: 8,
                result: 0,
            },
        ]
    );
    assert_eq!(engine.in_flight(), 1);
    assert!(engine.pending_request(1).is_some());
}

#[test]
fn no_request_completes_twice() {
    let mut engine = IoEngine::new(2);
    engine.submit_read(10, 0).unwrap();
    assert!(engine.complete(0, 8, 0));
    assert!(!engine.complete(0, 8, 0));
    assert_eq!(engine.poll_completions().len(), 1);
    assert!(!engine.complete(0, 8, 0));
    assert!(engine.poll_completions().is_empty());
}

#[test]
fn unknown_token_is_refused() {
    let mut engine = IoEngine::new(2);
    assert!(!engine.complete(5, 8, 0));
    assert_eq!(engine.in_flight(), 0);
}

#[test]
fn wait_for_tells_pending_from_ready() {
    let mut engine = IoEngine::new(2);
    engine.submit_read(10, 3).unwrap();
    engine.submit_read(11, 4).unwrap();
    assert_eq!(engine.wait_for(0), Waited::Pending);
    assert_eq!(engine.wait_for(7), Waited::Unknown);
    assert!(engine.complete(1, 16, 16));
    assert_eq!(engine.wait_for(0), Waited::Pending);
    assert_eq!(
        engine.wait_for(1),
        Waited::Ready(Completion {
            request: Request { token: 1, op: IoOp::Read, page_id: 11, frame_index: 4 },
            byte_count: 16,
            result: 16,
        })
    );
    assert_eq!(engine.wait_for(1), Waited::Unknown);
    assert_eq!(engine.in_flight(), 1);
}

fn completion(byte_count: usize, result: i32) -> Completion {
    Completion {
        request: Request { token: 0, op: IoOp::Read, page_id: 77, frame_index: 0 },
        byte_count,
        result,
    }
}

#[test]
fn full_transfer_is_success() {
    assert_eq!(completion(4096, 4096).outcome(4096), Ok(()));
    assert_eq!(completion(4096, 0).outcome(4096), Ok(()));
    assert_eq!(completion(0, 0).outcome(0), Ok(()));
}

#[test]
fn short_transfer_is_a_failure() {
    assert_eq!(
        completion(4095, 4095).outcome(4096),
        Err(PoolError::IoFailure {
            page_id: 77,
            cause: IoCause::ShortTransfer { transferred: 4095, expected: 4096 },
        })
    );
}

#[test]
fn negative_status_is_a_device_error() {
    assert_eq!(
        completion(4096, -5).outcome(4096),
        Err(PoolError::IoFailure { page_id: 77, cause: IoCause::Device { code: -5 } })
    );
    assert_eq!(
        completion(0, -1).outcome(4096),
        Err(PoolError::IoFailure { page_id: 77, cause: IoCause::Device { code: -1 } })
    );
}
