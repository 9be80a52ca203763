use rustml_inference::engine::{EngineError, EngineState};

fn resnet_engine(pool: usize, max: usize) -> EngineState {
    EngineState::new(vec![-1, 3, 224, 224], pool, max)
}

#[test]
fn a_new_engine_is_idle() {
    let e = resnet_engine(4, 12);
    assert_eq!(e.pool_size(), 4);
    assert_eq!(e.active_requests(), 0);
    assert_eq!(e.max_concurrency(), 12);
    assert_eq!(e.index(), 0);
    assert_eq!(e.input_shape(), &vec![-1, 3, 224, 224]);
}

#[test]
fn rank_mismatch_is_refused_first() {
    let mut e = resnet_engine(2, 0);
    assert_eq!(e.begin_request(3), Err(EngineError::RankMismatch { expected: 4, got: 3 }));
    assert_eq!(e.active_requests(), 0);
}

#[test]
fn requests_beyond_the_limit_are_refused() {
    let mut e = resnet_engine(2, 2);
    assert_eq!(e.begin_request(4), Ok(()));
    assert_eq!(e.begin_request(4), Ok(()));
    assert_eq!(e.active_requests(), 2);
    assert_eq!(e.begin_request(4), Err(EngineError::Overloaded));
    assert_eq!(e.active_requests(), 2);
    e.end_request();
    assert_eq!(e.active_requests(), 1);
    assert_eq!(e.begin_request(4), Ok(()));
}

#[test]
fn zero_limit_refuses_everything() {
    let mut e = resnet_engine(2, 0);
    assert_eq!(e.begin_request(4), Err(EngineError::Overloaded));
}

#[test]
fn begin_then_end_restores_the_count() {
    let mut e = resnet_engine(3, 9);
    e.begin_request(4).unwrap();
    e.end_request();
    assert_eq!(e.active_requests(), 0);
}

#[test]
fn a_failed_request_frees_its_slot() {
    let mut e = resnet_engine(2, 1);
    e.begin_request(4).unwrap();
    assert_eq!(e.begin_request(4), Err(EngineError::Overloaded));
    let failed: Result<u32, String> = Err("session run failed".to_string());
    assert_eq!(e.complete_request(failed), Err("session run failed".to_string()));
    assert_eq!(e.active_requests(), 0);
    assert_eq!(e.begin_request(4), Ok(()));
    assert_eq!(e.complete_request::<u32, String>(Ok(7)), Ok(7));
    assert_eq!(e.active_requests(), 0);
}

#[test]
fn in_flight_never_exceeds_the_limit() {
    let mut e = resnet_engine(2, 3);
    for _ in 0..10 {
        let _ = e.begin_request(4);
        assert!(e.active_requests() <= e.max_concurrency());
    }
    assert_eq!(e.active_requests(), 3);
}

#[test]
fn sessions_are_picked_round_robin() {
    let mut e = resnet_engine(3, 9);
    let picks: Vec<usize> = (0..7).map(|_| e.select_session()).collect();
    assert_eq!(picks, vec![0, 1, 2, 0, 1, 2, 0]);
    assert_eq!(e.index(), 7);
}

#[test]
fn any_window_of_pool_picks_covers_every_session() {
    let mut e = resnet_engine(4, 9);
    e.select_session();
    let mut window: Vec<usize> = (0..4).map(|_| e.select_session()).collect();
    assert_eq!(window, vec![1, 2, 3, 0]);
    window.sort();
    assert_eq!(window, vec![0, 1, 2, 3]);
}
