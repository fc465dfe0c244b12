use l7_flood::statistic::{
    classify_status, outcome_delta, update_status_counter, RequestOutcome, Statistic, StatusBucket, StatusCounter,
};

#[test]
fn status_classes() {
    assert_eq!(classify_status(200), StatusBucket::Success);
    assert_eq!(classify_status(299), StatusBucket::Success);
    assert_eq!(classify_status(301), StatusBucket::Redirect);
    assert_eq!(classify_status(404), StatusBucket::ClientError);
    assert_eq!(classify_status(503), StatusBucket::ServerError);
    assert_eq!(classify_status(199), StatusBucket::Other);
    assert_eq!(classify_status(600), StatusBucket::Other);
}

#[test]
fn update_status_counter_bumps_one_bucket() {
    let mut sc = StatusCounter::new();
    update_status_counter(204, &mut sc);
    update_status_counter(500, &mut sc);
    update_status_counter(42, &mut sc);
    assert_eq!(sc.status_2xx, 1);
    assert_eq!(sc.status_5xx, 1);
    assert_eq!(sc.status_other, 1);
    assert_eq!(sc.status_3xx + sc.status_4xx, 0);
}

#[test]
fn statistics_conserve_buckets() {
    let outcomes = [
        RequestOutcome::Completed { status: 200, bytes: 5, drain_timed_out: false },
        RequestOutcome::SendFailed,
        RequestOutcome::Completed { status: 302, bytes: 0, drain_timed_out: false },
        RequestOutcome::Completed { status: 200, bytes: 7, drain_timed_out: true },
        RequestOutcome::SendFailed,
    ];
    let mut s = Statistic::new();
    let mut prev = s;
    for o in outcomes {
        s.record(o);
        assert!(s.status_counter.status_2xx >= prev.status_counter.status_2xx);
        assert!(s.status_counter.status_other >= prev.status_counter.status_other);
        prev = s;
    }
    let sc = s.status_counter;
    let sum = sc.status_2xx + sc.status_3xx + sc.status_4xx + sc.status_5xx + sc.status_other;
    assert_eq!(s.request_counter, 3);
    assert_eq!(sum, s.request_counter + 2);
    assert_eq!(s.network_traffics, 12);
    assert_eq!(sc.status_other, 3);
}

#[test]
fn end_to_end_all_ok_ten_bytes() {
    // four workers, each completing several 200 responses of 10 bytes
    let mut s = Statistic::new();
    for _worker in 0..4 {
        for _ in 0..25 {
            s.record(RequestOutcome::Completed { status: 200, bytes: 10, drain_timed_out: false });
        }
    }
    let sc = s.status_counter;
    assert_eq!(sc.status_2xx, s.request_counter);
    assert_eq!(s.network_traffics, 10 * s.request_counter);
    assert_eq!(sc.status_3xx + sc.status_4xx + sc.status_5xx + sc.status_other, 0);
}

#[test]
fn delta_of_failed_send() {
    let d = outcome_delta(RequestOutcome::SendFailed);
    assert_eq!(d.requests, 0);
    assert_eq!(d.bytes, 0);
    assert_eq!(d.bucket, StatusBucket::Other);
}

#[test]
fn grpc_snapshot() {
    let mut sc = StatusCounter::new();
    update_status_counter(404, &mut sc);
    let g = sc.get_grpc(99);
    assert_eq!((g.code_2, g.code_4, g.failure, g.timestamp), (0, 1, 0, 99));
}
