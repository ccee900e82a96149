use srtla_send::connection::loss::{LossTracker as Cohorts, LOSS_COHORT_MIN_SENDS};
use srtla_send::connection::loss_debit::{LossDebit, LossSend};

/// The cohort evidence with the smoothed loss value its owner keeps: samples
/// that leave the history are folded into a prior average, the retained ones
/// are folded on top of it.
struct LossTracker {
    cohorts: Cohorts,
    prior: Option<f64>,
}

fn smooth(prev: Option<f64>, sample: (u32, u32)) -> Option<f64> {
    let x = f64::from(sample.0) / f64::from(sample.1);
    Some(match prev {
        None => x,
        Some(v) => 0.2 * x + 0.8 * v,
    })
}

impl LossTracker {
    fn new(now_ms: u64) -> Self {
        LossTracker {
            cohorts: Cohorts::new(now_ms),
            prior: None,
        }
    }

    fn settle(&mut self) {
        for sample in self.cohorts.take_retired() {
            self.prior = smooth(self.prior, sample);
        }
    }

    fn record_send(&mut self, now_ms: u64) {
        self.cohorts.record_send(now_ms);
        self.settle();
    }

    fn record_data_nak(&mut self, now_ms: u64) {
        self.cohorts.record_data_nak(now_ms);
        self.settle();
    }

    fn record_data_nak_for_send(&mut self, sent_ms: u64, now_ms: u64) {
        self.cohorts.record_data_nak_for_send(sent_ms, now_ms);
        self.settle();
    }

    fn advance(&mut self, now_ms: u64) {
        self.cohorts.advance(now_ms);
        self.settle();
    }

    fn last_value(&self) -> Option<f64> {
        self.cohorts.last_cohort_ms()?;
        let mut v = self.prior;
        for sample in self.cohorts.samples() {
            v = smooth(v, sample);
        }
        v
    }

    fn last_cohort_ms(&self) -> Option<u64> {
        self.cohorts.last_cohort_ms()
    }

    fn is_stale(&self, now_ms: u64, stale_after_ms: u64) -> bool {
        self.cohorts.is_stale(now_ms, stale_after_ms)
    }

    fn loss_cohort_ok(&self, now_ms: u64, stale_after_ms: u64) -> bool {
        self.cohorts.loss_cohort_ok(now_ms, stale_after_ms)
    }
}

fn cohort(tracker: &mut LossTracker, start: u64, (sends, naks): (u32, u32)) {
    for _ in 0..sends {
        tracker.record_send(start);
    }
    for _ in 0..naks {
        tracker.record_data_nak(start + 500);
    }
    tracker.advance(start + 1000);
}

#[test]
fn loss_cohort_floor_discards_fifty_sends_and_fifty_naks() {
    let mut tracker = LossTracker::new(0);
    cohort(&mut tracker, 0, (50, 50));
    assert_eq!(tracker.last_value(), None);
    assert_eq!(tracker.last_cohort_ms(), None);
    assert!(!tracker.loss_cohort_ok(1000, 10_000));
}

#[test]
fn loss_sub_floor_cohort_preserves_existing_ewma_and_timestamp() {
    let mut tracker = LossTracker::new(0);
    cohort(&mut tracker, 0, (100, 20));
    cohort(&mut tracker, 1000, (50, 50));
    assert_eq!(tracker.last_value(), Some(0.2));
    assert_eq!(tracker.last_cohort_ms(), Some(1000));
    assert!(!tracker.loss_cohort_ok(2000, 10_000));
}

#[test]
fn loss_cohort_floor_and_one_second_boundary_are_inclusive() {
    let mut tracker = LossTracker::new(0);
    assert_eq!(LOSS_COHORT_MIN_SENDS, 100);
    for _ in 0..LOSS_COHORT_MIN_SENDS {
        tracker.record_send(0);
    }
    tracker.advance(999);
    assert_eq!(tracker.last_value(), None);
    tracker.advance(1000);
    assert_eq!(tracker.last_value(), Some(0.0));
    assert_eq!(tracker.last_cohort_ms(), Some(1000));
    assert!(tracker.loss_cohort_ok(1000, 10_000));
}

#[test]
fn loss_ewma_uses_point_two_alpha_and_converges() {
    let mut tracker = LossTracker::new(0);
    cohort(&mut tracker, 0, (100, 100));
    cohort(&mut tracker, 1000, (100, 0));
    assert_eq!(tracker.last_value(), Some(0.8));
    for second in 2..102 {
        cohort(&mut tracker, second * 1000, (100, 20));
    }
    assert!((tracker.last_value().unwrap() - 0.2).abs() < 1e-8);
}

#[test]
fn loss_stale_detection_retains_the_original_evidence_date() {
    let mut tracker = LossTracker::new(0);
    cohort(&mut tracker, 0, (100, 10));
    assert!(!tracker.is_stale(10_999, 10_000));
    tracker.advance(11_000);
    assert!(tracker.is_stale(11_000, 10_000));
    assert!(!tracker.loss_cohort_ok(11_000, 10_000));
    assert_eq!(tracker.last_cohort_ms(), Some(1000));
    assert_eq!(tracker.last_value(), Some(0.1));
}

#[test]
fn loss_long_idle_gap_neither_combines_cohorts_nor_refreshes_evidence() {
    let mut tracker = LossTracker::new(0);
    for _ in 0..100 {
        tracker.record_send(0);
    }
    tracker.record_send(11_500);
    assert_eq!(tracker.last_cohort_ms(), Some(1000));
    assert!(tracker.is_stale(11_500, 10_000));
    assert!(!tracker.loss_cohort_ok(11_500, 10_000));
}

#[test]
fn loss_sub_floor_cohorts_never_accumulate_towards_the_floor() {
    let mut tracker = LossTracker::new(0);
    for second in 0..5 {
        cohort(&mut tracker, second * 1000, (99, 99));
    }
    assert_eq!(tracker.last_value(), None);
    assert!(tracker.is_stale(5000, 10_000));
}

#[test]
fn loss_boundary_send_belongs_to_the_next_cohort() {
    let mut tracker = LossTracker::new(0);
    for _ in 0..99 {
        tracker.record_send(0);
    }
    tracker.record_send(1000);
    tracker.advance(2000);
    assert_eq!(tracker.last_value(), None);
}

#[test]
fn delayed_feedback_preserves_evidence_age_and_history_is_bounded() {
    let mut tracker = LossTracker::new(0);
    cohort(&mut tracker, 0, (100, 0));
    tracker.record_data_nak_for_send(0, 9000);
    assert_eq!(tracker.last_value(), Some(0.01));
    assert_eq!(tracker.last_cohort_ms(), Some(1000));
    assert!(!tracker.loss_cohort_ok(9000, 10_000));
    tracker.record_data_nak_for_send(0, 11_000);
    assert_eq!(tracker.last_value(), Some(0.01));
    assert!(tracker.is_stale(11_000, 10_000));
    for second in 12..1000 {
        cohort(&mut tracker, second * 1000, (100, 1));
        assert!(tracker.cohorts.history_len() <= 10);
    }
}

#[test]
fn accepted_send_carries_cohort_and_deadline() {
    let mut cohorts = Cohorts::new(0);
    let send = cohorts.record_accepted_send(1500);
    assert_eq!(
        send,
        LossSend {
            epoch: 0,
            cohort_start_ms: 1000,
            deadline_ms: 2000,
        }
    );
    cohorts.set_latency_ms(80);
    let send = cohorts.record_accepted_send(1600);
    assert_eq!(send.deadline_ms, 1680);
}

#[test]
fn debit_is_pending_until_the_deadline_and_can_be_credited() {
    let mut cohorts = Cohorts::new(0);
    for _ in 0..99 {
        cohorts.record_send(0);
    }
    let send = cohorts.record_accepted_send(0);
    let debit = cohorts.debit_accepted_send(send, 100).unwrap();
    assert_eq!(debit.count, 1);
    cohorts.credit_recovered(debit, 200);
    cohorts.advance(1000);
    // The cohort settles with no loss once the debit was taken back.
    assert_eq!(cohorts.samples(), vec![(0, 100)]);
    // After the deadline a debit no longer comes back.
    let late = cohorts.record_accepted_send(1000);
    assert!(cohorts.debit_accepted_send(late, 1600).is_none());
}

#[test]
fn recovery_voids_debits_of_the_previous_epoch() {
    let mut cohorts = Cohorts::new(0);
    for _ in 0..100 {
        cohorts.record_send(0);
    }
    let send = cohorts.record_accepted_send(0);
    cohorts.advance(1000);
    assert_eq!(cohorts.last_cohort_ms(), Some(1000));
    cohorts.begin_recovered_epoch(1500);
    assert_eq!(cohorts.last_cohort_ms(), None);
    assert_eq!(cohorts.history_len(), 0);
    assert!(cohorts.debit_accepted_send(send, 1600).is_none());
    assert!(cohorts.samples().is_empty());
}

#[test]
fn future_nak_is_ignored() {
    let mut cohorts = Cohorts::new(0);
    cohorts.record_send(0);
    assert!(cohorts.debit_data_nak(500, 100).is_none());
}

#[test]
fn aged_qualifying_cohorts_are_handed_out_once() {
    let mut cohorts = Cohorts::new(0);
    for _ in 0..100 {
        cohorts.record_send(0);
    }
    cohorts.record_data_nak(10);
    cohorts.advance(11_000);
    assert_eq!(cohorts.take_retired(), vec![(1, 100)]);
    assert!(cohorts.take_retired().is_empty());
    assert_eq!(cohorts.last_cohort_ms(), Some(1000));
}

#[test]
fn advancing_twice_to_the_same_time_changes_nothing() {
    let mut cohorts = Cohorts::new(0);
    for _ in 0..120 {
        cohorts.record_send(0);
    }
    cohorts.record_data_nak(300);
    cohorts.advance(1500);
    let once = (cohorts.samples(), cohorts.last_cohort_ms(), cohorts.history_len());
    cohorts.advance(1500);
    let twice = (cohorts.samples(), cohorts.last_cohort_ms(), cohorts.history_len());
    assert_eq!(once, twice);
    assert_eq!(once, (vec![(1, 120)], Some(1000), 1));
}

#[test]
fn a_debit_that_stopped_pending_never_pends_again() {
    let d = LossDebit {
        send: LossSend {
            epoch: 0,
            cohort_start_ms: 1000,
            deadline_ms: 1500,
        },
        count: 1,
    };
    let pending: Vec<bool> = [1000, 1499, 1500, 1501, 20_000]
        .iter()
        .map(|&t| d.pending_at(t))
        .collect();
    assert_eq!(pending, [true, true, false, false, false]);
}
