use std::cell::Cell;

use sysmon::health::{Health, Healthcheck};
use sysmon::sample::{collect_samples, sample_step};

#[test]
fn stream_emits_only_the_successes_in_order() {
    let outcomes: Vec<Result<u64, &str>> = vec![
        Err("down"),
        Ok(1),
        Err("down"),
        Ok(2),
        Err("down"),
        Ok(3),
    ];

    let emitted = collect_samples(outcomes);

    assert_eq!(emitted, vec![1, 2, 3]);
}

#[test]
fn stream_of_failures_emits_nothing() {
    let outcomes: Vec<Result<u64, &str>> = vec![Err("a"), Err("b")];

    assert_eq!(collect_samples(outcomes), Vec::<u64>::new());
}

#[test]
fn stream_of_successes_emits_everything() {
    let outcomes: Vec<Result<u64, &str>> = vec![Ok(4), Ok(5)];

    assert_eq!(collect_samples(outcomes), vec![4, 5]);
}

#[test]
fn sample_step_keeps_success_and_drops_failure() {
    assert_eq!(sample_step::<u64, &str>(Ok(7)), Some(7));
    assert_eq!(sample_step::<u64, &str>(Err("gone")), None);
}

struct FlipAfter {
    polls: Cell<u64>,
    healthy_until: u64,
}

impl Healthcheck for FlipAfter {
    fn health(&self) -> Health {
        let seen = self.polls.get();
        self.polls.set(seen + 1);
        if seen < self.healthy_until {
            Health::Healthy
        } else {
            Health::Unhealthy {
                reason: Some("worn out".to_string()),
            }
        }
    }
}

#[test]
fn on_unhealthy_fires_once_after_the_transition() {
    let hc = FlipAfter {
        polls: Cell::new(0),
        healthy_until: 3,
    };
    let fired = Cell::new(0u64);

    let done = hc.on_unhealthy(|| fired.set(fired.get() + 1), 10);

    assert!(done);
    assert_eq!(fired.get(), 1);
}

#[test]
fn on_unhealthy_fires_at_once_when_already_unhealthy() {
    let hc = FlipAfter {
        polls: Cell::new(0),
        healthy_until: 0,
    };
    let fired = Cell::new(0u64);

    let done = hc.on_unhealthy(|| fired.set(fired.get() + 1), 1);

    assert!(done);
    assert_eq!(fired.get(), 1);
}

#[test]
fn on_unhealthy_reports_an_exhausted_budget() {
    let hc = FlipAfter {
        polls: Cell::new(0),
        healthy_until: 100,
    };
    let fired = Cell::new(0u64);

    let done = hc.on_unhealthy(|| fired.set(fired.get() + 1), 5);

    assert!(!done);
    assert_eq!(fired.get(), 0);
}

#[test]
fn on_healthy_fires_once_when_healthy() {
    let hc = FlipAfter {
        polls: Cell::new(0),
        healthy_until: 100,
    };
    let fired = Cell::new(0u64);

    let done = hc.on_healthy(|| fired.set(fired.get() + 1), 3);

    assert!(done);
    assert_eq!(fired.get(), 1);
}

#[test]
fn health_state_reads_back() {
    assert!(Health::Healthy.is_healthy());
    assert!(!Health::Unhealthy { reason: None }.is_healthy());
}
