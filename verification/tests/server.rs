use showcase::delay::{DelayIter, ResponseDelays, DELAY_PERIOD};
use showcase::hello::hello_message;

#[test]
fn greetings_name_the_caller() {
    assert_eq!(hello_message("Ada"), "Hello, Ada!");
    assert_eq!(hello_message(""), "Hello, !");
}

#[test]
fn default_delays_span_one_to_250_milliseconds() {
    let delays = ResponseDelays::default();
    assert_eq!((delays.min, delays.max), (1_000_000, 250_000_000));
}

#[test]
fn delays_stay_in_range_and_repeat_for_a_period() {
    let mut delays = DelayIter::new(3, 10..20);
    let mut seen = Vec::new();
    for _ in 0..500 {
        let delay = delays.next().unwrap();
        assert!((10..20).contains(&delay));
        seen.push(delay);
    }
    let period = DELAY_PERIOD as usize + 1;
    for block in seen[DELAY_PERIOD as usize..].chunks(period) {
        assert!(block.iter().all(|delay| *delay == block[0]));
    }
    assert!(seen[..DELAY_PERIOD as usize].iter().all(|delay| *delay == seen[0]));
}

#[test]
fn a_single_value_range_always_gives_that_value() {
    let mut delays = DelayIter::new(0, 7..8);
    for _ in 0..200 {
        assert_eq!(delays.next(), Some(7));
    }
}

#[test]
fn fresh_delays_come_every_period_after_the_first_runs_out() {
    let mut delays = DelayIter::new(1, 0..1_000_000_000);
    let first = delays.next().unwrap();
    let period = DELAY_PERIOD as usize + 1;
    let mut seen = vec![first];
    for _ in 0..(3 * period) {
        seen.push(delays.next().unwrap());
    }
    // The first delay is kept for DELAY_PERIOD calls after the first one.
    assert!(seen[..DELAY_PERIOD as usize].iter().all(|delay| *delay == first));
    for (i, pair) in seen.windows(2).enumerate() {
        let call = i + 1;
        let redraw = call >= DELAY_PERIOD as usize && (call - DELAY_PERIOD as usize) % period == 0;
        if !redraw {
            assert_eq!(pair[0], pair[1], "call {call}");
        }
    }
}
