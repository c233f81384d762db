use gjwidgets::app::App;
use gjwidgets::scheduler::Scheduler;

fn run(intervals: &[u64], step_ms: u64, until_ms: u64) -> Vec<u32> {
    let mut s = Scheduler::new(&intervals.to_vec());
    let mut counts = vec![0u32; intervals.len()];
    let mut now = 0u64;
    while now <= until_ms {
        for i in s.tick(now) {
            counts[i] += 1;
        }
        now += step_ms;
    }
    counts
}

#[test]
fn end_to_end_poll_counts() {
    let counts = run(&[1000, 100, 2000], 20, 2050);
    assert!(counts[0] >= 2);
    assert!(counts[1] >= 20);
    assert!(counts[2] >= 1);
    assert_eq!(counts, vec![3, 21, 2]);
}

#[test]
fn cold_start_polls_everything() {
    let mut s = Scheduler::new(&vec![3_600_000, 1, 2000]);
    assert_eq!(s.tick(5), vec![0, 1, 2]);
    assert_eq!(s.tick(6), vec![1]);
}

#[test]
fn polls_never_closer_than_interval() {
    let mut s = Scheduler::new(&vec![100]);
    let mut polled = Vec::new();
    for t in [0u64, 50, 99, 100, 150, 199, 200, 250] {
        if !s.tick(t).is_empty() {
            polled.push(t);
        }
    }
    assert_eq!(polled, vec![0, 100, 200]);
}

#[test]
fn clock_going_back_polls_nothing() {
    let mut s = Scheduler::new(&vec![10]);
    assert_eq!(s.tick(1000), vec![0]);
    assert!(s.tick(500).is_empty());
    assert_eq!(s.entries[0].last_polled_ms, Some(1000));
}

#[test]
fn quit_key_exits() {
    let mut app = App::new();
    app.handle_key_event('x');
    assert!(!app.should_exit());
    app.handle_key_event('q');
    assert!(app.should_exit());
    assert!(!App::default().should_exit());
}
