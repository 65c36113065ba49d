use monad_cosmos::performance_monitor;
use monad_cosmos::performance_monitor::{BlockPerformanceMonitor, Stage, StepDurations};

const BASE: u64 = 5_000_000_000;

fn after_ms(ms: u64) -> u64 {
    BASE + ms * 1_000_000
}

fn monitor_with_start(started_at: Option<u64>) -> BlockPerformanceMonitor {
    BlockPerformanceMonitor::with_start(started_at)
}

#[test]
fn anchors_next_block_on_first_commit() {
    let mut monitor = monitor_with_start(None);

    monitor.flush_block(10, BASE);
    assert_eq!(monitor.current_block_height(), Some(11));
}

#[test]
fn measures_block_from_previous_commit_to_current_commit() {
    let mut monitor = monitor_with_start(Some(BASE));

    monitor.flush_block(10, after_ms(1));
    assert!(monitor.record_step(11, "new_height", after_ms(24)));
    let report = monitor.flush_block(11, after_ms(25));
    assert_eq!(report.total_ns, 24_000_000);
    assert_eq!(report.stage_latency_ns("new_height"), 23_000_000);
    assert_eq!(monitor.current_block_height(), Some(12));
}

#[test]
fn ignores_stage_updates_for_other_heights() {
    let mut monitor = monitor_with_start(None);

    monitor.flush_block(3, BASE);
    assert_eq!(monitor.current_block_height(), Some(4));
    assert!(!monitor.record_step(5, "vote", after_ms(1)));
    monitor.flush_block(4, after_ms(2));
    assert_eq!(monitor.current_block_height(), Some(5));
}

#[test]
fn total_duration_survives_missing_step_alignment() {
    let mut monitor = monitor_with_start(Some(BASE));

    monitor.flush_block(10, after_ms(1));
    assert!(!monitor.record_step(99, "new_round", after_ms(5)));
    let report = monitor.flush_block(11, after_ms(25));
    assert_eq!(report.total_ns, 24_000_000);
    assert_eq!(monitor.current_block_height(), Some(12));
}

#[test]
fn resyncs_tracker_when_commit_height_jumps() {
    let mut monitor = monitor_with_start(None);

    monitor.flush_block(10, BASE);
    monitor.flush_block(15, after_ms(5));
    assert_eq!(monitor.current_block_height(), Some(16));
}

#[test]
fn aggregates_same_stage_name_in_summary() {
    let mut monitor = monitor_with_start(None);

    monitor.flush_block(10, BASE);
    assert!(monitor.record_step(11, "new_round", after_ms(5)));
    assert!(monitor.record_step(11, "propose", after_ms(8)));
    assert!(monitor.record_step(11, "new_round", after_ms(12)));

    let report = monitor
        .current
        .take()
        .expect("tracked block")
        .into_report(BASE, after_ms(15));

    assert_eq!(report.stage_summary(), "new_round:9.000,propose:3.000");
}

#[test]
fn first_step_of_all_starts_a_block() {
    let mut monitor = monitor_with_start(None);
    assert_eq!(monitor.current_block_height(), None);
    assert!(!monitor.record_step(7, "propose", BASE));
    assert_eq!(monitor.current_block_height(), Some(7));
    assert!(monitor.record_step(7, " Pre-Commit ", after_ms(2)) == false);
    assert!(monitor.record_step(7, "PRECOMMIT", after_ms(3)));
    let report = monitor.flush_block(7, after_ms(4));
    assert_eq!(report.stage_latency_ns("precommit"), 1_000_000);
    assert_eq!(report.total_ns, 4_000_000);
}

#[test]
fn step_names_have_several_spellings() {
    assert_eq!(performance_monitor::normalize_step_name(" New-Height\n"), Some(Stage::NewHeight));
    assert_eq!(performance_monitor::normalize_step_name("newheight"), Some(Stage::NewHeight));
    assert_eq!(performance_monitor::normalize_step_name("NEW ROUND"), Some(Stage::NewRound));
    assert_eq!(performance_monitor::normalize_step_name("newround"), Some(Stage::NewRound));
    assert_eq!(performance_monitor::normalize_step_name("Prevote"), Some(Stage::Prevote));
    assert_eq!(performance_monitor::normalize_step_name("commit"), Some(Stage::Commit));
    assert_eq!(performance_monitor::normalize_step_name("new__round"), None);
    assert_eq!(performance_monitor::normalize_step_name(""), None);
    assert_eq!(Stage::Precommit.name(), "precommit");
}

#[test]
fn time_that_runs_backwards_counts_as_none() {
    let mut monitor = monitor_with_start(Some(after_ms(10)));
    let report = monitor.flush_block(1, after_ms(3));
    assert_eq!(report.total_ns, 0);
    assert!(monitor.record_step(2, "commit", after_ms(1)));
    assert!(monitor.record_step(2, "commit", after_ms(2)));
    let report = monitor.flush_block(2, after_ms(9));
    assert_eq!(report.stage_latency_ns("commit"), 1_000_000);
    assert_eq!(report.total_ns, 6_000_000);
}

#[test]
fn the_last_height_is_followed_by_itself() {
    let mut monitor = monitor_with_start(None);
    monitor.flush_block(u64::MAX, BASE);
    assert_eq!(monitor.current_block_height(), Some(u64::MAX));
}

#[test]
fn summary_line_lists_every_stage() {
    let mut monitor = monitor_with_start(Some(BASE));
    assert_eq!(performance_monitor::current_block_height(&monitor), None);
    assert!(!performance_monitor::record_step(&mut monitor, 4, "propose", BASE));
    assert!(performance_monitor::record_step(&mut monitor, 4, "propose", BASE + 1_234_567));
    let line = performance_monitor::flush_block(&mut monitor, 4, BASE + 2_000_499);
    assert_eq!(
        line,
        "msg=consensus height=4 new_height=0.000 new_round=0.000 propose=1.235 prevote=0.000 \
         precommit=0.000 commit=0.000 total=2.000"
    );
    assert_eq!(performance_monitor::current_block_height(&monitor), Some(5));
}

#[test]
fn stages_never_take_more_than_went_by() {
    let mut durations = StepDurations::default();
    assert!(!durations.add_step("vote", 5));
    assert_eq!(durations, StepDurations::default());
    assert!(durations.add_step("prevote", 5));
    assert!(durations.add_step("prevote", u64::MAX));
    assert_eq!(durations.get(Stage::Prevote), u64::MAX);
    assert_eq!(durations.get(Stage::Commit), 0);
}

#[test]
fn halves_are_rounded_to_the_even_microsecond() {
    for (ns, text) in [
        (62_500, "0.062"),
        (187_500, "0.188"),
        (4_500, "0.004"),
        (4_501, "0.005"),
        (4_499, "0.004"),
        (499, "0.000"),
        (1_999_999, "2.000"),
    ] {
        let mut monitor = monitor_with_start(Some(BASE));
        let line = performance_monitor::flush_block(&mut monitor, 4, BASE + ns);
        assert!(line.ends_with(&format!("total={text}")), "{line}");
        assert_eq!(format!("{:.3}", ns as f64 / 1_000_000.0), text);
    }
}
