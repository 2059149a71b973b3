use logshear::stage::{run_stages, RunStats, Stage};

#[test]
fn limit_and_skip_decide_by_counts() {
    let mut limit = Stage::limit(2);
    assert!(limit.apply("x", 1, 0));
    assert!(!limit.apply("x", 2, 0));
    let mut skip = Stage::skip(3);
    assert!(!skip.apply("x", 0, 2));
    assert!(skip.apply("x", 0, 3));
}

#[test]
fn rate_sample_stage_keeps_every_nth() {
    let mut s = Stage::rate_sample(2);
    let kept: Vec<bool> = (0..4).map(|_| s.apply("x", 0, 0)).collect();
    assert_eq!(kept, vec![false, true, false, true]);
}

#[test]
fn stages_run_in_order_until_one_stops() {
    let mut stages = vec![Stage::skip(1), Stage::rate_sample(1)];
    assert!(!run_stages(&mut stages, "a", 0, 0));
    assert!(run_stages(&mut stages, "b", 0, 1));
    match &stages[1] {
        Stage::Sample(s) => assert_eq!(s.lines_seen(), 1),
        _ => panic!("expected a sampler"),
    }
}

#[test]
fn run_stats_count_lines() {
    let mut st = RunStats::default();
    st.record(true);
    st.record(false);
    st.record(true);
    assert_eq!(st.lines_read, 3);
    assert_eq!(st.lines_passed, 2);
    assert_eq!(st.lines_skipped, 1);
    assert_eq!(st.lines_warned, 0);
}

#[test]
fn reservoir_stage_passes_while_room() {
    let mut s = Stage::reservoir_sample(1);
    assert!(s.apply("a", 0, 0));
}
