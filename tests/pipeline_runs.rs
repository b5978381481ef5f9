use recordflow::audit::{check_completeness, validate_batch};
use recordflow::channel::{BoundedChannel, Recv};
use recordflow::pipeline::{Pipeline, run_pipeline_steps};
use recordflow::record::Record;
use recordflow::supervisor::{RunOutcome, build_report, preview};
use recordflow::{PipelineConfig, Stage, StageState, run_pipeline};

fn sorted_ids(v: &[Record]) -> Vec<u32> {
    let mut ids: Vec<u32> = v.iter().map(|r| r.id).collect();
    ids.sort();
    ids
}

fn full_set(n: u32) -> Vec<Record> {
    (1..=n).map(|i| Record { id: i, value: 2 * i as u64 + 1, retried: false }).collect()
}

#[test]
fn run_without_feedback_returns_every_id_once() {
    let cfg = PipelineConfig { num_records: 500, channel_bound: 5, feedback_every: 0 };
    let r = run_pipeline(cfg);
    assert_eq!(r.len(), 500);
    assert_eq!(sorted_ids(&r), (1..=500).collect::<Vec<u32>>());
    assert!(r.iter().all(|x| !x.retried));
}

#[test]
fn run_with_feedback_neither_duplicates_nor_loses() {
    let r = run_pipeline(PipelineConfig::default());
    assert_eq!(r.len(), 500);
    assert_eq!(sorted_ids(&r), (1..=500).collect::<Vec<u32>>());
    assert_eq!(r.iter().filter(|x| x.retried).count(), 71);
    let (valid, invalid) = validate_batch(&r);
    assert_eq!(valid, 500);
    assert!(invalid.is_empty());
}

#[test]
fn run_with_capacity_one_and_heavy_feedback_completes_in_bounded_steps() {
    let cfg = PipelineConfig { num_records: 200, channel_bound: 1, feedback_every: 2 };
    let (r, steps) = run_pipeline_steps(cfg);
    assert_eq!(sorted_ids(&r), (1..=200).collect::<Vec<u32>>());
    assert!(steps <= 11 * 200 + 3);
}

#[test]
fn run_with_no_records() {
    let cfg = PipelineConfig { num_records: 0, channel_bound: 3, feedback_every: 1 };
    let (r, steps) = run_pipeline_steps(cfg);
    assert!(r.is_empty());
    assert_eq!(steps, 3);
}

#[test]
fn completeness_of_full_set() {
    let (missing, dups) = check_completeness(&full_set(500), 500);
    assert!(missing.is_empty());
    assert!(dups.is_empty());
}

#[test]
fn completeness_with_missing_and_duplicate() {
    let mut v: Vec<Record> = full_set(500).into_iter().filter(|r| r.id != 37).collect();
    v.push(Record { id: 12, value: 25, retried: false });
    let (missing, dups) = check_completeness(&v, 500);
    assert_eq!(missing, vec![37]);
    assert_eq!(dups, vec![12]);
}

#[test]
fn completeness_lists_ids_in_order() {
    let v = vec![
        Record { id: 9, value: 19, retried: false },
        Record { id: 4, value: 9, retried: false },
        Record { id: 9, value: 19, retried: false },
        Record { id: 4, value: 9, retried: false },
        Record { id: 9, value: 19, retried: false },
        Record { id: 700, value: 1401, retried: false },
        Record { id: 700, value: 1401, retried: false },
    ];
    let (missing, dups) = check_completeness(&v, 6);
    assert_eq!(missing, vec![1, 2, 3, 5, 6]);
    assert_eq!(dups, vec![9, 4, 700]);
}

#[test]
fn integrity_of_valid_set() {
    let v = full_set(40);
    let (valid, invalid) = validate_batch(&v);
    assert_eq!(valid, v.len());
    assert!(invalid.is_empty());
}

#[test]
fn integrity_reports_bad_values_in_order() {
    let mut v = full_set(10);
    v[6].value = 0;
    v[2].value = 8;
    let (valid, invalid) = validate_batch(&v);
    assert_eq!(valid, 8);
    assert_eq!(invalid, vec![3, 7]);
    assert!(Record::new(5).value == 0 && !Record::new(5).is_valid());
}

#[test]
fn timed_out_run_is_fatal() {
    let o = RunOutcome::TimedOut;
    assert!(o.is_fatal());
    assert_eq!(o.exit_code(), 1);
    assert_eq!(RunOutcome::Collapsed.exit_code(), 1);
    let done = RunOutcome::Completed(vec![Record { id: 1, value: 0, retried: false }]);
    assert!(!done.is_fatal());
    assert_eq!(done.exit_code(), 0);
}

#[test]
fn report_previews_at_most_ten() {
    let v: Vec<Record> = (1..=30).map(|i| Record { id: i, value: 0, retried: false }).collect();
    let rep = build_report(&v, 35);
    assert_eq!(rep.processed, 30);
    assert_eq!(rep.valid, 0);
    assert_eq!(rep.invalid_ids.len(), 30);
    assert_eq!(preview(&rep.invalid_ids), (1..=10).collect::<Vec<u32>>());
    assert_eq!(rep.missing, vec![31, 32, 33, 34, 35]);
    assert_eq!(preview(&rep.missing), vec![31, 32, 33, 34, 35]);
}

#[test]
fn close_with_buffered_items_drains_then_exhausts() {
    let mut c: BoundedChannel<u32> = BoundedChannel::new(3);
    assert!(c.try_send(1).is_ok());
    assert!(c.try_send(2).is_ok());
    assert!(c.try_send(3).is_ok());
    assert_eq!(c.try_send(4), Err(4));
    c.close();
    assert_eq!(c.try_send(5), Err(5));
    assert_eq!(c.recv(), Recv::Item(1));
    assert_eq!(c.recv(), Recv::Item(2));
    assert_eq!(c.recv(), Recv::Item(3));
    assert_eq!(c.recv(), Recv::Exhausted);
    c.close();
    assert_eq!(c.recv(), Recv::Exhausted);
}

#[test]
fn close_empty_exhausts_immediately() {
    let mut c: BoundedChannel<u32> = BoundedChannel::new(1);
    assert_eq!(c.recv(), Recv::Empty);
    c.close();
    assert_eq!(c.recv(), Recv::Exhausted);
}

#[test]
fn stages_move_forward_to_done() {
    let cfg = PipelineConfig { num_records: 30, channel_bound: 2, feedback_every: 3 };
    let mut p = Pipeline::new(cfg);
    let stages = [Stage::First, Stage::Second, Stage::Third];
    let rank = |s: StageState| match s {
        StageState::Running => 0,
        StageState::Draining => 1,
        StageState::Done => 2,
    };
    for st in stages {
        assert_eq!(p.stage_state(st), StageState::Running);
    }
    let mut steps = 0;
    while !p.is_done() {
        let before: Vec<StageState> = stages.iter().map(|s| p.stage_state(*s)).collect();
        p.step();
        steps += 1;
        for (i, st) in stages.iter().enumerate() {
            assert!(rank(p.stage_state(*st)) >= rank(before[i]));
        }
    }
    assert!(steps <= 11 * 30 + 3);
    for st in stages {
        assert_eq!(p.stage_state(st), StageState::Done);
    }
    let r = p.into_results();
    assert_eq!(sorted_ids(&r), (1..=30).collect::<Vec<u32>>());
}
