use ssr_engine::blocks::{Block, ParsedItem};
use ssr_engine::codec::{load, save, BlockRecord, Snapshot, TaskRecord};
use ssr_engine::parsing::{parse, ParseError};
use ssr_engine::recall::{check_answer, verify_answers};
use ssr_engine::schedule::{reschedule, SchedState};
use ssr_engine::store::{ReviewOutcome, TaskStore, ValidationError};

fn parsed(text: &str) -> ParsedItem {
    parse(text).expect("text should parse")
}

#[test]
fn parse_single_blank() {
    let item = parsed("What is 2+2? [4]");
    assert_eq!(
        item.blocks,
        vec![Block::Text("What is 2+2? ".to_string()), Block::Blank]
    );
    assert_eq!(item.answers, vec![vec!["4".to_string()]]);
}

#[test]
fn parse_blank_alternatives() {
    let item = parsed("Capital of France: [Paris|paris]");
    assert_eq!(item.answers, vec![vec!["Paris".to_string(), "paris".to_string()]]);
}

#[test]
fn parse_choice_block() {
    let item = parsed("Pick one: {red|green|blue}");
    assert_eq!(
        item.blocks,
        vec![
            Block::Text("Pick one: ".to_string()),
            Block::Choice(vec![
                "red".to_string(),
                "green".to_string(),
                "blue".to_string()
            ])
        ]
    );
    assert_eq!(item.answers.len(), 0);
}

#[test]
fn parse_answer_sets_match_blanks() {
    let item = parsed("[a] and {x|y} and [b|c] end");
    let blanks = item
        .blocks
        .iter()
        .filter(|b| matches!(b, Block::Blank))
        .count();
    assert_eq!(item.answers.len(), blanks);
    assert_eq!(blanks, 2);
}

#[test]
fn parse_unterminated_marker() {
    let errs = parse("start [never").unwrap_err();
    assert_eq!(errs, vec![ParseError::Unterminated { start: 6 }]);
}

#[test]
fn parse_empty_alternative() {
    let errs = parse("[]").unwrap_err();
    assert_eq!(errs, vec![ParseError::EmptyAlternative { start: 0 }]);
    let errs = parse("[a|]").unwrap_err();
    assert_eq!(errs, vec![ParseError::EmptyAlternative { start: 0 }]);
}

#[test]
fn parse_nested_marker() {
    let errs = parse("[a[b]").unwrap_err();
    assert_eq!(errs, vec![ParseError::NestedMarker { pos: 2 }]);
}

#[test]
fn parse_collects_all_errors() {
    let errs = parse("[] [x").unwrap_err();
    assert_eq!(
        errs,
        vec![
            ParseError::EmptyAlternative { start: 0 },
            ParseError::Unterminated { start: 3 }
        ]
    );
}

#[test]
fn parse_is_deterministic() {
    let a = parse("one [two|three] {four|five} six");
    let b = parse("one [two|three] {four|five} six");
    assert_eq!(a, b);
}

#[test]
fn parse_empty_text() {
    let item = parsed("");
    assert_eq!(item.blocks, Vec::<Block>::new());
    assert_eq!(item.answers, Vec::<Vec<String>>::new());
}

#[test]
fn parse_keeps_text_between_markers() {
    let item = parsed("a [x] b {y|z} c");
    assert_eq!(
        item.blocks,
        vec![
            Block::Text("a ".to_string()),
            Block::Blank,
            Block::Text(" b ".to_string()),
            Block::Choice(vec!["y".to_string(), "z".to_string()]),
            Block::Text(" c".to_string()),
        ]
    );
}

#[test]
fn scheduler_clamps_out_of_scale_quality() {
    let st = SchedState::initial();
    let top = reschedule(&st, 5, 0);
    let over = reschedule(&st, 9, 0);
    assert_eq!(top, over);
}

#[test]
fn verifier_trims_and_folds_case() {
    assert!(check_answer(" Paris ", "paris"));
    assert!(!check_answer("Pariss", "paris"));
}

#[test]
fn verifier_matches_any_alternative() {
    let expected = vec![vec!["colour".to_string(), "color".to_string()]];
    let submitted = vec!["Color".to_string()];
    let (per_blank, quality) = verify_answers(&expected, &submitted);
    assert_eq!(per_blank, vec![true]);
    assert_eq!(quality, 5);
}

#[test]
fn verifier_missing_answers_count_incorrect() {
    let expected = vec![vec!["a".to_string()], vec!["b".to_string()]];
    let submitted = vec!["a".to_string()];
    let (per_blank, quality) = verify_answers(&expected, &submitted);
    assert_eq!(per_blank, vec![true, false]);
    assert_eq!(quality, 2);
}

#[test]
fn verifier_all_wrong_is_zero() {
    let expected = vec![vec!["a".to_string()]];
    let submitted = vec!["z".to_string()];
    let (per_blank, quality) = verify_answers(&expected, &submitted);
    assert_eq!(per_blank, vec![false]);
    assert_eq!(quality, 0);
}

#[test]
fn scheduler_pass_from_fresh() {
    let st = SchedState::initial();
    let (next, due) = reschedule(&st, 5, 1000);
    assert_eq!(next.repetitions, 1);
    assert_eq!(next.interval_secs, 86400);
    assert_eq!(next.ease_milli, 2600);
    assert_eq!(due, 1000 + 86400);
}

#[test]
fn scheduler_second_and_third_pass() {
    let st = SchedState::initial();
    let (st1, _) = reschedule(&st, 5, 0);
    let (st2, _) = reschedule(&st1, 4, 0);
    assert_eq!(st2.repetitions, 2);
    assert_eq!(st2.interval_secs, 518400);
    assert_eq!(st2.ease_milli, 2600);
    let (st3, due3) = reschedule(&st2, 5, 100);
    assert_eq!(st3.repetitions, 3);
    assert_eq!(st3.ease_milli, 2700);
    assert_eq!(st3.interval_secs, 518400 * 2700 / 1000);
    assert_eq!(due3, 100 + st3.interval_secs);
}

#[test]
fn scheduler_fail_resets() {
    let st = SchedState {
        repetitions: 7,
        interval_secs: 99_000_000,
        ease_milli: 2500,
    };
    let (next, due) = reschedule(&st, 0, 5000);
    assert_eq!(next.repetitions, 0);
    assert_eq!(next.interval_secs, 0);
    assert_eq!(next.ease_milli, 2300);
    assert_eq!(due, 5000);
}

#[test]
fn scheduler_ease_floor() {
    let st = SchedState {
        repetitions: 0,
        interval_secs: 0,
        ease_milli: 1350,
    };
    let (next, _) = reschedule(&st, 1, 0);
    assert_eq!(next.ease_milli, 1300);
    let (next2, _) = reschedule(&next, 2, 0);
    assert_eq!(next2.ease_milli, 1300);
}

#[test]
fn scheduler_passing_quality_never_shrinks_interval() {
    let mut st = SchedState::initial();
    for q in [3u8, 4, 5, 5, 3] {
        let before = st.interval_secs;
        let (next, _) = reschedule(&st, q, 0);
        assert!(next.interval_secs >= before);
        st = next;
    }
}

#[test]
fn insert_rejects_non_interactive() {
    let mut store = TaskStore::new("test_name".to_string());
    let item = parsed("just plain text");
    let r = store.insert(item, 10);
    assert_eq!(r, Err(ValidationError::NoInteractiveElements));
    assert_eq!(store.tasks.len(), 0);
    assert_eq!(
        ValidationError::NoInteractiveElements.message(),
        "task must contain interactive elements"
    );
}

#[test]
fn end_to_end_review_pass_and_fail() {
    let mut store = TaskStore::new("test_name".to_string());
    store.insert(parsed("2+2=[4]"), 100).unwrap();
    assert_eq!(store.due_tasks(100), vec![0]);

    let outcome = store.complete_one(100, Some(vec!["4".to_string()]));
    assert_eq!(outcome, ReviewOutcome::Completed { quality: 5 });
    assert_eq!(store.tasks[0].sched.repetitions, 1);
    assert!(store.tasks[0].due_at > 100);
    assert_eq!(store.due_tasks(100), Vec::<usize>::new());

    let mut store2 = TaskStore::new("other".to_string());
    store2.insert(parsed("2+2=[4]"), 100).unwrap();
    let outcome2 = store2.complete_one(100, Some(vec!["5".to_string()]));
    assert_eq!(outcome2, ReviewOutcome::Completed { quality: 0 });
    assert_eq!(store2.tasks[0].sched.repetitions, 0);
    assert_eq!(store2.tasks[0].sched.interval_secs, 0);
    assert_eq!(store2.tasks[0].due_at, 100);
}

#[test]
fn complete_one_without_due_task_is_noop() {
    let mut store = TaskStore::new("n".to_string());
    assert_eq!(store.complete_one(50, None), ReviewOutcome::NoTaskDue);
    store.insert(parsed("[a]"), 100).unwrap();
    assert_eq!(
        store.complete_one(50, Some(vec!["a".to_string()])),
        ReviewOutcome::NoTaskDue
    );
    assert_eq!(store.tasks[0].sched.repetitions, 0);
}

#[test]
fn cancelled_review_changes_nothing() {
    let mut store = TaskStore::new("n".to_string());
    store.insert(parsed("[a]"), 100).unwrap();
    let due_before = store.tasks[0].due_at;
    let reps_before = store.tasks[0].sched.repetitions;
    let ease_before = store.tasks[0].sched.ease_milli;
    let outcome = store.complete_one(100, None);
    assert_eq!(outcome, ReviewOutcome::Cancelled);
    assert_eq!(store.tasks[0].due_at, due_before);
    assert_eq!(store.tasks[0].sched.repetitions, reps_before);
    assert_eq!(store.tasks[0].sched.ease_milli, ease_before);
    assert_eq!(store.due_tasks(100), vec![0]);
}

#[test]
fn due_check_is_idempotent() {
    let mut store = TaskStore::new("n".to_string());
    store.insert(parsed("[a]"), 5).unwrap();
    store.insert(parsed("[b]"), 7).unwrap();
    let first = store.due_tasks(6);
    let second = store.due_tasks(6);
    assert_eq!(first, second);
    assert_eq!(first, vec![0]);
}

#[test]
fn earliest_due_task_is_selected_first() {
    let mut store = TaskStore::new("n".to_string());
    store.insert(parsed("[a]"), 30).unwrap();
    store.insert(parsed("[b]"), 10).unwrap();
    store.insert(parsed("[c]"), 10).unwrap();
    // The second task ties with the third and has the lower index.
    assert_eq!(store.next_due(100), Some(1));
    let outcome = store.complete_one(100, Some(vec!["b".to_string()]));
    assert_eq!(outcome, ReviewOutcome::Completed { quality: 5 });
    assert_eq!(store.tasks[1].sched.repetitions, 1);
    assert_eq!(store.tasks[0].sched.repetitions, 0);
}

#[test]
fn time_until_next_reports_gap() {
    let mut store = TaskStore::new("n".to_string());
    assert_eq!(store.time_until_next(0), None);
    store.insert(parsed("[a]"), 500).unwrap();
    // Task due at 500: before that, the gap is reported; at or after, None.
    assert_eq!(store.time_until_next(200), Some(300));
    assert_eq!(store.time_until_next(500), None);
    assert_eq!(store.time_until_next(900), None);
}

fn build_store() -> TaskStore {
    let mut store = TaskStore::new("test_name".to_string());
    store.insert(parsed("2+2=[4]"), 100).unwrap();
    store
        .insert(parsed("Select: {yes|no} then [ok|fine]"), 200)
        .unwrap();
    store.complete_one(250, Some(vec!["4".to_string()]));
    store
}

#[test]
fn save_load_round_trip() {
    let reference = build_store();
    let snap = save(build_store());
    let restored = load(snap).expect("saved snapshot should load");
    assert_eq!(restored, reference);
}

#[test]
fn load_rejects_unknown_block_kind() {
    let snap = Snapshot {
        name: "n".to_string(),
        tasks: vec![TaskRecord {
            blocks: vec![BlockRecord {
                kind: 7,
                text: String::new(),
                options: Vec::new(),
            }],
            answers: Vec::new(),
            repetitions: 0,
            interval_secs: 0,
            ease_milli: 2500,
            due_at: 0,
        }],
    };
    let err = load(snap).unwrap_err();
    assert_eq!(err.message(), "malformed snapshot");
}

#[test]
fn load_rejects_dangling_answers() {
    // One blank but no answer set.
    let snap = Snapshot {
        name: "n".to_string(),
        tasks: vec![TaskRecord {
            blocks: vec![BlockRecord {
                kind: 1,
                text: String::new(),
                options: Vec::new(),
            }],
            answers: Vec::new(),
            repetitions: 0,
            interval_secs: 0,
            ease_milli: 2500,
            due_at: 0,
        }],
    };
    assert!(load(snap).is_err());
}

#[test]
fn load_rejects_non_interactive_task() {
    let snap = Snapshot {
        name: "n".to_string(),
        tasks: vec![TaskRecord {
            blocks: vec![BlockRecord {
                kind: 0,
                text: "plain".to_string(),
                options: Vec::new(),
            }],
            answers: Vec::new(),
            repetitions: 0,
            interval_secs: 0,
            ease_milli: 2500,
            due_at: 0,
        }],
    };
    assert!(load(snap).is_err());
}
