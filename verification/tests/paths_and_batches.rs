use smallerpixels::{
    batch_for_event, collect_sources, concurrency_limit, containing_dir_of, decimal_string,
    idle_status, order_by_index, output_path_for, select_images, sweep_period, watch_sources,
    watch_status, ConversionConfig, ConversionResult, DirEntryInfo, FsEventKind, InputKind,
    InputPath, RunKind, SweepClock, WatchConfig, WatchEvent,
};

#[test]
fn output_mirrors_the_source_tree() {
    assert_eq!(output_path_for("/src/a/b.jpg", "/src", "/out"), "/out/a/b.webp");
    assert_eq!(output_path_for("/src/b.jpg", "/src", "/out"), "/out/b.webp");
    assert_eq!(output_path_for("/src/a/b.jpg", "/src/", "out/"), "out/a/b.webp");
    assert_eq!(output_path_for("/src//a/./b.jpg", "/src", "out"), "out/a/b.webp");
}

#[test]
fn file_outside_the_root_goes_to_the_output_directory() {
    assert_eq!(output_path_for("/elsewhere/x/y.png", "/src", "/out"), "/out/y.webp");
}

#[test]
fn stem_keeps_inner_dots_and_leading_dot_names() {
    assert_eq!(output_path_for("r/x.tar.gz", "r", "o"), "o/x.tar.webp");
    assert_eq!(output_path_for("r/.hidden", "r", "o"), "o/.hidden.webp");
}

#[test]
fn containing_directory_of_paths() {
    assert_eq!(containing_dir_of("out/vacation/photo.webp").as_deref(), Some("out/vacation"));
    assert_eq!(containing_dir_of("photo.webp").as_deref(), Some(""));
    assert_eq!(containing_dir_of("/").as_deref(), None);
    assert_eq!(containing_dir_of("").as_deref(), None);
}

fn entry(path: &str, is_file: bool, modified: Option<i128>) -> DirEntryInfo {
    DirEntryInfo { path: path.to_string(), is_file, modified }
}

#[test]
fn selection_keeps_supported_files_in_walk_order() {
    let entries = vec![
        entry("d", false, Some(5)),
        entry("d/a.jpg", true, Some(5)),
        entry("d/sub", false, Some(5)),
        entry("d/sub/b.png", true, Some(5)),
        entry("d/readme.txt", true, Some(5)),
    ];
    assert_eq!(select_images(&entries, None), vec!["d/a.jpg", "d/sub/b.png"]);
    let none: Vec<DirEntryInfo> = vec![entry("d/data.json", true, Some(1))];
    assert!(select_images(&none, None).is_empty());
}

#[test]
fn selection_since_a_cutoff_keeps_only_newer_files() {
    let entries = vec![
        entry("old.jpg", true, Some(100)),
        entry("same.jpg", true, Some(200)),
        entry("new.jpg", true, Some(300)),
        entry("unknown.jpg", true, None),
    ];
    assert_eq!(select_images(&entries, Some(200)), vec!["new.jpg"]);
    assert_eq!(select_images(&entries, None).len(), 4);
}

#[test]
fn batch_sources_root_directories_and_files() {
    let inputs = vec![
        InputPath {
            path: "albums".to_string(),
            kind: InputKind::Directory { images: vec!["albums/a.jpg".to_string(), "albums/x/b.png".to_string()] },
        },
        InputPath { path: "/tmp/c.GIF".to_string(), kind: InputKind::File },
        InputPath { path: "notes.txt".to_string(), kind: InputKind::File },
        InputPath { path: "missing.jpg".to_string(), kind: InputKind::Other },
        InputPath { path: "d.png".to_string(), kind: InputKind::File },
    ];
    let pairs = collect_sources(&inputs);
    let expected: Vec<(String, String)> = vec![
        ("albums/a.jpg".into(), "albums".into()),
        ("albums/x/b.png".into(), "albums".into()),
        ("/tmp/c.GIF".into(), "/tmp".into()),
        ("d.png".into(), "".into()),
    ];
    assert_eq!(pairs, expected);
}

fn result(name: &str) -> ConversionResult {
    ConversionResult {
        success: true,
        input: name.to_string(),
        output: String::new(),
        original_size: None,
        output_size: None,
        error: None,
    }
}

#[test]
fn results_come_back_in_input_order() {
    let finished = vec![(2, result("c")), (0, result("a")), (3, result("d")), (1, result("b"))];
    let ordered: Vec<String> = order_by_index(finished).into_iter().map(|r| r.input).collect();
    assert_eq!(ordered, vec!["a", "b", "c", "d"]);
}

#[test]
fn concurrency_is_capped_at_eight() {
    assert_eq!(concurrency_limit(None), 4);
    assert_eq!(concurrency_limit(Some(2)), 2);
    assert_eq!(concurrency_limit(Some(8)), 8);
    assert_eq!(concurrency_limit(Some(32)), 8);
}

fn watch_config(interval_secs: u64) -> WatchConfig {
    WatchConfig {
        source_dir: "/in".to_string(),
        output_dir: "/out".to_string(),
        conversion: ConversionConfig::default(),
        interval_secs,
    }
}

#[test]
fn status_reports_directories_and_last_run_seconds() {
    let s = watch_status(&watch_config(30), Some(1_700_000_000));
    assert!(s.active);
    assert_eq!(s.source_dir.as_deref(), Some("/in"));
    assert_eq!(s.output_dir.as_deref(), Some("/out"));
    assert_eq!(s.last_run.as_deref(), Some("1700000000"));
    assert_eq!(watch_status(&watch_config(30), None).last_run, None);
    let idle = idle_status();
    assert!(!idle.active);
    assert_eq!((idle.source_dir, idle.output_dir, idle.last_run), (None, None, None));
}

#[test]
fn decimal_numerals() {
    assert_eq!(decimal_string(0), "0");
    assert_eq!(decimal_string(7), "7");
    assert_eq!(decimal_string(1234), "1234");
    assert_eq!(decimal_string(u64::MAX), "18446744073709551615");
}

#[test]
fn watch_events_pick_supported_images() {
    let paths = vec!["/in/a.jpg".to_string(), "/in/b.txt".to_string(), "/in/c.webp".to_string()];
    let batch = batch_for_event(WatchEvent::FileEvent { kind: FsEventKind::Create, paths: paths.clone() });
    assert_eq!(batch, Some(vec!["/in/a.jpg".to_string(), "/in/c.webp".to_string()]));
    assert_eq!(batch_for_event(WatchEvent::FileEvent { kind: FsEventKind::Other, paths }), None);
    let only_text = vec!["/in/b.txt".to_string()];
    assert_eq!(batch_for_event(WatchEvent::FileEvent { kind: FsEventKind::Modify, paths: only_text }), None);
    assert_eq!(batch_for_event(WatchEvent::Sweep { found: vec![] }), None);
    assert_eq!(
        batch_for_event(WatchEvent::Sweep { found: vec!["/in/n.png".to_string()] }),
        Some(vec!["/in/n.png".to_string()])
    );
}

#[test]
fn watch_batches_are_rooted_at_the_watched_directory() {
    let pairs = watch_sources(&vec!["/in/a.jpg".to_string(), "/in/x/b.png".to_string()], "/in");
    assert_eq!(
        pairs,
        vec![("/in/a.jpg".to_string(), "/in".to_string()), ("/in/x/b.png".to_string(), "/in".to_string())]
    );
}

#[test]
fn zero_interval_disables_the_sweep() {
    assert_eq!(sweep_period(&watch_config(0)), None);
    assert_eq!(sweep_period(&watch_config(15)), Some(15));
}

#[test]
fn sweep_clock_starts_at_the_watch_start() {
    let clock = SweepClock::start(1_700_000_000_500_000_000);
    assert_eq!(clock.cutoff(), 1_700_000_000_500_000_000);
    assert_eq!(clock.last_run_secs(), Some(1_700_000_000));
    assert_eq!(SweepClock::start(-5).last_run_secs(), None);
    assert_eq!(SweepClock::start(0).last_run_secs(), Some(0));
}

#[test]
fn event_runs_keep_the_cutoff_and_sweeps_move_it() {
    let clock = SweepClock::start(100);
    let after_events = clock.after_run(RunKind::Events, 1000, 2_000_000_000);
    assert_eq!(after_events.cutoff(), 100);
    assert_eq!(after_events.last_run_secs(), Some(2));
    let after_sweep = after_events.after_run(RunKind::Sweep, 3000, 4_000_000_000);
    assert_eq!(after_sweep.cutoff(), 3000);
    assert_eq!(after_sweep.last_run_secs(), Some(4));
}

#[test]
fn a_file_whose_event_was_missed_is_swept_after_other_event_runs() {
    // Watching since 100; a.jpg is written at 500 and its event is lost; b.jpg's event starts
    // a run at 1000. The next sweep still finds a.jpg.
    let clock = SweepClock::start(100).after_run(RunKind::Events, 1000, 1200);
    let entries = vec![
        entry("in/old.jpg", true, Some(50)),
        entry("in/a.jpg", true, Some(500)),
        entry("in/b.jpg", true, Some(900)),
    ];
    assert_eq!(select_images(&entries, Some(clock.cutoff())), vec!["in/a.jpg", "in/b.jpg"]);
}

#[test]
fn sweep_after_a_run_finds_files_written_during_it() {
    // A sweep collected its images at 1000 and finished at 5000; a file written at 3000,
    // while the run was busy, is still new to the next sweep.
    let clock = SweepClock::start(0).after_run(RunKind::Sweep, 1000, 5000);
    assert_eq!(clock.cutoff(), 1000);
    let entries = vec![
        entry("in/converted.jpg", true, Some(900)),
        entry("in/written_during_run.jpg", true, Some(3000)),
    ];
    assert_eq!(select_images(&entries, Some(clock.cutoff())), vec!["in/written_during_run.jpg"]);
}
