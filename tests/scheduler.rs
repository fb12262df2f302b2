use png_optimize::optimization::job_status;
use png_optimize::{Compression, Error, Optimization, Progress, Status, WorkStatus};

fn files(list: &[(&str, &str)]) -> Vec<(String, String)> {
    list.iter().map(|(p, n)| (p.to_string(), n.to_string())).collect()
}

fn run(exclude: Option<Vec<String>>) -> Optimization {
    Optimization::new(Some(4), None, None, Compression::Default, exclude)
}

#[test]
fn worklist_counts_png_files_in_any_case() {
    let mut o = run(None);
    o.generate_worklist(files(&[
        ("root/a.png", "a.png"),
        ("root/sub/b.PNG", "b.PNG"),
        ("root/sub/deeper/c.Png", "c.Png"),
        ("root/d.txt", "d.txt"),
        ("root/e.png.bak", "e.png.bak"),
        ("root/.png", ".png"),
        ("root/png", "png"),
    ]));
    assert_eq!(o.worklist.len(), 3);
    let paths: Vec<&str> = o.worklist.iter().map(|w| w.path.as_str()).collect();
    assert_eq!(paths, vec!["root/a.png", "root/sub/b.PNG", "root/sub/deeper/c.Png"]);
    for (i, w) in o.worklist.iter().enumerate() {
        assert_eq!(w.id, i);
        assert_eq!(w.status, WorkStatus::Init);
        assert_eq!(w.progress, 0);
    }
    assert_eq!(o.end_num, 0);
    assert_eq!(o.process_file_num, 0);
}

#[test]
fn excluded_file_is_never_listed() {
    let mut o = run(Some(vec!["skip.png".to_string(), "other.png".to_string()]));
    o.generate_worklist(files(&[
        ("root/keep.png", "keep.png"),
        ("root/skip.png", "skip.png"),
        ("root/sub/skip.png", "skip.png"),
        ("root/Skip.png", "Skip.png"),
    ]));
    let paths: Vec<&str> = o.worklist.iter().map(|w| w.path.as_str()).collect();
    assert_eq!(paths, vec!["root/keep.png", "root/Skip.png"]);
}

#[test]
fn has_extension_edge_cases() {
    let o = run(Some(vec!["x.png".to_string()]));
    assert!(o.has_extension(&"a.png".to_string()));
    assert!(o.has_extension(&"A.pNg".to_string()));
    assert!(o.has_extension(&"..png".to_string()));
    assert!(o.has_extension(&"été.png".to_string()));
    assert!(!o.has_extension(&".png".to_string()));
    assert!(!o.has_extension(&"apng".to_string()));
    assert!(!o.has_extension(&"a.pn".to_string()));
    assert!(!o.has_extension(&"a.png ".to_string()));
    assert!(!o.has_extension(&"x.png".to_string()));
    assert!(!o.has_extension(&"".to_string()));
}

#[test]
fn start_pending_hands_out_each_item_once() {
    let mut o = Optimization::new(Some(3), Some(10), Some(70), Compression::Fast, None);
    o.generate_worklist(files(&[("a.png", "a.png"), ("b.png", "b.png")]));
    let jobs = o.start_pending();
    assert_eq!(jobs.len(), 2);
    assert_eq!(jobs[0].id, 0);
    assert_eq!(jobs[1].path, "b.png");
    assert_eq!(jobs[1].speed, Some(3));
    assert_eq!(jobs[1].quality_min, Some(10));
    assert_eq!(jobs[1].quality_max, Some(70));
    assert_eq!(jobs[1].compression, Compression::Fast);
    assert!(o.worklist.iter().all(|w| w.status == WorkStatus::Waiting));
    assert!(o.start_pending().is_empty());
}

#[test]
fn three_rgba_pngs_complete() {
    let mut o = run(None);
    o.generate_worklist(files(&[
        ("d/one.png", "one.png"),
        ("d/two.png", "two.png"),
        ("d/three.png", "three.png"),
    ]));
    let jobs = o.start_pending();
    assert_eq!(jobs.len(), 3);
    let sizes = [(300_000u64, 120_000u64), (250_000, 90_000), (512_000, 200_000)];
    for job in &jobs {
        let (before, after) = sizes[job.id];
        o.apply_progress(Progress { id: job.id, value: 110 });
        o.apply_status(job_status(job.id, &Ok((before, after))));
    }
    assert!(o.is_finished());
    assert_eq!(o.process_file_num, 3);
    assert!(o.worklist.iter().all(|w| w.status == WorkStatus::Completed));
    let change = o.size_change();
    assert!(change.final_kb <= change.original_kb);
    assert_eq!(o.progress_bar(), (20, 100));
}

#[test]
fn indexed_png_ends_unhandled_and_is_not_processed() {
    let mut o = run(None);
    o.generate_worklist(files(&[("d/indexed.png", "indexed.png")]));
    let jobs = o.start_pending();
    let status = job_status(jobs[0].id, &Err(Error::UnsupportedColorMode));
    assert_eq!(status.status, WorkStatus::Unhandled);
    assert_eq!((status.original_size, status.size), (0, 0));
    o.apply_status(status);
    assert_eq!(o.worklist[0].status, WorkStatus::Unhandled);
    assert_eq!(o.process_file_num, 0);
    assert_eq!(o.end_num, 1);
    assert!(o.is_finished());
}

#[test]
fn fifty_items_all_reported_finish_the_run() {
    let mut o = run(None);
    let list: Vec<(String, String)> =
        (0..50).map(|i| (format!("d/{}.png", i), format!("{}.png", i))).collect();
    o.generate_worklist(list);
    let jobs = o.start_pending();
    assert_eq!(jobs.len(), 50);
    let mut order: Vec<usize> = (0..50).map(|i| (i * 7) % 50).collect();
    order.reverse();
    for (k, id) in order.iter().enumerate() {
        assert!(!o.is_finished());
        let outcome = if id % 5 == 0 { Err(Error::UnsupportedColorMode) } else { Ok((1000, 600)) };
        o.apply_status(job_status(*id, &outcome));
        assert_eq!(o.end_num, k + 1);
    }
    assert!(o.is_finished());
    assert_eq!(o.end_num, 50);
    assert_eq!(o.process_file_num, 40);
}

#[test]
fn status_reports_that_do_not_apply_are_ignored() {
    let mut o = run(None);
    o.generate_worklist(files(&[("a.png", "a.png"), ("b.png", "b.png")]));
    // not started yet
    o.apply_status(Status { id: 0, status: WorkStatus::Completed, original_size: 5, size: 3 });
    assert_eq!(o.worklist[0].status, WorkStatus::Init);
    o.start_pending();
    // unknown id, non-final status
    o.apply_status(Status { id: 9, status: WorkStatus::Completed, original_size: 5, size: 3 });
    o.apply_status(Status { id: 1, status: WorkStatus::Waiting, original_size: 5, size: 3 });
    assert_eq!(o.end_num, 0);
    o.apply_status(Status { id: 1, status: WorkStatus::Completed, original_size: 5, size: 3 });
    // a second report on a finished item
    o.apply_status(Status { id: 1, status: WorkStatus::Unhandled, original_size: 0, size: 0 });
    assert_eq!(o.worklist[1].status, WorkStatus::Completed);
    assert_eq!((o.worklist[1].original_size, o.worklist[1].size), (5, 3));
    assert_eq!(o.end_num, 1);
    assert_eq!(o.process_file_num, 1);
    assert!(!o.is_finished());
}

#[test]
fn progress_never_goes_down_nor_past_the_ceiling() {
    let mut o = run(None);
    o.generate_worklist(files(&[("a.png", "a.png"), ("b.png", "b.png")]));
    o.apply_progress(Progress { id: 0, value: 40 });
    assert_eq!(o.worklist[0].progress, 40);
    o.apply_progress(Progress { id: 0, value: 25 });
    assert_eq!(o.worklist[0].progress, 40);
    o.apply_progress(Progress { id: 1, value: 500 });
    assert_eq!(o.worklist[1].progress, 110);
    o.apply_progress(Progress { id: 7, value: 50 });
    // (40 + 110) / 220
    assert_eq!(o.progress_bar(), (150 * 20 / 220, 150 * 100 / 220));
    assert_eq!(o.progress_bar(), (13, 68));
}

#[test]
fn empty_run_is_finished_with_an_empty_bar() {
    let mut o = run(None);
    o.generate_worklist(Vec::new());
    assert!(o.is_finished());
    assert_eq!(o.progress_bar(), (0, 0));
    let change = o.size_change();
    assert_eq!((change.original_kb, change.final_kb, change.decrease_percent), (0, 0, 0));
}

#[test]
fn size_change_rounds_to_kilobytes() {
    let mut o = run(None);
    o.generate_worklist(files(&[("a.png", "a.png"), ("b.png", "b.png"), ("c.png", "c.png")]));
    o.start_pending();
    o.apply_status(job_status(0, &Ok((3000, 1000))));
    o.apply_status(job_status(1, &Ok((2000, 600))));
    o.apply_status(job_status(2, &Err(Error::Unsupported)));
    let change = o.size_change();
    // 5000 bytes -> 5 KB (4.88), 1600 bytes -> 2 KB (1.56)
    assert_eq!(change.original_kb, 5);
    assert_eq!(change.final_kb, 2);
    assert_eq!(change.decrease_percent, 60);
}

#[test]
fn size_change_reports_growth_as_negative() {
    let mut o = run(None);
    o.generate_worklist(files(&[("a.png", "a.png")]));
    o.start_pending();
    o.apply_status(job_status(0, &Ok((2048, 3072))));
    let change = o.size_change();
    assert_eq!((change.original_kb, change.final_kb, change.decrease_percent), (2, 3, -50));
}

#[test]
fn job_status_reports_sizes_only_on_success() {
    let ok = job_status(4, &Ok((10, 7)));
    assert_eq!(ok, Status { id: 4, status: WorkStatus::Completed, original_size: 10, size: 7 });
    let err = job_status(5, &Err(Error::Quantization));
    assert_eq!(err, Status { id: 5, status: WorkStatus::Unhandled, original_size: 0, size: 0 });
}

#[test]
fn error_names() {
    assert_eq!(Error::Unsupported.as_str(), "UNSUPPORTED");
    assert_eq!(Error::UnsupportedColorMode.as_str(), "Unsupported_Color_Mode");
    assert_eq!(Error::Quantization.as_str(), "Quantization_Failed");
}
