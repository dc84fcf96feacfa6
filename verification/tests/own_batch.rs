use apple_matting_cli::batch::{
    check_output_root, is_supported_image, plan_items, summarize, worker_count, BatchItem,
    BatchResult, BatchRun, FsPath,
};

fn path(text: &str) -> FsPath {
    FsPath {
        components: text
            .split('/')
            .filter(|part| !part.is_empty())
            .map(|part| part.to_string())
            .collect(),
    }
}

fn result(input: &str, error: Option<&str>) -> BatchResult {
    BatchResult {
        input_path: path(input),
        output_path: path("/out/x.png"),
        error: error.map(|e| e.to_string()),
    }
}

#[test]
fn plans_top_level_images_sorted() {
    let items = plan_items(
        &path("/tmp/input"),
        &path("/tmp/output"),
        vec![path("/tmp/input/b.JPG"), path("/tmp/input/a.webp")],
    )
    .unwrap();
    assert_eq!(items.len(), 2);
    assert_eq!(items[0].input_path, path("/tmp/input/a.webp"));
    assert_eq!(items[0].output_path, path("/tmp/output/a.png"));
    assert_eq!(items[1].output_path, path("/tmp/output/b.png"));
    assert_eq!(items[1].output_path.to_text(), "/tmp/output/b.png");
}

#[test]
fn plan_keeps_relative_directories() {
    let items = plan_items(
        &path("/tmp/input"),
        &path("/tmp/output"),
        vec![path("/tmp/input/nested/two.webp")],
    )
    .unwrap();
    assert_eq!(items[0].output_path, path("/tmp/output/nested/two.png"));
}

#[test]
fn plan_orders_by_components() {
    let items = plan_items(
        &path("/in"),
        &path("/out"),
        vec![path("/in/a.b.jpg"), path("/in/a/b.jpg")],
    )
    .unwrap();
    assert_eq!(items[0].input_path, path("/in/a/b.jpg"));
    assert_eq!(items[1].output_path, path("/out/a.b.png"));
}

#[test]
fn plan_refuses_output_inside_input() {
    let error = plan_items(
        &path("/tmp/input"),
        &path("/tmp/input/output"),
        vec![path("/tmp/input/one.jpg")],
    )
    .unwrap_err();
    assert_eq!(error, "Output directory must be outside the input directory");
    assert_eq!(
        check_output_root(&path("/tmp/input"), &path("/tmp/input")),
        Err("Output directory must be outside the input directory".to_string())
    );
    assert_eq!(check_output_root(&path("/tmp/input"), &path("/tmp/inputs")), Ok(()));
    assert_eq!(
        check_output_root(&path("/a/b"), &path("/a")),
        Err("Output directory must not contain the input directory".to_string())
    );
    assert_eq!(
        plan_items(&path("/a/b"), &path("/a"), vec![path("/a/b/b/y.jpg")]).unwrap_err(),
        "Output directory must not contain the input directory"
    );
}

#[test]
fn plan_refuses_collisions() {
    let error = plan_items(
        &path("/tmp/input"),
        &path("/tmp/output"),
        vec![path("/tmp/input/same.png"), path("/tmp/input/same.jpg")],
    )
    .unwrap_err();
    assert_eq!(
        error,
        "Output collision: /tmp/input/same.jpg and /tmp/input/same.png both map to /tmp/output/same.png"
    );
}

#[test]
fn plan_refuses_empty_and_foreign_files() {
    assert_eq!(
        plan_items(&path("/in"), &path("/out"), vec![]).unwrap_err(),
        "No supported images found in input directory"
    );
    assert_eq!(
        plan_items(&path("/in"), &path("/out"), vec![path("/elsewhere/a.jpg")]).unwrap_err(),
        "Image is outside input directory: /elsewhere/a.jpg"
    );
}

#[test]
fn supported_images() {
    for name in ["a.jpg", "a.JPEG", "b.png", "c.WebP", "d.bmp"] {
        assert!(is_supported_image(name), "{name}");
    }
    for name in ["a.txt", "jpg", ".jpg", "a.gif", "a."] {
        assert!(!is_supported_image(name), "{name}");
    }
}

#[test]
fn workers_are_bounded() {
    assert_eq!(worker_count(3, 10), 3);
    assert_eq!(worker_count(3, 2), 2);
    assert_eq!(worker_count(0, 2), 1);
    assert_eq!(worker_count(64, 64), 64);
}

#[test]
fn summary_counts_and_sorts() {
    let summary = summarize(vec![
        result("/in/c.jpg", None),
        result("/in/a.jpg", Some("failed")),
        result("/in/b.jpg", None),
    ]);
    assert_eq!(summary.total, 3);
    assert_eq!(summary.failed, 1);
    assert_eq!(summary.succeeded, 2);
    assert_eq!(summary.results[0].input_path, path("/in/a.jpg"));
    assert_eq!(summary.results[2].input_path, path("/in/c.jpg"));
}

#[test]
fn run_hands_out_items_in_order_and_reports_each() {
    let items = plan_items(
        &path("/in"),
        &path("/out"),
        vec![path("/in/b.jpg"), path("/in/a.jpg")],
    )
    .unwrap();
    let mut run = BatchRun::new(items);
    assert!(!run.is_done());
    let first: BatchItem = run.next_item().unwrap();
    assert_eq!(first.input_path, path("/in/a.jpg"));
    let second = run.next_item().unwrap();
    assert!(run.next_item().is_none());
    assert_eq!(run.in_flight(), 2);
    run.finish_item(second, Some("failed".to_string()));
    run.finish_item(first, None);
    assert_eq!(run.in_flight(), 0);
    assert!(run.is_done());
    let summary = run.into_summary();
    assert_eq!(summary.total, 2);
    assert_eq!(summary.failed, 1);
    assert_eq!(summary.results[1].input_path, path("/in/b.jpg"));
    assert_eq!(summary.results[1].error, Some("failed".to_string()));
}
