use kompari::{
    compute_pair_diff, dead_snapshot_names, order_by_index, exceeds_size_limit, html_size, is_acceptable,
    is_png_file_name, is_reported_by_size_check, pair_names, validate_accepted_names,
    zoom_pixelated, DiffBuilder, DirDiffConfig, Error, ImageDifference, LeftRightError, MinImage,
    PairResult, ReportConfig, Rgba8, SizeOptimizationLevel, Task,
};
use std::path::PathBuf;

fn names(list: &[&str]) -> Vec<String> {
    list.iter().map(|s| s.to_string()).collect()
}

fn image(color: Rgba8) -> MinImage {
    MinImage { width: 1, height: 1, data: vec![color] }
}

const RED: Rgba8 = Rgba8 { r: 255, g: 0, b: 0, a: 255 };
const BLUE: Rgba8 = Rgba8 { r: 0, g: 0, b: 255, a: 255 };

fn result(title: &str, image_diff: Result<ImageDifference, LeftRightError>) -> PairResult {
    PairResult { title: title.to_string(), left: PathBuf::from("l"), right: PathBuf::from("r"), image_diff }
}

fn missing() -> Error {
    Error::FileNotFound(PathBuf::from("x.png"))
}

#[test]
fn pairing_sorts_and_dedups_names() {
    let left = names(&["shift.png", "bright.png", "same.png", "left_only.png"]);
    let right = names(&["same.png", "right_only.png", "bright.png", "a/b.png"]);
    let paired = pair_names(&left, &right, None);
    assert_eq!(
        paired,
        names(&["a/b.png", "bright.png", "left_only.png", "right_only.png", "same.png", "shift.png"])
    );
}

#[test]
fn pairing_ignores_listing_order() {
    let a = pair_names(&names(&["c.png", "a.png"]), &names(&["b.png", "a.png"]), None);
    let b = pair_names(&names(&["a.png", "c.png"]), &names(&["a.png", "b.png"]), None);
    assert_eq!(a, b);
    assert_eq!(a, names(&["a.png", "b.png", "c.png"]));
}

#[test]
fn filter_keeps_matching_names() {
    let all = names(&["changetext.png", "shift.png"]);
    assert_eq!(pair_names(&all, &all, Some("change")), names(&["changetext.png"]));
    assert_eq!(pair_names(&all, &names(&[]), Some("")), all);
    assert_eq!(pair_names(&all, &all, Some("nothing")), names(&[]));
}

#[test]
fn pairing_of_nothing_is_empty() {
    assert!(pair_names(&names(&[]), &names(&[]), None).is_empty());
}

#[test]
fn dead_snapshots_are_the_names_not_generated() {
    let snapshots = names(&["z.png", "a.png", "m.png", "a.png"]);
    let current = names(&["m.png"]);
    assert_eq!(dead_snapshot_names(&snapshots, &current), names(&["a.png", "z.png"]));
}

#[test]
fn accepted_names_are_checked() {
    assert!(is_acceptable("bright.png"));
    assert!(is_acceptable("dir/bright.png"));
    assert!(!is_acceptable("../outside.png"));
    assert!(!is_acceptable("dir/../../x.png"));
    assert!(!is_acceptable("/etc/passwd"));
    assert!(!is_acceptable("\\\\server\\x.png"));
    assert!(!is_acceptable("C:\\x.png"));
    assert!(validate_accepted_names(&names(&["a.png", "b/c.png"])));
    assert!(!validate_accepted_names(&names(&["a.png", "../c.png"])));
    assert!(validate_accepted_names(&names(&[])));
    assert!(!validate_accepted_names(&names(&["a.png", "b.png", "/root.png", "c.png"])));
}

#[test]
fn missing_left_is_tagged_left() {
    let r = compute_pair_diff(Err(missing()), Ok(image(RED)));
    let e = r.unwrap_err();
    assert!(matches!(e, LeftRightError::Left(Error::FileNotFound(_))));
    assert!(e.is_left_missing());
    assert!(!e.is_right_missing());
    assert!(e.is_missing_file_error());
    assert!(e.left().is_some() && e.right().is_none());
}

#[test]
fn missing_right_and_both_failures() {
    let r = compute_pair_diff(Ok(image(RED)), Err(missing())).unwrap_err();
    assert!(r.is_right_missing() && !r.is_left_missing() && r.is_missing_file_error());
    let both = compute_pair_diff(Err(missing()), Err(Error::LFSMissing)).unwrap_err();
    assert!(both.is_left_missing());
    assert!(!both.is_right_missing());
    assert!(!both.is_missing_file_error());
    assert!(matches!(both.right(), Some(Error::LFSMissing)));
}

#[test]
fn loaded_pair_is_compared() {
    let r = compute_pair_diff(Ok(image(RED)), Ok(image(BLUE))).unwrap();
    assert!(matches!(r, ImageDifference::Content { n_different_pixels: 1, .. }));
    let same = compute_pair_diff(Ok(image(RED)), Ok(image(RED))).unwrap();
    assert!(matches!(same, ImageDifference::Identical));
}

fn sample_results() -> Vec<PairResult> {
    vec![
        result("a.png", compute_pair_diff(Ok(image(RED)), Ok(image(BLUE)))),
        result("b.png", compute_pair_diff(Ok(image(RED)), Ok(image(RED)))),
        result("c.png", compute_pair_diff(Err(missing()), Ok(image(RED)))),
        result("d.png", compute_pair_diff(Ok(image(RED)), Err(missing()))),
    ]
}

fn titles(r: &[PairResult]) -> Vec<&str> {
    r.iter().map(|p| p.title.as_str()).collect()
}

#[test]
fn dir_config_drops_matches_and_ignored_missing() {
    let mut config = DirDiffConfig::new(PathBuf::from("left"), PathBuf::from("right"));
    assert_eq!(titles(config.select_results(sample_results()).results()), ["a.png", "c.png", "d.png"]);
    config.set_ignore_left_missing(true);
    assert_eq!(titles(config.select_results(sample_results()).results()), ["a.png", "d.png"]);
    config.set_ignore_left_missing(false);
    config.set_ignore_right_missing(true);
    assert_eq!(titles(config.select_results(sample_results()).results()), ["a.png", "c.png"]);
    assert_eq!(config.left_path(), PathBuf::from("left").as_path());
    assert_eq!(config.right_path(), PathBuf::from("right").as_path());
    config.set_filter_name(Some("change".to_string()));
    assert_eq!(config.filter_name(), Some("change"));
}

#[test]
fn builder_keeps_matches_unless_told() {
    let mut builder = DiffBuilder::new(PathBuf::from("left"), PathBuf::from("right"));
    assert_eq!(titles(builder.select_results(sample_results()).results()), ["a.png", "b.png", "c.png", "d.png"]);
    builder.set_ignore_match(true);
    builder.set_ignore_right_missing(true);
    assert_eq!(titles(builder.select_results(sample_results()).results()), ["a.png", "c.png"]);
    builder.set_ignore_left_missing(true);
    builder.set_filter_name(None);
    assert_eq!(titles(builder.select_results(sample_results()).results()), ["a.png"]);
    assert_eq!(builder.filter_name(), None);
}

#[test]
fn png_file_names() {
    assert!(is_png_file_name("a.png"));
    assert!(is_png_file_name("shot.PnG"));
    assert!(is_png_file_name(".x.png"));
    assert!(!is_png_file_name(".png"));
    assert!(!is_png_file_name("a.png.txt"));
    assert!(!is_png_file_name("apng"));
}

#[test]
fn size_limits() {
    assert!(exceeds_size_limit(2049, 10, Some(2), false));
    assert!(!exceeds_size_limit(2048, 10, Some(2), false));
    assert!(!exceeds_size_limit(4000, 2048, Some(2), true));
    assert!(exceeds_size_limit(10, 4000, Some(2), true));
    assert!(!exceeds_size_limit(usize::MAX, 0, None, false));
    assert!(!exceeds_size_limit(usize::MAX, 0, Some(usize::MAX), false));
    assert!(is_reported_by_size_check(100, 90, None, false));
    assert!(!is_reported_by_size_check(100, 100, Some(1), true));
}

#[test]
fn report_sizes() {
    assert_eq!(html_size(850, 88, 400), (Some(400), None));
    assert_eq!(html_size(147, 881, 400), (None, Some(400)));
    assert_eq!(html_size(30, 30, 400), (None, Some(30)));
    assert!(zoom_pixelated(399, 1000));
    assert!(!zoom_pixelated(400, 400));
}

#[test]
fn report_config_defaults_and_setters() {
    let mut config = ReportConfig::default();
    assert_eq!(config.left_title(), "Left image");
    assert_eq!(config.right_title(), "Right image");
    assert!(!config.embed_images() && !config.is_review());
    config.set_left_title("Old");
    config.set_right_title("New");
    config.set_embed_images(true);
    config.set_review(true);
    config.set_size_optimization(SizeOptimizationLevel::Fast);
    assert_eq!((config.left_title(), config.right_title()), ("Old", "New"));
    assert!(config.embed_images() && config.is_review());
    assert_eq!(config.size_optimization(), SizeOptimizationLevel::Fast);
}

struct NoActions;

impl kompari::Actions for NoActions {
    fn generate_all_tests(&self) -> Result<(), Error> {
        Ok(())
    }
}

#[test]
fn task_titles_and_output() {
    let config = DirDiffConfig::new(PathBuf::from("snapshots"), PathBuf::from("current"));
    let mut task = Task::new(config, Box::new(NoActions));
    assert_eq!(task.report_config().left_title(), "Reference");
    assert_eq!(task.report_config().right_title(), "Current");
    assert_eq!(task.report_output_path(), &PathBuf::from("report.html"));
    task.set_report_output_path(PathBuf::from("out.html"));
    assert_eq!(task.report_output_path(), &PathBuf::from("out.html"));
    assert_eq!(task.diff_config().left_path(), PathBuf::from("snapshots").as_path());
    assert!(task.actions().generate_all_tests().is_ok());
}

#[test]
fn results_return_to_their_positions() {
    let tagged = vec![
        (2, result("c.png", compute_pair_diff(Ok(image(RED)), Ok(image(BLUE))))),
        (0, result("a.png", compute_pair_diff(Ok(image(RED)), Ok(image(RED))))),
        (1, result("b.png", compute_pair_diff(Err(missing()), Ok(image(RED))))),
    ];
    let placed = order_by_index(tagged);
    assert_eq!(titles(&placed), ["a.png", "b.png", "c.png"]);
    assert!(order_by_index(vec![]).is_empty());
}
