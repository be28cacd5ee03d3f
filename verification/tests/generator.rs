use ftzz::generator::{generate, Generate, GenerateError};
use rand::Rng;
use ftzz::plan::{file_contents, DirPlan};

fn find_max_depth(plan: &DirPlan) -> u32 {
    let mut depth = 0;
    for child in &plan.dirs {
        let d = find_max_depth(child) + 1;
        if d > depth {
            depth = d;
        }
    }
    depth
}

fn count_num_files(plan: &DirPlan) -> usize {
    let mut n = plan.files.len();
    for child in &plan.dirs {
        n += count_num_files(child);
    }
    n
}

fn count_num_bytes(plan: &DirPlan) -> usize {
    let mut n = 0;
    for f in &plan.files {
        n += f.size;
    }
    for child in &plan.dirs {
        n += count_num_bytes(child);
    }
    n
}

fn count_num_dirs(plan: &DirPlan) -> usize {
    let mut n = plan.dirs.len();
    for child in &plan.dirs {
        n += count_num_dirs(child);
    }
    n
}

fn same_tree(a: &DirPlan, b: &DirPlan) -> bool {
    if a.files != b.files || a.dirs.len() != b.dirs.len() {
        return false;
    }
    for (ca, cb) in a.dirs.iter().zip(b.dirs.iter()) {
        if !same_tree(ca, cb) {
            return false;
        }
    }
    true
}

#[test]
fn verify_app() {
    let request = Generate::new(100, 3, Some(10), 7);
    let generated = generate(&request, true).unwrap();
    assert_eq!(generated.stats.files, count_num_files(&generated.plan));
    assert_eq!(generated.stats.dirs, count_num_dirs(&generated.plan));
    assert_eq!(generated.stats.bytes, count_num_bytes(&generated.plan));
}

#[test]
fn gen_in_empty_existing_dir_is_allowed() {
    let request = Generate::new(1, 5, None, 0);
    generate(&request, true).unwrap();
}

#[test]
fn gen_in_non_emtpy_existing_dir_is_disallowed() {
    let request = Generate::new(1, 5, None, 0);
    let result = generate(&request, false);

    assert!(result.is_err());
}

#[test]
fn non_empty_root_is_rejected_before_any_work() {
    let request = Generate::new(1000, 5, Some(10), 0);
    match generate(&request, false) {
        Err(GenerateError::NonEmptyRoot) => {}
        _ => panic!("a non-empty root must be rejected as such"),
    }
}

#[test]
fn ratio_above_file_target_is_rejected() {
    let request = Generate::new(10, 5, Some(100), 0);
    match generate(&request, true) {
        Err(GenerateError::InvalidRatio { ratio, files }) => {
            assert_eq!(ratio, 100);
            assert_eq!(files, 10);
        }
        _ => panic!("a ratio above the file target must be rejected"),
    }
}

#[test]
fn identical_requests_produce_identical_trees() {
    let request = Generate::new(2000, 4, Some(25), 42).num_bytes(50_000);
    let a = generate(&request, true).unwrap();
    let b = generate(&request, true).unwrap();

    assert!(same_tree(&a.plan, &b.plan));
    assert_eq!(a.stats, b.stats);
    assert_eq!(a.config, b.config);
    // content, not just shape: the first file's bytes come out the same
    let fa = &a.plan.files[0];
    let fb = &b.plan.files[0];
    assert_eq!(file_contents(fa), file_contents(fb));
}

#[test]
fn different_entropy_changes_the_tree() {
    let a = generate(&Generate::new(2000, 4, Some(25), 0), true).unwrap();
    let b = generate(&Generate::new(2000, 4, Some(25), 1), true).unwrap();
    assert!(!same_tree(&a.plan, &b.plan) || a.stats != b.stats);
}

#[test]
fn max_depth_is_respected() {
    for depth in [0u32, 1, 2, 10, 100] {
        let request = Generate::new(10_000, depth, None, 0);
        let generated = generate(&request, true).unwrap();
        assert!(find_max_depth(&generated.plan) <= depth);
    }
}

#[test]
fn single_file_at_depth_zero() {
    let request = Generate::new(1, 0, None, 0).files_exact(true);
    let generated = generate(&request, true).unwrap();

    assert_eq!(count_num_files(&generated.plan), 1);
    assert_eq!(generated.plan.files.len(), 1);
    assert_eq!(count_num_dirs(&generated.plan), 0);
}

#[test]
fn sparse_tree_has_directories_on_the_order_of_the_file_count() {
    let request = Generate::new(10_000, 5, Some(1), 0);
    let generated = generate(&request, true).unwrap();

    let dirs = count_num_dirs(&generated.plan);
    assert!(dirs >= 1_000, "expected thousands of directories, got {}", dirs);
    assert!(find_max_depth(&generated.plan) <= 5);
}

#[test]
fn dense_tree_keeps_files_in_the_root() {
    let request = Generate::new(10_000, 5, Some(10_000), 0);
    let generated = generate(&request, true).unwrap();

    let dirs = count_num_dirs(&generated.plan);
    assert!(dirs <= 30, "expected hardly any directories, got {}", dirs);
    assert!(generated.plan.files.len() >= 1000, "the root should hold the bulk of the files");
}

#[test]
fn files_exact_lands_on_target() {
    for (files, depth, ratio) in [
        (1usize, 0u32, None),
        (1, 5, None),
        (1000, 0, None),
        (1000, 5, Some(1000)),
        (1000, 5, Some(1)),
        (12_345, 3, Some(100)),
    ] {
        let request = Generate::new(files, depth, ratio, 0).files_exact(true);
        let generated = generate(&request, true).unwrap();
        assert_eq!(count_num_files(&generated.plan), files);
        assert_eq!(generated.stats.files, files);
    }
}

#[test]
fn bytes_exact_lands_on_target() {
    for (files, bytes, depth) in [
        (1usize, 0usize, 0u32),
        (1, 1, 0),
        (1, 100_000, 2),
        (1000, 54_321, 5),
        (1000, 999, 3),
    ] {
        let request = Generate::new(files, depth, None, 0)
            .num_bytes(bytes)
            .files_exact(true)
            .bytes_exact(true);
        let generated = generate(&request, true).unwrap();
        assert_eq!(count_num_bytes(&generated.plan), bytes);
        assert_eq!(generated.stats.bytes, bytes);
        assert_eq!(count_num_files(&generated.plan), files);
    }
}

#[test]
fn file_contents_match_their_size() {
    let request = Generate::new(100, 2, Some(10), 3).num_bytes(10_000);
    let generated = generate(&request, true).unwrap();
    let mut checked = 0;
    for f in &generated.plan.files {
        let content = file_contents(f);
        assert_eq!(content.len(), f.size);
        checked += 1;
    }
    assert!(checked > 0);
}

#[test]
fn large_means_use_the_heavy_tailed_draw() {
    // a per-directory mean above ten thousand goes through the log-normal
    // sampler; the draw stays positive and within its bounded tails
    let request = Generate::new(20_000, 0, None, 0);
    let generated = generate(&request, true).unwrap();
    let files = count_num_files(&generated.plan);
    assert!(files > 0);
    assert!(files < 20_000_000);
}

#[test]
fn fuzz_test() {
    let mut rng = rand::thread_rng();
    let num_files = rng.gen_range(1..25_000);
    let num_bytes = if rng.gen() {
        rng.gen_range(0..100_000)
    } else {
        0
    };
    let max_depth = rng.gen_range(0..100);
    let ratio = rng.gen_range(1..num_files.max(2));
    let files_exact = rng.gen();
    let bytes_exact = rng.gen();

    let request = Generate::new(num_files, max_depth, Some(ratio.min(num_files)), rng.gen())
        .num_bytes(num_bytes)
        .files_exact(files_exact)
        .bytes_exact(bytes_exact);
    println!("Params: {:?}", request);
    let generated = generate(&request, true).unwrap();

    assert!(find_max_depth(&generated.plan) <= max_depth);
    if files_exact {
        assert_eq!(count_num_files(&generated.plan), num_files);
    }
    if bytes_exact && count_num_files(&generated.plan) >= 1 {
        assert_eq!(count_num_bytes(&generated.plan), num_bytes);
    }
}
