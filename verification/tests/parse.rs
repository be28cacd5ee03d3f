use ftzz::parse::{file_to_dir_ratio_parser, lenient_si_number, num_files_parser};

#[test]
fn generate_num_files_rejects_negatives() {
    assert!(num_files_parser("-1").is_err());
}

#[test]
fn generate_num_files_rejects_zero() {
    assert!(num_files_parser("0").is_err());
}

#[test]
fn generate_num_files_accepts_plain_nums() {
    assert_eq!(num_files_parser("1000").unwrap(), 1000);
}

#[test]
fn generate_short_num_files_accepts_plain_nums() {
    assert_eq!(num_files_parser("1000").unwrap(), 1000);
}

#[test]
fn generate_num_files_accepts_si_numbers() {
    assert_eq!(num_files_parser("1K").unwrap(), 1000);
}

#[test]
fn generate_num_files_accepts_commas() {
    assert_eq!(num_files_parser("1,000").unwrap(), 1000);
}

#[test]
fn generate_num_files_accepts_underscores() {
    assert_eq!(num_files_parser("1_000").unwrap(), 1000);
}

#[test]
fn generate_ratio_rejects_negatives() {
    assert!(file_to_dir_ratio_parser("-1").is_err());
}

#[test]
fn generate_ratio_rejects_zero() {
    assert!(file_to_dir_ratio_parser("0").is_err());
}

#[test]
fn generate_ratio_accepts_plain_nums() {
    assert_eq!(file_to_dir_ratio_parser("1000").unwrap(), 1000);
}

#[test]
fn generate_short_ratio_accepts_plain_nums() {
    assert_eq!(file_to_dir_ratio_parser("321").unwrap(), 321);
}

#[test]
fn generate_ratio_accepts_si_numbers() {
    assert_eq!(file_to_dir_ratio_parser("1K").unwrap(), 1000);
}

#[test]
fn generate_ratio_accepts_commas() {
    assert_eq!(file_to_dir_ratio_parser("1,000").unwrap(), 1000);
}

#[test]
fn generate_ratio_accepts_underscores() {
    assert_eq!(file_to_dir_ratio_parser("1_000").unwrap(), 1000);
}

#[test]
fn lenient_si_number_accepts_lowercase_suffix() {
    assert_eq!(lenient_si_number("2k").unwrap(), 2000);
}

#[test]
fn lenient_si_number_accepts_megabytes() {
    assert_eq!(lenient_si_number("3M").unwrap(), 3_000_000);
}

#[test]
fn lenient_si_number_rejects_garbage() {
    assert!(lenient_si_number("abc").is_err());
}
