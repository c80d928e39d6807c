use sintax_cli::args::{parse_args, Args, ArgumentError, Flag};

fn toks(words: &[&str]) -> Vec<String> {
    words.iter().map(|w| w.to_string()).collect()
}

fn base() -> Vec<String> {
    toks(&["--database-path", "db.fasta", "--query-file", "q.fasta"])
}

fn parse_ok(words: Vec<String>) -> Args {
    match parse_args(&words) {
        Ok(cfg) => cfg,
        Err(e) => panic!("unexpected parse failure: {:?}", e),
    }
}

#[test]
fn required_args_and_defaults() {
    let cfg = parse_ok(base());
    assert_eq!(cfg.database_path, "db.fasta");
    assert_eq!(cfg.query_file, "q.fasta");
    assert_eq!(cfg.num_iterations, 100);
    assert_eq!(cfg.num_k_mers, 32);
    assert!(!cfg.min_hit_fraction.neg);
    assert_eq!(cfg.min_hit_fraction.int_part, 0);
    assert_eq!(cfg.min_hit_fraction.frac, vec![3, 3, 3, 3]);
    assert!(!cfg.min_confidence.neg);
    assert_eq!(cfg.min_confidence.int_part, 0);
    assert_eq!(cfg.min_confidence.frac, vec![8]);
    assert_eq!(cfg.max_target_seqs, 5);
    assert!(cfg.early_stop_mse.is_none());
    assert_eq!(cfg.min_iterations.int_part, 0);
    assert_eq!(cfg.min_iterations.frac, vec![1]);
    assert_eq!(cfg.threads, 0);
    assert_eq!(cfg.seed, 42);
    assert!(cfg.output.is_none());
    assert!(cfg.confidence_output.is_none());
    assert!(!cfg.redo);
    assert_eq!(cfg.verbosity.verbose, 0);
    assert_eq!(cfg.verbosity.quiet, 0);
}

#[test]
fn missing_database_path_is_argument_error() {
    let r = parse_args(&toks(&["--query-file", "q.fasta"]));
    assert!(matches!(
        r,
        Err(ArgumentError::MissingRequired { flag: Flag::DatabasePath })
    ));
}

#[test]
fn missing_query_file_is_argument_error() {
    let r = parse_args(&toks(&["--database-path", "db.fasta"]));
    assert!(matches!(
        r,
        Err(ArgumentError::MissingRequired { flag: Flag::QueryFile })
    ));
}

#[test]
fn min_confidence_boundaries_accepted() {
    let mut w = base();
    w.extend(toks(&["--min-confidence", "0"]));
    let cfg = parse_ok(w);
    assert_eq!(cfg.min_confidence.int_part, 0);
    assert!(cfg.min_confidence.frac.is_empty());

    let mut w = base();
    w.extend(toks(&["--min-confidence", "1"]));
    let cfg = parse_ok(w);
    assert_eq!(cfg.min_confidence.int_part, 1);

    let mut w = base();
    w.extend(toks(&["--min-confidence", "1.0"]));
    let cfg = parse_ok(w);
    assert_eq!(cfg.min_confidence.int_part, 1);
    assert_eq!(cfg.min_confidence.frac, vec![0]);
}

#[test]
fn min_confidence_outside_range_rejected() {
    let mut w = base();
    w.extend(toks(&["--min-confidence", "-0.01"]));
    assert!(matches!(
        parse_args(&w),
        Err(ArgumentError::OutOfRange { flag: Flag::MinConfidence, .. })
    ));

    let mut w = base();
    w.extend(toks(&["--min-confidence", "1.01"]));
    assert!(matches!(
        parse_args(&w),
        Err(ArgumentError::OutOfRange { flag: Flag::MinConfidence, .. })
    ));
}

#[test]
fn min_hit_fraction_half_open_range() {
    // Zero is outside (0, 1]; one is its upper boundary.
    let mut w = base();
    w.extend(toks(&["--min-hit-fraction", "0"]));
    assert!(matches!(
        parse_args(&w),
        Err(ArgumentError::OutOfRange { flag: Flag::MinHitFraction, .. })
    ));

    let mut w = base();
    w.extend(toks(&["--min-hit-fraction", "0.0"]));
    assert!(matches!(
        parse_args(&w),
        Err(ArgumentError::OutOfRange { flag: Flag::MinHitFraction, .. })
    ));

    let mut w = base();
    w.extend(toks(&["-f", "1"]));
    let cfg = parse_ok(w);
    assert_eq!(cfg.min_hit_fraction.int_part, 1);

    let mut w = base();
    w.extend(toks(&["-f", "1.01"]));
    assert!(matches!(
        parse_args(&w),
        Err(ArgumentError::OutOfRange { flag: Flag::MinHitFraction, .. })
    ));
}

#[test]
fn min_iterations_closed_range() {
    let mut w = base();
    w.extend(toks(&["--min-iterations", "0"]));
    let cfg = parse_ok(w);
    assert_eq!(cfg.min_iterations.int_part, 0);

    let mut w = base();
    w.extend(toks(&["-p", "1"]));
    let cfg = parse_ok(w);
    assert_eq!(cfg.min_iterations.int_part, 1);

    let mut w = base();
    w.extend(toks(&["-p", "-0.01"]));
    assert!(matches!(
        parse_args(&w),
        Err(ArgumentError::OutOfRange { flag: Flag::MinIterations, .. })
    ));
}

#[test]
fn positive_integers_reject_zero() {
    for (long, flag) in [
        ("--num-iterations", Flag::NumIterations),
        ("--num-k-mers", Flag::NumKMers),
        ("--max-target-seqs", Flag::MaxTargetSeqs),
    ] {
        let mut w = base();
        w.extend(toks(&[long, "0"]));
        match parse_args(&w) {
            Err(ArgumentError::OutOfRange { flag: f, value }) => {
                assert_eq!(f, flag);
                assert_eq!(value, "0");
            }
            other => panic!("expected out-of-range for {}, got {:?}", long, other),
        }
        let mut w = base();
        w.extend(toks(&[long, "1"]));
        parse_ok(w);
    }
}

#[test]
fn threads_zero_is_accepted_and_passed_through() {
    let mut w = base();
    w.extend(toks(&["--threads", "0"]));
    let cfg = parse_ok(w);
    assert_eq!(cfg.threads, 0);

    let mut w = base();
    w.extend(toks(&["-t", "8"]));
    let cfg = parse_ok(w);
    assert_eq!(cfg.threads, 8);
}

#[test]
fn malformed_numeric_literals_rejected() {
    for bad in ["abc", "1.2.3", "1.", ".5", "--", "1e-5", "0x10", ""] {
        let mut w = base();
        w.push("--min-confidence".to_string());
        w.push(bad.to_string());
        assert!(
            matches!(
                parse_args(&w),
                Err(ArgumentError::Malformed { flag: Flag::MinConfidence, .. })
            ),
            "literal {:?} should be malformed",
            bad
        );
    }
}

#[test]
fn integer_overflow_is_malformed() {
    let mut w = base();
    w.extend(toks(&["--seed", "99999999999999999999"]));
    assert!(matches!(
        parse_args(&w),
        Err(ArgumentError::Malformed { flag: Flag::Seed, .. })
    ));
    // The largest representable seed is accepted.
    let mut w = base();
    w.extend(toks(&["--seed", "18446744073709551615"]));
    let cfg = parse_ok(w);
    assert_eq!(cfg.seed, u64::MAX);
}

#[test]
fn unknown_flag_rejected() {
    let mut w = base();
    w.push("--bogus".to_string());
    match parse_args(&w) {
        Err(ArgumentError::UnknownFlag { token }) => assert_eq!(token, "--bogus"),
        other => panic!("expected unknown flag, got {:?}", other),
    }
}

#[test]
fn duplicate_flag_rejected() {
    let mut w = base();
    w.extend(toks(&["--database-path", "other.fasta"]));
    assert!(matches!(
        parse_args(&w),
        Err(ArgumentError::Duplicate { flag: Flag::DatabasePath })
    ));

    let mut w = base();
    w.extend(toks(&["--redo", "--redo"]));
    assert!(matches!(
        parse_args(&w),
        Err(ArgumentError::Duplicate { flag: Flag::Redo })
    ));
}

#[test]
fn value_flag_without_value_rejected() {
    let mut w = base();
    w.push("--output".to_string());
    assert!(matches!(
        parse_args(&w),
        Err(ArgumentError::MissingValue { flag: Flag::Output })
    ));
}

#[test]
fn verbosity_flags_repeat_and_count() {
    let mut w = base();
    w.extend(toks(&["-v", "-v", "-q"]));
    let cfg = parse_ok(w);
    assert_eq!(cfg.verbosity.verbose, 2);
    assert_eq!(cfg.verbosity.quiet, 1);
}

#[test]
fn min_iterations_above_one_rejected() {
    let mut w = base();
    w.extend(toks(&["--min-iterations", "1.01"]));
    assert!(matches!(
        parse_args(&w),
        Err(ArgumentError::OutOfRange { flag: Flag::MinIterations, .. })
    ));
}

#[test]
fn explicit_plus_sign_accepted() {
    let mut w = base();
    w.extend(toks(&["--min-confidence", "+0.5"]));
    let cfg = parse_ok(w);
    assert!(!cfg.min_confidence.neg);
    assert_eq!(cfg.min_confidence.frac, vec![5]);
}

#[test]
fn negative_early_stop_mse_has_no_range_constraint() {
    let mut w = base();
    w.extend(toks(&["--early-stop-mse", "-0.5"]));
    let cfg = parse_ok(w);
    let d = cfg.early_stop_mse.expect("threshold should be set");
    assert!(d.neg);
    assert_eq!(d.frac, vec![5]);
}

#[test]
fn early_stop_mse_parsed_when_given() {
    let mut w = base();
    w.extend(toks(&["--early-stop-mse", "0.00001"]));
    let cfg = parse_ok(w);
    let d = cfg.early_stop_mse.expect("threshold should be set");
    assert!(!d.neg);
    assert_eq!(d.int_part, 0);
    assert_eq!(d.frac, vec![0, 0, 0, 0, 1]);
}

#[test]
fn short_flags_match_long_flags() {
    let w = toks(&["-d", "db.fasta", "-i", "q.fasta", "-n", "7", "-k", "16", "-c", "0.9", "-m",
        "3", "-s", "11", "-o", "out.txt", "-u", "conf.txt"]);
    let cfg = parse_ok(w);
    assert_eq!(cfg.num_iterations, 7);
    assert_eq!(cfg.num_k_mers, 16);
    assert_eq!(cfg.min_confidence.frac, vec![9]);
    assert_eq!(cfg.max_target_seqs, 3);
    assert_eq!(cfg.seed, 11);
    assert_eq!(cfg.output.as_deref(), Some("out.txt"));
    assert_eq!(cfg.confidence_output.as_deref(), Some("conf.txt"));
}
