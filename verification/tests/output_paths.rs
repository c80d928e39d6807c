use sintax_cli::args::parse_args;
use sintax_cli::output::OutputRole;

fn toks(words: &[&str]) -> Vec<String> {
    words.iter().map(|w| w.to_string()).collect()
}

fn cfg_for(extra: &[&str]) -> sintax_cli::args::Args {
    let mut w = toks(&["--database-path", "db.fasta", "--query-file", "sample.fasta"]);
    w.extend(toks(extra));
    parse_args(&w).expect("configuration should parse")
}

#[test]
fn primary_path_derived_from_query_file() {
    let cfg = cfg_for(&[]);
    assert_eq!(cfg.output_path(), "sample.sintax.out");
}

#[test]
fn primary_path_explicit_override_used_verbatim() {
    let cfg = cfg_for(&["--output", "/tmp/a.out"]);
    assert_eq!(cfg.output_path(), "/tmp/a.out");
}

#[test]
fn confidence_path_embeds_threshold() {
    let cfg = cfg_for(&["--min-confidence", "0.9"]);
    assert_eq!(cfg.confidence_output_path(), "sample.sintax.conf0.9.out");
}

#[test]
fn confidence_paths_differ_across_thresholds() {
    let a = cfg_for(&["--min-confidence", "0.9"]);
    let b = cfg_for(&["--min-confidence", "0.8"]);
    assert_ne!(a.confidence_output_path(), b.confidence_output_path());
}

#[test]
fn default_confidence_path_uses_default_threshold() {
    let cfg = cfg_for(&[]);
    assert_eq!(cfg.confidence_output_path(), "sample.sintax.conf0.8.out");
}

#[test]
fn trailing_zeros_of_threshold_are_canonicalized() {
    let a = cfg_for(&["--min-confidence", "0.80"]);
    assert_eq!(a.confidence_output_path(), "sample.sintax.conf0.8.out");
    let b = cfg_for(&["--min-confidence", "1.0"]);
    assert_eq!(b.confidence_output_path(), "sample.sintax.conf1.out");
}

#[test]
fn extension_replacement_cases() {
    let nested = {
        let mut w = toks(&["--database-path", "db.fasta", "--query-file", "dir.v2/reads.fq"]);
        parse_args(&{
            w.push("--min-confidence".to_string());
            w.push("0.5".to_string());
            w
        })
        .unwrap()
    };
    assert_eq!(nested.output_path(), "dir.v2/reads.sintax.out");

    let mut w = toks(&["--database-path", "db.fasta", "--query-file", "noext"]);
    let cfg = parse_args(&w).unwrap();
    assert_eq!(cfg.output_path(), "noext.sintax.out");

    w = toks(&["--database-path", "db.fasta", "--query-file", ".hidden"]);
    let cfg = parse_args(&w).unwrap();
    assert_eq!(cfg.output_path(), ".hidden.sintax.out");
}

#[test]
fn existing_file_without_redo_is_refused() {
    let cfg = cfg_for(&[]);
    let r = cfg.resolve_output(OutputRole::Primary, true);
    let e = r.expect_err("an existing file must be refused without redo");
    assert_eq!(e.path, "sample.sintax.out");
    assert_eq!(
        e.message(),
        "Output file sample.sintax.out already exists! Please specify another file with -o \
         <PATH> or run with --redo to force overriding existing files!"
    );
}

#[test]
fn confidence_refusal_names_its_flag() {
    let cfg = cfg_for(&[]);
    let e = cfg
        .resolve_output(OutputRole::Confidence, true)
        .expect_err("an existing file must be refused without redo");
    assert_eq!(e.path, "sample.sintax.conf0.8.out");
    assert!(e.message().contains("with -u <PATH>"));
}

#[test]
fn redo_permits_existing_file() {
    let cfg = cfg_for(&["--redo"]);
    let r = cfg.resolve_output(OutputRole::Primary, true);
    assert_eq!(r.expect("redo must permit overwriting"), "sample.sintax.out");
}

#[test]
fn absent_file_resolves_for_writing() {
    // Two invocations against the same explicit path: the first sees no
    // file and succeeds; a second without redo is refused; with redo it
    // succeeds again.
    let cfg = cfg_for(&["--output", "/tmp/a.out"]);
    assert_eq!(
        cfg.resolve_output(OutputRole::Primary, false).expect("fresh path"),
        "/tmp/a.out"
    );
    let e = cfg.resolve_output(OutputRole::Primary, true).expect_err("existing path");
    assert_eq!(e.path, "/tmp/a.out");
    let again = cfg_for(&["--output", "/tmp/a.out", "--redo"]);
    assert_eq!(
        again.resolve_output(OutputRole::Primary, true).expect("redo"),
        "/tmp/a.out"
    );
}
