//! The configuration parser: command-line tokens in, a validated `Args`
//! value or a structured `ArgumentError` out. Parsing touches no file: it
//! is a pure function of the token list.
//!
//! Grammar: tokens are read left to right. A token must be a known flag;
//! a value flag consumes the following token verbatim as its value. The
//! verbosity flags may repeat; every other flag may appear at most once.

use vstd::prelude::*;
use vstd::string::*;

use crate::decimal::{
    dec_matches, dec_parseable, text_in_unit_closed, text_in_unit_half_open, Decimal,
};
use crate::text::{all_digits, digits_val, parse_u64_digits, str_eq};

verus! {

/// The command-line flags of the tool.
#[derive(PartialEq, Eq, Structural, Clone, Copy, Debug)]
pub enum Flag {
    DatabasePath,
    QueryFile,
    NumIterations,
    NumKMers,
    MinHitFraction,
    MinConfidence,
    MaxTargetSeqs,
    EarlyStopMse,
    MinIterations,
    Threads,
    Seed,
    Output,
    ConfidenceOutput,
    Redo,
    Verbose,
    Quiet,
}

/// A structured parse failure, naming the offending flag or token.
#[derive(Debug)]
pub enum ArgumentError {
    /// A required flag was not supplied.
    MissingRequired { flag: Flag },
    /// A value flag stood last, with no token left for its value.
    MissingValue { flag: Flag },
    /// A value token is not a literal of the flag's type.
    Malformed { flag: Flag, value: String },
    /// A value token is a literal, but outside the flag's range.
    OutOfRange { flag: Flag, value: String },
    /// A token that is no known flag.
    UnknownFlag { token: String },
    /// A flag that may not repeat appeared twice.
    Duplicate { flag: Flag },
}

/// The diagnostic verbosity selector: counts of the repeatable verbosity
/// flags, to be interpreted by the caller's logging sink.
#[derive(Clone, Copy, Debug)]
pub struct Verbosity {
    pub verbose: u64,
    pub quiet: u64,
}

/// The validated configuration.
#[derive(Debug)]
pub struct Args {
    pub database_path: String,
    pub query_file: String,
    pub num_iterations: u64,
    pub num_k_mers: u64,
    pub min_hit_fraction: Decimal,
    pub min_confidence: Decimal,
    pub max_target_seqs: u64,
    pub early_stop_mse: Option<Decimal>,
    pub min_iterations: Decimal,
    pub threads: u64,
    pub seed: u64,
    pub output: Option<String>,
    pub confidence_output: Option<String>,
    pub redo: bool,
    pub verbosity: Verbosity,
}

impl Args {
    /// The range constraints of a validated configuration.
    pub open spec fn wf(self) -> bool {
        &&& self.num_iterations > 0
        &&& self.num_k_mers > 0
        &&& self.max_target_seqs > 0
        &&& self.min_hit_fraction.wf()
        &&& self.min_hit_fraction.in_unit_half_open()
        &&& self.min_confidence.wf()
        &&& self.min_confidence.in_unit_closed()
        &&& self.min_iterations.wf()
        &&& self.min_iterations.in_unit_closed()
        &&& match self.early_stop_mse {
            Some(d) => d.wf(),
            None => true,
        }
    }
}

/// The flag named by a token, if any.
pub open spec fn flag_of(t: Seq<char>) -> Option<Flag> {
    if t == "-d"@ || t == "--database-path"@ {
        Some(Flag::DatabasePath)
    } else if t == "-i"@ || t == "--query-file"@ {
        Some(Flag::QueryFile)
    } else if t == "-n"@ || t == "--num-iterations"@ {
        Some(Flag::NumIterations)
    } else if t == "-k"@ || t == "--num-k-mers"@ {
        Some(Flag::NumKMers)
    } else if t == "-f"@ || t == "--min-hit-fraction"@ {
        Some(Flag::MinHitFraction)
    } else if t == "-c"@ || t == "--min-confidence"@ {
        Some(Flag::MinConfidence)
    } else if t == "-m"@ || t == "--max-target-seqs"@ {
        Some(Flag::MaxTargetSeqs)
    } else if t == "-e"@ || t == "--early-stop-mse"@ {
        Some(Flag::EarlyStopMse)
    } else if t == "-p"@ || t == "--min-iterations"@ {
        Some(Flag::MinIterations)
    } else if t == "-t"@ || t == "--threads"@ {
        Some(Flag::Threads)
    } else if t == "-s"@ || t == "--seed"@ {
        Some(Flag::Seed)
    } else if t == "-o"@ || t == "--output"@ {
        Some(Flag::Output)
    } else if t == "-u"@ || t == "--confidence-output"@ {
        Some(Flag::ConfidenceOutput)
    } else if t == "--redo"@ {
        Some(Flag::Redo)
    } else if t == "-v"@ || t == "--verbose"@ {
        Some(Flag::Verbose)
    } else if t == "-q"@ || t == "--quiet"@ {
        Some(Flag::Quiet)
    } else {
        None
    }
}

/// The raw tokens gathered by the left-to-right scan: for each value flag
/// the value token as given, plus the switch and verbosity counts.
pub struct ScanState {
    pub database_path: Option<String>,
    pub query_file: Option<String>,
    pub num_iterations: Option<String>,
    pub num_k_mers: Option<String>,
    pub min_hit_fraction: Option<String>,
    pub min_confidence: Option<String>,
    pub max_target_seqs: Option<String>,
    pub early_stop_mse: Option<String>,
    pub min_iterations: Option<String>,
    pub threads: Option<String>,
    pub seed: Option<String>,
    pub output: Option<String>,
    pub confidence_output: Option<String>,
    pub redo: bool,
    pub verbose: u64,
    pub quiet: u64,
}

/// The scan state before any token is read.
pub open spec fn init_state() -> ScanState {
    ScanState {
        database_path: None,
        query_file: None,
        num_iterations: None,
        num_k_mers: None,
        min_hit_fraction: None,
        min_confidence: None,
        max_target_seqs: None,
        early_stop_mse: None,
        min_iterations: None,
        threads: None,
        seed: None,
        output: None,
        confidence_output: None,
        redo: false,
        verbose: 0,
        quiet: 0,
    }
}

/// Whether the value flag `f` has already been given a value.
pub open spec fn seen(st: ScanState, f: Flag) -> bool {
    match f {
        Flag::DatabasePath => st.database_path is Some,
        Flag::QueryFile => st.query_file is Some,
        Flag::NumIterations => st.num_iterations is Some,
        Flag::NumKMers => st.num_k_mers is Some,
        Flag::MinHitFraction => st.min_hit_fraction is Some,
        Flag::MinConfidence => st.min_confidence is Some,
        Flag::MaxTargetSeqs => st.max_target_seqs is Some,
        Flag::EarlyStopMse => st.early_stop_mse is Some,
        Flag::MinIterations => st.min_iterations is Some,
        Flag::Threads => st.threads is Some,
        Flag::Seed => st.seed is Some,
        Flag::Output => st.output is Some,
        Flag::ConfidenceOutput => st.confidence_output is Some,
        Flag::Redo => false,
        Flag::Verbose => false,
        Flag::Quiet => false,
    }
}

/// The scan state with the value token `v` recorded for the value flag
/// `f` (unchanged for the switches).
pub open spec fn with_value(st: ScanState, f: Flag, v: String) -> ScanState {
    match f {
        Flag::DatabasePath => ScanState { database_path: Some(v), ..st },
        Flag::QueryFile => ScanState { query_file: Some(v), ..st },
        Flag::NumIterations => ScanState { num_iterations: Some(v), ..st },
        Flag::NumKMers => ScanState { num_k_mers: Some(v), ..st },
        Flag::MinHitFraction => ScanState { min_hit_fraction: Some(v), ..st },
        Flag::MinConfidence => ScanState { min_confidence: Some(v), ..st },
        Flag::MaxTargetSeqs => ScanState { max_target_seqs: Some(v), ..st },
        Flag::EarlyStopMse => ScanState { early_stop_mse: Some(v), ..st },
        Flag::MinIterations => ScanState { min_iterations: Some(v), ..st },
        Flag::Threads => ScanState { threads: Some(v), ..st },
        Flag::Seed => ScanState { seed: Some(v), ..st },
        Flag::Output => ScanState { output: Some(v), ..st },
        Flag::ConfidenceOutput => ScanState { confidence_output: Some(v), ..st },
        Flag::Redo => st,
        Flag::Verbose => st,
        Flag::Quiet => st,
    }
}

/// The left-to-right scan of the token list from index `i` onward:
/// either the gathered raw values, or the first token-level failure
/// (unknown flag, repeated flag, value flag without a value).
pub open spec fn scan(ts: Seq<String>, i: int, st: ScanState) -> Result<ScanState, ArgumentError>
    decreases ts.len() - i,
{
    if i < 0 || i >= ts.len() {
        Ok(st)
    } else {
        let t = ts[i];
        match flag_of(t@) {
            None => Err(ArgumentError::UnknownFlag { token: t }),
            Some(f) => match f {
                Flag::Redo => if st.redo {
                    Err(ArgumentError::Duplicate { flag: f })
                } else {
                    scan(ts, i + 1, ScanState { redo: true, ..st })
                },
                Flag::Verbose => scan(
                    ts,
                    i + 1,
                    ScanState { verbose: (st.verbose + 1) as u64, ..st },
                ),
                Flag::Quiet => scan(ts, i + 1, ScanState { quiet: (st.quiet + 1) as u64, ..st }),
                _ => if seen(st, f) {
                    Err(ArgumentError::Duplicate { flag: f })
                } else if i + 1 >= ts.len() {
                    Err(ArgumentError::MissingValue { flag: f })
                } else {
                    scan(ts, i + 2, with_value(st, f, ts[i + 1]))
                },
            },
        }
    }
}

/// The token is a `u64` literal: a nonempty digit run whose value fits.
pub open spec fn u64_text_ok(t: Seq<char>) -> bool {
    t.len() > 0 && all_digits(t) && digits_val(t) <= u64::MAX
}

/// The validation outcome for an unsigned-integer flag: `None` when the
/// raw token (or its absence) is acceptable.
pub open spec fn u64_field_error(f: Flag, o: Option<String>, positive: bool) -> Option<
    ArgumentError,
> {
    match o {
        None => None,
        Some(v) => if !u64_text_ok(v@) {
            Some(ArgumentError::Malformed { flag: f, value: v })
        } else if positive && digits_val(v@) == 0 {
            Some(ArgumentError::OutOfRange { flag: f, value: v })
        } else {
            None
        },
    }
}

/// The validation outcome for a decimal flag, with its range requirement:
/// the closed interval `[0, 1]`, the half-open interval `(0, 1]`, or any
/// value.
pub open spec fn dec_field_error(
    f: Flag,
    o: Option<String>,
    closed: bool,
    half_open: bool,
) -> Option<ArgumentError> {
    match o {
        None => None,
        Some(v) => if !dec_parseable(v@) {
            Some(ArgumentError::Malformed { flag: f, value: v })
        } else if closed && !text_in_unit_closed(v@) {
            Some(ArgumentError::OutOfRange { flag: f, value: v })
        } else if half_open && !text_in_unit_half_open(v@) {
            Some(ArgumentError::OutOfRange { flag: f, value: v })
        } else {
            None
        },
    }
}

/// The first validation failure of the gathered raw values, in field
/// order: the required paths, then each numeric flag.
pub open spec fn first_error(st: ScanState) -> Option<ArgumentError> {
    if st.database_path is None {
        Some(ArgumentError::MissingRequired { flag: Flag::DatabasePath })
    } else if st.query_file is None {
        Some(ArgumentError::MissingRequired { flag: Flag::QueryFile })
    } else if u64_field_error(Flag::NumIterations, st.num_iterations, true) is Some {
        u64_field_error(Flag::NumIterations, st.num_iterations, true)
    } else if u64_field_error(Flag::NumKMers, st.num_k_mers, true) is Some {
        u64_field_error(Flag::NumKMers, st.num_k_mers, true)
    } else if dec_field_error(Flag::MinHitFraction, st.min_hit_fraction, false, true) is Some {
        dec_field_error(Flag::MinHitFraction, st.min_hit_fraction, false, true)
    } else if dec_field_error(Flag::MinConfidence, st.min_confidence, true, false) is Some {
        dec_field_error(Flag::MinConfidence, st.min_confidence, true, false)
    } else if u64_field_error(Flag::MaxTargetSeqs, st.max_target_seqs, true) is Some {
        u64_field_error(Flag::MaxTargetSeqs, st.max_target_seqs, true)
    } else if dec_field_error(Flag::EarlyStopMse, st.early_stop_mse, false, false) is Some {
        dec_field_error(Flag::EarlyStopMse, st.early_stop_mse, false, false)
    } else if dec_field_error(Flag::MinIterations, st.min_iterations, true, false) is Some {
        dec_field_error(Flag::MinIterations, st.min_iterations, true, false)
    } else if u64_field_error(Flag::Threads, st.threads, false) is Some {
        u64_field_error(Flag::Threads, st.threads, false)
    } else if u64_field_error(Flag::Seed, st.seed, false) is Some {
        u64_field_error(Flag::Seed, st.seed, false)
    } else {
        None
    }
}

/// An unsigned-integer field equals the value its raw token denotes, or
/// the default when the flag was absent.
pub open spec fn rel_u64(o: Option<String>, dflt: u64, x: u64) -> bool {
    match o {
        None => x == dflt,
        Some(v) => x == digits_val(v@),
    }
}

/// A decimal field matches its raw token, or equals the default
/// `0.<dflt_frac>` when the flag was absent.
pub open spec fn rel_dec(o: Option<String>, dflt_frac: Seq<u8>, x: Decimal) -> bool {
    match o {
        None => x.neg == false && x.int_part == 0 && x.frac@ == dflt_frac,
        Some(v) => dec_matches(v@, x),
    }
}

/// Each configuration field against the gathered raw values: the parsed
/// value of its token, or its documented default.
pub open spec fn fields_rel(st: ScanState, cfg: Args) -> bool {
    &&& match st.database_path {
        Some(v) => cfg.database_path == v,
        None => true,
    }
    &&& match st.query_file {
        Some(v) => cfg.query_file == v,
        None => true,
    }
    &&& rel_u64(st.num_iterations, 100, cfg.num_iterations)
    &&& rel_u64(st.num_k_mers, 32, cfg.num_k_mers)
    &&& rel_dec(st.min_hit_fraction, seq![3u8, 3u8, 3u8, 3u8], cfg.min_hit_fraction)
    &&& rel_dec(st.min_confidence, seq![8u8], cfg.min_confidence)
    &&& rel_u64(st.max_target_seqs, 5, cfg.max_target_seqs)
    &&& match st.early_stop_mse {
        None => cfg.early_stop_mse is None,
        Some(v) => match cfg.early_stop_mse {
            Some(d) => d.wf() && dec_matches(v@, d),
            None => false,
        },
    }
    &&& rel_dec(st.min_iterations, seq![1u8], cfg.min_iterations)
    &&& rel_u64(st.threads, 0, cfg.threads)
    &&& rel_u64(st.seed, 42, cfg.seed)
    &&& match st.output {
        None => cfg.output is None,
        Some(v) => cfg.output == Some(v),
    }
    &&& match st.confidence_output {
        None => cfg.confidence_output is None,
        Some(v) => cfg.confidence_output == Some(v),
    }
    &&& cfg.redo == st.redo
    &&& cfg.verbosity.verbose == st.verbose
    &&& cfg.verbosity.quiet == st.quiet
}

/// The flag named by a token, if any.
fn match_flag(t: &str) -> (r: Option<Flag>)
    ensures
        r == flag_of(t@),
{
    if str_eq(t, "-d") || str_eq(t, "--database-path") {
        Some(Flag::DatabasePath)
    } else if str_eq(t, "-i") || str_eq(t, "--query-file") {
        Some(Flag::QueryFile)
    } else if str_eq(t, "-n") || str_eq(t, "--num-iterations") {
        Some(Flag::NumIterations)
    } else if str_eq(t, "-k") || str_eq(t, "--num-k-mers") {
        Some(Flag::NumKMers)
    } else if str_eq(t, "-f") || str_eq(t, "--min-hit-fraction") {
        Some(Flag::MinHitFraction)
    } else if str_eq(t, "-c") || str_eq(t, "--min-confidence") {
        Some(Flag::MinConfidence)
    } else if str_eq(t, "-m") || str_eq(t, "--max-target-seqs") {
        Some(Flag::MaxTargetSeqs)
    } else if str_eq(t, "-e") || str_eq(t, "--early-stop-mse") {
        Some(Flag::EarlyStopMse)
    } else if str_eq(t, "-p") || str_eq(t, "--min-iterations") {
        Some(Flag::MinIterations)
    } else if str_eq(t, "-t") || str_eq(t, "--threads") {
        Some(Flag::Threads)
    } else if str_eq(t, "-s") || str_eq(t, "--seed") {
        Some(Flag::Seed)
    } else if str_eq(t, "-o") || str_eq(t, "--output") {
        Some(Flag::Output)
    } else if str_eq(t, "-u") || str_eq(t, "--confidence-output") {
        Some(Flag::ConfidenceOutput)
    } else if str_eq(t, "--redo") {
        Some(Flag::Redo)
    } else if str_eq(t, "-v") || str_eq(t, "--verbose") {
        Some(Flag::Verbose)
    } else if str_eq(t, "-q") || str_eq(t, "--quiet") {
        Some(Flag::Quiet)
    } else {
        None
    }
}

/// Whether the value flag `f` has already been given a value.
fn seen_exec(st: &ScanState, f: Flag) -> (r: bool)
    ensures
        r == seen(*st, f),
{
    match f {
        Flag::DatabasePath => st.database_path.is_some(),
        Flag::QueryFile => st.query_file.is_some(),
        Flag::NumIterations => st.num_iterations.is_some(),
        Flag::NumKMers => st.num_k_mers.is_some(),
        Flag::MinHitFraction => st.min_hit_fraction.is_some(),
        Flag::MinConfidence => st.min_confidence.is_some(),
        Flag::MaxTargetSeqs => st.max_target_seqs.is_some(),
        Flag::EarlyStopMse => st.early_stop_mse.is_some(),
        Flag::MinIterations => st.min_iterations.is_some(),
        Flag::Threads => st.threads.is_some(),
        Flag::Seed => st.seed.is_some(),
        Flag::Output => st.output.is_some(),
        Flag::ConfidenceOutput => st.confidence_output.is_some(),
        Flag::Redo => false,
        Flag::Verbose => false,
        Flag::Quiet => false,
    }
}

/// Records the value token `v` for the value flag `f`.
fn store(st: &mut ScanState, f: Flag, v: String)
    ensures
        *final (st) == with_value(*old(st), f, v),
{
    match f {
        Flag::DatabasePath => st.database_path = Some(v),
        Flag::QueryFile => st.query_file = Some(v),
        Flag::NumIterations => st.num_iterations = Some(v),
        Flag::NumKMers => st.num_k_mers = Some(v),
        Flag::MinHitFraction => st.min_hit_fraction = Some(v),
        Flag::MinConfidence => st.min_confidence = Some(v),
        Flag::MaxTargetSeqs => st.max_target_seqs = Some(v),
        Flag::EarlyStopMse => st.early_stop_mse = Some(v),
        Flag::MinIterations => st.min_iterations = Some(v),
        Flag::Threads => st.threads = Some(v),
        Flag::Seed => st.seed = Some(v),
        Flag::Output => st.output = Some(v),
        Flag::ConfidenceOutput => st.confidence_output = Some(v),
        Flag::Redo => (),
        Flag::Verbose => (),
        Flag::Quiet => (),
    }
}

/// Parses a whole token as a `u64`.
fn parse_u64_str(s: &str) -> (r: Option<u64>)
    ensures
        r is Some <==> u64_text_ok(s@),
        r matches Some(v) ==> v == digits_val(s@),
{
    let n = s.unicode_len();
    let r = parse_u64_digits(s, 0, n);
    proof {
        assert(s@.subrange(0, n as int) =~= s@);
    }
    r
}

/// The fraction digits of the default `min_hit_fraction`, `0.3333`.
fn default_third_frac() -> (v: Vec<u8>)
    ensures
        v@ == seq![3u8, 3u8, 3u8, 3u8],
{
    let mut v: Vec<u8> = Vec::new();
    v.push(3);
    v.push(3);
    v.push(3);
    v.push(3);
    proof {
        assert(v@ =~= seq![3u8, 3u8, 3u8, 3u8]);
    }
    v
}

/// A one-digit fraction.
fn single_frac(d: u8) -> (v: Vec<u8>)
    ensures
        v@ == seq![d],
{
    let mut v: Vec<u8> = Vec::new();
    v.push(d);
    proof {
        assert(v@ =~= seq![d]);
    }
    v
}

/// Validates the gathered raw values in field order and builds the
/// configuration, applying the documented defaults where a flag was
/// absent.
fn finish(st: ScanState) -> (r: Result<Args, ArgumentError>)
    ensures
        match r {
            Ok(cfg) => first_error(st) is None && fields_rel(st, cfg) && cfg.wf(),
            Err(e) => first_error(st) == Some(e),
        },
{
    let ScanState {
        database_path,
        query_file,
        num_iterations,
        num_k_mers,
        min_hit_fraction,
        min_confidence,
        max_target_seqs,
        early_stop_mse,
        min_iterations,
        threads,
        seed,
        output,
        confidence_output,
        redo,
        verbose,
        quiet,
    } = st;
    let database_path = match database_path {
        Some(v) => v,
        None => {
            return Err(ArgumentError::MissingRequired { flag: Flag::DatabasePath });
        },
    };
    let query_file = match query_file {
        Some(v) => v,
        None => {
            return Err(ArgumentError::MissingRequired { flag: Flag::QueryFile });
        },
    };
    let num_iterations: u64 = match num_iterations {
        None => 100,
        Some(v) => match parse_u64_str(v.as_str()) {
            None => {
                return Err(ArgumentError::Malformed { flag: Flag::NumIterations, value: v });
            },
            Some(x) => {
                if x == 0 {
                    return Err(ArgumentError::OutOfRange { flag: Flag::NumIterations, value: v });
                }
                x
            },
        },
    };
    let num_k_mers: u64 = match num_k_mers {
        None => 32,
        Some(v) => match parse_u64_str(v.as_str()) {
            None => {
                return Err(ArgumentError::Malformed { flag: Flag::NumKMers, value: v });
            },
            Some(x) => {
                if x == 0 {
                    return Err(ArgumentError::OutOfRange { flag: Flag::NumKMers, value: v });
                }
                x
            },
        },
    };
    let min_hit_fraction: Decimal = match min_hit_fraction {
        None => Decimal { neg: false, int_part: 0, frac: default_third_frac() },
        Some(v) => match Decimal::parse(v.as_str()) {
            None => {
                return Err(ArgumentError::Malformed { flag: Flag::MinHitFraction, value: v });
            },
            Some(d) => {
                proof {
                    crate::decimal::lemma_dec_matches_ranges(v@, d);
                }
                if !d.check_in_unit_half_open() {
                    return Err(ArgumentError::OutOfRange { flag: Flag::MinHitFraction, value: v });
                }
                d
            },
        },
    };
    let min_confidence: Decimal = match min_confidence {
        None => Decimal { neg: false, int_part: 0, frac: single_frac(8) },
        Some(v) => match Decimal::parse(v.as_str()) {
            None => {
                return Err(ArgumentError::Malformed { flag: Flag::MinConfidence, value: v });
            },
            Some(d) => {
                proof {
                    crate::decimal::lemma_dec_matches_ranges(v@, d);
                }
                if !d.check_in_unit_closed() {
                    return Err(ArgumentError::OutOfRange { flag: Flag::MinConfidence, value: v });
                }
                d
            },
        },
    };
    let max_target_seqs: u64 = match max_target_seqs {
        None => 5,
        Some(v) => match parse_u64_str(v.as_str()) {
            None => {
                return Err(ArgumentError::Malformed { flag: Flag::MaxTargetSeqs, value: v });
            },
            Some(x) => {
                if x == 0 {
                    return Err(ArgumentError::OutOfRange { flag: Flag::MaxTargetSeqs, value: v });
                }
                x
            },
        },
    };
    let early_stop_mse: Option<Decimal> = match early_stop_mse {
        None => None,
        Some(v) => match Decimal::parse(v.as_str()) {
            None => {
                return Err(ArgumentError::Malformed { flag: Flag::EarlyStopMse, value: v });
            },
            Some(d) => Some(d),
        },
    };
    let min_iterations: Decimal = match min_iterations {
        None => Decimal { neg: false, int_part: 0, frac: single_frac(1) },
        Some(v) => match Decimal::parse(v.as_str()) {
            None => {
                return Err(ArgumentError::Malformed { flag: Flag::MinIterations, value: v });
            },
            Some(d) => {
                proof {
                    crate::decimal::lemma_dec_matches_ranges(v@, d);
                }
                if !d.check_in_unit_closed() {
                    return Err(ArgumentError::OutOfRange { flag: Flag::MinIterations, value: v });
                }
                d
            },
        },
    };
    let threads: u64 = match threads {
        None => 0,
        Some(v) => match parse_u64_str(v.as_str()) {
            None => {
                return Err(ArgumentError::Malformed { flag: Flag::Threads, value: v });
            },
            Some(x) => x,
        },
    };
    let seed: u64 = match seed {
        None => 42,
        Some(v) => match parse_u64_str(v.as_str()) {
            None => {
                return Err(ArgumentError::Malformed { flag: Flag::Seed, value: v });
            },
            Some(x) => x,
        },
    };
    let cfg = Args {
        database_path,
        query_file,
        num_iterations,
        num_k_mers,
        min_hit_fraction,
        min_confidence,
        max_target_seqs,
        early_stop_mse,
        min_iterations,
        threads,
        seed,
        output,
        confidence_output,
        redo,
        verbosity: Verbosity { verbose, quiet },
    };
    proof {
        assert(cfg.min_hit_fraction.frac@.len() > 0 && cfg.min_hit_fraction.frac@[0] != 0 ==> !cfg.min_hit_fraction.is_zero());
        if st.min_hit_fraction is None {
            assert(cfg.min_hit_fraction.frac@[0] == 3);
        }
        assert(cfg.wf());
    }
    Ok(cfg)
}

/// Parses the token list into a validated configuration.
///
/// The result is exactly the outcome of the token scan followed by the
/// field validation: every accepted configuration satisfies `fields_rel`
/// against the gathered raw values and the range constraints `Args::wf`;
/// every rejection is the scan's or the validation's first failure.
/// Parsing performs no I/O.
#[verifier::loop_isolation(false)]
pub fn parse_args(tokens: &Vec<String>) -> (r: Result<Args, ArgumentError>)
    ensures
        ({
            let sc = scan(tokens@, 0, init_state());
            match r {
                Ok(cfg) => sc matches Ok(st) && first_error(st) is None && fields_rel(st, cfg)
                    && cfg.wf(),
                Err(e) => match sc {
                    Err(e2) => e == e2,
                    Ok(st) => first_error(st) == Some(e),
                },
            }
        }),
{
    let mut st = ScanState {
        database_path: None,
        query_file: None,
        num_iterations: None,
        num_k_mers: None,
        min_hit_fraction: None,
        min_confidence: None,
        max_target_seqs: None,
        early_stop_mse: None,
        min_iterations: None,
        threads: None,
        seed: None,
        output: None,
        confidence_output: None,
        redo: false,
        verbose: 0,
        quiet: 0,
    };
    proof {
        assert(st == init_state());
    }
    let n = tokens.len();
    let mut i: usize = 0;
    while i < n
        invariant
            i <= n,
            n == tokens@.len(),
            st.verbose <= i,
            st.quiet <= i,
            scan(tokens@, 0, init_state()) == scan(tokens@, i as int, st),
        decreases n - i,
    {
        let ghost st0 = st;
        match match_flag(tokens[i].as_str()) {
            None => {
                return Err(ArgumentError::UnknownFlag { token: tokens[i].clone() });
            },
            Some(f) => match f {
                Flag::Redo => {
                    if st.redo {
                        return Err(ArgumentError::Duplicate { flag: f });
                    }
                    st.redo = true;
                    proof {
                        assert(st == ScanState { redo: true, ..st0 });
                    }
                    i += 1;
                },
                Flag::Verbose => {
                    st.verbose = st.verbose + 1;
                    proof {
                        assert(st == ScanState { verbose: (st0.verbose + 1) as u64, ..st0 });
                    }
                    i += 1;
                },
                Flag::Quiet => {
                    st.quiet = st.quiet + 1;
                    proof {
                        assert(st == ScanState { quiet: (st0.quiet + 1) as u64, ..st0 });
                    }
                    i += 1;
                },
                _ => {
                    if seen_exec(&st, f) {
                        return Err(ArgumentError::Duplicate { flag: f });
                    }
                    if i + 1 >= n {
                        return Err(ArgumentError::MissingValue { flag: f });
                    }
                    let v = tokens[i + 1].clone();
                    store(&mut st, f, v);
                    i += 2;
                },
            },
        }
    }
    finish(st)
}

} // verus!
