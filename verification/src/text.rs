//! Character-level helpers shared by the argument grammar and the
//! output-path derivation: decimal digit runs, string equality, and
//! extension replacement on path text.

use vstd::prelude::*;
use vstd::string::*;

verus! {

/// Relies on `String::push` of std: appends the given character to the
/// end of the string. vstd gives this method no specification.
pub assume_specification[ String::push ](s: &mut String, ch: char)
    ensures
        final(s)@ == old(s)@.push(ch),
;

/// `c` is an ASCII decimal digit.
pub open spec fn is_digit(c: char) -> bool {
    48 <= c as u32 && c as u32 <= 57
}

/// Numeric value of a digit character.
pub open spec fn digit_val(c: char) -> u8 {
    ((c as u32) - 48) as u8
}

/// Every character of `s` is a decimal digit.
pub open spec fn all_digits(s: Seq<char>) -> bool {
    forall|i: int| 0 <= i < s.len() ==> is_digit(s[i])
}

/// The integer denoted by the digit run `s`, most significant digit first.
pub open spec fn digits_val(s: Seq<char>) -> int
    decreases s.len(),
{
    if s.len() == 0 {
        0
    } else {
        digits_val(s.drop_last()) * 10 + digit_val(s.last())
    }
}

pub proof fn lemma_digits_val_nonneg(s: Seq<char>)
    ensures
        digits_val(s) >= 0,
    decreases s.len(),
{
    if s.len() > 0 {
        lemma_digits_val_nonneg(s.drop_last());
    }
}

/// Extending a digit run to the right never decreases its value.
pub proof fn lemma_digits_val_prefix_le(s: Seq<char>, j: int)
    requires
        0 <= j <= s.len(),
    ensures
        digits_val(s.take(j)) <= digits_val(s),
    decreases s.len() - j,
{
    if j < s.len() {
        assert(s.take(j + 1).drop_last() =~= s.take(j));
        assert(s.take(j + 1).last() == s[j]);
        lemma_digits_val_nonneg(s.take(j));
        assert(digits_val(s.take(j)) <= digits_val(s.take(j + 1)));
        lemma_digits_val_prefix_le(s, j + 1);
    } else {
        assert(s.take(j) =~= s);
    }
}

/// Character-wise string equality, proved against the views.
pub fn str_eq(a: &str, b: &str) -> (r: bool)
    ensures
        r == (a@ == b@),
{
    let alen = a.unicode_len();
    let blen = b.unicode_len();
    if alen != blen {
        return false;
    }
    let mut i: usize = 0;
    while i < alen
        invariant
            i <= alen,
            alen == a@.len(),
            blen == b@.len(),
            alen == blen,
            forall|j: int| 0 <= j < i ==> a@[j] == b@[j],
        decreases alen - i,
    {
        if a.get_char(i) != b.get_char(i) {
            return false;
        }
        i += 1;
    }
    proof {
        assert(a@ =~= b@);
    }
    true
}

/// Parses the digit run `s@[from..to]` as a `u64`.
///
/// Returns `Some` exactly when the run is nonempty, all digits, and its
/// value fits in a `u64`.
pub fn parse_u64_digits(s: &str, from: usize, to: usize) -> (r: Option<u64>)
    requires
        from <= to <= s@.len(),
    ensures
        ({
            let t = s@.subrange(from as int, to as int);
            match r {
                Some(v) => t.len() > 0 && all_digits(t) && v == digits_val(t),
                None => !(t.len() > 0 && all_digits(t) && digits_val(t) <= u64::MAX),
            }
        }),
{
    let ghost t = s@.subrange(from as int, to as int);
    if from == to {
        return None;
    }
    let limit: u64 = u64::MAX / 10;
    let mut acc: u64 = 0;
    let mut i: usize = from;
    while i < to
        invariant
            from <= i <= to <= s@.len(),
            t == s@.subrange(from as int, to as int),
            all_digits(t.take(i - from)),
            acc == digits_val(t.take(i - from)),
            limit == u64::MAX / 10,
        decreases to - i,
    {
        let c = s.get_char(i);
        let cu = c as u32;
        if cu < 48 || cu > 57 {
            assert(!is_digit(t[i - from]));
            return None;
        }
        let d: u64 = (cu - 48) as u64;
        assert(t.take(i - from + 1).drop_last() =~= t.take(i - from));
        assert(t.take(i - from + 1).last() == t[i - from]);
        if acc > limit || (acc == limit && d > 5) {
            proof {
                assert(digits_val(t.take(i - from + 1)) > u64::MAX);
                lemma_digits_val_prefix_le(t, i - from + 1);
            }
            return None;
        }
        acc = acc * 10 + d;
        i += 1;
    }
    proof {
        assert(t.take(to - from) =~= t);
    }
    Some(acc)
}

/// Index of the first character of the file-name component: one past the
/// last `/`, or `0` when the path holds no `/`.
pub open spec fn file_name_start(p: Seq<char>) -> int
    decreases p.len(),
{
    if p.len() == 0 {
        0
    } else if p.last() == '/' {
        p.len() as int
    } else {
        file_name_start(p.drop_last())
    }
}

/// Index of the last `.` of the path, or `-1` when it holds none.
pub open spec fn last_dot(p: Seq<char>) -> int
    decreases p.len(),
{
    if p.len() == 0 {
        -1
    } else if p.last() == '.' {
        p.len() - 1
    } else {
        last_dot(p.drop_last())
    }
}

/// Index of the dot that begins the extension of the file-name component,
/// or `-1` when the file name has no extension. A dot that starts the file
/// name (a hidden file) does not begin an extension.
pub open spec fn ext_dot(p: Seq<char>) -> int {
    if last_dot(p) > file_name_start(p) {
        last_dot(p)
    } else {
        -1
    }
}

/// The path with its extension replaced by `ext` (or with `.ext` appended
/// when the file name has no extension).
pub open spec fn spec_with_extension(p: Seq<char>, ext: Seq<char>) -> Seq<char> {
    if ext_dot(p) >= 0 {
        p.take(ext_dot(p)) + "."@ + ext
    } else {
        p + "."@ + ext
    }
}

pub proof fn lemma_file_name_start_bounds(p: Seq<char>)
    ensures
        0 <= file_name_start(p) <= p.len(),
    decreases p.len(),
{
    if p.len() > 0 && p.last() != '/' {
        lemma_file_name_start_bounds(p.drop_last());
    }
}

pub proof fn lemma_last_dot_bounds(p: Seq<char>)
    ensures
        -1 <= last_dot(p) < p.len(),
    decreases p.len(),
{
    if p.len() > 0 && p.last() != '.' {
        lemma_last_dot_bounds(p.drop_last());
    }
}

/// With no `/` at or after index `i`, the file-name start of `p` is that of
/// its prefix of length `i`.
pub proof fn lemma_file_name_start_skip(p: Seq<char>, i: int)
    requires
        0 <= i <= p.len(),
        forall|j: int| i <= j < p.len() ==> p[j] != '/',
    ensures
        file_name_start(p) == file_name_start(p.take(i)),
    decreases p.len() - i,
{
    if i == p.len() {
        assert(p.take(i) =~= p);
    } else {
        assert(p.last() != '/');
        assert(p.drop_last() =~= p.take(p.len() - 1));
        lemma_file_name_start_skip(p.take(p.len() - 1), i);
        assert(p.take(p.len() - 1).take(i) =~= p.take(i));
    }
}

/// With no `.` at or after index `i`, the last dot of `p` is that of its
/// prefix of length `i`.
pub proof fn lemma_last_dot_skip(p: Seq<char>, i: int)
    requires
        0 <= i <= p.len(),
        forall|j: int| i <= j < p.len() ==> p[j] != '.',
    ensures
        last_dot(p) == last_dot(p.take(i)),
    decreases p.len() - i,
{
    if i == p.len() {
        assert(p.take(i) =~= p);
    } else {
        assert(p.last() != '.');
        assert(p.drop_last() =~= p.take(p.len() - 1));
        lemma_last_dot_skip(p.take(p.len() - 1), i);
        assert(p.take(p.len() - 1).take(i) =~= p.take(i));
    }
}

/// Where a backward scan of a path first stopped: at the last `.`, at the
/// last `/` (with no later dot), or at the start of the text.
enum PathScan {
    DotAt(usize),
    SlashAt(usize),
    Begin,
}

/// Scans `p` from the end for the last `.` or `/`.
fn find_stop(p: &str) -> (r: PathScan)
    ensures
        match r {
            PathScan::DotAt(j) => j < p@.len() && p@[j as int] == '.' && forall|k: int|
                j < k < p@.len() ==> p@[k] != '.' && p@[k] != '/',
            PathScan::SlashAt(j) => j < p@.len() && p@[j as int] == '/' && forall|k: int|
                j < k < p@.len() ==> p@[k] != '.' && p@[k] != '/',
            PathScan::Begin => forall|k: int| 0 <= k < p@.len() ==> p@[k] != '.' && p@[k]
                != '/',
        },
{
    let n = p.unicode_len();
    let mut i: usize = n;
    while i > 0
        invariant
            i <= n,
            n == p@.len(),
            forall|j: int| i <= j < n ==> p@[j] != '.' && p@[j] != '/',
        decreases i,
    {
        let c = p.get_char(i - 1);
        if c == '/' {
            return PathScan::SlashAt(i - 1);
        }
        if c == '.' {
            return PathScan::DotAt(i - 1);
        }
        i -= 1;
    }
    PathScan::Begin
}

/// Replaces the extension of the file-name component of `p` with `ext`,
/// appending `.ext` when the file name has no extension.
pub fn with_extension(p: &str, ext: &str) -> (r: String)
    ensures
        r@ == spec_with_extension(p@, ext@),
{
    match find_stop(p) {
        PathScan::DotAt(j) => {
            // The dot at `j` is the last dot of the whole path.
            proof {
                lemma_last_dot_skip(p@, j + 1);
                assert(p@.take(j + 1).last() == p@[j as int]);
                assert(last_dot(p@.take(j + 1)) == j);
                lemma_file_name_start_skip(p@, j as int);
                assert(p@.take(j as int + 1).drop_last() =~= p@.take(j as int));
            }
            if j == 0 || p.get_char(j - 1) == '/' {
                // The dot starts the file name: no extension to replace.
                proof {
                    if j > 0 {
                        assert(p@.take(j as int).last() == p@[j - 1]);
                        assert(file_name_start(p@.take(j as int)) == j);
                    }
                }
                let mut r = String::from_str(p);
                r.append(".");
                r.append(ext);
                r
            } else {
                proof {
                    assert(p@.take(j as int).last() == p@[j - 1]);
                    assert(p@.take(j as int).drop_last() =~= p@.take(j - 1));
                    lemma_file_name_start_bounds(p@.take(j - 1));
                    assert(file_name_start(p@) <= j - 1);
                    assert(ext_dot(p@) == j);
                }
                let stem = p.substring_char(0, j);
                let mut r = String::from_str(stem);
                r.append(".");
                r.append(ext);
                proof {
                    assert(stem@ =~= p@.take(j as int));
                }
                r
            }
        },
        PathScan::SlashAt(j) => {
            // The file name holds no dot at all.
            proof {
                lemma_file_name_start_skip(p@, j + 1);
                assert(p@.take(j + 1).last() == p@[j as int]);
                assert(file_name_start(p@) == j + 1);
                lemma_last_dot_skip(p@, j + 1);
                lemma_last_dot_bounds(p@.take(j + 1));
                assert(last_dot(p@) <= j);
                assert(ext_dot(p@) == -1);
            }
            let mut r = String::from_str(p);
            r.append(".");
            r.append(ext);
            r
        },
        PathScan::Begin => {
            proof {
                lemma_file_name_start_skip(p@, 0);
                lemma_last_dot_skip(p@, 0);
                assert(p@.take(0) =~= Seq::<char>::empty());
                assert(file_name_start(p@) == 0);
                assert(last_dot(p@) == -1);
                assert(ext_dot(p@) == -1);
            }
            let mut r = String::from_str(p);
            r.append(".");
            r.append(ext);
            r
        },
    }
}

} // verus!
