//! Exact decimal numbers, as parsed from command-line text.
//!
//! The thresholds of the configuration (`min_hit_fraction`,
//! `min_confidence`, `min_iterations`, `early_stop_mse`) are decimal
//! literals from the command line. They are kept exactly as sign, integer
//! part and fraction digits, so that range checks against 0 and 1 and the
//! text embedded in the derived confidence path are precise.

use vstd::prelude::*;
use vstd::string::*;

use crate::text::{all_digits, digit_val, digits_val, is_digit, parse_u64_digits};

verus! {

/// An exact signed decimal: sign, integer part, and fraction digits.
/// `frac` holds digit values (`0..=9`), most significant first; the value
/// denoted is `(-1)^neg * (int_part + 0.frac)`.
#[derive(Debug)]
pub struct Decimal {
    pub neg: bool,
    pub int_part: u64,
    pub frac: Vec<u8>,
}

/// Every entry of `fr` is zero.
pub open spec fn frac_all_zero(fr: Seq<u8>) -> bool {
    forall|i: int| 0 <= i < fr.len() ==> fr[i] == 0
}

/// The token begins with an explicit sign.
pub open spec fn has_sign(t: Seq<char>) -> bool {
    t.len() > 0 && (t[0] == '+' || t[0] == '-')
}

/// The token denotes a negative number.
pub open spec fn sign_neg(t: Seq<char>) -> bool {
    t.len() > 0 && t[0] == '-'
}

/// The token with any leading sign removed.
pub open spec fn num_body(t: Seq<char>) -> Seq<char> {
    if has_sign(t) {
        t.drop_first()
    } else {
        t
    }
}

/// Index of the first `.` of `b`, or `-1` when it holds none.
pub open spec fn dot_pos(b: Seq<char>) -> int
    decreases b.len(),
{
    if b.len() == 0 {
        -1
    } else if b[0] == '.' {
        0
    } else if dot_pos(b.drop_first()) >= 0 {
        dot_pos(b.drop_first()) + 1
    } else {
        -1
    }
}

/// A forward scan that saw no `.` before index `k` fixes `dot_pos`.
pub proof fn lemma_dot_pos_scan(b: Seq<char>, k: int)
    requires
        0 <= k <= b.len(),
        forall|j: int| 0 <= j < k ==> b[j] != '.',
    ensures
        k == b.len() ==> dot_pos(b) == -1,
        k < b.len() && b[k] == '.' ==> dot_pos(b) == k,
    decreases b.len(),
{
    if b.len() > 0 && b[0] != '.' && k > 0 {
        let b2 = b.drop_first();
        assert(forall|j: int| 0 <= j < k - 1 ==> b2[j] == b[j + 1] && b[j + 1] != '.');
        lemma_dot_pos_scan(b2, k - 1);
        if k < b.len() && b[k] == '.' {
            assert(b2[k - 1] == '.');
        }
    }
}

/// The integer-part digits of the token.
pub open spec fn int_digits(t: Seq<char>) -> Seq<char> {
    let b = num_body(t);
    if dot_pos(b) >= 0 {
        b.take(dot_pos(b))
    } else {
        b
    }
}

/// The fraction digits of the token (empty when it has no `.`).
pub open spec fn frac_digits(t: Seq<char>) -> Seq<char> {
    let b = num_body(t);
    if dot_pos(b) >= 0 {
        b.skip(dot_pos(b) + 1)
    } else {
        Seq::empty()
    }
}

/// The token is a decimal literal: an optional sign, a nonempty run of
/// digits, and optionally a `.` followed by a nonempty run of digits.
pub open spec fn dec_grammar_ok(t: Seq<char>) -> bool {
    int_digits(t).len() > 0 && all_digits(int_digits(t)) && (dot_pos(num_body(t)) >= 0
        ==> frac_digits(t).len() > 0 && all_digits(frac_digits(t)))
}

/// The token is a decimal literal whose integer part fits in a `u64`.
pub open spec fn dec_parseable(t: Seq<char>) -> bool {
    dec_grammar_ok(t) && digits_val(int_digits(t)) <= u64::MAX
}

/// `d` is the exact decimal denoted by the token `t`.
pub open spec fn dec_matches(t: Seq<char>, d: Decimal) -> bool {
    d.neg == sign_neg(t) && d.int_part == digits_val(int_digits(t)) && d.frac@ == frac_digits(
        t,
    ).map_values(|c: char| digit_val(c))
}

/// `t` denotes zero.
pub open spec fn text_zero(t: Seq<char>) -> bool {
    digits_val(int_digits(t)) == 0 && (forall|i: int|
        0 <= i < frac_digits(t).len() ==> digit_val(frac_digits(t)[i]) == 0)
}

/// `t` denotes a number at most one.
pub open spec fn text_le_one(t: Seq<char>) -> bool {
    sign_neg(t) || digits_val(int_digits(t)) == 0 || (digits_val(int_digits(t)) == 1
        && (forall|i: int| 0 <= i < frac_digits(t).len() ==> digit_val(frac_digits(t)[i]) == 0))
}

/// `t` denotes a number in the closed interval `[0, 1]`.
pub open spec fn text_in_unit_closed(t: Seq<char>) -> bool {
    (!sign_neg(t) || text_zero(t)) && text_le_one(t)
}

/// `t` denotes a number in the half-open interval `(0, 1]`.
pub open spec fn text_in_unit_half_open(t: Seq<char>) -> bool {
    !sign_neg(t) && !text_zero(t) && text_le_one(t)
}

/// Finds the first `.` of `s` at or after `from`.
fn find_dot(s: &str, from: usize) -> (r: Option<usize>)
    requires
        from <= s@.len(),
    ensures
        match r {
            Some(j) => from <= j < s@.len() && s@[j as int] == '.' && forall|k: int|
                from <= k < j ==> s@[k] != '.',
            None => forall|k: int| from <= k < s@.len() ==> s@[k] != '.',
        },
{
    let n = s.unicode_len();
    let mut i: usize = from;
    while i < n
        invariant
            from <= i <= n,
            n == s@.len(),
            forall|k: int| from <= k < i ==> s@[k] != '.',
        decreases n - i,
    {
        if s.get_char(i) == '.' {
            return Some(i);
        }
        i += 1;
    }
    None
}

impl Decimal {
    /// All fraction entries are digit values.
    pub open spec fn wf(self) -> bool {
        forall|i: int| 0 <= i < self.frac@.len() ==> self.frac@[i] <= 9
    }

    /// The decimal denotes zero.
    pub open spec fn is_zero(self) -> bool {
        self.int_part == 0 && frac_all_zero(self.frac@)
    }

    /// The decimal denotes a number at most one.
    pub open spec fn le_one(self) -> bool {
        self.neg || self.int_part == 0 || (self.int_part == 1 && frac_all_zero(self.frac@))
    }

    /// The decimal denotes a number in the closed interval `[0, 1]`.
    pub open spec fn in_unit_closed(self) -> bool {
        (!self.neg || self.is_zero()) && self.le_one()
    }

    /// The decimal denotes a number in the half-open interval `(0, 1]`.
    pub open spec fn in_unit_half_open(self) -> bool {
        !self.neg && !self.is_zero() && self.le_one()
    }

    /// Parses a decimal literal: an optional `+` or `-`, a nonempty digit
    /// run, and optionally a `.` followed by a nonempty digit run. Returns
    /// `Some` exactly when the token has that shape and its integer part
    /// fits in a `u64`.
    #[verifier::loop_isolation(false)]
    pub fn parse(s: &str) -> (r: Option<Decimal>)
        ensures
            r is Some <==> dec_parseable(s@),
            r matches Some(d) ==> d.wf() && dec_matches(s@, d),
    {
        let n = s.unicode_len();
        let mut start: usize = 0;
        let mut neg = false;
        if n > 0 {
            let c0 = s.get_char(0);
            if c0 == '+' || c0 == '-' {
                start = 1;
                neg = c0 == '-';
            }
        }
        let ghost b = num_body(s@);
        proof {
            assert(b =~= s@.subrange(start as int, n as int));
        }
        let dot = find_dot(s, start);
        let int_end: usize = match dot {
            Some(j) => j,
            None => n,
        };
        proof {
            match dot {
                Some(j) => {
                    lemma_dot_pos_scan(b, j - start);
                    assert(b[j - start] == s@[j as int]);
                    assert(dot_pos(b) == j - start);
                },
                None => {
                    lemma_dot_pos_scan(b, n - start);
                    assert(dot_pos(b) == -1);
                },
            }
            assert(int_digits(s@) =~= s@.subrange(start as int, int_end as int));
        }
        let ip = match parse_u64_digits(s, start, int_end) {
            Some(v) => v,
            None => {
                return None;
            },
        };
        match dot {
            Some(j) => {
                let ghost fd = frac_digits(s@);
                proof {
                    assert(fd =~= s@.subrange(j + 1, n as int));
                }
                if j + 1 == n {
                    // A trailing dot with no fraction digits.
                    return None;
                }
                let mut fv: Vec<u8> = Vec::new();
                let mut i: usize = j + 1;
                while i < n
                    invariant
                        j + 1 <= i <= n,
                        n == s@.len(),
                        fd == frac_digits(s@),
                        fd =~= s@.subrange(j + 1, n as int),
                        fv@.len() == i - j - 1,
                        forall|m: int| #![trigger fd[m]] 0 <= m < fv@.len() ==> is_digit(fd[m]),
                        forall|m: int|
                            #![trigger fv@[m]]
                            0 <= m < fv@.len() ==> fv@[m] == digit_val(fd[m]) && fv@[m] <= 9,
                    decreases n - i,
                {
                    let c = s.get_char(i);
                    let cu = c as u32;
                    if cu < 48 || cu > 57 {
                        assert(!is_digit(fd[i - j - 1]));
                        return None;
                    }
                    fv.push((cu - 48) as u8);
                    i += 1;
                }
                proof {
                    assert(all_digits(fd));
                    assert(fv@ =~= fd.map_values(|c: char| digit_val(c)));
                }
                Some(Decimal { neg, int_part: ip, frac: fv })
            },
            None => {
                proof {
                    assert(frac_digits(s@) =~= Seq::<char>::empty());
                    assert(Seq::<char>::empty().map_values(|c: char| digit_val(c)) =~= Seq::<
                        u8,
                    >::empty());
                }
                Some(Decimal { neg, int_part: ip, frac: Vec::new() })
            },
        }
    }

    /// Whether the decimal denotes zero.
    pub fn check_zero(&self) -> (r: bool)
        ensures
            r == self.is_zero(),
    {
        if self.int_part != 0 {
            return false;
        }
        let mut i: usize = 0;
        while i < self.frac.len()
            invariant
                i <= self.frac@.len(),
                forall|m: int| 0 <= m < i ==> self.frac@[m] == 0,
            decreases self.frac@.len() - i,
        {
            if self.frac[i] != 0 {
                return false;
            }
            i += 1;
        }
        true
    }

    /// Whether the decimal denotes a number at most one.
    #[verifier::loop_isolation(false)]
    pub fn check_le_one(&self) -> (r: bool)
        ensures
            r == self.le_one(),
    {
        if self.neg || self.int_part == 0 {
            return true;
        }
        if self.int_part != 1 {
            return false;
        }
        let mut i: usize = 0;
        while i < self.frac.len()
            invariant
                i <= self.frac@.len(),
                forall|m: int| 0 <= m < i ==> self.frac@[m] == 0,
            decreases self.frac@.len() - i,
        {
            if self.frac[i] != 0 {
                return false;
            }
            i += 1;
        }
        true
    }

    /// Whether the decimal lies in the closed interval `[0, 1]`.
    pub fn check_in_unit_closed(&self) -> (r: bool)
        ensures
            r == self.in_unit_closed(),
    {
        (!self.neg || self.check_zero()) && self.check_le_one()
    }

    /// Whether the decimal lies in the half-open interval `(0, 1]`.
    pub fn check_in_unit_half_open(&self) -> (r: bool)
        ensures
            r == self.in_unit_half_open(),
    {
        !self.neg && !self.check_zero() && self.check_le_one()
    }
}

/// The character for a digit value.
pub open spec fn digit_char(v: u8) -> char {
    if v == 0 {
        '0'
    } else if v == 1 {
        '1'
    } else if v == 2 {
        '2'
    } else if v == 3 {
        '3'
    } else if v == 4 {
        '4'
    } else if v == 5 {
        '5'
    } else if v == 6 {
        '6'
    } else if v == 7 {
        '7'
    } else if v == 8 {
        '8'
    } else {
        '9'
    }
}

fn digit_char_exec(v: u8) -> (c: char)
    ensures
        c == digit_char(v),
{
    if v == 0 {
        '0'
    } else if v == 1 {
        '1'
    } else if v == 2 {
        '2'
    } else if v == 3 {
        '3'
    } else if v == 4 {
        '4'
    } else if v == 5 {
        '5'
    } else if v == 6 {
        '6'
    } else if v == 7 {
        '7'
    } else if v == 8 {
        '8'
    } else {
        '9'
    }
}

/// The decimal digits of `n`, most significant first (for `n >= 0`).
pub open spec fn dec_digits_of(n: int) -> Seq<char>
    decreases n,
{
    if n < 10 {
        seq![digit_char(n as u8)]
    } else {
        dec_digits_of(n / 10) + seq![digit_char((n % 10) as u8)]
    }
}

/// `fr` with its trailing zero digits removed.
pub open spec fn trim_zeros(fr: Seq<u8>) -> Seq<u8>
    decreases fr.len(),
{
    if fr.len() > 0 && fr.last() == 0 {
        trim_zeros(fr.drop_last())
    } else {
        fr
    }
}

/// The canonical text of a decimal: a `-` only for a negative nonzero
/// value, the integer digits, and the fraction digits with trailing zeros
/// trimmed, preceded by `.` only when any remain.
pub open spec fn spec_render(d: Decimal) -> Seq<char> {
    let sign: Seq<char> = if d.neg && !d.is_zero() {
        seq!['-']
    } else {
        Seq::empty()
    };
    let fr = trim_zeros(d.frac@);
    if fr.len() > 0 {
        sign + dec_digits_of(d.int_part as int) + seq!['.'] + fr.map_values(
            |v: u8| digit_char(v),
        )
    } else {
        sign + dec_digits_of(d.int_part as int)
    }
}

impl Decimal {
    /// The canonical text of the decimal.
    #[verifier::loop_isolation(false)]
    pub fn render(&self) -> (r: String)
        ensures
            r@ == spec_render(*self),
    {
        let ghost dd = dec_digits_of(self.int_part as int);
        let mut r = String::new();
        if self.neg && !self.check_zero() {
            r.push('-');
        }
        let ghost sign = r@;
        proof {
            if self.neg && !self.is_zero() {
                assert(sign =~= seq!['-']);
            } else {
                assert(sign =~= Seq::<char>::empty());
            }
        }
        let mut rev: Vec<char> = Vec::new();
        let mut n: u64 = self.int_part;
        if n == 0 {
            rev.push('0');
            proof {
                assert(dd =~= seq!['0']);
                assert(rev@[0] == dd[dd.len() - 1]);
            }
        } else {
            proof {
                assert(dd.take(dd.len() as int) =~= dd);
            }
            while n > 0
                invariant
                    rev@.len() <= dd.len(),
                    forall|k: int|
                        #![trigger rev@[k]]
                        0 <= k < rev@.len() ==> rev@[k] == dd[dd.len() - 1 - k],
                    n > 0 ==> dec_digits_of(n as int) == dd.take(dd.len() - rev@.len()),
                    n == 0 ==> rev@.len() == dd.len(),
                decreases n,
            {
                let ghost rev_old = rev@;
                let ghost cur = dec_digits_of(n as int);
                let d = (n % 10) as u8;
                rev.push(digit_char_exec(d));
                proof {
                    assert(cur.last() == digit_char(d));
                    assert(cur == dd.take(dd.len() - rev_old.len()));
                    assert(cur.last() == dd[dd.len() - 1 - rev_old.len() as int]);
                    if n >= 10 {
                        assert(dec_digits_of(n as int / 10) =~= cur.drop_last());
                        assert(cur.drop_last() =~= dd.take(dd.len() - rev@.len()));
                    } else {
                        assert(cur.len() == 1);
                        assert(rev@.len() == dd.len());
                    }
                }
                n = n / 10;
            }
        }
        while rev.len() > 0
            invariant
                rev@.len() <= dd.len(),
                forall|k: int|
                    #![trigger rev@[k]]
                    0 <= k < rev@.len() ==> rev@[k] == dd[dd.len() - 1 - k],
                r@ == sign + dd.take(dd.len() - rev@.len()),
            decreases rev@.len(),
        {
            let ghost rev_old = rev@;
            let c = rev.pop().unwrap();
            r.push(c);
            proof {
                assert(c == dd[dd.len() - rev_old.len() as int]);
                assert((sign + dd.take(dd.len() - rev_old.len())).push(c) =~= sign + dd.take(
                    dd.len() - rev@.len(),
                ));
            }
        }
        proof {
            assert(dd.take(dd.len() as int) =~= dd);
        }
        let ghost base = sign + dd;
        let ghost fr = trim_zeros(self.frac@);
        let mut m: usize = self.frac.len();
        proof {
            assert(self.frac@.take(m as int) =~= self.frac@);
        }
        while m > 0 && self.frac[m - 1] == 0
            invariant
                m <= self.frac@.len(),
                fr == trim_zeros(self.frac@.take(m as int)),
            decreases m,
        {
            proof {
                assert(self.frac@.take(m as int).last() == self.frac@[m - 1]);
                assert(self.frac@.take(m as int).drop_last() =~= self.frac@.take(m - 1));
            }
            m -= 1;
        }
        proof {
            if m > 0 {
                assert(self.frac@.take(m as int).last() == self.frac@[m - 1]);
                assert(fr == self.frac@.take(m as int));
            } else {
                assert(self.frac@.take(0) =~= Seq::<u8>::empty());
                assert(fr == self.frac@.take(m as int));
            }
        }
        if m > 0 {
            r.push('.');
            proof {
                assert(r@ =~= base + seq!['.'] + fr.take(0).map_values(|v: u8| digit_char(v)));
            }
            let mut i: usize = 0;
            while i < m
                invariant
                    i <= m,
                    r@ == base + seq!['.'] + fr.take(i as int).map_values(|v: u8| digit_char(v)),
                decreases m - i,
            {
                let c = digit_char_exec(self.frac[i]);
                r.push(c);
                proof {
                    assert(fr[i as int] == self.frac@[i as int]);
                    assert(fr.take(i + 1).map_values(|v: u8| digit_char(v)) =~= fr.take(
                        i as int,
                    ).map_values(|v: u8| digit_char(v)).push(digit_char(fr[i as int])));
                }
                i += 1;
            }
            proof {
                assert(fr.take(m as int) =~= fr);
                assert(r@ == base + seq!['.'] + fr.map_values(|v: u8| digit_char(v)));
                assert(spec_render(*self) == sign + dec_digits_of(self.int_part as int)
                    + seq!['.'] + fr.map_values(|v: u8| digit_char(v)));
                assert(r@ =~= spec_render(*self));
            }
            r
        } else {
            proof {
                assert(r@ =~= spec_render(*self));
            }
            r
        }
    }
}

/// Two decimals denote the same number: both are zero, or they agree on
/// sign, integer part, and fraction digits up to trailing zeros.
pub open spec fn same_value(d1: Decimal, d2: Decimal) -> bool {
    ||| (d1.is_zero() && d2.is_zero())
    ||| (d1.neg == d2.neg && d1.int_part == d2.int_part && trim_zeros(d1.frac@) == trim_zeros(
        d2.frac@,
    ))
}

/// Trimming trailing zeros keeps a prefix of the digits.
pub proof fn lemma_trim_zeros_prefix(f: Seq<u8>)
    ensures
        trim_zeros(f).len() <= f.len(),
        forall|i: int| 0 <= i < trim_zeros(f).len() ==> trim_zeros(f)[i] == f[i],
    decreases f.len(),
{
    if f.len() > 0 && f.last() == 0 {
        lemma_trim_zeros_prefix(f.drop_last());
        assert forall|i: int| 0 <= i < trim_zeros(f).len() implies trim_zeros(f)[i] == f[i] by {
            assert(trim_zeros(f)[i] == trim_zeros(f.drop_last())[i]);
            assert(trim_zeros(f.drop_last())[i] == f.drop_last()[i]);
            assert(f.drop_last()[i] == f[i]);
        }
    }
}

/// A digit run is all zeros exactly when trimming leaves nothing.
pub proof fn lemma_trim_zeros_empty(f: Seq<u8>)
    ensures
        frac_all_zero(f) <==> trim_zeros(f).len() == 0,
    decreases f.len(),
{
    if f.len() > 0 {
        if f.last() == 0 {
            lemma_trim_zeros_empty(f.drop_last());
            assert(forall|i: int| 0 <= i < f.len() - 1 ==> f.drop_last()[i] == f[i]);
            if frac_all_zero(f.drop_last()) {
                assert forall|i: int| 0 <= i < f.len() implies f[i] == 0 by {
                    if i < f.len() - 1 {
                        assert(f.drop_last()[i] == 0);
                    }
                }
            }
        } else {
            assert(trim_zeros(f) == f);
            assert(f[f.len() - 1] != 0);
        }
    }
}

proof fn lemma_digit_char_injective(u: u8, v: u8)
    requires
        u <= 9,
        v <= 9,
        digit_char(u) == digit_char(v),
    ensures
        u == v,
{
}

/// For thresholds within `[0, 1]`, the rendered text is a faithful key:
/// two thresholds render alike exactly when they denote the same number.
pub proof fn lemma_render_faithful(d1: Decimal, d2: Decimal)
    requires
        d1.wf(),
        d2.wf(),
        d1.in_unit_closed(),
        d2.in_unit_closed(),
    ensures
        (spec_render(d1) == spec_render(d2)) <==> same_value(d1, d2),
{
    let r1 = spec_render(d1);
    let r2 = spec_render(d2);
    let fr1 = trim_zeros(d1.frac@);
    let fr2 = trim_zeros(d2.frac@);
    let m1 = fr1.map_values(|v: u8| digit_char(v));
    let m2 = fr2.map_values(|v: u8| digit_char(v));
    lemma_trim_zeros_prefix(d1.frac@);
    lemma_trim_zeros_prefix(d2.frac@);
    lemma_trim_zeros_empty(d1.frac@);
    lemma_trim_zeros_empty(d2.frac@);
    // Within [0, 1] no sign is rendered, and the integer part is one digit.
    assert(!(d1.neg && !d1.is_zero()));
    assert(!(d2.neg && !d2.is_zero()));
    assert(d1.int_part <= 1 && d2.int_part <= 1);
    assert(dec_digits_of(d1.int_part as int) == seq![digit_char(d1.int_part as u8)]);
    assert(dec_digits_of(d2.int_part as int) == seq![digit_char(d2.int_part as u8)]);
    if fr1.len() > 0 {
        assert(r1 =~= seq![digit_char(d1.int_part as u8), '.'] + m1);
    } else {
        assert(r1 =~= seq![digit_char(d1.int_part as u8)]);
    }
    if fr2.len() > 0 {
        assert(r2 =~= seq![digit_char(d2.int_part as u8), '.'] + m2);
    } else {
        assert(r2 =~= seq![digit_char(d2.int_part as u8)]);
    }
    if r1 == r2 {
        assert(r1.len() == r2.len());
        assert(fr1.len() == fr2.len());
        assert(r1[0] == digit_char(d1.int_part as u8) && r2[0] == digit_char(d2.int_part as u8));
        lemma_digit_char_injective(d1.int_part as u8, d2.int_part as u8);
        if fr1.len() == 0 {
            if d1.int_part == 0 {
                assert(d1.is_zero() && d2.is_zero());
            } else {
                if d1.neg {
                    assert(d1.is_zero());
                }
                if d2.neg {
                    assert(d2.is_zero());
                }
                assert(d1.neg == d2.neg);
                assert(fr1 =~= fr2);
            }
        } else {
            assert forall|i: int| 0 <= i < fr1.len() implies fr1[i] == fr2[i] by {
                assert(r1[2 + i] == m1[i] && r2[2 + i] == m2[i]);
                assert(m1[i] == digit_char(fr1[i]) && m2[i] == digit_char(fr2[i]));
                assert(fr1[i] == d1.frac@[i] && fr2[i] == d2.frac@[i]);
                lemma_digit_char_injective(fr1[i], fr2[i]);
            }
            assert(fr1 =~= fr2);
            if d1.neg {
                assert(d1.is_zero());
                assert(fr1.len() == 0);
            }
            if d2.neg {
                assert(d2.is_zero());
                assert(fr2.len() == 0);
            }
            assert(d1.neg == d2.neg);
        }
        assert(same_value(d1, d2));
    }
    if same_value(d1, d2) {
        if d1.is_zero() && d2.is_zero() {
            assert(fr1.len() == 0 && fr2.len() == 0);
            assert(d1.int_part == 0 && d2.int_part == 0);
            assert(r1 =~= r2);
        } else {
            assert(m1 =~= m2);
            assert(r1 =~= r2);
        }
    }
}

/// A decimal that matches a token lies in a range exactly when the token's
/// text does.
pub proof fn lemma_dec_matches_ranges(t: Seq<char>, d: Decimal)
    requires
        dec_matches(t, d),
    ensures
        d.is_zero() == text_zero(t),
        d.le_one() == text_le_one(t),
        d.in_unit_closed() == text_in_unit_closed(t),
        d.in_unit_half_open() == text_in_unit_half_open(t),
{
    let fd = frac_digits(t).map_values(|c: char| digit_val(c));
    assert(d.frac@ == fd);
    assert(fd.len() == frac_digits(t).len());
    if frac_all_zero(d.frac@) {
        assert forall|i: int| 0 <= i < frac_digits(t).len() implies digit_val(
            frac_digits(t)[i],
        ) == 0 by {
            assert(d.frac@[i] == 0);
            assert(fd[i] == digit_val(frac_digits(t)[i]));
        }
    }
    if forall|i: int| 0 <= i < frac_digits(t).len() ==> digit_val(frac_digits(t)[i]) == 0 {
        assert forall|i: int| 0 <= i < d.frac@.len() implies d.frac@[i] == 0 by {
            assert(fd[i] == digit_val(frac_digits(t)[i]));
            assert(digit_val(frac_digits(t)[i]) == 0);
        }
    }
}

} // verus!
