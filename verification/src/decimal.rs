//! Exact decimal price/quantity normalization: venue string-encoded
//! decimals are held as an integer mantissa and a power-of-ten scale,
//! so no precision is lost between the wire and the engine.

use vstd::prelude::*;
use vstd::string::StrSliceExecFns;
use vstd::string::StringExecFns;
use crate::types::HandleError;

verus! {

/// A decimal number held exactly: the value is `mant / 10^scale`,
/// negated when `neg` is set.
#[derive(Clone, Copy, Debug, PartialEq, Eq, Structural)]
pub struct Dec {
    pub neg: bool,
    pub mant: u64,
    pub scale: u32,
}

pub open spec fn pow10(e: nat) -> nat
    decreases e,
{
    if e == 0 {
        1
    } else {
        10 * pow10((e - 1) as nat)
    }
}

pub open spec fn is_digit(c: char) -> bool {
    48 <= c as u32 && c as u32 <= 57
}

pub open spec fn digit_val(c: char) -> nat {
    if is_digit(c) {
        (c as u32 - 48) as nat
    } else {
        0
    }
}

pub open spec fn all_digits(s: Seq<char>) -> bool {
    forall|i: int| 0 <= i < s.len() ==> is_digit(#[trigger] s[i])
}

/// The number denoted by a run of decimal digits, most significant first.
pub open spec fn digits_val(s: Seq<char>) -> nat
    decreases s.len(),
{
    if s.len() == 0 {
        0
    } else {
        digits_val(s.drop_last()) * 10 + digit_val(s.last())
    }
}

/// Split at the first `'.'`: the part before it, the part after it, and
/// whether a dot was present at all.
pub open spec fn split_dot(s: Seq<char>) -> (Seq<char>, Seq<char>, bool)
    decreases s.len(),
{
    if s.len() == 0 {
        (Seq::empty(), Seq::empty(), false)
    } else if s[0] == '.' {
        (Seq::empty(), s.drop_first(), true)
    } else {
        let r = split_dot(s.drop_first());
        (seq![s[0]] + r.0, r.1, r.2)
    }
}

/// Reading of a decimal string body (after an optional sign): one or more
/// integer digits, then optionally a dot and one or more fraction digits.
/// Returns the unbounded mantissa and the scale.
pub open spec fn spec_parse_body(s: Seq<char>) -> Option<(nat, nat)> {
    let r = split_dot(s);
    if r.0.len() > 0 && all_digits(r.0) && (r.2 ==> r.1.len() > 0 && all_digits(r.1)) {
        Some((digits_val(r.0 + r.1), r.1.len()))
    } else {
        None
    }
}

/// The mathematical reading of a whole decimal string:
/// sign, mantissa and scale, or nothing when the string is malformed.
pub open spec fn spec_parse_dec(s: Seq<char>) -> Option<(bool, nat, nat)> {
    if s.len() > 0 && s[0] == '-' {
        match spec_parse_body(s.drop_first()) {
            Some(p) => Some((true, p.0, p.1)),
            None => None,
        }
    } else {
        match spec_parse_body(s) {
            Some(p) => Some((false, p.0, p.1)),
            None => None,
        }
    }
}

impl Dec {
    /// Numerator of the denoted rational; the denominator is `pow10(scale)`.
    pub open spec fn num(self) -> int {
        if self.neg {
            -(self.mant as int)
        } else {
            self.mant as int
        }
    }

    /// Two decimals denote the same number iff the cross-multiplied
    /// numerators agree.
    pub open spec fn same_value(self, other: Dec) -> bool {
        self.num() * pow10(other.scale as nat) == other.num() * pow10(self.scale as nat)
    }

    /// The reading a well-formed string must have to yield `self`.
    pub open spec fn is_parse_of(self, s: Seq<char>) -> bool {
        spec_parse_dec(s) == Some((self.neg, self.mant as nat, self.scale as nat))
    }
}

pub proof fn lemma_pow10_pos(e: nat)
    ensures
        pow10(e) >= 1,
    decreases e,
{
    if e > 0 {
        lemma_pow10_pos((e - 1) as nat);
    }
}

pub proof fn lemma_pow10_add(a: nat, b: nat)
    ensures
        pow10(a + b) == pow10(a) * pow10(b),
    decreases a,
{
    if a == 0 {
        assert(pow10(0) == 1);
        assert(pow10(a + b) == pow10(b));
    } else {
        lemma_pow10_add((a - 1) as nat, b);
        assert(pow10(a + b) == 10 * pow10((a - 1) as nat + b));
        assert(pow10((a - 1) as nat + b) == pow10((a - 1) as nat) * pow10(b));
        assert(pow10(a) == 10 * pow10((a - 1) as nat));
        assert(10 * (pow10((a - 1) as nat) * pow10(b)) == (10 * pow10((a - 1) as nat)) * pow10(b))
            by (nonlinear_arith);
        assert(pow10(a + b) == pow10(a) * pow10(b));
    }
}

/// Concatenating digit runs composes their values positionally.
pub proof fn lemma_digits_concat(a: Seq<char>, b: Seq<char>)
    ensures
        digits_val(a + b) == digits_val(a) * pow10(b.len()) + digits_val(b),
    decreases b.len(),
{
    if b.len() == 0 {
        assert(a + b =~= a);
        assert(pow10(0) == 1);
        assert(digits_val(b) == 0);
        assert(digits_val(a) * 1 == digits_val(a));
    } else {
        lemma_digits_concat(a, b.drop_last());
        assert((a + b).drop_last() =~= a + b.drop_last());
        assert((a + b).last() == b.last());
        let x = digits_val(a);
        let p = pow10((b.len() - 1) as nat);
        let y = digits_val(b.drop_last());
        assert(digits_val(a + b) == (x * p + y) * 10 + digit_val(b.last()));
        assert((x * p + y) * 10 == x * (10 * p) + y * 10) by (nonlinear_arith);
        assert(pow10(b.len()) == 10 * p);
        assert(x * pow10(b.len()) == x * (10 * p));
        assert(digits_val(b) == y * 10 + digit_val(b.last()));
        assert(digits_val(a + b) == x * pow10(b.len()) + digits_val(b));
    }
}

proof fn lemma_split_dot_at(s: Seq<char>, d: int)
    requires
        0 <= d < s.len(),
        s[d] == '.',
        forall|k: int| 0 <= k < d ==> s[k] != '.',
    ensures
        split_dot(s).0 == s.take(d),
        split_dot(s).1 == s.skip(d + 1),
        split_dot(s).2 == true,
    decreases s.len(),
{
    if d == 0 {
        assert(split_dot(s).0 =~= s.take(0));
        assert(split_dot(s).1 =~= s.skip(1));
    } else {
        lemma_split_dot_at(s.drop_first(), d - 1);
        assert(seq![s[0]] + s.drop_first().take(d - 1) =~= s.take(d));
        assert(s.drop_first().skip(d) =~= s.skip(d + 1));
    }
}

proof fn lemma_split_dot_none(s: Seq<char>)
    requires
        forall|k: int| 0 <= k < s.len() ==> s[k] != '.',
    ensures
        split_dot(s).0 == s,
        split_dot(s).1 == Seq::<char>::empty(),
        split_dot(s).2 == false,
    decreases s.len(),
{
    if s.len() == 0 {
        assert(split_dot(s).0 =~= s);
    } else {
        lemma_split_dot_none(s.drop_first());
        assert(seq![s[0]] + s.drop_first() =~= s);
    }
}

/// Parses the digit run `s[from..to]` on top of the already-accumulated
/// high-order value `acc0`, failing exactly on a non-digit or on overflow.
fn parse_digits(s: &str, from: usize, to: usize, acc0: u64) -> (r: Option<u64>)
    requires
        from <= to && to <= s@.len(),
    ensures
        ({
            let sub = s@.subrange(from as int, to as int);
            match r {
                Some(v) => all_digits(sub) && v as nat == acc0 as nat * pow10(sub.len())
                    + digits_val(sub),
                None => !(all_digits(sub) && acc0 as nat * pow10(sub.len()) + digits_val(sub)
                    <= u64::MAX),
            }
        }),
{
    let ghost sub = s@.subrange(from as int, to as int);
    let mut acc: u64 = acc0;
    let mut j: usize = from;
    proof {
        assert(s@.subrange(from as int, from as int) =~= Seq::<char>::empty());
        assert(digits_val(Seq::<char>::empty()) == 0);
        assert(pow10((j - from) as nat) == 1);
        assert(acc0 as nat * 1 == acc0 as nat);
        assert(acc as nat == acc0 as nat * pow10((j - from) as nat) + digits_val(
            s@.subrange(from as int, j as int),
        ));
    }
    while j < to
        invariant
            from <= j <= to <= s@.len(),
            sub == s@.subrange(from as int, to as int),
            all_digits(s@.subrange(from as int, j as int)),
            acc as nat == acc0 as nat * pow10((j - from) as nat) + digits_val(
                s@.subrange(from as int, j as int),
            ),
        decreases to - j,
    {
        let ghost pre = s@.subrange(from as int, j as int);
        let c = s.get_char(j);
        let u = c as u32;
        if u < 48 || u > 57 {
            proof {
                assert(sub[j - from] == s@[j as int]);
                assert(!all_digits(sub));
            }
            return None;
        }
        let d = (u - 48) as u64;
        let overflow: bool = acc > 1_844_674_407_370_955_161u64 || (acc * 10 > u64::MAX - d);
        proof {
            let ext = s@.subrange(from as int, j + 1 as int);
            assert(ext =~= pre.push(s@[j as int]));
            assert(ext.drop_last() =~= pre);
            assert(digits_val(ext) == digits_val(pre) * 10 + digit_val(s@[j as int]));
            lemma_pow10_add((j - from) as nat, 1);
            assert(acc0 as nat * (pow10((j - from) as nat) * 10) == (acc0 as nat * pow10(
                (j - from) as nat,
            )) * 10) by (nonlinear_arith);
            assert(pow10(0) == 1);
            assert(pow10(1) == 10);
            assert(pow10((j + 1 - from) as nat) == pow10((j - from) as nat) * pow10(1));
            assert(is_digit(s@[j as int]));
            assert(digit_val(s@[j as int]) == (u - 48) as nat);
            assert forall|i: int| 0 <= i < ext.len() implies is_digit(#[trigger] ext[i]) by {
                if i < ext.len() - 1 {
                    assert(ext[i] == pre[i]);
                }
            }
            if overflow {
                // The value up to and including this digit already exceeds
                // u64::MAX, so the whole run's value does too.
                if all_digits(sub) {
                    let rest = sub.skip(j + 1 - from);
                    assert(sub.take(j + 1 - from) =~= ext);
                    assert(ext + rest =~= sub);
                    lemma_digits_concat(ext, rest);
                    lemma_pow10_pos(rest.len());
                    lemma_pow10_pos((j + 1 - from) as nat);
                    let ve = digits_val(ext);
                    let pr = pow10(rest.len());
                    assert(digits_val(sub) >= ve * pr >= ve) by (nonlinear_arith)
                        requires
                            digits_val(sub) == ve * pr + digits_val(rest),
                            pr >= 1,
                    ;
                    // Fold acc0 in: total = acc0 * pow10(|sub|) + digits_val(sub).
                    let a0 = acc0 as nat;
                    let pe = pow10((j + 1 - from) as nat);
                    assert(pow10(sub.len()) == pe * pr) by {
                        lemma_pow10_add((j + 1 - from) as nat, rest.len());
                        assert(sub.len() == (j + 1 - from) + rest.len());
                    };
                    assert(a0 * (pe * pr) + digits_val(sub) >= a0 * pe + ve) by (nonlinear_arith)
                        requires
                            pr >= 1,
                            pe >= 1,
                            digits_val(sub) >= ve * pr + digits_val(rest),
                            digits_val(sub) >= ve,
                    ;
                    assert(a0 * pe + ve > u64::MAX);
                }
            }
        }
        if overflow {
            return None;
        }
        acc = acc * 10 + d;
        j = j + 1;
    }
    proof {
        assert(s@.subrange(from as int, to as int) =~= s@.subrange(from as int, j as int));
    }
    Some(acc)
}

/// Parses a venue decimal string exactly: `Some` iff the string is
/// well-formed and its mantissa and scale fit the machine bounds; the
/// result then carries precisely the string's reading.
pub fn parse_decimal(s: &str) -> (r: Option<Dec>)
    ensures
        ({
            match r {
                Some(d) => d.is_parse_of(s@),
                None => match spec_parse_dec(s@) {
                    Some(t) => t.1 > u64::MAX || t.2 > u32::MAX,
                    None => true,
                },
            }
        }),
{
    let n = s.unicode_len();
    let mut start: usize = 0;
    let mut neg: bool = false;
    if n > 0 && s.get_char(0) == '-' {
        neg = true;
        start = 1;
    }
    let ghost body = s@.skip(start as int);
    proof {
        if neg {
            assert(body =~= s@.drop_first());
        } else {
            assert(body =~= s@);
        }
    }

    // Locate the first dot, if any.
    let mut j: usize = start;
    while j < n
        invariant
            start <= j <= n == s@.len(),
            forall|k: int| start <= k < j ==> s@[k] != '.',
        ensures
            start <= j <= n == s@.len(),
            forall|k: int| start <= k < j ==> s@[k] != '.',
            j < n ==> s@[j as int] == '.',
        decreases n - j,
    {
        if s.get_char(j) == '.' {
            break;
        }
        j = j + 1;
    }
    let has_dot: bool = j < n;
    let ie: usize = j;
    proof {
        assert(body.len() == n - start);
        assert(forall|k: int| 0 <= k < body.len() ==> body[k] == s@[k + start]);
        if ie < n {
            assert(body[ie - start] == '.');
            assert forall|k: int| 0 <= k < ie - start implies body[k] != '.' by {
                assert(body[k] == s@[k + start]);
            }
            lemma_split_dot_at(body, ie - start);
            assert(body.take(ie - start) =~= s@.subrange(start as int, ie as int));
            assert(body.skip(ie - start + 1) =~= s@.subrange(ie + 1 as int, n as int));
        } else {
            assert forall|k: int| 0 <= k < body.len() implies body[k] != '.' by {
                assert(body[k] == s@[k + start]);
            }
            lemma_split_dot_none(body);
            assert(body =~= s@.subrange(start as int, n as int));
        }
    }
    if ie == start {
        // Empty integer part: malformed.
        proof {
            assert(split_dot(body).0.len() == 0);
        }
        return None;
    }
    let im = match parse_digits(s, start, ie, 0) {
        Some(v) => v,
        None => {
            proof {
                let ip = split_dot(body).0;
                let fp = split_dot(body).1;
                let sub = s@.subrange(start as int, ie as int);
                assert(ip == sub);
                assert((0 as nat) * pow10(sub.len()) == 0) by (nonlinear_arith);
                if all_digits(ip) && spec_parse_body(body) is Some {
                    assert(digits_val(ip) > u64::MAX);
                    lemma_digits_concat(ip, fp);
                    lemma_pow10_pos(fp.len());
                    let vi = digits_val(ip);
                    let pf = pow10(fp.len());
                    assert(digits_val(ip + fp) >= vi * pf >= vi) by (nonlinear_arith)
                        requires
                            digits_val(ip + fp) == vi * pf + digits_val(fp),
                            pf >= 1,
                    ;
                }
            }
            return None;
        },
    };
    proof {
        let sub = s@.subrange(start as int, ie as int);
        assert((0 as nat) * pow10(sub.len()) == 0) by (nonlinear_arith);
        assert(im as nat == digits_val(sub));
        assert(split_dot(body).0 == sub);
    }
    if !has_dot {
        proof {
            let ip = split_dot(body).0;
            assert(ip + split_dot(body).1 =~= ip);
        }
        Some(Dec { neg, mant: im, scale: 0 })
    } else {
        let fs = ie + 1;
        if fs == n {
            // Empty fraction: malformed.
            proof {
                assert(split_dot(body).1.len() == 0);
            }
            return None;
        }
        let flen = n - fs;
        if flen > u32::MAX as usize {
            // The scale would not fit the machine bound.
            return None;
        }
        match parse_digits(s, fs, n, im) {
            Some(mant) => {
                proof {
                    let ip = split_dot(body).0;
                    let fp = split_dot(body).1;
                    assert(fp == s@.subrange(fs as int, n as int));
                    lemma_digits_concat(ip, fp);
                    assert(mant as nat == digits_val(ip) * pow10(fp.len()) + digits_val(fp));
                    assert(fp.len() == flen);
                }
                Some(Dec { neg, mant, scale: flen as u32 })
            },
            None => {
                proof {
                    let ip = split_dot(body).0;
                    let fp = split_dot(body).1;
                    assert(fp == s@.subrange(fs as int, n as int));
                    if all_digits(fp) && spec_parse_body(body) is Some {
                        lemma_digits_concat(ip, fp);
                        assert(digits_val(ip + fp) > u64::MAX);
                    }
                }
                None
            },
        }
    }
}

/// The digit character for `d < 10`.
pub open spec fn digit_char(d: nat) -> char {
    if d == 0 {
        '0'
    } else if d == 1 {
        '1'
    } else if d == 2 {
        '2'
    } else if d == 3 {
        '3'
    } else if d == 4 {
        '4'
    } else if d == 5 {
        '5'
    } else if d == 6 {
        '6'
    } else if d == 7 {
        '7'
    } else if d == 8 {
        '8'
    } else {
        '9'
    }
}

/// Decimal digits of `n`, most significant first, no leading zeroes
/// except for `n == 0` itself.
pub open spec fn dec_digits_of(n: nat) -> Seq<char>
    decreases n,
{
    if n < 10 {
        seq![digit_char(n)]
    } else {
        dec_digits_of(n / 10).push(digit_char(n % 10))
    }
}

pub open spec fn zeroes(n: nat) -> Seq<char> {
    Seq::new(n, |i| '0')
}

/// The canonical text of a decimal: sign, integer digits, and — when the
/// scale is positive — a dot and exactly `scale` fraction digits.
pub open spec fn spec_format_dec(d: Dec) -> Seq<char> {
    let ds = dec_digits_of(d.mant as nat);
    let sign: Seq<char> = if d.neg {
        seq!['-']
    } else {
        Seq::empty()
    };
    if d.scale == 0 {
        sign + ds
    } else if ds.len() > d.scale {
        sign + ds.take(ds.len() - d.scale) + seq!['.'] + ds.skip(ds.len() - d.scale)
    } else {
        sign + seq!['0'] + seq!['.'] + zeroes((d.scale - ds.len()) as nat) + ds
    }
}

proof fn lemma_digit_char(d: nat)
    requires
        d < 10,
    ensures
        is_digit(digit_char(d)),
        digit_val(digit_char(d)) == d,
        digit_char(d) != '.',
        digit_char(d) != '-',
{
}

proof fn lemma_dec_digits_of(n: nat)
    ensures
        dec_digits_of(n).len() >= 1,
        all_digits(dec_digits_of(n)),
        digits_val(dec_digits_of(n)) == n,
    decreases n,
{
    if n < 10 {
        lemma_digit_char(n);
        let ds = dec_digits_of(n);
        assert(ds.drop_last() =~= Seq::<char>::empty());
        assert(digits_val(Seq::<char>::empty()) == 0);
        assert(ds.last() == digit_char(n));
        assert(digits_val(ds) == 0 * 10 + digit_val(digit_char(n)));
    } else {
        lemma_dec_digits_of(n / 10);
        lemma_digit_char(n % 10);
        let ds = dec_digits_of(n);
        assert(ds.drop_last() =~= dec_digits_of(n / 10));
        assert(ds.last() == digit_char(n % 10));
        assert(digits_val(ds) == (n / 10) * 10 + n % 10);
        assert((n / 10) * 10 + n % 10 == n);
        assert forall|i: int| 0 <= i < ds.len() implies is_digit(#[trigger] ds[i]) by {
            if i < ds.len() - 1 {
                assert(ds[i] == dec_digits_of(n / 10)[i]);
            }
        }
    }
}

proof fn lemma_zeroes(n: nat)
    ensures
        zeroes(n).len() == n,
        all_digits(zeroes(n)),
        digits_val(zeroes(n)) == 0,
    decreases n,
{
    if n > 0 {
        lemma_zeroes((n - 1) as nat);
        assert(zeroes(n).drop_last() =~= zeroes((n - 1) as nat));
        assert(zeroes(n).last() == '0');
    }
}

/// Normalization round-trips: formatting a decimal and parsing the text
/// back yields the identical sign, mantissa and scale — hence a decimal
/// denoting the same numeric value, exactly.
#[verifier::rlimit(60)]
pub proof fn lemma_dec_round_trip(d: Dec)
    ensures
        d.is_parse_of(spec_format_dec(d)),
        spec_dec_of(spec_format_dec(d)) == d,
        spec_dec_of(spec_format_dec(d)).same_value(d),
{
    let ds = dec_digits_of(d.mant as nat);
    lemma_dec_digits_of(d.mant as nat);
    let sign: Seq<char> = if d.neg {
        seq!['-']
    } else {
        Seq::empty()
    };
    let s = spec_format_dec(d);
    let scale = d.scale as nat;
    if d.scale == 0 {
        let body = if d.neg {
            s.drop_first()
        } else {
            s
        };
        assert(body =~= ds);
        assert(forall|k: int| 0 <= k < body.len() ==> body[k] != '.') by {
            assert(forall|k: int| 0 <= k < ds.len() ==> is_digit(#[trigger] ds[k]));
        }
        lemma_split_dot_none(body);
        assert(split_dot(body).0 + split_dot(body).1 =~= ds);
        if d.neg {
            assert(s[0] == '-');
        } else {
            assert(is_digit(s[0]));
            assert(s[0] != '-');
        }
    } else if ds.len() > scale {
        let k = (ds.len() - scale) as int;
        let body = if d.neg {
            s.drop_first()
        } else {
            s
        };
        assert(body =~= ds.take(k) + seq!['.'] + ds.skip(k));
        assert(body[k] == '.');
        assert forall|i: int| 0 <= i < k implies body[i] != '.' by {
            assert(body[i] == ds[i]);
            assert(is_digit(ds[i]));
        }
        lemma_split_dot_at(body, k);
        assert(body.take(k) =~= ds.take(k));
        assert(body.skip(k + 1) =~= ds.skip(k));
        assert(split_dot(body).0 + split_dot(body).1 =~= ds);
        assert forall|i: int| 0 <= i < ds.take(k).len() implies is_digit(#[trigger] ds.take(k)[i]) by {
            assert(ds.take(k)[i] == ds[i]);
        }
        assert forall|i: int| 0 <= i < ds.skip(k).len() implies is_digit(#[trigger] ds.skip(k)[i]) by {
            assert(ds.skip(k)[i] == ds[k + i]);
        }
        if d.neg {
            assert(s[0] == '-');
        } else {
            assert(s[0] == ds[0]);
            assert(is_digit(s[0]));
            assert(s[0] != '-');
        }
    } else {
        let z = zeroes((scale - ds.len()) as nat);
        lemma_zeroes((scale - ds.len()) as nat);
        let body = if d.neg {
            s.drop_first()
        } else {
            s
        };
        assert(body =~= seq!['0'] + seq!['.'] + z + ds);
        assert(body[1] == '.');
        assert(body[0] == '0');
        lemma_split_dot_at(body, 1);
        let ip = split_dot(body).0;
        let fp = split_dot(body).1;
        assert(ip =~= seq!['0']);
        assert(fp =~= z + ds);
        assert(ip.drop_last() =~= Seq::<char>::empty());
        assert(digits_val(Seq::<char>::empty()) == 0);
        assert(ip.last() == '0');
        assert(digit_val('0') == 0);
        assert(digits_val(ip) == 0 * 10 + digit_val('0'));
        lemma_digits_concat(z, ds);
        lemma_digits_concat(ip, fp);
        assert(digits_val(fp) == digits_val(z) * pow10(ds.len()) + digits_val(ds));
        assert(digits_val(z) * pow10(ds.len()) == 0) by (nonlinear_arith)
            requires
                digits_val(z) == 0,
        ;
        assert(digits_val(ip + fp) == 0 * pow10(fp.len()) + digits_val(fp));
        assert(0 * pow10(fp.len()) == 0) by (nonlinear_arith);
        assert forall|i: int| 0 <= i < fp.len() implies is_digit(#[trigger] fp[i]) by {
            if i < z.len() {
                assert(fp[i] == z[i]);
            } else {
                assert(fp[i] == ds[i - z.len()]);
            }
        }
        if d.neg {
            assert(s[0] == '-');
        } else {
            assert(s[0] == '0');
            assert(s[0] != '-');
        }
    }
}

fn digit_str(d: u8) -> (r: &'static str)
    requires
        d < 10,
    ensures
        r@ =~= seq![digit_char(d as nat)],
{
    proof {
        reveal_strlit("0");
        reveal_strlit("1");
        reveal_strlit("2");
        reveal_strlit("3");
        reveal_strlit("4");
        reveal_strlit("5");
        reveal_strlit("6");
        reveal_strlit("7");
        reveal_strlit("8");
        reveal_strlit("9");
    }
    match d {
        0 => "0",
        1 => "1",
        2 => "2",
        3 => "3",
        4 => "4",
        5 => "5",
        6 => "6",
        7 => "7",
        8 => "8",
        _ => "9",
    }
}

fn push_digits(n: u64, out: &mut String)
    ensures
        final(out)@ == old(out)@ + dec_digits_of(n as nat),
    decreases n,
{
    if n < 10 {
        out.append(digit_str(n as u8));
    } else {
        proof {
            assert(n as nat / 10 < n as nat) by (nonlinear_arith)
                requires
                    n >= 10,
            ;
        }
        push_digits(n / 10, out);
        out.append(digit_str((n % 10) as u8));
        proof {
            assert(old(out)@ + dec_digits_of((n / 10) as nat) + seq![
                digit_char((n % 10) as nat),
            ] =~= old(out)@ + dec_digits_of(n as nat));
        }
    }
}

/// Renders a decimal as its canonical venue text.
pub fn format_dec(d: &Dec) -> (r: String)
    ensures
        r@ == spec_format_dec(*d),
{
    let mut out = String::new();
    if d.neg {
        proof {
            reveal_strlit("-");
        }
        out.append("-");
    }
    let mut digs = String::new();
    push_digits(d.mant, &mut digs);
    let dlen = digs.as_str().unicode_len();
    let scale = d.scale as usize;
    proof {
        reveal_strlit(".");
        reveal_strlit("0");
    }
    if scale == 0 {
        out.append(digs.as_str());
        proof {
            assert(out@ =~= spec_format_dec(*d));
        }
    } else if dlen > scale {
        let k = dlen - scale;
        out.append(digs.as_str().substring_char(0, k));
        out.append(".");
        out.append(digs.as_str().substring_char(k, dlen));
        proof {
            assert(digs@.subrange(0, k as int) =~= dec_digits_of(d.mant as nat).take(k as int));
            assert(digs@.subrange(k as int, dlen as int) =~= dec_digits_of(d.mant as nat).skip(
                k as int,
            ));
            assert(out@ =~= spec_format_dec(*d));
        }
    } else {
        out.append("0");
        out.append(".");
        let pad = scale - dlen;
        let mut i: usize = 0;
        let ghost base = out@;
        while i < pad
            invariant
                i <= pad,
                out@ == base + zeroes(i as nat),
            decreases pad - i,
        {
            out.append("0");
            proof {
                reveal_strlit("0");
                assert(base + zeroes(i as nat) + seq!['0'] =~= base + zeroes((i + 1) as nat));
            }
            i = i + 1;
        }
        out.append(digs.as_str());
        proof {
            assert(out@ =~= spec_format_dec(*d));
        }
    }
    out
}

pub proof fn lemma_pow10_mono(a: nat, b: nat)
    requires
        a <= b,
    ensures
        pow10(a) <= pow10(b),
{
    lemma_pow10_add(a, (b - a) as nat);
    lemma_pow10_pos((b - a) as nat);
    lemma_pow10_pos(a);
    let p = pow10(a);
    let q = pow10((b - a) as nat);
    assert(p * q >= p * 1 == p) by (nonlinear_arith)
        requires
            q >= 1,
            p >= 1,
    ;
}

/// The larger of the two scales: the common scale for exact arithmetic.
pub open spec fn max_scale(a: Dec, b: Dec) -> nat {
    if a.scale >= b.scale {
        a.scale as nat
    } else {
        b.scale as nat
    }
}

/// The mantissa of `d` rescaled to the (not smaller) scale `sc`.
pub open spec fn mant_at(d: Dec, sc: nat) -> nat
    recommends
        d.scale <= sc,
{
    d.mant as nat * pow10((sc - d.scale) as nat)
}

/// Multiplies `m` by `10^diff`, failing exactly on overflow.
fn rescale(m: u64, diff: u32) -> (r: Option<u64>)
    ensures
        match r {
            Some(v) => v as nat == m as nat * pow10(diff as nat),
            None => m as nat * pow10(diff as nat) > u64::MAX,
        },
{
    let mut acc: u64 = m;
    let mut i: u32 = 0;
    proof {
        assert(pow10(0) == 1);
        assert(m as nat * 1 == m as nat);
    }
    while i < diff
        invariant
            i <= diff,
            acc as nat == m as nat * pow10(i as nat),
        decreases diff - i,
    {
        proof {
            lemma_pow10_add(i as nat, 1);
            assert(pow10(1) == 10 * pow10(0));
            assert(pow10(0) == 1);
            assert(pow10((i + 1) as nat) == pow10(i as nat) * 10);
            assert(m as nat * (pow10(i as nat) * 10) == (m as nat * pow10(i as nat)) * 10)
                by (nonlinear_arith);
        }
        if acc > u64::MAX / 10 {
            proof {
                lemma_pow10_mono((i + 1) as nat, diff as nat);
                lemma_pow10_pos((i + 1) as nat);
                let vi = m as nat * pow10((i + 1) as nat);
                let vd = m as nat * pow10(diff as nat);
                assert(vd >= vi) by (nonlinear_arith)
                    requires
                        pow10(diff as nat) >= pow10((i + 1) as nat),
                        vi == m as nat * pow10((i + 1) as nat),
                        vd == m as nat * pow10(diff as nat),
                ;
                assert(vi == (acc as nat) * 10) by (nonlinear_arith)
                    requires
                        acc as nat == m as nat * pow10(i as nat),
                        pow10((i + 1) as nat) == pow10(i as nat) * 10,
                        vi == m as nat * pow10((i + 1) as nat),
                ;
            }
            return None;
        }
        acc = acc * 10;
        i = i + 1;
    }
    Some(acc)
}

/// Adds two non-negative decimals exactly at the common scale, failing
/// exactly when the result does not fit the mantissa bound.
pub fn dec_add(a: &Dec, b: &Dec) -> (r: Option<Dec>)
    requires
        !a.neg,
        !b.neg,
    ensures
        match r {
            Some(c) => !c.neg && c.scale as nat == max_scale(*a, *b) && c.mant as nat == mant_at(
                *a,
                max_scale(*a, *b),
            ) + mant_at(*b, max_scale(*a, *b)),
            None => mant_at(*a, max_scale(*a, *b)) + mant_at(*b, max_scale(*a, *b)) > u64::MAX,
        },
{
    let sc: u32 = if a.scale >= b.scale {
        a.scale
    } else {
        b.scale
    };
    let ma = match rescale(a.mant, sc - a.scale) {
        Some(v) => v,
        None => {
            return None;
        },
    };
    let mb = match rescale(b.mant, sc - b.scale) {
        Some(v) => v,
        None => {
            return None;
        },
    };
    if ma > u64::MAX - mb {
        return None;
    }
    Some(Dec { neg: false, mant: ma + mb, scale: sc })
}

/// Compares two non-negative decimals exactly at the common scale,
/// failing exactly when a rescaled mantissa does not fit the bound.
pub fn dec_ge(a: &Dec, b: &Dec) -> (r: Option<bool>)
    requires
        !a.neg,
        !b.neg,
    ensures
        match r {
            Some(ge) => ge == (mant_at(*a, max_scale(*a, *b)) >= mant_at(*b, max_scale(*a, *b))),
            None => mant_at(*a, max_scale(*a, *b)) > u64::MAX || mant_at(*b, max_scale(*a, *b))
                > u64::MAX,
        },
{
    let sc: u32 = if a.scale >= b.scale {
        a.scale
    } else {
        b.scale
    };
    let ma = match rescale(a.mant, sc - a.scale) {
        Some(v) => v,
        None => {
            return None;
        },
    };
    let mb = match rescale(b.mant, sc - b.scale) {
        Some(v) => v,
        None => {
            return None;
        },
    };
    Some(ma >= mb)
}

/// Parses one venue `(price, quantity)` string pair; a malformed field
/// fails only this pair, exactly per the string grammar.
pub fn parse_px_qty_tup(px: &str, qty: &str) -> (r: Result<(Dec, Dec), HandleError>)
    ensures
        match r {
            Ok(pq) => pq.0.is_parse_of(px@) && pq.1.is_parse_of(qty@),
            Err(e) => e == HandleError::Numeric && (match spec_parse_dec(px@) {
                Some(t) => t.1 > u64::MAX || t.2 > u32::MAX,
                None => true,
            } || match spec_parse_dec(qty@) {
                Some(t) => t.1 > u64::MAX || t.2 > u32::MAX,
                None => true,
            }),
        },
{
    let p = match parse_decimal(px) {
        Some(v) => v,
        None => {
            return Err(HandleError::Numeric);
        },
    };
    let q = match parse_decimal(qty) {
        Some(v) => v,
        None => {
            return Err(HandleError::Numeric);
        },
    };
    Ok((p, q))
}

/// Milliseconds scaled to the engine's nanosecond time base, failing
/// exactly when the product leaves the 64-bit range.
pub fn ms_to_ns(ms: u64) -> (r: Option<u64>)
    ensures
        ms * 1_000_000 <= u64::MAX ==> r == Some((ms * 1_000_000) as u64),
        ms * 1_000_000 > u64::MAX ==> r is None,
{
    if ms <= u64::MAX / 1_000_000 {
        Some(ms * 1_000_000)
    } else {
        None
    }
}

/// The decimal a well-formed string denotes.
pub open spec fn spec_dec_of(s: Seq<char>) -> Dec {
    let t = spec_parse_dec(s)->Some_0;
    Dec { neg: t.0, mant: t.1 as u64, scale: t.2 as u32 }
}

/// A decimal string that parses and fits the machine bounds.
pub open spec fn level_str_ok(s: Seq<char>) -> bool {
    &&& spec_parse_dec(s) is Some
    &&& spec_parse_dec(s)->Some_0.1 <= u64::MAX
    &&& spec_parse_dec(s)->Some_0.2 <= u32::MAX
}

/// Every price and quantity string of a level list is well-formed.
pub open spec fn levels_ok(raw: Seq<(Seq<char>, Seq<char>)>) -> bool {
    forall|i: int|
        0 <= i < raw.len() ==> level_str_ok((#[trigger] raw[i]).0) && level_str_ok(raw[i].1)
}

/// What a successfully parsed level list must be, element by element.
pub open spec fn levels_parse_of(levels: Seq<(Dec, Dec)>, raw: Seq<(Seq<char>, Seq<char>)>) -> bool {
    levels.len() == raw.len() && forall|i: int|
        0 <= i < raw.len() ==> (#[trigger] levels[i]).0.is_parse_of(raw[i].0) && levels[i].1.is_parse_of(
            raw[i].1,
        )
}

pub open spec fn raw_pairs_view(raw: Seq<(String, String)>) -> Seq<(Seq<char>, Seq<char>)> {
    raw.map_values(|p: (String, String)| (p.0@, p.1@))
}

/// Parses a whole side of a depth update. One malformed pair fails the
/// whole message (and only this message); nothing is emitted partially.
pub fn parse_levels(raw: &Vec<(String, String)>) -> (r: Result<Vec<(Dec, Dec)>, HandleError>)
    ensures
        match r {
            Ok(levels) => levels_parse_of(levels@, raw_pairs_view(raw@)),
            Err(e) => e == HandleError::Numeric && !levels_ok(raw_pairs_view(raw@)),
        },
{
    let mut out: Vec<(Dec, Dec)> = Vec::new();
    let mut i: usize = 0;
    while i < raw.len()
        invariant
            i <= raw@.len(),
            levels_parse_of(out@, raw_pairs_view(raw@).take(i as int)),
        decreases raw@.len() - i,
    {
        let pair = &raw[i];
        match parse_px_qty_tup(pair.0.as_str(), pair.1.as_str()) {
            Ok(pq) => {
                out.push(pq);
            },
            Err(e) => {
                proof {
                    assert(raw_pairs_view(raw@)[i as int] == (raw@[i as int].0@, raw@[i as int].1@));
                }
                return Err(e);
            },
        }
        i = i + 1;
    }
    proof {
        assert(raw_pairs_view(raw@).take(raw@.len() as int) =~= raw_pairs_view(raw@));
    }
    Ok(out)
}

/// Parses both sides of a depth update; a malformed numeric string aborts
/// only this message and is surfaced as a numeric decode error.
pub fn parse_depth(bids: &Vec<(String, String)>, asks: &Vec<(String, String)>) -> (r: Result<
    (Vec<(Dec, Dec)>, Vec<(Dec, Dec)>),
    HandleError,
>)
    ensures
        match r {
            Ok(ba) => levels_parse_of(ba.0@, raw_pairs_view(bids@)) && levels_parse_of(
                ba.1@,
                raw_pairs_view(asks@),
            ),
            Err(e) => e == HandleError::Numeric && !(levels_ok(raw_pairs_view(bids@)) && levels_ok(
                raw_pairs_view(asks@),
            )),
        },
{
    let b = match parse_levels(bids) {
        Ok(v) => v,
        Err(e) => {
            return Err(e);
        },
    };
    let a = match parse_levels(asks) {
        Ok(v) => v,
        Err(e) => {
            return Err(e);
        },
    };
    Ok((b, a))
}

} // verus!
