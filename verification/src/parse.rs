use vstd::prelude::*;
use crate::errors::SignalError;
use crate::fixed::RAW_LIMIT;
use crate::fixed::SCALE;

verus! {

/// ASCII decimal digit.
pub open spec fn is_digit(c: u8) -> bool {
    48 <= c <= 57
}

/// Every byte of `s` is a decimal digit.
pub open spec fn all_digits(s: Seq<u8>) -> bool {
    forall|i: int| 0 <= i < s.len() ==> is_digit(#[trigger] s[i])
}

/// The number written by a digit string, most significant digit first.
pub open spec fn digits_val(s: Seq<u8>) -> int
    decreases s.len(),
{
    if s.len() == 0 {
        0
    } else {
        digits_val(s.drop_last()) * 10 + (s.last() - 48)
    }
}

/// Ten to the `n`.
pub open spec fn pow10(n: nat) -> int
    decreases n,
{
    if n == 0 {
        1
    } else {
        10 * pow10((n - 1) as nat)
    }
}

/// A fraction written as a digit string, scaled to millionths and truncated
/// past the sixth digit.
pub open spec fn frac_micro(s: Seq<u8>) -> int {
    if s.len() >= 6 {
        digits_val(s.take(6))
    } else {
        digits_val(s) * pow10((6 - s.len()) as nat)
    }
}

/// Does the field start with an explicit sign?
pub open spec fn sign_len(s: Seq<u8>) -> int {
    if s.len() > 0 && (s[0] == 43 || s[0] == 45) {
        1
    } else {
        0
    }
}

/// Is the field negative?
pub open spec fn is_neg(s: Seq<u8>) -> bool {
    s.len() > 0 && s[0] == 45
}

/// The field with its sign stripped.
pub open spec fn body_of(s: Seq<u8>) -> Seq<u8> {
    s.subrange(sign_len(s), s.len() as int)
}

/// `k` splits the unsigned body `b` into a non-empty integer part of at most
/// twelve digits and, after a dot, an all-digit fraction. Digits exclude the
/// dot, so at most one split point exists.
pub open spec fn split_ok(b: Seq<u8>, k: int) -> bool {
    &&& 1 <= k <= b.len()
    &&& k <= 12
    &&& all_digits(b.take(k))
    &&& (k == b.len() || (b[k] == 46 && all_digits(b.subrange(k + 1, b.len() as int))))
}

/// The fields the loader accepts: an optional sign, one to twelve integer
/// digits, and an optional dot followed by digits.
pub open spec fn field_valid(s: Seq<u8>) -> bool {
    exists|k: int| split_ok(body_of(s), k)
}

/// The value of a valid field in millionths of a signal unit, the fraction
/// truncated past the sixth digit.
pub open spec fn micro_value(s: Seq<u8>) -> int {
    let b = body_of(s);
    let k = choose|k: int| split_ok(b, k);
    let mag = digits_val(b.take(k)) * (SCALE as int) + if k == b.len() {
        0
    } else {
        frac_micro(b.subrange(k + 1, b.len() as int))
    };
    if is_neg(s) {
        -mag
    } else {
        mag
    }
}

/// Ten to a larger power is at least ten to a smaller one.
pub proof fn lemma_pow10_mono(a: nat, b: nat)
    requires
        a <= b,
    ensures
        pow10(a) <= pow10(b),
        pow10(a) >= 1,
    decreases b,
{
    if b > 0 {
        if a == b {
            lemma_pow10_mono((a - 1) as nat, (b - 1) as nat);
        } else {
            lemma_pow10_mono(a, (b - 1) as nat);
        }
    }
}

/// At most one split point satisfies `split_ok`.
pub proof fn lemma_split_unique(b: Seq<u8>, k1: int, k2: int)
    requires
        split_ok(b, k1),
        split_ok(b, k2),
    ensures
        k1 == k2,
{
    if k1 < k2 {
        assert(b.take(k2)[k1] == b[k1]);
        assert(is_digit(b[k1]));
        assert(k1 < b.len());
        assert(b[k1] == 46);
    } else if k2 < k1 {
        assert(b.take(k1)[k2] == b[k2]);
        assert(is_digit(b[k2]));
        assert(k2 < b.len());
        assert(b[k2] == 46);
    }
}

/// Parse one record field as a fixed-point sample. Accepted exactly when an
/// optional sign is followed by one to twelve integer digits and, optionally,
/// a dot and digits; the fraction is read to millionths, truncated past the
/// sixth digit.
pub fn parse_field(field: &Vec<u8>) -> (r: Result<i64, SignalError>)
    ensures
        r is Ok <==> field_valid(field@),
        r matches Ok(v) ==> v as int == micro_value(field@),
        r matches Ok(v) ==> -RAW_LIMIT < v < RAW_LIMIT,
        r is Err ==> r == Err::<i64, SignalError>(SignalError::ParseError),
{
    let ghost s = field@;
    let n = field.len();
    let mut i: usize = 0;
    let mut neg = false;
    if n > 0 && (field[0] == 45 || field[0] == 43) {
        neg = field[0] == 45;
        i = 1;
    }
    let sb = i;
    let ghost b = body_of(s);
    proof {
        assert(b =~= s.subrange(sb as int, n as int));
        assert(neg == is_neg(s));
    }

    // Scan the run of integer digits.
    while i < n && 48 <= field[i] && field[i] <= 57
        invariant
            sb <= i <= n == field@.len(),
            s == field@,
            b =~= s.subrange(sb as int, n as int),
            all_digits(s.subrange(sb as int, i as int)),
        decreases n - i,
    {
        proof {
            assert(s.subrange(sb as int, i + 1)[i - sb] == s[i as int]);
            assert(forall|j: int| 0 <= j < i - sb ==> s.subrange(sb as int, i + 1)[j] == #[trigger] s.subrange(sb as int, i as int)[j]);
        }
        i = i + 1;
    }
    let int_len = i - sb;
    proof {
        assert(forall|j: int| 0 <= j < int_len ==> b[j] == #[trigger] s.subrange(sb as int, i as int)[j]);
    }

    if int_len == 0 {
        // Either the body is empty or its first byte is no digit: no split
        // point can begin a digit run.
        proof {
            assert forall|k: int| !split_ok(b, k) by {
                if split_ok(b, k) {
                    assert(b.take(k)[0] == b[0]);
                    assert(b[0] == s[sb as int]);
                }
            }
        }
        return Err(SignalError::ParseError);
    }
    if int_len > 12 {
        // Thirteen digits at the head of the body: every split point at most
        // twelve deep would have to land on a dot, but lands on a digit.
        proof {
            assert forall|k: int| !split_ok(b, k) by {
                if split_ok(b, k) {
                    assert(k < int_len);
                    assert(b[k] == s[sb + k]);
                    assert(s.subrange(sb as int, i as int)[k] == s[sb + k]);
                    assert(is_digit(b[k]));
                }
            }
        }
        return Err(SignalError::ParseError);
    }

    // The only candidate split point is the end of the digit run.
    let ghost kk = int_len as int;
    proof {
        assert forall|k: int| split_ok(b, k) implies k == kk by {
            if k < kk {
                assert(b.take(k) =~= b.take(k));
                assert(b[k] == s[sb + k]);
                assert(s.subrange(sb as int, i as int)[k] == s[sb + k]);
                assert(is_digit(b[k]));
                assert(k < b.len());
            } else if k > kk {
                assert(b.take(k)[kk] == b[kk]);
                if i < n {
                    assert(b[kk] == s[i as int]);
                }
            }
        }
        assert(b.take(kk) =~= s.subrange(sb as int, i as int));
    }

    // Accumulate the integer part.
    let int_end = i;
    let mut j = sb;
    let mut acc: i64 = 0;
    proof {
        reveal_with_fuel(pow10, 14);
    }
    while j < int_end
        invariant
            sb <= j <= int_end <= n == field@.len(),
            s == field@,
            int_end - sb <= 12,
            all_digits(s.subrange(sb as int, int_end as int)),
            acc == digits_val(s.subrange(sb as int, j as int)),
            0 <= acc < pow10((j - sb) as nat),
            pow10(12) == 1_000_000_000_000,
        decreases int_end - j,
    {
        proof {
            assert(s.subrange(sb as int, int_end as int)[j - sb] == s[j as int]);
            assert(is_digit(s[j as int]));
            assert(s.subrange(sb as int, j + 1).drop_last() =~= s.subrange(sb as int, j as int));
            assert(s.subrange(sb as int, j + 1).last() == s[j as int]);
            lemma_pow10_mono((j + 1 - sb) as nat, 12);
            assert(pow10((j + 1 - sb) as nat) == 10 * pow10((j - sb) as nat));
        }
        let d = field[j];
        acc = acc * 10 + (d - 48) as i64;
        j = j + 1;
    }
    proof {
        lemma_pow10_mono((int_end - sb) as nat, 12);
        assert(acc < 1_000_000_000_000);
        assert(acc == digits_val(b.take(kk)));
    }

    // The fraction, if any.
    let mut fr: i64 = 0;
    if i < n {
        if field[i] != 46 {
            // The byte after the digit run is neither a dot nor the end.
            proof {
                assert forall|k: int| !split_ok(b, k) by {
                    if split_ok(b, k) {
                        assert(k == kk);
                        assert(b[kk] == s[i as int]);
                    }
                }
            }
            return Err(SignalError::ParseError);
        }
        let fs = i + 1;
        let ghost f = s.subrange(fs as int, n as int);
        let mut cnt: usize = 0;
        j = fs;
        while j < n
            invariant
                fs <= j <= n == field@.len(),
                s == field@,
                sb == sign_len(s),
                sb <= i < n,
                fs == i + 1,
                kk == i - sb,
                s[i as int] == 46,
                b =~= s.subrange(sb as int, n as int),
                all_digits(s.subrange(sb as int, i as int)),
                f =~= s.subrange(fs as int, n as int),
                all_digits(s.subrange(fs as int, j as int)),
                cnt == if j - fs <= 6 { (j - fs) as int } else { 6int },
                fr == digits_val(s.subrange(fs as int, fs + cnt)),
                0 <= fr < pow10(cnt as nat),
                pow10(6) == 1_000_000,
            decreases n - j,
        {
            let d = field[j];
            if d < 48 || d > 57 {
                // A stray byte in the fraction: the only split point fails.
                proof {
                    assert(s.subrange(fs as int, n as int)[j - fs] == s[j as int]);
                    assert forall|k: int| !split_ok(b, k) by {
                        if split_ok(b, k) {
                            if k < kk {
                                assert(b[k] == s[sb + k]);
                                assert(s.subrange(sb as int, i as int)[k] == s[sb + k]);
                                assert(is_digit(b[k]));
                                assert(k < b.len());
                            } else if k > kk {
                                assert(b.take(k)[kk] == b[kk]);
                                assert(b[kk] == s[i as int]);
                            }
                            assert(k == kk);
                            assert(b.subrange(kk + 1, b.len() as int) =~= s.subrange(fs as int, n as int));
                            assert(is_digit(f[j - fs]));
                        }
                    }
                    assert(!field_valid(s)) by {
                        if field_valid(s) {
                            let k0 = choose|k: int| split_ok(body_of(s), k);
                            assert(body_of(s) =~= b);
                            assert(split_ok(b, k0));
                        }
                    }
                }
                return Err(SignalError::ParseError);
            }
            proof {
                assert(s.subrange(fs as int, j + 1)[j - fs] == s[j as int]);
                assert(forall|q: int| 0 <= q < j - fs ==> s.subrange(fs as int, j + 1)[q] == #[trigger] s.subrange(fs as int, j as int)[q]);
            }
            if cnt < 6 {
                proof {
                    assert(s.subrange(fs as int, fs + cnt + 1).drop_last() =~= s.subrange(fs as int, fs + cnt as int));
                    assert(s.subrange(fs as int, fs + cnt + 1).last() == s[j as int]);
                    lemma_pow10_mono((cnt + 1) as nat, 6);
                    assert(pow10((cnt + 1) as nat) == 10 * pow10(cnt as nat));
                }
                fr = fr * 10 + (d - 48) as i64;
                cnt = cnt + 1;
            }
            j = j + 1;
        }
        // Pad a short fraction out to millionths.
        proof {
            assert(all_digits(f));
        }
        if cnt < 6 {
            proof {
                assert(n - fs <= 6);
                assert(fs + cnt == n);
                assert(f =~= s.subrange(fs as int, fs + cnt));
                assert(fr == digits_val(s.subrange(fs as int, fs + cnt)));
                assert(fr == digits_val(f));
                assert(pow10(0nat) == 1);
                assert(digits_val(f) * pow10(0nat) == digits_val(f));
            }
            let mut p = cnt;
            while p < 6
                invariant
                    cnt <= p <= 6,
                    cnt == n - fs,
                    fr == digits_val(f) * pow10((p - cnt) as nat),
                    0 <= fr < pow10(p as nat),
                    pow10(6) == 1_000_000,
                decreases 6 - p,
            {
                proof {
                    lemma_pow10_mono((p + 1) as nat, 6);
                    assert(pow10((p + 1 - cnt) as nat) == 10 * pow10((p - cnt) as nat));
                    assert(digits_val(f) * (10 * pow10((p - cnt) as nat)) == (digits_val(f) * pow10((p - cnt) as nat)) * 10) by (nonlinear_arith);
                    assert(pow10((p + 1) as nat) == 10 * pow10(p as nat));
                }
                fr = fr * 10;
                p = p + 1;
            }
            proof {
                assert(fr == frac_micro(f));
            }
        } else {
            proof {
                assert(n - fs >= 6);
                assert(f.take(6) =~= s.subrange(fs as int, fs + 6));
                assert(fr == frac_micro(f));
            }
        }
        proof {
            assert(split_ok(b, kk)) by {
                assert(b[kk] == s[i as int]);
                assert(b.subrange(kk + 1, b.len() as int) =~= f);
            }
            assert(b.subrange(kk + 1, b.len() as int) =~= f);
            assert(fr < 1_000_000);
        }
    } else {
        proof {
            assert(split_ok(b, kk));
        }
    }

    // Assemble the magnitude; twelve integer digits and a proper fraction
    // stay well inside the machine range.
    proof {
        assert(acc * (SCALE as int) <= 999_999_999_999i64 * 1_000_000) by (nonlinear_arith)
            requires 0 <= acc <= 999_999_999_999i64;
        assert(acc * (SCALE as int) >= 0) by (nonlinear_arith)
            requires acc >= 0;
    }
    let mag: i64 = acc * SCALE + fr;
    let v: i64 = if neg { -mag } else { mag };
    proof {
        let k0 = choose|k: int| split_ok(b, k);
        lemma_split_unique(b, k0, kk);
        if i < n {
            assert(mag == digits_val(b.take(kk)) * (SCALE as int) + frac_micro(b.subrange(kk + 1, b.len() as int)));
        } else {
            assert(kk == b.len());
        }
        assert(v as int == micro_value(s));
    }
    Ok(v)
}

} // verus!
