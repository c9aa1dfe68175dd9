use vstd::prelude::*;
use vstd::string::StringSliceAdditionalSpecFns;

verus! {

/// `2` to the power `e`.
pub open spec fn pow2(e: nat) -> nat
    decreases e,
{
    if e == 0 {
        1
    } else {
        2 * pow2((e - 1) as nat)
    }
}

/// The backoff before retry attempt `k` (1-based): `100 * 2^(k-1)`
/// milliseconds, capped at ten seconds.
pub open spec fn spec_backoff_ms(k: nat) -> u64 {
    if k == 0 {
        0
    } else if 100 * pow2((k - 1) as nat) > 10000 {
        10000
    } else {
        (100 * pow2((k - 1) as nat)) as u64
    }
}

/// Exponential backoff: the sleep in milliseconds between attempt `k` and
/// attempt `k + 1`, starting at 100 ms and doubling, capped at ten seconds.
pub fn backoff_delay_ms(attempt: u32) -> (r: u64)
    ensures
        r == spec_backoff_ms(attempt as nat),
{
    if attempt == 0 {
        return 0;
    }
    let mut k: u32 = 1;
    let mut d: u64 = 100;
    while k < attempt && d <= 10000
        invariant
            1 <= k <= attempt,
            d == 100 * pow2((k - 1) as nat),
            d <= 20000,
        decreases attempt - k,
    {
        d = d * 2;
        k = k + 1;
    }
    if d > 10000 {
        proof {
            lemma_pow2_le((k - 1) as nat, (attempt - 1) as nat);
        }
        10000
    } else {
        proof {
            assert(k == attempt);
        }
        d
    }
}

/// `pow2` is positive and monotone.
proof fn lemma_pow2_le(e1: nat, e2: nat)
    requires
        e1 <= e2,
    ensures
        1 <= pow2(e1) <= pow2(e2),
    decreases e2,
{
    if e2 > 0 {
        if e1 == e2 {
            lemma_pow2_le(0, (e2 - 1) as nat);
        } else {
            lemma_pow2_le(e1, (e2 - 1) as nat);
        }
    }
}

/// The delay before the next attempt, or `None` when the attempt budget is
/// spent: after attempt `k` of `max_attempts`, retry only while
/// `k < max_attempts`.
pub fn next_attempt_delay(attempt: u32, max_attempts: u32) -> (r: Option<u64>)
    ensures
        r is Some <==> attempt < max_attempts,
        r matches Some(d) ==> d == spec_backoff_ms(attempt as nat),
{
    if attempt < max_attempts {
        Some(backoff_delay_ms(attempt))
    } else {
        None
    }
}

/// An HTTP status that warrants a retry: any server error, or 429.
pub fn is_retryable_status(status: u16) -> (r: bool)
    ensures
        r == (status >= 500 || status == 429),
{
    status >= 500 || status == 429
}

/// Lowercase an ASCII byte; other bytes pass through.
pub open spec fn spec_lower_byte(b: u8) -> u8 {
    if 65 <= b <= 90 {
        (b + 32) as u8
    } else {
        b
    }
}

/// Whether `pat` occurs as a contiguous run inside `s`.
pub open spec fn spec_contains(s: Seq<u8>, pat: Seq<u8>) -> bool {
    exists|i: int| 0 <= i && i + pat.len() <= s.len()
        && #[trigger] s.subrange(i, i + pat.len()) == pat
}

/// The retryable markers, matched against the lowercased message: the
/// transient network failures and the retryable HTTP status codes.
pub open spec fn spec_is_retryable_bytes(msg: Seq<u8>) -> bool {
    let m = msg.map_values(|b: u8| spec_lower_byte(b));
    ||| spec_contains(m, seq![99u8, 111u8, 110u8, 110u8, 101u8, 99u8, 116u8, 105u8, 111u8, 110u8, 32u8, 114u8, 101u8, 102u8, 117u8, 115u8, 101u8, 100u8])
    ||| spec_contains(m, seq![99u8, 111u8, 110u8, 110u8, 101u8, 99u8, 116u8, 105u8, 111u8, 110u8, 32u8, 114u8, 101u8, 115u8, 101u8, 116u8])
    ||| spec_contains(m, seq![116u8, 105u8, 109u8, 101u8, 100u8, 32u8, 111u8, 117u8, 116u8])
    ||| spec_contains(m, seq![115u8, 111u8, 99u8, 107u8, 101u8, 116u8, 32u8, 104u8, 97u8, 110u8, 103u8, 32u8, 117u8, 112u8])
    ||| spec_contains(m, seq![110u8, 101u8, 116u8, 119u8, 111u8, 114u8, 107u8, 32u8, 101u8, 114u8, 114u8, 111u8, 114u8])
    ||| spec_contains(m, seq![53u8, 48u8, 48u8])
    ||| spec_contains(m, seq![53u8, 48u8, 50u8])
    ||| spec_contains(m, seq![53u8, 48u8, 51u8])
    ||| spec_contains(m, seq![53u8, 48u8, 52u8])
    ||| spec_contains(m, seq![52u8, 50u8, 57u8])
}

/// Whether `pat` occurs inside `s`.
#[verifier::loop_isolation(false)]
fn contains_sub(s: &[u8], pat: &[u8]) -> (r: bool)
    ensures
        r == spec_contains(s@, pat@),
{
    let n: usize = s.len();
    let m: usize = pat.len();
    if m > n {
        proof {
            assert(!spec_contains(s@, pat@));
        }
        return false;
    }
    let mut i: usize = 0;
    while i <= n - m
        invariant
            0 <= i <= n - m + 1,
            forall|k: int| 0 <= k < i ==> #[trigger] s@.subrange(k, k + pat@.len()) != pat@,
        decreases n - m + 1 - i,
    {
        let mut j: usize = 0;
        let mut hit: bool = true;
        while j < m
            invariant
                0 <= j <= m,
                i + m <= n,
                hit == (s@.subrange(i as int, i + j as int) =~= pat@.subrange(0, j as int)),
            decreases m - j,
        {
            proof {
                assert(s@.subrange(i as int, i + j + 1 as int).drop_last()
                    =~= s@.subrange(i as int, i + j as int));
                assert(pat@.subrange(0, j + 1 as int).drop_last() =~= pat@.subrange(0, j as int));
            }
            if s[i + j] != pat[j] {
                hit = false;
                proof {
                    assert(s@.subrange(i as int, i + j + 1 as int).last() == s@[i + j]);
                    assert(pat@.subrange(0, j + 1 as int).last() == pat@[j as int]);
                }
            } else {
                proof {
                    if hit {
                        assert(s@.subrange(i as int, i + j + 1 as int)
                            =~= s@.subrange(i as int, i + j as int).push(s@[i + j]));
                        assert(pat@.subrange(0, j + 1 as int)
                            =~= pat@.subrange(0, j as int).push(pat@[j as int]));
                    } else {
                        assert(s@.subrange(i as int, i + j as int) != pat@.subrange(0, j as int));
                        assert(s@.subrange(i as int, i + j + 1 as int).drop_last()
                            != pat@.subrange(0, j + 1 as int).drop_last() ==> true);
                        assert(s@.subrange(i as int, i + j + 1 as int) != pat@.subrange(0, j + 1 as int)) by {
                            if s@.subrange(i as int, i + j + 1 as int) == pat@.subrange(0, j + 1 as int) {
                                assert(s@.subrange(i as int, i + j as int) =~= pat@.subrange(0, j as int));
                            }
                        };
                    }
                }
            }
            j = j + 1;
        }
        if hit {
            proof {
                assert(pat@.subrange(0, pat@.len() as int) =~= pat@);
                assert(s@.subrange(i as int, i + pat@.len()) == pat@);
            }
            return true;
        }
        i = i + 1;
    }
    proof {
        assert forall|k: int| 0 <= k && k + pat@.len() <= s@.len()
            implies #[trigger] s@.subrange(k, k + pat@.len()) != pat@ by {
            assert(k < i);
        }
    }
    false
}

/// Whether an error message reports a transient failure worth retrying:
/// connection refusals and resets, timeouts, socket hang-ups, generic
/// network errors, and the HTTP statuses 500, 502, 503, 504 and 429,
/// matched case-insensitively.
pub fn is_retryable_error(message: &str) -> (r: bool)
    ensures
        r == spec_is_retryable_bytes(message.spec_bytes()),
{
    let bytes: Vec<u8> = message.as_bytes_vec();
    let mut lowered: Vec<u8> = Vec::new();
    let mut i: usize = 0;
    while i < bytes.len()
        invariant
            i <= bytes@.len(),
            lowered@ =~= bytes@.subrange(0, i as int).map_values(|b: u8| spec_lower_byte(b)),
        decreases bytes@.len() - i,
    {
        let b: u8 = bytes[i];
        let lb: u8 = if 65 <= b && b <= 90 { b + 32 } else { b };
        lowered.push(lb);
        proof {
            assert(bytes@.subrange(0, i + 1 as int).map_values(|x: u8| spec_lower_byte(x))
                =~= bytes@.subrange(0, i as int).map_values(|x: u8| spec_lower_byte(x))
                    .push(spec_lower_byte(bytes@[i as int])));
        }
        i = i + 1;
    }
    proof {
        assert(bytes@.subrange(0, bytes@.len() as int) =~= bytes@);
        assert(lowered@ =~= bytes@.map_values(|b: u8| spec_lower_byte(b)));
    }
    let p1: Vec<u8> = vec![99, 111, 110, 110, 101, 99, 116, 105, 111, 110, 32, 114, 101, 102, 117, 115, 101, 100];
    let p2: Vec<u8> = vec![99, 111, 110, 110, 101, 99, 116, 105, 111, 110, 32, 114, 101, 115, 101, 116];
    let p3: Vec<u8> = vec![116, 105, 109, 101, 100, 32, 111, 117, 116];
    let p4: Vec<u8> = vec![115, 111, 99, 107, 101, 116, 32, 104, 97, 110, 103, 32, 117, 112];
    let p5: Vec<u8> = vec![110, 101, 116, 119, 111, 114, 107, 32, 101, 114, 114, 111, 114];
    let p6: Vec<u8> = vec![53, 48, 48];
    let p7: Vec<u8> = vec![53, 48, 50];
    let p8: Vec<u8> = vec![53, 48, 51];
    let p9: Vec<u8> = vec![53, 48, 52];
    let p10: Vec<u8> = vec![52, 50, 57];
    proof {
        assert(p1@ =~= seq![99u8, 111u8, 110u8, 110u8, 101u8, 99u8, 116u8, 105u8, 111u8, 110u8, 32u8, 114u8, 101u8, 102u8, 117u8, 115u8, 101u8, 100u8]);
        assert(p2@ =~= seq![99u8, 111u8, 110u8, 110u8, 101u8, 99u8, 116u8, 105u8, 111u8, 110u8, 32u8, 114u8, 101u8, 115u8, 101u8, 116u8]);
        assert(p3@ =~= seq![116u8, 105u8, 109u8, 101u8, 100u8, 32u8, 111u8, 117u8, 116u8]);
        assert(p4@ =~= seq![115u8, 111u8, 99u8, 107u8, 101u8, 116u8, 32u8, 104u8, 97u8, 110u8, 103u8, 32u8, 117u8, 112u8]);
        assert(p5@ =~= seq![110u8, 101u8, 116u8, 119u8, 111u8, 114u8, 107u8, 32u8, 101u8, 114u8, 114u8, 111u8, 114u8]);
        assert(p6@ =~= seq![53u8, 48u8, 48u8]);
        assert(p7@ =~= seq![53u8, 48u8, 50u8]);
        assert(p8@ =~= seq![53u8, 48u8, 51u8]);
        assert(p9@ =~= seq![53u8, 48u8, 52u8]);
        assert(p10@ =~= seq![52u8, 50u8, 57u8]);
    }
    contains_sub(lowered.as_slice(), p1.as_slice())
        || contains_sub(lowered.as_slice(), p2.as_slice())
        || contains_sub(lowered.as_slice(), p3.as_slice())
        || contains_sub(lowered.as_slice(), p4.as_slice())
        || contains_sub(lowered.as_slice(), p5.as_slice())
        || contains_sub(lowered.as_slice(), p6.as_slice())
        || contains_sub(lowered.as_slice(), p7.as_slice())
        || contains_sub(lowered.as_slice(), p8.as_slice())
        || contains_sub(lowered.as_slice(), p9.as_slice())
        || contains_sub(lowered.as_slice(), p10.as_slice())
}

} // verus!
