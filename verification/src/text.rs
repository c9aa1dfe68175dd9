use vstd::prelude::*;

verus! {

/// Decimal digit bytes of `n`, most significant first, no leading zeros
/// (a single `0` for zero).
pub open spec fn spec_dec_digits(n: nat) -> Seq<u8>
    decreases n,
{
    if n < 10 {
        seq![(48 + n) as u8]
    } else {
        spec_dec_digits(n / 10).push((48 + n % 10) as u8)
    }
}

/// Whether `b` is an ASCII decimal digit.
pub open spec fn spec_is_digit(b: u8) -> bool {
    48 <= b <= 57
}

/// Numeric value of a sequence of decimal digit bytes.
pub open spec fn spec_dec_value(s: Seq<u8>) -> nat
    decreases s.len(),
{
    if s.len() == 0 {
        0
    } else {
        spec_dec_value(s.drop_last()) * 10 + ((s.last() - 48) as nat)
    }
}

/// Every byte that decimal formatting emits is a digit.
pub proof fn lemma_dec_digits_are_digits(n: nat)
    ensures
        forall|i: int| 0 <= i < spec_dec_digits(n).len() ==> spec_is_digit(#[trigger] spec_dec_digits(n)[i]),
        spec_dec_digits(n).len() >= 1,
    decreases n,
{
    if n >= 10 {
        lemma_dec_digits_are_digits(n / 10);
    }
}

/// Reading decimal digits back gives the number that was written.
pub proof fn lemma_dec_round_trip(n: nat)
    ensures
        spec_dec_value(spec_dec_digits(n)) == n,
    decreases n,
{
    let s = spec_dec_digits(n);
    if n < 10 {
        assert(s.drop_last() =~= Seq::<u8>::empty());
        assert(spec_dec_value(s.drop_last()) == 0);
        assert(spec_dec_value(s) == 0 * 10 + ((s.last() - 48) as nat));
    } else {
        lemma_dec_round_trip(n / 10);
        assert(s.drop_last() =~= spec_dec_digits(n / 10));
        assert(spec_dec_value(s) == (n / 10) * 10 + n % 10);
    }
}

/// Within one digit run, a longer prefix reads at least as large.
pub proof fn lemma_dec_value_prefix_le(s: Seq<u8>, a: int, e1: int, e2: int)
    requires
        0 <= a <= e1 <= e2 <= s.len(),
    ensures
        spec_dec_value(s.subrange(a, e1)) <= spec_dec_value(s.subrange(a, e2)),
    decreases e2 - e1,
{
    if e1 < e2 {
        let p = s.subrange(a, e2);
        assert(p.drop_last() =~= s.subrange(a, e2 - 1));
        assert(spec_dec_value(s.subrange(a, e2))
            == spec_dec_value(s.subrange(a, e2 - 1)) * 10 + ((p.last() - 48) as nat));
        assert(spec_dec_value(s.subrange(a, e2 - 1)) * 10
            >= spec_dec_value(s.subrange(a, e2 - 1)));
        lemma_dec_value_prefix_le(s, a, e1, e2 - 1);
    }
}

/// A positive number's digits never begin with zero, and zero's are one
/// digit long.
pub proof fn lemma_dec_digits_leading(n: nat)
    ensures
        n > 0 ==> spec_dec_digits(n)[0] != 48,
        spec_dec_digits(n).len() == 1 <==> n < 10,
    decreases n,
{
    if n >= 10 {
        lemma_dec_digits_leading(n / 10);
        assert(spec_dec_digits(n)[0] == spec_dec_digits(n / 10)[0]);
        lemma_dec_digits_are_digits(n / 10);
    }
}

/// Append the decimal digits of `n` to `out`.
pub fn push_dec_u64(out: &mut Vec<u8>, n: u64)
    ensures
        final(out)@ == old(out)@ + spec_dec_digits(n as nat),
    decreases n,
{
    if n < 10 {
        out.push(48 + n as u8);
        proof {
            assert(final(out)@ =~= old(out)@ + spec_dec_digits(n as nat));
        }
    } else {
        push_dec_u64(out, n / 10);
        out.push(48 + (n % 10) as u8);
        proof {
            assert(final(out)@ =~= old(out)@ + spec_dec_digits(n as nat));
        }
    }
}

/// Append the decimal digits of `n` to `out`.
pub fn push_dec_u128(out: &mut Vec<u8>, n: u128)
    ensures
        final(out)@ == old(out)@ + spec_dec_digits(n as nat),
    decreases n,
{
    if n < 10 {
        out.push(48 + n as u8);
        proof {
            assert(final(out)@ =~= old(out)@ + spec_dec_digits(n as nat));
        }
    } else {
        push_dec_u128(out, n / 10);
        out.push(48 + (n % 10) as u8);
        proof {
            assert(final(out)@ =~= old(out)@ + spec_dec_digits(n as nat));
        }
    }
}

/// Parse a run of decimal digits in `s` starting at `start`: the value read
/// and the index of the first byte past the run. `None` when the run is
/// empty or its value does not fit in a `u128`.
#[verifier::loop_isolation(false)]
pub fn parse_dec_run(s: &[u8], start: usize) -> (r: Option<(u128, usize)>)
    requires
        start <= s@.len(),
    ensures
        r matches Some((value, end)) ==> {
            &&& start < end <= s@.len()
            &&& forall|i: int| start <= i < end ==> spec_is_digit(#[trigger] s@[i])
            &&& (end < s@.len() ==> !spec_is_digit(s@[end as int]))
            &&& value == spec_dec_value(s@.subrange(start as int, end as int))
        },
        forall|j: int| {
            &&& start < j <= s@.len()
            &&& (forall|i: int| start <= i < j ==> spec_is_digit(#[trigger] s@[i]))
            &&& (j == s@.len() || !spec_is_digit(s@[j]))
            &&& spec_dec_value(#[trigger] s@.subrange(start as int, j)) <= u128::MAX
        } ==> (r matches Some((value, end))
            && value == spec_dec_value(s@.subrange(start as int, j)) && end == j),
{
    let len: usize = s.len();
    if start >= len || !(48 <= s[start] && s[start] <= 57) {
        proof {
            assert forall|j: int| !({
                &&& start < j <= s@.len()
                &&& (forall|i: int| start <= i < j ==> spec_is_digit(#[trigger] s@[i]))
                &&& (j == s@.len() || !spec_is_digit(s@[j]))
                &&& spec_dec_value(#[trigger] s@.subrange(start as int, j)) <= u128::MAX
            }) by {
                if start < j <= s@.len() && (forall|i: int| start <= i < j
                    ==> spec_is_digit(#[trigger] s@[i])) {
                    assert(spec_is_digit(s@[start as int]));
                }
            }
        }
        return None;
    }
    let mut value: u128 = 0;
    let mut i: usize = start;
    proof {
        assert(s@.subrange(start as int, start as int) =~= Seq::<u8>::empty());
    }
    while i < len && 48 <= s[i] && s[i] <= 57
        invariant
            start <= i <= len,
            len == s@.len(),
            forall|k: int| start <= k < i ==> spec_is_digit(#[trigger] s@[k]),
            value == spec_dec_value(s@.subrange(start as int, i as int)),
        decreases len - i,
    {
        let d: u8 = s[i] - 48;
        proof {
            assert(s@.subrange(start as int, i + 1 as int).drop_last()
                =~= s@.subrange(start as int, i as int));
            assert(s@.subrange(start as int, i + 1 as int).last() == s@[i as int]);
            assert(spec_dec_value(s@.subrange(start as int, i + 1 as int))
                == (value as nat) * 10 + ((d) as nat));
            assert forall|j: int| ({
                &&& start < j <= s@.len()
                &&& (forall|k2: int| start <= k2 < j ==> spec_is_digit(#[trigger] s@[k2]))
                &&& (j == s@.len() || !spec_is_digit(s@[j]))
                &&& spec_dec_value(#[trigger] s@.subrange(start as int, j)) <= u128::MAX
            }) implies (value as nat) * 10 + (d as nat) <= u128::MAX by {
                assert(i < j) by {
                    if j <= i {
                        assert(spec_is_digit(s@[j]));
                    }
                };
                lemma_dec_value_prefix_le(s@, start as int, i + 1, j);
            }
        }
        value = match value.checked_mul(10) {
            Some(v) => match v.checked_add(d as u128) {
                Some(v2) => v2,
                None => { return None; },
            },
            None => { return None; },
        };
        i = i + 1;
    }
    proof {
        assert forall|j: int| ({
            &&& start < j <= s@.len()
            &&& (forall|k2: int| start <= k2 < j ==> spec_is_digit(#[trigger] s@[k2]))
            &&& (j == s@.len() || !spec_is_digit(s@[j]))
            &&& spec_dec_value(#[trigger] s@.subrange(start as int, j)) <= u128::MAX
        }) implies spec_dec_value(s@.subrange(start as int, j)) == value && j == i as int by {
            assert(j == i as int) by {
                if j < i {
                    assert(spec_is_digit(s@[j]));
                }
                if j > i {
                    assert(i < s@.len() ==> !spec_is_digit(s@[i as int]));
                    assert(spec_is_digit(s@[i as int]));
                }
            };
        }
    }
    Some((value, i))
}

/// `16` to the power `e`.
pub open spec fn pow16(e: nat) -> nat
    decreases e,
{
    if e == 0 {
        1
    } else {
        16 * pow16((e - 1) as nat)
    }
}

/// `pow16` is positive and monotone in the exponent.
pub proof fn lemma_pow16_le(e1: nat, e2: nat)
    requires
        e1 <= e2,
    ensures
        1 <= pow16(e1) <= pow16(e2),
    decreases e2,
{
    if e2 > 0 {
        if e1 == e2 {
            lemma_pow16_le(0, (e2 - 1) as nat);
        } else {
            lemma_pow16_le(e1, (e2 - 1) as nat);
        }
    }
}

/// Byte of one lowercase hexadecimal digit.
pub open spec fn spec_hex_digit(d: nat) -> u8 {
    if d < 10 {
        (48 + d) as u8
    } else {
        (87 + d) as u8
    }
}

/// Fixed-width lowercase hexadecimal digits of `n`, most significant first.
pub open spec fn spec_hex_fixed(n: nat, width: nat) -> Seq<u8>
    decreases width,
{
    if width == 0 {
        Seq::empty()
    } else {
        spec_hex_fixed(n / 16, (width - 1) as nat).push(spec_hex_digit(n % 16))
    }
}

/// Value of one hexadecimal digit byte, if it is one (lowercase letters only).
pub open spec fn spec_hex_value_of(b: u8) -> Option<nat> {
    if 48 <= b <= 57 {
        Some((b - 48) as nat)
    } else if 97 <= b <= 102 {
        Some((b - 87) as nat)
    } else {
        None
    }
}

/// Append `width` hexadecimal digits of `n` to `out`.
pub fn push_hex_fixed(out: &mut Vec<u8>, n: u128, width: usize)
    ensures
        final(out)@ == old(out)@ + spec_hex_fixed(n as nat, width as nat),
    decreases width,
{
    if width > 0 {
        push_hex_fixed(out, n / 16, width - 1);
        let d: u8 = (n % 16) as u8;
        let b: u8 = if d < 10 { 48 + d } else { 87 + d };
        out.push(b);
        proof {
            assert(final(out)@ =~= old(out)@ + spec_hex_fixed(n as nat, width as nat));
        }
    } else {
        proof {
            assert(final(out)@ =~= old(out)@ + spec_hex_fixed(n as nat, 0nat));
        }
    }
}

/// Value of `width` hexadecimal digit bytes starting at `start`, or `None`
/// if any of them is not a lowercase hexadecimal digit.
pub open spec fn spec_hex_parse(s: Seq<u8>, start: int, width: nat) -> Option<nat>
    decreases width,
{
    if width == 0 {
        Some(0)
    } else {
        match spec_hex_parse(s, start, (width - 1) as nat) {
            Some(high) => match spec_hex_value_of(s[start + width - 1]) {
                Some(d) => Some(high * 16 + d),
                None => None,
            },
            None => None,
        }
    }
}

/// Hexadecimal formatting of a value below `16^width` parses back to it.
pub proof fn lemma_hex_round_trip(n: nat, width: nat, s: Seq<u8>, start: int)
    requires
        n < pow16(width),
        0 <= start,
        start + width <= s.len(),
        s.subrange(start, start + width) == spec_hex_fixed(n, width),
    ensures
        spec_hex_parse(s, start, width) == Some(n),
    decreases width,
{
    if width == 0 {
        assert(n == 0);
    } else {
        let prefix = spec_hex_fixed(n / 16, (width - 1) as nat);
        assert(spec_hex_fixed(n, width) == prefix.push(spec_hex_digit(n % 16)));
        assert(pow16(width) == 16 * pow16((width - 1) as nat));
        assert(n / 16 < pow16((width - 1) as nat)) by (nonlinear_arith)
            requires n < 16 * pow16((width - 1) as nat);
        assert(s.subrange(start, start + width - 1) =~= prefix) by {
            assert(forall|i: int| 0 <= i < width - 1
                ==> s.subrange(start, start + width)[i]
                    == #[trigger] s.subrange(start, start + width - 1)[i]);
        };
        lemma_hex_round_trip(n / 16, (width - 1) as nat, s, start);
        assert(s[start + width - 1] == spec_hex_fixed(n, width)[width - 1]);
        assert(spec_hex_fixed(n, width)[width - 1] == spec_hex_digit(n % 16));
        assert(spec_hex_value_of(spec_hex_digit(n % 16)) == Some(n % 16));
        assert(spec_hex_parse(s, start, width) == Some((n / 16) * 16 + n % 16));
        assert((n / 16) * 16 + n % 16 == n);
    }
}

/// Parse `width` hexadecimal digits at `start` as in `spec_hex_parse`.
#[verifier::loop_isolation(false)]
pub fn parse_hex_fixed(s: &[u8], start: usize, width: usize) -> (r: Option<u128>)
    requires
        start + width <= s@.len(),
        width <= 32,
    ensures
        r is Some ==> spec_hex_parse(s@, start as int, width as nat) == Some(r->Some_0 as nat),
        r is None ==> spec_hex_parse(s@, start as int, width as nat) is None,
{
    let len: usize = s.len();
    let mut value: u128 = 0;
    let mut i: usize = 0;
    proof {
        assert(pow16(32) == 0x100000000000000000000000000000000nat) by {
            reveal_with_fuel(pow16, 33);
        };
    }
    while i < width
        invariant
            0 <= i <= width,
            spec_hex_parse(s@, start as int, i as nat) == Some(value as nat),
            value < pow16(i as nat),
        decreases width - i,
    {
        let b: u8 = s[start + i];
        let d: u8 = if 48 <= b && b <= 57 {
            b - 48
        } else if 97 <= b && b <= 102 {
            b - 87
        } else {
            proof {
                assert(spec_hex_value_of(s@[start + i as int]) is None);
                assert(spec_hex_parse(s@, start as int, (i + 1) as nat) is None);
                lemma_hex_parse_none_extends(s@, start as int, (i + 1) as nat, width as nat);
            }
            return None;
        };
        proof {
            let p = pow16(i as nat);
            let q = pow16((i + 1) as nat);
            assert(q == 16 * p);
            assert((value as nat) * 16 + 15 < q) by (nonlinear_arith)
                requires (value as nat) < p, q == 16 * p;
            lemma_pow16_le((i + 1) as nat, 32);
        }
        value = value * 16 + d as u128;
        i = i + 1;
    }
    Some(value)
}

/// Once a width is unparsable, every wider parse at the same start is too.
proof fn lemma_hex_parse_none_extends(s: Seq<u8>, start: int, w1: nat, w2: nat)
    requires
        w1 <= w2,
        spec_hex_parse(s, start, w1) is None,
    ensures
        spec_hex_parse(s, start, w2) is None,
    decreases w2 - w1,
{
    if w1 < w2 {
        lemma_hex_parse_none_extends(s, start, (w1 + 1) as nat, w2);
    }
}

/// The canonical hyphenated text of a 128-bit identifier: five groups of
/// lowercase hexadecimal digits of 8, 4, 4, 4 and 12 characters.
pub open spec fn spec_uuid_bytes(n: nat) -> Seq<u8> {
    spec_hex_fixed(n / 0x1000000000000000000000000, 8)
        + seq![45u8]
        + spec_hex_fixed((n / 0x100000000000000000000) % 0x10000, 4)
        + seq![45u8]
        + spec_hex_fixed((n / 0x10000000000000000) % 0x10000, 4)
        + seq![45u8]
        + spec_hex_fixed((n / 0x1000000000000) % 0x10000, 4)
        + seq![45u8]
        + spec_hex_fixed(n % 0x1000000000000, 12)
}

/// Hexadecimal formatting emits exactly its width.
pub proof fn lemma_hex_fixed_len(n: nat, width: nat)
    ensures
        spec_hex_fixed(n, width).len() == width,
    decreases width,
{
    if width > 0 {
        lemma_hex_fixed_len(n / 16, (width - 1) as nat);
    }
}

/// Append the 36-byte hyphenated text of `n` to `out`.
pub fn push_uuid(out: &mut Vec<u8>, n: u128)
    ensures
        final(out)@ == old(out)@ + spec_uuid_bytes(n as nat),
        final(out)@.len() == old(out)@.len() + 36,
{
    push_hex_fixed(out, n / 0x1000000000000000000000000, 8);
    out.push(45);
    push_hex_fixed(out, (n / 0x100000000000000000000) % 0x10000, 4);
    out.push(45);
    push_hex_fixed(out, (n / 0x10000000000000000) % 0x10000, 4);
    out.push(45);
    push_hex_fixed(out, (n / 0x1000000000000) % 0x10000, 4);
    out.push(45);
    push_hex_fixed(out, n % 0x1000000000000, 12);
    proof {
        lemma_hex_fixed_len(n as nat / 0x1000000000000000000000000, 8);
        lemma_hex_fixed_len((n as nat / 0x100000000000000000000) % 0x10000, 4);
        lemma_hex_fixed_len((n as nat / 0x10000000000000000) % 0x10000, 4);
        lemma_hex_fixed_len((n as nat / 0x1000000000000) % 0x10000, 4);
        lemma_hex_fixed_len(n as nat % 0x1000000000000, 12);
        assert(final(out)@ =~= old(out)@ + spec_uuid_bytes(n as nat));
    }
}

/// Field layout of the formatted identifier: group boundaries and hyphens.
proof fn lemma_uuid_shape(n: nat)
    ensures
        spec_uuid_bytes(n).len() == 36,
        spec_uuid_bytes(n)[8] == 45u8,
        spec_uuid_bytes(n)[13] == 45u8,
        spec_uuid_bytes(n)[18] == 45u8,
        spec_uuid_bytes(n)[23] == 45u8,
        spec_uuid_bytes(n).subrange(0, 8) == spec_hex_fixed(n / 0x1000000000000000000000000, 8),
        spec_uuid_bytes(n).subrange(9, 13) == spec_hex_fixed((n / 0x100000000000000000000) % 0x10000, 4),
        spec_uuid_bytes(n).subrange(14, 18) == spec_hex_fixed((n / 0x10000000000000000) % 0x10000, 4),
        spec_uuid_bytes(n).subrange(19, 23) == spec_hex_fixed((n / 0x1000000000000) % 0x10000, 4),
        spec_uuid_bytes(n).subrange(24, 36) == spec_hex_fixed(n % 0x1000000000000, 12),
{
    lemma_hex_fixed_len(n / 0x1000000000000000000000000, 8);
    lemma_hex_fixed_len((n / 0x100000000000000000000) % 0x10000, 4);
    lemma_hex_fixed_len((n / 0x10000000000000000) % 0x10000, 4);
    lemma_hex_fixed_len((n / 0x1000000000000) % 0x10000, 4);
    lemma_hex_fixed_len(n % 0x1000000000000, 12);
    assert(spec_uuid_bytes(n).subrange(0, 8) =~= spec_hex_fixed(n / 0x1000000000000000000000000, 8));
    assert(spec_uuid_bytes(n).subrange(9, 13) =~= spec_hex_fixed((n / 0x100000000000000000000) % 0x10000, 4));
    assert(spec_uuid_bytes(n).subrange(14, 18) =~= spec_hex_fixed((n / 0x10000000000000000) % 0x10000, 4));
    assert(spec_uuid_bytes(n).subrange(19, 23) =~= spec_hex_fixed((n / 0x1000000000000) % 0x10000, 4));
    assert(spec_uuid_bytes(n).subrange(24, 36) =~= spec_hex_fixed(n % 0x1000000000000, 12));
}

/// Parse the 36-byte hyphenated identifier text at `start`. Round trip:
/// the text of any 128-bit identifier parses back to exactly that value.
pub fn parse_uuid(s: &[u8], start: usize) -> (r: Option<u128>)
    requires
        start + 36 <= s@.len(),
    ensures
        r matches Some(n) ==> s@.subrange(start as int, start as int + 36) == spec_uuid_bytes(n as nat),
        forall|n: u128| s@.subrange(start as int, start as int + 36) == spec_uuid_bytes(n as nat)
            ==> r == Some(n),
{
    let len: usize = s.len();
    if s[start + 8] != 45 || s[start + 13] != 45 || s[start + 18] != 45 || s[start + 23] != 45 {
        proof {
            lemma_uuid_no_hyphens(s@, start as int);
        }
        return None;
    }
    let oa = parse_hex_fixed(s, start, 8);
    let ob = parse_hex_fixed(s, start + 9, 4);
    let oc = parse_hex_fixed(s, start + 14, 4);
    let od = parse_hex_fixed(s, start + 19, 4);
    let oe = parse_hex_fixed(s, start + 24, 12);
    if oa.is_none() || ob.is_none() || oc.is_none() || od.is_none() || oe.is_none() {
        proof {
            lemma_uuid_no_groups(s@, start as int);
        }
        return None;
    }
    let a = match oa { Some(v) => v, None => { return None; } };
    let b = match ob { Some(v) => v, None => { return None; } };
    let c = match oc { Some(v) => v, None => { return None; } };
    let d = match od { Some(v) => v, None => { return None; } };
    let e = match oe { Some(v) => v, None => { return None; } };
    proof {
        lemma_hex_parse_bound(s@, start as int, 8);
        lemma_hex_parse_bound(s@, start as int + 9, 4);
        lemma_hex_parse_bound(s@, start as int + 14, 4);
        lemma_hex_parse_bound(s@, start as int + 19, 4);
        lemma_hex_parse_bound(s@, start as int + 24, 12);
        assert(pow16(8) == 0x100000000nat && pow16(4) == 0x10000nat && pow16(12) == 0x1000000000000nat) by {
            reveal_with_fuel(pow16, 13);
        };
    }
    let q80: u128 = a * 0x10000 + b;
    let q64: u128 = q80 * 0x10000 + c;
    let q48: u128 = q64 * 0x10000 + d;
    let n: u128 = q48 * 0x1000000000000 + e;
    proof {
        lemma_uuid_reassemble(s@, start as int, a, b, c, d, e, n);
        lemma_uuid_complete(s@, start as int, n);
    }
    Some(n)
}

/// If any hyphen position of a would-be identifier is not a hyphen, no
/// value formats to these bytes.
proof fn lemma_uuid_no_hyphens(s: Seq<u8>, start: int)
    requires
        0 <= start,
        start + 36 <= s.len(),
        s[start + 8] != 45 || s[start + 13] != 45 || s[start + 18] != 45 || s[start + 23] != 45,
    ensures
        forall|n: u128| s.subrange(start, start + 36) != spec_uuid_bytes(n as nat),
{
    assert forall|n: u128| s.subrange(start, start + 36) != spec_uuid_bytes(n as nat) by {
        lemma_uuid_shape(n as nat);
        if s.subrange(start, start + 36) == spec_uuid_bytes(n as nat) {
            assert(s[start + 8] == spec_uuid_bytes(n as nat)[8]);
            assert(s[start + 13] == spec_uuid_bytes(n as nat)[13]);
            assert(s[start + 18] == spec_uuid_bytes(n as nat)[18]);
            assert(s[start + 23] == spec_uuid_bytes(n as nat)[23]);
        }
    }
}

/// If any of the five groups fails to parse as hexadecimal, no value
/// formats to these bytes.
proof fn lemma_uuid_no_groups(s: Seq<u8>, start: int)
    requires
        0 <= start,
        start + 36 <= s.len(),
        spec_hex_parse(s, start, 8) is None
            || spec_hex_parse(s, start + 9, 4) is None
            || spec_hex_parse(s, start + 14, 4) is None
            || spec_hex_parse(s, start + 19, 4) is None
            || spec_hex_parse(s, start + 24, 12) is None,
    ensures
        forall|n: u128| s.subrange(start, start + 36) != spec_uuid_bytes(n as nat),
{
    assert forall|n: u128| s.subrange(start, start + 36) != spec_uuid_bytes(n as nat) by {
        if s.subrange(start, start + 36) == spec_uuid_bytes(n as nat) {
            lemma_uuid_groups_parse(s, start, n);
        }
    }
}

/// The identifier text is injective: only one value formats to given bytes.
proof fn lemma_uuid_complete(s: Seq<u8>, start: int, n: u128)
    requires
        0 <= start,
        start + 36 <= s.len(),
        s.subrange(start, start + 36) == spec_uuid_bytes(n as nat),
    ensures
        forall|m: u128| s.subrange(start, start + 36) == spec_uuid_bytes(m as nat) ==> m == n,
{
    assert forall|m: u128| s.subrange(start, start + 36) == spec_uuid_bytes(m as nat) implies m == n by {
        lemma_uuid_groups_parse(s, start, m);
        lemma_uuid_groups_parse(s, start, n);
        lemma_uuid_fields_determine(m as nat, n as nat);
    }
}

/// When the bytes are the formatted identifier of a 128-bit value, each
/// group parses back to its field.
proof fn lemma_uuid_groups_parse(s: Seq<u8>, start: int, n: u128)
    requires
        0 <= start,
        start + 36 <= s.len(),
        s.subrange(start, start + 36) == spec_uuid_bytes(n as nat),
    ensures
        spec_hex_parse(s, start, 8) == Some(n as nat / 0x1000000000000000000000000),
        spec_hex_parse(s, start + 9, 4) == Some((n as nat / 0x100000000000000000000) % 0x10000),
        spec_hex_parse(s, start + 14, 4) == Some((n as nat / 0x10000000000000000) % 0x10000),
        spec_hex_parse(s, start + 19, 4) == Some((n as nat / 0x1000000000000) % 0x10000),
        spec_hex_parse(s, start + 24, 12) == Some(n as nat % 0x1000000000000),
{
    lemma_uuid_shape(n as nat);
    let u = spec_uuid_bytes(n as nat);
    assert forall|i: int| 0 <= i < 36 implies s[start + i] == u[i] by {
        assert(s.subrange(start, start + 36)[i] == u[i]);
    }
    assert(pow16(8) == 0x100000000nat && pow16(4) == 0x10000nat && pow16(12) == 0x1000000000000nat) by {
        reveal_with_fuel(pow16, 13);
    };

    let f1 = n as nat / 0x1000000000000000000000000;
    assert(f1 < 0x100000000nat) by (nonlinear_arith)
        requires
            f1 == n as nat / 0x1000000000000000000000000,
            (n as nat) < 0x100000000000000000000000000000000nat;
    assert(s.subrange(start, start + 8) =~= u.subrange(0, 8));
    lemma_hex_round_trip(f1, 8, s, start);

    let f2 = (n as nat / 0x100000000000000000000) % 0x10000;
    assert(s.subrange(start + 9, start + 13) =~= u.subrange(9, 13));
    lemma_hex_round_trip(f2, 4, s, start + 9);

    let f3 = (n as nat / 0x10000000000000000) % 0x10000;
    assert(s.subrange(start + 14, start + 18) =~= u.subrange(14, 18));
    lemma_hex_round_trip(f3, 4, s, start + 14);

    let f4 = (n as nat / 0x1000000000000) % 0x10000;
    assert(s.subrange(start + 19, start + 23) =~= u.subrange(19, 23));
    lemma_hex_round_trip(f4, 4, s, start + 19);

    let f5 = n as nat % 0x1000000000000;
    assert(s.subrange(start + 24, start + 36) =~= u.subrange(24, 36));
    lemma_hex_round_trip(f5, 12, s, start + 24);
}

/// A successful parse is bounded by `16^width`.
proof fn lemma_hex_parse_bound(s: Seq<u8>, start: int, width: nat)
    requires
        spec_hex_parse(s, start, width) is Some,
    ensures
        spec_hex_parse(s, start, width)->Some_0 < pow16(width),
    decreases width,
{
    if width == 0 {
    } else {
        lemma_hex_parse_none_back(s, start, width);
        lemma_hex_parse_bound(s, start, (width - 1) as nat);
        let high = spec_hex_parse(s, start, (width - 1) as nat)->Some_0;
        let d = spec_hex_value_of(s[start + width - 1])->Some_0;
        assert(high * 16 + d < pow16(width)) by (nonlinear_arith)
            requires
                high < pow16((width - 1) as nat),
                d < 16,
                pow16(width) == 16 * pow16((width - 1) as nat),
        ;
    }
}

/// A successful parse means every narrower parse at the same start succeeded.
proof fn lemma_hex_parse_none_back(s: Seq<u8>, start: int, width: nat)
    requires
        width > 0,
        spec_hex_parse(s, start, width) is Some,
    ensures
        spec_hex_parse(s, start, (width - 1) as nat) is Some,
{
}

/// Two 128-bit values with equal identifier fields are equal.
proof fn lemma_uuid_fields_determine(m: nat, n: nat)
    requires
        m < 0x100000000000000000000000000000000,
        n < 0x100000000000000000000000000000000,
        m / 0x1000000000000000000000000 == n / 0x1000000000000000000000000,
        (m / 0x100000000000000000000) % 0x10000 == (n / 0x100000000000000000000) % 0x10000,
        (m / 0x10000000000000000) % 0x10000 == (n / 0x10000000000000000) % 0x10000,
        (m / 0x1000000000000) % 0x10000 == (n / 0x1000000000000) % 0x10000,
        m % 0x1000000000000 == n % 0x1000000000000,
    ensures
        m == n,
{
    lemma_uuid_decompose(m);
    lemma_uuid_decompose(n);
}

/// A 128-bit value is the weighted sum of its five identifier fields.
proof fn lemma_uuid_decompose(n: nat)
    requires
        n < 0x100000000000000000000000000000000,
    ensures
        n == (n / 0x1000000000000000000000000) * 0x1000000000000000000000000
            + ((n / 0x100000000000000000000) % 0x10000) * 0x100000000000000000000
            + ((n / 0x10000000000000000) % 0x10000) * 0x10000000000000000
            + ((n / 0x1000000000000) % 0x10000) * 0x1000000000000
            + n % 0x1000000000000,
{
    let p96 = 0x1000000000000000000000000int;
    let p80 = 0x100000000000000000000int;
    let p64 = 0x10000000000000000int;
    let p48 = 0x1000000000000int;
    let x = n as int;
    let q48 = x / p48;
    let q64 = x / p64;
    let q80 = x / p80;
    let q96 = x / p96;

    vstd::arithmetic::div_mod::lemma_fundamental_div_mod(x, p48);
    assert(x == p48 * q48 + x % p48);

    vstd::arithmetic::div_mod::lemma_div_denominator(x, p48, 0x10000);
    assert(q48 / 0x10000 == q64);
    vstd::arithmetic::div_mod::lemma_fundamental_div_mod(q48, 0x10000);
    assert(q48 == 0x10000 * q64 + q48 % 0x10000);

    vstd::arithmetic::div_mod::lemma_div_denominator(x, p64, 0x10000);
    assert(q64 / 0x10000 == q80);
    vstd::arithmetic::div_mod::lemma_fundamental_div_mod(q64, 0x10000);
    assert(q64 == 0x10000 * q80 + q64 % 0x10000);

    vstd::arithmetic::div_mod::lemma_div_denominator(x, p80, 0x10000);
    assert(q80 / 0x10000 == q96);
    vstd::arithmetic::div_mod::lemma_fundamental_div_mod(q80, 0x10000);
    assert(q80 == 0x10000 * q96 + q80 % 0x10000);

    // x = p48 * q48 + x % p48, unfolded one level at a time.
    assert(p48 * q48 == p48 * (0x10000 * q64) + p48 * (q48 % 0x10000)) by {
        vstd::arithmetic::mul::lemma_mul_is_distributive_add(p48, 0x10000 * q64, q48 % 0x10000);
    };
    assert(p48 * (0x10000 * q64) == p64 * q64) by {
        vstd::arithmetic::mul::lemma_mul_is_associative(p48, 0x10000, q64);
    };
    assert(p64 * q64 == p64 * (0x10000 * q80) + p64 * (q64 % 0x10000)) by {
        vstd::arithmetic::mul::lemma_mul_is_distributive_add(p64, 0x10000 * q80, q64 % 0x10000);
    };
    assert(p64 * (0x10000 * q80) == p80 * q80) by {
        vstd::arithmetic::mul::lemma_mul_is_associative(p64, 0x10000, q80);
    };
    assert(p80 * q80 == p80 * (0x10000 * q96) + p80 * (q80 % 0x10000)) by {
        vstd::arithmetic::mul::lemma_mul_is_distributive_add(p80, 0x10000 * q96, q80 % 0x10000);
    };
    assert(p80 * (0x10000 * q96) == p96 * q96) by {
        vstd::arithmetic::mul::lemma_mul_is_associative(p80, 0x10000, q96);
    };
    assert(x == p96 * q96 + p80 * (q80 % 0x10000) + p64 * (q64 % 0x10000)
        + p48 * (q48 % 0x10000) + x % p48);
    assert(p96 * q96 == q96 * p96) by {
        vstd::arithmetic::mul::lemma_mul_is_commutative(p96, q96);
    };
    assert(p80 * (q80 % 0x10000) == (q80 % 0x10000) * p80) by {
        vstd::arithmetic::mul::lemma_mul_is_commutative(p80, q80 % 0x10000);
    };
    assert(p64 * (q64 % 0x10000) == (q64 % 0x10000) * p64) by {
        vstd::arithmetic::mul::lemma_mul_is_commutative(p64, q64 % 0x10000);
    };
    assert(p48 * (q48 % 0x10000) == (q48 % 0x10000) * p48) by {
        vstd::arithmetic::mul::lemma_mul_is_commutative(p48, q48 % 0x10000);
    };
}

/// The reassembled number formats back to the parsed bytes.
proof fn lemma_uuid_reassemble(s: Seq<u8>, start: int, a: u128, b: u128, c: u128, d: u128, e: u128, n: u128)
    requires
        0 <= start,
        start + 36 <= s.len(),
        a < 0x100000000,
        b < 0x10000,
        c < 0x10000,
        d < 0x10000,
        e < 0x1000000000000,
        spec_hex_parse(s, start, 8) == Some(a as nat),
        spec_hex_parse(s, start + 9, 4) == Some(b as nat),
        spec_hex_parse(s, start + 14, 4) == Some(c as nat),
        spec_hex_parse(s, start + 19, 4) == Some(d as nat),
        spec_hex_parse(s, start + 24, 12) == Some(e as nat),
        s[start + 8] == 45u8,
        s[start + 13] == 45u8,
        s[start + 18] == 45u8,
        s[start + 23] == 45u8,
        n == (((a * 0x10000 + b) * 0x10000 + c) * 0x10000 + d) * 0x1000000000000 + e,
    ensures
        s.subrange(start, start + 36) == spec_uuid_bytes(n as nat),
{
    let p96 = 0x1000000000000000000000000int;
    let p80 = 0x100000000000000000000int;
    let p64 = 0x10000000000000000int;
    let p48 = 0x1000000000000int;
    let q80 = a as int * 0x10000 + b;
    let q64 = q80 * 0x10000 + c;
    let q48 = q64 * 0x10000 + d;
    assert(n == q48 * p48 + e);

    vstd::arithmetic::div_mod::lemma_fundamental_div_mod_converse(n as int, p48, q48, e as int);
    assert(n as nat % 0x1000000000000nat == e);
    vstd::arithmetic::div_mod::lemma_fundamental_div_mod_converse(q48, 0x10000, q64, d as int);
    assert((n as nat / 0x1000000000000nat) % 0x10000nat == d);

    assert(q48 * p48 == q64 * p64 + d as int * p48) by {
        vstd::arithmetic::mul::lemma_mul_is_distributive_add_other_way(p48, q64 * 0x10000, d as int);
        vstd::arithmetic::mul::lemma_mul_is_associative(q64, 0x10000, p48);
    };
    assert(n == q64 * p64 + (d as int * p48 + e));
    vstd::arithmetic::div_mod::lemma_fundamental_div_mod_converse(n as int, p64, q64, d as int * p48 + e);
    vstd::arithmetic::div_mod::lemma_fundamental_div_mod_converse(q64, 0x10000, q80, c as int);
    assert((n as nat / 0x10000000000000000nat) % 0x10000nat == c);

    assert(q64 * p64 == q80 * p80 + c as int * p64) by {
        vstd::arithmetic::mul::lemma_mul_is_distributive_add_other_way(p64, q80 * 0x10000, c as int);
        vstd::arithmetic::mul::lemma_mul_is_associative(q80, 0x10000, p64);
    };
    assert(n == q80 * p80 + (c as int * p64 + d as int * p48 + e));
    vstd::arithmetic::div_mod::lemma_fundamental_div_mod_converse(n as int, p80, q80, c as int * p64 + d as int * p48 + e);
    vstd::arithmetic::div_mod::lemma_fundamental_div_mod_converse(q80, 0x10000, a as int, b as int);
    assert((n as nat / 0x100000000000000000000nat) % 0x10000nat == b);

    assert(q80 * p80 == a as int * p96 + b as int * p80) by {
        vstd::arithmetic::mul::lemma_mul_is_distributive_add_other_way(p80, a as int * 0x10000, b as int);
        vstd::arithmetic::mul::lemma_mul_is_associative(a as int, 0x10000, p80);
    };
    assert(n == a as int * p96 + (b as int * p80 + c as int * p64 + d as int * p48 + e));
    vstd::arithmetic::div_mod::lemma_fundamental_div_mod_converse(n as int, p96, a as int, b as int * p80 + c as int * p64 + d as int * p48 + e);
    assert(n as nat / 0x1000000000000000000000000nat == a);

    lemma_hex_parse_to_fixed(s, start, 8, a as nat);
    lemma_hex_parse_to_fixed(s, start + 9, 4, b as nat);
    lemma_hex_parse_to_fixed(s, start + 14, 4, c as nat);
    lemma_hex_parse_to_fixed(s, start + 19, 4, d as nat);
    lemma_hex_parse_to_fixed(s, start + 24, 12, e as nat);
    lemma_uuid_shape(n as nat);
    assert(s.subrange(start, start + 36) =~= spec_uuid_bytes(n as nat));
}
/// The bytes a successful parse read are the fixed-width formatting of its
/// value.
proof fn lemma_hex_parse_to_fixed(s: Seq<u8>, start: int, width: nat, v: nat)
    requires
        0 <= start,
        start + width <= s.len(),
        spec_hex_parse(s, start, width) == Some(v),
    ensures
        s.subrange(start, start + width) == spec_hex_fixed(v, width),
    decreases width,
{
    if width == 0 {
        assert(s.subrange(start, start) =~= spec_hex_fixed(v, 0));
    } else {
        lemma_hex_parse_none_back(s, start, width);
        let high = spec_hex_parse(s, start, (width - 1) as nat)->Some_0;
        let d = spec_hex_value_of(s[start + width - 1])->Some_0;
        lemma_hex_parse_bound(s, start, (width - 1) as nat);
        assert(v == high * 16 + d);
        assert(v / 16 == high && v % 16 == d) by (nonlinear_arith)
            requires v == high * 16 + d, 0 <= d < 16;
        lemma_hex_parse_to_fixed(s, start, (width - 1) as nat, high);
        assert(spec_hex_digit(d) == s[start + width - 1]) by {
            let bb = s[start + width - 1];
            assert(spec_hex_value_of(bb) == Some(d));
        };
        assert(s.subrange(start, start + width)
            =~= spec_hex_fixed(high, (width - 1) as nat).push(spec_hex_digit(d)));
    }
}


/// The identifier text is injective over 128-bit values.
pub proof fn lemma_uuid_text_injective(m: u128, n: u128)
    requires
        spec_uuid_bytes(m as nat) == spec_uuid_bytes(n as nat),
    ensures
        m == n,
{
    let s = spec_uuid_bytes(n as nat);
    lemma_uuid_shape(n as nat);
    assert(s.subrange(0, 36) =~= s);
    lemma_uuid_groups_parse(s, 0, m);
    lemma_uuid_groups_parse(s, 0, n);
    lemma_uuid_fields_determine(m as nat, n as nat);
}

/// Relies on String::from_utf8: bytes below 128 decode to exactly those
/// characters. Inputs are required ASCII, so decoding cannot fail.
#[verifier::external_body]
pub fn ascii_to_string(v: Vec<u8>) -> (r: String)
    requires
        forall|i: int| 0 <= i < v@.len() ==> v@[i] < 128,
    ensures
        r@ == v@.map_values(|b: u8| b as char),
{
    match String::from_utf8(v) {
        Ok(s) => s,
        Err(_) => String::new(),
    }
}


/// Relies on String::from_utf8: it succeeds exactly on valid UTF-8 and the
/// returned string's encoding is the input bytes.
#[verifier::external_body]
pub fn utf8_to_string(v: Vec<u8>) -> (r: Option<String>)
    ensures
        r matches Some(s) ==> vstd::utf8::encode_utf8(s@) == v@,
        vstd::utf8::valid_utf8(v@) ==> r is Some,
{
    match String::from_utf8(v) {
        Ok(s) => Some(s),
        Err(_) => None,
    }
}

} // verus!
