use vstd::prelude::*;

use crate::civil;
use crate::cost::UsageInfo;
use crate::text;
use crate::tier::ServiceTier;

verus! {

/// Result of a quota check: the month's counter against the tier's budget.
/// A pure read; checking never consumes quota.
#[derive(Debug, Clone, PartialEq, Eq, Structural)]
pub struct QuotaStatus {
    pub service_id: u128,
    pub consumer_id: u128,
    pub tier: ServiceTier,
    pub used_tokens: i64,
    pub total_tokens: i64,
    pub remaining_tokens: i64,
    pub reset_at: u64,
    pub exceeded: bool,
}

/// One monthly counter: consumer, service, month index, tokens used.
pub type QuotaEntry = (u128, u128, u64, i64);

/// Tokens recorded for `(consumer, service)` in month `k`, scanning from
/// position `i`: the first matching entry, or `None`.
pub open spec fn spec_quota_lookup_from(s: Seq<QuotaEntry>, i: int, c: u128, sv: u128, k: u64) -> Option<i64>
    decreases s.len() - i,
{
    if i < 0 || i >= s.len() {
        None
    } else if s[i].0 == c && s[i].1 == sv && s[i].2 == k {
        Some(s[i].3)
    } else {
        spec_quota_lookup_from(s, i + 1, c, sv, k)
    }
}

/// Tokens recorded for `(consumer, service)` in month `k`, zero when no
/// entry exists.
pub open spec fn spec_used(s: Seq<QuotaEntry>, c: u128, sv: u128, k: u64) -> i64 {
    match spec_quota_lookup_from(s, 0, c, sv, k) {
        Some(v) => v,
        None => 0,
    }
}

/// The monthly usage counters for every consumer and service pair, keyed by
/// calendar month. Mirrors the authoritative cache: the first increment of
/// a month creates the counter, and the month key makes rollover implicit.
#[derive(Debug, Clone, PartialEq, Eq)]
pub struct QuotaManager {
    pub counters: Vec<QuotaEntry>,
}

impl QuotaManager {
    /// Counters are non-negative and keys unique.
    pub open spec fn wf(self) -> bool {
        &&& forall|i: int| 0 <= i < self.counters@.len() ==> #[trigger] self.counters@[i].3 >= 0
        &&& forall|i: int, j: int| 0 <= i < j < self.counters@.len()
            ==> !(#[trigger] self.counters@[i].0 == #[trigger] self.counters@[j].0
                && self.counters@[i].1 == self.counters@[j].1
                && self.counters@[i].2 == self.counters@[j].2)
    }

    /// An empty set of counters.
    pub fn new() -> (r: Self)
        ensures
            r.wf(),
            r.counters@.len() == 0,
    {
        QuotaManager { counters: Vec::new() }
    }

    /// Index of the counter for `(c, sv, k)`, if one exists.
    fn find(&self, c: u128, sv: u128, k: u64) -> (r: Option<usize>)
        ensures
            r matches Some(i) ==> {
                &&& i < self.counters@.len()
                &&& self.counters@[i as int].0 == c && self.counters@[i as int].1 == sv
                    && self.counters@[i as int].2 == k
                &&& spec_quota_lookup_from(self.counters@, 0, c, sv, k) == Some(self.counters@[i as int].3)
                &&& forall|j: int| 0 <= j < i ==> !(#[trigger] self.counters@[j].0 == c
                    && self.counters@[j].1 == sv && self.counters@[j].2 == k)
            },
            r is None ==> spec_quota_lookup_from(self.counters@, 0, c, sv, k) is None
                && (forall|j: int| 0 <= j < self.counters@.len()
                    ==> !(#[trigger] self.counters@[j].0 == c
                        && self.counters@[j].1 == sv && self.counters@[j].2 == k)),
    {
        let mut i: usize = 0;
        while i < self.counters.len()
            invariant
                i <= self.counters@.len(),
                spec_quota_lookup_from(self.counters@, 0, c, sv, k)
                    == spec_quota_lookup_from(self.counters@, i as int, c, sv, k),
                forall|j: int| 0 <= j < i ==> !(#[trigger] self.counters@[j].0 == c
                    && self.counters@[j].1 == sv && self.counters@[j].2 == k),
            decreases self.counters@.len() - i,
        {
            let e = &self.counters[i];
            if e.0 == c && e.1 == sv && e.2 == k {
                return Some(i);
            }
            i = i + 1;
        }
        None
    }

    /// Tokens used by `(consumer, service)` in month `k`: the counter, or
    /// zero when none exists yet.
    pub fn used_tokens(&self, consumer_id: u128, service_id: u128, k: u64) -> (r: i64)
        ensures
            r == spec_used(self.counters@, consumer_id, service_id, k),
    {
        match self.find(consumer_id, service_id, k) {
            Some(i) => self.counters[i].3,
            None => 0,
        }
    }

    /// Whether quota is available for the current month: a pure read of the
    /// month's counter against the tier's budget. `remaining` may be
    /// negative after an overrun; `exceeded` holds exactly when nothing
    /// remains. `reset_at` is the first instant of the next calendar month.
    pub fn check_quota(&self, consumer_id: u128, service_id: u128, tier: &ServiceTier, now: u64) -> (r: QuotaStatus)
        requires
            self.wf(),
            now <= civil::MAX_CALENDAR_EPOCH,
        ensures
            ({
                let used = spec_used(self.counters@, consumer_id, service_id, civil::spec_month_of(now) as u64);
                &&& r.consumer_id == consumer_id
                &&& r.service_id == service_id
                &&& r.tier == *tier
                &&& r.used_tokens == used
                &&& r.total_tokens == tier.spec_quota_limit()
                &&& r.remaining_tokens == tier.spec_quota_limit() - used
                &&& r.exceeded == (r.remaining_tokens <= 0)
                &&& r.reset_at == civil::spec_month_start_days(civil::spec_month_of(now) + 1) * 86400
            }),
    {
        let (k, _y, _m) = civil::month_of_epoch(now);
        let used: i64 = self.used_tokens(consumer_id, service_id, k);
        proof {
            lemma_used_nonneg(self.counters@, consumer_id, service_id, k);
        }
        let total: i64 = tier.quota_limit();
        let remaining: i64 = total - used;
        QuotaStatus {
            service_id,
            consumer_id,
            tier: *tier,
            used_tokens: used,
            total_tokens: total,
            remaining_tokens: remaining,
            reset_at: civil::quota_reset_epoch(now),
            exceeded: remaining <= 0,
        }
    }

    /// Add the request's total tokens to the current month's counter,
    /// creating the counter at the month key when it is the month's first
    /// increment. Counters of other keys are untouched.
    pub fn update_quota(&mut self, consumer_id: u128, service_id: u128, usage: &UsageInfo, now: u64)
        requires
            old(self).wf(),
            now <= civil::MAX_CALENDAR_EPOCH,
            spec_used(old(self).counters@, consumer_id, service_id, civil::spec_month_of(now) as u64)
                <= i64::MAX - u32::MAX,
        ensures
            final(self).wf(),
            ({
                let k = civil::spec_month_of(now) as u64;
                &&& spec_used(final(self).counters@, consumer_id, service_id, k)
                    == spec_used(old(self).counters@, consumer_id, service_id, k) + usage.total_tokens
                &&& forall|c2: u128, s2: u128, k2: u64| !(c2 == consumer_id && s2 == service_id && k2 == k)
                    ==> spec_used(final(self).counters@, c2, s2, k2)
                        == spec_used(old(self).counters@, c2, s2, k2)
            }),
    {
        let (k, _y, _m) = civil::month_of_epoch(now);
        let delta: i64 = usage.total_tokens as i64;
        match self.find(consumer_id, service_id, k) {
            Some(i) => {
                proof {
                    lemma_used_nonneg(self.counters@, consumer_id, service_id, k);
                }
                let e = (consumer_id, service_id, k, self.counters[i].3 + delta);
                let ghost before = self.counters@;
                self.counters[i] = e;
                proof {
                    lemma_lookup_after_update(before, i as int, e);
                    let na = self.counters@;
                    assert forall|j: int| 0 <= j < na.len() implies #[trigger] na[j].3 >= 0 by {
                        if j != i { assert(na[j] == before[j]); }
                    }
                    assert forall|i2: int, j2: int| 0 <= i2 < j2 < na.len() implies
                        !(#[trigger] na[i2].0 == #[trigger] na[j2].0
                            && na[i2].1 == na[j2].1 && na[i2].2 == na[j2].2) by {
                        assert(na[i2].0 == before[i2].0 && na[i2].1 == before[i2].1
                            && na[i2].2 == before[i2].2);
                        assert(na[j2].0 == before[j2].0 && na[j2].1 == before[j2].1
                            && na[j2].2 == before[j2].2);
                    }
                }
            },
            None => {
                let ghost before = self.counters@;
                let e = (consumer_id, service_id, k, delta);
                self.counters.push(e);
                proof {
                    lemma_lookup_after_push(before, e);
                    let na = self.counters@;
                    assert forall|j: int| 0 <= j < na.len() implies #[trigger] na[j].3 >= 0 by {
                        if j < before.len() { assert(na[j] == before[j]); }
                    }
                    assert forall|i2: int, j2: int| 0 <= i2 < j2 < na.len() implies
                        !(#[trigger] na[i2].0 == #[trigger] na[j2].0
                            && na[i2].1 == na[j2].1 && na[i2].2 == na[j2].2) by {
                        if j2 < before.len() {
                            assert(na[i2] == before[i2] && na[j2] == before[j2]);
                        } else {
                            assert(na[i2] == before[i2] && na[j2] == e);
                        }
                    }
                }
            },
        }
    }

    /// Drop the current month's counter for `(consumer, service)`: its used
    /// tokens read zero afterwards. Counters of other keys are untouched.
    pub fn reset_quota(&mut self, consumer_id: u128, service_id: u128, now: u64)
        requires
            old(self).wf(),
            now <= civil::MAX_CALENDAR_EPOCH,
        ensures
            final(self).wf(),
            ({
                let k = civil::spec_month_of(now) as u64;
                &&& spec_used(final(self).counters@, consumer_id, service_id, k) == 0
                &&& forall|c2: u128, s2: u128, k2: u64| !(c2 == consumer_id && s2 == service_id && k2 == k)
                    ==> spec_used(final(self).counters@, c2, s2, k2)
                        == spec_used(old(self).counters@, c2, s2, k2)
            }),
    {
        let (k, _y, _m) = civil::month_of_epoch(now);
        match self.find(consumer_id, service_id, k) {
            Some(i) => {
                let e = (consumer_id, service_id, k, 0i64);
                let ghost before = self.counters@;
                self.counters[i] = e;
                proof {
                    lemma_lookup_after_update(before, i as int, e);
                    let na = self.counters@;
                    assert forall|j: int| 0 <= j < na.len() implies #[trigger] na[j].3 >= 0 by {
                        if j != i { assert(na[j] == before[j]); }
                    }
                    assert forall|i2: int, j2: int| 0 <= i2 < j2 < na.len() implies
                        !(#[trigger] na[i2].0 == #[trigger] na[j2].0
                            && na[i2].1 == na[j2].1 && na[i2].2 == na[j2].2) by {
                        assert(na[i2].0 == before[i2].0 && na[i2].1 == before[i2].1
                            && na[i2].2 == before[i2].2);
                        assert(na[j2].0 == before[j2].0 && na[j2].1 == before[j2].1
                            && na[j2].2 == before[j2].2);
                    }
                }
            },
            None => {},
        }
    }
}

/// A stored counter is non-negative when the store is well formed.
proof fn lemma_used_nonneg(s: Seq<QuotaEntry>, c: u128, sv: u128, k: u64)
    requires
        forall|i: int| 0 <= i < s.len() ==> #[trigger] s[i].3 >= 0,
    ensures
        spec_used(s, c, sv, k) >= 0,
{
    lemma_lookup_from_nonneg(s, 0, c, sv, k);
}

proof fn lemma_lookup_from_nonneg(s: Seq<QuotaEntry>, i: int, c: u128, sv: u128, k: u64)
    requires
        forall|j: int| 0 <= j < s.len() ==> #[trigger] s[j].3 >= 0,
    ensures
        spec_quota_lookup_from(s, i, c, sv, k) matches Some(v) ==> v >= 0,
    decreases s.len() - i,
{
    if 0 <= i < s.len() {
        lemma_lookup_from_nonneg(s, i + 1, c, sv, k);
    }
}

/// Replacing the first matching entry changes exactly that key's counter.
proof fn lemma_lookup_after_update(s: Seq<QuotaEntry>, i: int, e: QuotaEntry)
    requires
        0 <= i < s.len(),
        s[i].0 == e.0 && s[i].1 == e.1 && s[i].2 == e.2,
    ensures
        forall|c: u128, sv: u128, k: u64|
            #[trigger] spec_quota_lookup_from(s.update(i, e), 0, c, sv, k)
                == if c == e.0 && sv == e.1 && k == e.2 && (forall|j: int| 0 <= j < i
                        ==> !(#[trigger] s[j].0 == c && s[j].1 == sv && s[j].2 == k)) {
                    Some(e.3)
                } else {
                    spec_quota_lookup_from(s, 0, c, sv, k)
                },
{
    assert forall|c: u128, sv: u128, k: u64| true implies
        #[trigger] spec_quota_lookup_from(s.update(i, e), 0, c, sv, k)
            == if c == e.0 && sv == e.1 && k == e.2 && (forall|j: int| 0 <= j < i
                    ==> !(#[trigger] s[j].0 == c && s[j].1 == sv && s[j].2 == k)) {
                Some(e.3)
            } else {
                spec_quota_lookup_from(s, 0, c, sv, k)
            } by {
        lemma_lookup_after_update_one(s, i, e, c, sv, k, 0);
    }
}

proof fn lemma_lookup_after_update_one(s: Seq<QuotaEntry>, i: int, e: QuotaEntry, c: u128, sv: u128, k: u64, p: int)
    requires
        0 <= i < s.len(),
        0 <= p <= s.len(),
        s[i].0 == e.0 && s[i].1 == e.1 && s[i].2 == e.2,
    ensures
        spec_quota_lookup_from(s.update(i, e), p, c, sv, k)
            == if c == e.0 && sv == e.1 && k == e.2 && p <= i && (forall|j: int| p <= j < i
                    ==> !(#[trigger] s[j].0 == c && s[j].1 == sv && s[j].2 == k)) {
                Some(e.3)
            } else {
                spec_quota_lookup_from(s, p, c, sv, k)
            },
    decreases s.len() - p,
{
    if p < s.len() {
        lemma_lookup_after_update_one(s, i, e, c, sv, k, p + 1);
    }
}

/// Appending an entry with a fresh key changes exactly that key's counter.
proof fn lemma_lookup_after_push(s: Seq<QuotaEntry>, e: QuotaEntry)
    ensures
        forall|c: u128, sv: u128, k: u64|
            #[trigger] spec_quota_lookup_from(s.push(e), 0, c, sv, k)
                == if spec_quota_lookup_from(s, 0, c, sv, k) is Some {
                    spec_quota_lookup_from(s, 0, c, sv, k)
                } else if c == e.0 && sv == e.1 && k == e.2 {
                    Some(e.3)
                } else {
                    None
                },
{
    assert forall|c: u128, sv: u128, k: u64| true implies
        #[trigger] spec_quota_lookup_from(s.push(e), 0, c, sv, k)
            == if spec_quota_lookup_from(s, 0, c, sv, k) is Some {
                spec_quota_lookup_from(s, 0, c, sv, k)
            } else if c == e.0 && sv == e.1 && k == e.2 {
                Some(e.3)
            } else {
                None
            } by {
        lemma_lookup_after_push_one(s, e, c, sv, k, 0);
    }
}

proof fn lemma_lookup_after_push_one(s: Seq<QuotaEntry>, e: QuotaEntry, c: u128, sv: u128, k: u64, p: int)
    requires
        0 <= p <= s.len(),
    ensures
        spec_quota_lookup_from(s.push(e), p, c, sv, k)
            == if spec_quota_lookup_from(s, p, c, sv, k) is Some {
                spec_quota_lookup_from(s, p, c, sv, k)
            } else if c == e.0 && sv == e.1 && k == e.2 {
                Some(e.3)
            } else {
                None
            },
    decreases s.len() - p,
{
    if p < s.len() {
        lemma_lookup_after_push_one(s, e, c, sv, k, p + 1);
    } else {
        let t = s.push(e);
        assert(t.len() == s.len() + 1);
        assert(t[p] == e);
        assert(spec_quota_lookup_from(s, p, c, sv, k) is None);
        if c == e.0 && sv == e.1 && k == e.2 {
            assert(spec_quota_lookup_from(t, p, c, sv, k) == Some(e.3));
        } else {
            assert(spec_quota_lookup_from(t, p, c, sv, k)
                == spec_quota_lookup_from(t, p + 1, c, sv, k));
            assert(spec_quota_lookup_from(t, p + 1, c, sv, k) is None);
        }
    }
}

/// The cache key of a monthly counter: `quota:` followed by the two
/// hyphenated identifiers, colon-separated.
pub open spec fn spec_quota_key_bytes(c: nat, sv: nat) -> Seq<u8> {
    seq![113u8, 117u8, 111u8, 116u8, 97u8, 58u8]
        + text::spec_uuid_bytes(c)
        + seq![58u8]
        + text::spec_uuid_bytes(sv)
}

/// Build the cache key `quota:<consumer>:<service>`.
pub fn quota_key(consumer_id: u128, service_id: u128) -> (r: String)
    ensures
        r@ == spec_quota_key_bytes(consumer_id as nat, service_id as nat).map_values(|b: u8| b as char),
        r@.len() == 79,
{
    let mut out: Vec<u8> = Vec::new();
    out.push(113);
    out.push(117);
    out.push(111);
    out.push(116);
    out.push(97);
    out.push(58);
    text::push_uuid(&mut out, consumer_id);
    out.push(58);
    text::push_uuid(&mut out, service_id);
    proof {
        assert(out@ =~= spec_quota_key_bytes(consumer_id as nat, service_id as nat));
        lemma_quota_key_ascii(consumer_id as nat, service_id as nat);
    }
    text::ascii_to_string(out)
}

/// Every byte of a quota key is ASCII.
proof fn lemma_quota_key_ascii(c: nat, sv: nat)
    ensures
        forall|i: int| 0 <= i < spec_quota_key_bytes(c, sv).len()
            ==> #[trigger] spec_quota_key_bytes(c, sv)[i] < 128,
{
    lemma_uuid_bytes_ascii(c);
    lemma_uuid_bytes_ascii(sv);
    assert forall|i: int| 0 <= i < spec_quota_key_bytes(c, sv).len()
        implies #[trigger] spec_quota_key_bytes(c, sv)[i] < 128 by {
        let s = spec_quota_key_bytes(c, sv);
        if 6 <= i < 42 {
            assert(s[i] == text::spec_uuid_bytes(c)[i - 6]);
        } else if 43 <= i < 79 {
            assert(s[i] == text::spec_uuid_bytes(sv)[i - 43]);
        }
    }
}

/// Every byte of a formatted identifier is ASCII.
proof fn lemma_uuid_bytes_ascii(n: nat)
    ensures
        text::spec_uuid_bytes(n).len() == 36,
        forall|i: int| 0 <= i < 36 ==> #[trigger] text::spec_uuid_bytes(n)[i] < 128,
{
    lemma_hex_fixed_ascii(n / 0x1000000000000000000000000, 8);
    lemma_hex_fixed_ascii((n / 0x100000000000000000000) % 0x10000, 4);
    lemma_hex_fixed_ascii((n / 0x10000000000000000) % 0x10000, 4);
    lemma_hex_fixed_ascii((n / 0x1000000000000) % 0x10000, 4);
    lemma_hex_fixed_ascii(n % 0x1000000000000, 12);
}

proof fn lemma_hex_fixed_ascii(n: nat, width: nat)
    ensures
        text::spec_hex_fixed(n, width).len() == width,
        forall|i: int| 0 <= i < width ==> #[trigger] text::spec_hex_fixed(n, width)[i] < 128,
    decreases width,
{
    if width > 0 {
        lemma_hex_fixed_ascii(n / 16, (width - 1) as nat);
    }
}

/// The canonical key has 79 bytes.
proof fn lemma_quota_key_len(c: nat, sv: nat)
    ensures
        spec_quota_key_bytes(c, sv).len() == 79,
{
    lemma_uuid_bytes_ascii(c);
    lemma_uuid_bytes_ascii(sv);
}

/// Byte layout of the canonical key: the fixed prefix and separators, and
/// the two identifier fields.
proof fn lemma_quota_key_layout(c: nat, sv: nat)
    ensures
        spec_quota_key_bytes(c, sv).len() == 79,
        spec_quota_key_bytes(c, sv)[0] == 113u8,
        spec_quota_key_bytes(c, sv)[1] == 117u8,
        spec_quota_key_bytes(c, sv)[2] == 111u8,
        spec_quota_key_bytes(c, sv)[3] == 116u8,
        spec_quota_key_bytes(c, sv)[4] == 97u8,
        spec_quota_key_bytes(c, sv)[5] == 58u8,
        spec_quota_key_bytes(c, sv)[42] == 58u8,
        spec_quota_key_bytes(c, sv).subrange(6, 42) == text::spec_uuid_bytes(c),
        spec_quota_key_bytes(c, sv).subrange(43, 79) == text::spec_uuid_bytes(sv),
{
    lemma_uuid_bytes_ascii(c);
    lemma_uuid_bytes_ascii(sv);
    assert(spec_quota_key_bytes(c, sv).subrange(6, 42) =~= text::spec_uuid_bytes(c));
    assert(spec_quota_key_bytes(c, sv).subrange(43, 79) =~= text::spec_uuid_bytes(sv));
}

/// The characters of a canonical key are ASCII, and mapping them back to
/// bytes recovers the canonical key.
proof fn lemma_quota_key_chars(c: u128, sv: u128)
    ensures
        vstd::utf8::is_ascii_chars(spec_quota_key_bytes(c as nat, sv as nat).map_values(|b: u8| b as char)),
        spec_quota_key_bytes(c as nat, sv as nat).map_values(|b: u8| b as char).map_values(|ch: char| ch as u8)
            == spec_quota_key_bytes(c as nat, sv as nat),
        spec_quota_key_bytes(c as nat, sv as nat).map_values(|b: u8| b as char).len() == 79,
{
    lemma_quota_key_ascii(c as nat, sv as nat);
    lemma_quota_key_len(c as nat, sv as nat);
    let kb = spec_quota_key_bytes(c as nat, sv as nat);
    let chars = kb.map_values(|b: u8| b as char);
    assert forall|i: int| 0 <= i < chars.len() implies '\0' <= #[trigger] chars[i] <= '\u{7f}' by {
        assert(kb[i] < 128);
    }
    assert(chars.map_values(|ch: char| ch as u8) =~= kb);
}

/// Read a consumer and service identifier back out of a cache key written
/// by `quota_key`; `None` for any other string. Keys written by `quota_key`
/// always parse back to the pair they were built from.
pub fn parse_quota_key(key: &str) -> (r: Option<(u128, u128)>)
    ensures
        r matches Some((c, sv)) ==> key@.map_values(|ch: char| ch as u8)
            == spec_quota_key_bytes(c as nat, sv as nat),
        forall|c: u128, sv: u128|
            key@ == spec_quota_key_bytes(c as nat, sv as nat).map_values(|b: u8| b as char)
            ==> r == Some((c, sv)),
{
    let len: usize = key.unicode_len();
    if len != 79 || !key.is_ascii() {
        proof {
            assert forall|c2: u128, sv2: u128|
                key@ != spec_quota_key_bytes(c2 as nat, sv2 as nat).map_values(|bb: u8| bb as char) by {
                lemma_quota_key_chars(c2, sv2);
            }
        }
        return None;
    }
    let b: Vec<u8> = key.as_bytes_vec();
    proof {
        vstd::string::is_ascii_spec_bytes(key);
        assert(b@ =~= key@.map_values(|ch: char| ch as u8));
    }
    if !(b[0] == 113 && b[1] == 117 && b[2] == 111 && b[3] == 116 && b[4] == 97 && b[5] == 58
        && b[42] == 58) {
        proof {
            assert forall|c2: u128, sv2: u128|
                key@ != spec_quota_key_bytes(c2 as nat, sv2 as nat).map_values(|bb: u8| bb as char) by {
                lemma_quota_key_chars(c2, sv2);
                lemma_quota_key_layout(c2 as nat, sv2 as nat);
                if key@ == spec_quota_key_bytes(c2 as nat, sv2 as nat).map_values(|bb: u8| bb as char) {
                    assert(b@ == spec_quota_key_bytes(c2 as nat, sv2 as nat));
                }
            }
        }
        return None;
    }
    let oc = text::parse_uuid(b.as_slice(), 6);
    let osv = text::parse_uuid(b.as_slice(), 43);
    let c = match oc {
        Some(v) => v,
        None => {
            proof {
                assert forall|c2: u128, sv2: u128|
                    key@ != spec_quota_key_bytes(c2 as nat, sv2 as nat).map_values(|bb: u8| bb as char) by {
                    lemma_quota_key_chars(c2, sv2);
                    lemma_quota_key_layout(c2 as nat, sv2 as nat);
                    if key@ == spec_quota_key_bytes(c2 as nat, sv2 as nat).map_values(|bb: u8| bb as char) {
                        assert(b@ == spec_quota_key_bytes(c2 as nat, sv2 as nat));
                        assert(b@.subrange(6, 42) =~= text::spec_uuid_bytes(c2 as nat));
                    }
                }
            }
            return None;
        },
    };
    let sv = match osv {
        Some(v) => v,
        None => {
            proof {
                assert forall|c2: u128, sv2: u128|
                    key@ != spec_quota_key_bytes(c2 as nat, sv2 as nat).map_values(|bb: u8| bb as char) by {
                    lemma_quota_key_chars(c2, sv2);
                    lemma_quota_key_layout(c2 as nat, sv2 as nat);
                    if key@ == spec_quota_key_bytes(c2 as nat, sv2 as nat).map_values(|bb: u8| bb as char) {
                        assert(b@ == spec_quota_key_bytes(c2 as nat, sv2 as nat));
                        assert(b@.subrange(43, 79) =~= text::spec_uuid_bytes(sv2 as nat));
                    }
                }
            }
            return None;
        },
    };
    proof {
        lemma_uuid_bytes_ascii(c as nat);
        lemma_uuid_bytes_ascii(sv as nat);
        assert(b@ =~= spec_quota_key_bytes(c as nat, sv as nat)) by {
            assert(b@.subrange(6, 42) == text::spec_uuid_bytes(c as nat));
            assert(b@.subrange(43, 79) == text::spec_uuid_bytes(sv as nat));
            assert forall|i: int| 0 <= i < 79 implies
                b@[i] == spec_quota_key_bytes(c as nat, sv as nat)[i] by {
                if 6 <= i < 42 {
                    assert(b@[i] == b@.subrange(6, 42)[i - 6]);
                } else if 43 <= i < 79 {
                    assert(b@[i] == b@.subrange(43, 79)[i - 43]);
                }
            }
        };
        assert forall|c2: u128, sv2: u128|
            key@ == spec_quota_key_bytes(c2 as nat, sv2 as nat).map_values(|bb: u8| bb as char)
            implies c2 == c && sv2 == sv by {
            lemma_quota_key_chars(c2, sv2);
            lemma_quota_key_layout(c2 as nat, sv2 as nat);
            if key@ == spec_quota_key_bytes(c2 as nat, sv2 as nat).map_values(|bb: u8| bb as char) {
                assert(b@ == spec_quota_key_bytes(c2 as nat, sv2 as nat));
                let k1 = spec_quota_key_bytes(c as nat, sv as nat);
                let k2 = spec_quota_key_bytes(c2 as nat, sv2 as nat);
                assert(text::spec_uuid_bytes(c as nat) =~= text::spec_uuid_bytes(c2 as nat)) by {
                    assert forall|i: int| 0 <= i < 36 implies
                        text::spec_uuid_bytes(c as nat)[i] == text::spec_uuid_bytes(c2 as nat)[i] by {
                        assert(k1[6 + i] == text::spec_uuid_bytes(c as nat)[i]);
                        assert(k2[6 + i] == text::spec_uuid_bytes(c2 as nat)[i]);
                    }
                };
                assert(text::spec_uuid_bytes(sv as nat) =~= text::spec_uuid_bytes(sv2 as nat)) by {
                    assert forall|i: int| 0 <= i < 36 implies
                        text::spec_uuid_bytes(sv as nat)[i] == text::spec_uuid_bytes(sv2 as nat)[i] by {
                        assert(k1[43 + i] == text::spec_uuid_bytes(sv as nat)[i]);
                        assert(k2[43 + i] == text::spec_uuid_bytes(sv2 as nat)[i]);
                    }
                };
                text::lemma_uuid_text_injective(c, c2);
                text::lemma_uuid_text_injective(sv, sv2);
            }
        }
    }
    Some((c, sv))
}

/// One gated consumption against a monthly counter: when the counter has
/// reached the limit the request is rejected and nothing is added;
/// otherwise the tokens are added after the fact.
pub open spec fn spec_consume(used: int, limit: int, delta: int) -> (int, bool) {
    if used >= limit {
        (used, false)
    } else {
        (used + delta, true)
    }
}

/// The counter after a sequence of gated consumptions.
pub open spec fn spec_consume_all(used: int, limit: int, deltas: Seq<int>) -> int
    decreases deltas.len(),
{
    if deltas.len() == 0 {
        used
    } else {
        spec_consume_all(spec_consume(used, limit, deltas[0]).0, limit, deltas.skip(1))
    }
}

/// Monthly quota overrun is bounded by one request: when every update is
/// gated on a check that the counter is below the limit, the counter —
/// the sum of all accepted requests' tokens when it starts at zero — never
/// passes `limit` by more than the largest single request.
pub proof fn lemma_quota_overrun_bound(used: int, limit: int, deltas: Seq<int>, dmax: int)
    requires
        0 <= dmax,
        used <= limit + dmax,
        forall|i: int| 0 <= i < deltas.len() ==> 0 <= #[trigger] deltas[i] <= dmax,
    ensures
        spec_consume_all(used, limit, deltas) <= limit + dmax,
    decreases deltas.len(),
{
    if deltas.len() > 0 {
        let (used1, _allowed) = spec_consume(used, limit, deltas[0]);
        lemma_quota_overrun_bound(used1, limit, deltas.skip(1), dmax);
    }
}

/// Quota resets at the month boundary: from the first second at or past the
/// reset instant, the counter key belongs to a strictly later month, and a
/// store whose entries all carry months up to the old one reads zero there.
pub proof fn lemma_quota_rolls_over_to_zero(
    entries: Seq<QuotaEntry>,
    c: u128,
    sv: u128,
    now: u64,
    reset: u64,
    t2: u64,
    k2: nat,
)
    requires
        civil::spec_in_month(now, civil::spec_month_of(now)),
        reset == civil::spec_month_start_days(civil::spec_month_of(now) + 1) * 86400,
        t2 >= reset,
        civil::spec_in_month(t2, k2),
        forall|i: int| 0 <= i < entries.len()
            ==> #[trigger] entries[i].2 <= civil::spec_month_of(now) as u64,
        civil::spec_month_of(now) < 104747,
    ensures
        k2 > civil::spec_month_of(now),
        spec_used(entries, c, sv, k2 as u64) == 0,
{
    let k = civil::spec_month_of(now);
    civil::lemma_reset_starts_new_month(now, k, reset, t2, k2);
    civil::lemma_month_start_low_bound(k2);
    assert(28 * k2 <= civil::spec_month_start_days(k2));
    assert(k2 <= u64::MAX) by {
        assert(civil::spec_month_start_days(k2) <= t2 as nat / 86400);
    };
    lemma_lookup_none_when_month_absent(entries, 0, c, sv, k2 as u64, k as u64);
}

proof fn lemma_lookup_none_when_month_absent(s: Seq<QuotaEntry>, p: int, c: u128, sv: u128, k2: u64, k: u64)
    requires
        0 <= p <= s.len(),
        k2 > k,
        forall|i: int| 0 <= i < s.len() ==> #[trigger] s[i].2 <= k,
    ensures
        spec_quota_lookup_from(s, p, c, sv, k2) is None,
    decreases s.len() - p,
{
    if p < s.len() {
        lemma_lookup_none_when_month_absent(s, p + 1, c, sv, k2, k);
    }
}

} // verus!
