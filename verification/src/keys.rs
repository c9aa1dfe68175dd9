use vstd::prelude::*;
use vstd::string::StringSliceAdditionalSpecFns;

use crate::config::{lower_bytes, spec_lowered};
use crate::text;
use crate::tier::ServiceTier;

use argon2::PasswordHasher;
use argon2::PasswordVerifier;

verus! {

/// A stored API key record. The plaintext is never stored: `key_hash` is
/// its argon2 PHC string, and `lookup` the plaintext's first 19 characters,
/// kept so that validation is indexed instead of scanning every hash.
#[derive(Debug, Clone, PartialEq, Eq)]
pub struct ApiKey {
    pub id: u128,
    pub key_hash: String,
    pub lookup: String,
    pub consumer_id: u128,
    pub service_id: u128,
    pub tier: ServiceTier,
    pub created_at: u64,
    pub expires_at: Option<u64>,
    pub revoked_at: Option<u64>,
}

/// Request to create a key: the service it is for (hyphenated identifier
/// text), the tier, and an optional lifetime in days.
#[derive(Debug, Clone, PartialEq, Eq)]
pub struct CreateApiKeyRequest {
    pub service_id: String,
    pub tier: ServiceTier,
    pub expires_in_days: Option<i64>,
}

/// Response to key creation: the one time the plaintext is returned.
#[derive(Debug, Clone, PartialEq, Eq)]
pub struct ApiKeyResponse {
    pub id: u128,
    pub key: String,
    pub service_id: u128,
    pub tier: ServiceTier,
    pub created_at: u64,
    pub expires_at: Option<u64>,
}

/// Failures of the key manager.
#[derive(Debug, Clone, Copy, PartialEq, Eq, Structural)]
pub enum KeyError {
    /// The request's service identifier is not hyphenated identifier text.
    InvalidServiceId,
    /// A record with this id already exists.
    DuplicateId,
    /// The hashing backend failed.
    HashFailed,
    /// No record matches the presented key.
    UnknownKey,
    /// A record matches, but it is expired or revoked.
    ExpiredOrRevoked,
    /// No record with this id belongs to the consumer, or it was already
    /// revoked.
    NotRevocable,
}

impl ApiKey {
    /// A key authorizes requests at `now` exactly when it was never revoked
    /// and has not expired.
    pub open spec fn spec_is_valid(self, now: u64) -> bool {
        self.revoked_at is None && (self.expires_at is None || self.expires_at->Some_0 > now)
    }

    /// Whether this key is valid at `now`.
    pub fn is_valid(&self, now: u64) -> (r: bool)
        ensures
            r == self.spec_is_valid(now),
    {
        if self.revoked_at.is_some() {
            return false;
        }
        match self.expires_at {
            Some(t) => t > now,
            None => true,
        }
    }

    /// The tier this key was issued under.
    pub fn get_tier(&self) -> (r: ServiceTier)
        ensures
            r == self.tier,
    {
        self.tier
    }

    /// An equal copy of this record.
    pub fn duplicate(&self) -> (r: ApiKey)
        ensures
            r == *self,
    {
        ApiKey {
            id: self.id,
            key_hash: self.key_hash.clone(),
            lookup: self.lookup.clone(),
            consumer_id: self.consumer_id,
            service_id: self.service_id,
            tier: self.tier,
            created_at: self.created_at,
            expires_at: self.expires_at,
            revoked_at: self.revoked_at,
        }
    }
}

/// What argon2 verification returns for a stored hash and a candidate key:
/// a function of the two strings alone, since the PHC hash text carries its
/// own salt and parameters.
pub uninterp spec fn argon2_matches(hash: Seq<char>, key: Seq<char>) -> bool;

/// Relies on argon2's hash_password: the returned PHC string verifies
/// against the key it was computed from, and begins with `$argon2` (the
/// PHC form writes a `$` and the algorithm identifier, `argon2id` by
/// default); `None` only on an internal hashing error.
#[verifier::external_body]
fn argon2_hash(key: &str) -> (r: Option<String>)
    ensures
        r matches Some(h) ==> argon2_matches(h@, key@)
            && h@.len() >= 7 && h@.subrange(0, 7) == "$argon2"@,
{
    match argon2::Argon2::default().hash_password(key.as_bytes()) {
        Ok(h) => Some(h.to_string()),
        Err(_) => None,
    }
}

/// Relies on argon2's verify_password: recomputes the hash under the salt
/// and parameters carried in the PHC string and compares the outputs.
#[verifier::external_body]
fn argon2_verify(hash: &str, key: &str) -> (r: bool)
    ensures
        r == argon2_matches(hash@, key@),
{
    argon2::Argon2::default().verify_password(key.as_bytes(), hash).is_ok()
}

/// Relies on rand's random_range: a value drawn uniformly below `n`.
#[verifier::external_body]
fn random_index(n: usize) -> (r: usize)
    requires
        n > 0,
    ensures
        r < n,
{
    rand::random_range(0..n)
}

/// Hash a plaintext key for storage: a PHC string (starting `$argon2`,
/// carrying its own salt) that verifies against the key.
pub fn hash_key(key: &str) -> (r: Result<String, KeyError>)
    ensures
        r matches Ok(h) ==> argon2_matches(h@, key@)
            && h@.len() >= 7 && h@.subrange(0, 7) == "$argon2"@,
        r matches Err(e) ==> e == KeyError::HashFailed,
{
    match argon2_hash(key) {
        Some(h) => Ok(h),
        None => Err(KeyError::HashFailed),
    }
}

/// Generate a fresh plaintext API key: the fixed prefix `llm_mk_` followed
/// by 48 random alphanumeric characters, 55 ASCII characters in all.
pub fn generate_key() -> (r: String)
    ensures
        r@.len() == 55,
        r@.subrange(0, 7) == "llm_mk_"@,
        vstd::utf8::is_ascii_chars(r@),
        forall|i: int| 7 <= i < 55 ==> (('0' <= #[trigger] r@[i] && r@[i] <= '9')
            || ('A' <= r@[i] && r@[i] <= 'Z') || ('a' <= r@[i] && r@[i] <= 'z')),
{
    let mut out: Vec<u8> = Vec::new();
    out.push(108);
    out.push(108);
    out.push(109);
    out.push(95);
    out.push(109);
    out.push(107);
    out.push(95);
    let mut i: usize = 0;
    while i < 48
        invariant
            i <= 48,
            out@.len() == 7 + i,
            forall|j: int| 0 <= j < out@.len() ==> #[trigger] out@[j] < 128,
            forall|j: int| 7 <= j < out@.len() ==> (48 <= #[trigger] out@[j] <= 57
                || 65 <= out@[j] <= 90 || 97 <= out@[j] <= 122),
            out@[0] == 108u8 && out@[1] == 108u8 && out@[2] == 109u8 && out@[3] == 95u8
                && out@[4] == 109u8 && out@[5] == 107u8 && out@[6] == 95u8,
        decreases 48 - i,
    {
        let idx: usize = random_index(62);
        let b: u8 = if idx < 26 {
            65 + idx as u8
        } else if idx < 52 {
            71 + idx as u8
        } else {
            idx as u8 - 4
        };
        out.push(b);
        i = i + 1;
    }
    proof {
        assert(out@.len() == 55);
    }
    let r = text::ascii_to_string(out);
    proof {
        assert(r@.len() == 55);
        reveal_strlit("llm_mk_");
        assert(r@.subrange(0, 7) =~= "llm_mk_"@);
        assert forall|j: int| 0 <= j < r@.len() implies '\0' <= #[trigger] r@[j] <= '\u{7f}' by {
            assert(r@[j] == out@[j] as char);
        }
        assert forall|i: int| 7 <= i < 55 implies (('0' <= #[trigger] r@[i] && r@[i] <= '9')
            || ('A' <= r@[i] && r@[i] <= 'Z') || ('a' <= r@[i] && r@[i] <= 'z')) by {
            assert(r@[i] == out@[i] as char);
            assert(48 <= out@[i] <= 57 || 65 <= out@[i] <= 90 || 97 <= out@[i] <= 122);
        }
    }
    r
}

/// Whether a string is accepted as a service identifier: after folding
/// ASCII upper case to lower case, its bytes are the hyphenated text of
/// some 128-bit identifier.
pub open spec fn spec_is_service_id(s: Seq<char>) -> bool {
    exists|v: u128| spec_lowered(vstd::utf8::encode_utf8(s))
        == #[trigger] text::spec_uuid_bytes(v as nat)
}

/// The hyphenated identifier text always has 36 bytes.
proof fn lemma_uuid_text_len(v: u128)
    ensures
        text::spec_uuid_bytes(v as nat).len() == 36,
{
    text::lemma_hex_fixed_len(v as nat / 0x1000000000000000000000000, 8);
    text::lemma_hex_fixed_len((v as nat / 0x100000000000000000000) % 0x10000, 4);
    text::lemma_hex_fixed_len((v as nat / 0x10000000000000000) % 0x10000, 4);
    text::lemma_hex_fixed_len((v as nat / 0x1000000000000) % 0x10000, 4);
    text::lemma_hex_fixed_len(v as nat % 0x1000000000000, 12);
}

/// Whether record `k` matches the presented plaintext `key`: the stored
/// lookup prefix is the key's first 19 characters and the stored hash
/// verifies against the key.
pub open spec fn spec_key_matches(k: ApiKey, key: Seq<char>) -> bool {
    &&& key.len() >= 19
    &&& k.lookup@ == key.subrange(0, 19)
    &&& argon2_matches(k.key_hash@, key)
}

/// Index of the first record matching `key`, scanning from `i`.
pub open spec fn spec_find_match(s: Seq<ApiKey>, key: Seq<char>, i: int) -> Option<int>
    decreases s.len() - i,
{
    if i < 0 || i >= s.len() {
        None
    } else if spec_key_matches(s[i], key) {
        Some(i)
    } else {
        spec_find_match(s, key, i + 1)
    }
}

/// What validation returns on a store: the first matching record when it is
/// valid, a distinct error when it is expired or revoked, and an unknown-key
/// error when nothing matches.
pub open spec fn spec_validate(s: Seq<ApiKey>, key: Seq<char>, now: u64) -> Result<ApiKey, KeyError> {
    match spec_find_match(s, key, 0) {
        Some(i) => if s[i].spec_is_valid(now) {
            Ok(s[i])
        } else {
            Err(KeyError::ExpiredOrRevoked)
        },
        None => Err(KeyError::UnknownKey),
    }
}

/// The store after revoking key `id` of `consumer` at `now`, and whether
/// the revocation took effect: it does exactly when a record with that id
/// belongs to the consumer and was not already revoked; nothing else is
/// ever modified.
pub open spec fn spec_revoke(s: Seq<ApiKey>, id: u128, consumer: u128, now: u64) -> (Seq<ApiKey>, bool) {
    match spec_find_revocable(s, id, consumer, 0) {
        Some(i) => (s.update(i, ApiKey { revoked_at: Some(now), ..s[i] }), true),
        None => (s, false),
    }
}

/// Index of the first record with this id, owned by the consumer and not
/// yet revoked, scanning from `i`.
pub open spec fn spec_find_revocable(s: Seq<ApiKey>, id: u128, consumer: u128, i: int) -> Option<int>
    decreases s.len() - i,
{
    if i < 0 || i >= s.len() {
        None
    } else if s[i].id == id && s[i].consumer_id == consumer && s[i].revoked_at is None {
        Some(i)
    } else {
        spec_find_revocable(s, id, consumer, i + 1)
    }
}

/// The records of `consumer` in store order.
pub open spec fn spec_keys_of(s: Seq<ApiKey>, consumer: u128, n: int) -> Seq<ApiKey>
    decreases n,
{
    if n <= 0 {
        Seq::empty()
    } else if s[n - 1].consumer_id == consumer {
        spec_keys_of(s, consumer, n - 1).push(s[n - 1])
    } else {
        spec_keys_of(s, consumer, n - 1)
    }
}

/// The API-key manager: generation, validation, revocation and listing over
/// the durable key table.
#[derive(Debug, Clone, PartialEq, Eq)]
pub struct ApiKeyManager {
    pub keys: Vec<ApiKey>,
}

impl ApiKeyManager {
    /// Record ids are unique.
    pub open spec fn wf(self) -> bool {
        forall|i: int, j: int| 0 <= i < j < self.keys@.len()
            ==> #[trigger] self.keys@[i].id != #[trigger] self.keys@[j].id
    }

    /// An empty key table.
    pub fn new() -> (r: Self)
        ensures
            r.wf(),
            r.keys@.len() == 0,
    {
        ApiKeyManager { keys: Vec::new() }
    }

    /// Generate and store a new API key for `consumer_id` under a fresh
    /// record id. The plaintext is returned exactly once, in the response;
    /// the store keeps only its hash and lookup prefix. Fails with
    /// `InvalidServiceId` exactly when the request's service id is not
    /// identifier text (upper-case hexadecimal digits are folded and
    /// accepted), with `DuplicateId` exactly when the text is identifier
    /// text but a record under `id` already exists, and otherwise only
    /// with `HashFailed` when the hashing backend fails; on every failure
    /// the store is unchanged.
    #[verifier::loop_isolation(false)]
    pub fn create_api_key(&mut self, consumer_id: u128, request: &CreateApiKeyRequest, id: u128, now: u64) -> (r: Result<ApiKeyResponse, KeyError>)
        requires
            old(self).wf(),
        ensures
            final(self).wf(),
            r == Err::<ApiKeyResponse, KeyError>(KeyError::InvalidServiceId)
                <==> !spec_is_service_id(request.service_id@),
            r == Err::<ApiKeyResponse, KeyError>(KeyError::DuplicateId)
                <==> spec_is_service_id(request.service_id@)
                    && (exists|j: int| 0 <= j < old(self).keys@.len()
                        && #[trigger] old(self).keys@[j].id == id),
            (spec_is_service_id(request.service_id@)
                && !(exists|j: int| 0 <= j < old(self).keys@.len()
                    && #[trigger] old(self).keys@[j].id == id))
                ==> (r is Ok || r == Err::<ApiKeyResponse, KeyError>(KeyError::HashFailed)),
            r matches Ok(resp) ==> {
                &&& resp.id == id
                &&& resp.tier == request.tier
                &&& resp.created_at == now
                &&& resp.service_id == final(self).keys@.last().service_id
                &&& spec_lowered(vstd::utf8::encode_utf8(request.service_id@))
                    == text::spec_uuid_bytes(resp.service_id as nat)
                &&& resp.expires_at == match request.expires_in_days {
                    Some(days) => Some(spec_expiry(now, days)),
                    None => None,
                }
                &&& resp.key@.len() == 55
                &&& resp.key@.subrange(0, 7) == "llm_mk_"@
                &&& final(self).keys@.len() == old(self).keys@.len() + 1
                &&& final(self).keys@ == old(self).keys@.push(final(self).keys@.last())
                &&& ({
                    let rec = final(self).keys@.last();
                    &&& rec.id == id
                    &&& rec.consumer_id == consumer_id
                    &&& rec.tier == request.tier
                    &&& rec.created_at == now
                    &&& rec.expires_at == resp.expires_at
                    &&& rec.revoked_at is None
                    &&& spec_key_matches(rec, resp.key@)
                })
            },
            r is Err ==> *final(self) == *old(self),
    {
        let sid_bytes: Vec<u8> = decode_service_id(request.service_id.as_str());
        if sid_bytes.len() != 36 {
            proof {
                assert forall|v: u128| sid_bytes@ != #[trigger] text::spec_uuid_bytes(v as nat) by {
                    lemma_uuid_text_len(v);
                }
            }
            return Err(KeyError::InvalidServiceId);
        }
        let service_id: u128 = match text::parse_uuid(sid_bytes.as_slice(), 0) {
            Some(v) => {
                proof {
                    assert(sid_bytes@.subrange(0, 36) =~= sid_bytes@);
                }
                v
            },
            None => {
                proof {
                    assert forall|v: u128| sid_bytes@ != #[trigger] text::spec_uuid_bytes(v as nat) by {
                        if sid_bytes@ == text::spec_uuid_bytes(v as nat) {
                            assert(sid_bytes@.subrange(0, 36) =~= sid_bytes@);
                        }
                    }
                }
                return Err(KeyError::InvalidServiceId);
            },
        };
        let mut i: usize = 0;
        while i < self.keys.len()
            invariant
                i <= self.keys@.len(),
                *self == *old(self),
                forall|j: int| 0 <= j < i ==> #[trigger] self.keys@[j].id != id,
            decreases self.keys@.len() - i,
        {
            if self.keys[i].id == id {
                proof {
                    assert(old(self).keys@[i as int].id == id);
                }
                return Err(KeyError::DuplicateId);
            }
            i = i + 1;
        }
        let api_key = generate_key();
        let key_hash = match argon2_hash(api_key.as_str()) {
            Some(h) => h,
            None => {
                return Err(KeyError::HashFailed);
            },
        };
        let prefix: &str = api_key.as_str().substring_char(0, 19);
        let lookup = String::from_str(prefix);
        let expires_at: Option<u64> = match request.expires_in_days {
            Some(days) => Some(expiry_epoch(now, days)),
            None => None,
        };
        let rec = ApiKey {
            id,
            key_hash,
            lookup,
            consumer_id,
            service_id,
            tier: request.tier,
            created_at: now,
            expires_at,
            revoked_at: None,
        };
        self.keys.push(rec);
        Ok(ApiKeyResponse {
            id,
            key: api_key,
            service_id,
            tier: request.tier,
            created_at: now,
            expires_at,
        })
    }

    /// Validate a presented plaintext key: find the record whose lookup
    /// prefix and hash match it. Returns the record when it is valid at
    /// `now`, the distinct expired-or-revoked error when it is dead, and an
    /// unknown-key error when nothing matches.
    #[verifier::loop_isolation(false)]
    pub fn validate_key(&self, api_key: &str, now: u64) -> (r: Result<ApiKey, KeyError>)
        ensures
            r == spec_validate(self.keys@, api_key@, now),
    {
        let klen: usize = api_key.unicode_len();
        if klen < 19 {
            proof {
                lemma_no_match_short(self.keys@, api_key@, 0);
            }
            return Err(KeyError::UnknownKey);
        }
        let prefix_str: &str = api_key.substring_char(0, 19);
        let prefix: String = String::from_str(prefix_str);
        let mut i: usize = 0;
        while i < self.keys.len()
            invariant
                i <= self.keys@.len(),
                api_key@.len() >= 19,
                prefix@ == api_key@.subrange(0, 19),
                spec_find_match(self.keys@, api_key@, 0)
                    == spec_find_match(self.keys@, api_key@, i as int),
            decreases self.keys@.len() - i,
        {
            let rec = &self.keys[i];
            if rec.lookup.eq(&prefix) && argon2_verify(rec.key_hash.as_str(), api_key) {
                if rec.is_valid(now) {
                    return Ok(rec.duplicate());
                } else {
                    return Err(KeyError::ExpiredOrRevoked);
                }
            }
            i = i + 1;
        }
        Err(KeyError::UnknownKey)
    }

    /// Revoke a key owned by `consumer_id`: stamps `revoked_at = now` on
    /// the record exactly when it exists and was not already revoked, and
    /// fails otherwise, leaving every record untouched. Revocation is
    /// terminal: a second revocation fails and changes nothing.
    #[verifier::loop_isolation(false)]
    pub fn revoke_key(&mut self, key_id: u128, consumer_id: u128, now: u64) -> (r: Result<(), KeyError>)
        requires
            old(self).wf(),
        ensures
            final(self).wf(),
            (final(self).keys@, r is Ok) == spec_revoke(old(self).keys@, key_id, consumer_id, now),
            r matches Err(e) ==> e == KeyError::NotRevocable,
    {
        let mut i: usize = 0;
        while i < self.keys.len()
            invariant
                i <= self.keys@.len(),
                *self == *old(self),
                spec_find_revocable(self.keys@, key_id, consumer_id, 0)
                    == spec_find_revocable(self.keys@, key_id, consumer_id, i as int),
            decreases self.keys@.len() - i,
        {
            let hit: bool = {
                let rec = &self.keys[i];
                rec.id == key_id && rec.consumer_id == consumer_id && rec.revoked_at.is_none()
            };
            if hit {
                let ghost before = self.keys@;
                let updated = ApiKey { revoked_at: Some(now), ..self.keys[i].duplicate() };
                self.keys[i] = updated;
                proof {
                    let na = self.keys@;
                    assert(na =~= before.update(i as int, ApiKey { revoked_at: Some(now), ..before[i as int] }));
                    assert forall|i2: int, j2: int| 0 <= i2 < j2 < na.len() implies
                        #[trigger] na[i2].id != #[trigger] na[j2].id by {
                        assert(na[i2].id == before[i2].id && na[j2].id == before[j2].id);
                    }
                }
                return Ok(());
            }
            i = i + 1;
        }
        Err(KeyError::NotRevocable)
    }

    /// All records of a consumer, ordered by creation time descending. The
    /// result holds exactly the consumer's records (as a multiset), never a
    /// plaintext.
    #[verifier::loop_isolation(false)]
    pub fn list_keys(&self, consumer_id: u128) -> (r: Vec<ApiKey>)
        ensures
            r@.to_multiset() == spec_keys_of(self.keys@, consumer_id, self.keys@.len() as int).to_multiset(),
            forall|i: int, j: int| 0 <= i < j < r@.len()
                ==> #[trigger] r@[i].created_at >= #[trigger] r@[j].created_at,
    {
        broadcast use vstd::seq_lib::group_to_multiset_ensures;

        let mut pool: Vec<ApiKey> = Vec::new();
        let mut i: usize = 0;
        proof {
            assert(pool@ =~= spec_keys_of(self.keys@, consumer_id, 0));
        }
        while i < self.keys.len()
            invariant
                i <= self.keys@.len(),
                pool@ == spec_keys_of(self.keys@, consumer_id, i as int),
            decreases self.keys@.len() - i,
        {
            if self.keys[i].consumer_id == consumer_id {
                pool.push(self.keys[i].duplicate());
            }
            i = i + 1;
        }
        let ghost all = pool@;
        let mut out: Vec<ApiKey> = Vec::new();
        while pool.len() > 0
            invariant
                out@.to_multiset().add(pool@.to_multiset()) == all.to_multiset(),
                forall|a: int, b: int| 0 <= a < b < out@.len()
                    ==> #[trigger] out@[a].created_at >= #[trigger] out@[b].created_at,
                forall|a: int, b: int| 0 <= a < out@.len() && 0 <= b < pool@.len()
                    ==> #[trigger] out@[a].created_at >= #[trigger] pool@[b].created_at,
            decreases pool@.len(),
        {
            let mut best: usize = 0;
            let mut j: usize = 1;
            while j < pool.len()
                invariant
                    best < j <= pool@.len(),
                    pool@.len() > 0,
                    forall|b: int| 0 <= b < j
                        ==> pool@[best as int].created_at >= #[trigger] pool@[b].created_at,
                decreases pool@.len() - j,
            {
                if pool[j].created_at > pool[best].created_at {
                    best = j;
                }
                j = j + 1;
            }
            let ghost pool_before = pool@;
            let rec = pool.remove(best);
            out.push(rec);
            proof {
                let ghost out_before = out@.drop_last();
                assert(pool@ == pool_before.remove(best as int));
                assert(pool_before.remove(best as int).to_multiset()
                    =~= pool_before.to_multiset().remove(pool_before[best as int]));
                assert(out@ == out_before.push(rec));
                assert(out_before.push(rec).to_multiset() =~= out_before.to_multiset().insert(rec));
                assert(pool_before.contains(pool_before[best as int]));
                assert(pool_before.to_multiset().count(pool_before[best as int]) > 0);
                assert(out@.to_multiset().add(pool@.to_multiset()) =~= all.to_multiset());
                assert forall|b: int| 0 <= b < pool@.len()
                    implies out@.last().created_at >= #[trigger] pool@[b].created_at by {
                    if b < best {
                        assert(pool@[b] == pool_before[b]);
                    } else {
                        assert(pool@[b] == pool_before[b + 1]);
                    }
                }
            }
        }
        out
    }
}

/// The epoch second a key created at `now` with a lifetime of `days` days
/// expires at, clamped to the representable range.
pub open spec fn spec_expiry(now: u64, days: i64) -> u64 {
    let t = now + days * 86400;
    if t < 0 {
        0u64
    } else if t > u64::MAX {
        u64::MAX
    } else {
        t as u64
    }
}

/// Compute the expiry second for a lifetime in days.
pub fn expiry_epoch(now: u64, days: i64) -> (r: u64)
    ensures
        r == spec_expiry(now, days),
{
    let t: i128 = now as i128 + days as i128 * 86400;
    if t < 0 {
        0
    } else if t > u64::MAX as i128 {
        u64::MAX
    } else {
        t as u64
    }
}

/// The bytes of an identifier string with ASCII upper case folded to
/// lower case, so that uppercase hexadecimal digits are accepted.
fn decode_service_id(s: &str) -> (r: Vec<u8>)
    ensures
        r@ == spec_lowered(vstd::utf8::encode_utf8(s@)),
{
    lower_bytes(s)
}

/// A key shorter than the lookup prefix matches no record.
proof fn lemma_no_match_short(s: Seq<ApiKey>, key: Seq<char>, i: int)
    requires
        key.len() < 19,
        0 <= i <= s.len(),
    ensures
        spec_find_match(s, key, i) is None,
    decreases s.len() - i,
{
    if i < s.len() {
        lemma_no_match_short(s, key, i + 1);
    }
}

/// A freshly generated key validates immediately: pushing its record onto
/// a store that holds no other record matching the key makes validation
/// return exactly that record while it is valid.
pub proof fn lemma_validate_after_generate(s: Seq<ApiKey>, rec: ApiKey, key: Seq<char>, now: u64)
    requires
        spec_key_matches(rec, key),
        rec.spec_is_valid(now),
        forall|i: int| 0 <= i < s.len() ==> !spec_key_matches(#[trigger] s[i], key),
    ensures
        spec_validate(s.push(rec), key, now) == Ok::<ApiKey, KeyError>(rec),
{
    lemma_find_match_push(s, rec, key, 0);
}

/// After revoking the matching record, validating the same plaintext fails
/// with the distinct expired-or-revoked error: the record still matches,
/// but it no longer authorizes.
pub proof fn lemma_validate_after_revoke(s: Seq<ApiKey>, key: Seq<char>, now: u64, now2: u64)
    requires
        spec_find_match(s, key, 0) is Some,
        ({
            let i = spec_find_match(s, key, 0)->Some_0;
            &&& s[i].revoked_at is None
            &&& spec_revoke(s, s[i].id, s[i].consumer_id, now).1
            &&& spec_find_revocable(s, s[i].id, s[i].consumer_id, 0) == Some(i)
        }),
    ensures
        ({
            let i = spec_find_match(s, key, 0)->Some_0;
            let s2 = spec_revoke(s, s[i].id, s[i].consumer_id, now).0;
            spec_validate(s2, key, now2) == Err::<ApiKey, KeyError>(KeyError::ExpiredOrRevoked)
        }),
{
    let i = spec_find_match(s, key, 0)->Some_0;
    let s2 = spec_revoke(s, s[i].id, s[i].consumer_id, now).0;
    lemma_find_match_bounds(s, key, 0);
    lemma_find_match_first(s, key, 0, i);
    assert(s2 == s.update(i, ApiKey { revoked_at: Some(now), ..s[i] }));
    assert(spec_key_matches(ApiKey { revoked_at: Some(now), ..s[i] }, key));
    lemma_find_match_update(s, key, i, ApiKey { revoked_at: Some(now), ..s[i] }, 0);
    assert(spec_find_match(s2, key, 0) == Some(i));
    assert(!s2[i].spec_is_valid(now2));
}

/// Revocation is idempotent in effect: after a successful revocation, a
/// second revocation of the same key fails and leaves every record — in
/// particular the stamped `revoked_at` — unchanged.
pub proof fn lemma_revoke_idempotent(s: Seq<ApiKey>, id: u128, consumer: u128, now1: u64, now2: u64)
    requires
        spec_revoke(s, id, consumer, now1).1,
        forall|i: int, j: int| 0 <= i < j < s.len() ==> #[trigger] s[i].id != #[trigger] s[j].id,
    ensures
        ({
            let s1 = spec_revoke(s, id, consumer, now1).0;
            &&& !spec_revoke(s1, id, consumer, now2).1
            &&& spec_revoke(s1, id, consumer, now2).0 == s1
        }),
{
    let i = spec_find_revocable(s, id, consumer, 0)->Some_0;
    lemma_find_revocable_bounds(s, id, consumer, 0);
    let s1 = s.update(i, ApiKey { revoked_at: Some(now1), ..s[i] });
    lemma_find_revocable_none_after_stamp(s, s1, id, consumer, i, 0);
}

proof fn lemma_find_match_bounds(s: Seq<ApiKey>, key: Seq<char>, i: int)
    requires
        0 <= i <= s.len(),
    ensures
        spec_find_match(s, key, i) matches Some(j)
            ==> i <= j < s.len() && spec_key_matches(s[j], key),
    decreases s.len() - i,
{
    if i < s.len() {
        lemma_find_match_bounds(s, key, i + 1);
    }
}

proof fn lemma_find_revocable_bounds(s: Seq<ApiKey>, id: u128, consumer: u128, i: int)
    requires
        0 <= i <= s.len(),
    ensures
        spec_find_revocable(s, id, consumer, i) matches Some(j)
            ==> i <= j < s.len() && s[j].id == id && s[j].consumer_id == consumer
                && s[j].revoked_at is None,
    decreases s.len() - i,
{
    if i < s.len() {
        lemma_find_revocable_bounds(s, id, consumer, i + 1);
    }
}

proof fn lemma_find_match_push(s: Seq<ApiKey>, rec: ApiKey, key: Seq<char>, i: int)
    requires
        0 <= i <= s.len(),
        spec_key_matches(rec, key),
        forall|j: int| 0 <= j < s.len() ==> !spec_key_matches(#[trigger] s[j], key),
    ensures
        spec_find_match(s.push(rec), key, i) == Some(s.len() as int),
    decreases s.len() - i,
{
    if i < s.len() {
        assert(s.push(rec)[i] == s[i]);
        lemma_find_match_push(s, rec, key, i + 1);
    } else {
        assert(s.push(rec)[i] == rec);
    }
}

/// When a match is found at `i`, no record before `i` matches.
proof fn lemma_find_match_first(s: Seq<ApiKey>, key: Seq<char>, p: int, i: int)
    requires
        0 <= p <= s.len(),
        spec_find_match(s, key, p) == Some(i),
    ensures
        forall|j: int| p <= j < i ==> !spec_key_matches(#[trigger] s[j], key),
        p <= i,
    decreases s.len() - p,
{
    if p < s.len() && !spec_key_matches(s[p], key) {
        lemma_find_match_first(s, key, p + 1, i);
    }
}

proof fn lemma_find_match_update(s: Seq<ApiKey>, key: Seq<char>, i: int, e: ApiKey, p: int)
    requires
        0 <= p <= i < s.len(),
        spec_key_matches(e, key),
        forall|j: int| 0 <= j < i ==> !spec_key_matches(#[trigger] s[j], key),
    ensures
        spec_find_match(s.update(i, e), key, p) == Some(i),
    decreases i - p,
{
    if p < i {
        assert(s.update(i, e)[p] == s[p]);
        lemma_find_match_update(s, key, i, e, p + 1);
    } else {
        assert(s.update(i, e)[i] == e);
    }
}

proof fn lemma_find_revocable_none_after_stamp(s: Seq<ApiKey>, s1: Seq<ApiKey>, id: u128, consumer: u128, i: int, p: int)
    requires
        0 <= p <= s.len(),
        0 <= i < s.len(),
        s1 == s.update(i, ApiKey { revoked_at: Some(s1[i].revoked_at->Some_0), ..s[i] }),
        s1[i].revoked_at is Some,
        forall|i2: int, j2: int| 0 <= i2 < j2 < s.len() ==> #[trigger] s[i2].id != #[trigger] s[j2].id,
        s[i].id == id,
        spec_find_revocable(s, id, consumer, 0) == Some(i),
    ensures
        spec_find_revocable(s1, id, consumer, p) is None,
    decreases s.len() - p,
{
    if p < s.len() {
        if p != i {
            assert(s1[p] == s[p]);
            if s1[p].id == id {
                assert(s[p].id == s[i].id);
                assert(false);
            }
        }
        lemma_find_revocable_none_after_stamp(s, s1, id, consumer, i, p + 1);
    }
}

} // verus!
