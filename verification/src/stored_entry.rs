//! Entries as they are written to their own files: the value, its expiry,
//! a checksum of the value and the nonce it was sealed with, if any. A read
//! of such an entry checks the checksum before trusting the value.
use vstd::prelude::*;
use crate::clock::{now_millis, CLOCK_BOUND_MILLIS};
use crate::codec::{checksum_of, hash_value};
use crate::errors::CacheError;
use crate::text::owned;

verus! {

/// An entry written to its own file.
#[derive(Debug, Clone, PartialEq, Eq)]
pub struct StoredEntry {
    pub value: String,
    pub expiry: Option<i64>,
    pub checksum: String,
    pub nonce: Option<Vec<u8>>,
}

/// A stored entry with this expiry has expired at `now`.
pub open spec fn stored_expired(expiry: Option<i64>, now: i64) -> bool {
    expiry matches Some(t) && t <= now
}

/// The expiry of an entry written at `now` with time-to-live `ttl`.
pub open spec fn stored_expiry(ttl: Option<u64>, now: i64) -> Option<i64> {
    match ttl {
        Some(d) => Some((now + d) as i64),
        None => None,
    }
}

/// What reading a stored entry at `now` answers: nothing once it has
/// expired, `Err(())` when the checksum does not match the value, else the
/// value.
pub open spec fn stored_read_outcome(
    value: Seq<char>,
    expiry: Option<i64>,
    checksum: Seq<char>,
    now: i64,
) -> Result<Option<Seq<char>>, ()> {
    if stored_expired(expiry, now) {
        Ok(None)
    } else if checksum != checksum_of(value) {
        Err(())
    } else {
        Ok(Some(value))
    }
}

impl StoredEntry {
    /// An entry for `value`, to expire `ttl` milliseconds after `now` where
    /// a time-to-live is given, with the value's checksum.
    pub fn new_at(value: &str, ttl: Option<u64>, now: i64, nonce: Option<Vec<u8>>) -> (e: StoredEntry)
        requires
            ttl matches Some(d) ==> now + d <= i64::MAX,
        ensures
            e.value@ == value@,
            e.expiry == stored_expiry(ttl, now),
            e.checksum@ == checksum_of(value@),
            e.nonce == nonce,
    {
        let expiry = match ttl {
            Some(d) => Some((now as i128 + d as i128) as i64),
            None => None,
        };
        StoredEntry { value: owned(value), expiry, checksum: hash_value(value), nonce }
    }

    /// `new_at` at the wall clock's time.
    pub fn new(value: &str, ttl: Option<u64>, nonce: Option<Vec<u8>>) -> (e: StoredEntry)
        requires
            ttl matches Some(d) ==> d + CLOCK_BOUND_MILLIS <= i64::MAX,
        ensures
            e.value@ == value@,
            e.checksum@ == checksum_of(value@),
            e.nonce == nonce,
            exists|now: i64|
                0 <= now < CLOCK_BOUND_MILLIS && e.expiry == #[trigger] stored_expiry(ttl, now),
    {
        let now = now_millis();
        Self::new_at(value, ttl, now, nonce)
    }

    /// Whether the entry has expired at `now`.
    pub fn is_expired_at(&self, now: i64) -> (r: bool)
        ensures
            r == stored_expired(self.expiry, now),
    {
        match self.expiry {
            Some(t) => t <= now,
            None => false,
        }
    }

    /// Whether the entry has expired by the wall clock.
    pub fn is_expired(&self) -> (r: bool)
        ensures
            self.expiry is None ==> !r,
            exists|now: i64| 0 <= now < CLOCK_BOUND_MILLIS && r == #[trigger] stored_expired(self.expiry, now),
    {
        let now = now_millis();
        self.is_expired_at(now)
    }

    /// Reads the entry stored under `key` at `now`: nothing once it has
    /// expired; a checksum that does not match the value is reported as
    /// "Checksum mismatch for key <key>".
    pub fn read(&self, key: &str, now: i64) -> (r: Result<Option<String>, CacheError>)
        ensures
            match stored_read_outcome(self.value@, self.expiry, self.checksum@, now) {
                Ok(None) => r matches Ok(None),
                Ok(Some(v)) => r matches Ok(Some(s)) && s@ == v,
                Err(()) => r matches Err(CacheError::DecompressionError(m)) && m@
                    == "Checksum mismatch for key "@ + key@,
            },
    {
        if self.is_expired_at(now) {
            return Ok(None);
        }
        let calculated = hash_value(self.value.as_str());
        if self.checksum != calculated {
            let mut m = owned("Checksum mismatch for key ");
            m.append(key);
            return Err(CacheError::DecompressionError(m));
        }
        Ok(Some(self.value.clone()))
    }
}

/// An entry that was written with its checksum and has not been altered
/// reads back as its value until it expires.
pub proof fn law_unaltered_entry_reads_back(value: Seq<char>, expiry: Option<i64>, now: i64)
    requires
        !stored_expired(expiry, now),
    ensures
        stored_read_outcome(value, expiry, checksum_of(value), now) == Ok::<
            Option<Seq<char>>,
            (),
        >(Some(value)),
{
}

} // verus!
