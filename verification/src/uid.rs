//! Unique-identifier service.
//!
//! One monotonically increasing counter backs both kinds of identifiers the
//! node hands out: string IDs of the shape `"{unix_millis}-{node_id}-{counter}"`
//! for the `generate` workload, and bare integer IDs used as transport-level
//! correlation for gossip attempts. Because both draw from the same counter,
//! an emitted integer ID is never reused as the counter segment of a string
//! ID in the same process.

use crate::decimal::{
    dec_digits, is_digit, lemma_dec_digits_all_digits, lemma_dec_digits_injective,
    lemma_dec_digits_len, push_dec,
};
use vstd::prelude::*;
use vstd::string::StringExecFns;

verus! {

/// The string identifier minted for timestamp `ts`, node name `node` and
/// counter value `c`: `"{ts}-{node}-{c}"`.
pub open spec fn uid_str(ts: u64, node: Seq<char>, c: u64) -> Seq<char> {
    dec_digits(ts as nat) + seq!['-'] + node + seq!['-'] + dec_digits(c as nat)
}

/// Relies on `std::time::SystemTime::now`: reads the wall clock as
/// milliseconds since the Unix epoch. Nothing is promised of the value; a
/// reading that precedes the epoch yields `None`.
#[verifier::external_body]
pub(crate) fn unix_millis() -> (r: Option<u64>) {
    std::time::SystemTime::now().duration_since(std::time::UNIX_EPOCH).ok().map(
        |d| d.as_millis() as u64,
    )
}

/// Error of the ID service: the clock could not be read, or the counter is
/// exhausted.
#[derive(Debug, Clone, Copy, PartialEq, Eq, Structural)]
pub enum UidError {
    GenerateError,
}

/// The shared ID counter.
pub struct UID {
    message_counter: u64,
}

impl UID {
    /// The counter value the next identifier will consume.
    pub closed spec fn counter(&self) -> u64 {
        self.message_counter
    }

    pub fn new() -> (r: UID)
        ensures
            r.counter() == 0,
    {
        UID { message_counter: 0 }
    }

    /// Hands out the current counter value as a transport-level identifier
    /// and advances the counter, so no later identifier of either kind can
    /// repeat it. Fails only when the counter is exhausted.
    pub fn generate_int_unique_id(&mut self) -> (r: Result<u64, UidError>)
        ensures
            old(self).counter() < u64::MAX ==> (r == Ok::<u64, UidError>(old(self).counter())
                && final(self).counter() == old(self).counter() + 1),
            old(self).counter() == u64::MAX ==> (r == Err::<u64, UidError>(UidError::GenerateError)
                && *final(self) == *old(self)),
    {
        if self.message_counter == u64::MAX {
            return Err(UidError::GenerateError);
        }
        let id = self.message_counter;
        self.message_counter = self.message_counter + 1;
        Ok(id)
    }

    /// Mints the string identifier for the given timestamp: the counter
    /// segment consumes the current counter value, which is then advanced.
    pub fn generate_unique_id_at(&mut self, node_id: &str, timestamp_millis: u64) -> (r: Result<
        String,
        UidError,
    >)
        ensures
            old(self).counter() < u64::MAX ==> (final(self).counter() == old(self).counter() + 1
                && (r matches Ok(id) && id@ == uid_str(
                timestamp_millis,
                node_id@,
                old(self).counter(),
            ))),
            old(self).counter() == u64::MAX ==> (r == Err::<String, UidError>(
                UidError::GenerateError,
            ) && *final(self) == *old(self)),
    {
        if self.message_counter == u64::MAX {
            return Err(UidError::GenerateError);
        }
        let mut s = String::new();
        push_dec(&mut s, timestamp_millis);
        s.append("-");
        s.append(node_id);
        s.append("-");
        push_dec(&mut s, self.message_counter);
        proof {
            reveal_strlit("-");
            assert(s@ =~= uid_str(timestamp_millis, node_id@, self.message_counter));
        }
        self.message_counter = self.message_counter + 1;
        Ok(s)
    }

    /// Mints a string identifier from the wall clock and the counter. The
    /// clock only orders identifiers; uniqueness rests on the counter segment
    /// alone (`lemma_uid_str_injective`). Fails when the clock cannot be read
    /// or the counter is exhausted, and leaves the counter untouched then.
    pub fn generate_unique_id(&mut self, node_id: &str) -> (r: Result<String, UidError>)
        ensures
            r matches Ok(id) ==> (old(self).counter() < u64::MAX && final(self).counter() == old(
                self,
            ).counter() + 1 && (exists|ts: u64|
                id@ == uid_str(ts, node_id@, old(self).counter()))),
            r matches Err(e) ==> (e == UidError::GenerateError && *final(self) == *old(self)),
            old(self).counter() == u64::MAX ==> r matches Err(_),
    {
        match unix_millis() {
            Some(ts) => {
                let r = self.generate_unique_id_at(node_id, ts);
                proof {
                    if old(self).counter() < u64::MAX {
                        assert(r matches Ok(id) ==> id@ == uid_str(
                            ts,
                            node_id@,
                            old(self).counter(),
                        ));
                    }
                }
                r
            },
            None => Err(UidError::GenerateError),
        }
    }
}

/// Distinct counter values give distinct string identifiers, whatever the
/// clock read on either occasion: within one process every minted string
/// identifier consumes a fresh counter value, so all of them are pairwise
/// distinct.
pub proof fn lemma_uid_str_injective(ts1: u64, ts2: u64, node: Seq<char>, c1: u64, c2: u64)
    requires
        c1 != c2,
    ensures
        uid_str(ts1, node, c1) != uid_str(ts2, node, c2),
{
    let s1 = uid_str(ts1, node, c1);
    let s2 = uid_str(ts2, node, c2);
    if s1 == s2 {
        let d1 = dec_digits(c1 as nat);
        let d2 = dec_digits(c2 as nat);
        let k1 = d1.len() as int;
        let k2 = d2.len() as int;
        lemma_dec_digits_len(c1 as nat);
        lemma_dec_digits_len(c2 as nat);
        if k1 < k2 {
            lemma_uid_str_shorter_counter(ts1, ts2, node, c1, c2);
        } else if k2 < k1 {
            lemma_uid_str_shorter_counter(ts2, ts1, node, c2, c1);
        } else {
            let p1 = dec_digits(ts1 as nat) + seq!['-'] + node + seq!['-'];
            let p2 = dec_digits(ts2 as nat) + seq!['-'] + node + seq!['-'];
            assert(s1.len() == p1.len() + k1);
            assert(s2.len() == p2.len() + k2);
            assert(p1.len() == p2.len());
            assert forall|i: int| 0 <= i < k1 implies d1[i] == d2[i] by {
                assert(s1[p1.len() + i] == d1[i]);
                assert(s2[p2.len() + i] == d2[i]);
            }
            assert(d1 =~= d2);
            lemma_dec_digits_injective(c1 as nat, c2 as nat);
        }
    }
}

/// The two identifiers differ when the first's counter segment is strictly
/// shorter: were they the same string, the character just before the first's
/// counter segment would have to be both the separator and a digit of the
/// second's counter segment.
proof fn lemma_uid_str_shorter_counter(ts1: u64, ts2: u64, node: Seq<char>, c1: u64, c2: u64)
    requires
        dec_digits(c1 as nat).len() < dec_digits(c2 as nat).len(),
    ensures
        uid_str(ts1, node, c1) != uid_str(ts2, node, c2),
{
    let s1 = uid_str(ts1, node, c1);
    let s2 = uid_str(ts2, node, c2);
    if s1 == s2 {
        let d1 = dec_digits(c1 as nat);
        let d2 = dec_digits(c2 as nat);
        let k1 = d1.len() as int;
        let k2 = d2.len() as int;
        let p1 = dec_digits(ts1 as nat) + seq!['-'] + node + seq!['-'];
        let p2 = dec_digits(ts2 as nat) + seq!['-'] + node + seq!['-'];
        lemma_dec_digits_len(c1 as nat);
        lemma_dec_digits_len(c2 as nat);
        lemma_dec_digits_all_digits(c2 as nat);
        let len = s1.len() as int;
        assert(len == p1.len() + k1);
        assert(len == p2.len() + k2);
        let p = len - k1 - 1;
        assert(p == p1.len() - 1);
        assert(p1[p1.len() - 1] == '-');
        assert(s1[p] == p1[p1.len() - 1]);
        assert(p >= len - k2);
        assert(s2[p] == d2[p - (len - k2)]);
        assert(is_digit(s2[p]));
        assert(!is_digit('-'));
    }
}

} // verus!
