//! Per-key append-only log.
//!
//! Each key owns an independent log: an ordered sequence of records at
//! contiguous offsets starting at 0, the next offset to assign, and the
//! committed offset a client last declared. Requests auto-create the log of
//! an unknown key, so polling an unseen key yields an empty batch rather
//! than an error.

use crate::db::{
    DbKey, DbValue,
    assoc_contains, assoc_get, assoc_put, assoc_unique, lemma_assoc_absent_get,
    lemma_assoc_get_found, lemma_assoc_put_absent, lemma_assoc_put_found, lemma_assoc_put_get,
    lemma_assoc_put_unique,
};
use crate::value::{Val, ValV};
use vstd::prelude::*;

verus! {

/// Most records a single poll returns per key.
pub const POLL_BATCH: usize = 10;

/// The abstract state of one log.
#[verifier::ext_equal]
pub struct LogV {
    /// The records, as pairs of assigned offset and value.
    pub records: Seq<(u64, ValV)>,
    /// The offset the next append will assign.
    pub next_offset: u64,
    /// The committed marker a client last declared.
    pub committed: u64,
}

/// The log of a key never appended to or committed.
pub open spec fn empty_log() -> LogV {
    LogV { records: Seq::empty(), next_offset: 0, committed: 0 }
}

/// Offsets are contiguous from 0: the record at position `i` has offset `i`,
/// and the next offset to assign is the record count.
pub open spec fn log_wf(l: LogV) -> bool {
    &&& l.records.len() == l.next_offset
    &&& forall|i: int| 0 <= i < l.records.len() ==> (#[trigger] l.records[i]).0 == i
}

/// One append: the record takes the next offset, which is returned and
/// advanced. A log whose offsets are exhausted is left unchanged and the
/// sentinel `u64::MAX` is returned.
pub open spec fn log_append(l: LogV, v: ValV) -> (LogV, u64) {
    if l.next_offset == u64::MAX {
        (l, u64::MAX)
    } else {
        (
            LogV {
                records: l.records.push((l.next_offset, v)),
                next_offset: (l.next_offset + 1) as u64,
                committed: l.committed,
            },
            l.next_offset,
        )
    }
}

/// One poll: at most `POLL_BATCH` records from offset `start` on, in offset
/// order.
pub open spec fn log_poll(l: LogV, start: u64) -> Seq<(u64, ValV)> {
    let len = l.records.len() as int;
    let lo = if start as int <= len {
        start as int
    } else {
        len
    };
    let hi = if start as int + POLL_BATCH as int <= len {
        start as int + POLL_BATCH as int
    } else {
        len
    };
    l.records.subrange(lo, hi)
}

/// One commit: the client's marker is taken as given.
pub open spec fn log_commit(l: LogV, offset: u64) -> LogV {
    LogV { records: l.records, next_offset: l.next_offset, committed: offset }
}

/// The log under key `k`, an untouched log when `k` is absent.
pub open spec fn log_of(s: Seq<(Seq<char>, LogV)>, k: Seq<char>) -> LogV {
    match assoc_get(s, k) {
        Some(l) => l,
        None => empty_log(),
    }
}

/// `s` with the log of `k` present: auto-creation of unknown keys.
pub open spec fn ensure_key(s: Seq<(Seq<char>, LogV)>, k: Seq<char>) -> Seq<(Seq<char>, LogV)> {
    if assoc_contains(s, k) {
        s
    } else {
        s.push((k, empty_log()))
    }
}

/// `s` with every key of `keys` present, in order.
pub open spec fn ensure_keys(s: Seq<(Seq<char>, LogV)>, keys: Seq<Seq<char>>) -> Seq<
    (Seq<char>, LogV),
>
    decreases keys.len(),
{
    if keys.len() == 0 {
        s
    } else {
        ensure_keys(ensure_key(s, keys[0]), keys.drop_first())
    }
}

/// `s` with every requested committed marker applied, in order.
pub open spec fn commit_all(s: Seq<(Seq<char>, LogV)>, reqs: Seq<(Seq<char>, u64)>) -> Seq<
    (Seq<char>, LogV),
>
    decreases reqs.len(),
{
    if reqs.len() == 0 {
        s
    } else {
        commit_all(
            assoc_put(s, reqs[0].0, log_commit(log_of(s, reqs[0].0), reqs[0].1)),
            reqs.drop_first(),
        )
    }
}

/// Ensuring a key changes no key's log.
pub proof fn lemma_ensure_key_log_of(s: Seq<(Seq<char>, LogV)>, k: Seq<char>, k2: Seq<char>)
    ensures
        log_of(ensure_key(s, k), k2) == log_of(s, k2),
{
    if !assoc_contains(s, k) {
        lemma_assoc_put_absent(s, k, empty_log());
        lemma_assoc_put_get(s, k, empty_log(), k2);
    }
}

/// The abstract view of (u64, value) pairs.
pub open spec fn pairs_view(s: Seq<(u64, Val)>) -> Seq<(u64, ValV)> {
    s.map(|i: int, p: (u64, Val)| (p.0, p.1@))
}

/// The keys of a (key, offset) request list.
pub open spec fn req_keys(s: Seq<(String, u64)>) -> Seq<Seq<char>> {
    s.map(|i: int, p: (String, u64)| p.0@)
}

/// The abstract view of a (key, offset) request list.
pub open spec fn req_views(s: Seq<(String, u64)>) -> Seq<(Seq<char>, u64)> {
    s.map(|i: int, p: (String, u64)| (p.0@, p.1))
}

/// The abstract view of a key list.
pub open spec fn key_views(s: Seq<String>) -> Seq<Seq<char>> {
    s.map(|i: int, k: String| k@)
}

struct Record {
    offset: u64,
    message: Val,
}

struct Log {
    messages: Vec<Record>,
    offset: u64,
    committed_offset: u64,
}

impl Log {
    spec fn view_log(&self) -> LogV {
        LogV {
            records: self.messages@.map(|i: int, r: Record| (r.offset, r.message@)),
            next_offset: self.offset,
            committed: self.committed_offset,
        }
    }

    fn new() -> (r: Log)
        ensures
            r.view_log() == empty_log(),
    {
        let r = Log { messages: Vec::new(), offset: 0, committed_offset: 0 };
        proof {
            assert(r.view_log().records =~= empty_log().records);
            assert(r.view_log() == empty_log());
        }
        r
    }
}

/// The keyed logs.
pub struct KLog {
    logs: Vec<(String, Log)>,
}

impl KLog {
    /// The abstract state: each key's log, in creation order.
    pub closed spec fn logs_view(&self) -> Seq<(Seq<char>, LogV)> {
        self.logs@.map(|i: int, p: (String, Log)| (p.0@, p.1.view_log()))
    }

    /// Keys are unique and every log is well formed.
    pub open spec fn wf(&self) -> bool {
        &&& assoc_unique(self.logs_view())
        &&& forall|i: int|
            0 <= i < self.logs_view().len() ==> log_wf((#[trigger] self.logs_view()[i]).1)
    }

    pub fn new() -> (r: KLog)
        ensures
            r.logs_view() == Seq::<(Seq<char>, LogV)>::empty(),
            r.wf(),
    {
        let r = KLog { logs: Vec::new() };
        proof {
            assert(r.logs_view() =~= Seq::<(Seq<char>, LogV)>::empty());
        }
        r
    }

    /// The index of `key`'s log, creating it when absent.
    fn ensure_log(&mut self, key: &String) -> (idx: usize)
        requires
            old(self).wf(),
        ensures
            final(self).wf(),
            final(self).logs_view() == ensure_key(old(self).logs_view(), key@),
            idx < final(self).logs_view().len(),
            final(self).logs_view()[idx as int] == (key@, log_of(old(self).logs_view(), key@)),
            forall|j: int|
                0 <= j < idx ==> (#[trigger] final(self).logs_view()[j]).0 != key@,
    {
        let ghost s = self.logs_view();
        let mut i: usize = 0;
        #[verifier::loop_isolation(false)]
        while i < self.logs.len()
            invariant
                i <= self.logs.len(),
                self == old(self),
                forall|j: int| 0 <= j < i ==> (#[trigger] s[j]).0 != key@,
            decreases self.logs.len() - i,
        {
            if self.logs[i].0.key_eq(key) {
                proof {
                    lemma_assoc_get_found(s, key@, i as int);
                }
                return i;
            }
            i = i + 1;
        }
        proof {
            lemma_assoc_absent_get(s, key@);
        }
        let idx = self.logs.len();
        self.logs.push((key.clone(), Log::new()));
        proof {
            assert(self.logs_view() =~= s.push((key@, empty_log())));
            assert forall|a: int, b: int|
                0 <= a < b < self.logs_view().len() implies (#[trigger] self.logs_view()[a]).0 != (
            #[trigger] self.logs_view()[b]).0 by {
                if b < s.len() {
                } else {
                    assert(self.logs_view()[b].0 == key@);
                }
            }
        }
        idx
    }

    /// Appends `message` to `key`'s log, creating it first when absent, and
    /// returns the assigned offset.
    pub fn handle_append(&mut self, key: String, message: Val) -> (offset: u64)
        requires
            old(self).wf(),
        ensures
            final(self).wf(),
            final(self).logs_view() == assoc_put(
                old(self).logs_view(),
                key@,
                log_append(log_of(old(self).logs_view(), key@), message@).0,
            ),
            offset == log_append(log_of(old(self).logs_view(), key@), message@).1,
    {
        let ghost s0 = self.logs_view();
        let ghost l0 = log_of(s0, key@);
        let idx = self.ensure_log(&key);
        let ghost mid = self.logs_view();
        let current = self.logs[idx].1.offset;
        proof {
            assert(mid[idx as int].1 == l0);
        }
        if current == u64::MAX {
            proof {
                lemma_assoc_put_found(mid, key@, l0, idx as int);
                assert(mid.update(idx as int, (key@, l0)) =~= mid);
                if assoc_contains(s0, key@) {
                    lemma_assoc_put_found(s0, key@, l0, idx as int);
                    assert(s0.update(idx as int, (key@, l0)) =~= s0);
                } else {
                    lemma_assoc_absent_get(mid.subrange(0, idx as int), key@);
                    lemma_assoc_put_absent(s0, key@, l0);
                }
            }
            return u64::MAX;
        }
        let ghost l1 = log_append(l0, message@).0;
        self.logs[idx].1.messages.push(Record { offset: current, message });
        self.logs[idx].1.offset = current + 1;
        proof {
            let lw = self.logs@[idx as int].1.view_log();
            assert(lw.records =~= l1.records);
            assert(lw =~= l1);
            assert(self.logs_view() =~= mid.update(idx as int, (key@, l1)));
            if assoc_contains(s0, key@) {
                lemma_assoc_put_found(s0, key@, l1, idx as int);
                assert(mid == s0);
            } else {
                lemma_assoc_put_absent(s0, key@, l1);
                assert(mid == s0.push((key@, empty_log())));
                assert(idx as int == s0.len()) by {
                    if (idx as int) < s0.len() {
                        assert(forall|j: int|
                            0 <= j < idx ==> (#[trigger] s0[j]).0 == mid[j].0 && mid[j].0 != key@);
                        lemma_assoc_get_found(s0, key@, idx as int);
                    }
                }
                assert(self.logs_view() =~= s0.push((key@, l1)));
            }
            lemma_assoc_put_unique(s0, key@, l1);
            assert(log_wf(l1));
        }
        current
    }

    /// Polls each requested key from its requested offset: one result entry
    /// per request entry, in request order. Unknown keys are created and
    /// yield an empty batch.
    pub fn handle_poll(&mut self, offsets: Vec<(String, u64)>) -> (r: Vec<(String, Vec<(u64, Val)>)>)
        requires
            old(self).wf(),
        ensures
            final(self).wf(),
            final(self).logs_view() == ensure_keys(old(self).logs_view(), req_keys(offsets@)),
            r@.len() == offsets@.len(),
            forall|i: int|
                0 <= i < r@.len() ==> (#[trigger] r@[i]).0@ == offsets@[i].0@ && pairs_view(
                    r@[i].1@,
                ) == log_poll(log_of(old(self).logs_view(), offsets@[i].0@), offsets@[i].1),
    {
        let ghost s0 = self.logs_view();
        let ghost keys = req_keys(offsets@);
        let mut out: Vec<(String, Vec<(u64, Val)>)> = Vec::new();
        let mut i: usize = 0;
        #[verifier::loop_isolation(false)]
        while i < offsets.len()
            invariant
                i <= offsets.len(),
                self.wf(),
                self.logs_view() == ensure_keys(s0, keys.take(i as int)),
                forall|k: Seq<char>| #[trigger] log_of(self.logs_view(), k) == log_of(s0, k),
                out@.len() == i,
                forall|j: int|
                    0 <= j < i ==> (#[trigger] out@[j]).0@ == offsets@[j].0@ && pairs_view(
                        out@[j].1@,
                    ) == log_poll(log_of(s0, offsets@[j].0@), offsets@[j].1),
            decreases offsets.len() - i,
        {
            let ghost pre = self.logs_view();
            let key = offsets[i].0.clone_value();
            let start = offsets[i].1;
            let idx = self.ensure_log(&key);
            let batch = poll_records(&self.logs[idx].1, start);
            proof {
                assert(self.logs_view()[idx as int].1 == log_of(pre, key@));
                assert(log_of(pre, key@) == log_of(s0, key@));
                assert(keys.take(i as int + 1).drop_last() =~= keys.take(i as int));
                lemma_ensure_keys_snoc(s0, keys, i as int);
                assert forall|k: Seq<char>| #[trigger]
                    log_of(self.logs_view(), k) == log_of(s0, k) by {
                    lemma_ensure_key_log_of(pre, key@, k);
                }
            }
            out.push((key, batch));
            i = i + 1;
        }
        proof {
            assert(keys.take(i as int) =~= keys);
        }
        out
    }

    /// Sets each requested committed marker, creating unknown logs first. No
    /// monotonicity is enforced: the broker trusts the client's marker.
    pub fn handle_commit_offsets(&mut self, offsets: Vec<(String, u64)>)
        requires
            old(self).wf(),
        ensures
            final(self).wf(),
            final(self).logs_view() == commit_all(old(self).logs_view(), req_views(offsets@)),
    {
        let ghost s0 = self.logs_view();
        let ghost reqs = req_views(offsets@);
        let mut i: usize = 0;
        #[verifier::loop_isolation(false)]
        while i < offsets.len()
            invariant
                i <= offsets.len(),
                self.wf(),
                self.logs_view() == commit_all(s0, reqs.take(i as int)),
            decreases offsets.len() - i,
        {
            let ghost pre = self.logs_view();
            let key = offsets[i].0.clone_value();
            let target = offsets[i].1;
            let idx = self.ensure_log(&key);
            let ghost mid = self.logs_view();
            let ghost l0 = log_of(pre, key@);
            let ghost l1 = log_commit(l0, target);
            self.logs[idx].1.committed_offset = target;
            proof {
                let lw = self.logs@[idx as int].1.view_log();
                assert(lw.records =~= l1.records);
                assert(lw =~= l1);
                assert(self.logs_view() =~= mid.update(idx as int, (key@, l1)));
                if assoc_contains(pre, key@) {
                    lemma_assoc_put_found(pre, key@, l1, idx as int);
                    assert(mid == pre);
                } else {
                    lemma_assoc_put_absent(pre, key@, l1);
                    assert(mid == pre.push((key@, empty_log())));
                    assert(idx as int == pre.len()) by {
                        if (idx as int) < pre.len() {
                            assert(forall|j: int|
                                0 <= j < idx ==> (#[trigger] pre[j]).0 == mid[j].0 && mid[j].0
                                    != key@);
                            lemma_assoc_get_found(pre, key@, idx as int);
                        }
                    }
                    assert(self.logs_view() =~= pre.push((key@, l1)));
                }
                lemma_assoc_put_unique(pre, key@, l1);
                assert(reqs.take(i as int + 1).drop_last() =~= reqs.take(i as int));
                lemma_commit_all_snoc(s0, reqs, i as int);
            }
            i = i + 1;
        }
        proof {
            assert(reqs.take(i as int) =~= reqs);
        }
    }

    /// The committed marker of each requested key, 0 when none was ever
    /// declared. Unknown keys are created.
    pub fn handle_list_committed_offsets(&mut self, logs: Vec<String>) -> (r: Vec<(String, u64)>)
        requires
            old(self).wf(),
        ensures
            final(self).wf(),
            final(self).logs_view() == ensure_keys(old(self).logs_view(), key_views(logs@)),
            r@.len() == logs@.len(),
            forall|i: int|
                0 <= i < r@.len() ==> (#[trigger] r@[i]).0@ == logs@[i]@ && r@[i].1 == log_of(
                    old(self).logs_view(),
                    logs@[i]@,
                ).committed,
    {
        let ghost s0 = self.logs_view();
        let ghost keys = key_views(logs@);
        let mut out: Vec<(String, u64)> = Vec::new();
        let mut i: usize = 0;
        #[verifier::loop_isolation(false)]
        while i < logs.len()
            invariant
                i <= logs.len(),
                self.wf(),
                self.logs_view() == ensure_keys(s0, keys.take(i as int)),
                forall|k: Seq<char>| #[trigger] log_of(self.logs_view(), k) == log_of(s0, k),
                out@.len() == i,
                forall|j: int|
                    0 <= j < i ==> (#[trigger] out@[j]).0@ == logs@[j]@ && out@[j].1 == log_of(
                        s0,
                        logs@[j]@,
                    ).committed,
            decreases logs.len() - i,
        {
            let ghost pre = self.logs_view();
            let key = logs[i].clone_value();
            let idx = self.ensure_log(&key);
            let committed = self.logs[idx].1.committed_offset;
            proof {
                assert(self.logs_view()[idx as int].1 == log_of(pre, key@));
                assert(keys.take(i as int + 1).drop_last() =~= keys.take(i as int));
                lemma_ensure_keys_snoc(s0, keys, i as int);
                assert forall|k: Seq<char>| #[trigger]
                    log_of(self.logs_view(), k) == log_of(s0, k) by {
                    lemma_ensure_key_log_of(pre, key@, k);
                }
            }
            out.push((key, committed));
            i = i + 1;
        }
        proof {
            assert(keys.take(i as int) =~= keys);
        }
        out
    }
}

/// Extending a prefix of ensured keys by one key.
proof fn lemma_ensure_keys_snoc(s: Seq<(Seq<char>, LogV)>, keys: Seq<Seq<char>>, i: int)
    requires
        0 <= i < keys.len(),
    ensures
        ensure_keys(s, keys.take(i + 1)) == ensure_key(ensure_keys(s, keys.take(i)), keys[i]),
    decreases i,
{
    lemma_ensure_keys_push(s, keys.take(i), keys[i]);
    assert(keys.take(i).push(keys[i]) =~= keys.take(i + 1));
}

/// `ensure_keys` over a sequence ending in `k` ensures the prefix first,
/// then `k`.
proof fn lemma_ensure_keys_push(s: Seq<(Seq<char>, LogV)>, keys: Seq<Seq<char>>, k: Seq<char>)
    ensures
        ensure_keys(s, keys.push(k)) == ensure_key(ensure_keys(s, keys), k),
    decreases keys.len(),
{
    let e = keys.push(k);
    reveal_with_fuel(ensure_keys, 3);
    if keys.len() == 0 {
        assert(e[0] == k);
        assert(e.drop_first() =~= Seq::<Seq<char>>::empty());
    } else {
        assert(e[0] == keys[0]);
        assert(e.drop_first() =~= keys.drop_first().push(k));
        lemma_ensure_keys_push(ensure_key(s, keys[0]), keys.drop_first(), k);
    }
}

/// Extending a prefix of applied commits by one request.
proof fn lemma_commit_all_snoc(s: Seq<(Seq<char>, LogV)>, reqs: Seq<(Seq<char>, u64)>, i: int)
    requires
        0 <= i < reqs.len(),
    ensures
        commit_all(s, reqs.take(i + 1)) == assoc_put(
            commit_all(s, reqs.take(i)),
            reqs[i].0,
            log_commit(log_of(commit_all(s, reqs.take(i)), reqs[i].0), reqs[i].1),
        ),
{
    lemma_commit_all_push(s, reqs.take(i), reqs[i]);
    assert(reqs.take(i).push(reqs[i]) =~= reqs.take(i + 1));
}

/// `commit_all` over a sequence ending in `q` applies the prefix first,
/// then `q`.
proof fn lemma_commit_all_push(s: Seq<(Seq<char>, LogV)>, reqs: Seq<(Seq<char>, u64)>, q: (
    Seq<char>,
    u64,
))
    ensures
        commit_all(s, reqs.push(q)) == assoc_put(
            commit_all(s, reqs),
            q.0,
            log_commit(log_of(commit_all(s, reqs), q.0), q.1),
        ),
    decreases reqs.len(),
{
    let e = reqs.push(q);
    reveal_with_fuel(commit_all, 3);
    if reqs.len() == 0 {
        assert(e[0] == q);
        assert(e.drop_first() =~= Seq::<(Seq<char>, u64)>::empty());
    } else {
        assert(e[0] == reqs[0]);
        assert(e.drop_first() =~= reqs.drop_first().push(q));
        lemma_commit_all_push(
            assoc_put(s, reqs[0].0, log_commit(log_of(s, reqs[0].0), reqs[0].1)),
            reqs.drop_first(),
            q,
        );
    }
}

/// At most `POLL_BATCH` records of `log` from offset `start` on.
fn poll_records(log: &Log, start: u64) -> (r: Vec<(u64, Val)>)
    requires
        log_wf(log.view_log()),
    ensures
        pairs_view(r@) == log_poll(log.view_log(), start),
{
    let ghost lv = log.view_log();
    let mut out: Vec<(u64, Val)> = Vec::new();
    let len = log.messages.len();
    if start >= len as u64 {
        proof {
            assert(pairs_view(out@) =~= log_poll(lv, start));
        }
        return out;
    }
    let lo = start as usize;
    let ghost hi = if start as int + POLL_BATCH as int <= len as int {
        start as int + POLL_BATCH as int
    } else {
        len as int
    };
    let mut j: usize = lo;
    #[verifier::loop_isolation(false)]
    while j < len && out.len() < POLL_BATCH
        invariant
            lo <= j <= len,
            j - lo == out@.len(),
            j <= hi,
            out@.len() < POLL_BATCH ==> j < hi + 1,
            forall|w: int|
                0 <= w < out@.len() ==> (#[trigger] out@[w]).0 == lv.records[lo + w].0 && out@[w].1@
                    == lv.records[lo + w].1,
        decreases len - j,
    {
        out.push((log.messages[j].offset, log.messages[j].message.dup()));
        j = j + 1;
    }
    proof {
        assert(j == hi);
        assert(pairs_view(out@) =~= lv.records.subrange(lo as int, hi));
        assert(pairs_view(out@) =~= log_poll(lv, start));
    }
    out
}

/// Offsets come out contiguously: a poll from `start` returns records at
/// offsets `start, start + 1, ...`, up to `POLL_BATCH` of them, and from 0
/// that is offsets `0, 1, 2, ...` up to the smaller of `POLL_BATCH` and the
/// record count.
pub proof fn lemma_poll_contiguous(l: LogV, start: u64)
    requires
        log_wf(l),
    ensures
        log_poll(l, start).len() == (if start as int <= l.records.len() as int {
            if start as int + POLL_BATCH as int <= l.records.len() as int {
                POLL_BATCH as int
            } else {
                l.records.len() - start
            }
        } else {
            0
        }),
        forall|j: int|
            0 <= j < log_poll(l, start).len() ==> (#[trigger] log_poll(l, start)[j]).0 == start
                + j,
{
}

/// Round trip: an append that returned offset `o`, followed by a poll of the
/// same key from `o`, yields the appended record `(o, v)` first.
pub proof fn lemma_send_then_poll(logs: Seq<(Seq<char>, LogV)>, k: Seq<char>, v: ValV)
    requires
        log_wf(log_of(logs, k)),
        log_of(logs, k).next_offset < u64::MAX,
    ensures
        ({
            let appended = log_append(log_of(logs, k), v).0;
            let o = log_append(log_of(logs, k), v).1;
            let batch = log_poll(log_of(assoc_put(logs, k, appended), k), o);
            batch.len() >= 1 && batch[0] == (o, v)
        }),
{
    let l = log_of(logs, k);
    let appended = log_append(l, v).0;
    let o = log_append(l, v).1;
    lemma_assoc_put_get(logs, k, appended, k);
    assert(log_of(assoc_put(logs, k, appended), k) == appended);
    let batch = log_poll(appended, o);
    assert(appended.records.len() == l.records.len() + 1);
    assert(batch =~= appended.records.subrange(o as int, o as int + 1));
    assert(batch[0] == appended.records[o as int]);
    assert(appended.records[l.records.len() as int] == (o, v));
}

/// Round trip: committing offset `o` under key `k`, then listing `k`,
/// reports `o`.
pub proof fn lemma_commit_then_list(logs: Seq<(Seq<char>, LogV)>, k: Seq<char>, o: u64)
    ensures
        log_of(commit_all(logs, seq![(k, o)]), k).committed == o,
{
    reveal_with_fuel(commit_all, 3);
    let req = seq![(k, o)];
    assert(req.drop_first() =~= Seq::<(Seq<char>, u64)>::empty());
    lemma_assoc_put_get(logs, k, log_commit(log_of(logs, k), o), k);
}

/// A poll of a key never appended to returns an empty batch, whatever the
/// requested offset, and is not an error.
pub proof fn lemma_poll_unseen_key(logs: Seq<(Seq<char>, LogV)>, k: Seq<char>, start: u64)
    requires
        !assoc_contains(logs, k),
    ensures
        log_poll(log_of(logs, k), start) == Seq::<(u64, ValV)>::empty(),
{
    assert(log_poll(empty_log(), start) =~= Seq::<(u64, ValV)>::empty());
}

} // verus!
