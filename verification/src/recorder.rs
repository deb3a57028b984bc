//! The dedup recorder: at most one recorded visit per identity per day.
//!
//! A visit log holds `(day, identity)` rows and relies on exactly one rule:
//! a pair is inserted only if it is not present yet.  The protocol step —
//! what one recording attempt does to the rows, and which outcome it
//! reports — is stated once as a pair of spec functions
//! ([`rows_after_attempt`], [`attempt_outcome`]); the executable recorder is
//! proved to follow it, and the protocol's laws are proved about it.
//!
//! The backing datastore of a deployment enforces the same rule through a
//! uniqueness constraint; its driver's answer is translated at the edge into
//! an [`InsertResult`](crate::outcome::InsertResult) and classified by
//! [`outcome_of_insert`](crate::outcome::outcome_of_insert).

use vstd::prelude::*;
use crate::date::day_of_timestamp;
use crate::date::timestamp_day;
use crate::outcome::Outcome;

verus! {

/// One recorded visit: a day index and an identity digest.
pub struct VisitRecord {
    pub day: u64,
    pub identity: Vec<u8>,
}

/// The rows contain the pair `(day, id)`.
pub open spec fn contains_pair(rows: Seq<(int, Seq<u8>)>, day: int, id: Seq<u8>) -> bool {
    exists|i: int| 0 <= i < rows.len() && rows[i] == (day, id)
}

/// No `(day, identity)` pair occurs twice.
pub open spec fn no_duplicate_rows(rows: Seq<(int, Seq<u8>)>) -> bool {
    forall|i: int, j: int| 0 <= i < j < rows.len() ==> rows[i] != rows[j]
}

/// How often the pair `(day, id)` occurs among the rows.
pub open spec fn pair_count(rows: Seq<(int, Seq<u8>)>, day: int, id: Seq<u8>) -> int
    decreases rows.len(),
{
    if rows.len() == 0 {
        0
    } else {
        pair_count(rows.drop_last(), day, id) + if rows.last() == (day, id) {
            1int
        } else {
            0int
        }
    }
}

/// The protocol step, state part: one attempt on `(day, id)` appends the
/// pair if it is absent and leaves the rows unchanged if it is present.
pub open spec fn rows_after_attempt(rows: Seq<(int, Seq<u8>)>, day: int, id: Seq<u8>) -> Seq<
    (int, Seq<u8>),
> {
    if contains_pair(rows, day, id) {
        rows
    } else {
        rows.push((day, id))
    }
}

/// The protocol step, outcome part: the attempt that records the pair is
/// the first visit of the day; an attempt on a recorded pair is already
/// counted.  A step never fails.
pub open spec fn attempt_outcome(rows: Seq<(int, Seq<u8>)>, day: int, id: Seq<u8>) -> Outcome {
    if contains_pair(rows, day, id) {
        Outcome::AlreadyCounted
    } else {
        Outcome::FirstVisitToday
    }
}

/// Byte-for-byte equality of two identity digests.
fn bytes_eq(a: &Vec<u8>, b: &Vec<u8>) -> (r: bool)
    ensures
        r == (a@ == b@),
{
    if a.len() != b.len() {
        return false;
    }
    let mut k: usize = 0;
    while k < a.len()
        invariant
            a@.len() == b@.len(),
            k <= a@.len(),
            forall|i: int| 0 <= i < k ==> a@[i] == b@[i],
        decreases a@.len() - k,
    {
        if a[k] != b[k] {
            return false;
        }
        k = k + 1;
    }
    proof {
        assert(a@ =~= b@);
    }
    true
}

/// A log of recorded visits, with at most one row per `(day, identity)`
/// pair.
pub struct VisitLog {
    records: Vec<VisitRecord>,
}

impl VisitLog {
    /// The rows of the log, each as a `(day, identity)` pair.
    pub closed spec fn rows(&self) -> Seq<(int, Seq<u8>)> {
        self.records@.map(|i: int, r: VisitRecord| (r.day as int, r.identity@))
    }

    /// The log's invariant: the pair `(day, identity)` is unique across all
    /// rows.
    pub open spec fn wf(&self) -> bool {
        no_duplicate_rows(self.rows())
    }

    /// An empty log.
    pub fn new() -> (log: VisitLog)
        ensures
            log.rows() =~= Seq::<(int, Seq<u8>)>::empty(),
            log.wf(),
    {
        let log = VisitLog { records: Vec::new() };
        proof {
            assert(log.rows() =~= Seq::<(int, Seq<u8>)>::empty());
        }
        log
    }

    /// How many rows the log holds.
    pub fn len(&self) -> (n: usize)
        ensures
            n == self.rows().len(),
    {
        self.records.len()
    }

    /// Whether `(day, id)` is already recorded.
    fn contains(&self, day: u64, id: &Vec<u8>) -> (found: bool)
        ensures
            found == contains_pair(self.rows(), day as int, id@),
    {
        let n = self.records.len();
        let mut k: usize = 0;
        while k < n
            invariant
                n == self.records.len(),
                k <= n,
                self.rows().len() == n,
                forall|i: int| 0 <= i < k ==> self.rows()[i] != (day as int, id@),
            decreases n - k,
        {
            let rec = &self.records[k];
            if rec.day == day && bytes_eq(&rec.identity, id) {
                assert(self.rows()[k as int] == (day as int, id@));
                return true;
            }
            assert(self.rows()[k as int] != (day as int, id@));
            k = k + 1;
        }
        false
    }

    /// Record a visit: truncate the timestamp to its day, then record the
    /// pair `(day, identity)` at most once.  The log changes and the
    /// outcome reports exactly as the protocol step says; recording into a
    /// log never fails.
    pub fn record_visit(&mut self, identity: Vec<u8>, now_secs: u64) -> (o: Outcome)
        requires
            old(self).wf(),
        ensures
            final(self).wf(),
            final(self).rows() == rows_after_attempt(
                old(self).rows(),
                day_of_timestamp(now_secs as int),
                identity@,
            ),
            o == attempt_outcome(old(self).rows(), day_of_timestamp(now_secs as int), identity@),
            !(o matches Outcome::Failure(_)),
    {
        let day = timestamp_day(now_secs);
        if self.contains(day, &identity) {
            Outcome::AlreadyCounted
        } else {
            let ghost before = self.rows();
            let ghost pair = (day as int, identity@);
            self.records.push(VisitRecord { day, identity });
            proof {
                assert(self.rows() =~= before.push(pair));
                assert forall|i: int, j: int|
                    0 <= i < j < self.rows().len() implies self.rows()[i] != self.rows()[j] by {
                    if j == self.rows().len() - 1 {
                        assert(!contains_pair(before, pair.0, pair.1));
                        assert(self.rows()[j] == pair);
                    }
                }
            }
            Outcome::FirstVisitToday
        }
    }
}

/// The first attempt on a pair that is not yet recorded is the first visit
/// of the day, and once the pair is recorded, an attempt on it is already
/// counted and changes nothing.
pub proof fn lemma_first_visit_then_repeat(rows: Seq<(int, Seq<u8>)>, day: int, id: Seq<u8>)
    requires
        !contains_pair(rows, day, id),
    ensures
        attempt_outcome(rows, day, id) == Outcome::FirstVisitToday,
        contains_pair(rows_after_attempt(rows, day, id), day, id),
        attempt_outcome(rows_after_attempt(rows, day, id), day, id) == Outcome::AlreadyCounted,
        rows_after_attempt(rows_after_attempt(rows, day, id), day, id) == rows_after_attempt(
            rows,
            day,
            id,
        ),
{
    let rows1 = rows_after_attempt(rows, day, id);
    assert(rows1[rows.len() as int] == (day, id));
}

/// A recorded pair stays recorded: no later attempt, on any pair, removes
/// it, and an attempt on it keeps reporting already counted.  With
/// [`lemma_first_visit_then_repeat`] this gives the full law: after the
/// first visit of a day, every subsequent attempt with the same pair is
/// already counted, whatever else was recorded in between.
pub proof fn lemma_recorded_is_stable(
    rows: Seq<(int, Seq<u8>)>,
    day: int,
    id: Seq<u8>,
    day2: int,
    id2: Seq<u8>,
)
    requires
        contains_pair(rows, day, id),
    ensures
        attempt_outcome(rows, day, id) == Outcome::AlreadyCounted,
        contains_pair(rows_after_attempt(rows, day2, id2), day, id),
{
    let i = choose|i: int| 0 <= i < rows.len() && rows[i] == (day, id);
    assert(rows_after_attempt(rows, day2, id2)[i] == (day, id));
}

/// Appending a pair raises its count by one and leaves every other pair's
/// count unchanged.
proof fn lemma_pair_count_push(
    rows: Seq<(int, Seq<u8>)>,
    p: (int, Seq<u8>),
    day: int,
    id: Seq<u8>,
)
    ensures
        pair_count(rows.push(p), day, id) == pair_count(rows, day, id) + if p == (day, id) {
            1int
        } else {
            0int
        },
{
    assert(rows.push(p).drop_last() =~= rows);
    assert(rows.push(p).last() == p);
}

/// A pair that is not recorded has count zero.
proof fn lemma_absent_pair_count_zero(rows: Seq<(int, Seq<u8>)>, day: int, id: Seq<u8>)
    requires
        !contains_pair(rows, day, id),
    ensures
        pair_count(rows, day, id) == 0,
    decreases rows.len(),
{
    if rows.len() > 0 {
        assert forall|i: int| 0 <= i < rows.drop_last().len() implies rows.drop_last()[i] != (
            day,
            id,
        ) by {
            assert(rows[i] == rows.drop_last()[i]);
        }
        lemma_absent_pair_count_zero(rows.drop_last(), day, id);
        assert(rows.last() != (day, id));
    }
}

/// Two attempts on the same fresh pair, serialized in either order by the
/// uniqueness rule: exactly one reports the first visit, the other is
/// already counted, no duplicate row is ever persisted, and neither attempt
/// fails.  The two orders coincide because the attempts carry the same
/// pair.
pub proof fn lemma_concurrent_first_attempts(rows: Seq<(int, Seq<u8>)>, day: int, id: Seq<u8>)
    requires
        no_duplicate_rows(rows),
        !contains_pair(rows, day, id),
    ensures
        attempt_outcome(rows, day, id) == Outcome::FirstVisitToday,
        attempt_outcome(rows_after_attempt(rows, day, id), day, id) == Outcome::AlreadyCounted,
        rows_after_attempt(rows_after_attempt(rows, day, id), day, id) == rows_after_attempt(
            rows,
            day,
            id,
        ),
        pair_count(rows_after_attempt(rows, day, id), day, id) == 1,
        !(attempt_outcome(rows, day, id) matches Outcome::Failure(_)),
        !(attempt_outcome(rows_after_attempt(rows, day, id), day, id) matches Outcome::Failure(_)),
{
    lemma_first_visit_then_repeat(rows, day, id);
    lemma_absent_pair_count_zero(rows, day, id);
    lemma_pair_count_push(rows, (day, id), day, id);
}

/// How many rows carry day `day`.
pub open spec fn day_row_count(rows: Seq<(int, Seq<u8>)>, day: int) -> int
    decreases rows.len(),
{
    if rows.len() == 0 {
        0
    } else {
        day_row_count(rows.drop_last(), day) + if rows.last().0 == day {
            1int
        } else {
            0int
        }
    }
}

/// The distinct identities among the rows of day `day`.
pub open spec fn day_identities(rows: Seq<(int, Seq<u8>)>, day: int) -> Set<Seq<u8>>
    decreases rows.len(),
{
    if rows.len() == 0 {
        Set::empty()
    } else {
        let rest = day_identities(rows.drop_last(), day);
        if rows.last().0 == day {
            rest.insert(rows.last().1)
        } else {
            rest
        }
    }
}

/// The identities of a day are exactly the identities whose pair with that
/// day is recorded, and there are finitely many of them.
pub proof fn lemma_day_identities_members(rows: Seq<(int, Seq<u8>)>, day: int)
    ensures
        day_identities(rows, day).finite(),
        forall|id: Seq<u8>|
            day_identities(rows, day).contains(id) <==> contains_pair(rows, day, id),
    decreases rows.len(),
{
    if rows.len() > 0 {
        let rest = rows.drop_last();
        lemma_day_identities_members(rest, day);
        assert forall|id: Seq<u8>|
            day_identities(rows, day).contains(id) implies contains_pair(rows, day, id) by {
            if rows.last().0 == day && id == rows.last().1 {
                assert(rows.last() == (rows.last().0, rows.last().1));
                assert(rows[rows.len() - 1] == (day, id));
            } else {
                assert(contains_pair(rest, day, id));
                let i = choose|i: int| 0 <= i < rest.len() && rest[i] == (day, id);
                assert(rows[i] == (day, id));
            }
        }
        assert forall|id: Seq<u8>|
            contains_pair(rows, day, id) implies day_identities(rows, day).contains(id) by {
            let i = choose|i: int| 0 <= i < rows.len() && rows[i] == (day, id);
            if i < rows.len() - 1 {
                assert(rest[i] == (day, id));
                assert(contains_pair(rest, day, id));
            } else {
                assert(rows.last() == (day, id));
            }
        }
    }
}

/// The counting form of the per-day bound: in a log without duplicate
/// pairs, the number of rows recorded for a day equals the number of
/// distinct identities recorded for it — and so never exceeds the number
/// of distinct identities observed that day, since only an observed
/// identity is ever recorded.
pub proof fn lemma_day_count_bound(rows: Seq<(int, Seq<u8>)>, day: int)
    requires
        no_duplicate_rows(rows),
    ensures
        day_row_count(rows, day) == day_identities(rows, day).len(),
    decreases rows.len(),
{
    lemma_day_identities_members(rows, day);
    if rows.len() > 0 {
        let rest = rows.drop_last();
        assert(no_duplicate_rows(rest)) by {
            assert forall|i: int, j: int|
                0 <= i < j < rest.len() implies rest[i] != rest[j] by {
                assert(rows[i] == rest[i]);
                assert(rows[j] == rest[j]);
            }
        }
        lemma_day_identities_members(rest, day);
        lemma_day_count_bound(rest, day);
        if rows.last().0 == day {
            assert(!day_identities(rest, day).contains(rows.last().1)) by {
                if contains_pair(rest, day, rows.last().1) {
                    let i = choose|i: int|
                        0 <= i < rest.len() && rest[i] == (day, rows.last().1);
                    assert(rows[i] == (day, rows.last().1));
                    assert(rows.last() == (rows.last().0, rows.last().1));
                    assert(rows[i] == rows[rows.len() - 1]);
                }
            }
        }
    }
}

/// On any single day, a log without duplicate pairs holds at most one row
/// per identity: two distinct rows of the same day carry distinct
/// identities.  The rows recorded for a day therefore never outnumber the
/// distinct identities that attempted a visit on that day.
pub proof fn lemma_day_rows_have_distinct_identities(rows: Seq<(int, Seq<u8>)>, day: int)
    requires
        no_duplicate_rows(rows),
    ensures
        forall|i: int, j: int|
            0 <= i < j < rows.len() && rows[i].0 == day && rows[j].0 == day ==> rows[i].1
                != rows[j].1,
{
    assert forall|i: int, j: int|
        0 <= i < j < rows.len() && rows[i].0 == day && rows[j].0 == day implies rows[i].1
        != rows[j].1 by {
        assert(rows[i] != rows[j]);
        if rows[i].1 == rows[j].1 {
            assert(rows[i] == (rows[i].0, rows[i].1));
            assert(rows[j] == (rows[j].0, rows[j].1));
        }
    }
}

/// The recorder's outcome agrees with the classification at the datastore
/// edge: an attempt on an absent pair is the insert that succeeds, an
/// attempt on a recorded pair is the insert the uniqueness constraint
/// rejects, and nothing else ever reaches the classification.
pub proof fn lemma_attempt_matches_edge_classification(
    rows: Seq<(int, Seq<u8>)>,
    day: int,
    id: Seq<u8>,
)
    ensures
        attempt_outcome(rows, day, id) == crate::outcome::outcome_for(
            if contains_pair(rows, day, id) {
                crate::outcome::InsertResult::DuplicatePair
            } else {
                crate::outcome::InsertResult::Inserted
            },
        ),
{
}

} // verus!
