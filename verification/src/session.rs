//! Recording sessions: the stored audio chunks are grouped into sessions
//! wherever two consecutive chunks lie more than three seconds apart.

use vstd::prelude::*;

verus! {

/// Two recordings further apart than this many milliseconds belong to
/// different sessions.
pub const SESSION_GAP_MS: i64 = 3000;

/// A span of recording time, in milliseconds since the epoch.
#[derive(Clone, Copy, Debug, PartialEq, Eq, Structural)]
pub struct Session {
    pub start_ms: i64,
    pub end_ms: i64,
}

/// A new session starts at `next` when it follows `prev` by more than the gap.
pub open spec fn is_gap(prev: i64, next: i64) -> bool {
    next - prev > SESSION_GAP_MS
}

/// The start of the session that the last of `records` belongs to
/// (0 when there are no records).
pub open spec fn run_start(records: Seq<i64>) -> i64
    decreases records.len(),
{
    if records.len() == 0 {
        0
    } else if records.len() == 1 {
        records[0]
    } else if is_gap(records[records.len() - 2], records.last()) {
        records.last()
    } else {
        run_start(records.drop_last())
    }
}

/// The sessions that a later gap has already closed: each runs from the
/// first record after a gap (or the first record) to the record before the
/// next gap.
pub open spec fn closed_sessions(records: Seq<i64>) -> Seq<Session>
    decreases records.len(),
{
    if records.len() <= 1 {
        Seq::empty()
    } else {
        let prefix = records.drop_last();
        if is_gap(prefix.last(), records.last()) {
            closed_sessions(prefix).push(Session { start_ms: run_start(prefix), end_ms: prefix.last() })
        } else {
            closed_sessions(prefix)
        }
    }
}

/// The end given to the last session: the second-to-last record, or 0 when
/// there are fewer than two records.
pub open spec fn last_session_end(records: Seq<i64>) -> i64 {
    if records.len() >= 2 {
        records[records.len() - 2]
    } else {
        0
    }
}

/// The sessions computed from the recording times: the closed sessions,
/// then one more that starts at the start of the last run and ends at
/// `last_session_end`.
pub open spec fn sessions_of(records: Seq<i64>) -> Seq<Session> {
    closed_sessions(records).push(
        Session { start_ms: run_start(records), end_ms: last_session_end(records) },
    )
}

/// The difference of any two neighbouring records fits in an `i64`.
pub open spec fn gaps_fit(records: Seq<i64>) -> bool {
    forall|k: int|
        1 <= k < records.len() ==> i64::MIN <= #[trigger] records[k] - records[k - 1] <= i64::MAX
}

/// The bytes of the rows recorded within `[start, end]`, concatenated in the
/// order of the rows.
pub open spec fn samples_in(rows: Seq<(i64, Vec<u8>)>, start: i64, end: i64) -> Seq<u8>
    decreases rows.len(),
{
    if rows.len() == 0 {
        Seq::empty()
    } else {
        let before = samples_in(rows.drop_last(), start, end);
        let row = rows.last();
        if start <= row.0 && row.0 <= end {
            before + row.1@
        } else {
            before
        }
    }
}

/// How many neighbouring pairs of records are separated by a gap.
pub open spec fn gap_count(records: Seq<i64>) -> nat
    decreases records.len(),
{
    if records.len() <= 1 {
        0
    } else if is_gap(records[records.len() - 2], records.last()) {
        gap_count(records.drop_last()) + 1
    } else {
        gap_count(records.drop_last())
    }
}

/// The records never decrease.
pub open spec fn is_sorted(records: Seq<i64>) -> bool {
    forall|i: int, j: int| 0 <= i <= j < records.len() ==> records[i] <= records[j]
}

proof fn lemma_closed_count(records: Seq<i64>)
    ensures
        closed_sessions(records).len() == gap_count(records),
    decreases records.len(),
{
    if records.len() > 1 {
        lemma_closed_count(records.drop_last());
    }
}

/// There is one session more than there are gaps between neighbouring records.
pub proof fn lemma_session_count(records: Seq<i64>)
    ensures
        sessions_of(records).len() == gap_count(records) + 1,
{
    lemma_closed_count(records);
}

proof fn lemma_closed_separated(records: Seq<i64>)
    ensures
        forall|i: int|
            0 <= i < closed_sessions(records).len() - 1 ==> #[trigger] closed_sessions(records)[i
                + 1].start_ms - closed_sessions(records)[i].end_ms > SESSION_GAP_MS,
        closed_sessions(records).len() > 0 ==> run_start(records) - closed_sessions(
            records,
        ).last().end_ms > SESSION_GAP_MS,
    decreases records.len(),
{
    if records.len() > 1 {
        let prefix = records.drop_last();
        lemma_closed_separated(prefix);
        let c = closed_sessions(prefix);
        if is_gap(prefix.last(), records.last()) {
            assert(closed_sessions(records) == c.push(
                Session { start_ms: run_start(prefix), end_ms: prefix.last() },
            ));
            assert forall|i: int| 0 <= i < closed_sessions(records).len() - 1 implies #[trigger] closed_sessions(records)[i
                + 1].start_ms - closed_sessions(records)[i].end_ms > SESSION_GAP_MS by {
                if i < c.len() - 1 {
                    assert(closed_sessions(records)[i + 1] == c[i + 1]);
                }
            }
        }
    }
}

/// Every session starts more than the gap after the previous session ends.
pub proof fn lemma_sessions_separated(records: Seq<i64>)
    ensures
        forall|i: int|
            0 <= i < sessions_of(records).len() - 1 ==> #[trigger] sessions_of(records)[i
                + 1].start_ms - sessions_of(records)[i].end_ms > SESSION_GAP_MS,
{
    lemma_closed_separated(records);
    let c = closed_sessions(records);
    assert forall|i: int| 0 <= i < sessions_of(records).len() - 1 implies #[trigger] sessions_of(records)[i
        + 1].start_ms - sessions_of(records)[i].end_ms > SESSION_GAP_MS by {
        assert(sessions_of(records)[i] == c[i]);
        if i < c.len() - 1 {
            assert(sessions_of(records)[i + 1] == c[i + 1]);
        }
    }
}

proof fn lemma_run_start_bounds(records: Seq<i64>)
    requires
        records.len() > 0,
        is_sorted(records),
    ensures
        records[0] <= run_start(records) <= records.last(),
    decreases records.len(),
{
    if records.len() > 1 {
        assert(is_sorted(records.drop_last()));
        lemma_run_start_bounds(records.drop_last());
    }
}

proof fn lemma_closed_ordered(records: Seq<i64>)
    requires
        is_sorted(records),
    ensures
        forall|i: int|
            0 <= i < closed_sessions(records).len() ==> #[trigger] closed_sessions(records)[i].start_ms
                <= closed_sessions(records)[i].end_ms,
    decreases records.len(),
{
    if records.len() > 1 {
        let prefix = records.drop_last();
        assert(is_sorted(prefix));
        lemma_closed_ordered(prefix);
        lemma_run_start_bounds(prefix);
        let c = closed_sessions(prefix);
        if is_gap(prefix.last(), records.last()) {
            let s = Session { start_ms: run_start(prefix), end_ms: prefix.last() };
            assert(closed_sessions(records) == c.push(s));
            assert forall|i: int| 0 <= i < closed_sessions(records).len() implies #[trigger] closed_sessions(records)[i].start_ms
                <= closed_sessions(records)[i].end_ms by {
                if i < c.len() {
                    assert(closed_sessions(records)[i] == c[i]);
                }
            }
        }
    }
}

/// For records in recording order, every session but the last starts no
/// later than it ends, and so does the last one unless the final record
/// follows a gap (then it ends at the record before that gap).
pub proof fn lemma_sessions_ordered(records: Seq<i64>)
    requires
        is_sorted(records),
    ensures
        forall|i: int|
            0 <= i < sessions_of(records).len() - 1 ==> #[trigger] sessions_of(records)[i].start_ms
                <= sessions_of(records)[i].end_ms,
        records.len() >= 2 && !is_gap(records[records.len() - 2], records.last()) ==> sessions_of(
            records,
        ).last().start_ms <= sessions_of(records).last().end_ms,
{
    lemma_closed_ordered(records);
    assert forall|i: int| 0 <= i < sessions_of(records).len() - 1 implies #[trigger] sessions_of(records)[i].start_ms
        <= sessions_of(records)[i].end_ms by {
        assert(sessions_of(records)[i] == closed_sessions(records)[i]);
    }
    if records.len() >= 2 {
        assert(is_sorted(records.drop_last()));
        lemma_run_start_bounds(records.drop_last());
    }
}

/// The bytes of the rows recorded within `[lo, hi]`, in the order of the rows.
pub open spec fn samples_between(rows: Seq<(i64, Vec<u8>)>, lo: int, hi: int) -> Seq<u8>
    decreases rows.len(),
{
    if rows.len() == 0 {
        Seq::empty()
    } else {
        let before = samples_between(rows.drop_last(), lo, hi);
        let row = rows.last();
        if lo <= row.0 && row.0 <= hi {
            before + row.1@
        } else {
            before
        }
    }
}

/// The rows are in recording order.
pub open spec fn rows_sorted(rows: Seq<(i64, Vec<u8>)>) -> bool {
    forall|i: int, j: int| 0 <= i <= j < rows.len() ==> rows[i].0 <= rows[j].0
}

proof fn lemma_samples_in_between(rows: Seq<(i64, Vec<u8>)>, start: i64, end: i64)
    ensures
        samples_in(rows, start, end) == samples_between(rows, start as int, end as int),
    decreases rows.len(),
{
    if rows.len() > 0 {
        lemma_samples_in_between(rows.drop_last(), start, end);
    }
}

proof fn lemma_samples_between_none(rows: Seq<(i64, Vec<u8>)>, lo: int, hi: int)
    requires
        forall|i: int| 0 <= i < rows.len() ==> rows[i].0 < lo,
    ensures
        samples_between(rows, lo, hi) == Seq::<u8>::empty(),
    decreases rows.len(),
{
    if rows.len() > 0 {
        lemma_samples_between_none(rows.drop_last(), lo, hi);
    }
}

/// In recording order, the samples of `[lo, hi]` are those of `[lo, m)`
/// followed by those of `[m, hi]`.
proof fn lemma_samples_split(rows: Seq<(i64, Vec<u8>)>, lo: int, m: int, hi: int)
    requires
        rows_sorted(rows),
        lo <= m <= hi + 1,
    ensures
        samples_between(rows, lo, hi) == samples_between(rows, lo, m - 1) + samples_between(
            rows,
            m,
            hi,
        ),
    decreases rows.len(),
{
    if rows.len() == 0 {
        assert(Seq::<u8>::empty() + Seq::<u8>::empty() =~= Seq::<u8>::empty());
    } else {
        let prefix = rows.drop_last();
        assert(rows_sorted(prefix));
        lemma_samples_split(prefix, lo, m, hi);
        let t = rows.last().0;
        let blob = rows.last().1@;
        let left = samples_between(prefix, lo, m - 1);
        let right = samples_between(prefix, m, hi);
        if lo <= t && t <= m - 1 {
            assert forall|i: int| 0 <= i < prefix.len() implies prefix[i].0 < m by {
                assert(rows[i].0 <= rows[rows.len() - 1].0);
            }
            lemma_samples_between_none(prefix, m, hi);
            assert(left + blob + Seq::<u8>::empty() =~= left + blob);
            assert(left + Seq::<u8>::empty() + blob =~= left + blob);
        } else if m <= t && t <= hi {
            assert(left + right + blob =~= left + (right + blob));
        }
    }
}

/// For rows in recording order, the audio of a session lying within a
/// wider session is a contiguous piece of the wider session's audio.
pub proof fn lemma_samples_nested(rows: Seq<(i64, Vec<u8>)>, inner: Session, outer: Session)
    requires
        rows_sorted(rows),
        outer.start_ms <= inner.start_ms,
        inner.end_ms <= outer.end_ms,
    ensures
        exists|a: Seq<u8>, b: Seq<u8>|
            samples_in(rows, outer.start_ms, outer.end_ms) == a + samples_in(
                rows,
                inner.start_ms,
                inner.end_ms,
            ) + b,
        samples_in(rows, inner.start_ms, inner.end_ms).len() <= samples_in(
            rows,
            outer.start_ms,
            outer.end_ms,
        ).len(),
{
    lemma_samples_in_between(rows, outer.start_ms, outer.end_ms);
    lemma_samples_in_between(rows, inner.start_ms, inner.end_ms);
    let whole = samples_between(rows, outer.start_ms as int, outer.end_ms as int);
    let piece = samples_between(rows, inner.start_ms as int, inner.end_ms as int);
    if inner.start_ms <= inner.end_ms {
        let lo = outer.start_ms as int;
        let m1 = inner.start_ms as int;
        let m2 = inner.end_ms + 1;
        let hi = outer.end_ms as int;
        lemma_samples_split(rows, lo, m1, hi);
        lemma_samples_split(rows, m1, m2, hi);
        let a = samples_between(rows, lo, m1 - 1);
        let b = samples_between(rows, m2, hi);
        assert(whole == a + piece + b);
    } else {
        assert(piece =~= Seq::<u8>::empty()) by {
            lemma_samples_between_empty_range(rows, inner.start_ms as int, inner.end_ms as int);
        }
        assert(whole == whole + piece + Seq::<u8>::empty());
    }
}

proof fn lemma_samples_between_empty_range(rows: Seq<(i64, Vec<u8>)>, lo: int, hi: int)
    requires
        hi < lo,
    ensures
        samples_between(rows, lo, hi) == Seq::<u8>::empty(),
    decreases rows.len(),
{
    if rows.len() > 0 {
        lemma_samples_between_empty_range(rows.drop_last(), lo, hi);
    }
}

/// Record `j` opens a session: it is the first record or follows a gap.
pub open spec fn starts_run(records: Seq<i64>, j: int) -> bool {
    j == 0 || is_gap(records[j - 1], records[j])
}

/// No gap separates any two neighbouring records from `j` up to `k`.
pub open spec fn no_gap_between(records: Seq<i64>, j: int, k: int) -> bool {
    forall|m: int| j < m <= k ==> !#[trigger] is_gap(records[m - 1], records[m])
}

proof fn lemma_run_start_is_a_record(records: Seq<i64>)
    requires
        records.len() > 0,
    ensures
        exists|j: int|
            0 <= j < records.len() && starts_run(records, j) && no_gap_between(
                records,
                j,
                records.len() - 1,
            ) && run_start(records) == records[j],
    decreases records.len(),
{
    let n = records.len();
    if n == 1 {
        assert(starts_run(records, 0) && no_gap_between(records, 0, 0));
    } else if is_gap(records[n - 2], records.last()) {
        assert(starts_run(records, n - 1) && no_gap_between(records, n - 1, n - 1));
    } else {
        let prefix = records.drop_last();
        lemma_run_start_is_a_record(prefix);
        let j = choose|j: int|
            0 <= j < prefix.len() && starts_run(prefix, j) && no_gap_between(prefix, j, prefix.len() - 1)
                && run_start(prefix) == prefix[j];
        assert(starts_run(records, j));
        assert forall|m: int| j < m <= n - 1 implies !#[trigger] is_gap(records[m - 1], records[m]) by {
            if m < n - 1 {
                assert(!is_gap(prefix[m - 1], prefix[m]));
            }
        }
    }
}

proof fn lemma_closed_prefix(records: Seq<i64>, m: int)
    requires
        0 <= m <= records.len(),
    ensures
        closed_sessions(records.take(m)).len() <= closed_sessions(records).len(),
        forall|i: int|
            0 <= i < closed_sessions(records.take(m)).len() ==> #[trigger] closed_sessions(records.take(m))[i]
                == closed_sessions(records)[i],
    decreases records.len(),
{
    if m == records.len() {
        assert(records.take(m) =~= records);
    } else {
        let prefix = records.drop_last();
        assert(records.take(m) =~= prefix.take(m));
        lemma_closed_prefix(prefix, m);
    }
}

/// Every gap closes a session, and nothing else does: where record `k`
/// follows record `k - 1` by more than the gap, the session numbered by the
/// gaps before `k` ends at record `k - 1`, and starts at the record that
/// opened its run (the first record or one after a gap, with no gap since).
/// The last session starts at the record that opened the last run and
/// ends at the second-to-last record (0 with fewer than two records).
pub proof fn lemma_sessions_follow_gaps(records: Seq<i64>)
    ensures
        forall|k: int|
            1 <= k < records.len() && #[trigger] is_gap(records[k - 1], records[k]) ==> {
                let i = gap_count(records.take(k)) as int;
                &&& 0 <= i < sessions_of(records).len() - 1
                &&& sessions_of(records)[i].end_ms == records[k - 1]
                &&& exists|j: int|
                    0 <= j < k && starts_run(records, j) && no_gap_between(records, j, k - 1)
                        && sessions_of(records)[i].start_ms == records[j]
            },
        records.len() > 0 ==> exists|j: int|
            0 <= j < records.len() && starts_run(records, j) && no_gap_between(
                records,
                j,
                records.len() - 1,
            ) && sessions_of(records).last().start_ms == records[j],
        records.len() == 0 ==> sessions_of(records).last().start_ms == 0,
        records.len() >= 2 ==> sessions_of(records).last().end_ms == records[records.len() - 2],
        records.len() < 2 ==> sessions_of(records).last().end_ms == 0,
{
    let n = records.len();
    lemma_closed_count(records);
    assert forall|k: int| 1 <= k < n && #[trigger] is_gap(records[k - 1], records[k]) implies {
        let i = gap_count(records.take(k)) as int;
        &&& 0 <= i < sessions_of(records).len() - 1
        &&& sessions_of(records)[i].end_ms == records[k - 1]
        &&& exists|j: int|
            0 <= j < k && starts_run(records, j) && no_gap_between(records, j, k - 1)
                && sessions_of(records)[i].start_ms == records[j]
    } by {
        let p = records.take(k + 1);
        let q = records.take(k);
        assert(p.drop_last() =~= q);
        assert(p.last() == records[k] && q.last() == records[k - 1]);
        let closing = Session { start_ms: run_start(q), end_ms: records[k - 1] };
        assert(closed_sessions(p) == closed_sessions(q).push(closing));
        lemma_closed_count(q);
        let i = gap_count(q) as int;
        lemma_closed_prefix(records, k + 1);
        assert(closed_sessions(p)[i] == closing);
        assert(closed_sessions(records)[i] == closing);
        assert(sessions_of(records)[i] == closed_sessions(records)[i]);
        lemma_run_start_is_a_record(q);
        let j = choose|j: int|
            0 <= j < q.len() && starts_run(q, j) && no_gap_between(q, j, q.len() - 1) && run_start(q)
                == q[j];
        assert(starts_run(records, j));
        assert forall|m: int| j < m <= k - 1 implies !#[trigger] is_gap(records[m - 1], records[m]) by {
            assert(!is_gap(q[m - 1], q[m]));
        }
        assert(sessions_of(records)[i].start_ms == records[j]);
    }
    if n > 0 {
        lemma_run_start_is_a_record(records);
    }
}

/// A session's audio takes a row exactly when the row's time lies within
/// the session, bounds included: with every row inside, it is all the
/// rows' bytes in order; with none inside, it is empty.
pub proof fn lemma_samples_selection(rows: Seq<(i64, Vec<u8>)>, start: i64, end: i64)
    ensures
        (forall|i: int| 0 <= i < rows.len() ==> start <= #[trigger] rows[i].0 <= end) ==> samples_in(
            rows,
            start,
            end,
        ) == rows.map_values(|r: (i64, Vec<u8>)| r.1@).flatten(),
        (forall|i: int| 0 <= i < rows.len() ==> !(start <= #[trigger] rows[i].0 <= end)) ==> samples_in(
            rows,
            start,
            end,
        ) == Seq::<u8>::empty(),
    decreases rows.len(),
{
    if rows.len() > 0 {
        let prefix = rows.drop_last();
        lemma_samples_selection(prefix, start, end);
        if forall|i: int| 0 <= i < rows.len() ==> start <= #[trigger] rows[i].0 <= end {
            assert(forall|i: int| 0 <= i < prefix.len() ==> start <= #[trigger] prefix[i].0 <= end) by {
                assert forall|i: int| 0 <= i < prefix.len() implies start <= #[trigger] prefix[i].0 <= end by {
                    assert(prefix[i] == rows[i]);
                }
            }
            let blobs = rows.map_values(|r: (i64, Vec<u8>)| r.1@);
            assert(blobs.drop_last() =~= prefix.map_values(|r: (i64, Vec<u8>)| r.1@));
            assert(blobs =~= blobs.drop_last().push(blobs.last()));
            blobs.drop_last().lemma_flatten_push(blobs.last());
            assert(rows[rows.len() - 1] == rows.last());
        }
        if forall|i: int| 0 <= i < rows.len() ==> !(start <= #[trigger] rows[i].0 <= end) {
            assert forall|i: int| 0 <= i < prefix.len() implies !(start <= #[trigger] prefix[i].0 <= end) by {
                assert(prefix[i] == rows[i]);
            }
            assert(rows[rows.len() - 1] == rows.last());
        }
    } else {
        assert(rows.map_values(|r: (i64, Vec<u8>)| r.1@) =~= Seq::<Seq<u8>>::empty());
    }
}

impl Session {
    /// Groups recording times (as read, in order) into sessions.
    pub fn calculate_sessions(record_ms: &[i64]) -> (sessions: Vec<Session>)
        requires
            gaps_fit(record_ms@),
        ensures
            sessions@ == sessions_of(record_ms@),
    {
        let mut sessions: Vec<Session> = Vec::new();
        let mut start_ms: i64 = 0;
        let mut prevv_record_ms: i64 = 0;
        let mut prev_record_ms: Option<i64> = None;
        let n = record_ms.len();
        let mut i: usize = 0;
        while i < n
            invariant
                n == record_ms@.len(),
                0 <= i <= n,
                gaps_fit(record_ms@),
                sessions@ == closed_sessions(record_ms@.take(i as int)),
                start_ms == run_start(record_ms@.take(i as int)),
                prevv_record_ms == last_session_end(record_ms@.take(i as int)),
                prev_record_ms == (if i == 0 { None } else { Some(record_ms@[i - 1]) }),
            decreases n - i,
        {
            let record = record_ms[i];
            let ghost before = record_ms@.take(i as int);
            let ghost after = record_ms@.take(i + 1);
            assert(after.drop_last() =~= before);
            match prev_record_ms {
                Some(prev) => {
                    assert(record_ms@[i as int] - record_ms@[i - 1] == record - prev);
                    prevv_record_ms = prev;
                    if record - prev > SESSION_GAP_MS {
                        sessions.push(Session { start_ms, end_ms: prev });
                        start_ms = record;
                    }
                },
                None => {
                    start_ms = record;
                },
            }
            prev_record_ms = Some(record);
            i = i + 1;
        }
        assert(record_ms@.take(n as int) =~= record_ms@);
        sessions.push(Session { start_ms, end_ms: prevv_record_ms });
        sessions
    }

    /// The session's length in milliseconds.
    pub fn duration_ms(&self) -> (d: i64)
        requires
            i64::MIN <= self.end_ms - self.start_ms <= i64::MAX,
        ensures
            d == self.end_ms - self.start_ms,
    {
        self.end_ms - self.start_ms
    }

    /// The audio of this session: the sample bytes of every stored row whose
    /// recording time lies within the session, in the order of the rows.
    pub fn samples(&self, rows: &[(i64, Vec<u8>)]) -> (bytes: Vec<u8>)
        ensures
            bytes@ == samples_in(rows@, self.start_ms, self.end_ms),
    {
        let mut bytes: Vec<u8> = Vec::new();
        let n = rows.len();
        let mut i: usize = 0;
        while i < n
            invariant
                n == rows@.len(),
                0 <= i <= n,
                bytes@ == samples_in(rows@.take(i as int), self.start_ms, self.end_ms),
            decreases n - i,
        {
            let row = &rows[i];
            assert(rows@.take(i + 1).drop_last() =~= rows@.take(i as int));
            if self.start_ms <= row.0 && row.0 <= self.end_ms {
                let ghost old_bytes = bytes@;
                bytes.extend_from_slice(row.1.as_slice());
                assert(bytes@ =~= old_bytes + row.1@);
            }
            i = i + 1;
        }
        assert(rows@.take(n as int) =~= rows@);
        bytes
    }
}

} // verus!
