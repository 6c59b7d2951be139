//! Connections to data nodes that wait to be used again.

use std::collections::VecDeque;
use vstd::prelude::*;
use crate::datanode::{datanode_url, url_of, DatanodeConnection, DatanodeId};
use crate::text::str_eq;

verus! {

/// For how many seconds a connection waits to be used again.
pub const DATANODE_CACHE_EXPIRY: i64 = 3;

/// A point in time: the seconds since the start of 1970 in UTC, and the nanoseconds after that.
#[derive(Clone, Copy, Debug, PartialEq, Eq, Structural)]
pub struct Timestamp {
    pub secs: i64,
    pub nanos: u32,
}

impl Timestamp {
    /// Whether the time is later than another one.
    pub open spec fn later_than(self, other: Timestamp) -> bool {
        self.secs > other.secs || (self.secs == other.secs && self.nanos > other.nanos)
    }

    /// The time a number of seconds later.
    pub open spec fn plus(self, secs: int) -> Timestamp {
        Timestamp { secs: (self.secs + secs) as i64, nanos: self.nanos }
    }

    /// Whether the clock can read the time: from 1970 on, and so that the number of days fits in
    /// 32 bits.
    pub open spec fn is_clock_reading(self) -> bool {
        0 <= self.secs <= 0x7fff_ffff * 86_400 && self.nanos < 1_000_000_000
    }

    /// Whether the time is later than another one.
    pub fn is_later_than(&self, other: &Timestamp) -> (r: bool)
        ensures
            r == self.later_than(*other),
    {
        self.secs > other.secs || (self.secs == other.secs && self.nanos > other.nanos)
    }
}

/// Calls `chrono::Utc::now`, which reads the clock of the system, and takes the seconds and the
/// nanoseconds apart. What the clock says is open, but for its range: `chrono` panics where the
/// clock is set before 1970 or beyond the last date that it knows.
#[verifier::external_body]
fn utc_now() -> (now: Timestamp)
    ensures
        now.is_clock_reading(),
{
    let now = chrono::Utc::now();
    Timestamp { secs: now.timestamp(), nanos: now.timestamp_subsec_nanos() }
}

/// The connections that have not expired, in the same order.
pub open spec fn unexpired<R, W>(
    queue: Seq<(Timestamp, DatanodeConnection<R, W>)>,
    now: Timestamp,
) -> Seq<(Timestamp, DatanodeConnection<R, W>)> {
    queue.filter(|e: (Timestamp, DatanodeConnection<R, W>)| e.0.later_than(now))
}

/// The connections that have not expired, in the same order.
fn retain_unexpired<R, W>(
    queue: VecDeque<(Timestamp, DatanodeConnection<R, W>)>,
    now: Timestamp,
) -> (kept: VecDeque<(Timestamp, DatanodeConnection<R, W>)>)
    ensures
        kept@ == unexpired(queue@, now),
{
    let ghost all = queue@;
    let ghost live = |e: (Timestamp, DatanodeConnection<R, W>)| e.0.later_than(now);
    let mut left = queue;
    let mut kept: VecDeque<(Timestamp, DatanodeConnection<R, W>)> = VecDeque::new();
    let ghost mut done: int = 0;
    proof {
        reveal(Seq::filter);
        assert(all.take(0).filter(live) =~= Seq::empty());
        assert(all.skip(0) =~= all);
    }
    while left.len() > 0
        invariant
            0 <= done <= all.len(),
            left@ == all.skip(done),
            kept@ == all.take(done).filter(live),
            live == (|e: (Timestamp, DatanodeConnection<R, W>)| e.0.later_than(now)),
        decreases left@.len(),
    {
        proof {
            reveal(Seq::filter);
            assert(all.take(done + 1).drop_last() =~= all.take(done));
            assert(all.take(done + 1).last() == left@[0]);
            assert(left@.subrange(1, left@.len() as int) =~= all.skip(done + 1));
        }
        if let Some(entry) = left.pop_front() {
            if entry.0.is_later_than(&now) {
                kept.push_back(entry);
            }
        }
        proof {
            done = done + 1;
        }
    }
    assert(all.take(done) =~= all);
    kept
}

/// The connections to one data node.
struct CacheEntry<R, W> {
    url: String,
    connections: VecDeque<(Timestamp, DatanodeConnection<R, W>)>,
}

/// The connections under `url`.
spec fn queue_in<R, W>(entries: Seq<CacheEntry<R, W>>, url: Seq<char>) -> Seq<
    (Timestamp, DatanodeConnection<R, W>),
>
    decreases entries.len(),
{
    if entries.len() == 0 {
        Seq::empty()
    } else if entries.last().url@ == url {
        entries.last().connections@
    } else {
        queue_in(entries.drop_last(), url)
    }
}

/// No data node has two queues, and every connection is in the queue of its data node.
spec fn well_formed<R, W>(entries: Seq<CacheEntry<R, W>>) -> bool {
    &&& forall|i: int, j: int|
        #![trigger entries[i], entries[j]]
        0 <= i < j < entries.len() ==> entries[i].url@ != entries[j].url@
    &&& forall|i: int, k: int|
        #![trigger entries[i].connections@[k]]
        0 <= i < entries.len() && 0 <= k < entries[i].connections@.len()
            ==> entries[i].connections@[k].1.url@ == entries[i].url@
}

/// Where every queue loses what has expired, so does the queue of each data node.
proof fn lemma_unexpired_queue<R, W>(
    before: Seq<CacheEntry<R, W>>,
    after: Seq<CacheEntry<R, W>>,
    now: Timestamp,
    url: Seq<char>,
)
    requires
        before.len() == after.len(),
        forall|i: int|
            0 <= i < before.len() ==> (#[trigger] after[i]).url == before[i].url
                && after[i].connections@ == unexpired(before[i].connections@, now),
    ensures
        queue_in(after, url) == unexpired(queue_in(before, url), now),
    decreases before.len(),
{
    if before.len() > 0 {
        assert(after.last() == after[after.len() - 1]);
        lemma_unexpired_queue(before.drop_last(), after.drop_last(), now, url);
    } else {
        reveal(Seq::filter);
        assert(unexpired(queue_in(before, url), now) =~= Seq::empty());
    }
}

/// Where every queue loses what has expired, every connection is still in the queue of its data
/// node.
proof fn lemma_unexpired_well_formed<R, W>(
    before: Seq<CacheEntry<R, W>>,
    after: Seq<CacheEntry<R, W>>,
    now: Timestamp,
)
    requires
        well_formed(before),
        before.len() == after.len(),
        forall|i: int|
            0 <= i < before.len() ==> (#[trigger] after[i]).url == before[i].url
                && after[i].connections@ == unexpired(before[i].connections@, now),
    ensures
        well_formed(after),
{
    assert forall|i: int, j: int|
        #![trigger after[i], after[j]]
        0 <= i < j < after.len() implies after[i].url@ != after[j].url@ by {
        assert(before[i].url@ != before[j].url@);
    }
    assert forall|i: int, k: int|
        #![trigger after[i].connections@[k]]
        0 <= i < after.len() && 0 <= k < after[i].connections@.len() implies
        after[i].connections@[k].1.url@ == after[i].url@ by {
        let queue = before[i].connections@;
        let live = |e: (Timestamp, DatanodeConnection<R, W>)| e.0.later_than(now);
        assert(after[i].connections@ == queue.filter(live));
        queue.lemma_filter_contains_rev(live, queue.filter(live)[k]);
        let m = choose|m: int| 0 <= m < queue.len() && queue[m] == queue.filter(live)[k];
        assert(before[i].connections@[m].1.url@ == before[i].url@);
    }
}

/// Where only the queue at position `i` changes, so does only the queue of that data node.
proof fn lemma_one_queue_changes<R, W>(
    before: Seq<CacheEntry<R, W>>,
    after: Seq<CacheEntry<R, W>>,
    i: int,
    url: Seq<char>,
)
    requires
        forall|j: int, k: int|
            #![trigger before[j], before[k]]
            0 <= j < k < before.len() ==> before[j].url@ != before[k].url@,
        before.len() == after.len(),
        0 <= i < before.len(),
        after[i].url == before[i].url,
        forall|j: int| 0 <= j < before.len() && j != i ==> #[trigger] after[j] == before[j],
    ensures
        queue_in(after, url) == if url == before[i].url@ {
            after[i].connections@
        } else {
            queue_in(before, url)
        },
    decreases before.len(),
{
    let n = before.len() - 1;
    let (b, a) = (before.drop_last(), after.drop_last());
    assert(after.last() == after[n] && before.last() == before[n]);
    if i < n {
        assert forall|j: int, k: int|
            #![trigger b[j], b[k]]
            0 <= j < k < b.len() implies b[j].url@ != b[k].url@ by {
            assert(before[j].url@ != before[k].url@);
        }
        assert(before[i].url@ != before[n].url@);
        lemma_one_queue_changes(b, a, i, url);
    } else {
        assert(a =~= b);
    }
}

/// The connections to data nodes that wait to be used again, each until it expires.
pub struct DatanodeConnectionCache<R, W> {
    entries: Vec<CacheEntry<R, W>>,
}

impl<R, W> DatanodeConnectionCache<R, W> {
    /// The connections to the data node at `url`, in the order in which they came in, each with
    /// the time when it expires.
    pub closed spec fn queue(&self, url: Seq<char>) -> Seq<(Timestamp, DatanodeConnection<R, W>)> {
        queue_in(self.entries@, url)
    }

    /// No data node has two queues, and every connection is in the queue of its data node.
    #[verifier::type_invariant]
    pub closed spec fn valid(&self) -> bool {
        well_formed(self.entries@)
    }

    /// The cache `after`, with what has expired by `now` removed from the cache `self`.
    pub open spec fn cleared(&self, after: &DatanodeConnectionCache<R, W>, now: Timestamp) -> bool {
        forall|url: Seq<char>| #[trigger] after.queue(url) == unexpired(self.queue(url), now)
    }

    /// The cache `after`, with what has expired by `now` removed from the cache `self`, and the
    /// connection `r` that was handed out for the data node at `url`: the one that has waited
    /// longest, if there is any.
    pub open spec fn taken(
        &self,
        after: &DatanodeConnectionCache<R, W>,
        url: Seq<char>,
        now: Timestamp,
        r: Option<DatanodeConnection<R, W>>,
    ) -> bool {
        let live = unexpired(self.queue(url), now);
        &&& match r {
            Some(conn) => live.len() > 0 && conn == live[0].1 && after.queue(url) == live.skip(1),
            None => live.len() == 0 && after.queue(url) == live,
        }
        &&& forall|other: Seq<char>|
            other != url ==> #[trigger] after.queue(other) == unexpired(self.queue(other), now)
    }

    /// The cache `after`, with a connection put in the cache `self` at the time `now`: behind
    /// those to the same data node, until [`DATANODE_CACHE_EXPIRY`] seconds later.
    pub open spec fn put_back(
        &self,
        after: &DatanodeConnectionCache<R, W>,
        conn: DatanodeConnection<R, W>,
        now: Timestamp,
    ) -> bool {
        &&& after.queue(conn.url@) == self.queue(conn.url@).push(
            (now.plus(DATANODE_CACHE_EXPIRY as int), conn),
        )
        &&& forall|url: Seq<char>|
            url != conn.url@ ==> #[trigger] after.queue(url) == self.queue(url)
    }

    /// No connection.
    pub fn new() -> (r: DatanodeConnectionCache<R, W>)
        ensures
            forall|url: Seq<char>| #[trigger] r.queue(url).len() == 0,
    {
        DatanodeConnectionCache { entries: Vec::new() }
    }

    /// The position of the queue of a data node.
    fn find(&self, url: &str) -> (r: Option<usize>)
        ensures
            match r {
                Some(i) => i < self.entries@.len() && self.entries@[i as int].url@ == url@
                    && self.queue(url@) == self.entries@[i as int].connections@,
                None => self.queue(url@).len() == 0 && forall|i: int|
                    0 <= i < self.entries@.len() ==> #[trigger] self.entries@[i].url@ != url@,
            },
    {
        let mut i: usize = self.entries.len();
        proof {
            assert(self.entries@.take(i as int) =~= self.entries@);
        }
        while i > 0
            invariant
                i <= self.entries@.len(),
                self.queue(url@) == queue_in(self.entries@.take(i as int), url@),
                forall|j: int|
                    i <= j < self.entries@.len() ==> #[trigger] self.entries@[j].url@ != url@,
            decreases i,
        {
            i -= 1;
            proof {
                assert(self.entries@.take(i + 1).drop_last() =~= self.entries@.take(i as int));
                assert(self.entries@.take(i + 1).last() == self.entries@[i as int]);
            }
            if str_eq(self.entries[i].url.as_str(), url) {
                return Some(i);
            }
        }
        None
    }

    /// Removes every connection that has expired by now.
    pub fn remove_expired(&mut self)
        ensures
            exists|now: Timestamp|
                now.is_clock_reading() && #[trigger] old(self).cleared(final(self), now),
    {
        let now = utc_now();
        self.remove_expired_at(now);
    }

    /// The connection to a data node that has waited longest and has not expired by now. It
    /// leaves the cache, and so does every connection that has expired.
    pub fn get(&mut self, datanode_id: &DatanodeId) -> (r: Option<DatanodeConnection<R, W>>)
        ensures
            exists|now: Timestamp|
                now.is_clock_reading() && #[trigger] old(self).taken(
                    final(self),
                    url_of(datanode_id.ip_addr@, datanode_id.xfer_port),
                    now,
                    r,
                ),
            r matches Some(conn) ==> conn.url@ == url_of(
                datanode_id.ip_addr@,
                datanode_id.xfer_port,
            ),
    {
        let now = utc_now();
        self.get_at(datanode_id, now)
    }

    /// Puts a connection in the cache, behind those to the same data node that are there. It
    /// expires [`DATANODE_CACHE_EXPIRY`] seconds from now.
    pub fn release(&mut self, conn: DatanodeConnection<R, W>)
        ensures
            exists|now: Timestamp|
                now.is_clock_reading() && #[trigger] old(self).put_back(final(self), conn, now),
    {
        let now = utc_now();
        self.release_at(conn, now)
    }

    /// Removes every connection that has expired by `now`.
    pub fn remove_expired_at(&mut self, now: Timestamp)
        ensures
            old(self).cleared(final(self), now),
    {
        proof {
            use_type_invariant(&*self);
        }
        let ghost before = self.entries@;
        let mut entries: Vec<CacheEntry<R, W>> = Vec::new();
        std::mem::swap(&mut entries, &mut self.entries);
        let mut i: usize = 0;
        while i < entries.len()
            invariant
                i <= entries@.len(),
                entries@.len() == before.len(),
                well_formed(before),
                forall|j: int|
                    0 <= j < i ==> (#[trigger] entries@[j]).url == before[j].url
                        && entries@[j].connections@ == unexpired(before[j].connections@, now),
                forall|j: int| i <= j < before.len() ==> #[trigger] entries@[j] == before[j],
            decreases entries@.len() - i,
        {
            let mut connections: VecDeque<(Timestamp, DatanodeConnection<R, W>)> = VecDeque::new();
            std::mem::swap(&mut connections, &mut entries[i].connections);
            let mut kept = retain_unexpired(connections, now);
            std::mem::swap(&mut kept, &mut entries[i].connections);
            i += 1;
        }
        proof {
            lemma_unexpired_well_formed(before, entries@, now);
            assert forall|url: Seq<char>| #[trigger]
                queue_in(entries@, url) == unexpired(queue_in(before, url), now) by {
                lemma_unexpired_queue(before, entries@, now, url);
            }
        }
        self.entries = entries;
    }

    /// The connection to a data node that has waited longest and has not expired by `now`. It
    /// leaves the cache, and so does every connection that has expired.
    pub fn get_at(&mut self, datanode_id: &DatanodeId, now: Timestamp) -> (r: Option<
        DatanodeConnection<R, W>,
    >)
        ensures
            old(self).taken(
                final(self),
                url_of(datanode_id.ip_addr@, datanode_id.xfer_port),
                now,
                r,
            ),
            r matches Some(conn) ==> conn.url@ == url_of(
                datanode_id.ip_addr@,
                datanode_id.xfer_port,
            ),
    {
        self.remove_expired_at(now);
        let url = datanode_url(datanode_id);
        let ghost cleared = *self;
        let ghost live = cleared.queue(url@);
        match self.find(url.as_str()) {
            None => None,
            Some(i) => {
                proof {
                    use_type_invariant(&*self);
                }
                let ghost before = self.entries@;
                let mut entries: Vec<CacheEntry<R, W>> = Vec::new();
                std::mem::swap(&mut entries, &mut self.entries);
                let first = entries[i].connections.pop_front();
                proof {
                    assert forall|other: Seq<char>| #[trigger]
                        queue_in(entries@, other) == if other == url@ {
                            entries@[i as int].connections@
                        } else {
                            cleared.queue(other)
                        } by {
                        lemma_one_queue_changes(before, entries@, i as int, other);
                    }
                    if live.len() > 0 {
                        assert(before[i as int].connections@[0].1.url@ == url@);
                        assert(entries@[i as int].connections@ =~= live.skip(1));
                    }
                    assert(well_formed(entries@));
                }
                self.entries = entries;
                match first {
                    Some((_, conn)) => Some(conn),
                    None => None,
                }
            },
        }
    }

    /// Puts a connection in the cache, behind those to the same data node that are there. It
    /// expires [`DATANODE_CACHE_EXPIRY`] seconds after `now`.
    pub fn release_at(&mut self, conn: DatanodeConnection<R, W>, now: Timestamp)
        requires
            now.secs <= i64::MAX - DATANODE_CACHE_EXPIRY,
        ensures
            old(self).put_back(final(self), conn, now),
    {
        let expire_at = Timestamp { secs: now.secs + DATANODE_CACHE_EXPIRY, nanos: now.nanos };
        let found = self.find(conn.url.as_str());
        proof {
            use_type_invariant(&*self);
        }
        let ghost before = self.entries@;
        let mut entries: Vec<CacheEntry<R, W>> = Vec::new();
        std::mem::swap(&mut entries, &mut self.entries);
        match found {
            Some(i) => {
                entries[i].connections.push_back((expire_at, conn));
                proof {
                    assert forall|url: Seq<char>| #[trigger]
                        queue_in(entries@, url) == if url == conn.url@ {
                            entries@[i as int].connections@
                        } else {
                            queue_in(before, url)
                        } by {
                        lemma_one_queue_changes(before, entries@, i as int, url);
                    }
                }
            },
            None => {
                let url = conn.url.clone();
                let mut connections: VecDeque<(Timestamp, DatanodeConnection<R, W>)> =
                    VecDeque::new();
                connections.push_back((expire_at, conn));
                entries.push(CacheEntry { url, connections });
                proof {
                    assert(entries@.drop_last() =~= before);
                    assert(entries@.last().connections@ =~= queue_in(before, conn.url@).push(
                        (expire_at, conn),
                    ));
                }
            },
        }
        self.entries = entries;
    }
}

// Laws

/// What has expired stays expired: where time goes on from `t` to `u`, what is left at `u` does
/// not depend on whether what had expired by `t` was removed.
pub proof fn law_expired_stays_expired<R, W>(
    queue: Seq<(Timestamp, DatanodeConnection<R, W>)>,
    t: Timestamp,
    u: Timestamp,
)
    requires
        !t.later_than(u),
    ensures
        unexpired(unexpired(queue, t), u) == unexpired(queue, u),
    decreases queue.len(),
{
    reveal(Seq::filter);
    if queue.len() > 0 {
        let front = queue.drop_last();
        law_expired_stays_expired(front, t, u);
        let kept = unexpired(front, t);
        if queue.last().0.later_than(t) {
            assert(kept.push(queue.last()).drop_last() =~= kept);
        }
    }
}

/// A connection that is handed out was in the queue of its data node, and had not expired.
pub proof fn law_expired_connections_are_not_handed_out<R, W>(
    before: DatanodeConnectionCache<R, W>,
    after: DatanodeConnectionCache<R, W>,
    url: Seq<char>,
    now: Timestamp,
    conn: DatanodeConnection<R, W>,
)
    requires
        before.taken(&after, url, now, Some(conn)),
    ensures
        exists|k: int|
            0 <= k < before.queue(url).len() && (#[trigger] before.queue(url)[k]).1 == conn
                && before.queue(url)[k].0.later_than(now),
{
    let queue = before.queue(url);
    let live = |e: (Timestamp, DatanodeConnection<R, W>)| e.0.later_than(now);
    let first = queue.filter(live)[0];
    queue.lemma_filter_contains_rev(live, first);
    queue.lemma_filter_pred(live, 0);
}

/// A connection that is put in the cache is handed out for its data node until it expires, and
/// not after, where no other connection to the data node is live. It is handed out once.
pub proof fn law_released_connection_is_used_again<R, W>(
    before: DatanodeConnectionCache<R, W>,
    between: DatanodeConnectionCache<R, W>,
    after: DatanodeConnectionCache<R, W>,
    conn: DatanodeConnection<R, W>,
    released: Timestamp,
    now: Timestamp,
    r: Option<DatanodeConnection<R, W>>,
)
    requires
        before.put_back(&between, conn, released),
        between.taken(&after, conn.url@, now, r),
        unexpired(before.queue(conn.url@), now).len() == 0,
    ensures
        r == if released.plus(DATANODE_CACHE_EXPIRY as int).later_than(now) {
            Some(conn)
        } else {
            None
        },
        after.queue(conn.url@).len() == 0,
{
    reveal(Seq::filter);
    let queue = between.queue(conn.url@);
    assert(queue.drop_last() =~= before.queue(conn.url@));
}

/// Of two connections to a data node, the one that was put in the cache first is handed out
/// first, where it has not expired and no other connection to the data node was live.
pub proof fn law_first_in_first_out<R, W>(
    before: DatanodeConnectionCache<R, W>,
    with_first: DatanodeConnectionCache<R, W>,
    with_both: DatanodeConnectionCache<R, W>,
    after: DatanodeConnectionCache<R, W>,
    first: DatanodeConnection<R, W>,
    second: DatanodeConnection<R, W>,
    first_released: Timestamp,
    second_released: Timestamp,
    now: Timestamp,
    r: Option<DatanodeConnection<R, W>>,
)
    requires
        first.url@ == second.url@,
        before.put_back(&with_first, first, first_released),
        with_first.put_back(&with_both, second, second_released),
        with_both.taken(&after, first.url@, now, r),
        unexpired(before.queue(first.url@), now).len() == 0,
        first_released.plus(DATANODE_CACHE_EXPIRY as int).later_than(now),
    ensures
        r == Some(first),
{
    reveal(Seq::filter);
    let url = first.url@;
    assert(with_both.queue(url).drop_last() =~= with_first.queue(url));
    assert(with_first.queue(url).drop_last() =~= before.queue(url));
    assert(unexpired(with_first.queue(url), now).len() == 1);
    assert(unexpired(with_first.queue(url), now)[0].1 == first);
}

/// A time as one number: the nanoseconds since the start of 1970.
pub open spec fn nanoseconds(t: Timestamp) -> int {
    t.secs * 1_000_000_000 + t.nanos
}

/// Times come in the order of their nanoseconds, and seconds later is as many nanoseconds later.
pub proof fn law_times_are_numbers(t: Timestamp, u: Timestamp, secs: int)
    requires
        t.nanos < 1_000_000_000,
        u.nanos < 1_000_000_000,
        i64::MIN <= t.secs + secs <= i64::MAX,
    ensures
        t.later_than(u) <==> nanoseconds(t) > nanoseconds(u),
        nanoseconds(t.plus(secs)) == nanoseconds(t) + secs * 1_000_000_000,
{
}

/// What is left of a queue is what had not expired, in order: a connection more stays where its
/// time is later.
pub proof fn law_what_is_left<R, W>(
    queue: Seq<(Timestamp, DatanodeConnection<R, W>)>,
    entry: (Timestamp, DatanodeConnection<R, W>),
    now: Timestamp,
)
    requires
        entry.0.nanos < 1_000_000_000,
        now.nanos < 1_000_000_000,
    ensures
        unexpired(queue.take(0), now).len() == 0,
        unexpired(queue.push(entry), now) == if nanoseconds(entry.0) > nanoseconds(now) {
            unexpired(queue, now).push(entry)
        } else {
            unexpired(queue, now)
        },
{
    reveal(Seq::filter);
    assert(queue.push(entry).drop_last() =~= queue);
}

/// The connection that is handed out is the first of its queue that has not expired. What came
/// before it is gone, and so is what has expired after it; the rest waits on in order. Where
/// nothing is handed out, everything had expired. The queues of other data nodes lose what has
/// expired.
pub proof fn law_the_first_live_connection_is_handed_out<R, W>(
    before: DatanodeConnectionCache<R, W>,
    after: DatanodeConnectionCache<R, W>,
    url: Seq<char>,
    other: Seq<char>,
    now: Timestamp,
    r: Option<DatanodeConnection<R, W>>,
)
    requires
        before.taken(&after, url, now, r),
    ensures
        r matches Some(conn) ==> exists|k: int|
            #![trigger before.queue(url)[k]]
            {
                &&& 0 <= k < before.queue(url).len()
                &&& before.queue(url)[k].1 == conn
                &&& before.queue(url)[k].0.later_than(now)
                &&& forall|j: int|
                    0 <= j < k ==> !(#[trigger] before.queue(url)[j]).0.later_than(now)
                &&& after.queue(url) == unexpired(before.queue(url).skip(k + 1), now)
            },
        r is None ==> after.queue(url).len() == 0 && forall|j: int|
            0 <= j < before.queue(url).len() ==> !(#[trigger] before.queue(url)[j]).0.later_than(
                now,
            ),
        other != url ==> after.queue(other) == unexpired(before.queue(other), now),
{
    let queue = before.queue(url);
    lemma_first_unexpired(queue, now);
}

/// The first of a queue that has not expired.
proof fn lemma_first_unexpired<R, W>(
    queue: Seq<(Timestamp, DatanodeConnection<R, W>)>,
    now: Timestamp,
)
    ensures
        unexpired(queue, now).len() == 0 ==> forall|j: int|
            0 <= j < queue.len() ==> !(#[trigger] queue[j]).0.later_than(now),
        unexpired(queue, now).len() > 0 ==> exists|k: int|
            #![trigger queue[k]]
            {
                &&& 0 <= k < queue.len()
                &&& queue[k] == unexpired(queue, now)[0]
                &&& queue[k].0.later_than(now)
                &&& forall|j: int| 0 <= j < k ==> !(#[trigger] queue[j]).0.later_than(now)
                &&& unexpired(queue, now).skip(1) == unexpired(queue.skip(k + 1), now)
            },
    decreases queue.len(),
{
    reveal(Seq::filter);
    if queue.len() > 0 {
        let front = queue.drop_last();
        let last = queue.last();
        lemma_first_unexpired(front, now);
        if unexpired(front, now).len() > 0 {
            let k = choose|k: int|
                #![trigger front[k]]
                {
                    &&& 0 <= k < front.len()
                    &&& front[k] == unexpired(front, now)[0]
                    &&& front[k].0.later_than(now)
                    &&& forall|j: int| 0 <= j < k ==> !(#[trigger] front[j]).0.later_than(now)
                    &&& unexpired(front, now).skip(1) == unexpired(front.skip(k + 1), now)
                };
            assert(queue[k] == front[k]);
            assert(forall|j: int| 0 <= j < k ==> queue[j] == front[j]);
            assert(queue.skip(k + 1).drop_last() =~= front.skip(k + 1));
            assert(queue.skip(k + 1).last() == last);
            if last.0.later_than(now) {
                assert(unexpired(front, now).push(last).skip(1) =~= unexpired(front, now).skip(
                    1,
                ).push(last));
            }
        } else {
            assert(forall|j: int| 0 <= j < front.len() ==> queue[j] == front[j]);
            if last.0.later_than(now) {
                let k = queue.len() - 1;
                assert(queue[k] == last);
                assert(queue.skip(k + 1) =~= Seq::empty());
                assert(unexpired(queue, now).skip(1) =~= unexpired(queue.skip(k + 1), now));
            } else {
                assert forall|j: int| 0 <= j < queue.len() implies !(
                #[trigger] queue[j]).0.later_than(now) by {
                    if j < front.len() {
                        assert(queue[j] == front[j]);
                    }
                }
            }
        }
    }
}

/// A connection that is put in the cache waits behind those to the same data node, for three
/// seconds. All others stay.
pub proof fn law_released_connections_wait_three_seconds<R, W>(
    before: DatanodeConnectionCache<R, W>,
    after: DatanodeConnectionCache<R, W>,
    conn: DatanodeConnection<R, W>,
    now: Timestamp,
    other: Seq<char>,
)
    requires
        before.put_back(&after, conn, now),
        now.secs <= i64::MAX - 3,
    ensures
        ({
            let queue = after.queue(conn.url@);
            &&& queue.len() == before.queue(conn.url@).len() + 1
            &&& queue.drop_last() == before.queue(conn.url@)
            &&& queue.last().1 == conn
            &&& nanoseconds(queue.last().0) == nanoseconds(now) + 3_000_000_000
        }),
        other != conn.url@ ==> after.queue(other) == before.queue(other),
{
    assert(after.queue(conn.url@).drop_last() =~= before.queue(conn.url@));
}

/// Where what has expired is removed, every queue keeps what has not, and nothing else.
pub proof fn law_removal_touches_every_queue<R, W>(
    before: DatanodeConnectionCache<R, W>,
    after: DatanodeConnectionCache<R, W>,
    now: Timestamp,
    url: Seq<char>,
    entry: (Timestamp, DatanodeConnection<R, W>),
)
    requires
        before.cleared(&after, now),
    ensures
        after.queue(url) == unexpired(before.queue(url), now),
        after.queue(url).contains(entry) <==> before.queue(url).contains(entry)
            && entry.0.later_than(now),
{
    let queue = before.queue(url);
    let live = |e: (Timestamp, DatanodeConnection<R, W>)| e.0.later_than(now);
    if queue.filter(live).contains(entry) {
        queue.lemma_filter_contains_rev(live, entry);
        let i = choose|i: int| 0 <= i < queue.filter(live).len() && queue.filter(live)[i] == entry;
        queue.lemma_filter_pred(live, i);
    }
    if queue.contains(entry) && entry.0.later_than(now) {
        let i = choose|i: int| 0 <= i < queue.len() && queue[i] == entry;
        queue.lemma_filter_contains(live, i);
    }
}

} // verus!
