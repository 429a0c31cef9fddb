use vstd::prelude::*;

use crate::models::{AccessLogEntry, AccessView, CreateLogEntry, CreateLogView, Timestamp};

verus! {

/// How long the store keeps a log row or creator metadata, in seconds: thirty days.
pub const LOG_TTL_SECONDS: i32 = 2592000;

/// The same thirty days in milliseconds.
pub const LOG_TTL_MS: i64 = 2592000000;

/// An access-log row with its link's identifier, as plain values.
pub type AccessRow = (Seq<char>, AccessView);

/// Two access rows with the same key: the same identifier at the same time.
pub open spec fn same_access_key(a: AccessRow, b: AccessRow) -> bool {
    a.0 == b.0 && a.1.ts == b.1.ts
}

/// Access rows newest first, each key at most once.
pub open spec fn access_sorted(rows: Seq<AccessRow>) -> bool {
    forall|i: int, j: int|
        #![trigger rows[i], rows[j]]
        0 <= i < j < rows.len() ==> rows[i].1.ts >= rows[j].1.ts && !same_access_key(
            rows[i],
            rows[j],
        )
}

/// A row written at `ts` has expired by `now`.
pub open spec fn expired(ts: Timestamp, now: Timestamp) -> bool {
    ts + LOG_TTL_MS <= now
}

/// Whether a row written at `ts` has expired by `now`.
pub fn is_expired(ts: Timestamp, now: Timestamp) -> (r: bool)
    ensures
        r == expired(ts, now),
{
    ts <= i64::MAX - LOG_TTL_MS && ts + LOG_TTL_MS <= now
}

/// The access rows that are still live at `now`.
pub open spec fn live_access(now: Timestamp) -> spec_fn(AccessRow) -> bool {
    |r: AccessRow| !expired(r.1.ts, now)
}

/// The creation-log rows that are still live at `now`.
pub open spec fn live_create(now: Timestamp) -> spec_fn(CreateRow) -> bool {
    |r: CreateRow| !expired(r.1.ts, now)
}

proof fn lemma_filter_keeps_order(rows: Seq<AccessRow>, pred: spec_fn(AccessRow) -> bool)
    requires
        access_sorted(rows),
    ensures
        access_sorted(rows.filter(pred)),
        forall|x: AccessRow| #[trigger] rows.filter(pred).contains(x) ==> rows.contains(x),
    decreases rows.len(),
{
    reveal(Seq::filter);
    if rows.len() > 0 {
        let init = rows.drop_last();
        assert(init =~= rows.subrange(0, rows.len() - 1));
        assert forall|k: int| 0 <= k < init.len() implies init[k] == rows[k] by {}
        lemma_filter_keeps_order(init, pred);
        let f = init.filter(pred);
        let last = rows.last();
        if pred(last) {
            let g = f.push(last);
            assert forall|i: int, j: int|
                #![trigger g[i], g[j]]
                0 <= i < j < g.len() implies g[i].1.ts >= g[j].1.ts && !same_access_key(
                g[i],
                g[j],
            ) by {
                if j == g.len() - 1 {
                    assert(g[i] == f[i]);
                    assert(f.contains(f[i]));
                    let k = choose|k: int| 0 <= k < init.len() && init[k] == g[i];
                    assert(rows[k] == g[i]);
                    assert(rows[rows.len() - 1] == last);
                } else {
                    assert(g[i] == f[i] && g[j] == f[j]);
                }
            }
            assert(access_sorted(g));
            assert(rows.filter(pred) == g);
            assert forall|x: AccessRow| g.contains(x) implies rows.contains(x) by {
                let k = choose|k: int| 0 <= k < g.len() && g[k] == x;
                if k == g.len() - 1 {
                    assert(rows[rows.len() - 1] == x);
                } else {
                    assert(f[k] == x);
                    assert(f.contains(x));
                    let m = choose|m: int| 0 <= m < init.len() && init[m] == x;
                    assert(rows[m] == x);
                }
            }
        } else {
            assert(rows.filter(pred) == f);
            assert forall|x: AccessRow| f.contains(x) implies rows.contains(x) by {
                let m = choose|m: int| 0 <= m < init.len() && init[m] == x;
                assert(rows[m] == x);
            }
        }
    }
}

/// The first `limit` rows of `id`, in the order the log keeps them.
pub open spec fn recent_for(rows: Seq<AccessRow>, id: Seq<char>, limit: nat) -> Seq<AccessView>
    decreases rows.len(),
{
    if rows.len() == 0 || limit == 0 {
        Seq::empty()
    } else if rows[0].0 == id {
        seq![rows[0].1] + recent_for(rows.drop_first(), id, (limit - 1) as nat)
    } else {
        recent_for(rows.drop_first(), id, limit)
    }
}

/// In a log kept newest first, the first `limit` rows of `id` are rows of that
/// identifier, newest first, at most `limit` of them; where fewer than `limit`
/// come back, every row of the identifier does, and where some row of it is left
/// out, none that comes back is older than it.
pub proof fn lemma_recent_for(rows: Seq<AccessRow>, id: Seq<char>, limit: nat)
    requires
        access_sorted(rows),
    ensures
        recent_for(rows, id, limit).len() <= limit,
        forall|i: int, j: int|
            0 <= i < j < recent_for(rows, id, limit).len() ==> (#[trigger] recent_for(
                rows,
                id,
                limit,
            )[i]).ts >= (#[trigger] recent_for(rows, id, limit)[j]).ts,
        forall|i: int|
            0 <= i < recent_for(rows, id, limit).len() ==> rows.contains(
                (id, #[trigger] recent_for(rows, id, limit)[i]),
            ),
        forall|k: int|
            0 <= k < rows.len() && (#[trigger] rows[k]).0 == id && !recent_for(
                rows,
                id,
                limit,
            ).contains(rows[k].1) ==> recent_for(rows, id, limit).len() == limit && forall|i: int|
                0 <= i < recent_for(rows, id, limit).len() ==> (#[trigger] recent_for(
                    rows,
                    id,
                    limit,
                )[i]).ts >= rows[k].1.ts,
    decreases rows.len(),
{
    let out = recent_for(rows, id, limit);
    if rows.len() == 0 || limit == 0 {
    } else {
        let rest = rows.drop_first();
        assert forall|a: int, b: int| #![trigger rest[a], rest[b]] 0 <= a < b < rest.len() implies rest[a].1.ts
            >= rest[b].1.ts && !same_access_key(rest[a], rest[b]) by {
            assert(rest[a] == rows[a + 1] && rest[b] == rows[b + 1]);
        }
        assert(access_sorted(rest));
        let lim2: nat = if rows[0].0 == id {
            (limit - 1) as nat
        } else {
            limit
        };
        lemma_recent_for(rest, id, lim2);
        let t = recent_for(rest, id, lim2);
        assert forall|k: int| 0 <= k < rest.len() implies rows[0].1.ts >= (#[trigger] rest[k]).1.ts by {
            assert(rest[k] == rows[k + 1]);
        }
        assert forall|i: int| 0 <= i < t.len() implies rows[0].1.ts >= (#[trigger] t[i]).ts by {
            assert(rest.contains((id, t[i])));
            let k = choose|k: int| 0 <= k < rest.len() && rest[k] == (id, t[i]);
            assert(rest[k].1.ts <= rows[0].1.ts);
        }
        assert forall|i: int| 0 <= i < t.len() implies rows.contains((id, #[trigger] t[i])) by {
            let k = choose|k: int| 0 <= k < rest.len() && rest[k] == (id, t[i]);
            assert(rows[k + 1] == (id, t[i]));
        }
        if rows[0].0 == id {
            assert(out == seq![rows[0].1] + t);
            assert forall|i: int, j: int|
                0 <= i < j < out.len() implies (#[trigger] out[i]).ts >= (#[trigger] out[j]).ts by {
                if i == 0 {
                    assert(out[j] == t[j - 1]);
                } else {
                    assert(out[i] == t[i - 1] && out[j] == t[j - 1]);
                }
            }
            assert forall|i: int| 0 <= i < out.len() implies rows.contains(
                (id, #[trigger] out[i]),
            ) by {
                if i == 0 {
                    assert(rows[0] == (id, out[0]));
                } else {
                    assert(out[i] == t[i - 1]);
                }
            }
            assert forall|k: int|
                0 <= k < rows.len() && (#[trigger] rows[k]).0 == id && !out.contains(
                    rows[k].1,
                ) implies out.len() == limit && forall|i: int|
                0 <= i < out.len() ==> (#[trigger] out[i]).ts >= rows[k].1.ts by {
                if k == 0 {
                    assert(out[0] == rows[0].1);
                } else {
                    assert(rest[k - 1] == rows[k]);
                    if t.contains(rows[k].1) {
                        let m = choose|m: int| 0 <= m < t.len() && t[m] == rows[k].1;
                        assert(out[m + 1] == rows[k].1);
                    }
                    assert forall|i: int| 0 <= i < out.len() implies (#[trigger] out[i]).ts
                        >= rows[k].1.ts by {
                        if i == 0 {
                        } else {
                            assert(out[i] == t[i - 1]);
                        }
                    }
                }
            }
        } else {
            assert(out == t);
            assert forall|k: int|
                0 <= k < rows.len() && (#[trigger] rows[k]).0 == id && !out.contains(
                    rows[k].1,
                ) implies out.len() == limit && forall|i: int|
                0 <= i < out.len() ==> (#[trigger] out[i]).ts >= rows[k].1.ts by {
                assert(k > 0);
                assert(rest[k - 1] == rows[k]);
            }
        }
    }
}

/// The access log: rows of every link, newest first; a row written again with
/// the same identifier and time replaces the earlier one.
pub struct AccessLog {
    rows: Vec<(String, AccessLogEntry)>,
}

impl View for AccessLog {
    type V = Seq<AccessRow>;

    closed spec fn view(&self) -> Seq<AccessRow> {
        self.rows@.map_values(|r: (String, AccessLogEntry)| (r.0@, r.1@))
    }
}

impl AccessLog {
    pub fn new() -> (r: Self)
        ensures
            r@.len() == 0,
    {
        AccessLog { rows: Vec::new() }
    }

    /// Writes `entry` for `id` at its place, newest first.
    pub fn write(&mut self, id: String, entry: AccessLogEntry)
        requires
            access_sorted(old(self)@),
        ensures
            access_sorted(final(self)@),
            (exists|p: int|
                0 <= p < old(self)@.len() && same_access_key(old(self)@[p], (id@, entry@))
                    && final(self)@ == old(self)@.update(p, (id@, entry@))) || ((forall|p: int|
                0 <= p < old(self)@.len() ==> !same_access_key(old(self)@[p], (id@, entry@)))
                && exists|p: int|
                0 <= p <= old(self)@.len() && final(self)@ == old(self)@.insert(p, (id@, entry@))),
    {
        let ghost row = (id@, entry@);
        let ghost before = self@;
        let mut i: usize = 0;
        while i < self.rows.len()
            invariant
                i <= self.rows@.len(),
                self@ == before,
                before == old(self)@,
                access_sorted(before),
                row == (id@, entry@),
                forall|j: int| 0 <= j < i ==> !same_access_key(#[trigger] before[j], row),
            decreases self.rows@.len() - i,
        {
            if self.rows[i].1.ts == entry.ts && self.rows[i].0 == id {
                assert(same_access_key(before[i as int], row));
                self.rows.set(i, (id, entry));
                assert(self@ =~= before.update(i as int, row));
                proof {
                    let s = self@;
                    let q = i as int;
                    assert forall|a: int, b: int| 0 <= a < b < s.len() implies s[a].1.ts >= s[
                        b].1.ts && !same_access_key(s[a], s[b]) by {
                        assert(before[a].1.ts >= before[b].1.ts);
                    assert(!same_access_key(before[a], before[b]));
                        if a == q {
                            assert(!same_access_key(before[q], before[b]));
                        } else if b == q {
                            assert(!same_access_key(before[a], before[q]));
                        }
                    }
                    assert(0 <= q < before.len() && same_access_key(before[q], row) && self@
                        == before.update(q, row));
                }
                return;
            }
            assert(!same_access_key(before[i as int], row));
            i = i + 1;
        }
        let mut p: usize = 0;
        while p < self.rows.len() && self.rows[p].1.ts >= entry.ts
            invariant
                p <= self.rows@.len(),
                self@ == before,
                before == old(self)@,
                access_sorted(before),
                row == (id@, entry@),
                forall|j: int| 0 <= j < i ==> !same_access_key(#[trigger] before[j], row),
                forall|j: int| 0 <= j < p ==> (#[trigger] before[j]).1.ts >= row.1.ts,
            decreases self.rows@.len() - p,
        {
            p = p + 1;
        }
        self.rows.insert(p, (id, entry));
        assert(self@ =~= before.insert(p as int, row));
        proof {
            let s = self@;
            if (p as int) < before.len() {
                assert(!(before[p as int].1.ts >= row.1.ts));
            }
            assert forall|a: int, b: int| 0 <= a < b < s.len() implies s[a].1.ts >= s[b].1.ts
                && !same_access_key(s[a], s[b]) by {
                if b < p {
                    assert(s[a] == before[a] && s[b] == before[b]);
                    assert(before[a].1.ts >= before[b].1.ts);
                } else if b == p {
                    assert(s[a] == before[a]);
                } else if a < p {
                    assert(s[a] == before[a] && s[b] == before[b - 1]);
                    assert(before[a].1.ts >= before[b - 1].1.ts);
                } else if a == p {
                    assert(s[b] == before[b - 1]);
                    if b - 1 > p {
                        assert(before[p as int].1.ts >= before[b - 1].1.ts);
                    }
                } else {
                    assert(s[a] == before[a - 1] && s[b] == before[b - 1]);
                    assert(before[a - 1].1.ts >= before[b - 1].1.ts);
                }
            }
        }
    }

    /// Drops the rows that have expired by `now`.
    pub fn purge(&mut self, now: Timestamp)
        requires
            access_sorted(old(self)@),
        ensures
            final(self)@ == old(self)@.filter(live_access(now)),
            access_sorted(final(self)@),
    {
        let ghost all = self@;
        let ghost pred = live_access(now);
        let mut kept: Vec<(String, AccessLogEntry)> = Vec::new();
        let mut i: usize = 0;
        assert(all.subrange(0, 0) =~= Seq::<AccessRow>::empty());
        proof {
            reveal(Seq::filter);
        }
        while i < self.rows.len()
            invariant
                i <= self.rows@.len(),
                all == self@,
                pred == live_access(now),
                kept@.map_values(|r: (String, AccessLogEntry)| (r.0@, r.1@)) == all.subrange(
                    0,
                    i as int,
                ).filter(pred),
            decreases self.rows@.len() - i,
        {
            let ghost prev = kept@.map_values(|r: (String, AccessLogEntry)| (r.0@, r.1@));
            assert(all[i as int] == (self.rows@[i as int].0@, self.rows@[i as int].1@));
            assert(all.subrange(0, i + 1) =~= all.subrange(0, i as int).push(all[i as int]));
            proof {
                all.subrange(0, i as int).lemma_filter_push(all[i as int], pred);
            }
            if !is_expired(self.rows[i].1.ts, now) {
                let row = (self.rows[i].0.clone(), self.rows[i].1.duplicate());
                kept.push(row);
                assert(kept@.map_values(|r: (String, AccessLogEntry)| (r.0@, r.1@)) =~= prev.push(
                    all[i as int],
                ));
            }
            i = i + 1;
        }
        assert(all.subrange(0, i as int) =~= all);
        self.rows = kept;
        proof {
            lemma_filter_keeps_order(all, pred);
        }
    }

    /// The newest `limit` rows of `id`.
    pub fn recent(&self, id: &String, limit: usize) -> (r: Vec<AccessLogEntry>)
        ensures
            r@.map_values(|e: AccessLogEntry| e@) == recent_for(self@, id@, limit as nat),
    {
        let ghost all = self@;
        let mut out: Vec<AccessLogEntry> = Vec::new();
        let mut i: usize = 0;
        assert(all.subrange(0, all.len() as int) =~= all);
        while i < self.rows.len() && out.len() < limit
            invariant
                i <= self.rows@.len(),
                all == self@,
                out@.len() <= limit,
                out@.map_values(|e: AccessLogEntry| e@) + recent_for(
                    all.subrange(i as int, all.len() as int),
                    id@,
                    (limit - out@.len()) as nat,
                ) == recent_for(all, id@, limit as nat),
            decreases self.rows@.len() - i,
        {
            let ghost rest = all.subrange(i as int, all.len() as int);
            let ghost prev = out@.map_values(|e: AccessLogEntry| e@);
            assert(rest[0] == all[i as int]);
            assert(rest.drop_first() =~= all.subrange(i + 1, all.len() as int));
            assert(all[i as int] == (self.rows@[i as int].0@, self.rows@[i as int].1@));
            if self.rows[i].0 == *id {
                let e = self.rows[i].1.duplicate();
                out.push(e);
                assert(out@.map_values(|e: AccessLogEntry| e@) =~= prev + seq![rest[0].1]);
                assert(prev + (seq![rest[0].1] + recent_for(
                    rest.drop_first(),
                    id@,
                    (limit - out@.len()) as nat,
                )) =~= out@.map_values(|e: AccessLogEntry| e@) + recent_for(
                    rest.drop_first(),
                    id@,
                    (limit - out@.len()) as nat,
                ));
            }
            i = i + 1;
        }
        if i >= self.rows.len() {
            assert(all.subrange(i as int, all.len() as int).len() == 0);
        }
        assert(out@.map_values(|e: AccessLogEntry| e@) + Seq::<AccessView>::empty() =~= out@.map_values(
            |e: AccessLogEntry| e@,
        ));
        out
    }
}

/// A creation-log row with its link's identifier, as plain values.
pub type CreateRow = (Seq<char>, CreateLogView);

/// The creation log: one row per identifier and time; a row written again with
/// the same key replaces the earlier one.
pub struct CreateLog {
    rows: Vec<(String, CreateLogEntry)>,
}

impl View for CreateLog {
    type V = Seq<CreateRow>;

    closed spec fn view(&self) -> Seq<CreateRow> {
        self.rows@.map_values(|r: (String, CreateLogEntry)| (r.0@, r.1@))
    }
}

impl CreateLog {
    pub fn new() -> (r: Self)
        ensures
            r@.len() == 0,
    {
        CreateLog { rows: Vec::new() }
    }

    /// Writes `entry` for `id`, replacing a row with the same identifier and time.
    pub fn write(&mut self, id: String, entry: CreateLogEntry)
        ensures
            (exists|p: int|
                0 <= p < old(self)@.len() && old(self)@[p].0 == id@ && old(self)@[p].1.ts
                    == entry.ts && final(self)@ == old(self)@.update(p, (id@, entry@))) || ((forall|
                p: int,
            |
                0 <= p < old(self)@.len() ==> !(old(self)@[p].0 == id@ && old(self)@[p].1.ts
                    == entry.ts)) && final(self)@ == old(self)@.push((id@, entry@))),
    {
        let ghost before = self@;
        let mut i: usize = 0;
        while i < self.rows.len()
            invariant
                i <= self.rows@.len(),
                self@ == before,
                before == old(self)@,
                forall|j: int|
                    0 <= j < i ==> !((#[trigger] before[j]).0 == id@ && before[j].1.ts == entry.ts),
            decreases self.rows@.len() - i,
        {
            assert(before[i as int] == (self.rows@[i as int].0@, self.rows@[i as int].1@));
            if self.rows[i].1.ts == entry.ts && self.rows[i].0 == id {
                let ghost row = (id@, entry@);
                self.rows.set(i, (id, entry));
                assert(self@ =~= before.update(i as int, row));
                assert(before[i as int].0 == row.0 && before[i as int].1.ts == row.1.ts);
                assert(exists|p: int|
                    0 <= p < before.len() && before[p].0 == row.0 && before[p].1.ts == row.1.ts
                        && self@ == before.update(p, row));
                return;
            }
            i = i + 1;
        }
        let ghost row = (id@, entry@);
        self.rows.push((id, entry));
        assert(self@ =~= before.push(row));
    }
    /// Drops the rows that have expired by `now`.
    pub fn purge(&mut self, now: Timestamp)
        ensures
            final(self)@ == old(self)@.filter(live_create(now)),
    {
        let ghost all = self@;
        let ghost pred = live_create(now);
        let mut kept: Vec<(String, CreateLogEntry)> = Vec::new();
        let mut i: usize = 0;
        assert(all.subrange(0, 0) =~= Seq::<CreateRow>::empty());
        proof {
            reveal(Seq::filter);
        }
        while i < self.rows.len()
            invariant
                i <= self.rows@.len(),
                all == self@,
                pred == live_create(now),
                kept@.map_values(|r: (String, CreateLogEntry)| (r.0@, r.1@)) == all.subrange(
                    0,
                    i as int,
                ).filter(pred),
            decreases self.rows@.len() - i,
        {
            let ghost prev = kept@.map_values(|r: (String, CreateLogEntry)| (r.0@, r.1@));
            assert(all[i as int] == (self.rows@[i as int].0@, self.rows@[i as int].1@));
            assert(all.subrange(0, i + 1) =~= all.subrange(0, i as int).push(all[i as int]));
            proof {
                all.subrange(0, i as int).lemma_filter_push(all[i as int], pred);
            }
            if !is_expired(self.rows[i].1.ts, now) {
                let e = &self.rows[i].1;
                let copy = CreateLogEntry {
                    ts: e.ts,
                    ip: e.ip.clone(),
                    user_agent: e.user_agent.clone(),
                    original_url: e.original_url.clone(),
                    request_id: e.request_id.clone(),
                };
                kept.push((self.rows[i].0.clone(), copy));
                assert(kept@.map_values(|r: (String, CreateLogEntry)| (r.0@, r.1@)) =~= prev.push(
                    all[i as int],
                ));
            }
            i = i + 1;
        }
        assert(all.subrange(0, i as int) =~= all);
        self.rows = kept;
    }
}

} // verus!
