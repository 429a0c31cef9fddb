use vstd::prelude::*;

use crate::allocator::{
    alloc_next, lemma_allocation_step, AllocAction, AllocEvent, SequenceAllocator, BASE_DELAY_MS,
    MAX_DELAY_MS,
};
use crate::audit::{
    access_sorted, expired, is_expired, lemma_recent_for, live_access, live_create, recent_for,
    same_access_key,
    AccessLog, AccessRow, CreateLog, CreateRow,
};
use crate::handler::{parsed_url, resolve, Resolution, STATUS_GONE, STATUS_NOT_FOUND, STATUS_REDIRECT};
use crate::id::{generated_code, normalized, CodecError, ID};
use crate::index::{
    index_sorted, lemma_page_walk, page_of, page_walk, same_key, OrderedIndex,
};
use crate::models::{
    or_empty, stored_text, AccessLogEntry, AccessView, CreateLogEntry, CreateLogView, CreateMeta,
    LastAccess, LinkView, MetaView, ShortUrlState, ShortenedURL, StateView, Timestamp,
};
use crate::paging::{
    clamp_i32, clamped, cursor_position, decode_cursor, encode_cursor, MAX_ACCESS_LOG_LIMIT,
    MAX_PAGE_LIMIT,
};
use crate::table::Table;
use crate::write::{
    follow_up, interpret_insert, state_record, InsertOutcome, InsertReply, StoreError,
};

verus! {

proof fn lemma_map_values_insert<V, W>(m: Map<Seq<char>, V>, k: Seq<char>, v: V, f: spec_fn(V) -> W)
    ensures
        m.insert(k, v).map_values(f) == m.map_values(f).insert(k, f(v)),
{
    assert(m.insert(k, v).map_values(f) =~= m.map_values(f).insert(k, f(v)));
}

/// The identifier a create settles on: the normalized custom identifier, or the
/// code of the next sequence number, if one can be allocated and encoded.
pub open spec fn requested_id(custom: Option<Seq<char>>, counter: i64) -> Option<Seq<char>> {
    match custom {
        Some(c) => Some(normalized(c)),
        None => if counter < i64::MAX {
            generated_code((counter + 1) as i64)
        } else {
            None
        },
    }
}

/// The counter after a create: advanced by one where an identifier was generated.
pub open spec fn counter_after(custom: Option<Seq<char>>, counter: i64) -> i64 {
    if custom is None && counter < i64::MAX {
        (counter + 1) as i64
    } else {
        counter
    }
}

/// A returned link as plain values.
pub open spec fn link_result(r: Result<ShortenedURL, StoreError>) -> Result<LinkView, StoreError> {
    match r {
        Ok(l) => Ok(l@),
        Err(e) => Err(e),
    }
}

/// What a create of `url` with the optional custom identifier, expiry and clock
/// reading does to store `s`, leaving `t` and returning `r`. An identifier that no
/// link has yet gets the new link, its enabled state and its index row; an
/// identifier already taken returns the link stored under it, or an error where its
/// stored URL does not parse, and writes nothing.
/// Only the counter moves, and only when an identifier is generated.
pub open spec fn create_post(
    s: StoreContents,
    t: StoreContents,
    url: Seq<char>,
    custom: Option<Seq<char>>,
    expires_at: Option<Timestamp>,
    now: Timestamp,
    r: Result<LinkView, StoreError>,
) -> bool {
    let s1 = StoreContents { counter: counter_after(custom, s.counter), ..s };
    match requested_id(custom, s.counter) {
        None => {
            &&& custom is None
            &&& r == Err::<LinkView, StoreError>(
                if s.counter == i64::MAX {
                    StoreError::AllocationExhausted
                } else {
                    StoreError::Codec(CodecError::EncodingFailed)
                },
            )
            &&& t == s1
        },
        Some(id) => {
            &&& normalized(id) == id
            &&& r is Ok ==> r->Ok_0.id == id
            &&& custom is None ==> forall|o: i64|
                #[trigger] generated_code(o) == Some(id) ==> o == s.counter + 1
            &&& if s.links.contains_key(id) {
                &&& t == s1
                &&& r == if parsed_url(s.links[id].original_url) is Some {
                    Ok::<LinkView, StoreError>(s.links[id])
                } else {
                    Err::<LinkView, StoreError>(StoreError::InvalidStoredUrl)
                }
            } else {
                &&& r is Ok
                &&& r->Ok_0 == (LinkView { id, original_url: url, created_at: now, expires_at })
                &&& exists|p: int|
                    0 <= p <= s.index.len() && t == (StoreContents {
                        links: s.links.insert(id, r->Ok_0),
                        states: s.states.insert(id, state_record(id, true, now)),
                        index: #[trigger] s.index.insert(p, r->Ok_0),
                        ..s1
                    })
            }
        },
    }
}

/// How resolving `id` ends against store `s`: `None` when no link has it,
/// `Some(None)` when its state says disabled, else `Some(Some(target))`.
pub open spec fn resolution_in(s: StoreContents, id: Seq<char>) -> Option<Option<Seq<char>>> {
    if !s.links.contains_key(id) {
        None
    } else if s.states.contains_key(id) && !s.states[id].enabled {
        Some(None)
    } else {
        Some(Some(s.links[id].original_url))
    }
}

/// A resolution as plain values, in the shape of `resolution_in`.
pub open spec fn outcome_of(r: Resolution) -> Option<Option<Seq<char>>> {
    match r {
        Resolution::NotFound => None,
        Resolution::Disabled => Some(None),
        Resolution::Redirect(u) => Some(Some(u@)),
    }
}

/// The status code recorded for a resolution.
pub open spec fn status_of(r: Resolution) -> i32 {
    match r {
        Resolution::Redirect(_) => STATUS_REDIRECT,
        Resolution::NotFound => STATUS_NOT_FOUND,
        Resolution::Disabled => STATUS_GONE,
    }
}

/// Creator metadata as the store keeps it.
pub open spec fn meta_view(
    created_at: Timestamp,
    ip: Option<Seq<char>>,
    user_agent: Option<Seq<char>>,
    request_id: Option<Seq<char>>,
) -> MetaView {
    MetaView {
        created_at,
        ip: stored_text(ip),
        user_agent: stored_text(user_agent),
        request_id: stored_text(request_id),
    }
}

/// The creator metadata still live at `now`.
pub open spec fn live_metas(metas: Map<Seq<char>, MetaView>, now: Timestamp) -> Map<Seq<char>, MetaView> {
    Map::new(|k: Seq<char>| metas.contains_key(k) && !expired(metas[k].created_at, now), |k: Seq<char>| metas[k])
}

/// The metadata table after saving `m` for `id`: the first record stays.
pub open spec fn metas_after_save(metas: Map<Seq<char>, MetaView>, id: Seq<char>, m: MetaView) -> Map<
    Seq<char>,
    MetaView,
> {
    if metas.contains_key(id) {
        metas
    } else {
        metas.insert(id, m)
    }
}

/// An access-log row as the store keeps it.
pub open spec fn access_view(
    ts: Timestamp,
    ip: Option<Seq<char>>,
    user_agent: Option<Seq<char>>,
    request_id: Option<Seq<char>>,
    status_code: i32,
) -> AccessView {
    AccessView {
        ts,
        ip: stored_text(ip),
        user_agent: stored_text(user_agent),
        request_id: stored_text(request_id),
        status_code,
    }
}

/// A link with its identifier in canonical form.
pub open spec fn with_canonical_id(l: LinkView) -> LinkView {
    LinkView { id: normalized(l.id), ..l }
}

/// Copies of the rows, each with its identifier normalized.
fn canonical_ids(rows: &Vec<ShortenedURL>) -> (r: Vec<ShortenedURL>)
    ensures
        r@.map_values(|l: ShortenedURL| l@) == rows@.map_values(
            |l: ShortenedURL| with_canonical_id(l@),
        ),
{
    let mut out: Vec<ShortenedURL> = Vec::new();
    let mut i: usize = 0;
    while i < rows.len()
        invariant
            i <= rows@.len(),
            out@.len() == i,
            forall|k: int| 0 <= k < i ==> (#[trigger] out@[k])@ == with_canonical_id(rows@[k]@),
        decreases rows@.len() - i,
    {
        let l = &rows[i];
        out.push(
            ShortenedURL {
                id: ID::new(l.id.0.clone()),
                original_url: l.original_url.clone(),
                created_at: l.created_at,
                expires_at: l.expires_at,
            },
        );
        i = i + 1;
    }
    assert(out@.map_values(|l: ShortenedURL| l@) =~= rows@.map_values(
        |l: ShortenedURL| with_canonical_id(l@),
    ));
    out
}

/// A text argument as a plain value.
pub open spec fn text_arg(v: Option<&str>) -> Option<Seq<char>> {
    match v {
        Some(s) => Some(s@),
        None => None,
    }
}

/// What a store holds, as plain values.
pub struct StoreContents {
    /// The primary table: each link by its identifier.
    pub links: Map<Seq<char>, LinkView>,
    /// The state records, by identifier.
    pub states: Map<Seq<char>, StateView>,
    /// The last access of each identifier.
    pub last_accesses: Map<Seq<char>, LastAccess>,
    /// The creator metadata, by identifier.
    pub metas: Map<Seq<char>, MetaView>,
    /// The rows of the creation-time index, in clustering order.
    pub index: Seq<LinkView>,
    /// The value of the sequence counter.
    pub counter: i64,
    /// The access log, newest first.
    pub access_log: Seq<AccessRow>,
    /// The creation log.
    pub create_log: Seq<CreateRow>,
}

/// A store of the short-link tables held in memory, with the primitives of the
/// distributed store: conditional single-row inserts, upserts, a compare-and-set
/// counter and a clustered partition scanned in pages.
pub struct MemoryStore {
    links: Table<ShortenedURL>,
    states: Table<ShortUrlState>,
    last_access: Table<LastAccess>,
    metas: Table<CreateMeta>,
    index: OrderedIndex,
    counter: i64,
    access_log: AccessLog,
    create_log: CreateLog,
}

impl MemoryStore {
    /// The contents of every table and of the counter.
    pub closed spec fn view(&self) -> StoreContents {
        StoreContents {
            links: self.links@.map_values(|l: ShortenedURL| l@),
            states: self.states@.map_values(|s: ShortUrlState| s@),
            last_accesses: self.last_access@,
            metas: self.metas@.map_values(|m: CreateMeta| m@),
            index: self.index@,
            counter: self.counter,
            access_log: self.access_log@,
            create_log: self.create_log@,
        }
    }

    /// The store's invariant: each table keyed consistently, the index sorted and
    /// each of its rows a copy of the link it indexes.
    pub closed spec fn wf(self) -> bool {
        &&& self.links.wf()
        &&& self.states.wf()
        &&& self.last_access.wf()
        &&& self.metas.wf()
        &&& index_sorted(self.index@)
        &&& access_sorted(self.access_log@)
        &&& forall|k: Seq<char>| #[trigger]
            self.links@.contains_key(k) ==> self.links@[k]@.id == k
        &&& forall|i: int|
            0 <= i < self.index@.len() ==> self@.links.contains_key(#[trigger] self.index@[i].id)
                && self@.links[self.index@[i].id] == self.index@[i]
    }

    /// An empty store whose counter stands at zero.
    pub fn new() -> (r: Self)
        ensures
            r.wf(),
            r@.links.is_empty(),
            r@.states.is_empty(),
            r@.last_accesses.is_empty(),
            r@.metas.is_empty(),
            r@.index.len() == 0,
            r@.counter == 0,
    {
        let r = MemoryStore {
            links: Table::new(),
            states: Table::new(),
            last_access: Table::new(),
            metas: Table::new(),
            index: OrderedIndex::new(),
            counter: 0,
            access_log: AccessLog::new(),
            create_log: CreateLog::new(),
        };
        assert(r@.links =~= Map::empty());
        assert(r@.states =~= Map::empty());
        assert(r@.metas =~= Map::empty());
        r
    }

    /// The link stored under `id`, if any.
    pub fn find_by_id(&self, id: ID) -> (r: Option<ShortenedURL>)
        requires
            self.wf(),
        ensures
            match r {
                Some(l) => self@.links.contains_key(id@) && l@ == self@.links[id@] && l@.id
                    == id@,
                None => !self@.links.contains_key(id@),
            },
    {
        match self.links.get(&id.0) {
            Some(l) => Some(l.duplicate()),
            None => None,
        }
    }

    /// Advances the counter by compare-and-set, retrying as the allocator decides.
    fn next_sequence(&mut self) -> (r: Result<i64, StoreError>)
        requires
            old(self).wf(),
        ensures
            final(self).wf(),
            old(self)@.counter < i64::MAX ==> r == Ok::<i64, StoreError>(
                (old(self)@.counter + 1) as i64,
            ) && final(self)@ == (StoreContents {
                counter: (old(self)@.counter + 1) as i64,
                ..old(self)@
            }),
            old(self)@.counter == i64::MAX ==> r == Err::<i64, StoreError>(
                StoreError::AllocationExhausted,
            ) && final(self)@ == old(self)@,
    {
        let mut alloc = SequenceAllocator::new();
        let mut action = alloc.pending();
        loop
            invariant
                *self == *old(self),
                self.wf(),
                alloc.inv(),
                alloc@.wf(),
                action == alloc@.pending,
                self.counter < i64::MAX ==> (action is ReadCounter || action == (
                AllocAction::CompareAndSet { expected: self.counter, new: (self.counter + 1) as i64 })),
                self.counter == i64::MAX ==> !(action is CompareAndSet) && !(action is Allocated),
            decreases alloc@.measure(),
        {
            let ghost prev = alloc@;
            let event = match action {
                AllocAction::ReadCounter => AllocEvent::CounterRead { value: self.counter },
                AllocAction::CompareAndSet { expected, new } => {
                    if self.counter == expected {
                        self.counter = new;
                        return Ok(new);
                    }
                    AllocEvent::SwapRejected
                },
                AllocAction::Wait { .. } => AllocEvent::Waited,
                AllocAction::Allocated { value } => {
                    return Ok(value);
                },
                AllocAction::Exhausted => {
                    return Err(StoreError::AllocationExhausted);
                },
            };
            action = alloc.step(event);
            proof {
                let d = choose|d: u64|
                    BASE_DELAY_MS <= d <= 2 * MAX_DELAY_MS && alloc@ == alloc_next(prev, event, d);
                lemma_allocation_step(prev, event, d);
            }
        }
    }

    /// Settles the identifier of a create: the normalized custom identifier, or the
    /// code of a freshly allocated sequence number.
    fn create_id(&mut self, custom_id: Option<&str>) -> (r: Result<ID, StoreError>)
        requires
            old(self).wf(),
        ensures
            final(self).wf(),
            final(self)@ == (StoreContents {
                counter: counter_after(text_arg(custom_id), old(self)@.counter),
                ..old(self)@
            }),
            match requested_id(text_arg(custom_id), old(self)@.counter) {
                None => custom_id is None && r == Err::<ID, StoreError>(
                    if old(self)@.counter == i64::MAX {
                        StoreError::AllocationExhausted
                    } else {
                        StoreError::Codec(CodecError::EncodingFailed)
                    },
                ),
                Some(id) => r matches Ok(i) && i@ == id && normalized(id) == id && (custom_id is None
                    ==> forall|o: i64|
                    #[trigger] generated_code(o) == Some(id) ==> o == old(self)@.counter + 1),
            },
    {
        match custom_id {
            Some(cid) => {
                let id = ID::new(cid.to_string());
                proof {
                    crate::id::lemma_normalize_idempotent(cid@);
                }
                Ok(id)
            },
            None => {
                let seq = match self.next_sequence() {
                    Ok(seq) => seq,
                    Err(e) => {
                        return Err(e);
                    },
                };
                match ID::generate(seq) {
                    Ok(id) => Ok(id),
                    Err(e) => Err(StoreError::Codec(e)),
                }
            },
        }
    }

    /// Writes `requested` if no link has its identifier: the state record and the
    /// index row follow only on that win. Returns the link that stands.
    fn write_link(&mut self, requested: ShortenedURL) -> (r: Result<ShortenedURL, StoreError>)
        requires
            old(self).wf(),
        ensures
            final(self).wf(),
            r is Ok ==> r->Ok_0@.id == requested@.id,
            if old(self)@.links.contains_key(requested@.id) {
                final(self)@ == old(self)@ && link_result(r) == if parsed_url(
                    old(self)@.links[requested@.id].original_url,
                ) is Some {
                    Ok::<LinkView, StoreError>(old(self)@.links[requested@.id])
                } else {
                    Err::<LinkView, StoreError>(StoreError::InvalidStoredUrl)
                }
            } else {
                r is Ok && r->Ok_0@ == requested@ && exists|p: int|
                    0 <= p <= old(self)@.index.len() && final(self)@ == (StoreContents {
                        links: old(self)@.links.insert(requested@.id, r->Ok_0@),
                        states: old(self)@.states.insert(
                            requested@.id,
                            state_record(requested@.id, true, requested.created_at),
                        ),
                        index: #[trigger] old(self)@.index.insert(p, r->Ok_0@),
                        ..old(self)@
                    })
            },
    {
        let ghost before = *self;
        let ghost id = requested@.id;
        let key = requested.id.0.clone();
        let applied = self.links.insert_if_absent(key.clone(), requested.duplicate());
        let reply = if applied {
            InsertReply {
                applied: true,
                existing_url: None,
                existing_created_at: None,
                existing_expires_at: None,
            }
        } else {
            match self.links.get(&key) {
                Some(e) => InsertReply {
                    applied: false,
                    existing_url: Some(e.original_url.clone()),
                    existing_created_at: Some(e.created_at),
                    existing_expires_at: e.expires_at,
                },
                None => InsertReply {
                    applied: false,
                    existing_url: None,
                    existing_created_at: None,
                    existing_expires_at: None,
                },
            }
        };
        let outcome = match interpret_insert(requested, Some(reply)) {
            Ok(o) => o,
            Err(e) => {
                proof {
                    assert(before.links.view()[id]@.id == id);
                    assert(before@.links[id] == before.links.view()[id]@);
                }
                return Err(e);
            },
        };
        let writes = follow_up(&outcome);
        match outcome {
            InsertOutcome::Applied(l) => {
                let ghost lv = l@;
                proof {
                    lemma_map_values_insert(before.links@, id, self.links@[id], |x: ShortenedURL| x@);
                }
                let f = match writes {
                    Some(f) => f,
                    None => {
                        return Ok(l);
                    },
                };
                let state = f.state;
                proof {
                    lemma_map_values_insert(before.states@, id, state, |x: ShortUrlState| x@);
                }
                self.states.upsert(key, state);
                proof {
                    assert forall|i: int| 0 <= i < before.index@.len() implies !same_key(
                        #[trigger] before.index@[i],
                        lv,
                    ) by {
                        assert(before@.links.contains_key(before.index@[i].id));
                    }
                }
                self.index.insert_if_absent(f.index_row);
                assert(self@.links == before@.links.insert(id, lv));
                assert(self@.states == before@.states.insert(id, state_record(id, true, lv.created_at)));
                proof {
                    assert forall|i: int| 0 <= i < self.index@.len() implies self@.links.contains_key(
                        #[trigger] self.index@[i].id,
                    ) && self@.links[self.index@[i].id] == self.index@[i] by {
                        let p = choose|p: int|
                            0 <= p <= before.index@.len() && self.index@ == before.index@.insert(
                                p,
                                lv,
                            );
                        if i < p {
                            assert(self.index@[i] == before.index@[i]);
                            assert(before@.links.contains_key(before.index@[i].id));
                        } else if i > p {
                            assert(self.index@[i] == before.index@[i - 1]);
                            assert(before@.links.contains_key(before.index@[i - 1].id));
                        }
                    }
                    let p = choose|p: int|
                        0 <= p <= before.index@.len() && self.index@ == before.index@.insert(p, lv);
                    assert(self@.index == before@.index.insert(p, l@));
                }
                Ok(l)
            },
            InsertOutcome::Conflict(l) => {
                assert(before.links.view().contains_key(id));
                assert(before.links.view()[id]@.id == id);
                assert(before@.links[id] == before.links.view()[id]@);
                assert(l@ == before@.links[id]);
                assert(self@.links == before@.links);
                Ok(l)
            },
        }
    }

    /// Creates a link unless one already has its identifier. The identifier is the
    /// normalized custom identifier or the code of a freshly allocated sequence
    /// number. Where no link had it, the link is written with `now` as its
    /// creation time, its state is initialized as enabled, and it joins the
    /// index; where one had it, that first-written link is returned and nothing
    /// changes.
    pub fn create(
        &mut self,
        original_url: String,
        custom_id: Option<&str>,
        expires_at: Option<Timestamp>,
        now: Timestamp,
    ) -> (r: Result<ShortenedURL, StoreError>)
        requires
            old(self).wf(),
        ensures
            final(self).wf(),
            create_post(
                old(self)@,
                final(self)@,
                original_url@,
                text_arg(custom_id),
                expires_at,
                now,
                link_result(r),
            ),
    {
        let id = match self.create_id(custom_id) {
            Ok(id) => id,
            Err(e) => {
                return Err(e);
            },
        };
        let requested = ShortenedURL { id, original_url, created_at: now, expires_at };
        self.write_link(requested)
    }

    /// The state record of `id`, if one was written, carrying the normalized identifier.
    pub fn get_state(&self, id: &str) -> (r: Option<ShortUrlState>)
        requires
            self.wf(),
        ensures
            match r {
                Some(st) => self@.states.contains_key(id@) && st@ == (StateView {
                    id: normalized(id@),
                    ..self@.states[id@]
                }),
                None => !self@.states.contains_key(id@),
            },
    {
        match self.states.get(&id.to_string()) {
            Some(st) => Some(
                ShortUrlState {
                    id: ID::new(id.to_string()),
                    enabled: st.enabled,
                    disabled_at: st.disabled_at,
                    updated_at: st.updated_at,
                },
            ),
            None => None,
        }
    }

    /// Enables or disables `id` at `now`: disabling stamps the time, enabling clears it.
    pub fn set_enabled(&mut self, id: &str, enabled: bool, now: Timestamp)
        requires
            old(self).wf(),
        ensures
            final(self).wf(),
            final(self)@ == (StoreContents {
                states: old(self)@.states.insert(id@, state_record(id@, enabled, now)),
                ..old(self)@
            }),
    {
        let disabled_at = if enabled {
            None
        } else {
            Some(now)
        };
        let st = ShortUrlState { id: ID(id.to_string()), enabled, disabled_at, updated_at: now };
        proof {
            lemma_map_values_insert(self.states@, id@, st, |x: ShortUrlState| x@);
        }
        self.states.upsert(id.to_string(), st);
    }

    /// Records who created `id`, unless that is recorded already: the first writer wins.
    pub fn save_create_meta_if_absent(
        &mut self,
        id: &str,
        created_at: Timestamp,
        ip: Option<&str>,
        user_agent: Option<&str>,
        request_id: Option<&str>,
    )
        requires
            old(self).wf(),
        ensures
            final(self).wf(),
            final(self)@ == (StoreContents {
                metas: metas_after_save(
                    old(self)@.metas,
                    id@,
                    meta_view(created_at, text_arg(ip), text_arg(user_agent), text_arg(request_id)),
                ),
                ..old(self)@
            }),
    {
        let meta = CreateMeta {
            created_at,
            ip: or_empty(ip),
            user_agent: or_empty(user_agent),
            request_id: or_empty(request_id),
        };
        proof {
            lemma_map_values_insert(self.metas@, id@, meta, |x: CreateMeta| x@);
        }
        self.metas.insert_if_absent(id.to_string(), meta);
    }

    /// Who created `id`, if recorded.
    pub fn get_create_meta(&self, id: &str) -> (r: Option<CreateMeta>)
        requires
            self.wf(),
        ensures
            match r {
                Some(m) => self@.metas.contains_key(id@) && m@ == self@.metas[id@],
                None => !self@.metas.contains_key(id@),
            },
    {
        match self.metas.get(&id.to_string()) {
            Some(m) => Some(m.duplicate()),
            None => None,
        }
    }

    /// The last access of `id`, if any.
    pub fn get_last_access(&self, id: &str) -> (r: Option<LastAccess>)
        requires
            self.wf(),
        ensures
            match r {
                Some(a) => self@.last_accesses.contains_key(id@) && a == self@.last_accesses[id@],
                None => !self@.last_accesses.contains_key(id@),
            },
    {
        match self.last_access.get(&id.to_string()) {
            Some(a) => Some(*a),
            None => None,
        }
    }

    /// Overwrites the last access of `id`: the last write wins.
    pub fn set_last_access(&mut self, id: &str, ts: Timestamp, status_code: i32)
        requires
            old(self).wf(),
        ensures
            final(self).wf(),
            final(self)@ == (StoreContents {
                last_accesses: old(self)@.last_accesses.insert(
                    id@,
                    LastAccess { at: ts, status_code },
                ),
                ..old(self)@
            }),
    {
        self.last_access.upsert(id.to_string(), LastAccess { at: ts, status_code });
    }

    /// Appends a row to the creation log.
    pub fn log_create(
        &mut self,
        id: &str,
        ts: Timestamp,
        ip: Option<&str>,
        user_agent: Option<&str>,
        original_url: &str,
        request_id: Option<&str>,
    )
        requires
            old(self).wf(),
        ensures
            final(self).wf(),
            final(self)@ == (StoreContents { create_log: final(self)@.create_log, ..old(self)@ }),
            ({
                let e = CreateLogView {
                    ts,
                    ip: stored_text(text_arg(ip)),
                    user_agent: stored_text(text_arg(user_agent)),
                    original_url: original_url@,
                    request_id: stored_text(text_arg(request_id)),
                };
                (exists|p: int|
                    0 <= p < old(self)@.create_log.len() && old(self)@.create_log[p].0 == id@
                        && old(self)@.create_log[p].1.ts == ts && final(self)@.create_log
                        == #[trigger] old(self)@.create_log.update(p, (id@, e)))
                    || final(self)@.create_log == old(self)@.create_log.push((id@, e))
            }),
    {
        let entry = CreateLogEntry {
            ts,
            ip: or_empty(ip),
            user_agent: or_empty(user_agent),
            original_url: original_url.to_string(),
            request_id: or_empty(request_id),
        };
        let ghost e = entry@;
        self.create_log.write(id.to_string(), entry);
        assert(e == (CreateLogView {
            ts,
            ip: stored_text(text_arg(ip)),
            user_agent: stored_text(text_arg(user_agent)),
            original_url: original_url@,
            request_id: stored_text(text_arg(request_id)),
        }));
    }

    /// Writes a row to the access log, at its place newest first.
    pub fn log_access(
        &mut self,
        id: &str,
        ts: Timestamp,
        ip: Option<&str>,
        user_agent: Option<&str>,
        request_id: Option<&str>,
        status_code: i32,
    )
        requires
            old(self).wf(),
        ensures
            final(self).wf(),
            final(self)@ == (StoreContents { access_log: final(self)@.access_log, ..old(self)@ }),
            ({
                let e = access_view(ts, text_arg(ip), text_arg(user_agent), text_arg(request_id), status_code);
                (exists|p: int|
                    0 <= p < old(self)@.access_log.len() && same_access_key(
                        old(self)@.access_log[p],
                        (id@, e),
                    ) && final(self)@.access_log == #[trigger] old(self)@.access_log.update(
                        p,
                        (id@, e),
                    )) || (exists|p: int|
                    0 <= p <= old(self)@.access_log.len() && final(self)@.access_log
                        == #[trigger] old(self)@.access_log.insert(p, (id@, e)))
            }),
            exists|p: int|
                0 <= p < final(self)@.access_log.len() && #[trigger] final(self)@.access_log[p]
                    == (id@, access_view(
                    ts,
                    text_arg(ip),
                    text_arg(user_agent),
                    text_arg(request_id),
                    status_code,
                )),
    {
        let entry = AccessLogEntry {
            ts,
            ip: or_empty(ip),
            user_agent: or_empty(user_agent),
            request_id: or_empty(request_id),
            status_code,
        };
        let ghost e = entry@;
        let key = id.to_string();
        let ghost before = self.access_log@;
        self.access_log.write(key, entry);
        assert(e == access_view(ts, text_arg(ip), text_arg(user_agent), text_arg(request_id), status_code));
        proof {
            if exists|p: int|
                0 <= p < before.len() && same_access_key(before[p], (id@, e)) && self.access_log@
                    == before.update(p, (id@, e)) {
                let p = choose|p: int|
                    0 <= p < before.len() && same_access_key(before[p], (id@, e))
                        && self.access_log@ == before.update(p, (id@, e));
                assert(self.access_log@ == #[trigger] before.update(p, (id@, e)));
                assert(self@.access_log[p] == (id@, e));
                assert(before == old(self)@.access_log);
                assert(0 <= p < old(self)@.access_log.len() && same_access_key(
                    old(self)@.access_log[p],
                    (id@, e),
                ) && self@.access_log == old(self)@.access_log.update(p, (id@, e)));
            } else {
                let p = choose|p: int|
                    0 <= p <= before.len() && self.access_log@ == before.insert(p, (id@, e));
                assert(self.access_log@ == #[trigger] before.insert(p, (id@, e)));
                assert(self@.access_log[p] == (id@, e));
                assert(before == old(self)@.access_log);
                assert(0 <= p <= old(self)@.access_log.len() && self@.access_log
                    == old(self)@.access_log.insert(p, (id@, e)));
            }
        }
    }

    /// The newest accesses of `id`, as many as the limit allows once it is
    /// brought into one to five hundred.
    ///
    /// The rows come back newest first; each is a row that the log holds for `id`;
    /// where fewer than the limit come back, every row of `id` does, and a row of
    /// `id` left out is no newer than any that comes back.
    pub fn list_access_logs_recent(&self, id: &str, limit: i32) -> (r: Vec<AccessLogEntry>)
        requires
            self.wf(),
        ensures
            r@.map_values(|e: AccessLogEntry| e@) == recent_for(
                self@.access_log,
                id@,
                clamped(limit as int, 1, MAX_ACCESS_LOG_LIMIT as int) as nat,
            ),
            r@.len() <= clamped(limit as int, 1, MAX_ACCESS_LOG_LIMIT as int),
            forall|i: int, j: int|
                0 <= i < j < r@.len() ==> (#[trigger] r@[i]).ts >= (#[trigger] r@[j]).ts,
            forall|i: int| 0 <= i < r@.len() ==> self@.access_log.contains((id@, (#[trigger] r@[i])@)),
            forall|k: int|
                0 <= k < self@.access_log.len() && (#[trigger] self@.access_log[k]).0 == id@ && !r@.map_values(
                    |e: AccessLogEntry| e@,
                ).contains(self@.access_log[k].1) ==> r@.len() == clamped(
                    limit as int,
                    1,
                    MAX_ACCESS_LOG_LIMIT as int,
                ) && forall|i: int|
                    0 <= i < r@.len() ==> (#[trigger] r@[i]).ts >= self@.access_log[k].1.ts,
    {
        let n = clamp_i32(limit, 1, MAX_ACCESS_LOG_LIMIT);
        let r = self.access_log.recent(&id.to_string(), n as usize);
        proof {
            let lim = clamped(limit as int, 1, MAX_ACCESS_LOG_LIMIT as int) as nat;
            lemma_recent_for(self@.access_log, id@, lim);
            let m = r@.map_values(|e: AccessLogEntry| e@);
            assert forall|i: int| 0 <= i < r@.len() implies (#[trigger] r@[i])@ == m[i] by {}
            assert forall|i: int, j: int|
                0 <= i < j < r@.len() implies (#[trigger] r@[i]).ts >= (#[trigger] r@[j]).ts by {
                assert(m[i].ts >= m[j].ts);
            }
            assert forall|i: int| 0 <= i < r@.len() implies self@.access_log.contains(
                (id@, (#[trigger] r@[i])@),
            ) by {
                assert(self@.access_log.contains((id@, m[i])));
            }
            assert forall|k: int|
                0 <= k < self@.access_log.len() && (#[trigger] self@.access_log[k]).0 == id@
                    && !m.contains(self@.access_log[k].1) implies r@.len() == lim && forall|i: int|
                0 <= i < r@.len() ==> (#[trigger] r@[i]).ts >= self@.access_log[k].1.ts by {
                assert forall|i: int| 0 <= i < r@.len() implies (#[trigger] r@[i]).ts
                    >= self@.access_log[k].1.ts by {
                    assert(m[i].ts >= self@.access_log[k].1.ts);
                }
            }
        }
        r
    }

    /// In every well-formed store the access log is kept newest first, each
    /// identifier and time at most once.
    pub proof fn lemma_access_log_newest_first(&self)
        requires
            self.wf(),
        ensures
            access_sorted(self@.access_log),
    {
    }

    /// One page of the index, newest first. Without a token the walk starts at the
    /// newest row; a token names where the previous page ended. The page holds the
    /// limit, brought into one to a hundred, of rows, and a token comes back
    /// exactly when rows remain after it.
    pub fn list_by_created_at_page(&self, limit: i32, paging_state: Option<Vec<u8>>) -> (r: Result<
        (Vec<ShortenedURL>, Option<Vec<u8>>),
        StoreError,
    >)
        requires
            self.wf(),
        ensures
            match paging_state {
                Some(b) if cursor_position(b@) is None => r == Err::<
                    (Vec<ShortenedURL>, Option<Vec<u8>>),
                    StoreError,
                >(StoreError::InvalidCursor),
                _ => {
                    let offset = match paging_state {
                        Some(b) => cursor_position(b@)->0 as int,
                        None => 0,
                    };
                    let page = page_of(
                        self@.index,
                        clamped(limit as int, 1, MAX_PAGE_LIMIT as int),
                        offset,
                    );
                    &&& r is Ok
                    &&& r->Ok_0.0@.map_values(|l: ShortenedURL| l@) == page.0.map_values(
                        |l: LinkView| with_canonical_id(l),
                    )
                    &&& match page.1 {
                        Some(n) => r->Ok_0.1 matches Some(c) && cursor_position(c@) == Some(
                            n as u64,
                        ),
                        None => r->Ok_0.1 is None,
                    }
                },
            },
    {
        let size = clamp_i32(limit, 1, MAX_PAGE_LIMIT);
        let offset: u64 = match &paging_state {
            Some(b) => match decode_cursor(b) {
                Some(n) => n,
                None => {
                    return Err(StoreError::InvalidCursor);
                },
            },
            None => 0,
        };
        let len = self.index.len();
        let start: usize = if offset < len as u64 {
            offset as usize
        } else {
            len
        };
        let (rows, next) = self.index.page(size as usize, start);
        let token = match next {
            Some(n) => Some(encode_cursor(n as u64)),
            None => None,
        };
        Ok((canonical_ids(&rows), token))
    }

    fn decide(&self, id: &ID) -> (r: Resolution)
        requires
            self.wf(),
        ensures
            outcome_of(r) == resolution_in(self@, id@),
    {
        let link = self.find_by_id(ID(id.0.clone()));
        match self.states.get(&id.0) {
            Some(st) => {
                assert(self@.states[id@] == st@);
                resolve(link.as_ref(), Some(st))
            },
            None => resolve(link.as_ref(), None),
        }
    }

    /// Resolves a requested identifier at `now`: normalizes it, decides the
    /// outcome from the link and its state, records the last access unless no
    /// link has it, and writes an access-log row with the outcome's status code.
    pub fn resolve(
        &mut self,
        requested: String,
        now: Timestamp,
        ip: Option<&str>,
        user_agent: Option<&str>,
        request_id: Option<&str>,
    ) -> (r: Resolution)
        requires
            old(self).wf(),
        ensures
            final(self).wf(),
            outcome_of(r) == resolution_in(old(self)@, normalized(requested@)),
            final(self)@.links == old(self)@.links,
            final(self)@.states == old(self)@.states,
            final(self)@.index == old(self)@.index,
            final(self)@.metas == old(self)@.metas,
            final(self)@.counter == old(self)@.counter,
            final(self)@.last_accesses == if r is NotFound {
                old(self)@.last_accesses
            } else {
                old(self)@.last_accesses.insert(
                    normalized(requested@),
                    LastAccess { at: now, status_code: status_of(r) },
                )
            },
            ({
                let id = normalized(requested@);
                let e = access_view(
                    now,
                    text_arg(ip),
                    text_arg(user_agent),
                    text_arg(request_id),
                    status_of(r),
                );
                (exists|p: int|
                    0 <= p < old(self)@.access_log.len() && same_access_key(
                        old(self)@.access_log[p],
                        (id, e),
                    ) && final(self)@.access_log == #[trigger] old(self)@.access_log.update(
                        p,
                        (id, e),
                    )) || (exists|p: int|
                    0 <= p <= old(self)@.access_log.len() && final(self)@.access_log
                        == #[trigger] old(self)@.access_log.insert(p, (id, e)))
            }),
    {
        let id = ID::new(requested);
        let res = self.decide(&id);
        let status = res.status_code();
        if res.records_last_access() {
            self.set_last_access(id.0.as_str(), now, status);
        }
        self.log_access(id.0.as_str(), now, ip, user_agent, request_id, status);
        res
    }

    /// Drops what the store's time-to-live has expired by `now`: log rows written
    /// thirty days or more before it, and creator metadata whose recorded creation
    /// time is that old.
    pub fn purge_expired(&mut self, now: Timestamp)
        requires
            old(self).wf(),
        ensures
            final(self).wf(),
            final(self)@ == (StoreContents {
                metas: live_metas(old(self)@.metas, now),
                access_log: old(self)@.access_log.filter(live_access(now)),
                create_log: old(self)@.create_log.filter(live_create(now)),
                ..old(self)@
            }),
    {
        let ghost m0 = self.metas@;
        let ghost before = *self;
        self.access_log.purge(now);
        self.create_log.purge(now);
        let mut i: usize = 0;
        while i < self.metas.len()
            invariant
                self.metas.wf(),
                i <= self.metas.spec_len(),
                self.links == before.links,
                self.states == before.states,
                self.last_access == before.last_access,
                self.index == before.index,
                self.counter == before.counter,
                self.access_log@ == before.access_log@.filter(live_access(now)),
                self.create_log@ == before.create_log@.filter(live_create(now)),
                m0 == before.metas@,
                forall|k: Seq<char>| #[trigger]
                    self.metas@.contains_key(k) ==> m0.contains_key(k) && self.metas@[k] == m0[k],
                forall|k: Seq<char>| #[trigger]
                    m0.contains_key(k) && !expired(m0[k].created_at, now)
                        ==> self.metas@.contains_key(k),
                forall|j: int|
                    0 <= j < i ==> !expired(
                        self.metas@[#[trigger] self.metas.key_at(j)].created_at,
                        now,
                    ),
            decreases self.metas.spec_len() - i,
        {
            let gone = {
                let (_, m) = self.metas.entry_at(i);
                is_expired(m.created_at, now)
            };
            if gone {
                let ghost k = self.metas.key_at(i as int);
                self.metas.remove_at(i);
                proof {
                    assert forall|j: int| 0 <= j < i implies !expired(
                        self.metas@[#[trigger] self.metas.key_at(j)].created_at,
                        now,
                    ) by {
                        self.metas.lemma_positions();
                        assert(self.metas@.contains_key(self.metas.key_at(j)));
                    }
                }
            } else {
                i = i + 1;
            }
        }
        proof {
            self.metas.lemma_positions();
            let target = live_metas(before@.metas, now);
            assert forall|k: Seq<char>| self@.metas.contains_key(k) <==> target.contains_key(k) by {
                if self@.metas.contains_key(k) {
                    let j = choose|j: int| 0 <= j < self.metas.spec_len() && self.metas.key_at(j) == k;
                    assert(!expired(self.metas@[self.metas.key_at(j)].created_at, now));
                }
            }
            assert(self@.metas =~= target);
            assert(self@ == (StoreContents {
                metas: live_metas(before@.metas, now),
                access_log: before@.access_log.filter(live_access(now)),
                create_log: before@.create_log.filter(live_create(now)),
                ..before@
            }));
        }
    }

    /// Writes `link` to the primary table alone, as rows written before the
    /// creation-time index existed were; an identifier already present keeps its row.
    pub fn insert_legacy_link(&mut self, link: ShortenedURL)
        requires
            old(self).wf(),
        ensures
            final(self).wf(),
            final(self)@ == (StoreContents {
                links: if old(self)@.links.contains_key(link@.id) {
                    old(self)@.links
                } else {
                    old(self)@.links.insert(link@.id, link@)
                },
                ..old(self)@
            }),
    {
        proof {
            lemma_map_values_insert(self.links@, link@.id, link, |x: ShortenedURL| x@);
        }
        let ghost before = *self;
        let key = link.id.0.clone();
        let applied = self.links.insert_if_absent(key, link);
        proof {
            if applied {
                assert forall|i: int| 0 <= i < self.index@.len() implies self@.links.contains_key(
                    #[trigger] self.index@[i].id,
                ) && self@.links[self.index@[i].id] == self.index@[i] by {
                    assert(before@.links.contains_key(before.index@[i].id));
                }
            }
        }
    }

    /// Fills an empty index from the primary table, once at startup: every link
    /// gets its index row. A store whose index holds rows is left as it is.
    pub fn backfill_index(&mut self)
        requires
            old(self).wf(),
        ensures
            final(self).wf(),
            old(self)@.index.len() > 0 ==> final(self)@ == old(self)@,
            final(self)@ == (StoreContents { index: final(self)@.index, ..old(self)@ }),
            forall|k: Seq<char>| #[trigger]
                old(self)@.links.contains_key(k) ==> (old(self)@.index.len() > 0 || exists|t: int|
                    0 <= t < final(self)@.index.len() && final(self)@.index[t] == old(
                        self,
                    )@.links[k]),
    {
        if !self.index.is_empty() {
            return;
        }
        let ghost start = *self;
        let n = self.links.len();
        let mut i: usize = 0;
        while i < n
            invariant
                self.wf(),
                n == self.links.spec_len(),
                i <= n,
                self@ == (StoreContents { index: self@.index, ..start@ }),
                self.links == start.links,
                forall|j: int|
                    0 <= j < i ==> exists|t: int|
                        0 <= t < self@.index.len() && self@.index[t] == start@.links[
                            #[trigger] self.links.key_at(j)
                        ],
            decreases n - i,
        {
            let ghost prev = self@.index;
            let (_, row) = self.links.entry_at(i);
            let copy = row.duplicate();
            let ghost rv = copy@;
            assert(self@.links.contains_key(self.links.key_at(i as int)));
            let applied = self.index.insert_if_absent(copy);
            proof {
                let k = self.links.key_at(i as int);
                assert(rv == self@.links[k]);
                assert(rv.id == k);
                if applied {
                    let p = choose|p: int| 0 <= p <= prev.len() && self@.index == prev.insert(p, rv);
                    assert(self@.index[p] == rv);
                    assert forall|j: int| 0 <= j < i implies exists|t: int|
                        0 <= t < self@.index.len() && self@.index[t] == start@.links[
                            #[trigger] self.links.key_at(j)
                        ] by {
                        let t = choose|t: int|
                            0 <= t < prev.len() && prev[t] == start@.links[self.links.key_at(j)];
                        if t < p {
                            assert(self@.index[t] == prev[t]);
                        } else {
                            assert(self@.index[t + 1] == prev[t]);
                        }
                    }
                    assert forall|q: int| 0 <= q < self.index@.len() implies self@.links.contains_key(
                        #[trigger] self.index@[q].id,
                    ) && self@.links[self.index@[q].id] == self.index@[q] by {
                        if q < p {
                            assert(self.index@[q] == prev[q]);
                        } else if q > p {
                            assert(self.index@[q] == prev[q - 1]);
                        }
                    }
                } else {
                    let t = choose|t: int| 0 <= t < prev.len() && same_key(prev[t], rv);
                    assert(self@.links.contains_key(prev[t].id));
                    assert(self@.index[t] == rv);
                }
            }
            i = i + 1;
        }
        proof {
            self.links.lemma_positions();
            assert forall|k: Seq<char>| #[trigger] start@.links.contains_key(k) implies exists|t: int|
                0 <= t < self@.index.len() && self@.index[t] == start@.links[k] by {
                assert(self.links@.contains_key(k));
                let j = choose|j: int| 0 <= j < self.links.spec_len() && self.links.key_at(j) == k;
                assert(self.links.key_at(j) == k);
            }
        }
    }
}

/// Creates that settle on the same identifier converge, whichever custom
/// identifiers and target URLs they carry, as long as those are URLs that parse:
/// both succeed, both callers receive the same record, and that record is the one
/// stored, with the URL of the first create where the identifier was free before it.
pub proof fn lemma_same_id_creates_converge(
    s0: StoreContents,
    s1: StoreContents,
    s2: StoreContents,
    c1: Seq<char>,
    c2: Seq<char>,
    u1: Seq<char>,
    u2: Seq<char>,
    e1: Option<Timestamp>,
    e2: Option<Timestamp>,
    t1: Timestamp,
    t2: Timestamp,
    r1: Result<LinkView, StoreError>,
    r2: Result<LinkView, StoreError>,
)
    requires
        normalized(c1) == normalized(c2),
        parsed_url(u1) is Some,
        s0.links.contains_key(normalized(c1)) ==> parsed_url(
            s0.links[normalized(c1)].original_url,
        ) is Some,
        create_post(s0, s1, u1, Some(c1), e1, t1, r1),
        create_post(s1, s2, u2, Some(c2), e2, t2, r2),
    ensures
        r1 is Ok && r2 is Ok,
        r1->Ok_0 == r2->Ok_0,
        s2.links.contains_key(normalized(c1)),
        s2.links[normalized(c1)] == r1->Ok_0,
        !s0.links.contains_key(normalized(c1)) ==> r1->Ok_0.original_url == u1,
{
    let id = normalized(c1);
    if !s0.links.contains_key(id) {
        let p = choose|p: int|
            0 <= p <= s0.index.len() && s1 == (StoreContents {
                links: s0.links.insert(id, r1->Ok_0),
                states: s0.states.insert(id, state_record(id, true, t1)),
                index: #[trigger] s0.index.insert(p, r1->Ok_0),
                ..StoreContents { counter: counter_after(Some(c1), s0.counter), ..s0 }
            });
        assert(s1.links.contains_key(id));
    }
}

/// A created link is stored under its identifier, which is already in
/// canonical form, so looking up the normalized identifier finds it with the
/// values that create returned.
pub proof fn lemma_create_then_find(
    s0: StoreContents,
    s1: StoreContents,
    url: Seq<char>,
    custom: Option<Seq<char>>,
    expires_at: Option<Timestamp>,
    now: Timestamp,
    l: LinkView,
)
    requires
        create_post(s0, s1, url, custom, expires_at, now, Ok(l)),
    ensures
        normalized(l.id) == l.id,
        s1.links.contains_key(normalized(l.id)),
        s1.links[normalized(l.id)] == l,
{
    let id = l.id;
    if !s0.links.contains_key(id) {
        let p = choose|p: int|
            0 <= p <= s0.index.len() && s1 == (StoreContents {
                links: s0.links.insert(id, l),
                states: s0.states.insert(id, state_record(id, true, now)),
                index: #[trigger] s0.index.insert(p, l),
                ..StoreContents { counter: counter_after(custom, s0.counter), ..s0 }
            });
    }
}

/// A link that a create wrote joins the index, whose rows are copies of the
/// stored links, each once, newest first; walking the index page by page from
/// the start, with any page size, yields every row exactly once, in that order.
pub proof fn lemma_index_walk(
    s0: StoreContents,
    s1: StoreContents,
    url: Seq<char>,
    custom: Option<Seq<char>>,
    expires_at: Option<Timestamp>,
    now: Timestamp,
    l: LinkView,
    limit: int,
)
    requires
        create_post(s0, s1, url, custom, expires_at, now, Ok(l)),
        !s0.links.contains_key(l.id),
        1 <= limit,
    ensures
        s1.index.contains(l),
        page_walk(s1.index, limit, 0) == s1.index,
{
    let p = choose|p: int|
        0 <= p <= s0.index.len() && s1 == (StoreContents {
            links: s0.links.insert(l.id, l),
            states: s0.states.insert(l.id, state_record(l.id, true, now)),
            index: #[trigger] s0.index.insert(p, l),
            ..StoreContents { counter: counter_after(custom, s0.counter), ..s0 }
        });
    assert(s1.index[p] == l);
    lemma_page_walk(s1.index, limit, 0);
    assert(s1.index.subrange(0, s1.index.len() as int) =~= s1.index);
}

impl MemoryStore {
    /// In every well-formed store the index is in clustering order, newest first,
    /// holds each key once, and each row is the stored link it indexes; a walk
    /// through its pages yields all of it.
    pub proof fn lemma_index_invariant(&self, limit: int)
        requires
            self.wf(),
            1 <= limit,
        ensures
            index_sorted(self@.index),
            forall|i: int|
                0 <= i < self@.index.len() ==> self@.links.contains_key(#[trigger] self@.index[i].id)
                    && self@.links[self@.index[i].id] == self@.index[i],
            page_walk(self@.index, limit, 0) == self@.index,
    {
        lemma_page_walk(self@.index, limit, 0);
        assert(self@.index.subrange(0, self@.index.len() as int) =~= self@.index);
    }
}

/// Two creates that generate their identifiers and succeed never hand out the
/// same identifier, whatever happened between them, as long as the counter did
/// not go back: each identifier is the code of a distinct counter value.
pub proof fn lemma_generated_ids_distinct(
    s0: StoreContents,
    s1: StoreContents,
    s2: StoreContents,
    s3: StoreContents,
    u1: Seq<char>,
    u2: Seq<char>,
    e1: Option<Timestamp>,
    e2: Option<Timestamp>,
    t1: Timestamp,
    t2: Timestamp,
    l1: LinkView,
    l2: LinkView,
)
    requires
        create_post(s0, s1, u1, None, e1, t1, Ok(l1)),
        create_post(s2, s3, u2, None, e2, t2, Ok(l2)),
        s2.counter >= s1.counter,
    ensures
        l1.id != l2.id,
        s1.counter == s0.counter + 1,
        s3.counter == s2.counter + 1,
{
    assert(s0.counter < i64::MAX);
    assert(s2.counter < i64::MAX);
    assert(generated_code((s0.counter + 1) as i64) == Some(l1.id));
    if l1.id == l2.id {
        assert(generated_code((s0.counter + 1) as i64) == Some(l2.id));
    }
}

/// Disabling a link makes resolving it end in `Disabled`; enabling it again
/// restores the redirect to its target.
pub proof fn lemma_disable_then_restore(
    s0: StoreContents,
    s1: StoreContents,
    s2: StoreContents,
    id: Seq<char>,
    t1: Timestamp,
    t2: Timestamp,
)
    requires
        s0.links.contains_key(id),
        s1 == (StoreContents { states: s0.states.insert(id, state_record(id, false, t1)), ..s0 }),
        s2 == (StoreContents { states: s1.states.insert(id, state_record(id, true, t2)), ..s1 }),
    ensures
        resolution_in(s1, id) == Some(None::<Seq<char>>),
        resolution_in(s2, id) == Some(Some(s0.links[id].original_url)),
{
}

/// Saving creator metadata twice for one identifier keeps the first record: the
/// first of the two saves where none was stored before, else the one stored.
pub proof fn lemma_create_meta_first_wins(
    metas: Map<Seq<char>, MetaView>,
    id: Seq<char>,
    m1: MetaView,
    m2: MetaView,
)
    ensures
        metas_after_save(metas_after_save(metas, id, m1), id, m2).contains_key(id),
        metas_after_save(metas_after_save(metas, id, m1), id, m2)[id] == if metas.contains_key(
            id,
        ) {
            metas[id]
        } else {
            m1
        },
{
}

} // verus!
