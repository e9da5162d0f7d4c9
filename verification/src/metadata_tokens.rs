//! Per-workspace metadata tokens with optional expiry, per-source sequence
//! numbers, and their transfer across a live server handoff.
//!
//! Instants are readings of the monotonic clock in nanoseconds since an origin
//! that the caller chooses, held in a `u128` wide enough for every instant;
//! durations are nanosecond counts no larger than `DURATION_MAX_NANOS`, the
//! largest `std::time::Duration`.
use vstd::prelude::*;

use crate::keyed::{
    filter_map_values, has_key, keys_distinct, lemma_filter_map_empty, lemma_filter_map_insert,
    lemma_table_len, lemma_table_lookup, lemma_table_prefix_empty, lemma_table_prefix_full,
    lemma_table_prefix_step, lemma_table_push, lemma_to_map_dom, table, table_get, table_insert,
    table_remove, table_wf, view_pairs,
};
use crate::text::owned;

verus! {

/// How many sources may hold a sequence number at once.
pub const MAX_SEQUENCE_SOURCES: usize = 32;

/// The largest duration, in nanoseconds (`Duration::MAX`).
pub const DURATION_MAX_NANOS: u128 = 18_446_744_073_709_551_615_999_999_999u128;

/// A token value and the instant at which it expires (`None`: never).
pub struct MetadataToken {
    pub value: String,
    pub expires_at: Option<u128>,
}

impl View for MetadataToken {
    type V = (Seq<char>, Option<u128>);

    open spec fn view(&self) -> (Seq<char>, Option<u128>) {
        (self.value@, self.expires_at)
    }
}

impl MetadataToken {
    fn duplicate(&self) -> (r: MetadataToken)
        ensures
            r@ == self@,
    {
        MetadataToken { value: self.value.clone(), expires_at: self.expires_at }
    }
}

/// A token as it travels in a handoff: its deadline is a reading of the
/// boot-wide monotonic clock (`None`: permanent), never a wall-clock time.
pub struct HandoffToken {
    pub value: String,
    pub expires_at: Option<u128>,
}

impl View for HandoffToken {
    type V = (Seq<char>, Option<u128>);

    open spec fn view(&self) -> (Seq<char>, Option<u128>) {
        (self.value@, self.expires_at)
    }
}

/// The metadata tokens of a workspace, keyed by name.
pub struct MetadataTokens {
    entries: Vec<(String, MetadataToken)>,
}

/// The instant at which a token written now with time-to-live `ttl` expires:
/// none when there is no ttl, and none (permanent) when the sum leaves the clock's range.
pub open spec fn ttl_deadline(ttl: Option<u128>, now: u128) -> Option<u128> {
    match ttl {
        None => None,
        Some(t) => if now + t <= u128::MAX {
            Some((now + t) as u128)
        } else {
            None
        },
    }
}

/// The tokens after applying the edits of `patch` in order: a value sets the
/// key (with deadline `expires_at`), `None` removes it.
pub open spec fn patched(
    m: Map<Seq<char>, (Seq<char>, Option<u128>)>,
    patch: Seq<(Seq<char>, Option<Seq<char>>)>,
    expires_at: Option<u128>,
) -> Map<Seq<char>, (Seq<char>, Option<u128>)>
    decreases patch.len(),
{
    if patch.len() == 0 {
        m
    } else {
        let before = patched(m, patch.drop_last(), expires_at);
        match patch.last().1 {
            Some(v) => before.insert(patch.last().0, (v, expires_at)),
            None => before.remove(patch.last().0),
        }
    }
}

/// The edits of a patch, each key and value taken by its view.
pub open spec fn patch_edits(patch: Seq<(String, Option<String>)>) -> Seq<(Seq<char>, Option<Seq<char>>)> {
    patch.map_values(
        |e: (String, Option<String>)|
            (
                e.0@,
                match e.1 {
                    Some(v) => Some(v@),
                    None => None,
                },
            ),
    )
}

proof fn lemma_patch_edits_distinct(patch: Seq<(String, Option<String>)>)
    requires
        table_wf(patch),
    ensures
        keys_distinct(patch_edits(patch)),
{
    assert forall|i: int, j: int| 0 <= i < j < patch_edits(patch).len() implies #[trigger] patch_edits(patch)[i].0 != #[trigger] patch_edits(patch)[j].0 by {
        assert(view_pairs(patch)[i].0 != view_pairs(patch)[j].0);
    }
}

/// The value of each token.
pub open spec fn token_values(m: Map<Seq<char>, (Seq<char>, Option<u128>)>) -> Map<
    Seq<char>,
    Seq<char>,
> {
    filter_map_values(m, token_value())
}

/// What `token_values` keeps of a token: its value.
pub open spec fn token_value() -> spec_fn((Seq<char>, Option<u128>)) -> Option<Seq<char>> {
    |t: (Seq<char>, Option<u128>)| Some(t.0)
}

/// Whether a token with this deadline has expired at `now`.
pub open spec fn is_expired(expires_at: Option<u128>, now: u128) -> bool {
    match expires_at {
        Some(deadline) => deadline <= now,
        None => false,
    }
}

/// The tokens that have not expired at `now`.
pub open spec fn unexpired(m: Map<Seq<char>, (Seq<char>, Option<u128>)>, now: u128) -> Map<
    Seq<char>,
    (Seq<char>, Option<u128>),
> {
    filter_map_values(m, keep_unexpired(now))
}

/// What `unexpired` keeps of a token: the token, unless it has expired.
pub open spec fn keep_unexpired(now: u128) -> spec_fn((Seq<char>, Option<u128>)) -> Option<(Seq<char>, Option<u128>)> {
    |t: (Seq<char>, Option<u128>)|
        if is_expired(t.1, now) {
            None
        } else {
            Some(t)
        }
}

/// The handoff deadline of a token: `None` when the token cannot travel (the
/// monotonic clock is unreadable, the deadline has passed, or the deadline
/// leaves the range of a duration), else the deadline to send.
pub open spec fn captured_deadline(expires_at: Option<u128>, now: u128, monotonic: Option<u128>) -> Option<
    Option<u128>,
> {
    match expires_at {
        None => Some(None),
        Some(deadline) => match monotonic {
            None => None,
            Some(m) => if deadline < now {
                None
            } else if m + (deadline - now) > DURATION_MAX_NANOS {
                None
            } else {
                Some(Some((m + (deadline - now)) as u128))
            },
        },
    }
}

/// The tokens that travel in a handoff captured at `now`.
pub open spec fn captured(
    m: Map<Seq<char>, (Seq<char>, Option<u128>)>,
    now: u128,
    monotonic: Option<u128>,
) -> Map<Seq<char>, (Seq<char>, Option<u128>)> {
    filter_map_values(m, capture_token(now, monotonic))
}

/// What `captured` makes of a token.
pub open spec fn capture_token(now: u128, monotonic: Option<u128>) -> spec_fn((Seq<char>, Option<u128>)) -> Option<(Seq<char>, Option<u128>)> {
    |t: (Seq<char>, Option<u128>)|
        match captured_deadline(t.1, now, monotonic) {
            Some(d) => Some((t.0, d)),
            None => None,
        }
}

/// The local deadline of a token received in a handoff: `None` when the token
/// is dropped (the monotonic clock is unreadable, or no time remains, or the
/// deadline leaves the range of the local clock), else the deadline to keep.
pub open spec fn restored_deadline(expires_at: Option<u128>, now: u128, monotonic: Option<u128>) -> Option<
    Option<u128>,
> {
    match expires_at {
        None => Some(None),
        Some(deadline) => match monotonic {
            None => None,
            Some(m) => if deadline <= m {
                None
            } else if now + (deadline - m) > u128::MAX {
                None
            } else {
                Some(Some((now + (deadline - m)) as u128))
            },
        },
    }
}

/// The tokens kept from a handoff restored at `now`.
pub open spec fn restored(
    m: Map<Seq<char>, (Seq<char>, Option<u128>)>,
    now: u128,
    monotonic: Option<u128>,
) -> Map<Seq<char>, (Seq<char>, Option<u128>)> {
    filter_map_values(m, restore_token(now, monotonic))
}

/// What `restored` makes of a token.
pub open spec fn restore_token(now: u128, monotonic: Option<u128>) -> spec_fn((Seq<char>, Option<u128>)) -> Option<(Seq<char>, Option<u128>)> {
    |t: (Seq<char>, Option<u128>)|
        match restored_deadline(t.1, now, monotonic) {
            Some(d) => Some((t.0, d)),
            None => None,
        }
}

/// Whether `seq` from `source` is newer than the last one accepted from it.
pub open spec fn spec_sequence_is_fresh(
    sequences: Map<Seq<char>, u64>,
    source: Seq<char>,
    seq: Option<u64>,
) -> bool {
    match seq {
        None => true,
        Some(s) => !sequences.dom().contains(source) || s > sequences[source],
    }
}

/// Whether `seq` is newer than the last sequence number accepted from `source`.
pub fn sequence_is_fresh(sequences: &Vec<(String, u64)>, source: &str, seq: Option<u64>) -> (r: bool)
    requires
        table_wf(sequences@),
    ensures
        r == spec_sequence_is_fresh(table(sequences@), source@, seq),
{
    match seq {
        None => true,
        Some(s) => match table_get(sequences, source) {
            None => true,
            Some(last) => s > *last,
        },
    }
}

/// What accepting `seq` from `source` answers, and the table it leaves.
pub open spec fn accept_outcome(sequences: Map<Seq<char>, u64>, source: Seq<char>, seq: Option<u64>) -> (
    Result<bool, ()>,
    Map<Seq<char>, u64>,
) {
    match seq {
        None => (Ok(true), sequences),
        Some(s) => if !spec_sequence_is_fresh(sequences, source, seq) {
            (Ok(false), sequences)
        } else if !sequences.dom().contains(source) && sequences.dom().len()
            >= MAX_SEQUENCE_SOURCES {
            (Err(()), sequences)
        } else {
            (Ok(true), sequences.insert(source, s))
        },
    }
}

/// Records `seq` as the last sequence number of `source`. An absent sequence
/// is always accepted and recorded nowhere; a stale one is refused with
/// `Ok(false)`; a new source beyond `MAX_SEQUENCE_SOURCES` is an error.
pub fn accept_sequence(sequences: &mut Vec<(String, u64)>, source: &str, seq: Option<u64>) -> (r:
    Result<bool, ()>)
    requires
        table_wf(old(sequences)@),
    ensures
        table_wf(final(sequences)@),
        (r, table(final(sequences)@)) == accept_outcome(table(old(sequences)@), source@, seq),
{
    let s = match seq {
        None => return Ok(true),
        Some(s) => s,
    };
    if !sequence_is_fresh(sequences, source, Some(s)) {
        return Ok(false);
    }
    proof {
        lemma_table_len(sequences@);
    }
    if table_get(sequences, source).is_none() && sequences.len() >= MAX_SEQUENCE_SOURCES {
        return Err(());
    }
    table_insert(sequences, owned(source), s);
    Ok(true)
}

/// A step of `patched` leaves every other key as it was.
proof fn lemma_patched_other(
    m: Map<Seq<char>, (Seq<char>, Option<u128>)>,
    patch: Seq<(Seq<char>, Option<Seq<char>>)>,
    expires_at: Option<u128>,
    k: Seq<char>,
)
    requires
        forall|j: int| 0 <= j < patch.len() ==> #[trigger] patch[j].0 != k,
    ensures
        patched(m, patch, expires_at).dom().contains(k) == m.dom().contains(k),
        m.dom().contains(k) ==> patched(m, patch, expires_at)[k] == m[k],
    decreases patch.len(),
{
    if patch.len() > 0 {
        let p = patch.drop_last();
        assert forall|j: int| 0 <= j < p.len() implies #[trigger] p[j].0 != k by {
            assert(patch[j].0 != k);
        }
        lemma_patched_other(m, p, expires_at, k);
        assert(patch[patch.len() - 1].0 != k);
    }
}

impl View for MetadataTokens {
    type V = Map<Seq<char>, (Seq<char>, Option<u128>)>;

    closed spec fn view(&self) -> Map<Seq<char>, (Seq<char>, Option<u128>)> {
        table(self.entries@)
    }
}

impl Default for MetadataTokens {
    fn default() -> (r: MetadataTokens)
        ensures
            r.wf(),
            r@ == Map::<Seq<char>, (Seq<char>, Option<u128>)>::empty(),
    {
        MetadataTokens::new()
    }
}

impl MetadataTokens {
    /// The tokens are held under distinct keys.
    pub closed spec fn wf(&self) -> bool {
        table_wf(self.entries@)
    }

    /// No tokens.
    pub fn new() -> (r: MetadataTokens)
        ensures
            r.wf(),
            r@ == Map::<Seq<char>, (Seq<char>, Option<u128>)>::empty(),
    {
        let r = MetadataTokens { entries: Vec::new() };
        proof {
            assert(view_pairs(r.entries@) =~= Seq::<(Seq<char>, (Seq<char>, Option<u128>))>::empty());
        }
        r
    }

    /// Applies `patch`: each key with a value is set to it, expiring `ttl`
    /// after `now` when a ttl is given; each key without a value is removed.
    /// Tells whether any token changed.
    pub fn patch(&mut self, patch: Vec<(String, Option<String>)>, ttl: Option<u128>, now: u128) -> (r:
        bool)
        requires
            old(self).wf(),
            table_wf(patch@),
        ensures
            final(self).wf(),
            final(self)@ == patched(old(self)@, patch_edits(patch@), ttl_deadline(ttl, now)),
            r == (final(self)@ != old(self)@),
    {
        let expires_at: Option<u128> = match ttl {
            None => None,
            Some(t) => if t <= u128::MAX - now {
                Some(now + t)
            } else {
                None
            },
        };
        let ghost start = self@;
        let ghost p = patch_edits(patch@);
        proof {
            lemma_patch_edits_distinct(patch@);
        }
        let mut changed = false;
        let mut i: usize = 0;
        while i < patch.len()
            invariant
                i <= patch.len(),
                p == patch_edits(patch@),
                keys_distinct(p),
                self.wf(),
                expires_at == ttl_deadline(ttl, now),
                self@ == patched(start, p.take(i as int), expires_at),
                changed == (self@ != start),
            decreases patch.len() - i,
        {
            let ghost before = self@;
            let ghost k = p[i as int].0;
            proof {
                assert(p.take(i + 1).drop_last() =~= p.take(i as int));
                assert(p.take(i + 1).last() == p[i as int]);
                assert forall|j: int| 0 <= j < p.take(i as int).len() implies #[trigger] p.take(
                    i as int,
                )[j].0 != k by {
                    assert(p[j].0 != p[i as int].0);
                }
                lemma_patched_other(start, p.take(i as int), expires_at, k);
            }
            let key = patch[i].0.clone();
            match &patch[i].1 {
                Some(value) => {
                    let token = MetadataToken { value: value.clone(), expires_at };
                    let same = match table_get(&self.entries, key.as_str()) {
                        Some(existing) => existing.value == token.value && existing.expires_at
                            == token.expires_at,
                        None => false,
                    };
                    if !same {
                        proof {
                            assert(self@.insert(k, token@)[k] == token@);
                            if self@.insert(k, token@) == start {
                                assert(start.dom().contains(k));
                            }
                        }
                        table_insert(&mut self.entries, key, token);
                        changed = true;
                    } else {
                        proof {
                            assert(before.insert(k, token@) =~= before);
                        }
                    }
                },
                None => {
                    let removed = table_remove(&mut self.entries, key.as_str());
                    proof {
                        if removed {
                            assert(!self@.dom().contains(k));
                            assert(start.dom().contains(k));
                        } else {
                            assert(before.remove(k) =~= before);
                        }
                    }
                    changed = changed || removed;
                },
            }
            i = i + 1;
        }
        proof {
            assert(p.take(patch.len() as int) =~= p);
        }
        changed
    }

    /// How many keys the tokens would hold after `patch`.
    pub fn key_count_after_patch(&self, patch: &Vec<(String, Option<String>)>) -> (r: usize)
        requires
            self.wf(),
            table_wf(patch@),
            self@.dom().len() + patch.len() <= usize::MAX,
        ensures
            r == patched(self@, patch_edits(patch@), None).dom().len(),
    {
        let ghost p = patch_edits(patch@);
        proof {
            lemma_patch_edits_distinct(patch@);
        }
        proof {
            lemma_table_len(self.entries@);
        }
        let mut count: usize = self.entries.len();
        let mut i: usize = 0;
        while i < patch.len()
            invariant
                i <= patch.len(),
                p == patch_edits(patch@),
                keys_distinct(p),
                self.wf(),
                self@.dom().finite(),
                self@.dom().len() + patch.len() <= usize::MAX,
                patched(self@, p.take(i as int), None).dom().finite(),
                count == patched(self@, p.take(i as int), None).dom().len(),
                count <= self@.dom().len() + i,
            decreases patch.len() - i,
        {
            let ghost cur = patched(self@, p.take(i as int), None);
            let ghost k = p[i as int].0;
            proof {
                assert(p.take(i + 1).drop_last() =~= p.take(i as int));
                assert(p.take(i + 1).last() == p[i as int]);
                assert forall|j: int| 0 <= j < p.take(i as int).len() implies #[trigger] p.take(
                    i as int,
                )[j].0 != k by {
                    assert(p[j].0 != p[i as int].0);
                }
                lemma_patched_other(self@, p.take(i as int), None, k);
            }
            let present = table_get(&self.entries, patch[i].0.as_str()).is_some();
            if patch[i].1.is_some() {
                if !present {
                    count = count + 1;
                }
            } else {
                if present {
                    count = count - 1;
                }
            }
            i = i + 1;
        }
        proof {
            assert(p.take(patch.len() as int) =~= p);
        }
        count
    }

    /// The value of every token, keyed by name.
    pub fn values(&self) -> (r: Vec<(String, String)>)
        requires
            self.wf(),
        ensures
            table_wf(r@),
            table(r@) == token_values(self@),
    {
        let ghost f = token_value();
        let mut out: Vec<(String, String)> = Vec::new();
        let mut i: usize = 0;
        proof {
            lemma_table_prefix_empty(self.entries@);
            lemma_filter_map_empty(f);
            assert(view_pairs(out@) =~= Seq::<(Seq<char>, Seq<char>)>::empty());
        }
        while i < self.entries.len()
            invariant
                i <= self.entries.len(),
                self.wf(),
                table_wf(out@),
                f == token_value(),
                table(out@) == filter_map_values(table(self.entries@.take(i as int)), f),
            decreases self.entries.len() - i,
        {
            proof {
                lemma_table_prefix_step(self.entries@, i as int);
                lemma_filter_map_insert(
                    table(self.entries@.take(i as int)),
                    self.entries@[i as int].0@,
                    self.entries@[i as int].1@,
                    f,
                );
            }
            let e = (self.entries[i].0.clone(), self.entries[i].1.value.clone());
            proof {
                let a = self.entries@[i as int].1@;
                assert(e.1@ == a.0);
                lemma_table_push(out@, e);
            }
            out.push(e);
            i = i + 1;
        }
        proof {
            lemma_table_prefix_full(self.entries@);
        }
        out
    }

    /// The earliest deadline among the tokens that expire.
    pub fn next_expiry(&self) -> (r: Option<u128>)
        requires
            self.wf(),
        ensures
            r is None <==> (forall|k: Seq<char>| #[trigger] self@.dom().contains(k) ==> self@[k].1 is None),
            r is Some ==> (exists|k: Seq<char>| #[trigger] self@.dom().contains(k) && self@[k].1 == r),
            r is Some ==> (forall|k: Seq<char>| #[trigger] self@.dom().contains(k) && self@[k].1 is Some ==> r->0 <= self@[k].1->0),
    {
        let mut best: Option<u128> = None;
        let mut at: usize = 0;
        let mut i: usize = 0;
        while i < self.entries.len()
            invariant
                i <= self.entries.len(),
                at < self.entries.len() || best is None,
                best is None <==> (forall|j: int| 0 <= j < i ==> (#[trigger] self.entries@[j]).1.expires_at is None),
                best is Some ==> at < i && self.entries@[at as int].1.expires_at == best,
                best is Some ==> (forall|j: int| 0 <= j < i && (#[trigger] self.entries@[j]).1.expires_at is Some ==> best->0 <= self.entries@[j].1.expires_at->0),
            decreases self.entries.len() - i,
        {
            match self.entries[i].1.expires_at {
                Some(d) => {
                    let better = match best {
                        None => true,
                        Some(b) => d < b,
                    };
                    if better {
                        best = Some(d);
                        at = i;
                    }
                },
                None => {},
            }
            i = i + 1;
        }
        proof {
            let v = self.entries@;
            if best is Some {
                lemma_table_lookup(v, at as int);
                assert(self@.dom().contains(v[at as int].0@));
            }
            assert forall|k: Seq<char>| #[trigger] self@.dom().contains(k) implies (best is None
                ==> self@[k].1 is None) && (best is Some && self@[k].1 is Some ==> best->0
                <= self@[k].1->0) by {
                lemma_to_map_dom(view_pairs(v), k);
                let j = choose|j: int| 0 <= j < view_pairs(v).len() && #[trigger] view_pairs(v)[j].0 == k;
                lemma_table_lookup(v, j);
                assert(v[j].0@ == k);
            }
            if best is None && self@.dom().len() > 0 {
                lemma_table_len(v);
            }
        }
        best
    }

    /// Removes every token whose deadline is at or before `now`; tells whether any was removed.
    pub fn expire_at(&mut self, now: u128) -> (r: bool)
        requires
            old(self).wf(),
        ensures
            final(self).wf(),
            final(self)@ == unexpired(old(self)@, now),
            r == (exists|k: Seq<char>| #[trigger] old(self)@.dom().contains(k) && is_expired(old(self)@[k].1, now)),
    {
        let ghost f = keep_unexpired(now);
        let ghost start = self@;
        let mut out: Vec<(String, MetadataToken)> = Vec::new();
        let mut removed = false;
        let mut i: usize = 0;
        proof {
            lemma_table_prefix_empty(self.entries@);
            lemma_filter_map_empty(f);
            assert(view_pairs(out@) =~= Seq::<(Seq<char>, (Seq<char>, Option<u128>))>::empty());
        }
        while i < self.entries.len()
            invariant
                i <= self.entries.len(),
                self.wf(),
                start == self@,
                table_wf(out@),
                f == keep_unexpired(now),
                table(out@) == filter_map_values(table(self.entries@.take(i as int)), f),
                removed == (exists|j: int| 0 <= j < i && is_expired(#[trigger] self.entries@[j].1.expires_at, now)),
            decreases self.entries.len() - i,
        {
            proof {
                lemma_table_prefix_step(self.entries@, i as int);
                lemma_filter_map_insert(
                    table(self.entries@.take(i as int)),
                    self.entries@[i as int].0@,
                    self.entries@[i as int].1@,
                    f,
                );
            }
            let expired = match self.entries[i].1.expires_at {
                Some(deadline) => deadline <= now,
                None => false,
            };
            if expired {
                removed = true;
            } else {
                let e = (self.entries[i].0.clone(), self.entries[i].1.duplicate());
                proof {
                    lemma_table_push(out@, e);
                }
                out.push(e);
            }
            i = i + 1;
        }
        proof {
            lemma_table_prefix_full(self.entries@);
            let v = self.entries@;
            if removed {
                let j = choose|j: int| 0 <= j < v.len() && is_expired(#[trigger] v[j].1.expires_at, now);
                lemma_table_lookup(v, j);
                assert(start.dom().contains(v[j].0@));
            }
            assert forall|k: Seq<char>| #[trigger] start.dom().contains(k) && is_expired(start[k].1, now) implies removed by {
                lemma_to_map_dom(view_pairs(v), k);
                let j = choose|j: int| 0 <= j < view_pairs(v).len() && #[trigger] view_pairs(v)[j].0 == k;
                lemma_table_lookup(v, j);
                assert(v[j].0@ == k);
            }
        }
        self.entries = out;
        removed
    }

    /// The tokens as they travel in a handoff captured at `now`, with the
    /// boot-wide monotonic clock reading `monotonic` (`None`: unreadable).
    /// Permanent tokens always travel; an expiring token travels only when
    /// its deadline can be expressed on the monotonic clock.
    pub fn capture_handoff(&self, now: u128, monotonic: Option<u128>) -> (r: Vec<(String, HandoffToken)>)
        requires
            self.wf(),
            monotonic matches Some(m) ==> m <= DURATION_MAX_NANOS,
        ensures
            table_wf(r@),
            table(r@) == captured(self@, now, monotonic),
    {
        let ghost f = capture_token(now, monotonic);
        let mut out: Vec<(String, HandoffToken)> = Vec::new();
        let mut i: usize = 0;
        proof {
            lemma_table_prefix_empty(self.entries@);
            lemma_filter_map_empty(f);
            assert(view_pairs(out@) =~= Seq::<(Seq<char>, (Seq<char>, Option<u128>))>::empty());
        }
        while i < self.entries.len()
            invariant
                i <= self.entries.len(),
                self.wf(),
                monotonic matches Some(m) ==> m <= DURATION_MAX_NANOS,
                table_wf(out@),
                f == capture_token(now, monotonic),
                table(out@) == filter_map_values(table(self.entries@.take(i as int)), f),
            decreases self.entries.len() - i,
        {
            proof {
                lemma_table_prefix_step(self.entries@, i as int);
                lemma_filter_map_insert(
                    table(self.entries@.take(i as int)),
                    self.entries@[i as int].0@,
                    self.entries@[i as int].1@,
                    f,
                );
            }
            let deadline: Option<Option<u128>> = match self.entries[i].1.expires_at {
                None => Some(None),
                Some(deadline) => match monotonic {
                    None => None,
                    Some(m) => if deadline < now {
                        None
                    } else {
                        let remaining = deadline - now;
                        if remaining > DURATION_MAX_NANOS || m > DURATION_MAX_NANOS - remaining {
                            None
                        } else {
                            Some(Some(m + remaining))
                        }
                    },
                },
            };
            match deadline {
                Some(expires_at) => {
                    let e = (
                        self.entries[i].0.clone(),
                        HandoffToken { value: self.entries[i].1.value.clone(), expires_at },
                    );
                    proof {
                        lemma_table_push(out@, e);
                    }
                    out.push(e);
                },
                None => {},
            }
            i = i + 1;
        }
        proof {
            lemma_table_prefix_full(self.entries@);
        }
        out
    }

    /// The tokens kept from a handoff, restored at `now` with the boot-wide
    /// monotonic clock reading `monotonic` (`None`: unreadable). A token whose
    /// deadline has passed is dropped and never revived.
    pub fn restore_handoff(tokens: Vec<(String, HandoffToken)>, now: u128, monotonic: Option<u128>) -> (r:
        MetadataTokens)
        requires
            table_wf(tokens@),
        ensures
            r.wf(),
            r@ == restored(table(tokens@), now, monotonic),
    {
        let ghost f = restore_token(now, monotonic);
        let mut out: Vec<(String, MetadataToken)> = Vec::new();
        let mut i: usize = 0;
        proof {
            lemma_table_prefix_empty(tokens@);
            lemma_filter_map_empty(f);
            assert(view_pairs(out@) =~= Seq::<(Seq<char>, (Seq<char>, Option<u128>))>::empty());
        }
        while i < tokens.len()
            invariant
                i <= tokens.len(),
                table_wf(tokens@),
                table_wf(out@),
                f == restore_token(now, monotonic),
                table(out@) == filter_map_values(table(tokens@.take(i as int)), f),
            decreases tokens.len() - i,
        {
            proof {
                lemma_table_prefix_step(tokens@, i as int);
                lemma_filter_map_insert(
                    table(tokens@.take(i as int)),
                    tokens@[i as int].0@,
                    tokens@[i as int].1@,
                    f,
                );
            }
            let deadline: Option<Option<u128>> = match tokens[i].1.expires_at {
                None => Some(None),
                Some(deadline) => match monotonic {
                    None => None,
                    Some(m) => if deadline <= m {
                        None
                    } else {
                        let remaining = deadline - m;
                        if remaining > u128::MAX - now {
                            None
                        } else {
                            Some(Some(now + remaining))
                        }
                    },
                },
            };
            match deadline {
                Some(expires_at) => {
                    let e = (
                        tokens[i].0.clone(),
                        MetadataToken { value: tokens[i].1.value.clone(), expires_at },
                    );
                    proof {
                        lemma_table_push(out@, e);
                    }
                    out.push(e);
                },
                None => {},
            }
            i = i + 1;
        }
        proof {
            lemma_table_prefix_full(tokens@);
        }
        MetadataTokens { entries: out }
    }
}


/// A handoff counts the time that the transfer took. On one boot, where the
/// monotonic clock only advances, a token with a deadline arrives with its
/// remaining time shortened by exactly the monotonic time that passed between
/// capture and restore, and it arrives only while time remains: a token that
/// expired before or during the transfer is never revived.
pub proof fn law_handoff_counts_transfer_time(
    tokens: Map<Seq<char>, (Seq<char>, Option<u128>)>,
    key: Seq<char>,
    captured_at: u128,
    sent: u128,
    restored_at: u128,
    received: u128,
)
    requires
        tokens.dom().contains(key),
        tokens[key].1 is Some,
        sent <= received,
    ensures
        ({
            let arrived = restored(
                captured(tokens, captured_at, Some(sent)),
                restored_at,
                Some(received),
            );
            let remaining = tokens[key].1->0 - captured_at;
            let elapsed = received - sent;
            &&& arrived.dom().contains(key) <==> (remaining > elapsed && sent + remaining
                <= DURATION_MAX_NANOS && restored_at + remaining - elapsed <= u128::MAX)
            &&& arrived.dom().contains(key) ==> arrived[key] == (
                tokens[key].0,
                Some((restored_at + remaining - elapsed) as u128),
            )
        }),
{
}

/// Permanent tokens survive every handoff unchanged, whatever the clocks read.
pub proof fn law_handoff_keeps_permanent_tokens(
    tokens: Map<Seq<char>, (Seq<char>, Option<u128>)>,
    key: Seq<char>,
    captured_at: u128,
    sent: Option<u128>,
    restored_at: u128,
    received: Option<u128>,
)
    requires
        tokens.dom().contains(key),
        tokens[key].1 is None,
    ensures
        restored(captured(tokens, captured_at, sent), restored_at, received).dom().contains(key),
        restored(captured(tokens, captured_at, sent), restored_at, received)[key] == tokens[key],
{
}

/// When the monotonic clock cannot be read at capture or at restore, exactly
/// the permanent tokens cross the handoff: an unreadable clock never makes an
/// expiring token permanent.
pub proof fn law_unreadable_clock_keeps_only_permanent_tokens(
    tokens: Map<Seq<char>, (Seq<char>, Option<u128>)>,
    captured_at: u128,
    sent: Option<u128>,
    restored_at: u128,
    received: Option<u128>,
)
    requires
        sent is None || received is None,
    ensures
        forall|k: Seq<char>|
            #[trigger] restored(captured(tokens, captured_at, sent), restored_at, received).dom().contains(k)
                <==> tokens.dom().contains(k) && tokens[k].1 is None,
{
}

/// An expiry sweep at `now` removes every token due at or before `now`, however
/// late the sweep runs, and keeps every other token as it was.
pub proof fn law_expiry_removes_exactly_due_tokens(
    tokens: Map<Seq<char>, (Seq<char>, Option<u128>)>,
    now: u128,
)
    ensures
        forall|k: Seq<char>|
            #[trigger] unexpired(tokens, now).dom().contains(k) <==> tokens.dom().contains(k)
                && !is_expired(tokens[k].1, now),
        forall|k: Seq<char>|
            #[trigger] unexpired(tokens, now).dom().contains(k) ==> unexpired(tokens, now)[k]
                == tokens[k],
{
}

/// A patch whose keys are distinct sets each key it gives a value (with the
/// patch's deadline, replacing any earlier deadline), removes each key it
/// gives none, and leaves every other key as it was.
pub proof fn law_patch_changes_only_its_keys(
    tokens: Map<Seq<char>, (Seq<char>, Option<u128>)>,
    patch: Seq<(Seq<char>, Option<Seq<char>>)>,
    expires_at: Option<u128>,
)
    requires
        keys_distinct(patch),
    ensures
        forall|j: int|
            0 <= j < patch.len() && #[trigger] patch[j].1 is Some ==> patched(
                tokens,
                patch,
                expires_at,
            ).dom().contains(patch[j].0) && patched(tokens, patch, expires_at)[patch[j].0] == (
                patch[j].1->0,
                expires_at,
            ),
        forall|j: int|
            0 <= j < patch.len() && #[trigger] patch[j].1 is None ==> !patched(
                tokens,
                patch,
                expires_at,
            ).dom().contains(patch[j].0),
        forall|k: Seq<char>|
            !has_key(patch, k) ==> (#[trigger] patched(tokens, patch, expires_at).dom().contains(k)
                == tokens.dom().contains(k) && (tokens.dom().contains(k) ==> patched(
                tokens,
                patch,
                expires_at,
            )[k] == tokens[k])),
    decreases patch.len(),
{
    if patch.len() > 0 {
        let p = patch.drop_last();
        let last = patch.last();
        assert(keys_distinct(p)) by {
            assert forall|i: int, j: int| 0 <= i < j < p.len() implies #[trigger] p[i].0
                != #[trigger] p[j].0 by {
                assert(patch[i].0 != patch[j].0);
            }
        }
        law_patch_changes_only_its_keys(tokens, p, expires_at);
        assert forall|j: int| 0 <= j < patch.len() - 1 implies #[trigger] patch[j].0 != last.0 by {
            assert(patch[j].0 != patch[patch.len() - 1].0);
        }
        let after = patched(tokens, patch, expires_at);
        let before = patched(tokens, p, expires_at);
        assert forall|k: Seq<char>| !has_key(patch, k) implies (#[trigger] after.dom().contains(k)
            == tokens.dom().contains(k) && (tokens.dom().contains(k) ==> after[k] == tokens[k])) by {
            if has_key(p, k) {
                let i = choose|i: int| 0 <= i < p.len() && #[trigger] p[i].0 == k;
                assert(patch[i].0 == k);
            }
            assert(patch[patch.len() - 1].0 == last.0);
            assert(before.dom().contains(k) == tokens.dom().contains(k));
        }
        assert forall|j: int| 0 <= j < patch.len() && #[trigger] patch[j].1 is Some implies after.dom().contains(
            patch[j].0,
        ) && after[patch[j].0] == (patch[j].1->0, expires_at) by {
            if j < patch.len() - 1 {
                assert(p[j] == patch[j]);
            }
        }
        assert forall|j: int| 0 <= j < patch.len() && #[trigger] patch[j].1 is None implies !after.dom().contains(
            patch[j].0,
        ) by {
            if j < patch.len() - 1 {
                assert(p[j] == patch[j]);
            }
        }
    }
}

/// Once `seq` is accepted from `source`, neither it nor any older sequence
/// number from that source is fresh again.
pub proof fn law_accepted_sequence_is_never_fresh_again(
    sequences: Map<Seq<char>, u64>,
    source: Seq<char>,
    seq: u64,
    again: u64,
)
    requires
        accept_outcome(sequences, source, Some(seq)).0 == Ok::<bool, ()>(true),
        again <= seq,
    ensures
        !spec_sequence_is_fresh(accept_outcome(sequences, source, Some(seq)).1, source, Some(again)),
{
}

/// Accepting a sequence number never lets the table hold more than
/// `MAX_SEQUENCE_SOURCES` sources, and a refusal or an error leaves it as it was.
pub proof fn law_sequence_sources_stay_bounded(
    sequences: Map<Seq<char>, u64>,
    source: Seq<char>,
    seq: Option<u64>,
)
    requires
        sequences.dom().finite(),
        sequences.dom().len() <= MAX_SEQUENCE_SOURCES,
    ensures
        accept_outcome(sequences, source, seq).1.dom().finite(),
        accept_outcome(sequences, source, seq).1.dom().len() <= MAX_SEQUENCE_SOURCES,
        accept_outcome(sequences, source, seq).0 != Ok::<bool, ()>(true) ==> accept_outcome(
            sequences,
            source,
            seq,
        ).1 == sequences,
{
}

/// The keys that a patch leaves do not depend on its deadline: the count
/// that `key_count_after_patch` reports is the number of values that reading
/// the tokens gives after applying the patch, with or without a ttl.
pub proof fn law_key_count_predicts_patch(
    tokens: Map<Seq<char>, (Seq<char>, Option<u128>)>,
    patch: Seq<(Seq<char>, Option<Seq<char>>)>,
    expires_at: Option<u128>,
)
    ensures
        patched(tokens, patch, expires_at).dom() == patched(tokens, patch, None).dom(),
        token_values(patched(tokens, patch, expires_at)).dom() == patched(tokens, patch, None).dom(),
        token_values(patched(tokens, patch, expires_at)).dom().len() == patched(
            tokens,
            patch,
            None,
        ).dom().len(),
    decreases patch.len(),
{
    if patch.len() > 0 {
        law_key_count_predicts_patch(tokens, patch.drop_last(), expires_at);
    }
    assert(token_values(patched(tokens, patch, expires_at)).dom() =~= patched(
        tokens,
        patch,
        expires_at,
    ).dom());
}

/// Reading the values after a patch gives back what the patch wrote: each key
/// it set has the value it gave, each key it cleared is absent.
pub proof fn law_values_read_back_the_patch(
    tokens: Map<Seq<char>, (Seq<char>, Option<u128>)>,
    patch: Seq<(Seq<char>, Option<Seq<char>>)>,
    expires_at: Option<u128>,
)
    requires
        keys_distinct(patch),
    ensures
        forall|j: int|
            0 <= j < patch.len() && #[trigger] patch[j].1 is Some ==> token_values(
                patched(tokens, patch, expires_at),
            ).dom().contains(patch[j].0) && token_values(patched(tokens, patch, expires_at))[patch[j].0]
                == patch[j].1->0,
        forall|j: int|
            0 <= j < patch.len() && #[trigger] patch[j].1 is None ==> !token_values(
                patched(tokens, patch, expires_at),
            ).dom().contains(patch[j].0),
{
    law_patch_changes_only_its_keys(tokens, patch, expires_at);
}

} // verus!
