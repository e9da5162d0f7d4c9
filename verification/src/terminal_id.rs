//! Opaque identities of server-owned terminals.
use vstd::prelude::*;

use crate::text::{
    chars_of, hex_text, is_ascii_hexdigit_char, lemma_hex_text_digits, lemma_hex_text_injective,
    push_hex, str_equal,
    string_of,
};

verus! {

/// The prefix of every allocated terminal id.
pub open spec fn id_prefix() -> Seq<char> {
    seq!['t', 'e', 'r', 'm', '_']
}

/// The id allocated at `micros` microseconds after the Unix epoch with counter value `counter`:
/// `format!("term_{micros:x}{counter:x}")`.
pub open spec fn terminal_id_text(micros: nat, counter: nat) -> Seq<char> {
    id_prefix() + hex_text(micros) + hex_text(counter)
}

/// `term_` followed by at least one ASCII hexadecimal digit and nothing else.
pub open spec fn is_valid_terminal_id(s: Seq<char>) -> bool {
    &&& s.len() > 5
    &&& s.take(5) == id_prefix()
    &&& forall|i: int| 5 <= i < s.len() ==> is_ascii_hexdigit_char(#[trigger] s[i])
}

/// `start + j`, wrapping around at `2^64`, for `j <= 2^64`.
pub open spec fn counter_after(start: u64, j: nat) -> u64 {
    if start + j > u64::MAX {
        (start + j - 0x1_0000_0000_0000_0000) as u64
    } else {
        (start + j) as u64
    }
}

/// Opaque identity for a server-owned terminal.
///
/// Callers must not derive it from a pane id or layout position.
#[derive(Debug, Clone, PartialEq, Eq, Hash)]
pub struct TerminalId(String);

impl View for TerminalId {
    type V = Seq<char>;

    closed spec fn view(&self) -> Seq<char> {
        self.0@
    }
}

/// The allocation counter and the ids imported from a previous server, which
/// allocation must never hand out again.
pub struct TerminalIdPool {
    pub next: u64,
    pub imported: Vec<TerminalId>,
}

/// The ids of a list of terminal ids.
pub open spec fn id_texts(ids: Seq<TerminalId>) -> Seq<Seq<char>> {
    ids.map_values(|id: TerminalId| id@)
}

/// What allocation at `micros` does: it tries the counters from `before.next`
/// on, one after the other, and returns the first id that was not imported;
/// the counter moves past the one it used.
pub open spec fn allocated(
    before: TerminalIdPool,
    micros: nat,
    id: Seq<char>,
    after: TerminalIdPool,
) -> bool {
    exists|k: nat| #[trigger] allocated_after_tries(before, micros, id, after, k)
}

/// Allocation returned `id` after `k` counters whose ids were imported.
pub open spec fn allocated_after_tries(
    before: TerminalIdPool,
    micros: nat,
    id: Seq<char>,
    after: TerminalIdPool,
    k: nat,
) -> bool {
    &&& k <= before.imported@.len()
    &&& id == terminal_id_text(micros, counter_after(before.next, k) as nat)
    &&& !id_texts(before.imported@).contains(id)
    &&& forall|j: nat|
        j < k ==> id_texts(before.imported@).contains(
            #[trigger] terminal_id_text(micros, counter_after(before.next, j) as nat),
        )
    &&& after.next == counter_after(before.next, k + 1)
    &&& after.imported@ == before.imported@
}

/// A reading of the system clock.
#[verifier::external_type_specification]
#[verifier::external_body]
pub struct ExSystemTime(std::time::SystemTime);

/// Why a system clock reading lies before another.
#[verifier::external_type_specification]
#[verifier::external_body]
pub struct ExSystemTimeError(std::time::SystemTimeError);

/// `SystemTime::now`: the current reading of the system clock. Nothing is
/// promised of it.
#[verifier::external_body]
fn system_now() -> std::time::SystemTime {
    std::time::SystemTime::now()
}

/// `SystemTime::duration_since(UNIX_EPOCH)`: how long after the Unix epoch
/// `t` lies, or an error when it lies before it. Nothing is promised of it.
#[verifier::external_body]
fn since_unix_epoch(t: &std::time::SystemTime) -> Result<
    std::time::Duration,
    std::time::SystemTimeError,
> {
    t.duration_since(std::time::UNIX_EPOCH)
}

/// `Duration::as_micros`: the whole microseconds of `d`. Nothing is promised
/// of it, as the duration's value is not visible here.
#[verifier::external_body]
fn duration_micros(d: &std::time::Duration) -> u128 {
    d.as_micros()
}

/// Microseconds since the Unix epoch by the system clock, 0 when the clock
/// reads before the epoch.
fn unix_micros() -> u128 {
    match since_unix_epoch(&system_now()) {
        Ok(elapsed) => duration_micros(&elapsed),
        Err(_) => 0,
    }
}

proof fn lemma_counter_step(start: u64, k: nat)
    requires
        k + 1 <= 0x1_0000_0000_0000_0000,
    ensures
        vstd::wrapping::u64_specs::wrapping_add(counter_after(start, k), 1) == counter_after(start, k + 1),
{
}

proof fn lemma_counter_distinct(start: u64, a: nat, b: nat)
    requires
        a < b < 0x1_0000_0000_0000_0000,
    ensures
        counter_after(start, a) != counter_after(start, b),
{
}

proof fn lemma_id_text_same_length_injective(m1: nat, a: nat, m2: nat, b: nat)
    requires
        hex_text(m1).len() == hex_text(m2).len(),
        terminal_id_text(m1, a) == terminal_id_text(m2, b),
    ensures
        m1 == m2,
        a == b,
{
    let n = (id_prefix() + hex_text(m1)).len() as int;
    let ta = terminal_id_text(m1, a);
    let tb = terminal_id_text(m2, b);
    assert(ta.subrange(n, ta.len() as int) =~= hex_text(a));
    assert(tb.subrange(n, tb.len() as int) =~= hex_text(b));
    assert(ta.subrange(5, n) =~= hex_text(m1));
    assert(tb.subrange(5, n) =~= hex_text(m2));
    lemma_hex_text_injective(a, b);
    lemma_hex_text_injective(m1, m2);
}

proof fn lemma_id_text_injective(micros: nat, a: nat, b: nat)
    requires
        terminal_id_text(micros, a) == terminal_id_text(micros, b),
    ensures
        a == b,
{
    let p = id_prefix() + hex_text(micros);
    let ta = terminal_id_text(micros, a);
    let tb = terminal_id_text(micros, b);
    assert(ta.subrange(p.len() as int, ta.len() as int) =~= hex_text(a));
    assert(tb.subrange(p.len() as int, tb.len() as int) =~= hex_text(b));
    lemma_hex_text_injective(a, b);
}

/// The set of the first `n` values of `f`.
spec fn first_values<A>(f: spec_fn(nat) -> A, n: nat) -> Set<A>
    decreases n,
{
    if n == 0 {
        Set::empty()
    } else {
        first_values(f, (n - 1) as nat).insert(f((n - 1) as nat))
    }
}

proof fn lemma_first_values(f: spec_fn(nat) -> Seq<char>, n: nat)
    requires
        forall|i: nat, j: nat| i < j < n ==> #[trigger] f(i) != #[trigger] f(j),
    ensures
        first_values(f, n).finite(),
        first_values(f, n).len() == n,
        forall|x: Seq<char>| first_values(f, n).contains(x) ==> exists|i: nat| i < n && #[trigger] f(i) == x,
    decreases n,
{
    if n > 0 {
        let m = (n - 1) as nat;
        lemma_first_values(f, m);
        if first_values(f, m).contains(f(m)) {
            let i = choose|i: nat| i < m && #[trigger] f(i) == f(m);
            assert(f(i) != f(m));
        }
        assert forall|x: Seq<char>| first_values(f, n).contains(x) implies exists|i: nat| i < n && #[trigger] f(i) == x by {
            if x != f(m) {
                let i = choose|i: nat| i < m && #[trigger] f(i) == x;
                assert(i < n && f(i) == x);
            }
        }
    }
}

/// `n` distinct values that all occur in `s` are no more than its length.
proof fn lemma_distinct_values_fit(f: spec_fn(nat) -> Seq<char>, n: nat, s: Seq<Seq<char>>)
    requires
        forall|i: nat, j: nat| i < j < n ==> #[trigger] f(i) != #[trigger] f(j),
        forall|i: nat| i < n ==> s.contains(#[trigger] f(i)),
    ensures
        n <= s.len(),
{
    lemma_first_values(f, n);
    assert(first_values(f, n).subset_of(s.to_set())) by {
        assert forall|x: Seq<char>| first_values(f, n).contains(x) implies s.to_set().contains(x) by {
            let i = choose|i: nat| i < n && #[trigger] f(i) == x;
            assert(s.contains(f(i)));
        }
    }
    vstd::seq_lib::seq_to_set_is_finite(s);
    vstd::set_lib::lemma_len_subset(first_values(f, n), s.to_set());
    s.lemma_cardinality_of_set();
}

impl TerminalId {
    /// A terminal id with the given text, as read back from a saved session.
    pub fn from_text(text: String) -> (r: TerminalId)
        ensures
            r@ == text@,
    {
        TerminalId(text)
    }

    /// The id's text.
    pub fn as_str(&self) -> (r: &str)
        ensures
            r@ == self@,
    {
        self.0.as_str()
    }

    /// The id `term_{micros:x}{counter:x}`.
    pub fn from_parts(micros: u128, counter: u64) -> (r: TerminalId)
        ensures
            r@ == terminal_id_text(micros as nat, counter as nat),
    {
        let mut v: Vec<char> = Vec::new();
        v.push('t');
        v.push('e');
        v.push('r');
        v.push('m');
        v.push('_');
        assert(v@ =~= id_prefix());
        push_hex(&mut v, micros);
        push_hex(&mut v, counter as u128);
        TerminalId(string_of(v.as_slice()))
    }

    /// Whether the id has the allocated shape: `term_` and hexadecimal digits.
    pub fn is_valid(&self) -> (r: bool)
        ensures
            r == is_valid_terminal_id(self@),
    {
        let v = chars_of(self.0.as_str());
        if v.len() <= 5 {
            return false;
        }
        if !(v[0] == 't' && v[1] == 'e' && v[2] == 'r' && v[3] == 'm' && v[4] == '_') {
            proof {
                if v@.take(5) == id_prefix() {
                    assert(v@.take(5)[0] == 't');
                    assert(v@.take(5)[1] == 'e');
                    assert(v@.take(5)[2] == 'r');
                    assert(v@.take(5)[3] == 'm');
                    assert(v@.take(5)[4] == '_');
                }
            }
            return false;
        }
        assert(v@.take(5) =~= id_prefix());
        let mut i: usize = 5;
        while i < v.len()
            invariant
                5 <= i <= v.len(),
                v@ == self@,
                forall|j: int| 5 <= j < i ==> is_ascii_hexdigit_char(#[trigger] v@[j]),
            decreases v.len() - i,
        {
            let c = v[i];
            if !(('a' <= c && c <= 'f') || ('A' <= c && c <= 'F') || ('0' <= c && c <= '9')) {
                return false;
            }
            i = i + 1;
        }
        true
    }

    /// Allocates a fresh id from the system clock and the pool's counter.
    pub fn allocate(pool: &mut TerminalIdPool) -> (r: TerminalId)
        ensures
            exists|micros: nat| allocated(*old(pool), micros, r@, *final(pool)),
    {
        let micros = unix_micros();
        pool.alloc_at(micros)
    }

    /// Reserves ids imported from a previous server so that allocation never repeats them.
    pub fn reserve_imported(pool: &mut TerminalIdPool, ids: Vec<TerminalId>)
        ensures
            final(pool).next == old(pool).next,
            final(pool).imported@ == old(pool).imported@ + ids@,
    {
        let mut ids = ids;
        pool.imported.append(&mut ids);
    }
}

impl TerminalIdPool {
    /// A pool whose counter starts at 1 and that has imported nothing.
    pub fn new() -> (r: TerminalIdPool)
        ensures
            r.next == 1,
            r.imported@ == Seq::<TerminalId>::empty(),
    {
        TerminalIdPool { next: 1, imported: Vec::new() }
    }

    /// Whether `id` was imported.
    pub fn is_imported(&self, id: &TerminalId) -> (r: bool)
        ensures
            r == id_texts(self.imported@).contains(id@),
    {
        let mut i: usize = 0;
        while i < self.imported.len()
            invariant
                i <= self.imported.len(),
                forall|j: int| 0 <= j < i ==> #[trigger] self.imported@[j]@ != id@,
            decreases self.imported.len() - i,
        {
            if str_equal(self.imported[i].0.as_str(), id.0.as_str()) {
                assert(id_texts(self.imported@)[i as int] == id@);
                return true;
            }
            i = i + 1;
        }
        proof {
            if id_texts(self.imported@).contains(id@) {
                let j = choose|j: int| 0 <= j < id_texts(self.imported@).len() && id_texts(self.imported@)[j] == id@;
                assert(self.imported@[j]@ == id@);
            }
        }
        false
    }

    /// Allocates the first id at `micros` that was not imported.
    pub fn alloc_at(&mut self, micros: u128) -> (r: TerminalId)
        ensures
            allocated(*old(self), micros as nat, r@, *final(self)),
    {
        let ghost before = *self;
        let ghost start = self.next;
        let ghost imported = id_texts(self.imported@);
        let ghost f = |j: nat| terminal_id_text(micros as nat, counter_after(start, j) as nat);
        let ghost mut k: nat = 0;
        loop
            invariant
                self.imported@ == before.imported@,
                before == *old(self),
                imported == id_texts(before.imported@),
                start == before.next,
                f == (|j: nat| terminal_id_text(micros as nat, counter_after(start, j) as nat)),
                k <= imported.len(),
                imported.len() == self.imported.len(),
                self.next == counter_after(start, k),
                forall|j: nat| j < k ==> imported.contains(#[trigger] f(j)),
            decreases imported.len() - k,
        {
            let counter = self.next;
            proof {
                lemma_counter_step(start, k);
            }
            self.next = self.next.wrapping_add(1);
            let id = TerminalId::from_parts(micros, counter);
            assert(id@ == f(k));
            if !self.is_imported(&id) {
                proof {
                    assert forall|j: nat| j < k implies imported.contains(
                        #[trigger] terminal_id_text(micros as nat, counter_after(start, j) as nat),
                    ) by {
                        assert(imported.contains(f(j)));
                    }
                    assert(allocated_after_tries(before, micros as nat, id@, *self, k));
                    assert(allocated(before, micros as nat, id@, *self));
                }
                return id;
            }
            proof {
                assert forall|a: nat, b: nat| a < b < k + 1 implies #[trigger] f(a) != #[trigger] f(b) by {
                    lemma_counter_distinct(start, a, b);
                    if f(a) == f(b) {
                        lemma_id_text_injective(micros as nat, counter_after(start, a) as nat, counter_after(start, b) as nat);
                    }
                }
                assert forall|j: nat| j < k + 1 implies imported.contains(#[trigger] f(j)) by {}
                lemma_distinct_values_fit(f, k + 1, imported);
                k = k + 1;
            }
        }
    }
}

/// Every id that allocation hands out has the shape of a terminal id.
pub proof fn law_allocated_ids_are_valid(
    before: TerminalIdPool,
    micros: nat,
    id: Seq<char>,
    after: TerminalIdPool,
)
    requires
        allocated(before, micros, id, after),
    ensures
        is_valid_terminal_id(id),
{
    let k = choose|k: nat| #[trigger] allocated_after_tries(before, micros, id, after, k);
    let counter = counter_after(before.next, k) as nat;
    lemma_hex_text_digits(micros);
    lemma_hex_text_digits(counter);
    assert(id.take(5) =~= id_prefix());
    assert forall|i: int| 5 <= i < id.len() implies is_ascii_hexdigit_char(#[trigger] id[i]) by {
        let m = hex_text(micros);
        if i < 5 + m.len() {
            assert(id[i] == m[i - 5]);
        } else {
            assert(id[i] == hex_text(counter)[i - 5 - m.len()]);
        }
    }
}

/// Allocation never hands out an id that was imported from a previous server,
/// and leaves the imported ids as they were.
pub proof fn law_allocation_avoids_imported_ids(
    before: TerminalIdPool,
    micros: nat,
    id: Seq<char>,
    after: TerminalIdPool,
)
    requires
        allocated(before, micros, id, after),
    ensures
        !id_texts(before.imported@).contains(id),
        after.imported@ == before.imported@,
{
}

/// Two allocations in a row at the same clock reading hand out distinct ids.
pub proof fn law_successive_allocations_differ(
    first: TerminalIdPool,
    micros: nat,
    a: Seq<char>,
    middle: TerminalIdPool,
    b: Seq<char>,
    last: TerminalIdPool,
)
    requires
        allocated(first, micros, a, middle),
        allocated(middle, micros, b, last),
        first.imported@.len() < u64::MAX,
    ensures
        a != b,
{
    let ka = choose|k: nat| #[trigger] allocated_after_tries(first, micros, a, middle, k);
    let kb = choose|k: nat| #[trigger] allocated_after_tries(middle, micros, b, last, k);
    if a == b {
        lemma_id_text_injective(
            micros,
            counter_after(first.next, ka) as nat,
            counter_after(middle.next, kb) as nat,
        );
        assert(false);
    }
}

/// The hexadecimal text of clock reading `a` starts the text of reading `b`.
pub open spec fn hex_starts(a: nat, b: nat) -> bool {
    hex_text(a).len() <= hex_text(b).len() && hex_text(b).take(hex_text(a).len() as int) == hex_text(a)
}

proof fn lemma_unrelated_readings_differ(m1: nat, c1: nat, m2: nat, c2: nat)
    requires
        !hex_starts(m1, m2),
        !hex_starts(m2, m1),
    ensures
        terminal_id_text(m1, c1) != terminal_id_text(m2, c2),
{
    let t1 = terminal_id_text(m1, c1);
    let t2 = terminal_id_text(m2, c2);
    let h1 = hex_text(m1);
    let h2 = hex_text(m2);
    if t1 == t2 {
        assert(t1.subrange(5, 5 + h1.len() as int) =~= h1);
        assert(t2.subrange(5, 5 + h2.len() as int) =~= h2);
        if h1.len() <= h2.len() {
            assert(h2.take(h1.len() as int) =~= t2.subrange(5, 5 + h1.len() as int));
        } else {
            assert(h1.take(h2.len() as int) =~= t1.subrange(5, 5 + h2.len() as int));
        }
    }
}

/// Two allocations hand out different ids when their clock readings have
/// hexadecimal texts of the same length and they leave the counter at
/// different values (within one wrap of the counter, whatever the clock read),
/// and whenever neither reading's text starts the other's. Only readings whose
/// texts nest, such as `0x1` and `0x12`, can give the same id.
pub proof fn law_allocations_with_distinct_counters_differ(
    p1: TerminalIdPool,
    m1: nat,
    a: Seq<char>,
    q1: TerminalIdPool,
    p2: TerminalIdPool,
    m2: nat,
    b: Seq<char>,
    q2: TerminalIdPool,
)
    requires
        allocated(p1, m1, a, q1),
        allocated(p2, m2, b, q2),
        (hex_text(m1).len() == hex_text(m2).len() && q1.next != q2.next) || (!hex_starts(m1, m2)
            && !hex_starts(m2, m1)),
        p1.imported@.len() < u64::MAX,
        p2.imported@.len() < u64::MAX,
    ensures
        a != b,
{
    let k1 = choose|k: nat| #[trigger] allocated_after_tries(p1, m1, a, q1, k);
    let k2 = choose|k: nat| #[trigger] allocated_after_tries(p2, m2, b, q2, k);
    let c1 = counter_after(p1.next, k1);
    let c2 = counter_after(p2.next, k2);
    lemma_counter_step(p1.next, k1);
    lemma_counter_step(p2.next, k2);
    if !hex_starts(m1, m2) && !hex_starts(m2, m1) {
        lemma_unrelated_readings_differ(m1, c1 as nat, m2, c2 as nat);
    } else if a == b {
        lemma_id_text_same_length_injective(m1, c1 as nat, m2, c2 as nat);
        assert(c1 == c2);
        assert(false);
    }
}

} // verus!
