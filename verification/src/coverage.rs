//! The orchestration section shows every agent: each entry of the sidebar
//! appears in exactly one row, unless its run is collapsed.
use vstd::multiset::Multiset;
use vstd::prelude::*;

use crate::layout::PaneId;
use crate::orchestration::{
    agent_item, collapse_key_of, law_collapsed_run_shows_only_its_card, concat, entry_before, insert_by, item_entry, layout_items,
    legacy_members, orchestration_of, positions_where, repository_items, repository_members,
    repository_of, repository_order, run_before, run_items, run_members, run_of, run_order,
    runs_of, sorted_by, EntryView, ItemView, RunView,
};

verus! {

broadcast use {
    vstd::multiset::group_multiset_axioms,
    vstd::multiset::lemma_multiset_empty_len,
    vstd::seq_lib::group_to_multiset_ensures,
};

/// The entries that `items` show, in order.
pub open spec fn shown_entries(items: Seq<ItemView>) -> Seq<usize>
    decreases items.len(),
{
    if items.len() == 0 {
        Seq::empty()
    } else {
        let before = shown_entries(items.drop_last());
        match item_entry(items.last()) {
            Some(i) => before.push(i),
            None => before,
        }
    }
}

/// The union of the multisets of `ms`, counting multiplicity.
pub open spec fn msum<A>(ms: Seq<Multiset<A>>) -> Multiset<A>
    decreases ms.len(),
{
    if ms.len() == 0 {
        Multiset::empty()
    } else {
        msum(ms.drop_last()).add(ms.last())
    }
}

proof fn lemma_append_multiset<A>(a: Seq<A>, b: Seq<A>)
    ensures
        (a + b).to_multiset() == a.to_multiset().add(b.to_multiset()),
{
    vstd::seq_lib::lemma_multiset_commutative(a, b);
}

/// The rows of `a + b` show the entries of `a`, then those of `b`.
proof fn lemma_shown_append(a: Seq<ItemView>, b: Seq<ItemView>)
    ensures
        shown_entries(a + b) == shown_entries(a) + shown_entries(b),
    decreases b.len(),
{
    if b.len() == 0 {
        assert(a + b =~= a);
        assert(shown_entries(a) + shown_entries(b) =~= shown_entries(a));
    } else {
        lemma_shown_append(a, b.drop_last());
        assert((a + b).drop_last() =~= a + b.drop_last());
        assert((a + b).last() == b.last());
        match item_entry(b.last()) {
            Some(i) => {
                assert(shown_entries(a) + shown_entries(b) =~= (shown_entries(a) + shown_entries(
                    b.drop_last(),
                )).push(i));
            },
            None => {},
        }
    }
}

/// The rows of several groups show, together, what each group shows.
proof fn lemma_shown_concat(ss: Seq<Seq<ItemView>>)
    ensures
        shown_entries(concat(ss)).to_multiset() == msum(
            ss.map_values(|s: Seq<ItemView>| shown_entries(s).to_multiset()),
        ),
    decreases ss.len(),
{
    let f = |s: Seq<ItemView>| shown_entries(s).to_multiset();
    if ss.len() == 0 {
        assert(shown_entries(concat(ss)) =~= Seq::<usize>::empty());
        assert(shown_entries(concat(ss)).to_multiset() =~= Multiset::<usize>::empty());
    } else {
        lemma_shown_concat(ss.drop_last());
        lemma_shown_append(concat(ss.drop_last()), ss.last());
        lemma_append_multiset(shown_entries(concat(ss.drop_last())), shown_entries(ss.last()));
        assert(ss.map_values(f).drop_last() =~= ss.drop_last().map_values(f));
    }
}

proof fn lemma_msum_prepend<A>(m: Multiset<A>, rest: Seq<Multiset<A>>)
    ensures
        msum(seq![m] + rest) == m.add(msum(rest)),
    decreases rest.len(),
{
    if rest.len() == 0 {
        let t = seq![m] + rest;
        assert(t.len() == 1);
        assert(t.last() == m);
        assert(msum(t.drop_last()) == Multiset::<A>::empty());
        assert(msum(rest) == Multiset::<A>::empty());
        assert(msum(t) == Multiset::<A>::empty().add(m));
        assert(msum(t) =~= m.add(msum(rest)));
    } else {
        lemma_msum_prepend(m, rest.drop_last());
        assert((seq![m] + rest).drop_last() =~= seq![m] + rest.drop_last());
        assert(msum(seq![m] + rest) =~= m.add(msum(rest)));
    }
}

proof fn lemma_msum_insert_by<A, B>(
    x: A,
    s: Seq<A>,
    before: spec_fn(A, A) -> bool,
    g: spec_fn(A) -> Multiset<B>,
)
    ensures
        msum(insert_by(x, s, before).map_values(g)) == msum(s.map_values(g)).add(g(x)),
    decreases s.len(),
{
    if s.len() == 0 {
        assert(insert_by(x, s, before).map_values(g) =~= seq![g(x)]);
        assert(seq![g(x)].drop_last() =~= Seq::<Multiset<B>>::empty());
        assert(s.map_values(g) =~= Seq::<Multiset<B>>::empty());
        assert(msum(seq![g(x)]) =~= msum(s.map_values(g)).add(g(x)));
    } else {
        assert(s.map_values(g) =~= seq![g(s[0])] + s.drop_first().map_values(g));
        lemma_msum_prepend(g(s[0]), s.drop_first().map_values(g));
        if before(x, s[0]) {
            assert(insert_by(x, s, before).map_values(g) =~= seq![g(x)] + s.map_values(g));
            lemma_msum_prepend(g(x), s.map_values(g));
            assert(g(x).add(msum(s.map_values(g))) =~= msum(s.map_values(g)).add(g(x)));
        } else {
            let t = insert_by(x, s.drop_first(), before);
            lemma_msum_insert_by(x, s.drop_first(), before, g);
            assert(insert_by(x, s, before).map_values(g) =~= seq![g(s[0])] + t.map_values(g));
            lemma_msum_prepend(g(s[0]), t.map_values(g));
            assert(g(s[0]).add(msum(s.drop_first().map_values(g)).add(g(x))) =~= g(s[0]).add(
                msum(s.drop_first().map_values(g)),
            ).add(g(x)));
        }
    }
}

/// Sorting changes the order of what the elements contribute, not the sum.
proof fn lemma_msum_sorted_by<A, B>(s: Seq<A>, before: spec_fn(A, A) -> bool, g: spec_fn(A) -> Multiset<B>)
    ensures
        msum(sorted_by(s, before).map_values(g)) == msum(s.map_values(g)),
    decreases s.len(),
{
    if s.len() > 0 {
        lemma_msum_sorted_by(s.drop_last(), before, g);
        lemma_msum_insert_by(s.last(), sorted_by(s.drop_last(), before), before, g);
        assert(s.map_values(g).drop_last() =~= s.drop_last().map_values(g));
    }
}

/// A sequence's multiset is the sum of its elements' singletons.
proof fn lemma_to_multiset_msum<A>(s: Seq<A>)
    ensures
        s.to_multiset() == msum(s.map_values(|a: A| Multiset::singleton(a))),
    decreases s.len(),
{
    let f = |a: A| Multiset::singleton(a);
    if s.len() > 0 {
        lemma_to_multiset_msum(s.drop_last());
        assert(s.map_values(f).drop_last() =~= s.drop_last().map_values(f));
        assert(s.drop_last().push(s.last()) =~= s);
    }
}

/// Sorting keeps the elements.
proof fn lemma_sorted_by_multiset<A>(s: Seq<A>, before: spec_fn(A, A) -> bool)
    ensures
        sorted_by(s, before).to_multiset() == s.to_multiset(),
{
    lemma_to_multiset_msum(s);
    lemma_to_multiset_msum(sorted_by(s, before));
    lemma_msum_sorted_by(s, before, |a: A| Multiset::singleton(a));
}

/// The keys of the elements of `xs`, in the order of their first element.
pub open spec fn first_keys<K>(xs: Seq<usize>, key: spec_fn(usize) -> K) -> Seq<K>
    decreases xs.len(),
{
    if xs.len() == 0 {
        Seq::empty()
    } else {
        let before = first_keys(xs.drop_last(), key);
        if before.contains(key(xs.last())) {
            before
        } else {
            before.push(key(xs.last()))
        }
    }
}

/// The elements of `xs` with key `k`, in order.
pub open spec fn keyed_members<K>(xs: Seq<usize>, key: spec_fn(usize) -> K, k: K) -> Seq<usize>
    decreases xs.len(),
{
    if xs.len() == 0 {
        Seq::empty()
    } else {
        let before = keyed_members(xs.drop_last(), key, k);
        if key(xs.last()) == k {
            before.push(xs.last())
        } else {
            before
        }
    }
}

/// The groups of `xs` by key, each as a multiset, in the order of `first_keys`.
pub open spec fn group_multisets<K>(xs: Seq<usize>, key: spec_fn(usize) -> K) -> spec_fn(K) -> Multiset<
    usize,
> {
    |k: K| keyed_members(xs, key, k).to_multiset()
}

proof fn lemma_first_keys_distinct<K>(xs: Seq<usize>, key: spec_fn(usize) -> K)
    ensures
        first_keys(xs, key).no_duplicates(),
        forall|k: K| first_keys(xs, key).contains(k) || keyed_members(xs, key, k).len() == 0,
    decreases xs.len(),
{
    if xs.len() > 0 {
        let p = xs.drop_last();
        lemma_first_keys_distinct(p, key);
        assert forall|k: K| first_keys(xs, key).contains(k) || keyed_members(xs, key, k).len()
            == 0 by {
            if first_keys(p, key).contains(k) {
                let i = choose|i: int| 0 <= i < first_keys(p, key).len() && first_keys(p, key)[i] == k;
                if !first_keys(p, key).contains(key(xs.last())) {
                    assert(first_keys(xs, key)[i] == k);
                }
            }
            if key(xs.last()) == k && !first_keys(p, key).contains(k) {
                assert(first_keys(xs, key).last() == k);
            }
        }
    }
}

proof fn lemma_msum_agree<K>(ks: Seq<K>, f: spec_fn(K) -> Multiset<usize>, g: spec_fn(K) -> Multiset<usize>)
    requires
        forall|j: int| 0 <= j < ks.len() ==> f(#[trigger] ks[j]) == g(ks[j]),
    ensures
        msum(ks.map_values(f)) == msum(ks.map_values(g)),
    decreases ks.len(),
{
    if ks.len() > 0 {
        let p = ks.drop_last();
        assert forall|j: int| 0 <= j < p.len() implies f(#[trigger] p[j]) == g(p[j]) by {
            assert(p[j] == ks[j]);
        }
        lemma_msum_agree(p, f, g);
        assert(ks.map_values(f).drop_last() =~= p.map_values(f));
        assert(ks.map_values(g).drop_last() =~= p.map_values(g));
        assert(f(ks[ks.len() - 1]) == g(ks[ks.len() - 1]));
    }
}

proof fn lemma_msum_one_grows<K>(
    ks: Seq<K>,
    f: spec_fn(K) -> Multiset<usize>,
    g: spec_fn(K) -> Multiset<usize>,
    k0: K,
    x: usize,
)
    requires
        ks.no_duplicates(),
        ks.contains(k0),
        g(k0) == f(k0).insert(x),
        forall|k: K| k != k0 ==> #[trigger] g(k) == f(k),
    ensures
        msum(ks.map_values(g)) == msum(ks.map_values(f)).insert(x),
    decreases ks.len(),
{
    let p = ks.drop_last();
    assert(ks.map_values(f).drop_last() =~= p.map_values(f));
    assert(ks.map_values(g).drop_last() =~= p.map_values(g));
    if ks.last() == k0 {
        assert forall|j: int| 0 <= j < p.len() implies f(#[trigger] p[j]) == g(p[j]) by {
            assert(p[j] == ks[j]);
            assert(ks[j] != ks[ks.len() - 1]);
        }
        lemma_msum_agree(p, f, g);
        assert(msum(ks.map_values(g)) =~= msum(ks.map_values(f)).insert(x));
    } else {
        let i = choose|i: int| 0 <= i < ks.len() && ks[i] == k0;
        assert(p[i] == k0);
        assert(p.no_duplicates()) by {
            assert forall|a: int, b: int| 0 <= a < p.len() && 0 <= b < p.len() && a != b implies p[a]
                != p[b] by {
                assert(ks[a] != ks[b]);
            }
        }
        lemma_msum_one_grows(p, f, g, k0, x);
        assert(msum(ks.map_values(g)) =~= msum(ks.map_values(f)).insert(x));
    }
}

/// Grouping `xs` by key, in the order of each key's first element, loses and
/// repeats no element.
pub proof fn lemma_groups_partition<K>(xs: Seq<usize>, key: spec_fn(usize) -> K)
    ensures
        msum(first_keys(xs, key).map_values(group_multisets(xs, key))) == xs.to_multiset(),
    decreases xs.len(),
{
    if xs.len() > 0 {
        let p = xs.drop_last();
        let x = xs.last();
        let kx = key(x);
        let f = group_multisets(p, key);
        let g = group_multisets(xs, key);
        lemma_groups_partition(p, key);
        lemma_first_keys_distinct(p, key);
        assert(xs =~= p.push(x));
        assert forall|k: K| k != kx implies #[trigger] g(k) == f(k) by {
            assert(keyed_members(xs, key, k) == keyed_members(p, key, k));
        }
        assert(g(kx) == f(kx).insert(x)) by {
            assert(keyed_members(xs, key, kx) == keyed_members(p, key, kx).push(x));
        }
        let ks = first_keys(p, key);
        if ks.contains(kx) {
            lemma_msum_one_grows(ks, f, g, kx, x);
        } else {
            assert forall|j: int| 0 <= j < ks.len() implies f(#[trigger] ks[j]) == g(ks[j]) by {
                assert(ks[j] != kx);
            }
            lemma_msum_agree(ks, f, g);
            assert(keyed_members(p, key, kx).len() == 0);
            assert(keyed_members(p, key, kx) =~= Seq::<usize>::empty());
            assert(first_keys(xs, key) == ks.push(kx));
            assert(ks.push(kx).map_values(g).drop_last() =~= ks.map_values(g));
            assert(msum(first_keys(xs, key).map_values(g)) =~= xs.to_multiset());
        }
    }
}

/// The repository an entry at a position is shown under.
pub open spec fn repository_key(es: Seq<EntryView>) -> spec_fn(usize) -> Seq<char> {
    |m: usize| repository_of(es[m as int])
}

/// The entry at a position belongs to a run.
pub open spec fn has_run(es: Seq<EntryView>) -> spec_fn(usize) -> bool {
    |i: usize| orchestration_of(es[i as int]) is Some
}

/// The run of the entry at a position.
pub open spec fn run_key(es: Seq<EntryView>) -> spec_fn(usize) -> Seq<char> {
    |i: usize| orchestration_of(es[i as int])->0
}

proof fn lemma_repositories_are_groups(es: Seq<EntryView>, ms: Seq<usize>)
    ensures
        repository_order(es, ms) == first_keys(ms, repository_key(es)),
        forall|r: Seq<char>|
            #[trigger] repository_members(es, ms, r) == keyed_members(ms, repository_key(es), r),
    decreases ms.len(),
{
    if ms.len() > 0 {
        let p = ms.drop_last();
        lemma_repositories_are_groups(es, p);
        assert forall|r: Seq<char>|
            #[trigger] repository_members(es, ms, r) == keyed_members(ms, repository_key(es), r) by {
            assert(repository_members(es, p, r) == keyed_members(p, repository_key(es), r));
        }
    }
}

/// The entry at a position belongs to run `id`.
pub open spec fn in_run(es: Seq<EntryView>, id: Seq<char>) -> spec_fn(usize) -> bool {
    |i: usize| orchestration_of(es[i as int]) == Some(id)
}

proof fn lemma_runs_are_groups(es: Seq<EntryView>, j: nat)
    requires
        j <= es.len(),
        es.len() <= usize::MAX,
    ensures
        run_order(es.take(j as int)) == first_keys(positions_where(j, has_run(es)), run_key(es)),
        forall|id: Seq<char>|
            positions_where(j, in_run(es, id)) == #[trigger] keyed_members(
                positions_where(j, has_run(es)),
                run_key(es),
                id,
            ),
    decreases j,
{
    if j > 0 {
        let k = (j - 1) as nat;
        lemma_runs_are_groups(es, k);
        assert((k as usize) as int == k);
        assert(es.take(j as int).drop_last() =~= es.take(k as int));
        assert(es.take(j as int).last() == es[k as int]);
        let p = positions_where(k, has_run(es));
        let x = k as usize;
        if orchestration_of(es[k as int]) is Some {
            assert(positions_where(j, has_run(es)) == p.push(x));
            assert(p.push(x).drop_last() =~= p);
            assert(p.push(x).last() == x);
        } else {
            assert(positions_where(j, has_run(es)) == p);
        }
        assert forall|id: Seq<char>|
            positions_where(j, in_run(es, id)) == #[trigger] keyed_members(
                positions_where(j, has_run(es)),
                run_key(es),
                id,
            ) by {
            assert(positions_where(k, in_run(es, id)) == keyed_members(p, run_key(es), id));
            if orchestration_of(es[k as int]) is Some {
                assert(keyed_members(p.push(x), run_key(es), id) == if run_key(es)(x) == id {
                    keyed_members(p, run_key(es), id).push(x)
                } else {
                    keyed_members(p, run_key(es), id)
                });
            }
        }
    }
}

/// The members of run `id` are its group among the entries that belong to a run.
proof fn lemma_run_members_are_group(es: Seq<EntryView>, id: Seq<char>)
    requires
        es.len() <= usize::MAX,
    ensures
        run_members(es, id) == keyed_members(
            positions_where(es.len(), has_run(es)),
            run_key(es),
            id,
        ),
        run_order(es) == first_keys(positions_where(es.len(), has_run(es)), run_key(es)),
{
    lemma_runs_are_groups(es, es.len());
    assert(es.take(es.len() as int) =~= es);
    assert(in_run(es, id) =~= (|i: usize| orchestration_of(es[i as int]) == Some(id)));
}

proof fn lemma_shown_agent_rows(es: Seq<EntryView>, s: Seq<usize>, active: Option<(usize, usize, PaneId)>)
    ensures
        shown_entries(s.map_values(|i: usize| agent_item(es, i, active))) == s,
    decreases s.len(),
{
    let f = |i: usize| agent_item(es, i, active);
    if s.len() > 0 {
        lemma_shown_agent_rows(es, s.drop_last(), active);
        assert(s.map_values(f).drop_last() =~= s.drop_last().map_values(f));
        assert(s.drop_last().push(s.last()) =~= s);
    } else {
        assert(s.map_values(f) =~= Seq::<ItemView>::empty());
    }
}

proof fn lemma_shown_after_header(header: ItemView, rows: Seq<ItemView>)
    requires
        item_entry(header) is None,
    ensures
        shown_entries(seq![header] + rows) == shown_entries(rows),
{
    lemma_shown_append(seq![header], rows);
    assert(seq![header].drop_last().len() == 0);
    assert(shown_entries(seq![header].drop_last()) == Seq::<usize>::empty());
    assert(seq![header].last() == header);
    assert(shown_entries(seq![header]) =~= Seq::<usize>::empty());
    assert(Seq::<usize>::empty() + shown_entries(rows) =~= shown_entries(rows));
}

/// The rows of a repository show its entries, each once.
proof fn lemma_shown_repository(
    es: Seq<EntryView>,
    ms: Seq<usize>,
    repo: Seq<char>,
    active: Option<(usize, usize, PaneId)>,
)
    ensures
        shown_entries(repository_items(es, ms, repo, active)).to_multiset() == repository_members(
            es,
            ms,
            repo,
        ).to_multiset(),
{
    let rm = repository_members(es, ms, repo);
    let sorted = sorted_by(rm, entry_before(es));
    let header = ItemView::RepositoryHeader { label: repo, count: rm.len() };
    let rows = sorted.map_values(|i: usize| agent_item(es, i, active));
    assert(repository_items(es, ms, repo, active) == seq![header] + rows);
    lemma_shown_after_header(header, rows);
    lemma_shown_agent_rows(es, sorted, active);
    lemma_sorted_by_multiset(rm, entry_before(es));
}

/// The rows of a run that is not collapsed show its members, each once.
proof fn lemma_shown_open_run(
    es: Seq<EntryView>,
    run: RunView,
    collapsed_keys: Seq<Seq<char>>,
    active: Option<(usize, usize, PaneId)>,
)
    requires
        !collapsed_keys.contains(collapse_key_of(run.id)),
    ensures
        shown_entries(run_items(es, run, collapsed_keys, active)).to_multiset()
            == run.members.to_multiset(),
{
    let ms = run.members;
    let repos = repository_order(es, ms);
    let ss = repos.map_values(|repo: Seq<char>| repository_items(es, ms, repo, active));
    let body = concat(ss);
    let items = run_items(es, run, collapsed_keys, active);
    let header = items[0];
    assert(items == seq![header] + body + seq![ItemView::RunFooter]);
    lemma_shown_append(seq![header] + body, seq![ItemView::RunFooter]);
    lemma_shown_after_header(ItemView::RunFooter, Seq::<ItemView>::empty());
    assert(seq![ItemView::RunFooter] + Seq::<ItemView>::empty() =~= seq![ItemView::RunFooter]);
    assert(shown_entries(Seq::<ItemView>::empty()) == Seq::<usize>::empty());
    lemma_shown_after_header(header, body);
    assert(shown_entries(items) =~= shown_entries(body));
    lemma_shown_concat(ss);
    lemma_repositories_are_groups(es, ms);
    let key = repository_key(es);
    let f = |s: Seq<ItemView>| shown_entries(s).to_multiset();
    assert(ss.map_values(f) =~= first_keys(ms, key).map_values(group_multisets(ms, key))) by {
        assert forall|j: int| 0 <= j < repos.len() implies #[trigger] ss.map_values(f)[j]
            == first_keys(ms, key).map_values(group_multisets(ms, key))[j] by {
            lemma_shown_repository(es, ms, repos[j], active);
            assert(repository_members(es, ms, repos[j]) == keyed_members(ms, key, repos[j]));
        }
    }
    lemma_groups_partition(ms, key);
}

proof fn lemma_shown_legacy_rows(s: Seq<usize>)
    ensures
        shown_entries(s.map_values(|i: usize| ItemView::LegacyAgent { entry_index: i })) == s,
    decreases s.len(),
{
    let f = |i: usize| ItemView::LegacyAgent { entry_index: i };
    if s.len() > 0 {
        lemma_shown_legacy_rows(s.drop_last());
        assert(s.map_values(f).drop_last() =~= s.drop_last().map_values(f));
        assert(s.drop_last().push(s.last()) =~= s);
    } else {
        assert(s.map_values(f) =~= Seq::<ItemView>::empty());
    }
}

/// Whether the layout shows the entry at `i`: it belongs to no run, or its run is not collapsed.
pub open spec fn entry_shown(es: Seq<EntryView>, collapsed_keys: Seq<Seq<char>>, i: usize) -> bool {
    match orchestration_of(es[i as int]) {
        None => true,
        Some(id) => !collapsed_keys.contains(collapse_key_of(id)),
    }
}

/// A run is open: its card shows its agents.
pub open spec fn run_open(collapsed_keys: Seq<Seq<char>>) -> spec_fn(Seq<char>) -> bool {
    |id: Seq<char>| !collapsed_keys.contains(collapse_key_of(id))
}

/// The entry at a position belongs to an open run.
pub open spec fn in_open_run(es: Seq<EntryView>, collapsed_keys: Seq<Seq<char>>) -> spec_fn(usize) -> bool {
    |i: usize|
        orchestration_of(es[i as int]) is Some && !collapsed_keys.contains(
            collapse_key_of(orchestration_of(es[i as int])->0),
        )
}

/// The elements of `xs` whose key is kept, in order.
pub open spec fn kept_members<K>(xs: Seq<usize>, key: spec_fn(usize) -> K, keep: spec_fn(K) -> bool) -> Seq<
    usize,
>
    decreases xs.len(),
{
    if xs.len() == 0 {
        Seq::empty()
    } else {
        let before = kept_members(xs.drop_last(), key, keep);
        if keep(key(xs.last())) {
            before.push(xs.last())
        } else {
            before
        }
    }
}

/// The groups of `xs` by key, each as a multiset, and empty for a key that is not kept.
pub open spec fn kept_group_multisets<K>(
    xs: Seq<usize>,
    key: spec_fn(usize) -> K,
    keep: spec_fn(K) -> bool,
) -> spec_fn(K) -> Multiset<usize> {
    |k: K|
        if keep(k) {
            keyed_members(xs, key, k).to_multiset()
        } else {
            Multiset::empty()
        }
}

/// Grouping `xs` by key and showing only the kept groups shows exactly the
/// elements whose key is kept, each once.
proof fn lemma_kept_groups_partition<K>(xs: Seq<usize>, key: spec_fn(usize) -> K, keep: spec_fn(K) -> bool)
    ensures
        msum(first_keys(xs, key).map_values(kept_group_multisets(xs, key, keep)))
            == kept_members(xs, key, keep).to_multiset(),
    decreases xs.len(),
{
    if xs.len() > 0 {
        let p = xs.drop_last();
        let x = xs.last();
        let kx = key(x);
        let f = kept_group_multisets(p, key, keep);
        let g = kept_group_multisets(xs, key, keep);
        lemma_kept_groups_partition(p, key, keep);
        lemma_first_keys_distinct(p, key);
        assert(xs =~= p.push(x));
        assert forall|k: K| k != kx implies #[trigger] g(k) == f(k) by {
            assert(keyed_members(xs, key, k) == keyed_members(p, key, k));
        }
        assert(keyed_members(xs, key, kx) == keyed_members(p, key, kx).push(x));
        let ks = first_keys(p, key);
        if keep(kx) {
            assert(g(kx) == f(kx).insert(x));
            if ks.contains(kx) {
                lemma_msum_one_grows(ks, f, g, kx, x);
            } else {
                assert forall|j: int| 0 <= j < ks.len() implies f(#[trigger] ks[j]) == g(ks[j]) by {
                    assert(ks[j] != kx);
                }
                lemma_msum_agree(ks, f, g);
                assert(keyed_members(p, key, kx).len() == 0);
                assert(keyed_members(p, key, kx) =~= Seq::<usize>::empty());
                assert(first_keys(xs, key) == ks.push(kx));
                assert(ks.push(kx).map_values(g).drop_last() =~= ks.map_values(g));
                assert(msum(first_keys(xs, key).map_values(g)) =~= kept_members(xs, key, keep).to_multiset());
            }
        } else {
            assert(g(kx) == f(kx));
            assert forall|j: int| 0 <= j < ks.len() implies f(#[trigger] ks[j]) == g(ks[j]) by {
                if ks[j] != kx {
                    assert(g(ks[j]) == f(ks[j]));
                }
            }
            lemma_msum_agree(ks, f, g);
            if !ks.contains(kx) {
                assert(first_keys(xs, key) == ks.push(kx));
                assert(ks.push(kx).map_values(g).drop_last() =~= ks.map_values(g));
                assert(msum(first_keys(xs, key).map_values(g)) =~= msum(ks.map_values(g)));
            }
        }
    }
}

proof fn lemma_open_runs_are_kept(es: Seq<EntryView>, collapsed_keys: Seq<Seq<char>>, j: nat)
    requires
        j <= es.len(),
        es.len() <= usize::MAX,
    ensures
        kept_members(positions_where(j, has_run(es)), run_key(es), run_open(collapsed_keys))
            == positions_where(j, in_open_run(es, collapsed_keys)),
    decreases j,
{
    if j > 0 {
        let k = (j - 1) as nat;
        lemma_open_runs_are_kept(es, collapsed_keys, k);
        assert((k as usize) as int == k);
        let p = positions_where(k, has_run(es));
        let x = k as usize;
        if orchestration_of(es[k as int]) is Some {
            assert(positions_where(j, has_run(es)) == p.push(x));
            assert(p.push(x).drop_last() =~= p);
            assert(p.push(x).last() == x);
        } else {
            assert(positions_where(j, has_run(es)) == p);
        }
    }
}

proof fn lemma_positions_split(
    n: nat,
    p: spec_fn(usize) -> bool,
    q: spec_fn(usize) -> bool,
    r: spec_fn(usize) -> bool,
)
    requires
        forall|i: usize| #[trigger] r(i) == (p(i) || q(i)),
        forall|i: usize| !(#[trigger] p(i) && q(i)),
    ensures
        positions_where(n, p).to_multiset().add(positions_where(n, q).to_multiset())
            == positions_where(n, r).to_multiset(),
    decreases n,
{
    if n > 0 {
        let k = (n - 1) as nat;
        lemma_positions_split(k, p, q, r);
        let x = k as usize;
        assert(r(x) == (p(x) || q(x)));
        assert(!(p(x) && q(x)));
        assert(positions_where(n, p).to_multiset().add(positions_where(n, q).to_multiset())
            =~= positions_where(n, r).to_multiset());
    } else {
        assert(positions_where(0, p).to_multiset() =~= Multiset::<usize>::empty());
    }
}

proof fn lemma_positions_once(n: nat, r: spec_fn(usize) -> bool, i: usize)
    requires
        n <= usize::MAX + 1,
    ensures
        positions_where(n, r).to_multiset().count(i) == if i < n && r(i) {
            1nat
        } else {
            0nat
        },
    decreases n,
{
    if n > 0 {
        let k = (n - 1) as nat;
        lemma_positions_once(k, r, i);
        assert((k as usize) as int == k);
    } else {
        assert(positions_where(0, r).to_multiset() =~= Multiset::<usize>::empty());
    }
}

/// The orchestration section shows every entry in exactly one row, unless
/// its run is collapsed: an entry of an open run in an agent row of its run,
/// an entry of no run in a row after all runs, an entry of a collapsed run in
/// no row (its run keeps only its card). No entry is lost and none is shown
/// twice, whatever the order of runs, repositories and agents.
pub proof fn law_layout_shows_every_entry_once(
    es: Seq<EntryView>,
    collapsed_keys: Seq<Seq<char>>,
    active: Option<(usize, usize, PaneId)>,
)
    requires
        es.len() <= usize::MAX,
    ensures
        forall|i: usize|
            #[trigger] shown_entries(layout_items(es, collapsed_keys, active)).to_multiset().count(
                i,
            ) == if i < es.len() && entry_shown(es, collapsed_keys, i) {
                1nat
            } else {
                0nat
            },
{
    let n = es.len();
    let xs = positions_where(n, has_run(es));
    let runs = runs_of(es);
    let sorted = sorted_by(runs, run_before());
    let ss = sorted.map_values(|run: RunView| run_items(es, run, collapsed_keys, active));
    let legacy = legacy_members(es);
    let legacy_rows = legacy.map_values(|i: usize| ItemView::LegacyAgent { entry_index: i });
    let f = |s: Seq<ItemView>| shown_entries(s).to_multiset();
    let h = |run: RunView| shown_entries(run_items(es, run, collapsed_keys, active)).to_multiset();
    let keep = run_open(collapsed_keys);
    assert(layout_items(es, collapsed_keys, active) == concat(ss) + legacy_rows);
    lemma_shown_append(concat(ss), legacy_rows);
    lemma_shown_legacy_rows(legacy);
    lemma_shown_concat(ss);
    assert(ss.map_values(f) =~= sorted.map_values(h));
    lemma_msum_sorted_by(runs, run_before(), h);
    let order = run_order(es);
    let key = run_key(es);
    lemma_run_members_are_group(es, Seq::empty());
    assert(runs.map_values(h) =~= first_keys(xs, key).map_values(kept_group_multisets(xs, key, keep)))
        by {
        assert forall|j: int| 0 <= j < order.len() implies #[trigger] runs.map_values(h)[j]
            == first_keys(xs, key).map_values(kept_group_multisets(xs, key, keep))[j] by {
            let id = order[j];
            let run = run_of(es, id);
            lemma_run_members_are_group(es, id);
            if collapsed_keys.contains(collapse_key_of(id)) {
                law_collapsed_run_shows_only_its_card(es, run, collapsed_keys, active);
                let items = run_items(es, run, collapsed_keys, active);
                assert(items =~= seq![items[0]] + seq![ItemView::RunFooter]);
                lemma_shown_after_header(items[0], seq![ItemView::RunFooter]);
                lemma_shown_after_header(ItemView::RunFooter, Seq::<ItemView>::empty());
                assert(seq![ItemView::RunFooter] + Seq::<ItemView>::empty() =~= seq![ItemView::RunFooter]);
                assert(shown_entries(Seq::<ItemView>::empty()) == Seq::<usize>::empty());
                assert(shown_entries(items).to_multiset() =~= Multiset::<usize>::empty());
            } else {
                lemma_shown_open_run(es, run, collapsed_keys, active);
            }
        }
    }
    lemma_kept_groups_partition(xs, key, keep);
    lemma_open_runs_are_kept(es, collapsed_keys, n);
    lemma_append_multiset(shown_entries(concat(ss)), legacy);
    let open = in_open_run(es, collapsed_keys);
    let none = |i: usize| orchestration_of(es[i as int]) is None;
    let shown = |i: usize| entry_shown(es, collapsed_keys, i);
    lemma_positions_split(n, open, none, shown);
    assert forall|i: usize|
        #[trigger] shown_entries(layout_items(es, collapsed_keys, active)).to_multiset().count(i)
            == if i < es.len() && entry_shown(es, collapsed_keys, i) {
            1nat
        } else {
            0nat
        } by {
        lemma_positions_once(n, shown, i);
    }
}

} // verus!
