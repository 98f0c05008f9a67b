use crate::order::seq_views;
use crate::store::{batch_upsert_seq, keep_when_missing, last_match, record_valid, same_key,
    seq_has_key, seq_lookup, seq_wf, FolderRecord, InventoryStore, StoreError,
    lemma_batch_lookup};
use vstd::prelude::*;

verus! {

/// The size carried by the last observation of a folder name, if the name
/// was observed at all.
pub open spec fn last_size(observed: Seq<(String, u64)>, name: Seq<char>) -> Option<u64>
    decreases observed.len(),
{
    if observed.len() == 0 {
        None
    } else if observed.last().0@ == name {
        Some(observed.last().1)
    } else {
        last_size(observed.drop_last(), name)
    }
}

/// A name was observed exactly when some observation carries it.
pub proof fn lemma_last_size_contains(observed: Seq<(String, u64)>, name: Seq<char>)
    ensures
        (last_size(observed, name) is Some) == exists|i: int|
            0 <= i < observed.len() && #[trigger] observed[i].0@ == name,
    decreases observed.len(),
{
    if observed.len() > 0 {
        lemma_last_size_contains(observed.drop_last(), name)
        ;
        if last_size(observed, name) is Some {
            if observed.last().0@ == name {
                assert(observed[observed.len() - 1].0@ == name);
            } else {
                let i = choose|i: int|
                    0 <= i < observed.drop_last().len() && #[trigger] observed.drop_last()[i].0@
                        == name;
                assert(observed[i].0@ == name);
            }
        } else {
            assert forall|i: int|
                0 <= i < observed.len() implies #[trigger] observed[i].0@ != name by {
                if i < observed.len() - 1 {
                    assert(observed.drop_last()[i].0@ != name);
                }
            }
        }
    }
}

/// Records built from one scan's observations match the batch's winning
/// entry per key: exactly the observed names under the scanned category.
pub proof fn lemma_scan_records_match(
    records: Seq<FolderRecord>,
    observed: Seq<(String, u64)>,
    ft: Seq<char>,
    now: i64,
    kt: Seq<char>,
    kn: Seq<char>,
)
    requires
        records.len() == observed.len(),
        forall|i: int|
            0 <= i < records.len() ==> (#[trigger] records[i].folder_type@ == ft
                && records[i].folder_name@ == observed[i].0@ && records[i].folder_size
                == observed[i].1 && records[i].last_modified == now),
    ensures
        kt != ft ==> last_match(records, kt, kn) is None,
        kt == ft ==> ((last_match(records, kt, kn) is Some) == (last_size(observed, kn) is Some)),
        kt == ft && last_match(records, kt, kn) is Some ==> {
            &&& last_match(records, kt, kn)->0.folder_size == last_size(observed, kn)->0
            &&& last_match(records, kt, kn)->0.last_modified == now
        },
    decreases records.len(),
{
    if records.len() > 0 {
        assert(records[records.len() - 1].folder_type@ == ft);
        lemma_scan_records_match(
            records.drop_last(),
            observed.drop_last(),
            ft,
            now,
            kt,
            kn,
        );
    }
}

/// An element of a filtered sequence is an element of the original.
pub proof fn lemma_filter_elem_of<A>(s: Seq<A>, pred: spec_fn(A) -> bool, j: int)
    requires
        0 <= j < s.filter(pred).len(),
    ensures
        s.contains(s.filter(pred)[j]),
    decreases s.len(),
{
    broadcast use vstd::seq::Seq::lemma_filter_push;

    if s.len() == 0 {
        assert(s.filter(pred) =~= Seq::<A>::empty()) by {
            s.lemma_filter_len(pred);
        }
    } else {
        let front = s.drop_last();
        assert(front.push(s.last()) =~= s);
        front.lemma_filter_push(s.last(), pred);
        if pred(s.last()) {
            if j < s.filter(pred).len() - 1 {
                lemma_filter_elem_of(front, pred, j);
                let i = front.lemma_contains_to_index(front.filter(pred)[j]);
                assert(s[i] == front[i]);
            } else {
                assert(s.filter(pred)[j] == s.last());
            }
        } else {
            lemma_filter_elem_of(front, pred, j);
            let i = front.lemma_contains_to_index(front.filter(pred)[j]);
            assert(s[i] == front[i]);
        }
    }
}

/// Filtering a well-formed record sequence leaves it well formed.
pub proof fn lemma_filter_wf(s: Seq<FolderRecord>, pred: spec_fn(FolderRecord) -> bool)
    requires
        seq_wf(s),
    ensures
        seq_wf(s.filter(pred)),
{
    let f = s.filter(pred);
    assert forall|x: int, y: int| 0 <= x < y < f.len() implies !same_key(f[x], f[y]) by {
        lemma_filter_elem_of(s, pred, x);
        lemma_filter_elem_of(s, pred, y);
        let ix = s.lemma_contains_to_index(f[x]);
        let iy = s.lemma_contains_to_index(f[y]);
        if ix == iy {
            // both positions trace to one original record, so walk the
            // filter itself
            if same_key(f[x], f[y]) {
                lemma_filter_distinct_positions(s, pred, x, y);
            }
        } else {
            assert(!same_key(s[if ix < iy { ix } else { iy }], s[if ix < iy { iy } else { ix }]));
        }
    }
}

/// Two positions of a filtered well-formed sequence never share a key.
proof fn lemma_filter_distinct_positions(
    s: Seq<FolderRecord>,
    pred: spec_fn(FolderRecord) -> bool,
    x: int,
    y: int,
)
    requires
        seq_wf(s),
        0 <= x < y < s.filter(pred).len(),
    ensures
        !same_key(s.filter(pred)[x], s.filter(pred)[y]),
    decreases s.len(),
{
    broadcast use vstd::seq::Seq::lemma_filter_push;

    let f = s.filter(pred);
    if s.len() == 0 {
        s.lemma_filter_len(pred);
    } else {
        let front = s.drop_last();
        assert(front.push(s.last()) =~= s);
        front.lemma_filter_push(s.last(), pred);
        assert(seq_wf(front));
        if pred(s.last()) {
            if y < f.len() - 1 {
                lemma_filter_distinct_positions(front, pred, x, y);
            } else {
                // f[y] is the last element of s; f[x] comes from the front
                lemma_filter_elem_of(front, pred, x);
                let ix = front.lemma_contains_to_index(front.filter(pred)[x]);
                assert(s[ix] == front[ix]);
                assert(!same_key(s[ix], s[s.len() - 1]));
            }
        } else {
            lemma_filter_distinct_positions(front, pred, x, y);
        }
    }
}

/// Removing the missing names deletes exactly the unobserved records of the
/// category and touches nothing else.
pub proof fn lemma_remove_missing_lookup(
    s: Seq<FolderRecord>,
    ft: Seq<char>,
    live: Seq<Seq<char>>,
    kt: Seq<char>,
    kn: Seq<char>,
)
    requires
        seq_wf(s),
    ensures
        seq_wf(s.filter(keep_when_missing(ft, live))),
        (kt == ft && !live.contains(kn)) ==> seq_lookup(
            s.filter(keep_when_missing(ft, live)),
            kt,
            kn,
        ) is None,
        (kt != ft || live.contains(kn)) ==> seq_lookup(
            s.filter(keep_when_missing(ft, live)),
            kt,
            kn,
        ) == seq_lookup(s, kt, kn),
{
    let pred = keep_when_missing(ft, live);
    let f = s.filter(pred);
    lemma_filter_wf(s, pred);
    if kt == ft && !live.contains(kn) {
        if seq_has_key(f, kt, kn) {
            let j = choose|j: int|
                0 <= j < f.len() && f[j].folder_type@ == kt && f[j].folder_name@ == kn;
            s.lemma_filter_pred(pred, j);
            assert(pred(f[j]));
            assert(false);
        }
    } else {
        if seq_has_key(s, kt, kn) {
            let i = choose|i: int|
                0 <= i < s.len() && s[i].folder_type@ == kt && s[i].folder_name@ == kn;
            assert(pred(s[i]));
            s.lemma_filter_contains(pred, i);
            let j = f.lemma_contains_to_index(s[i]);
            assert(seq_has_key(f, kt, kn));
            let jj = crate::store::seq_key_index(f, kt, kn);
            assert(0 <= jj < f.len() && f[jj].folder_type@ == kt && f[jj].folder_name@ == kn);
            if jj != j {
                assert(!same_key(f[if jj < j { jj } else { j }], f[if jj < j { j } else { jj }]));
                assert(false);
            }
            let ii = crate::store::seq_key_index(s, kt, kn);
            if ii != i {
                assert(!same_key(s[if ii < i { ii } else { i }], s[if ii < i { i } else { ii }]));
                assert(false);
            }
            assert(seq_lookup(f, kt, kn) == Some(s[i]));
            assert(seq_lookup(s, kt, kn) == Some(s[i]));
        } else {
            if seq_has_key(f, kt, kn) {
                let j = choose|j: int|
                    0 <= j < f.len() && f[j].folder_type@ == kt && f[j].folder_name@ == kn;
                lemma_filter_elem_of(s, pred, j);
                let i = s.lemma_contains_to_index(f[j]);
                assert(seq_has_key(s, kt, kn));
                assert(false);
            }
        }
    }
}

/// Brings the store into agreement with one completed scan of a category:
/// upserts every observation with the scan time, then, only after the whole
/// batch succeeded and only when something was observed, deletes the
/// category's unobserved records. A rejected batch deletes nothing.
pub fn reconcile_scan(
    store: &mut InventoryStore,
    folder_type: &str,
    observed: &Vec<(String, u64)>,
    now: i64,
) -> (r: Result<(), StoreError>)
    requires
        old(store).wf(),
        folder_type@.len() > 0,
    ensures
        final(store).wf(),
        (r is Ok) == (forall|i: int|
            0 <= i < observed@.len() ==> #[trigger] observed@[i].0@.len() > 0),
        r is Err ==> final(store).recs() == old(store).recs() && r == Result::<
            (),
            StoreError,
        >::Err(StoreError::Malformed),
        r is Ok && observed@.len() == 0 ==> final(store).recs() == old(store).recs(),
        r is Ok && observed@.len() > 0 ==> forall|kt: Seq<char>, kn: Seq<char>|
            kt != folder_type@ ==> #[trigger] seq_lookup(final(store).recs(), kt, kn)
                == seq_lookup(old(store).recs(), kt, kn),
        r is Ok && observed@.len() > 0 ==> forall|kn: Seq<char>|
            last_size(observed@, kn) is None ==> #[trigger] seq_lookup(
                final(store).recs(),
                folder_type@,
                kn,
            ) is None,
        r is Ok && observed@.len() > 0 ==> forall|kn: Seq<char>|
            last_size(observed@, kn) is Some ==> {
                let got = #[trigger] seq_lookup(final(store).recs(), folder_type@, kn);
                &&& got is Some
                &&& got->0.folder_size == last_size(observed@, kn)->0
                &&& got->0.last_modified == now
                &&& got->0.updated_at == now
                &&& got->0.created_at == (match seq_lookup(
                    old(store).recs(),
                    folder_type@,
                    kn,
                ) {
                    Some(p) => p.created_at,
                    None => now,
                })
            },
{
    let ghost s0 = store.recs();
    let mut records: Vec<FolderRecord> = Vec::new();
    let mut names: Vec<String> = Vec::new();
    let mut i: usize = 0;
    while i < observed.len()
        invariant
            i <= observed@.len(),
            records@.len() == i,
            names@.len() == i,
            forall|j: int|
                0 <= j < i ==> (#[trigger] records@[j].folder_type@ == folder_type@
                    && records@[j].folder_name@ == observed@[j].0@ && records@[j].folder_size
                    == observed@[j].1 && records@[j].last_modified == now),
            forall|j: int| 0 <= j < i ==> #[trigger] names@[j] == observed@[j].0,
        decreases observed@.len() - i,
    {
        let name = observed[i].0.clone();
        let size = observed[i].1;
        records.push(
            FolderRecord {
                id: None,
                folder_type: folder_type.to_owned(),
                folder_name: name.clone(),
                folder_size: size,
                last_modified: now,
                created_at: now,
                updated_at: now,
            },
        );
        names.push(name);
        i += 1;
    }
    let outcome = store.batch_upsert_folders(&records, now);
    match outcome {
        Err(e) => {
            proof {
                if forall|j: int|
                    0 <= j < observed@.len() ==> #[trigger] observed@[j].0@.len() > 0 {
                    assert forall|j: int|
                        0 <= j < records@.len() implies record_valid(
                        #[trigger] records@[j],
                    ) by {
                        assert(observed@[j].0@.len() > 0);
                    }
                }
            }
            Err(e)
        },
        Ok(()) => {
            proof {
                assert forall|j: int|
                    0 <= j < observed@.len() implies #[trigger] observed@[j].0@.len() > 0 by {
                    assert(record_valid(records@[j]));
                }
            }
            let ghost mid = store.recs();
            store.remove_missing_folders(folder_type, &names);
            proof {
                let ghost live = seq_views(names@);
                assert forall|kn: Seq<char>| live.contains(kn) == (last_size(
                    observed@,
                    kn,
                ) is Some) by {
                    lemma_last_size_contains(observed@, kn);
                    if live.contains(kn) {
                        let j = choose|j: int| 0 <= j < live.len() && live[j] == kn;
                        assert(observed@[j].0@ == kn);
                    }
                    if exists|j: int| 0 <= j < observed@.len() && #[trigger] observed@[j].0@
                        == kn {
                        let j = choose|j: int|
                            0 <= j < observed@.len() && #[trigger] observed@[j].0@ == kn;
                        assert(live[j] == kn);
                    }
                }
                if observed@.len() > 0 {
                    assert forall|kt: Seq<char>, kn: Seq<char>|
                        kt != folder_type@ implies #[trigger] seq_lookup(
                        store.recs(),
                        kt,
                        kn,
                    ) == seq_lookup(s0, kt, kn) by {
                        lemma_scan_records_match(records@, observed@, folder_type@, now, kt, kn);
                        lemma_batch_lookup(s0, records@, now, kt, kn);
                        lemma_remove_missing_lookup(mid, folder_type@, live, kt, kn);
                    }
                    assert forall|kn: Seq<char>|
                        last_size(observed@, kn) is None implies #[trigger] seq_lookup(
                        store.recs(),
                        folder_type@,
                        kn,
                    ) is None by {
                        lemma_remove_missing_lookup(mid, folder_type@, live, folder_type@, kn);
                    }
                    assert forall|kn: Seq<char>|
                        last_size(observed@, kn) is Some implies {
                        let got = #[trigger] seq_lookup(store.recs(), folder_type@, kn);
                        &&& got is Some
                        &&& got->0.folder_size == last_size(observed@, kn)->0
                        &&& got->0.last_modified == now
                        &&& got->0.updated_at == now
                        &&& got->0.created_at == (match seq_lookup(s0, folder_type@, kn) {
                            Some(p) => p.created_at,
                            None => now,
                        })
                    } by {
                        lemma_scan_records_match(
                            records@,
                            observed@,
                            folder_type@,
                            now,
                            folder_type@,
                            kn,
                        );
                        lemma_batch_lookup(s0, records@, now, folder_type@, kn);
                        lemma_remove_missing_lookup(mid, folder_type@, live, folder_type@, kn);
                    }
                }
            }
            Ok(())
        },
    }
}

/// A folder first observed by one scan keeps, across a later rescan that
/// observes it again, the `created_at` stamped by the scan that first
/// observed it.
pub proof fn lemma_created_at_first_observation(
    s: Seq<FolderRecord>,
    records1: Seq<FolderRecord>,
    t1: i64,
    records2: Seq<FolderRecord>,
    t2: i64,
    kt: Seq<char>,
    kn: Seq<char>,
)
    requires
        seq_wf(s),
        !seq_has_key(s, kt, kn),
        last_match(records1, kt, kn) is Some,
        last_match(records2, kt, kn) is Some,
    ensures
        seq_lookup(
            batch_upsert_seq(batch_upsert_seq(s, records1, t1), records2, t2),
            kt,
            kn,
        ) is Some,
        seq_lookup(
            batch_upsert_seq(batch_upsert_seq(s, records1, t1), records2, t2),
            kt,
            kn,
        )->0.created_at == t1,
{
    lemma_batch_lookup(s, records1, t1, kt, kn);
    lemma_batch_lookup(batch_upsert_seq(s, records1, t1), records2, t2, kt, kn);
}

} // verus!
