use crate::order::{char_seq_le, lex_le, lemma_lex_le_connected, lemma_lex_le_trans, seq_views,
    str_eq, str_le};
use vstd::prelude::*;
use vstd::relations::sorted_by;

verus! {

/// One measured folder: its identity `(folder_type, folder_name)`, the byte
/// count found at the last measurement, and lifecycle timestamps in seconds
/// since the Unix epoch.
pub struct FolderRecord {
    pub id: Option<i64>,
    pub folder_type: String,
    pub folder_name: String,
    pub folder_size: u64,
    pub last_modified: i64,
    pub created_at: i64,
    pub updated_at: i64,
}

impl Clone for FolderRecord {
    fn clone(&self) -> (res: Self)
        ensures
            res == *self,
    {
        FolderRecord {
            id: self.id,
            folder_type: self.folder_type.clone(),
            folder_name: self.folder_name.clone(),
            folder_size: self.folder_size,
            last_modified: self.last_modified,
            created_at: self.created_at,
            updated_at: self.updated_at,
        }
    }
}

/// Failures of the persistent store: unreadable storage, stored data that
/// cannot be parsed, and a malformed record handed to an upsert.
#[derive(Clone, Copy, Debug, PartialEq, Eq, Structural)]
pub enum StoreError {
    Io,
    Corrupt,
    Malformed,
}

/// A record may be upserted only when both halves of its key are non-empty.
pub open spec fn record_valid(r: FolderRecord) -> bool {
    r.folder_type@.len() > 0 && r.folder_name@.len() > 0
}

/// Two records collide when they share both key components.
pub open spec fn same_key(a: FolderRecord, b: FolderRecord) -> bool {
    a.folder_type@ == b.folder_type@ && a.folder_name@ == b.folder_name@
}

/// A record sequence is well formed when no two records share a key.
pub open spec fn seq_wf(s: Seq<FolderRecord>) -> bool {
    forall|i: int, j: int| 0 <= i < j < s.len() ==> !same_key(s[i], s[j])
}

pub open spec fn seq_has_key(s: Seq<FolderRecord>, ft: Seq<char>, name: Seq<char>) -> bool {
    exists|i: int|
        0 <= i < s.len() && s[i].folder_type@ == ft && s[i].folder_name@ == name
}

pub open spec fn seq_key_index(s: Seq<FolderRecord>, ft: Seq<char>, name: Seq<char>) -> int {
    choose|i: int| 0 <= i < s.len() && s[i].folder_type@ == ft && s[i].folder_name@ == name
}

/// The record a lookup by key finds, if any.
pub open spec fn seq_lookup(s: Seq<FolderRecord>, ft: Seq<char>, name: Seq<char>) -> Option<
    FolderRecord,
> {
    if seq_has_key(s, ft, name) {
        Some(s[seq_key_index(s, ft, name)])
    } else {
        None
    }
}

/// The record stored when a key is first seen: the caller's measurement with
/// both lifecycle timestamps set to the time of the upsert.
pub open spec fn inserted_record(record: FolderRecord, now: i64) -> FolderRecord {
    FolderRecord { id: None, created_at: now, updated_at: now, ..record }
}

/// The record stored when a key is seen again: the new measurement, the
/// original `created_at`, and `updated_at` advanced to the time of the upsert.
pub open spec fn updated_record(prev: FolderRecord, record: FolderRecord, now: i64) -> FolderRecord {
    FolderRecord {
        folder_size: record.folder_size,
        last_modified: record.last_modified,
        updated_at: now,
        ..prev
    }
}

/// What one upsert does to the stored sequence.
pub open spec fn upsert_seq(s: Seq<FolderRecord>, record: FolderRecord, now: i64) -> Seq<
    FolderRecord,
> {
    if seq_has_key(s, record.folder_type@, record.folder_name@) {
        let i = seq_key_index(s, record.folder_type@, record.folder_name@);
        s.update(i, updated_record(s[i], record, now))
    } else {
        s.push(inserted_record(record, now))
    }
}

/// What a batch of upserts, applied left to right, does to the stored sequence.
pub open spec fn batch_upsert_seq(s: Seq<FolderRecord>, records: Seq<FolderRecord>, now: i64) -> Seq<
    FolderRecord,
>
    decreases records.len(),
{
    if records.len() == 0 {
        s
    } else {
        batch_upsert_seq(upsert_seq(s, records[0], now), records.drop_first(), now)
    }
}

/// The durable cache of folder measurements, keyed by
/// `(folder_type, folder_name)`.
pub struct InventoryStore {
    records: Vec<FolderRecord>,
}

impl InventoryStore {
    /// The stored records, in storage order.
    pub closed spec fn recs(self) -> Seq<FolderRecord> {
        self.records@
    }

    /// No two stored records share a key.
    pub open spec fn wf(self) -> bool {
        seq_wf(self.recs())
    }

    pub fn new() -> (s: Self)
        ensures
            s.wf(),
            s.recs() == Seq::<FolderRecord>::empty(),
    {
        let s = InventoryStore { records: Vec::new() };
        proof {
            assert(s.recs() =~= Seq::<FolderRecord>::empty());
        }
        s
    }

    /// The index of the record with the given key, if one is stored.
    fn find(&self, folder_type: &str, folder_name: &str) -> (r: Option<usize>)
        requires
            self.wf(),
        ensures
            match r {
                Some(i) => i < self.recs().len() && self.recs()[i as int].folder_type@
                    == folder_type@ && self.recs()[i as int].folder_name@ == folder_name@,
                None => !seq_has_key(self.recs(), folder_type@, folder_name@),
            },
    {
        let mut i: usize = 0;
        while i < self.records.len()
            invariant
                i <= self.recs().len(),
                forall|j: int|
                    0 <= j < i ==> !(self.recs()[j].folder_type@ == folder_type@
                        && self.recs()[j].folder_name@ == folder_name@),
            decreases self.recs().len() - i,
        {
            let type_hit = str_eq(self.records[i].folder_type.as_str(), folder_type);
            let name_hit = str_eq(self.records[i].folder_name.as_str(), folder_name);
            if type_hit && name_hit {
                return Some(i);
            }
            i += 1;
        }
        None
    }

    /// Inserts the measurement under a new key, or refreshes the stored
    /// record, preserving its original `created_at`.
    pub fn upsert_folder(&mut self, record: &FolderRecord, now: i64)
        requires
            old(self).wf(),
        ensures
            final(self).wf(),
            final(self).recs() == upsert_seq(old(self).recs(), *record, now),
    {
        let found = self.find(record.folder_type.as_str(), record.folder_name.as_str());
        match found {
            Some(i) => {
                let ghost s = self.recs();
                let ghost pos = i as int;
                let prev = self.records.remove(i);
                let merged = FolderRecord {
                    id: prev.id,
                    folder_type: prev.folder_type,
                    folder_name: prev.folder_name,
                    folder_size: record.folder_size,
                    last_modified: record.last_modified,
                    created_at: prev.created_at,
                    updated_at: now,
                };
                self.records.insert(i, merged);
                proof {
                    let ghost ki = seq_key_index(s, record.folder_type@, record.folder_name@);
                    assert(s[pos].folder_type@ == record.folder_type@ && s[pos].folder_name@
                        == record.folder_name@);
                    assert(seq_has_key(s, record.folder_type@, record.folder_name@));
                    assert(0 <= ki < s.len() && s[ki].folder_type@ == record.folder_type@
                        && s[ki].folder_name@ == record.folder_name@);
                    if ki != pos {
                        assert(!same_key(s[if ki < pos {
                            ki
                        } else {
                            pos
                        }], s[if ki < pos {
                            pos
                        } else {
                            ki
                        }]));
                        assert(false);
                    }
                    assert(self.recs() =~= s.update(pos, updated_record(s[pos], *record, now)));
                    assert forall|x: int, y: int|
                        0 <= x < y < self.recs().len() implies !same_key(
                        self.recs()[x],
                        self.recs()[y],
                    ) by {
                        assert(!same_key(s[x], s[y]));
                    }
                }
            },
            None => {
                let ghost s = self.recs();
                let fresh = FolderRecord {
                    id: None,
                    folder_type: record.folder_type.clone(),
                    folder_name: record.folder_name.clone(),
                    folder_size: record.folder_size,
                    last_modified: record.last_modified,
                    created_at: now,
                    updated_at: now,
                };
                self.records.push(fresh);
                proof {
                    assert(self.recs() =~= s.push(inserted_record(*record, now)));
                    assert forall|x: int, y: int|
                        0 <= x < y < self.recs().len() implies !same_key(
                        self.recs()[x],
                        self.recs()[y],
                    ) by {
                        if y < s.len() {
                            assert(!same_key(s[x], s[y]));
                        } else {
                            assert(self.recs()[y] == inserted_record(*record, now));
                        }
                    }
                }
            },
        }
    }

    /// Applies the upserts left to right as one all-or-nothing batch: if any
    /// record is malformed, nothing is written.
    pub fn batch_upsert_folders(&mut self, records: &Vec<FolderRecord>, now: i64) -> (r: Result<
        (),
        StoreError,
    >)
        requires
            old(self).wf(),
        ensures
            final(self).wf(),
            (r is Ok) == (forall|i: int| 0 <= i < records@.len() ==> record_valid(records@[i])),
            r is Ok ==> final(self).recs() == batch_upsert_seq(old(self).recs(), records@, now),
            r is Err ==> final(self).recs() == old(self).recs() && r == Result::<
                (),
                StoreError,
            >::Err(StoreError::Malformed),
    {
        let mut i: usize = 0;
        while i < records.len()
            invariant
                i <= records@.len(),
                *self == *old(self),
                self.wf(),
                forall|j: int| 0 <= j < i ==> record_valid(records@[j]),
            decreases records@.len() - i,
        {
            if records[i].folder_type.as_str().is_empty() || records[
                i
            ].folder_name.as_str().is_empty() {
                return Err(StoreError::Malformed);
            }
            i += 1;
        }
        let ghost s0 = self.recs();
        let mut k: usize = 0;
        proof {
            assert(records@.take(0) =~= Seq::<FolderRecord>::empty());
        }
        while k < records.len()
            invariant
                k <= records@.len(),
                self.wf(),
                self.recs() == batch_upsert_seq(s0, records@.take(k as int), now),
            decreases records@.len() - k,
        {
            self.upsert_folder(&records[k], now);
            proof {
                lemma_batch_upsert_snoc(s0, records@.take(k as int), records@[k as int], now);
                assert(records@.take(k as int + 1) =~= records@.take(k as int).push(
                    records@[k as int],
                ));
            }
            k += 1;
        }
        proof {
            assert(records@.take(records@.len() as int) =~= records@);
        }
        Ok(())
    }

    /// Deletes every record of the category whose name was not observed
    /// alive; an empty observation list deletes nothing, so a failed scan
    /// cannot wipe a category.
    pub fn remove_missing_folders(&mut self, folder_type: &str, existing_folders: &Vec<String>)
        requires
            old(self).wf(),
        ensures
            final(self).wf(),
            existing_folders@.len() == 0 ==> final(self).recs() == old(self).recs(),
            existing_folders@.len() > 0 ==> final(self).recs() == old(self).recs().filter(
                keep_when_missing(folder_type@, seq_views(existing_folders@)),
            ),
    {
        broadcast use vstd::seq::Seq::lemma_filter_push;

        if existing_folders.len() == 0 {
            return ;
        }
        let ghost pred = keep_when_missing(folder_type@, seq_views(existing_folders@));
        let ghost s0 = self.recs();
        let mut kept: Vec<FolderRecord> = Vec::new();
        let mut i: usize = 0;
        proof {
            assert(s0.take(0) =~= Seq::<FolderRecord>::empty());
            assert(s0.take(0).filter(pred) =~= Seq::<FolderRecord>::empty());
        }
        while i < self.records.len()
            invariant
                i <= s0.len(),
                pred == keep_when_missing(folder_type@, seq_views(existing_folders@)),
                s0 == old(self).recs(),
                self.recs() == s0,
                self.wf(),
                kept@ == s0.take(i as int).filter(pred),
                forall|x: int|
                    0 <= x < kept@.len() ==> exists|j: int|
                        0 <= j < i && #[trigger] kept@[x] == #[trigger] s0[j],
                seq_wf(kept@),
            decreases s0.len() - i,
        {
            let ghost kept0 = kept@;
            let type_match = str_eq(self.records[i].folder_type.as_str(), folder_type);
            let mut alive = false;
            if type_match {
                alive = contains_string(existing_folders, self.records[i].folder_name.as_str());
            }
            if !type_match || alive {
                let copy = self.records[i].clone();
                kept.push(copy);
                proof {
                    assert(kept@ =~= kept0.push(s0[i as int]));
                    assert forall|x: int, y: int|
                        0 <= x < y < kept@.len() implies !same_key(kept@[x], kept@[y]) by {
                        if y < kept0.len() {
                            assert(!same_key(kept0[x], kept0[y]));
                        } else {
                            let j = choose|j: int| 0 <= j < i && kept0[x] == s0[j];
                            assert(!same_key(s0[j], s0[i as int]));
                        }
                    }
                }
            }
            proof {
                if !type_match || alive {
                    assert(pred(s0[i as int]));
                } else {
                    assert(!pred(s0[i as int]));
                }
                assert(s0.take(i as int + 1) =~= s0.take(i as int).push(s0[i as int]));
                s0.take(i as int).lemma_filter_push(s0[i as int], pred);
            }
            i += 1;
        }
        proof {
            assert(s0.take(s0.len() as int) =~= s0);
        }
        self.records = kept;
    }


    /// All records of the category, ordered by folder name ascending.
    pub fn get_folders_by_type(&self, folder_type: &str) -> (r: Vec<FolderRecord>)
        ensures
            r@.to_multiset() == self.recs().filter(of_type(folder_type@)).to_multiset(),
            sorted_by(names_of(r@), char_seq_le()),
    {
        let ghost pred = of_type(folder_type@);
        let ghost s0 = self.recs();
        let mut picked: Vec<FolderRecord> = Vec::new();
        let mut i: usize = 0;
        proof {
            assert(s0.take(0) =~= Seq::<FolderRecord>::empty());
            assert(s0.take(0).filter(pred) =~= Seq::<FolderRecord>::empty());
        }
        while i < self.records.len()
            invariant
                i <= s0.len(),
                pred == of_type(folder_type@),
                s0 == self.recs(),
                picked@ == s0.take(i as int).filter(pred),
            decreases s0.len() - i,
        {
            if str_eq(self.records[i].folder_type.as_str(), folder_type) {
                let copy = self.records[i].clone();
                picked.push(copy);
            }
            proof {
                assert(s0.take(i as int + 1) =~= s0.take(i as int).push(s0[i as int]));
                s0.take(i as int).lemma_filter_push(s0[i as int], pred);
            }
            i += 1;
        }
        proof {
            assert(s0.take(s0.len() as int) =~= s0);
        }
        sort_records_by_name(&picked)
    }


    /// Rebuilds the store from raw persisted rows, rejecting as corrupt any
    /// row that does not parse and any duplicated key.
    pub fn load_from_rows(rows: &Vec<RawRow>) -> (r: Result<InventoryStore, StoreError>)
        ensures
            match r {
                Ok(store) => store.wf() && rows_keys_unique(rows@) && (forall|i: int|
                    0 <= i < rows@.len() ==> row_valid(rows@[i])) && store.recs()
                    == rows@.map_values(|row: RawRow| row_to_record(row)),
                Err(e) => e == StoreError::Corrupt && !(rows_keys_unique(rows@) && (forall|i: int|
                    0 <= i < rows@.len() ==> row_valid(rows@[i]))),
            },
    {
        let ghost conv = |row: RawRow| row_to_record(row);
        let mut store = InventoryStore::new();
        let mut i: usize = 0;
        proof {
            assert(rows@.take(0).map_values(conv) =~= Seq::<FolderRecord>::empty());
        }
        while i < rows.len()
            invariant
                i <= rows@.len(),
                conv == (|row: RawRow| row_to_record(row)),
                store.wf(),
                store.recs() == rows@.take(i as int).map_values(conv),
                forall|j: int| 0 <= j < i ==> row_valid(rows@[j]),
                forall|j: int|
                    0 <= j < i ==> #[trigger] store.recs()[j] == row_to_record(rows@[j]),
            decreases rows@.len() - i,
        {
            let row = &rows[i];
            if row.folder_size < 0 {
                return Err(StoreError::Corrupt);
            }
            let lm = parse_timestamp(row.last_modified.as_str());
            let ca = parse_timestamp(row.created_at.as_str());
            let ua = parse_timestamp(row.updated_at.as_str());
            let (lm, ca, ua) = match (lm, ca, ua) {
                (Some(a), Some(b), Some(c)) => (a, b, c),
                _ => {
                    return Err(StoreError::Corrupt);
                },
            };
            if store.find(row.folder_type.as_str(), row.folder_name.as_str()).is_some() {
                proof {
                    let k = choose|k: int|
                        0 <= k < store.recs().len() && store.recs()[k].folder_type@
                            == rows@[i as int].folder_type@ && store.recs()[k].folder_name@
                            == rows@[i as int].folder_name@;
                    assert(store.recs()[k] == row_to_record(rows@[k]));
                    assert(rows@[k].folder_type@ == rows@[i as int].folder_type@
                        && rows@[k].folder_name@ == rows@[i as int].folder_name@);
                    assert(!rows_keys_unique(rows@));
                }
                return Err(StoreError::Corrupt);
            }
            let ghost s = store.recs();
            let rec = FolderRecord {
                id: Some(row.id),
                folder_type: row.folder_type.clone(),
                folder_name: row.folder_name.clone(),
                folder_size: row.folder_size as u64,
                last_modified: lm,
                created_at: ca,
                updated_at: ua,
            };
            store.records.push(rec);
            proof {
                assert(row_valid(rows@[i as int]));
                assert(store.recs() =~= s.push(row_to_record(rows@[i as int])));
                assert(rows@.take(i as int + 1).map_values(conv) =~= rows@.take(
                    i as int,
                ).map_values(conv).push(row_to_record(rows@[i as int])));
                assert forall|x: int, y: int|
                    0 <= x < y < store.recs().len() implies !same_key(
                    store.recs()[x],
                    store.recs()[y],
                ) by {
                    if y < s.len() {
                        assert(!same_key(s[x], s[y]));
                    } else {
                        assert(store.recs()[y] == row_to_record(rows@[i as int]));
                        assert(!seq_has_key(s, rows@[i as int].folder_type@,
                            rows@[i as int].folder_name@));
                    }
                }
            }
            i += 1;
        }
        proof {
            assert(rows@.take(rows@.len() as int) =~= rows@);
            assert(store.recs() =~= rows@.map_values(conv));
            assert forall|x: int, y: int|
                0 <= x < y < rows@.len() implies !(rows@[x].folder_type@ == rows@[y].folder_type@
                && rows@[x].folder_name@ == rows@[y].folder_name@) by {
                assert(store.recs()[x] == row_to_record(rows@[x]));
                assert(store.recs()[y] == row_to_record(rows@[y]));
                assert(!same_key(store.recs()[x], store.recs()[y]));
            }
        }
        Ok(store)
    }

    /// Whether any record of the category is stored.
    pub fn has_data_for_type(&self, folder_type: &str) -> (r: bool)
        ensures
            r == exists|i: int|
                0 <= i < self.recs().len() && self.recs()[i].folder_type@ == folder_type@,
    {
        let mut i: usize = 0;
        while i < self.records.len()
            invariant
                i <= self.recs().len(),
                forall|j: int| 0 <= j < i ==> self.recs()[j].folder_type@ != folder_type@,
            decreases self.recs().len() - i,
        {
            if str_eq(self.records[i].folder_type.as_str(), folder_type) {
                return true;
            }
            i += 1;
        }
        false
    }

    /// The record count, and the most recent `updated_at` rendered in
    /// RFC 3339, or a fixed phrase when nothing is stored.
    pub fn get_stats(&self) -> (r: (usize, String))
        ensures
            r.0 == self.recs().len(),
            self.recs().len() == 0 ==> r.1@ == "no data"@,
            self.recs().len() > 0 ==> r.1@ == rfc3339_of(max_updated(self.recs())),
    {
        let n = self.records.len();
        if n == 0 {
            return (0, String::from_str("no data"));
        }
        let mut best: i64 = self.records[0].updated_at;
        let mut i: usize = 1;
        proof {
            assert(self.recs().take(1) =~= seq![self.recs()[0]]);
            assert(max_updated(self.recs().take(1)) == self.recs()[0].updated_at as int);
        }
        while i < n
            invariant
                1 <= i <= self.recs().len(),
                n == self.recs().len(),
                best as int == max_updated(self.recs().take(i as int)),
            decreases self.recs().len() - i,
        {
            let ghost pre = self.recs().take(i as int);
            if self.records[i].updated_at > best {
                best = self.records[i].updated_at;
            }
            proof {
                assert(self.recs().take(i as int + 1).drop_last() =~= pre);
                assert(self.recs().take(i as int + 1).last() == self.recs()[i as int]);
            }
            i += 1;
        }
        proof {
            assert(self.recs().take(self.recs().len() as int) =~= self.recs());
        }
        (n, format_timestamp(best))
    }
}

/// The folder names of the records, in storage order.
pub open spec fn names_of(s: Seq<FolderRecord>) -> Seq<Seq<char>> {
    s.map_values(|r: FolderRecord| r.folder_name@)
}

/// Selects the records of one category.
pub open spec fn of_type(folder_type: Seq<char>) -> spec_fn(FolderRecord) -> bool {
    |r: FolderRecord| r.folder_type@ == folder_type
}

/// Sorts records by folder name ascending; the result holds exactly the
/// input records, with multiplicity.
pub fn sort_records_by_name(v: &Vec<FolderRecord>) -> (r: Vec<FolderRecord>)
    ensures
        sorted_by(names_of(r@), char_seq_le()),
        r@.to_multiset() == v@.to_multiset(),
{
    broadcast use vstd::seq_lib::group_to_multiset_ensures;

    let mut out: Vec<FolderRecord> = Vec::new();
    let mut k: usize = 0;
    proof {
        assert(names_of(out@) =~= Seq::<Seq<char>>::empty());
        assert(out@.to_multiset() =~= v@.take(0).to_multiset());
    }
    while k < v.len()
        invariant
            k <= v.len(),
            sorted_by(names_of(out@), char_seq_le()),
            out@.to_multiset() == v@.take(k as int).to_multiset(),
        decreases v.len() - k,
    {
        let x = v[k].clone();
        let ghost old_out = out@;
        let mut p: usize = 0;
        while p < out.len() && !str_le(x.folder_name.as_str(), out[p].folder_name.as_str())
            invariant
                p <= out.len(),
                forall|j: int| 0 <= j < p ==> !lex_le(x.folder_name@, names_of(out@)[j]),
            decreases out.len() - p,
        {
            p += 1;
        }
        let ghost pos = p as int;
        out.insert(p, x);
        proof {
            let le = char_seq_le();
            let ov = names_of(old_out);
            let nv = names_of(out@);
            assert(out@ =~= old_out.insert(pos, v@[k as int]));
            assert(nv =~= ov.insert(pos, v@[k as int].folder_name@));
            ov.insert_ensures(pos, v@[k as int].folder_name@);
            let xn = v@[k as int].folder_name@;
            assert forall|a: int, b: int| 0 <= a < b < nv.len() implies #[trigger] le(
                nv[a],
                nv[b],
            ) by {
                if b < pos {
                    assert(le(ov[a], ov[b]));
                } else if a < pos && b == pos {
                    assert(!lex_le(xn, ov[a]));
                    lemma_lex_le_connected(xn, ov[a]);
                } else if a < pos && b > pos {
                    assert(le(ov[a], ov[b - 1]));
                } else if a == pos && b > pos {
                    assert(pos <= b - 1 < ov.len());
                    assert(lex_le(xn, ov[pos]));
                    if b - 1 > pos {
                        assert(le(ov[pos], ov[b - 1]));
                        lemma_lex_le_trans(xn, ov[pos], ov[b - 1]);
                    }
                } else {
                    assert(le(ov[a - 1], ov[b - 1]));
                }
            }
            crate::order::lemma_to_multiset_insert(old_out, pos, v@[k as int]);
            assert(v@.take(k as int).push(v@[k as int]) =~= v@.take(k as int + 1));
            v@.take(k as int).to_multiset_ensures();
            assert(v@.take(k as int + 1).to_multiset() =~= v@.take(
                k as int,
            ).to_multiset().insert(v@[k as int]));
        }
        k += 1;
    }
    proof {
        assert(v@.take(v@.len() as int) =~= v@);
    }
    out
}

/// Keeps a record when it belongs to another category or was observed alive.
pub open spec fn keep_when_missing(folder_type: Seq<char>, live: Seq<Seq<char>>) -> spec_fn(
    FolderRecord,
) -> bool {
    |r: FolderRecord| r.folder_type@ != folder_type || live.contains(r.folder_name@)
}

/// The largest `updated_at` among the records; meaningful only when the
/// sequence is non-empty.
pub open spec fn max_updated(s: Seq<FolderRecord>) -> int
    decreases s.len(),
{
    if s.len() == 0 {
        0
    } else if s.len() == 1 {
        s[0].updated_at as int
    } else {
        let m = max_updated(s.drop_last());
        if s.last().updated_at as int > m {
            s.last().updated_at as int
        } else {
            m
        }
    }
}

/// A batch extended by one record is the batch followed by one more upsert.
pub proof fn lemma_batch_upsert_snoc(
    s: Seq<FolderRecord>,
    records: Seq<FolderRecord>,
    x: FolderRecord,
    now: i64,
)
    ensures
        batch_upsert_seq(s, records.push(x), now) == upsert_seq(
            batch_upsert_seq(s, records, now),
            x,
            now,
        ),
    decreases records.len(),
{
    if records.len() == 0 {
        assert(records.push(x).drop_first() =~= Seq::<FolderRecord>::empty());
        assert(records.push(x)[0] == x);
        assert(batch_upsert_seq(upsert_seq(s, x, now), Seq::<FolderRecord>::empty(), now)
            == upsert_seq(s, x, now));
    } else {
        assert(records.push(x)[0] == records[0]);
        assert(records.push(x).drop_first() =~= records.drop_first().push(x));
        lemma_batch_upsert_snoc(upsert_seq(s, records[0], now), records.drop_first(), x, now);
    }
}

/// How a single upsert answers to the record stored before under the key.
pub open spec fn reconciled_record(prev: Option<FolderRecord>, record: FolderRecord, now: i64) -> FolderRecord {
    match prev {
        Some(p) => updated_record(p, record, now),
        None => inserted_record(record, now),
    }
}

/// The last record of the batch carrying the given key, if any; it is the
/// one whose measurement wins.
pub open spec fn last_match(records: Seq<FolderRecord>, kt: Seq<char>, kn: Seq<char>) -> Option<
    FolderRecord,
>
    decreases records.len(),
{
    if records.len() == 0 {
        None
    } else if records.last().folder_type@ == kt && records.last().folder_name@ == kn {
        Some(records.last())
    } else {
        last_match(records.drop_last(), kt, kn)
    }
}

/// One upsert changes the store only under the record's own key, where it
/// stores `reconciled_record`.
pub proof fn lemma_upsert_lookup(
    s: Seq<FolderRecord>,
    record: FolderRecord,
    now: i64,
    kt: Seq<char>,
    kn: Seq<char>,
)
    requires
        seq_wf(s),
    ensures
        seq_wf(upsert_seq(s, record, now)),
        (record.folder_type@ == kt && record.folder_name@ == kn) ==> seq_lookup(
            upsert_seq(s, record, now),
            kt,
            kn,
        ) == Some(reconciled_record(seq_lookup(s, kt, kn), record, now)),
        !(record.folder_type@ == kt && record.folder_name@ == kn) ==> seq_lookup(
            upsert_seq(s, record, now),
            kt,
            kn,
        ) == seq_lookup(s, kt, kn),
{
    let s2 = upsert_seq(s, record, now);
    if seq_has_key(s, record.folder_type@, record.folder_name@) {
        let i = seq_key_index(s, record.folder_type@, record.folder_name@);
        assert(0 <= i < s.len() && s[i].folder_type@ == record.folder_type@
            && s[i].folder_name@ == record.folder_name@);
        assert(s2 == s.update(i, updated_record(s[i], record, now)));
        assert(s2.len() == s.len());
        assert(same_key(s2[i], s[i]));
        assert(forall|j: int| 0 <= j < s.len() && j != i ==> s2[j] == s[j]);
        assert forall|x: int, y: int| 0 <= x < y < s2.len() implies !same_key(s2[x], s2[y]) by {
            assert(!same_key(s[x], s[y]));
        }
        if record.folder_type@ == kt && record.folder_name@ == kn {
            assert(s2[i].folder_type@ == kt && s2[i].folder_name@ == kn);
            assert(seq_has_key(s2, kt, kn));
            let j = seq_key_index(s2, kt, kn);
            assert(0 <= j < s2.len() && s2[j].folder_type@ == kt && s2[j].folder_name@ == kn);
            if j != i {
                assert(!same_key(s2[if j < i { j } else { i }], s2[if j < i { i } else { j }]));
                assert(false);
            }
            assert(seq_lookup(s2, kt, kn) == Some(updated_record(s[i], record, now)));
            let j0 = seq_key_index(s, kt, kn);
            if j0 != i {
                assert(!same_key(s[if j0 < i { j0 } else { i }], s[if j0 < i { i } else { j0 }]));
                assert(false);
            }
            assert(seq_lookup(s, kt, kn) == Some(s[i]));
        } else {
            if seq_has_key(s, kt, kn) {
                let j0 = seq_key_index(s, kt, kn);
                assert(j0 != i);
                assert(s2[j0].folder_type@ == kt && s2[j0].folder_name@ == kn);
                assert(seq_has_key(s2, kt, kn));
                let j = seq_key_index(s2, kt, kn);
                if j != j0 {
                    assert(!same_key(s2[if j < j0 { j } else { j0 }], s2[if j < j0 { j0 } else { j }]));
                    assert(false);
                }
                assert(seq_lookup(s2, kt, kn) == seq_lookup(s, kt, kn));
            } else {
                if seq_has_key(s2, kt, kn) {
                    let j = seq_key_index(s2, kt, kn);
                    assert(0 <= j < s.len());
                    if j != i {
                        assert(s[j] == s2[j]);
                        assert(seq_has_key(s, kt, kn));
                    } else {
                        assert(s2[i].folder_type@ == record.folder_type@);
                    }
                    assert(false);
                }
            }
        }
    } else {
        let fresh = inserted_record(record, now);
        assert(s2 == s.push(fresh));
        assert(fresh.folder_type@ == record.folder_type@ && fresh.folder_name@
            == record.folder_name@);
        assert forall|x: int, y: int| 0 <= x < y < s2.len() implies !same_key(s2[x], s2[y]) by {
            if y < s.len() {
                assert(!same_key(s[x], s[y]));
            } else {
                assert(s2[y] == fresh);
                if same_key(s2[x], s2[y]) {
                    assert(seq_has_key(s, record.folder_type@, record.folder_name@));
                }
            }
        }
        if record.folder_type@ == kt && record.folder_name@ == kn {
            assert(s2[s.len() as int] == fresh);
            assert(seq_has_key(s2, kt, kn));
            let j = seq_key_index(s2, kt, kn);
            if j != s.len() {
                assert(s2[j] == s[j]);
                assert(seq_has_key(s, kt, kn));
                assert(false);
            }
            assert(seq_lookup(s2, kt, kn) == Some(fresh));
            assert(seq_lookup(s, kt, kn) is None);
        } else {
            if seq_has_key(s, kt, kn) {
                let j0 = seq_key_index(s, kt, kn);
                assert(s2[j0] == s[j0]);
                assert(seq_has_key(s2, kt, kn));
                let j = seq_key_index(s2, kt, kn);
                if j != j0 {
                    assert(!same_key(s2[if j < j0 { j } else { j0 }], s2[if j < j0 { j0 } else { j }]));
                    assert(false);
                }
            } else {
                if seq_has_key(s2, kt, kn) {
                    let j = seq_key_index(s2, kt, kn);
                    if j < s.len() {
                        assert(seq_has_key(s, kt, kn));
                    } else {
                        assert(s2[j] == fresh);
                    }
                    assert(false);
                }
            }
        }
    }
}

/// What a whole batch stores under one key: the last matching record's
/// measurement, stamped with the batch time, with `created_at` preserved
/// from the store when the key already existed; keys the batch does not
/// carry are untouched.
pub proof fn lemma_batch_lookup(
    s: Seq<FolderRecord>,
    records: Seq<FolderRecord>,
    now: i64,
    kt: Seq<char>,
    kn: Seq<char>,
)
    requires
        seq_wf(s),
    ensures
        seq_wf(batch_upsert_seq(s, records, now)),
        last_match(records, kt, kn) is None ==> seq_lookup(batch_upsert_seq(s, records, now), kt, kn)
            == seq_lookup(s, kt, kn),
        last_match(records, kt, kn) is Some ==> {
            let got = seq_lookup(batch_upsert_seq(s, records, now), kt, kn);
            let win = last_match(records, kt, kn)->0;
            &&& got is Some
            &&& got->0.folder_type@ == kt
            &&& got->0.folder_name@ == kn
            &&& got->0.folder_size == win.folder_size
            &&& got->0.last_modified == win.last_modified
            &&& got->0.updated_at == now
            &&& got->0.created_at == (match seq_lookup(s, kt, kn) {
                Some(p) => p.created_at,
                None => now,
            })
        },
    decreases records.len(),
{
    if records.len() == 0 {
    } else {
        let front = records.drop_last();
        let x = records.last();
        assert(front.push(x) =~= records);
        lemma_batch_upsert_snoc(s, front, x, now);
        let b = batch_upsert_seq(s, front, now);
        lemma_batch_lookup(s, front, now, kt, kn);
        lemma_upsert_lookup(b, x, now, kt, kn);
        lemma_batch_lookup(s, front, now, x.folder_type@, x.folder_name@);
        assert(batch_upsert_seq(s, records, now) == upsert_seq(b, x, now));
    }
}

/// Applying one batch twice stores, under every key, the same measurement
/// and the same `created_at` as applying it once; only `updated_at`
/// advances, to the second application's time, and exactly for the keys the
/// batch carries.
pub proof fn lemma_batch_upsert_idempotent(
    s: Seq<FolderRecord>,
    records: Seq<FolderRecord>,
    t1: i64,
    t2: i64,
    kt: Seq<char>,
    kn: Seq<char>,
)
    requires
        seq_wf(s),
    ensures
        (seq_lookup(
            batch_upsert_seq(batch_upsert_seq(s, records, t1), records, t2),
            kt,
            kn,
        ) is Some) == (seq_lookup(batch_upsert_seq(s, records, t1), kt, kn) is Some),
        seq_lookup(batch_upsert_seq(s, records, t1), kt, kn) is Some ==> {
            let once = seq_lookup(batch_upsert_seq(s, records, t1), kt, kn)->0;
            let twice = seq_lookup(
                batch_upsert_seq(batch_upsert_seq(s, records, t1), records, t2),
                kt,
                kn,
            )->0;
            &&& twice.folder_size == once.folder_size
            &&& twice.created_at == once.created_at
            &&& twice.last_modified == once.last_modified
            &&& (last_match(records, kt, kn) is Some ==> twice.updated_at == t2)
            &&& (last_match(records, kt, kn) is None ==> twice == once)
        },
{
    let once_s = batch_upsert_seq(s, records, t1);
    lemma_batch_lookup(s, records, t1, kt, kn);
    lemma_batch_lookup(once_s, records, t2, kt, kn);
}

/// Whether one of the strings has the given character sequence.
pub fn contains_string(v: &Vec<String>, s: &str) -> (r: bool)
    ensures
        r == seq_views(v@).contains(s@),
{
    let mut i: usize = 0;
    while i < v.len()
        invariant
            i <= v@.len(),
            forall|j: int| 0 <= j < i ==> seq_views(v@)[j] != s@,
        decreases v@.len() - i,
    {
        if str_eq(v[i].as_str(), s) {
            proof {
                assert(seq_views(v@)[i as int] == s@);
            }
            return true;
        }
        i += 1;
    }
    false
}


/// One raw row as the persistence layer reads it back: the size still
/// signed, the timestamps still text.
pub struct RawRow {
    pub id: i64,
    pub folder_type: String,
    pub folder_name: String,
    pub folder_size: i64,
    pub last_modified: String,
    pub created_at: String,
    pub updated_at: String,
}

/// A stored row parses when its size is non-negative and its three
/// timestamps are RFC 3339.
pub open spec fn row_valid(r: RawRow) -> bool {
    &&& r.folder_size >= 0
    &&& rfc3339_parse_of(r.last_modified@) is Some
    &&& rfc3339_parse_of(r.created_at@) is Some
    &&& rfc3339_parse_of(r.updated_at@) is Some
}

/// The record a valid row denotes.
pub open spec fn row_to_record(r: RawRow) -> FolderRecord {
    FolderRecord {
        id: Some(r.id),
        folder_type: r.folder_type,
        folder_name: r.folder_name,
        folder_size: r.folder_size as u64,
        last_modified: rfc3339_parse_of(r.last_modified@)->0,
        created_at: rfc3339_parse_of(r.created_at@)->0,
        updated_at: rfc3339_parse_of(r.updated_at@)->0,
    }
}

/// No two rows share a `(folder_type, folder_name)` key.
pub open spec fn rows_keys_unique(rows: Seq<RawRow>) -> bool {
    forall|i: int, j: int|
        0 <= i < j < rows.len() ==> !(rows[i].folder_type@ == rows[j].folder_type@
            && rows[i].folder_name@ == rows[j].folder_name@)
}

/// The RFC 3339 rendering of a Unix timestamp, as chrono produces it.
pub uninterp spec fn rfc3339_of(secs: int) -> Seq<char>;

/// Relies on chrono::DateTime::<Utc>::from_timestamp and
/// chrono::DateTime::to_rfc3339: the rendering depends on the timestamp
/// alone. A timestamp outside chrono's representable range renders as the
/// empty string.
#[verifier::external_body]
pub fn format_timestamp(secs: i64) -> (r: String)
    ensures
        r@ == rfc3339_of(secs as int),
{
    match chrono::DateTime::<chrono::Utc>::from_timestamp(secs, 0) {
        Some(dt) => dt.to_rfc3339(),
        None => String::new(),
    }
}

/// What chrono's RFC 3339 parser accepts, and the timestamp it denotes.
pub uninterp spec fn rfc3339_parse_of(s: Seq<char>) -> Option<i64>;

/// Relies on chrono::DateTime::parse_from_rfc3339: whether the text parses,
/// and the timestamp it denotes, depend on the text alone.
#[verifier::external_body]
pub fn parse_timestamp(s: &str) -> (r: Option<i64>)
    ensures
        r == rfc3339_parse_of(s@),
{
    chrono::DateTime::parse_from_rfc3339(s).ok().map(|dt| dt.timestamp())
}

} // verus!
