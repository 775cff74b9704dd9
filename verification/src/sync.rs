//! One reconciliation cycle: keying both sides by the primary-key string,
//! the set-difference plan, the batch partition, the bounded window of
//! in-flight batches, and the states of a per-table task.
//!
//! Everything here is a decision on plain values; the fetches and writes
//! that surround these decisions live at the boundary.

use vstd::prelude::*;

use crate::config::TableConfig;
use crate::connector::ensure_valid_primary_key;
use crate::connector::process_document_obj;
use crate::connector::spec_doc_pk;
use crate::connector::spec_process_document;
use crate::document::doc_get;
use crate::document::Document;
use crate::document::SpecFieldValue;
use crate::strings::str_eq;

verus! {

/// The view of one document's fields.
pub type SpecDocument = Seq<(Seq<char>, SpecFieldValue)>;

/// The views of a list of documents.
pub open spec fn docs_view(docs: Seq<Document>) -> Seq<SpecDocument> {
    docs.map_values(|d: Document| d@)
}

/// The views of a keyed entry list.
pub open spec fn entries_view(es: Seq<(String, Document)>) -> Seq<(Seq<char>, SpecDocument)> {
    es.map_values(|e: (String, Document)| (e.0@, e.1@))
}

/// The keys of a keyed entry list.
pub open spec fn entry_keys(ev: Seq<(Seq<char>, SpecDocument)>) -> Seq<Seq<char>> {
    ev.map_values(|e: (Seq<char>, SpecDocument)| e.0)
}

/// The documents of `docs` that pass the identity rule, keyed by their
/// primary-key string; among duplicates the last seen wins.
pub open spec fn key_map(docs: Seq<SpecDocument>, pk: Seq<char>) -> Map<Seq<char>, SpecDocument>
    decreases docs.len(),
{
    if docs.len() == 0 {
        Map::<Seq<char>, SpecDocument>::empty()
    } else {
        let m = key_map(docs.drop_last(), pk);
        match spec_doc_pk(docs.last(), pk) {
            Some(k) => m.insert(k, docs.last()),
            None => m,
        }
    }
}

/// The distinct primary-key strings of `docs`, in first-occurrence order.
pub open spec fn key_order(docs: Seq<SpecDocument>, pk: Seq<char>) -> Seq<Seq<char>>
    decreases docs.len(),
{
    if docs.len() == 0 {
        Seq::<Seq<char>>::empty()
    } else {
        let o = key_order(docs.drop_last(), pk);
        match spec_doc_pk(docs.last(), pk) {
            Some(k) => if o.contains(k) {
                o
            } else {
                o.push(k)
            },
            None => o,
        }
    }
}

/// How many documents lack the primary-key field entirely.
pub open spec fn count_missing_pk(docs: Seq<SpecDocument>, pk: Seq<char>) -> nat
    decreases docs.len(),
{
    if docs.len() == 0 {
        0
    } else {
        count_missing_pk(docs.drop_last(), pk) + if doc_get(docs.last(), pk) is None {
            1nat
        } else {
            0nat
        }
    }
}

/// How many documents carry the primary-key field with a value that fails
/// the identity rule.
pub open spec fn count_invalid_pk(docs: Seq<SpecDocument>, pk: Seq<char>) -> nat
    decreases docs.len(),
{
    if docs.len() == 0 {
        0
    } else {
        count_invalid_pk(docs.drop_last(), pk) + if doc_get(docs.last(), pk) is Some
            && spec_doc_pk(docs.last(), pk) is None {
            1nat
        } else {
            0nat
        }
    }
}

/// How many documents pass the identity rule.
pub open spec fn count_valid(docs: Seq<SpecDocument>, pk: Seq<char>) -> nat
    decreases docs.len(),
{
    if docs.len() == 0 {
        0
    } else {
        count_valid(docs.drop_last(), pk) + if spec_doc_pk(docs.last(), pk) is Some {
            1nat
        } else {
            0nat
        }
    }
}

/// An entry list stands for the keyed map `m` with key order `o`: its keys
/// are `o` and are pairwise distinct, and its entries agree with `m`, whose
/// domain holds exactly those keys.
pub open spec fn kd_represents(
    ev: Seq<(Seq<char>, SpecDocument)>,
    m: Map<Seq<char>, SpecDocument>,
    o: Seq<Seq<char>>,
) -> bool {
    &&& entry_keys(ev) == o
    &&& (forall|i: int, j: int| 0 <= i < j < ev.len() ==> ev[i].0 != ev[j].0)
    &&& (forall|j: int| 0 <= j < ev.len() ==> m.dom().contains(#[trigger] ev[j].0) && m[ev[j].0]
        == ev[j].1)
    &&& (forall|k: Seq<char>|
        m.dom().contains(k) ==> exists|j: int| 0 <= j < ev.len() && (#[trigger] ev[j]).0 == k)
}

/// Documents keyed by their primary-key string, in first-occurrence order,
/// with last-seen-wins values.
#[derive(Debug)]
pub struct KeyedDocs {
    pub entries: Vec<(String, Document)>,
}

impl KeyedDocs {
    /// The views of the entries.
    pub open spec fn view_entries(&self) -> Seq<(Seq<char>, SpecDocument)> {
        entries_view(self.entries@)
    }

    /// Keys are pairwise distinct.
    pub open spec fn wf(&self) -> bool {
        forall|i: int, j: int|
            0 <= i < j < self.view_entries().len() ==> self.view_entries()[i].0
                != self.view_entries()[j].0
    }

    /// An empty keyed collection.
    pub fn new() -> (r: KeyedDocs)
        ensures
            r.view_entries() =~= Seq::<(Seq<char>, SpecDocument)>::empty(),
            r.wf(),
    {
        KeyedDocs { entries: Vec::new() }
    }

    /// Decides whether `k` is among the keys.
    pub fn contains_key(&self, k: &str) -> (r: bool)
        ensures
            r == entry_keys(self.view_entries()).contains(k@),
    {
        let mut i: usize = 0;
        while i < self.entries.len()
            invariant
                i <= self.entries@.len(),
                forall|j: int| 0 <= j < i ==> entry_keys(self.view_entries())[j] != k@,
            decreases self.entries@.len() - i,
        {
            assert(entry_keys(self.view_entries())[i as int] == self.entries@[i as int].0@);
            if str_eq(self.entries[i].0.as_str(), k) {
                return true;
            }
            i = i + 1;
        }
        assert(!entry_keys(self.view_entries()).contains(k@));
        false
    }

    /// Inserts a document under key `k`: a later document under an existing
    /// key replaces the earlier one in place, a new key is appended.
    pub fn insert_last_wins(&mut self, k: String, d: Document)
        requires
            old(self).wf(),
        ensures
            final(self).wf(),
            if entry_keys(old(self).view_entries()).contains(k@) {
                exists|j: int|
                    0 <= j < old(self).view_entries().len() && old(self).view_entries()[j].0 == k@
                        && final(self).view_entries() =~= old(self).view_entries().update(
                        j,
                        (k@, d@),
                    )
            } else {
                final(self).view_entries() =~= old(self).view_entries().push((k@, d@))
            },
    {
        let ghost oldv = self.view_entries();
        let mut i: usize = 0;
        while i < self.entries.len()
            invariant
                i <= self.entries@.len(),
                self == old(self),
                oldv == old(self).view_entries(),
                forall|a: int, b: int| 0 <= a < b < oldv.len() ==> oldv[a].0 != oldv[b].0,
                forall|j: int| 0 <= j < i ==> oldv[j].0 != k@,
            decreases self.entries@.len() - i,
        {
            assert(oldv[i as int] == (self.entries@[i as int].0@, self.entries@[i as int].1@));
            if str_eq(self.entries[i].0.as_str(), k.as_str()) {
                self.entries.set(i, (k, d));
                proof {
                    let newv = self.view_entries();
                    assert(newv =~= oldv.update(i as int, (k@, d@)));
                    assert(entry_keys(oldv).contains(k@)) by {
                        assert(entry_keys(oldv)[i as int] == k@);
                    }
                    assert forall|a: int| 0 <= a < oldv.len() implies newv[a].0 == oldv[a].0 by {
                        if a != i {
                            assert(newv[a] == oldv[a]);
                        }
                    }
                    assert forall|a: int, b: int|
                        0 <= a < b < newv.len() implies newv[a].0 != newv[b].0 by {
                        assert(newv[a].0 == oldv[a].0);
                        assert(newv[b].0 == oldv[b].0);
                        assert(oldv[a].0 != oldv[b].0);
                    }
                    assert(self.wf());
                }
                return ;
            }
            i = i + 1;
        }
        proof {
            if entry_keys(oldv).contains(k@) {
                let j = choose|j: int|
                    0 <= j < entry_keys(oldv).len() && entry_keys(oldv)[j] == k@;
                assert(oldv[j].0 == k@);
                assert(false);
            }
        }
        self.entries.push((k, d));
        proof {
            assert(final(self).view_entries() =~= oldv.push(
                (final(self).entries@.last().0@, final(self).entries@.last().1@),
            ));
        }
    }
}

/// Per-cycle identity statistics over the database rows.
#[derive(Debug, PartialEq, Eq, Clone, Copy)]
pub struct SyncStats {
    pub valid_docs: usize,
    pub invalid_pk_count: usize,
    pub missing_pk_count: usize,
}

/// Keys every document of `docs` by its primary-key string, dropping the
/// documents that fail the identity rule and counting why they fell out.
pub fn index_documents_by_key(docs: &Vec<Document>, table: &TableConfig) -> (r: (
    KeyedDocs,
    SyncStats,
))
    ensures
        r.0.wf(),
        kd_represents(
            r.0.view_entries(),
            key_map(docs_view(docs@), table@.primary_key),
            key_order(docs_view(docs@), table@.primary_key),
        ),
        r.1.valid_docs == count_valid(docs_view(docs@), table@.primary_key),
        r.1.invalid_pk_count == count_invalid_pk(docs_view(docs@), table@.primary_key),
        r.1.missing_pk_count == count_missing_pk(docs_view(docs@), table@.primary_key),
{
    let ghost pk = table@.primary_key;
    let ghost all = docs_view(docs@);
    let mut kd = KeyedDocs::new();
    let mut valid_docs: usize = 0;
    let mut invalid_pk_count: usize = 0;
    let mut missing_pk_count: usize = 0;
    let mut i: usize = 0;
    proof {
        assert(all.subrange(0, 0) =~= Seq::<SpecDocument>::empty());
        assert(entry_keys(kd.view_entries()) =~= Seq::<Seq<char>>::empty());
        assert(key_map(all.subrange(0, 0), pk) =~= Map::<Seq<char>, SpecDocument>::empty());
    }
    while i < docs.len()
        invariant
            i <= docs@.len(),
            pk == table@.primary_key,
            all == docs_view(docs@),
            all.len() == docs@.len(),
            kd.wf(),
            kd_represents(
                kd.view_entries(),
                key_map(all.subrange(0, i as int), pk),
                key_order(all.subrange(0, i as int), pk),
            ),
            valid_docs <= i && invalid_pk_count <= i && missing_pk_count <= i,
            valid_docs == count_valid(all.subrange(0, i as int), pk),
            invalid_pk_count == count_invalid_pk(all.subrange(0, i as int), pk),
            missing_pk_count == count_missing_pk(all.subrange(0, i as int), pk),
        decreases docs@.len() - i,
    {
        let ghost prefix = all.subrange(0, i as int);
        let ghost ext = all.subrange(0, i + 1);
        let ghost dv = all[i as int];
        proof {
            assert(ext.drop_last() =~= prefix);
            assert(ext.last() == dv);
            assert(dv == docs@[i as int]@);
        }
        let ghost m0 = key_map(prefix, pk);
        let ghost o0 = key_order(prefix, pk);
        let ghost ev0 = kd.view_entries();
        match ensure_valid_primary_key(&docs[i], table) {
            Some((id, d)) => {
                let ghost k = id@;
                proof {
                    assert(spec_doc_pk(dv, pk) == Some(k));
                    assert(key_map(ext, pk) == m0.insert(k, dv));
                    assert(entry_keys(ev0) == o0);
                }
                let contained = kd.contains_key(id.as_str());
                kd.insert_last_wins(id, d);
                proof {
                    let ev1 = kd.view_entries();
                    let m1 = m0.insert(k, dv);
                    if contained {
                        assert(key_order(ext, pk) == o0);
                        let j = choose|j: int|
                            0 <= j < ev0.len() && ev0[j].0 == k && ev1 =~= ev0.update(
                                j,
                                (k, dv),
                            );
                        assert(entry_keys(ev1) =~= entry_keys(ev0)) by {
                            assert forall|a: int| 0 <= a < ev1.len() implies entry_keys(
                                ev1,
                            )[a] == entry_keys(ev0)[a] by {
                                if a != j {
                                    assert(ev1[a] == ev0[a]);
                                } else {
                                    assert(ev1[a].0 == k && ev0[a].0 == k);
                                }
                            }
                        }
                        assert forall|idx: int| 0 <= idx < ev1.len() implies m1.dom().contains(
                            #[trigger] ev1[idx].0,
                        ) && m1[ev1[idx].0] == ev1[idx].1 by {
                            if idx == j {
                                assert(ev1[idx] == (k, dv));
                            } else {
                                assert(ev1[idx] == ev0[idx]);
                                assert(ev0[idx].0 != k) by {
                                    if idx < j {
                                        assert(ev0[idx].0 != ev0[j].0);
                                    } else {
                                        assert(ev0[j].0 != ev0[idx].0);
                                    }
                                }
                            }
                        }
                        assert forall|kk: Seq<char>| m1.dom().contains(kk) implies exists|jj: int|
                            0 <= jj < ev1.len() && (#[trigger] ev1[jj]).0 == kk by {
                            if kk == k {
                                assert(ev1[j].0 == kk);
                            } else {
                                assert(m0.dom().contains(kk));
                                let jj = choose|jj: int|
                                    0 <= jj < ev0.len() && (#[trigger] ev0[jj]).0 == kk;
                                assert(ev1[jj].0 == kk) by {
                                    if jj != j {
                                        assert(ev1[jj] == ev0[jj]);
                                    }
                                }
                            }
                        }
                        assert(kd_represents(ev1, key_map(ext, pk), key_order(ext, pk)));
                    } else {
                        assert(!o0.contains(k));
                        assert(key_order(ext, pk) == o0.push(k));
                        assert(ev1 =~= ev0.push((k, dv)));
                        assert(entry_keys(ev1) =~= o0.push(k)) by {
                            assert forall|a: int| 0 <= a < ev1.len() implies entry_keys(
                                ev1,
                            )[a] == o0.push(k)[a] by {
                                if a < ev0.len() {
                                    assert(ev1[a] == ev0[a]);
                                    assert(entry_keys(ev0)[a] == ev0[a].0);
                                } else {
                                    assert(ev1[a] == (k, dv));
                                }
                            }
                        }
                        assert forall|idx: int| 0 <= idx < ev1.len() implies m1.dom().contains(
                            #[trigger] ev1[idx].0,
                        ) && m1[ev1[idx].0] == ev1[idx].1 by {
                            if idx < ev0.len() {
                                assert(ev1[idx] == ev0[idx]);
                                assert(ev0[idx].0 != k) by {
                                    assert(entry_keys(ev0)[idx] == ev0[idx].0);
                                    assert(!o0.contains(k));
                                }
                            } else {
                                assert(ev1[idx] == (k, dv));
                            }
                        }
                        assert forall|kk: Seq<char>| m1.dom().contains(kk) implies exists|jj: int|
                            0 <= jj < ev1.len() && (#[trigger] ev1[jj]).0 == kk by {
                            if kk == k {
                                assert(ev1[ev0.len() as int].0 == kk);
                            } else {
                                assert(m0.dom().contains(kk));
                                let jj = choose|jj: int|
                                    0 <= jj < ev0.len() && (#[trigger] ev0[jj]).0 == kk;
                                assert(ev1[jj] == ev0[jj]);
                                assert(ev1[jj].0 == kk);
                            }
                        }
                        assert(kd_represents(ev1, key_map(ext, pk), key_order(ext, pk)));
                    }
                }
                valid_docs = valid_docs + 1;
            },
            None => {
                proof {
                    assert(spec_doc_pk(dv, pk) is None);
                    assert(key_map(ext, pk) == m0);
                    assert(key_order(ext, pk) == o0);
                }
                let has_field = match docs[i].get(table.primary_key.as_str()) {
                    Some(_) => true,
                    None => false,
                };
                if has_field {
                    invalid_pk_count = invalid_pk_count + 1;
                } else {
                    missing_pk_count = missing_pk_count + 1;
                }
            },
        }
        i = i + 1;
    }
    proof {
        assert(all.subrange(0, all.len() as int) =~= all);
    }
    (
        kd,
        SyncStats { valid_docs, invalid_pk_count, missing_pk_count },
    )
}

proof fn lemma_entry_keys_contains(
    ev: Seq<(Seq<char>, SpecDocument)>,
    m: Map<Seq<char>, SpecDocument>,
    o: Seq<Seq<char>>,
    k: Seq<char>,
)
    requires
        kd_represents(ev, m, o),
    ensures
        o.contains(k) <==> m.dom().contains(k),
{
    if o.contains(k) {
        let idx = choose|idx: int| 0 <= idx < o.len() && o[idx] == k;
        assert(entry_keys(ev)[idx] == ev[idx].0);
        assert(m.dom().contains(ev[idx].0));
    }
    if m.dom().contains(k) {
        let j = choose|j: int| 0 <= j < ev.len() && (#[trigger] ev[j]).0 == k;
        assert(entry_keys(ev)[j] == k);
        assert(o.contains(k));
    }
}

/// The identities to remove from the index: those keyed in the index but
/// not in the database, in the index's key order.
pub open spec fn delete_ids(
    remote_order: Seq<Seq<char>>,
    local: Map<Seq<char>, SpecDocument>,
) -> Seq<Seq<char>>
    decreases remote_order.len(),
{
    if remote_order.len() == 0 {
        Seq::<Seq<char>>::empty()
    } else {
        let rest = delete_ids(remote_order.drop_last(), local);
        if !local.dom().contains(remote_order.last()) {
            rest.push(remote_order.last())
        } else {
            rest
        }
    }
}

/// The documents to submit to the index: for each database key absent from
/// the index, in the database's key order, the normalized form of its
/// last-seen row — provided normalization succeeds.
pub open spec fn upsert_docs(
    local_order: Seq<Seq<char>>,
    local: Map<Seq<char>, SpecDocument>,
    remote_order: Seq<Seq<char>>,
    pk: Seq<char>,
    max_text: nat,
    max_fields: nat,
) -> Seq<SpecDocument>
    decreases local_order.len(),
{
    if local_order.len() == 0 {
        Seq::<SpecDocument>::empty()
    } else {
        let rest = upsert_docs(local_order.drop_last(), local, remote_order, pk, max_text, max_fields);
        let k = local_order.last();
        if !remote_order.contains(k) && spec_process_document(local[k], pk, max_text, max_fields)
            is Ok {
            rest.push(spec_process_document(local[k], pk, max_text, max_fields)->Ok_0)
        } else {
            rest
        }
    }
}

/// One reconciliation plan: the identities to delete, the documents to
/// upsert, and the identity statistics of the database side.
#[derive(Debug)]
pub struct SyncPlan {
    pub ids_to_delete: Vec<String>,
    pub documents_to_add: Vec<Document>,
    pub stats: SyncStats,
}

/// Computes the set-difference plan of one reconciliation cycle from the
/// indexed documents and the database rows: deletions are the index
/// identities the database no longer has; upserts are the normalized rows
/// of the database identities the index does not have yet. Rows present on
/// both sides are not touched.
pub fn plan_table_sync(table: &TableConfig, meili_docs: &Vec<Document>, db_docs: &Vec<Document>)
    -> (r: SyncPlan)
    ensures
        crate::strings::str_vec_view(r.ids_to_delete@) == delete_ids(
            key_order(docs_view(meili_docs@), table@.primary_key),
            key_map(docs_view(db_docs@), table@.primary_key),
        ),
        docs_view(r.documents_to_add@) == upsert_docs(
            key_order(docs_view(db_docs@), table@.primary_key),
            key_map(docs_view(db_docs@), table@.primary_key),
            key_order(docs_view(meili_docs@), table@.primary_key),
            table@.primary_key,
            crate::MAX_TEXT_LENGTH as nat,
            crate::MAX_FIELDS as nat,
        ),
        r.stats.valid_docs == count_valid(docs_view(db_docs@), table@.primary_key),
        r.stats.invalid_pk_count == count_invalid_pk(docs_view(db_docs@), table@.primary_key),
        r.stats.missing_pk_count == count_missing_pk(docs_view(db_docs@), table@.primary_key),
{
    let ghost pk = table@.primary_key;
    let ghost mo = key_order(docs_view(meili_docs@), pk);
    let ghost lm = key_map(docs_view(db_docs@), pk);
    let ghost lo = key_order(docs_view(db_docs@), pk);
    let (meili_kd, _meili_stats) = index_documents_by_key(meili_docs, table);
    let (db_kd, stats) = index_documents_by_key(db_docs, table);
    let ghost mev = meili_kd.view_entries();
    let ghost lev = db_kd.view_entries();

    let mut ids_to_delete: Vec<String> = Vec::new();
    let mut i: usize = 0;
    proof {
        assert(mo.subrange(0, 0) =~= Seq::<Seq<char>>::empty());
        assert(crate::strings::str_vec_view(ids_to_delete@) =~= Seq::<Seq<char>>::empty());
        assert(entry_keys(mev).len() == mev.len());
    }
    while i < meili_kd.entries.len()
        invariant
            pk == table@.primary_key,
            mev == meili_kd.view_entries(),
            lev == db_kd.view_entries(),
            kd_represents(lev, lm, lo),
            entry_keys(mev) == mo,
            mev.len() == meili_kd.entries@.len(),
            i <= mev.len(),
            crate::strings::str_vec_view(ids_to_delete@) =~= delete_ids(
                mo.subrange(0, i as int),
                lm,
            ),
        decreases mev.len() - i,
    {
        let ghost prefix = mo.subrange(0, i as int);
        let ghost ext = mo.subrange(0, i + 1);
        proof {
            assert(ext.drop_last() =~= prefix);
            assert(ext.last() == mo[i as int]);
            assert(entry_keys(mev)[i as int] == mev[i as int].0);
            assert(mev[i as int] == (meili_kd.entries@[i as int].0@, meili_kd.entries@[i as int].1@));
        }
        let key = &meili_kd.entries[i].0;
        let in_db = db_kd.contains_key(key.as_str());
        proof {
            lemma_entry_keys_contains(lev, lm, lo, key@);
        }
        if !in_db {
            let ghost pre = ids_to_delete@;
            ids_to_delete.push(key.clone());
            proof {
                assert(crate::strings::str_vec_view(ids_to_delete@) =~= crate::strings::str_vec_view(
                    pre,
                ).push(mo[i as int]));
            }
        }
        i = i + 1;
    }
    proof {
        assert(mo.subrange(0, mo.len() as int) =~= mo);
    }

    let mut documents_to_add: Vec<Document> = Vec::new();
    let mut j: usize = 0;
    proof {
        assert(lo.subrange(0, 0) =~= Seq::<Seq<char>>::empty());
        assert(docs_view(documents_to_add@) =~= Seq::<SpecDocument>::empty());
        assert(entry_keys(lev).len() == lev.len());
    }
    while j < db_kd.entries.len()
        invariant
            pk == table@.primary_key,
            mev == meili_kd.view_entries(),
            lev == db_kd.view_entries(),
            kd_represents(lev, lm, lo),
            entry_keys(mev) == mo,
            entry_keys(lev) == lo,
            lev.len() == db_kd.entries@.len(),
            j <= lev.len(),
            docs_view(documents_to_add@) =~= upsert_docs(
                lo.subrange(0, j as int),
                lm,
                mo,
                pk,
                crate::MAX_TEXT_LENGTH as nat,
                crate::MAX_FIELDS as nat,
            ),
        decreases lev.len() - j,
    {
        let ghost prefix = lo.subrange(0, j as int);
        let ghost ext = lo.subrange(0, j + 1);
        proof {
            assert(ext.drop_last() =~= prefix);
            assert(ext.last() == lo[j as int]);
            assert(entry_keys(lev)[j as int] == lev[j as int].0);
            assert(lev[j as int] == (db_kd.entries@[j as int].0@, db_kd.entries@[j as int].1@));
            assert(lm.dom().contains(lev[j as int].0) && lm[lev[j as int].0] == lev[j as int].1);
        }
        let key = &db_kd.entries[j].0;
        let in_index = meili_kd.contains_key(key.as_str());
        if !in_index {
            match process_document_obj(
                table,
                &db_kd.entries[j].1,
                crate::MAX_TEXT_LENGTH,
                crate::MAX_FIELDS,
            ) {
                Ok(nd) => {
                    let ghost pre = documents_to_add@;
                    let ghost ndv = nd@;
                    documents_to_add.push(nd);
                    proof {
                        assert(docs_view(documents_to_add@) =~= docs_view(pre).push(ndv));
                    }
                },
                Err(_) => {},
            }
        }
        j = j + 1;
    }
    proof {
        assert(lo.subrange(0, lo.len() as int) =~= lo);
    }
    SyncPlan { ids_to_delete, documents_to_add, stats }
}

proof fn lemma_key_map_order(docs: Seq<SpecDocument>, pk: Seq<char>)
    ensures
        forall|k: Seq<char>| #[trigger]
            key_order(docs, pk).contains(k) <==> key_map(docs, pk).dom().contains(k),
        forall|k: Seq<char>|
            key_map(docs, pk).dom().contains(k) ==> spec_doc_pk(
                #[trigger] key_map(docs, pk)[k],
                pk,
            ) == Some(k),
    decreases docs.len(),
{
    if docs.len() == 0 {
        assert forall|k: Seq<char>| !(#[trigger] key_order(docs, pk).contains(k)) by {}
    } else {
        lemma_key_map_order(docs.drop_last(), pk);
        let o = key_order(docs.drop_last(), pk);
        let m = key_map(docs.drop_last(), pk);
        let o1 = key_order(docs, pk);
        let m1 = key_map(docs, pk);
        match spec_doc_pk(docs.last(), pk) {
            Some(k0) => {
                assert forall|k: Seq<char>| #[trigger]
                    o1.contains(k) <==> m1.dom().contains(k) by {
                    if o.contains(k0) {
                        assert(o1 == o);
                    } else {
                        assert(o1 == o.push(k0));
                        if o1.contains(k) {
                            let idx = choose|idx: int| 0 <= idx < o1.len() && o1[idx] == k;
                            if idx < o.len() {
                                assert(o.contains(k)) by {
                                    assert(o[idx] == k);
                                }
                            } else {
                                assert(k == k0);
                            }
                        }
                        if m1.dom().contains(k) {
                            if k == k0 {
                                assert(o1[o.len() as int] == k0);
                                assert(o1.contains(k));
                            } else {
                                assert(m.dom().contains(k));
                                assert(o.contains(k));
                                let idx = choose|idx: int| 0 <= idx < o.len() && o[idx] == k;
                                assert(o1[idx] == k);
                                assert(o1.contains(k));
                            }
                        }
                    }
                }
            },
            None => {},
        }
    }
}

proof fn lemma_delete_ids_membership(morder: Seq<Seq<char>>, local: Map<Seq<char>, SpecDocument>)
    ensures
        forall|k: Seq<char>| #[trigger]
            delete_ids(morder, local).contains(k) <==> (morder.contains(k)
                && !local.dom().contains(k)),
    decreases morder.len(),
{
    if morder.len() == 0 {
        assert forall|k: Seq<char>| !(#[trigger] delete_ids(morder, local).contains(k)) by {}
        assert forall|k: Seq<char>| !(morder.contains(k)) by {}
    } else {
        lemma_delete_ids_membership(morder.drop_last(), local);
        let rest = delete_ids(morder.drop_last(), local);
        let d1 = delete_ids(morder, local);
        let last = morder.last();
        assert forall|k: Seq<char>| #[trigger]
            d1.contains(k) <==> (morder.contains(k) && !local.dom().contains(k)) by {
            if d1.contains(k) {
                let idx = choose|idx: int| 0 <= idx < d1.len() && d1[idx] == k;
                if !local.dom().contains(last) {
                    assert(d1 == rest.push(last));
                    if idx < rest.len() {
                        assert(rest.contains(k)) by {
                            assert(rest[idx] == k);
                        }
                        assert(morder.drop_last().contains(k));
                        let w = choose|w: int|
                            0 <= w < morder.drop_last().len() && morder.drop_last()[w] == k;
                        assert(morder[w] == k);
                        assert(morder.contains(k));
                    } else {
                        assert(k == last);
                        assert(morder[morder.len() - 1] == k);
                        assert(morder.contains(k));
                    }
                } else {
                    assert(d1 == rest);
                    assert(rest.contains(k)) by {
                        assert(rest[idx] == k);
                    }
                    assert(morder.drop_last().contains(k));
                    let w = choose|w: int|
                        0 <= w < morder.drop_last().len() && morder.drop_last()[w] == k;
                    assert(morder[w] == k);
                    assert(morder.contains(k));
                }
            }
            if morder.contains(k) && !local.dom().contains(k) {
                let idx = choose|idx: int| 0 <= idx < morder.len() && morder[idx] == k;
                if idx < morder.len() - 1 {
                    assert(morder.drop_last()[idx] == k);
                    assert(morder.drop_last().contains(k));
                    assert(rest.contains(k));
                    let w = choose|w: int| 0 <= w < rest.len() && rest[w] == k;
                    if !local.dom().contains(last) {
                        assert(d1 == rest.push(last));
                        assert(d1[w] == k);
                    } else {
                        assert(d1[w] == k);
                    }
                    assert(d1.contains(k));
                } else {
                    assert(k == last);
                    assert(d1 == rest.push(last));
                    assert(d1[rest.len() as int] == k);
                    assert(d1.contains(k));
                }
            }
        }
    }
}

/// The set of identities that a list of upsert documents carries.
pub open spec fn upsert_key_set(ups: Seq<SpecDocument>, pk: Seq<char>) -> Set<Seq<char>> {
    Set::new(
        |k: Seq<char>|
            exists|i: int| 0 <= i < ups.len() && spec_doc_pk(#[trigger] ups[i], pk) == Some(k),
    )
}

proof fn lemma_upsert_key_set(
    lorder: Seq<Seq<char>>,
    local: Map<Seq<char>, SpecDocument>,
    rorder: Seq<Seq<char>>,
    pk: Seq<char>,
    max_text: nat,
    max_fields: nat,
)
    requires
        forall|k: Seq<char>| #[trigger]
            lorder.contains(k) ==> local.dom().contains(k) && spec_doc_pk(local[k], pk) == Some(
                k,
            ),
    ensures
        upsert_key_set(upsert_docs(lorder, local, rorder, pk, max_text, max_fields), pk) =~= Set::new(
            |k: Seq<char>|
                lorder.contains(k) && !rorder.contains(k) && spec_process_document(
                    local[k],
                    pk,
                    max_text,
                    max_fields,
                ) is Ok,
        ),
    decreases lorder.len(),
{
    let ups = upsert_docs(lorder, local, rorder, pk, max_text, max_fields);
    let target = Set::new(
        |k: Seq<char>|
            lorder.contains(k) && !rorder.contains(k) && spec_process_document(
                local[k],
                pk,
                max_text,
                max_fields,
            ) is Ok,
    );
    if lorder.len() == 0 {
        assert forall|k: Seq<char>| !(#[trigger] lorder.contains(k)) by {}
        assert(upsert_key_set(ups, pk) =~= target);
    } else {
        let lrest = lorder.drop_last();
        assert forall|k: Seq<char>| #[trigger] lrest.contains(k) implies local.dom().contains(k)
            && spec_doc_pk(local[k], pk) == Some(k) by {
            let idx = choose|idx: int| 0 <= idx < lrest.len() && lrest[idx] == k;
            assert(lorder[idx] == k);
            assert(lorder.contains(k));
        }
        lemma_upsert_key_set(lrest, local, rorder, pk, max_text, max_fields);
        let rest = upsert_docs(lrest, local, rorder, pk, max_text, max_fields);
        let last = lorder.last();
        assert(lorder[lorder.len() - 1] == last);
        assert(lorder.contains(last));
        let pushed = !rorder.contains(last) && spec_process_document(
            local[last],
            pk,
            max_text,
            max_fields,
        ) is Ok;
        if pushed {
            assert(ups == rest.push(
                spec_process_document(local[last], pk, max_text, max_fields)->Ok_0,
            ));
            let nd = spec_process_document(local[last], pk, max_text, max_fields)->Ok_0;
            assert(spec_doc_pk(nd, pk) == Some(last)) by {
                assert(doc_get(local[last], pk) is Some);
                crate::connector::lemma_normalization_preserves_identity(
                    local[last],
                    pk,
                    max_text,
                    max_fields,
                );
            }
            assert forall|k: Seq<char>|
                upsert_key_set(ups, pk).contains(k) <==> target.contains(k) by {
                if upsert_key_set(ups, pk).contains(k) {
                    let i = choose|i: int|
                        0 <= i < ups.len() && spec_doc_pk(#[trigger] ups[i], pk) == Some(k);
                    if i < rest.len() {
                        assert(rest[i] == ups[i]);
                        assert(upsert_key_set(rest, pk).contains(k));
                        lemma_seq_contains_of_drop_last(lorder, k);
                    } else {
                        assert(ups[i] == nd);
                        assert(k == last);
                    }
                }
                if target.contains(k) {
                    if k == last {
                        assert(spec_doc_pk(ups[rest.len() as int], pk) == Some(k));
                        assert(upsert_key_set(ups, pk).contains(k));
                    } else {
                        let idx = choose|idx: int| 0 <= idx < lorder.len() && lorder[idx] == k;
                        assert(idx < lorder.len() - 1) by {
                            if idx == lorder.len() - 1 {
                                assert(k == last);
                            }
                        }
                        assert(lrest[idx] == k);
                        assert(lrest.contains(k));
                        assert(upsert_key_set(rest, pk).contains(k));
                        let i = choose|i: int|
                            0 <= i < rest.len() && spec_doc_pk(#[trigger] rest[i], pk) == Some(
                                k,
                            );
                        assert(ups[i] == rest[i]);
                        assert(upsert_key_set(ups, pk).contains(k));
                    }
                }
            }
            assert(upsert_key_set(ups, pk) =~= target);
        } else {
            assert(ups == rest);
            assert forall|k: Seq<char>|
                upsert_key_set(ups, pk).contains(k) <==> target.contains(k) by {
                if upsert_key_set(ups, pk).contains(k) {
                    lemma_seq_contains_of_drop_last(lorder, k);
                }
                if target.contains(k) {
                    assert(k != last || !pushed);
                    if k == last {
                    } else {
                        let idx = choose|idx: int| 0 <= idx < lorder.len() && lorder[idx] == k;
                        assert(idx < lorder.len() - 1) by {
                            if idx == lorder.len() - 1 {
                                assert(k == last);
                            }
                        }
                        assert(lrest[idx] == k);
                        assert(lrest.contains(k));
                    }
                }
            }
            assert(upsert_key_set(ups, pk) =~= target);
        }
    }
}

proof fn lemma_seq_contains_of_drop_last(s: Seq<Seq<char>>, k: Seq<char>)
    requires
        s.len() > 0,
        s.drop_last().contains(k),
    ensures
        s.contains(k),
{
    let idx = choose|idx: int| 0 <= idx < s.drop_last().len() && s.drop_last()[idx] == k;
    assert(s[idx] == k);
}

/// The set of identities a plan leaves in the index, out of the identities
/// it held before: the deletions removed, the upserted identities present.
pub open spec fn apply_plan_keys(
    index_keys: Set<Seq<char>>,
    deletions: Seq<Seq<char>>,
    upserts: Seq<SpecDocument>,
    pk: Seq<char>,
) -> Set<Seq<char>> {
    index_keys.difference(deletions.to_set()).union(upsert_key_set(upserts, pk))
}

/// Law: convergence. Whatever the index held before, one reconciliation
/// plan leaves it holding exactly the valid identities of the database —
/// provided every keyed database row normalizes within the size cap.
pub proof fn lemma_reconciliation_convergence(
    meili: Seq<SpecDocument>,
    db: Seq<SpecDocument>,
    pk: Seq<char>,
    max_text: nat,
    max_fields: nat,
)
    requires
        forall|k: Seq<char>|
            key_map(db, pk).dom().contains(k) ==> spec_process_document(
                #[trigger] key_map(db, pk)[k],
                pk,
                max_text,
                max_fields,
            ) is Ok,
    ensures
        apply_plan_keys(
            key_map(meili, pk).dom(),
            delete_ids(key_order(meili, pk), key_map(db, pk)),
            upsert_docs(
                key_order(db, pk),
                key_map(db, pk),
                key_order(meili, pk),
                pk,
                max_text,
                max_fields,
            ),
            pk,
        ) =~= key_map(db, pk).dom(),
{
    let mm = key_map(meili, pk);
    let lm = key_map(db, pk);
    let mo = key_order(meili, pk);
    let lo = key_order(db, pk);
    lemma_key_map_order(meili, pk);
    lemma_key_map_order(db, pk);
    lemma_delete_ids_membership(mo, lm);
    assert forall|k: Seq<char>| #[trigger] lo.contains(k) implies lm.dom().contains(k)
        && spec_doc_pk(lm[k], pk) == Some(k) by {}
    lemma_upsert_key_set(lo, lm, mo, pk, max_text, max_fields);
    let dels = delete_ids(mo, lm);
    let ups = upsert_docs(lo, lm, mo, pk, max_text, max_fields);
    assert forall|k: Seq<char>|
        apply_plan_keys(mm.dom(), dels, ups, pk).contains(k) <==> lm.dom().contains(k) by {
        assert(dels.to_set().contains(k) <==> dels.contains(k));
        if apply_plan_keys(mm.dom(), dels, ups, pk).contains(k) {
            if mm.dom().contains(k) && !dels.contains(k) {
                assert(mo.contains(k));
                assert(lm.dom().contains(k));
            } else {
                assert(upsert_key_set(ups, pk).contains(k));
                assert(lo.contains(k));
            }
        }
        if lm.dom().contains(k) {
            if mm.dom().contains(k) {
                assert(!dels.contains(k));
            } else {
                assert(lo.contains(k));
                assert(!mo.contains(k));
                assert(spec_process_document(lm[k], pk, max_text, max_fields) is Ok);
                assert(upsert_key_set(ups, pk).contains(k));
            }
        }
    }
}

proof fn lemma_delete_ids_empty(morder: Seq<Seq<char>>, local: Map<Seq<char>, SpecDocument>)
    requires
        forall|k: Seq<char>| #[trigger] morder.contains(k) ==> local.dom().contains(k),
    ensures
        delete_ids(morder, local) =~= Seq::<Seq<char>>::empty(),
    decreases morder.len(),
{
    if morder.len() > 0 {
        assert forall|k: Seq<char>| #[trigger]
            morder.drop_last().contains(k) implies local.dom().contains(k) by {
            lemma_seq_contains_of_drop_last(morder, k);
        }
        lemma_delete_ids_empty(morder.drop_last(), local);
        assert(morder[morder.len() - 1] == morder.last());
        assert(morder.contains(morder.last()));
    }
}

proof fn lemma_upsert_docs_empty(
    lorder: Seq<Seq<char>>,
    local: Map<Seq<char>, SpecDocument>,
    rorder: Seq<Seq<char>>,
    pk: Seq<char>,
    max_text: nat,
    max_fields: nat,
)
    requires
        forall|k: Seq<char>| #[trigger]
            lorder.contains(k) ==> rorder.contains(k) || !(spec_process_document(
                local[k],
                pk,
                max_text,
                max_fields,
            ) is Ok),
    ensures
        upsert_docs(lorder, local, rorder, pk, max_text, max_fields) =~= Seq::<
            SpecDocument,
        >::empty(),
    decreases lorder.len(),
{
    if lorder.len() > 0 {
        assert forall|k: Seq<char>| #[trigger] lorder.drop_last().contains(k) implies
            rorder.contains(k) || !(spec_process_document(local[k], pk, max_text, max_fields)
            is Ok) by {
            lemma_seq_contains_of_drop_last(lorder, k);
        }
        lemma_upsert_docs_empty(lorder.drop_last(), local, rorder, pk, max_text, max_fields);
        assert(lorder[lorder.len() - 1] == lorder.last());
        assert(lorder.contains(lorder.last()));
    }
}

/// Law: idempotence. When the index already holds only database identities
/// and lacks only those whose rows normalization rejects, a reconciliation
/// plan issues no deletion and no upsert. In particular, two consecutive
/// reconciliations with no intervening database change leave nothing for
/// the second to do.
pub proof fn lemma_reconciliation_idempotent(
    meili: Seq<SpecDocument>,
    db: Seq<SpecDocument>,
    pk: Seq<char>,
    max_text: nat,
    max_fields: nat,
)
    requires
        forall|k: Seq<char>|
            key_map(meili, pk).dom().contains(k) ==> key_map(db, pk).dom().contains(k),
        forall|k: Seq<char>|
            key_map(db, pk).dom().contains(k) && !key_map(meili, pk).dom().contains(k) ==> !(
            spec_process_document(#[trigger] key_map(db, pk)[k], pk, max_text, max_fields) is Ok),
    ensures
        delete_ids(key_order(meili, pk), key_map(db, pk)) =~= Seq::<Seq<char>>::empty(),
        upsert_docs(
            key_order(db, pk),
            key_map(db, pk),
            key_order(meili, pk),
            pk,
            max_text,
            max_fields,
        ) =~= Seq::<SpecDocument>::empty(),
{
    let mm = key_map(meili, pk);
    let lm = key_map(db, pk);
    let mo = key_order(meili, pk);
    let lo = key_order(db, pk);
    lemma_key_map_order(meili, pk);
    lemma_key_map_order(db, pk);
    assert forall|k: Seq<char>| #[trigger] mo.contains(k) implies lm.dom().contains(k) by {}
    lemma_delete_ids_empty(mo, lm);
    assert forall|k: Seq<char>| #[trigger] lo.contains(k) implies mo.contains(k) || !(
    spec_process_document(lm[k], pk, max_text, max_fields) is Ok) by {
        if !mm.dom().contains(k) {
            assert(!(spec_process_document(lm[k], pk, max_text, max_fields) is Ok));
        }
    }
    lemma_upsert_docs_empty(lo, lm, mo, pk, max_text, max_fields);
}

/// One step the batch runner is asked to take.
#[derive(Debug, PartialEq, Eq, Clone, Copy, Structural)]
pub enum DispatchStep {
    /// Launch the batch with this index.
    LaunchBatch(usize),
    /// Wait for the oldest in-flight batch before anything else.
    AwaitOldest,
    /// Every batch has been launched and has completed.
    Finished,
}

/// The sliding window of in-flight upsert batches: batches are launched in
/// order, at most `max_in_flight` are outstanding at once, and the oldest
/// outstanding batch is always the one awaited.
#[derive(Debug)]
pub struct BatchDispatcher {
    pub total_batches: usize,
    pub launched: usize,
    pub in_flight: Vec<usize>,
    pub max_in_flight: usize,
}

impl BatchDispatcher {
    /// The dispatcher's invariant: the outstanding batches are exactly the
    /// most recently launched ones, in launch order, and never more than
    /// the bound.
    pub open spec fn wf(&self) -> bool {
        &&& self.max_in_flight >= 1
        &&& self.launched <= self.total_batches
        &&& self.in_flight@.len() <= self.max_in_flight
        &&& self.in_flight@.len() <= self.launched
        &&& forall|i: int|
            0 <= i < self.in_flight@.len() ==> self.in_flight@[i] == self.launched
                - self.in_flight@.len() + i
    }

    /// A dispatcher for `total_batches` batches with at most `max_in_flight`
    /// outstanding.
    pub fn new(total_batches: usize, max_in_flight: usize) -> (r: BatchDispatcher)
        requires
            max_in_flight >= 1,
        ensures
            r.wf(),
            r.total_batches == total_batches,
            r.max_in_flight == max_in_flight,
            r.launched == 0,
            r.in_flight@ =~= Seq::<usize>::empty(),
    {
        BatchDispatcher { total_batches, launched: 0, in_flight: Vec::new(), max_in_flight }
    }

    /// The step the runner takes next.
    pub open spec fn spec_next_step(&self) -> DispatchStep {
        if self.launched < self.total_batches {
            if self.in_flight@.len() < self.max_in_flight {
                DispatchStep::LaunchBatch(self.launched)
            } else {
                DispatchStep::AwaitOldest
            }
        } else if self.in_flight@.len() > 0 {
            DispatchStep::AwaitOldest
        } else {
            DispatchStep::Finished
        }
    }

    /// Decides the next step: launch the next batch while the window has
    /// room and batches remain, await the oldest otherwise, and finish when
    /// nothing is left.
    pub fn next_step(&self) -> (s: DispatchStep)
        ensures
            s == self.spec_next_step(),
    {
        if self.launched < self.total_batches {
            if self.in_flight.len() < self.max_in_flight {
                DispatchStep::LaunchBatch(self.launched)
            } else {
                DispatchStep::AwaitOldest
            }
        } else if self.in_flight.len() > 0 {
            DispatchStep::AwaitOldest
        } else {
            DispatchStep::Finished
        }
    }

    /// Records that the next batch was launched.
    pub fn note_launched(&mut self)
        requires
            old(self).wf(),
            old(self).spec_next_step() == DispatchStep::LaunchBatch(old(self).launched),
        ensures
            final(self).wf(),
            final(self).total_batches == old(self).total_batches,
            final(self).max_in_flight == old(self).max_in_flight,
            final(self).launched == old(self).launched + 1,
            final(self).in_flight@ == old(self).in_flight@.push(old(self).launched),
    {
        self.in_flight.push(self.launched);
        self.launched = self.launched + 1;
    }

    /// Records that the oldest in-flight batch completed; returns its index.
    pub fn note_oldest_completed(&mut self) -> (b: usize)
        requires
            old(self).wf(),
            old(self).in_flight@.len() > 0,
        ensures
            final(self).wf(),
            final(self).total_batches == old(self).total_batches,
            final(self).max_in_flight == old(self).max_in_flight,
            final(self).launched == old(self).launched,
            b == old(self).in_flight@[0],
            final(self).in_flight@ == old(self).in_flight@.drop_first(),
    {
        let b = self.in_flight.remove(0);
        proof {
            assert(final(self).in_flight@ =~= old(self).in_flight@.drop_first());
        }
        b
    }
}

/// Law: bounded concurrency. A well-formed dispatcher never has more than
/// `max_in_flight` batches outstanding; since every operation keeps the
/// dispatcher well formed, the bound holds throughout a cycle.
pub proof fn lemma_bounded_concurrency(d: BatchDispatcher)
    requires
        d.wf(),
    ensures
        d.in_flight@.len() <= d.max_in_flight,
{
}

/// Law: completion. When the dispatcher reports that it is finished, every
/// batch has been launched and none is outstanding.
pub proof fn lemma_dispatch_finished(d: BatchDispatcher)
    requires
        d.wf(),
        d.spec_next_step() == DispatchStep::Finished,
    ensures
        d.launched == d.total_batches,
        d.in_flight@.len() == 0,
{
}

/// The states of one per-table task.
#[derive(Debug, PartialEq, Eq, Clone, Copy, Structural)]
pub enum SyncTaskState {
    Starting,
    InitialSync,
    Idle,
    Syncing,
    Stopping,
    Stopped,
}

/// What a per-table task observes.
#[derive(Debug, PartialEq, Eq, Clone, Copy, Structural)]
pub enum SyncTaskEvent {
    /// The task has been spawned.
    TaskStarted,
    /// The running reconciliation finished; the flag tells whether shutdown
    /// was observed meanwhile.
    SyncCompleted { shutdown_requested: bool },
    /// The poll interval elapsed.
    IntervalElapsed,
    /// The shutdown signal was observed while waiting.
    ShutdownObserved,
}

/// What a per-table task does next.
#[derive(Debug, PartialEq, Eq, Clone, Copy, Structural)]
pub enum SyncTaskAction {
    /// Run one reconciliation cycle.
    BeginSync,
    /// Wait for the poll interval or the shutdown signal.
    WaitForTick,
    /// Signal completion and exit.
    SignalCompletion,
    /// Nothing.
    NoAction,
}

/// The transition table of a per-table task: an initial reconciliation
/// right after start, then wait a tick and reconcile in turn; shutdown
/// observed while waiting stops the task at once, shutdown observed during
/// a cycle stops it when the cycle completes.
pub open spec fn spec_task_step(s: SyncTaskState, e: SyncTaskEvent) -> (SyncTaskState, SyncTaskAction) {
    match (s, e) {
        (SyncTaskState::Starting, SyncTaskEvent::TaskStarted) => (
            SyncTaskState::InitialSync,
            SyncTaskAction::BeginSync,
        ),
        (SyncTaskState::InitialSync, SyncTaskEvent::SyncCompleted { shutdown_requested }) => if shutdown_requested {
            (SyncTaskState::Stopping, SyncTaskAction::SignalCompletion)
        } else {
            (SyncTaskState::Idle, SyncTaskAction::WaitForTick)
        },
        (SyncTaskState::Idle, SyncTaskEvent::IntervalElapsed) => (
            SyncTaskState::Syncing,
            SyncTaskAction::BeginSync,
        ),
        (SyncTaskState::Idle, SyncTaskEvent::ShutdownObserved) => (
            SyncTaskState::Stopping,
            SyncTaskAction::SignalCompletion,
        ),
        (SyncTaskState::Syncing, SyncTaskEvent::SyncCompleted { shutdown_requested }) => if shutdown_requested {
            (SyncTaskState::Stopping, SyncTaskAction::SignalCompletion)
        } else {
            (SyncTaskState::Idle, SyncTaskAction::WaitForTick)
        },
        (SyncTaskState::Stopping, _) => (SyncTaskState::Stopped, SyncTaskAction::NoAction),
        (SyncTaskState::Stopped, _) => (SyncTaskState::Stopped, SyncTaskAction::NoAction),
        (_, _) => (s, SyncTaskAction::NoAction),
    }
}

/// Takes one step of a per-table task.
pub fn sync_task_step(s: SyncTaskState, e: SyncTaskEvent) -> (r: (SyncTaskState, SyncTaskAction))
    ensures
        r == spec_task_step(s, e),
{
    match (s, e) {
        (SyncTaskState::Starting, SyncTaskEvent::TaskStarted) => (
            SyncTaskState::InitialSync,
            SyncTaskAction::BeginSync,
        ),
        (SyncTaskState::InitialSync, SyncTaskEvent::SyncCompleted { shutdown_requested }) => if shutdown_requested {
            (SyncTaskState::Stopping, SyncTaskAction::SignalCompletion)
        } else {
            (SyncTaskState::Idle, SyncTaskAction::WaitForTick)
        },
        (SyncTaskState::Idle, SyncTaskEvent::IntervalElapsed) => (
            SyncTaskState::Syncing,
            SyncTaskAction::BeginSync,
        ),
        (SyncTaskState::Idle, SyncTaskEvent::ShutdownObserved) => (
            SyncTaskState::Stopping,
            SyncTaskAction::SignalCompletion,
        ),
        (SyncTaskState::Syncing, SyncTaskEvent::SyncCompleted { shutdown_requested }) => if shutdown_requested {
            (SyncTaskState::Stopping, SyncTaskAction::SignalCompletion)
        } else {
            (SyncTaskState::Idle, SyncTaskAction::WaitForTick)
        },
        (SyncTaskState::Stopping, _) => (SyncTaskState::Stopped, SyncTaskAction::NoAction),
        (SyncTaskState::Stopped, _) => (SyncTaskState::Stopped, SyncTaskAction::NoAction),
        (_, _) => (s, SyncTaskAction::NoAction),
    }
}

/// Law: a running reconciliation is never abandoned. While a task is
/// syncing, only the completion of the cycle moves it to another state; in
/// particular the shutdown signal does not interrupt the cycle.
pub proof fn lemma_sync_never_interrupted(e: SyncTaskEvent)
    requires
        !(e is SyncCompleted),
    ensures
        spec_task_step(SyncTaskState::Syncing, e).0 == SyncTaskState::Syncing,
        spec_task_step(SyncTaskState::Syncing, e).1 == SyncTaskAction::NoAction,
{
}

} // verus!
