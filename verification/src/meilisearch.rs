//! Search-side logic: the partition of an upload into batches, the default
//! batch sizes, and the per-index settings derived from a table's
//! configuration. The wire client lives at the boundary and consumes these
//! values.

use vstd::prelude::*;

use crate::config::TableConfig;
use crate::document::Document;
use crate::strings::clone_string_vec;
use crate::strings::str_vec_view;
use crate::sync::docs_view;
use crate::sync::SpecDocument;

verus! {

/// Default number of documents per upsert batch.
pub fn default_add_batch_size() -> (r: usize)
    ensures
        r == 100usize,
{
    100
}

/// Default number of identities per delete batch.
pub fn default_delete_batch_size() -> (r: usize)
    ensures
        r == 1000usize,
{
    1000
}

/// The concatenation of a list of lists.
pub open spec fn flatten_seqs<A>(ch: Seq<Seq<A>>) -> Seq<A>
    decreases ch.len(),
{
    if ch.len() == 0 {
        Seq::<A>::empty()
    } else {
        flatten_seqs(ch.drop_last()) + ch.last()
    }
}

/// The total number of elements across a list of lists.
pub open spec fn chunk_total<A>(ch: Seq<Seq<A>>) -> nat
    decreases ch.len(),
{
    if ch.len() == 0 {
        0
    } else {
        chunk_total(ch.drop_last()) + ch.last().len()
    }
}

/// Law: batch coverage. The elements across all batches are exactly the
/// flattened list, so their total count is the flattened list's length;
/// with the partition's flattening equal to the input, every element stands
/// in exactly one batch.
pub proof fn lemma_chunk_total<A>(ch: Seq<Seq<A>>)
    ensures
        chunk_total(ch) == flatten_seqs(ch).len(),
    decreases ch.len(),
{
    if ch.len() > 0 {
        lemma_chunk_total(ch.drop_last());
    }
}

/// Splits documents into consecutive batches of `batch_size`, the last
/// possibly shorter: concatenated in order the batches are exactly the
/// input, every batch is non-empty and at most `batch_size`, and the number
/// of batches is the input's length divided by `batch_size`, rounded up.
pub fn chunk_documents(docs: &Vec<Document>, batch_size: usize) -> (r: Vec<Vec<Document>>)
    requires
        batch_size >= 1,
    ensures
        flatten_seqs(r@.map_values(|c: Vec<Document>| docs_view(c@))) == docs_view(docs@),
        forall|b: int| 0 <= b < r@.len() ==> 1 <= (#[trigger] r@[b])@.len() <= batch_size,
        docs@.len() == 0 ==> r@.len() == 0,
        docs@.len() > 0 ==> (r@.len() - 1) * (batch_size as int) < docs@.len() <= r@.len() * (
        batch_size as int),
{
    let n = docs.len();
    let bs = batch_size;
    let mut r: Vec<Vec<Document>> = Vec::new();
    let mut i: usize = 0;
    proof {
        assert(r@.map_values(|c: Vec<Document>| docs_view(c@)) =~= Seq::<Seq<SpecDocument>>::empty());
        assert(docs_view(docs@).subrange(0, 0) =~= Seq::<SpecDocument>::empty());
    }
    while i < n
        invariant
            n == docs@.len(),
            bs == batch_size,
            bs >= 1,
            i <= n,
            flatten_seqs(r@.map_values(|c: Vec<Document>| docs_view(c@))) =~= docs_view(
                docs@,
            ).subrange(0, i as int),
            forall|b: int| 0 <= b < r@.len() ==> 1 <= (#[trigger] r@[b])@.len() <= bs,
            i < n ==> i as int == r@.len() * (bs as int),
            i == n && n > 0 ==> r@.len() >= 1 && (r@.len() - 1) * (bs as int) < n as int <= r@.len()
                * (bs as int),
            n == 0 ==> r@.len() == 0,
        decreases n - i,
    {
        let ghost c = r@.len() as int;
        let end: usize = if n - i > bs {
            i + bs
        } else {
            n
        };
        let mut chunk: Vec<Document> = Vec::new();
        let mut j: usize = i;
        while j < end
            invariant
                i <= j <= end <= n,
                n == docs@.len(),
                chunk@.len() == j - i,
                forall|k: int| 0 <= k < chunk@.len() ==> chunk@[k]@ == docs@[i + k]@,
            decreases end - j,
        {
            chunk.push(docs[j].clone());
            j = j + 1;
        }
        let ghost chunk_v = docs_view(chunk@);
        proof {
            assert(chunk_v =~= docs_view(docs@).subrange(i as int, end as int));
        }
        let ghost pre = r@;
        r.push(chunk);
        proof {
            let mapped_pre = pre.map_values(|cv: Vec<Document>| docs_view(cv@));
            let mapped = r@.map_values(|cv: Vec<Document>| docs_view(cv@));
            assert(mapped =~= mapped_pre.push(chunk_v));
            assert(mapped.drop_last() =~= mapped_pre);
            assert(mapped.last() == chunk_v);
            assert(flatten_seqs(mapped) == flatten_seqs(mapped_pre) + chunk_v);
            assert(flatten_seqs(mapped) =~= docs_view(docs@).subrange(0, end as int)) by {
                assert(docs_view(docs@).subrange(0, i as int) + docs_view(docs@).subrange(
                    i as int,
                    end as int,
                ) =~= docs_view(docs@).subrange(0, end as int));
            }
            if end < n {
                assert(end as int == (c + 1) * (bs as int)) by (nonlinear_arith)
                    requires
                        end as int == i as int + bs as int,
                        i as int == c * (bs as int),
                {}
            } else {
                assert(n as int <= (c + 1) * (bs as int) && c * (bs as int) < n as int) by (
                nonlinear_arith)
                    requires
                        i as int == c * (bs as int),
                        (i as int) < n as int,
                        n as int <= i as int + bs as int,
                {}
            }
        }
        i = end;
    }
    proof {
        assert(docs_view(docs@).subrange(0, n as int) =~= docs_view(docs@));
    }
    r
}

/// Splits identities into consecutive batches of `batch_size`, the last
/// possibly shorter, exactly as `chunk_documents` does for documents.
pub fn chunk_ids(ids: &Vec<String>, batch_size: usize) -> (r: Vec<Vec<String>>)
    requires
        batch_size >= 1,
    ensures
        flatten_seqs(r@.map_values(|c: Vec<String>| str_vec_view(c@))) == str_vec_view(ids@),
        forall|b: int| 0 <= b < r@.len() ==> 1 <= (#[trigger] r@[b])@.len() <= batch_size,
        ids@.len() == 0 ==> r@.len() == 0,
        ids@.len() > 0 ==> (r@.len() - 1) * (batch_size as int) < ids@.len() <= r@.len() * (
        batch_size as int),
{
    let n = ids.len();
    let bs = batch_size;
    let mut r: Vec<Vec<String>> = Vec::new();
    let mut i: usize = 0;
    proof {
        assert(r@.map_values(|c: Vec<String>| str_vec_view(c@)) =~= Seq::<Seq<Seq<char>>>::empty());
        assert(str_vec_view(ids@).subrange(0, 0) =~= Seq::<Seq<char>>::empty());
    }
    while i < n
        invariant
            n == ids@.len(),
            bs == batch_size,
            bs >= 1,
            i <= n,
            flatten_seqs(r@.map_values(|c: Vec<String>| str_vec_view(c@))) =~= str_vec_view(
                ids@,
            ).subrange(0, i as int),
            forall|b: int| 0 <= b < r@.len() ==> 1 <= (#[trigger] r@[b])@.len() <= bs,
            i < n ==> i as int == r@.len() * (bs as int),
            i == n && n > 0 ==> r@.len() >= 1 && (r@.len() - 1) * (bs as int) < n as int <= r@.len()
                * (bs as int),
            n == 0 ==> r@.len() == 0,
        decreases n - i,
    {
        let ghost c = r@.len() as int;
        let end: usize = if n - i > bs {
            i + bs
        } else {
            n
        };
        let mut chunk: Vec<String> = Vec::new();
        let mut j: usize = i;
        while j < end
            invariant
                i <= j <= end <= n,
                n == ids@.len(),
                chunk@.len() == j - i,
                forall|k: int| 0 <= k < chunk@.len() ==> chunk@[k]@ == ids@[i + k]@,
            decreases end - j,
        {
            chunk.push(ids[j].clone());
            j = j + 1;
        }
        let ghost chunk_v = str_vec_view(chunk@);
        proof {
            assert(chunk_v =~= str_vec_view(ids@).subrange(i as int, end as int));
        }
        let ghost pre = r@;
        r.push(chunk);
        proof {
            let mapped_pre = pre.map_values(|cv: Vec<String>| str_vec_view(cv@));
            let mapped = r@.map_values(|cv: Vec<String>| str_vec_view(cv@));
            assert(mapped =~= mapped_pre.push(chunk_v));
            assert(mapped.drop_last() =~= mapped_pre);
            assert(mapped.last() == chunk_v);
            assert(flatten_seqs(mapped) == flatten_seqs(mapped_pre) + chunk_v);
            assert(flatten_seqs(mapped) =~= str_vec_view(ids@).subrange(0, end as int)) by {
                assert(str_vec_view(ids@).subrange(0, i as int) + str_vec_view(ids@).subrange(
                    i as int,
                    end as int,
                ) =~= str_vec_view(ids@).subrange(0, end as int));
            }
            if end < n {
                assert(end as int == (c + 1) * (bs as int)) by (nonlinear_arith)
                    requires
                        end as int == i as int + bs as int,
                        i as int == c * (bs as int),
                {}
            } else {
                assert(n as int <= (c + 1) * (bs as int) && c * (bs as int) < n as int) by (
                nonlinear_arith)
                    requires
                        i as int == c * (bs as int),
                        (i as int) < n as int,
                        n as int <= i as int + bs as int,
                {}
            }
        }
        i = end;
    }
    proof {
        assert(str_vec_view(ids@).subrange(0, n as int) =~= str_vec_view(ids@));
    }
    r
}

/// The settings applied to one index, as derived from its table's
/// configuration.
#[derive(Debug, PartialEq, Eq)]
pub struct IndexSettings {
    pub searchable_attributes: Option<Vec<String>>,
    pub typo_tolerance_enabled: Option<bool>,
}

/// The mathematical form of `IndexSettings`.
pub struct SpecIndexSettings {
    pub searchable_attributes: Option<Seq<Seq<char>>>,
    pub typo_tolerance_enabled: Option<bool>,
}

impl View for IndexSettings {
    type V = SpecIndexSettings;

    open spec fn view(&self) -> SpecIndexSettings {
        SpecIndexSettings {
            searchable_attributes: match self.searchable_attributes {
                Some(v) => Some(str_vec_view(v@)),
                None => None,
            },
            typo_tolerance_enabled: self.typo_tolerance_enabled,
        }
    }
}

/// The settings an index gets from its table's configuration: the
/// configured searchable attributes, and the typo-tolerance switch when one
/// is configured.
pub fn build_index_settings(table: &TableConfig) -> (r: IndexSettings)
    ensures
        r@.searchable_attributes == table@.searchable_attributes,
        r@.typo_tolerance_enabled == table@.typo_tolerance,
{
    IndexSettings {
        searchable_attributes: match &table.searchable_attributes {
            Some(v) => Some(clone_string_vec(v)),
            None => None,
        },
        typo_tolerance_enabled: match &table.typo_tolerance {
            Some(t) => Some(t.enabled),
            None => None,
        },
    }
}

/// What preparing an index amounts to.
#[derive(Debug, PartialEq, Eq, Clone, Copy, Structural)]
pub enum SetupIndexPlan {
    /// The index stands (or no primary key was given): apply the settings
    /// and nothing else.
    UpdateSettingsOnly,
    /// The index is missing: create it with the primary key, then apply
    /// the settings.
    CreateWithKeyThenSettings,
}

/// The idempotent preparation of one index: a missing index is created
/// with the primary key before its settings are applied; an existing one
/// only has its settings applied.
pub open spec fn spec_setup_index_plan(primary_key_given: bool, index_exists: bool) -> SetupIndexPlan {
    if primary_key_given && !index_exists {
        SetupIndexPlan::CreateWithKeyThenSettings
    } else {
        SetupIndexPlan::UpdateSettingsOnly
    }
}

/// Decides how to prepare an index, given whether a primary key is
/// configured and whether the index already exists.
pub fn setup_index_plan(primary_key_given: bool, index_exists: bool) -> (r: SetupIndexPlan)
    ensures
        r == spec_setup_index_plan(primary_key_given, index_exists),
{
    if primary_key_given && !index_exists {
        SetupIndexPlan::CreateWithKeyThenSettings
    } else {
        SetupIndexPlan::UpdateSettingsOnly
    }
}

} // verus!
