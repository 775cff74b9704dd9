//! The per-document rules of the reconciliation engine: the primary-key
//! identity of rows and documents, document normalization, and the startup
//! decisions of the connector (database URL derivation and table
//! validation).
//!
//! The per-table diff and the scheduling of cycles are in `sync`.

use vstd::prelude::*;

use crate::config::DatabaseConfig;
use crate::config::SpecTableConfig;
use crate::config::TableConfig;
use crate::database::has_double_slash;
use crate::database::strip_double_slashes;
use crate::database::strip_leading_double_slashes;
use crate::document::doc_get;
use crate::document::document_byte_size;
use crate::document::document_byte_len;
use crate::document::fields_view;
use crate::document::is_valid_pk_value;
use crate::document::is_valid_pk;
use crate::document::pk_string;
use crate::document::pk_string_of;
use crate::document::Document;
use crate::document::FieldValue;
use crate::document::SpecFieldValue;
use crate::error::ConnectorError;
use crate::error::SpecConnectorError;
use crate::strings::concat_str;
use crate::strings::contains_char;
use crate::strings::str_chars;
use crate::strings::str_contains_char;
use crate::strings::str_eq;
use crate::strings::str_vec_view;
use crate::MAX_DOCUMENT_BYTES;

verus! {

/// The identity of a document under the table's primary key: the canonical
/// primary-key string, or nothing when the field is absent or its value
/// fails the identity rule.
pub open spec fn spec_doc_pk(doc: Seq<(Seq<char>, SpecFieldValue)>, pk: Seq<char>) -> Option<
    Seq<char>,
> {
    match doc_get(doc, pk) {
        None => None,
        Some(v) => if is_valid_pk_value(v) {
            Some(pk_string(v))
        } else {
            None
        },
    }
}

/// Extracts the identity of a document: its primary-key string together
/// with the document itself, or nothing when the identity rule rejects it.
pub fn ensure_valid_primary_key(doc: &Document, table: &TableConfig) -> (r: Option<
    (String, Document),
>)
    ensures
        match r {
            Some(p) => spec_doc_pk(doc@, table@.primary_key) == Some(p.0@) && p.1@ == doc@,
            None => spec_doc_pk(doc@, table@.primary_key) is None,
        },
{
    match doc.get(table.primary_key.as_str()) {
        None => None,
        Some(v) => {
            if is_valid_pk(v) {
                let id = pk_string_of(v);
                Some((id, doc.clone()))
            } else {
                None
            }
        },
    }
}

/// Normalization of one non-key scalar: an absent value becomes the empty
/// string, text longer than the cap is truncated to the cap (counted in
/// code points), everything else passes through unchanged.
pub open spec fn norm_value(v: SpecFieldValue, max_text: nat) -> SpecFieldValue {
    match v {
        SpecFieldValue::Null => SpecFieldValue::Text(Seq::<char>::empty()),
        SpecFieldValue::Text(s) => if s.len() > max_text {
            SpecFieldValue::Text(s.take(max_text as int))
        } else {
            v
        },
        _ => v,
    }
}

/// Normalizes one non-key scalar.
pub fn normalize_value(v: &FieldValue, max_text: usize) -> (r: FieldValue)
    ensures
        r@ == norm_value(v@, max_text as nat),
{
    match v {
        FieldValue::Null => FieldValue::Text(String::new()),
        FieldValue::Text(s) => {
            let n = s.as_str().unicode_len();
            if n > max_text {
                let t = s.as_str().substring_char(0, max_text).to_owned();
                proof {
                    assert(t@ =~= s@.take(max_text as int));
                }
                FieldValue::Text(t)
            } else {
                FieldValue::Text(s.clone())
            }
        },
        FieldValue::Integer(i) => FieldValue::Integer(*i),
        FieldValue::Boolean(b) => FieldValue::Boolean(*b),
        FieldValue::Raw(s) => FieldValue::Raw(s.clone()),
    }
}

/// The number of non-key fields a normalized document may carry.
pub open spec fn field_budget(max_fields: nat) -> nat {
    if max_fields == 0 {
        0
    } else {
        (max_fields - 1) as nat
    }
}

/// The normalized non-key fields: in order, fields named like the primary
/// key are dropped, and the walk stops at the first non-key field past the
/// budget.
pub open spec fn norm_fields(
    fields: Seq<(Seq<char>, SpecFieldValue)>,
    pk: Seq<char>,
    budget: nat,
    max_text: nat,
) -> Seq<(Seq<char>, SpecFieldValue)>
    decreases fields.len(),
{
    if fields.len() == 0 {
        Seq::<(Seq<char>, SpecFieldValue)>::empty()
    } else if fields[0].0 == pk {
        norm_fields(fields.drop_first(), pk, budget, max_text)
    } else if budget == 0 {
        Seq::<(Seq<char>, SpecFieldValue)>::empty()
    } else {
        seq![(fields[0].0, norm_value(fields[0].1, max_text))] + norm_fields(
            fields.drop_first(),
            pk,
            (budget - 1) as nat,
            max_text,
        )
    }
}

/// The normalized document: the primary-key field first, copied in
/// unchanged, then the normalized non-key fields.
pub open spec fn spec_normalized_doc(
    doc: Seq<(Seq<char>, SpecFieldValue)>,
    pk: Seq<char>,
    max_text: nat,
    max_fields: nat,
) -> Seq<(Seq<char>, SpecFieldValue)>
    recommends
        doc_get(doc, pk) is Some,
{
    seq![(pk, doc_get(doc, pk)->Some_0)] + norm_fields(doc, pk, field_budget(max_fields), max_text)
}

/// What normalizing a document yields: a configuration error when the
/// primary-key field is absent, a "document too large" error when the
/// normalized document's serialized byte length exceeds the cap, and the
/// normalized document otherwise.
pub open spec fn spec_process_document(
    doc: Seq<(Seq<char>, SpecFieldValue)>,
    pk: Seq<char>,
    max_text: nat,
    max_fields: nat,
) -> Result<Seq<(Seq<char>, SpecFieldValue)>, SpecConnectorError> {
    if doc_get(doc, pk) is None {
        Err(SpecConnectorError::Config("Document missing primary key: "@ + pk))
    } else {
        let nd = spec_normalized_doc(doc, pk, max_text, max_fields);
        if document_byte_size(nd) > MAX_DOCUMENT_BYTES as nat {
            Err(SpecConnectorError::Config("Document too large"@))
        } else {
            Ok(nd)
        }
    }
}

/// Builds the document submitted to the search service for one row: the
/// primary key copied in unchanged, the other fields normalized in order up
/// to the field cap, the whole rejected when its serialization exceeds the
/// document-size cap.
pub fn process_document_obj(
    table: &TableConfig,
    doc: &Document,
    max_text_length: usize,
    max_fields: usize,
) -> (r: Result<Document, ConnectorError>)
    ensures
        match spec_process_document(
            doc@,
            table@.primary_key,
            max_text_length as nat,
            max_fields as nat,
        ) {
            Ok(nd) => r is Ok && r->Ok_0@ == nd,
            Err(e) => r is Err && r->Err_0@ == e,
        },
{
    let pkv: FieldValue = match doc.get(table.primary_key.as_str()) {
        None => {
            return Err(
                ConnectorError::Config(
                    concat_str("Document missing primary key: ", table.primary_key.as_str()),
                ),
            );
        },
        Some(v) => v.clone(),
    };
    let ghost pk = table@.primary_key;
    let ghost b0 = field_budget(max_fields as nat);
    let ghost mt = max_text_length as nat;
    let ghost target = seq![(pk, pkv@)] + norm_fields(doc@, pk, b0, mt);

    let mut out: Vec<(String, FieldValue)> = Vec::new();
    out.push((table.primary_key.clone(), pkv));
    proof {
        assert(fields_view(out@) =~= seq![(pk, out@[0].1@)]);
    }
    let mut budget: usize = if max_fields == 0 {
        0
    } else {
        max_fields - 1
    };
    let mut i: usize = 0;
    let mut stopped = false;
    proof {
        assert(doc@.skip(0) =~= doc@);
    }
    let n = doc.fields.len();
    while i < n && !stopped
        invariant
            n == doc.fields@.len(),
            doc@.len() == n,
            i <= n,
            budget <= b0,
            mt == max_text_length as nat,
            pk == table@.primary_key,
            !stopped ==> target =~= fields_view(out@) + norm_fields(
                doc@.skip(i as int),
                pk,
                budget as nat,
                mt,
            ),
            stopped ==> target =~= fields_view(out@),
        decreases n - i, if stopped { 0int } else { 1int },
    {
        proof {
            assert(doc@[i as int] == (doc.fields@[i as int].0@, doc.fields@[i as int].1@));
            assert(doc@.skip(i as int).drop_first() =~= doc@.skip(i + 1));
            assert(doc@.skip(i as int)[0] == doc@[i as int]);
        }
        let name = &doc.fields[i].0;
        if str_eq(name.as_str(), table.primary_key.as_str()) {
            i = i + 1;
        } else if budget == 0 {
            stopped = true;
        } else {
            let nv = normalize_value(&doc.fields[i].1, max_text_length);
            let cloned = name.clone();
            let ghost cn = cloned@;
            let ghost nvv = nv@;
            proof {
                let fi = doc.fields@[i as int];
                assert(doc@[i as int] == (fi.0@, fi.1@));
                assert(cn == fi.0@);
                assert(nvv == norm_value(fi.1@, mt));
                assert(doc@[i as int].0 == fi.0@);
                assert(doc@[i as int].1 == fi.1@);
                assert(nvv == norm_value(doc@[i as int].1, mt));
            }
            let ghost pre = out@;
            let entry = (cloned, nv);
            let ghost ev = entry;
            out.push(entry);
            proof {
                let win = doc@.skip(i as int);
                assert(out@ == pre.push(ev));
                assert(ev.0@ == cn && ev.1@ == nvv);
                assert(fields_view(out@) =~= fields_view(pre).push((cn, nvv)));
                assert(win[0] == doc@[i as int]);
                assert(win.len() > 0 && win[0].0 != pk && budget as nat > 0);
                assert(norm_fields(win, pk, budget as nat, mt) == seq![
                    (win[0].0, norm_value(win[0].1, mt)),
                ] + norm_fields(win.drop_first(), pk, (budget - 1) as nat, mt));
                assert((win[0].0, norm_value(win[0].1, mt)) == (cn, nvv));
                assert(norm_fields(win.drop_first(), pk, (budget - 1) as nat, mt) == norm_fields(
                    doc@.skip(i + 1),
                    pk,
                    (budget - 1) as nat,
                    mt,
                ));
                assert(fields_view(pre) + norm_fields(win, pk, budget as nat, mt) =~= fields_view(
                    out@,
                ) + norm_fields(doc@.skip(i + 1), pk, (budget - 1) as nat, mt));
            }
            budget = budget - 1;
            i = i + 1;
        }
    }
    proof {
        if !stopped {
            assert(doc@.skip(n as int) =~= Seq::<(Seq<char>, SpecFieldValue)>::empty());
        }
        assert(target =~= fields_view(out@));
    }
    let normalized = Document { fields: out };
    let size = document_byte_len(&normalized);
    if size > MAX_DOCUMENT_BYTES as u128 {
        return Err(ConnectorError::Config(String::from_str("Document too large")));
    }
    Ok(normalized)
}

/// Law: normalization preserves identity. The normalized document carries
/// the table's primary-key field with the row's own value, so its
/// primary-key string — and whether the identity rule accepts it — is
/// exactly the row's.
pub proof fn lemma_normalization_preserves_identity(
    doc: Seq<(Seq<char>, SpecFieldValue)>,
    pk: Seq<char>,
    max_text: nat,
    max_fields: nat,
)
    requires
        doc_get(doc, pk) is Some,
    ensures
        spec_doc_pk(spec_normalized_doc(doc, pk, max_text, max_fields), pk) == spec_doc_pk(
            doc,
            pk,
        ),
{
    let nd = spec_normalized_doc(doc, pk, max_text, max_fields);
    assert(nd[0] == (pk, doc_get(doc, pk)->Some_0));
    assert(doc_get(nd, pk) == Some(doc_get(doc, pk)->Some_0));
}

proof fn lemma_norm_fields_names(
    fields: Seq<(Seq<char>, SpecFieldValue)>,
    pk: Seq<char>,
    budget: nat,
    max_text: nat,
)
    ensures
        forall|j: int|
            0 <= j < norm_fields(fields, pk, budget, max_text).len() ==> (#[trigger] norm_fields(
                fields,
                pk,
                budget,
                max_text,
            )[j]).0 != pk && exists|k: int|
                0 <= k < fields.len() && (#[trigger] fields[k]).0 == norm_fields(
                    fields,
                    pk,
                    budget,
                    max_text,
                )[j].0,
    decreases fields.len(),
{
    let nf = norm_fields(fields, pk, budget, max_text);
    if fields.len() == 0 {
    } else if fields[0].0 == pk {
        lemma_norm_fields_names(fields.drop_first(), pk, budget, max_text);
        assert forall|j: int| 0 <= j < nf.len() implies (#[trigger] nf[j]).0 != pk && exists|k: int|
            0 <= k < fields.len() && (#[trigger] fields[k]).0 == nf[j].0 by {
            let rest = fields.drop_first();
            let nrest = norm_fields(rest, pk, budget, max_text);
            assert(nf == nrest);
            assert(nrest[j].0 != pk);
            let k0 = choose|k0: int| 0 <= k0 < rest.len() && (#[trigger] rest[k0]).0 == nrest[j].0;
            assert(fields[k0 + 1] == rest[k0]);
            assert(fields[k0 + 1].0 == nf[j].0);
        }
    } else if budget == 0 {
    } else {
        lemma_norm_fields_names(fields.drop_first(), pk, (budget - 1) as nat, max_text);
        let rest = fields.drop_first();
        let nrest = norm_fields(rest, pk, (budget - 1) as nat, max_text);
        assert forall|j: int| 0 <= j < nf.len() implies (#[trigger] nf[j]).0 != pk && exists|k: int|
            0 <= k < fields.len() && (#[trigger] fields[k]).0 == nf[j].0 by {
            if j == 0 {
                assert(fields[0].0 == nf[0].0);
            } else {
                assert(nf[j] == nrest[j - 1]);
                let k0 = choose|k0: int|
                    0 <= k0 < rest.len() && (#[trigger] rest[k0]).0 == nrest[j - 1].0;
                assert(fields[k0 + 1].0 == nf[j].0);
            }
        }
    }
}

proof fn lemma_norm_fields_wf(
    fields: Seq<(Seq<char>, SpecFieldValue)>,
    pk: Seq<char>,
    budget: nat,
    max_text: nat,
)
    requires
        crate::document::doc_fields_wf(fields),
    ensures
        crate::document::doc_fields_wf(norm_fields(fields, pk, budget, max_text)),
    decreases fields.len(),
{
    let nf = norm_fields(fields, pk, budget, max_text);
    if fields.len() == 0 {
    } else {
        let rest = fields.drop_first();
        assert(crate::document::doc_fields_wf(rest)) by {
            assert forall|a: int, b: int| 0 <= a < b < rest.len() implies rest[a].0 != rest[b].0 by {
                assert(fields[a + 1].0 != fields[b + 1].0);
            }
        }
        if fields[0].0 == pk {
            lemma_norm_fields_wf(rest, pk, budget, max_text);
        } else if budget == 0 {
        } else {
            lemma_norm_fields_wf(rest, pk, (budget - 1) as nat, max_text);
            lemma_norm_fields_names(rest, pk, (budget - 1) as nat, max_text);
            let nrest = norm_fields(rest, pk, (budget - 1) as nat, max_text);
            assert forall|a: int, b: int| 0 <= a < b < nf.len() implies nf[a].0 != nf[b].0 by {
                if a == 0 {
                    assert(nf[b] == nrest[b - 1]);
                    let k0 = choose|k0: int|
                        0 <= k0 < rest.len() && (#[trigger] rest[k0]).0 == nrest[b - 1].0;
                    assert(fields[0].0 != fields[k0 + 1].0);
                } else {
                    assert(nf[a] == nrest[a - 1] && nf[b] == nrest[b - 1]);
                }
            }
        }
    }
}

/// Law: the normalizer emits well-formed documents. When a row's field
/// names are pairwise distinct, so are the names of its normalized
/// document; in particular the primary-key field stands in it exactly
/// once, first.
pub proof fn lemma_normalized_doc_wf(
    doc: Seq<(Seq<char>, SpecFieldValue)>,
    pk: Seq<char>,
    max_text: nat,
    max_fields: nat,
)
    requires
        crate::document::doc_fields_wf(doc),
        doc_get(doc, pk) is Some,
    ensures
        crate::document::doc_fields_wf(spec_normalized_doc(doc, pk, max_text, max_fields)),
        spec_normalized_doc(doc, pk, max_text, max_fields)[0].0 == pk,
{
    let nd = spec_normalized_doc(doc, pk, max_text, max_fields);
    let nf = norm_fields(doc, pk, field_budget(max_fields), max_text);
    lemma_norm_fields_wf(doc, pk, field_budget(max_fields), max_text);
    lemma_norm_fields_names(doc, pk, field_budget(max_fields), max_text);
    assert forall|a: int, b: int| 0 <= a < b < nd.len() implies nd[a].0 != nd[b].0 by {
        if a == 0 {
            assert(nd[b] == nf[b - 1]);
            assert(nf[b - 1].0 != pk);
        } else {
            assert(nd[a] == nf[a - 1] && nd[b] == nf[b - 1]);
        }
    }
}

proof fn lemma_norm_fields_bounds(
    fields: Seq<(Seq<char>, SpecFieldValue)>,
    pk: Seq<char>,
    budget: nat,
    max_text: nat,
)
    ensures
        norm_fields(fields, pk, budget, max_text).len() <= budget,
        forall|i: int|
            0 <= i < norm_fields(fields, pk, budget, max_text).len() && (#[trigger] norm_fields(
                fields,
                pk,
                budget,
                max_text,
            )[i]).1 is Text ==> norm_fields(fields, pk, budget, max_text)[i].1->Text_0.len()
                <= max_text,
    decreases fields.len(),
{
    if fields.len() == 0 {
    } else if fields[0].0 == pk {
        lemma_norm_fields_bounds(fields.drop_first(), pk, budget, max_text);
    } else if budget == 0 {
    } else {
        lemma_norm_fields_bounds(fields.drop_first(), pk, (budget - 1) as nat, max_text);
        let nv = norm_value(fields[0].1, max_text);
        if nv is Text {
            assert(nv->Text_0.len() <= max_text);
        }
    }
}

/// Law: size bounds. A document that normalization emits serializes to at
/// most the document-size cap, carries at most the field cap (the key plus
/// the non-key budget), none of its non-key text fields exceeds the
/// text-length cap in code points, and no text field at all — the key
/// included, which is copied in unchanged — exceeds the document-size cap
/// in code points.
pub proof fn lemma_normalized_size_bounds(
    doc: Seq<(Seq<char>, SpecFieldValue)>,
    pk: Seq<char>,
    max_text: nat,
    max_fields: nat,
)
    requires
        spec_process_document(doc, pk, max_text, max_fields) is Ok,
    ensures
        document_byte_size(spec_process_document(doc, pk, max_text, max_fields)->Ok_0)
            <= MAX_DOCUMENT_BYTES,
        spec_process_document(doc, pk, max_text, max_fields)->Ok_0.len() <= 1 + field_budget(
            max_fields,
        ),
        forall|i: int|
            1 <= i < spec_process_document(doc, pk, max_text, max_fields)->Ok_0.len() && (
            #[trigger] spec_process_document(doc, pk, max_text, max_fields)->Ok_0[i]).1 is Text
                ==> spec_process_document(doc, pk, max_text, max_fields)->Ok_0[i].1->Text_0.len()
                <= max_text,
        forall|i: int|
            0 <= i < spec_process_document(doc, pk, max_text, max_fields)->Ok_0.len() && (
            #[trigger] spec_process_document(doc, pk, max_text, max_fields)->Ok_0[i]).1 is Text
                ==> spec_process_document(doc, pk, max_text, max_fields)->Ok_0[i].1->Text_0.len()
                <= MAX_DOCUMENT_BYTES,
{
    let nd = spec_process_document(doc, pk, max_text, max_fields)->Ok_0;
    let nf = norm_fields(doc, pk, field_budget(max_fields), max_text);
    lemma_norm_fields_bounds(doc, pk, field_budget(max_fields), max_text);
    assert forall|i: int| 1 <= i < nd.len() && (#[trigger] nd[i]).1 is Text implies nd[i].1->Text_0.len()
        <= max_text by {
        assert(nd[i] == nf[i - 1]);
    }
    assert forall|i: int| 0 <= i < nd.len() && (#[trigger] nd[i]).1 is Text implies nd[i].1->Text_0.len()
        <= MAX_DOCUMENT_BYTES by {
        crate::document::lemma_text_field_le_document_size(nd, i);
    }
}

/// The database URL the connector derives from its configuration: only the
/// SQLite type is supported, and its connection string is prefixed according
/// to its shape (double-slash paths collapsed, absolute paths and paths that
/// already carry a scheme or drive letter kept, relative paths anchored).
pub open spec fn spec_connector_database_url(type_: Seq<char>, conn: Seq<char>) -> Result<
    Seq<char>,
    SpecConnectorError,
> {
    if type_ == "sqlite"@ {
        Ok(
            if has_double_slash(conn) {
                "sqlite:/"@ + strip_double_slashes(conn)
            } else if conn.len() >= 1 && conn[0] == '/' {
                "sqlite:"@ + conn
            } else if contains_char(conn, ':') {
                "sqlite:"@ + conn
            } else {
                "sqlite:./"@ + conn
            },
        )
    } else {
        Err(SpecConnectorError::UnsupportedDatabaseType(type_))
    }
}

/// Derives the database URL for the configured database.
pub fn database_url_for(db: &DatabaseConfig) -> (r: Result<String, ConnectorError>)
    ensures
        match spec_connector_database_url(db@.type_, db@.connection_string) {
            Ok(u) => r is Ok && r->Ok_0@ == u,
            Err(e) => r is Err && r->Err_0@ == e,
        },
{
    if !str_eq(db.type_.as_str(), "sqlite") {
        return Err(ConnectorError::UnsupportedDatabaseType(db.type_.clone()));
    }
    let conn = db.connection_string.as_str();
    let v = str_chars(conn);
    if v.len() >= 2 && v[0] == '/' && v[1] == '/' {
        let stripped = strip_leading_double_slashes(conn);
        Ok(concat_str("sqlite:/", stripped.as_str()))
    } else if v.len() >= 1 && v[0] == '/' {
        Ok(concat_str("sqlite:", conn))
    } else if str_contains_char(conn, ':') {
        Ok(concat_str("sqlite:", conn))
    } else {
        Ok(concat_str("sqlite:./", conn))
    }
}

/// True when some name in `hay` is `needle`.
pub open spec fn seq_contains_str(hay: Seq<Seq<char>>, needle: Seq<char>) -> bool {
    exists|j: int| 0 <= j < hay.len() && hay[j] == needle
}

/// The name of the first configured table that the database does not have.
pub open spec fn first_missing_table(
    tables: Seq<SpecTableConfig>,
    db_tables: Seq<Seq<char>>,
) -> Option<Seq<char>>
    decreases tables.len(),
{
    if tables.len() == 0 {
        None
    } else if !seq_contains_str(db_tables, tables[0].name) {
        Some(tables[0].name)
    } else {
        first_missing_table(tables.drop_first(), db_tables)
    }
}

proof fn lemma_first_missing_at(tables: Seq<SpecTableConfig>, db_tables: Seq<Seq<char>>, i: int)
    requires
        0 <= i < tables.len(),
        !seq_contains_str(db_tables, tables[i].name),
        forall|j: int| 0 <= j < i ==> seq_contains_str(db_tables, tables[j].name),
    ensures
        first_missing_table(tables, db_tables) == Some(tables[i].name),
    decreases i,
{
    if i > 0 {
        lemma_first_missing_at(tables.drop_first(), db_tables, i - 1);
    }
}

proof fn lemma_first_missing_none(tables: Seq<SpecTableConfig>, db_tables: Seq<Seq<char>>)
    requires
        forall|j: int| 0 <= j < tables.len() ==> seq_contains_str(db_tables, tables[j].name),
    ensures
        first_missing_table(tables, db_tables) is None,
    decreases tables.len(),
{
    if tables.len() > 0 {
        lemma_first_missing_none(tables.drop_first(), db_tables);
    }
}

/// Decides whether `name` occurs among `names`.
fn contains_name(names: &Vec<String>, name: &str) -> (r: bool)
    ensures
        r == seq_contains_str(str_vec_view(names@), name@),
{
    let mut j: usize = 0;
    while j < names.len()
        invariant
            j <= names@.len(),
            forall|k: int| 0 <= k < j ==> str_vec_view(names@)[k] != name@,
        decreases names@.len() - j,
    {
        assert(str_vec_view(names@)[j as int] == names@[j as int]@);
        if str_eq(names[j].as_str(), name) {
            return true;
        }
        j = j + 1;
    }
    false
}

/// Validates that every configured table exists in the database: fails on
/// the first configured table whose name the database does not list.
pub fn check_tables_exist(tables: &Vec<TableConfig>, db_tables: &Vec<String>) -> (r: Result<
    (),
    ConnectorError,
>)
    ensures
        match first_missing_table(
            tables@.map_values(|t: TableConfig| t@),
            str_vec_view(db_tables@),
        ) {
            None => r is Ok,
            Some(name) => r is Err && r->Err_0@ == SpecConnectorError::Config(
                "Table '"@ + name + "' not found in database"@,
            ),
        },
{
    let ghost tv = tables@.map_values(|t: TableConfig| t@);
    let mut i: usize = 0;
    while i < tables.len()
        invariant
            i <= tables@.len(),
            tv == tables@.map_values(|t: TableConfig| t@),
            forall|j: int| 0 <= j < i ==> seq_contains_str(str_vec_view(db_tables@), tv[j].name),
        decreases tables@.len() - i,
    {
        assert(tv[i as int] == tables@[i as int]@);
        if !contains_name(db_tables, tables[i].name.as_str()) {
            proof {
                lemma_first_missing_at(tv, str_vec_view(db_tables@), i as int);
            }
            let head = concat_str("Table '", tables[i].name.as_str());
            return Err(
                ConnectorError::Config(concat_str(head.as_str(), "' not found in database")),
            );
        }
        i = i + 1;
    }
    proof {
        lemma_first_missing_none(tv, str_vec_view(db_tables@));
    }
    Ok(())
}

} // verus!
