//! Database-side logic: the connection-string rules for file-backed
//! databases, the choice of adapter for a database URL, the scalar rules of
//! the row conversion, and the stub adapters for dialects that are reserved
//! but not yet implemented.
//!
//! The connections themselves, and the SQL, live at the boundary; what is
//! here is every decision that can be taken on plain values.

use vstd::prelude::*;

use crate::document::nat_repr;
use crate::document::u64_to_string;
use crate::document::FieldValue;
use crate::error::ConnectorError;
use crate::error::SpecConnectorError;
use crate::strings::chars_to_string;
use crate::strings::concat_str;
use crate::strings::contains_char;
use crate::strings::has_prefix;
use crate::strings::starts_with_str;
use crate::strings::str_chars;
use crate::strings::str_contains_char;
use crate::strings::str_eq;

verus! {

/// What `url::Url::parse` makes of a text: on success the URL's scheme and
/// path, on failure the parse error's description. Parsing is a function of
/// the text alone.
pub uninterp spec fn url_parse_parts(s: Seq<char>) -> Result<(Seq<char>, Seq<char>), Seq<char>>;

/// Relies on `url::Url::parse`, `Url::scheme` and `Url::path`: parses an
/// absolute URL and hands back its scheme and path slices, or the error's
/// description.
#[verifier::external_body]
fn parse_url_parts(s: &str) -> (r: Result<(String, String), String>)
    ensures
        match r {
            Ok(p) => url_parse_parts(s@) == Ok::<(Seq<char>, Seq<char>), Seq<char>>((p.0@, p.1@)),
            Err(m) => url_parse_parts(s@) == Err::<(Seq<char>, Seq<char>), Seq<char>>(m@),
        },
{
    match url::Url::parse(s) {
        Ok(u) => Ok((u.scheme().to_owned(), u.path().to_owned())),
        Err(e) => Err(e.to_string()),
    }
}

/// True when the text begins with two slashes.
pub open spec fn has_double_slash(s: Seq<char>) -> bool {
    s.len() >= 2 && s[0] == '/' && s[1] == '/'
}

/// Repeatedly removes a leading pair of slashes.
pub open spec fn strip_double_slashes(s: Seq<char>) -> Seq<char>
    decreases s.len(),
{
    if has_double_slash(s) {
        strip_double_slashes(s.skip(2))
    } else {
        s
    }
}

/// Path normalization for file-backed databases: a leading `//` is collapsed
/// to a single `/`; any other path is kept as it is.
pub open spec fn spec_normalized_sqlite_path(p: Seq<char>) -> Seq<char> {
    if has_double_slash(p) {
        seq!['/'] + strip_double_slashes(p)
    } else {
        p
    }
}

/// Removes every leading pair of slashes of `p`.
pub fn strip_leading_double_slashes(p: &str) -> (r: String)
    ensures
        r@ == strip_double_slashes(p@),
{
    let v = str_chars(p);
    let n = v.len();
    let mut i: usize = 0;
    proof {
        assert(v@.skip(0) =~= p@);
    }
    while i < n && i + 1 < n && v[i] == '/' && v[i + 1] == '/'
        invariant
            n == v@.len(),
            v@ == p@,
            i <= n,
            strip_double_slashes(p@) == strip_double_slashes(v@.skip(i as int)),
        decreases n - i,
    {
        proof {
            assert(v@.skip(i as int).skip(2) =~= v@.skip(i + 2));
        }
        i = i + 2;
    }
    proof {
        assert(!has_double_slash(v@.skip(i as int)));
    }
    let mut out: Vec<char> = Vec::new();
    let mut j: usize = i;
    while j < n
        invariant
            n == v@.len(),
            i <= j <= n,
            out@ == v@.subrange(i as int, j as int),
        decreases n - j,
    {
        out.push(v[j]);
        proof {
            assert(v@.subrange(i as int, j + 1) =~= v@.subrange(i as int, j as int).push(
                v@[j as int],
            ));
        }
        j = j + 1;
    }
    proof {
        assert(v@.subrange(i as int, n as int) =~= v@.skip(i as int));
    }
    chars_to_string(&out)
}

/// Normalizes a file-backed database path.
pub fn normalize_sqlite_path(p: &str) -> (r: String)
    ensures
        r@ == spec_normalized_sqlite_path(p@),
{
    let v = str_chars(p);
    if v.len() >= 2 && v[0] == '/' && v[1] == '/' {
        let stripped = strip_leading_double_slashes(p);
        let r = concat_str("/", stripped.as_str());
        proof {
            reveal_strlit("/");
            assert(r@ =~= seq!['/'] + strip_double_slashes(p@));
        }
        r
    } else {
        p.to_owned()
    }
}

/// The connection string handed to the SQLite driver for a normalized path.
pub open spec fn spec_sqlite_connection_string(p: Seq<char>) -> Seq<char> {
    if p == ":memory:"@ {
        "sqlite::memory:"@
    } else if has_prefix(p, "sqlite://"@) {
        p
    } else if has_prefix(p, "sqlite:"@) {
        p
    } else if p.len() >= 1 && p[0] == '/' {
        "sqlite://"@ + p
    } else if contains_char(p, ':') {
        "sqlite:"@ + p
    } else {
        "sqlite:./"@ + p
    }
}

/// Builds the connection string handed to the SQLite driver.
pub fn sqlite_connection_string(p: &str) -> (r: String)
    ensures
        r@ == spec_sqlite_connection_string(p@),
{
    if str_eq(p, ":memory:") {
        return String::from_str("sqlite::memory:");
    }
    if starts_with_str(p, "sqlite://") {
        return p.to_owned();
    }
    if starts_with_str(p, "sqlite:") {
        return p.to_owned();
    }
    let first_is_slash = if p.unicode_len() >= 1 {
        p.get_char(0) == '/'
    } else {
        false
    };
    if first_is_slash {
        return concat_str("sqlite://", p);
    }
    if str_contains_char(p, ':') {
        return concat_str("sqlite:", p);
    }
    concat_str("sqlite:./", p)
}

/// The adapter chosen for a database URL.
#[derive(Debug, PartialEq, Eq)]
pub enum AdapterPlan {
    Sqlite { path: String, pool_size: Option<u32> },
    Postgres { url: String },
    MySql { url: String },
}

/// The mathematical form of an `AdapterPlan`.
pub enum SpecAdapterPlan {
    Sqlite { path: Seq<char>, pool_size: Option<u32> },
    Postgres { url: Seq<char> },
    MySql { url: Seq<char> },
}

impl View for AdapterPlan {
    type V = SpecAdapterPlan;

    open spec fn view(&self) -> SpecAdapterPlan {
        match self {
            AdapterPlan::Sqlite { path, pool_size } => SpecAdapterPlan::Sqlite {
                path: path@,
                pool_size: *pool_size,
            },
            AdapterPlan::Postgres { url } => SpecAdapterPlan::Postgres { url: url@ },
            AdapterPlan::MySql { url } => SpecAdapterPlan::MySql { url: url@ },
        }
    }
}

/// Chooses the adapter for a database URL: SQLite gets the URL's path and
/// the pool size, the reserved dialects get the whole URL, any other scheme
/// is unsupported, and a text that is no URL is a configuration error.
pub fn plan_database_adapter(url_text: &str, pool_size: Option<u32>) -> (r: Result<
    AdapterPlan,
    ConnectorError,
>)
    ensures
        match url_parse_parts(url_text@) {
            Err(m) => r is Err && r->Err_0@ == SpecConnectorError::Config(
                "Invalid database URL: "@ + m,
            ),
            Ok(parts) => {
                let scheme = parts.0;
                let path = parts.1;
                if scheme == "sqlite"@ {
                    r is Ok && r->Ok_0@ == (SpecAdapterPlan::Sqlite { path, pool_size })
                } else if scheme == "postgres"@ || scheme == "postgresql"@ {
                    r is Ok && r->Ok_0@ == (SpecAdapterPlan::Postgres { url: url_text@ })
                } else if scheme == "mysql"@ {
                    r is Ok && r->Ok_0@ == (SpecAdapterPlan::MySql { url: url_text@ })
                } else {
                    r is Err && r->Err_0@ == SpecConnectorError::UnsupportedDatabaseType(scheme)
                }
            },
        },
{
    match parse_url_parts(url_text) {
        Err(m) => Err(ConnectorError::Config(concat_str("Invalid database URL: ", m.as_str()))),
        Ok((scheme, path)) => {
            if str_eq(scheme.as_str(), "sqlite") {
                Ok(AdapterPlan::Sqlite { path, pool_size })
            } else if str_eq(scheme.as_str(), "postgres") || str_eq(scheme.as_str(), "postgresql") {
                Ok(AdapterPlan::Postgres { url: url_text.to_owned() })
            } else if str_eq(scheme.as_str(), "mysql") {
                Ok(AdapterPlan::MySql { url: url_text.to_owned() })
            } else {
                Err(ConnectorError::UnsupportedDatabaseType(scheme))
            }
        },
    }
}

/// The first column flagged as the primary key, if any.
pub open spec fn spec_first_primary_key(cols: Seq<(Seq<char>, Seq<char>, bool)>) -> Option<
    Seq<char>,
>
    decreases cols.len(),
{
    if cols.len() == 0 {
        None
    } else if cols[0].2 {
        Some(cols[0].0)
    } else {
        spec_first_primary_key(cols.drop_first())
    }
}

proof fn lemma_first_primary_key_at(cols: Seq<(Seq<char>, Seq<char>, bool)>, i: int)
    requires
        0 <= i < cols.len(),
        cols[i].2,
        forall|j: int| 0 <= j < i ==> !cols[j].2,
    ensures
        spec_first_primary_key(cols) == Some(cols[i].0),
    decreases i,
{
    if i > 0 {
        lemma_first_primary_key_at(cols.drop_first(), i - 1);
    }
}

proof fn lemma_first_primary_key_none(cols: Seq<(Seq<char>, Seq<char>, bool)>)
    requires
        forall|j: int| 0 <= j < cols.len() ==> !cols[j].2,
    ensures
        spec_first_primary_key(cols) is None,
    decreases cols.len(),
{
    if cols.len() > 0 {
        lemma_first_primary_key_none(cols.drop_first());
    }
}

/// The view of a column list.
pub open spec fn columns_view(cols: Seq<(String, String, bool)>) -> Seq<(Seq<char>, Seq<char>, bool)> {
    cols.map_values(|c: (String, String, bool)| (c.0@, c.1@, c.2))
}

/// Finds a table's primary-key column among its columns, or reports that the
/// table has none.
pub fn primary_key_from_columns(table: &str, cols: &Vec<(String, String, bool)>) -> (r: Result<
    String,
    ConnectorError,
>)
    ensures
        match spec_first_primary_key(columns_view(cols@)) {
            Some(name) => r is Ok && r->Ok_0@ == name,
            None => r is Err && r->Err_0@ == SpecConnectorError::NoPrimaryKey(table@),
        },
{
    let mut i: usize = 0;
    while i < cols.len()
        invariant
            i <= cols@.len(),
            forall|j: int| 0 <= j < i ==> !columns_view(cols@)[j].2,
        decreases cols@.len() - i,
    {
        assert(columns_view(cols@)[i as int] == (cols@[i as int].0@, cols@[i as int].1@, cols@[
            i as int].2));
        if cols[i].2 {
            proof {
                lemma_first_primary_key_at(columns_view(cols@), i as int);
            }
            return Ok(cols[i].0.clone());
        }
        i = i + 1;
    }
    proof {
        lemma_first_primary_key_none(columns_view(cols@));
    }
    Err(ConnectorError::NoPrimaryKey(table.to_owned()))
}

/// The placeholder a binary column value is rendered as: `BLOB(n)` for a
/// value of `n` bytes.
pub fn blob_placeholder(n: usize) -> (r: String)
    ensures
        r@ == "BLOB("@ + nat_repr(n as nat) + ")"@,
{
    let digits = u64_to_string(n as u64);
    let open_part = concat_str("BLOB(", digits.as_str());
    concat_str(open_part.as_str(), ")")
}

/// The scalar a null column becomes: columns named exactly `id` are coerced
/// to integer zero (kept for historical behavior; the identity rule filters
/// such rows out downstream), any other column becomes an absent value.
pub fn null_column_value(column_name: &str) -> (r: FieldValue)
    ensures
        r@ == if column_name@ == "id"@ {
            crate::document::SpecFieldValue::Integer(0)
        } else {
            crate::document::SpecFieldValue::Null
        },
{
    if str_eq(column_name, "id") {
        FieldValue::Integer(0)
    } else {
        FieldValue::Null
    }
}

/// The reserved PostgreSQL adapter; every operation reports that it is not
/// implemented.
#[derive(Debug, PartialEq, Eq)]
pub struct PostgresAdapter {
    pub connection_string: String,
}

impl PostgresAdapter {
    pub fn new(connection_string: &str) -> (r: Self)
        ensures
            r.connection_string@ == connection_string@,
    {
        PostgresAdapter { connection_string: connection_string.to_owned() }
    }

    pub fn fetch_all_records(&self, table: &str) -> (r: Result<
        Vec<crate::document::Document>,
        ConnectorError,
    >)
        ensures
            r is Err && r->Err_0@ == SpecConnectorError::NotImplemented(
                "PostgreSQL adapter fetch_all_records"@,
            ),
    {
        Err(ConnectorError::NotImplemented(String::from_str("PostgreSQL adapter fetch_all_records")))
    }

    pub fn get_all_tables(&self) -> (r: Result<Vec<String>, ConnectorError>)
        ensures
            r is Err && r->Err_0@ == SpecConnectorError::NotImplemented(
                "PostgreSQL adapter get_all_tables"@,
            ),
    {
        Err(ConnectorError::NotImplemented(String::from_str("PostgreSQL adapter get_all_tables")))
    }

    pub fn get_table_columns(&self, table: &str) -> (r: Result<
        Vec<(String, String, bool)>,
        ConnectorError,
    >)
        ensures
            r is Err && r->Err_0@ == SpecConnectorError::NotImplemented(
                "PostgreSQL adapter get_table_columns"@,
            ),
    {
        Err(
            ConnectorError::NotImplemented(
                String::from_str("PostgreSQL adapter get_table_columns"),
            ),
        )
    }

    pub fn get_primary_key(&self, table: &str) -> (r: Result<String, ConnectorError>)
        ensures
            r is Err && r->Err_0@ == SpecConnectorError::NotImplemented(
                "PostgreSQL adapter get_primary_key"@,
            ),
    {
        Err(ConnectorError::NotImplemented(String::from_str("PostgreSQL adapter get_primary_key")))
    }
}

/// The reserved MySQL adapter; every operation reports that it is not
/// implemented.
#[derive(Debug, PartialEq, Eq)]
pub struct MySqlAdapter {
    pub connection_string: String,
}

impl MySqlAdapter {
    pub fn new(connection_string: &str) -> (r: Self)
        ensures
            r.connection_string@ == connection_string@,
    {
        MySqlAdapter { connection_string: connection_string.to_owned() }
    }

    pub fn fetch_all_records(&self, table: &str) -> (r: Result<
        Vec<crate::document::Document>,
        ConnectorError,
    >)
        ensures
            r is Err && r->Err_0@ == SpecConnectorError::NotImplemented(
                "MySQL adapter fetch_all_records"@,
            ),
    {
        Err(ConnectorError::NotImplemented(String::from_str("MySQL adapter fetch_all_records")))
    }

    pub fn get_all_tables(&self) -> (r: Result<Vec<String>, ConnectorError>)
        ensures
            r is Err && r->Err_0@ == SpecConnectorError::NotImplemented(
                "MySQL adapter get_all_tables"@,
            ),
    {
        Err(ConnectorError::NotImplemented(String::from_str("MySQL adapter get_all_tables")))
    }

    pub fn get_table_columns(&self, table: &str) -> (r: Result<
        Vec<(String, String, bool)>,
        ConnectorError,
    >)
        ensures
            r is Err && r->Err_0@ == SpecConnectorError::NotImplemented(
                "MySQL adapter get_table_columns"@,
            ),
    {
        Err(ConnectorError::NotImplemented(String::from_str("MySQL adapter get_table_columns")))
    }

    pub fn get_primary_key(&self, table: &str) -> (r: Result<String, ConnectorError>)
        ensures
            r is Err && r->Err_0@ == SpecConnectorError::NotImplemented(
                "MySQL adapter get_primary_key"@,
            ),
    {
        Err(ConnectorError::NotImplemented(String::from_str("MySQL adapter get_primary_key")))
    }
}

} // verus!
