//! The value model of the connector.
//!
//! A database row and an indexed document are both mappings from field names
//! to JSON-style scalars. The identity of a row or document is the canonical
//! string form of its primary-key value: the scalar's JSON rendering with
//! surrounding quotation marks trimmed. This module defines the scalar type,
//! the document type, the exact JSON rendering (and its byte size), and the
//! primary-key string.

use vstd::prelude::*;

use crate::strings::chars_to_string;
use crate::strings::str_chars;

verus! {

/// A JSON-style scalar carried in a row or a document.
///
/// Values the engine never inspects (fractional numbers, nested arrays or
/// objects, integers beyond `i64`) are carried as `Raw`, holding their exact
/// JSON rendering as produced by the serializer at the boundary.
#[derive(Debug, PartialEq, Eq)]
pub enum FieldValue {
    Null,
    Integer(i64),
    Boolean(bool),
    Text(String),
    Raw(String),
}

/// The mathematical form of a `FieldValue`.
pub enum SpecFieldValue {
    Null,
    Integer(int),
    Boolean(bool),
    Text(Seq<char>),
    Raw(Seq<char>),
}

impl View for FieldValue {
    type V = SpecFieldValue;

    open spec fn view(&self) -> SpecFieldValue {
        match self {
            FieldValue::Null => SpecFieldValue::Null,
            FieldValue::Integer(i) => SpecFieldValue::Integer(*i as int),
            FieldValue::Boolean(b) => SpecFieldValue::Boolean(*b),
            FieldValue::Text(s) => SpecFieldValue::Text(s@),
            FieldValue::Raw(s) => SpecFieldValue::Raw(s@),
        }
    }
}

impl Clone for FieldValue {
    fn clone(&self) -> (res: Self)
        ensures
            res@ == self@,
    {
        match self {
            FieldValue::Null => FieldValue::Null,
            FieldValue::Integer(i) => FieldValue::Integer(*i),
            FieldValue::Boolean(b) => FieldValue::Boolean(*b),
            FieldValue::Text(s) => FieldValue::Text(s.clone()),
            FieldValue::Raw(s) => FieldValue::Raw(s.clone()),
        }
    }
}

/// The character for a single decimal digit.
pub open spec fn dec_digit(n: nat) -> char
    recommends
        n < 10,
{
    if n == 0 {
        '0'
    } else if n == 1 {
        '1'
    } else if n == 2 {
        '2'
    } else if n == 3 {
        '3'
    } else if n == 4 {
        '4'
    } else if n == 5 {
        '5'
    } else if n == 6 {
        '6'
    } else if n == 7 {
        '7'
    } else if n == 8 {
        '8'
    } else {
        '9'
    }
}

/// Decimal rendering of a natural number, without leading zeros.
pub open spec fn nat_repr(n: nat) -> Seq<char>
    decreases n,
{
    if n < 10 {
        seq![dec_digit(n)]
    } else {
        nat_repr(n / 10) + seq![dec_digit(n % 10)]
    }
}

/// Decimal rendering of an integer, with a leading minus sign when negative.
pub open spec fn int_repr(i: int) -> Seq<char> {
    if i >= 0 {
        nat_repr(i as nat)
    } else {
        seq!['-'] + nat_repr((-i) as nat)
    }
}

/// Renders a `u64` in decimal.
pub fn u64_to_string(n: u64) -> (r: String)
    ensures
        r@ == nat_repr(n as nat),
{
    let mut rev: Vec<char> = Vec::new();
    let mut m: u64 = n;
    while m >= 10
        invariant
            nat_repr(n as nat) =~= nat_repr(m as nat) + rev@.reverse(),
        decreases m,
    {
        let d: u64 = m % 10;
        let ghost prev_rev = rev@;
        let ghost prev_m = m as nat;
        rev.push(digit_char(d));
        m = m / 10;
        proof {
            assert(nat_repr(prev_m) =~= nat_repr(m as nat) + seq![dec_digit(prev_m % 10)]);
            assert(rev@.reverse() =~= seq![dec_digit(prev_m % 10)] + prev_rev.reverse());
            assert(nat_repr(m as nat) + rev@.reverse() =~= nat_repr(prev_m) + prev_rev.reverse());
        }
    }
    let ghost rev_snap = rev@;
    rev.push(digit_char(m));
    proof {
        assert(rev@.reverse() =~= seq![dec_digit(m as nat)] + rev_snap.reverse());
        assert(nat_repr(n as nat) =~= rev@.reverse());
    }
    let mut out: Vec<char> = Vec::new();
    let mut i: usize = rev.len();
    while i > 0
        invariant
            i <= rev@.len(),
            out@ =~= rev@.reverse().subrange(0, (rev@.len() - i) as int),
        decreases i,
    {
        i = i - 1;
        out.push(rev[i]);
        proof {
            assert(rev@.reverse()[(rev@.len() - i - 1) as int] == rev@[i as int]);
            assert(out@ =~= rev@.reverse().subrange(0, (rev@.len() - i) as int));
        }
    }
    proof {
        assert(rev@.reverse().subrange(0, rev@.len() as int) =~= rev@.reverse());
    }
    chars_to_string(&out)
}

/// The digit character for `d`, which must be below ten.
fn digit_char(d: u64) -> (c: char)
    requires
        d < 10,
    ensures
        c == dec_digit(d as nat),
{
    if d == 0 {
        '0'
    } else if d == 1 {
        '1'
    } else if d == 2 {
        '2'
    } else if d == 3 {
        '3'
    } else if d == 4 {
        '4'
    } else if d == 5 {
        '5'
    } else if d == 6 {
        '6'
    } else if d == 7 {
        '7'
    } else if d == 8 {
        '8'
    } else {
        '9'
    }
}

/// Renders an `i64` in decimal.
pub fn i64_to_string(i: i64) -> (r: String)
    ensures
        r@ == int_repr(i as int),
{
    if i >= 0 {
        u64_to_string(i as u64)
    } else {
        let mag: u64 = ((-(i + 1)) as u64) + 1;
        assert(mag as nat == (-(i as int)) as nat);
        let digits = u64_to_string(mag);
        let mut out = String::new();
        out.push('-');
        let v = str_chars(digits.as_str());
        let mut j: usize = 0;
        while j < v.len()
            invariant
                j <= v@.len(),
                out@ =~= seq!['-'] + v@.subrange(0, j as int),
            decreases v@.len() - j,
        {
            out.push(v[j]);
            proof {
                assert(out@ =~= seq!['-'] + v@.subrange(0, j + 1));
            }
            j = j + 1;
        }
        proof {
            assert(v@.subrange(0, v@.len() as int) =~= v@);
            assert(out@ =~= int_repr(i as int));
        }
        out
    }
}

/// Number of bytes of the UTF-8 encoding of one character.
pub open spec fn char_utf8_len(c: char) -> nat {
    if (c as u32) < 0x80 {
        1
    } else if (c as u32) < 0x800 {
        2
    } else if (c as u32) < 0x10000 {
        3
    } else {
        4
    }
}

/// Number of bytes of the UTF-8 encoding of a character sequence.
pub open spec fn utf8_len(s: Seq<char>) -> nat
    decreases s.len(),
{
    if s.len() == 0 {
        0
    } else {
        utf8_len(s.drop_last()) + char_utf8_len(s.last())
    }
}

pub proof fn lemma_utf8_len_concat(a: Seq<char>, b: Seq<char>)
    ensures
        utf8_len(a + b) == utf8_len(a) + utf8_len(b),
    decreases b.len(),
{
    if b.len() == 0 {
        assert(a + b =~= a);
    } else {
        assert((a + b).drop_last() =~= a + b.drop_last());
        assert((a + b).last() == b.last());
        lemma_utf8_len_concat(a, b.drop_last());
    }
}

/// The character for a single hexadecimal digit, in lower case.
pub open spec fn hex_digit(n: nat) -> char
    recommends
        n < 16,
{
    if n < 10 {
        dec_digit(n)
    } else if n == 10 {
        'a'
    } else if n == 11 {
        'b'
    } else if n == 12 {
        'c'
    } else if n == 13 {
        'd'
    } else if n == 14 {
        'e'
    } else {
        'f'
    }
}

/// JSON escape of one character inside a string literal, exactly as the
/// serializer at the boundary writes it: quotation mark and backslash get a
/// backslash escape, the five short control escapes are used where they
/// exist, any other control character becomes a `\u00..` escape, and every
/// other character stands for itself.
pub open spec fn esc_char(c: char) -> Seq<char> {
    if c == '"' {
        seq!['\\', '"']
    } else if c == '\\' {
        seq!['\\', '\\']
    } else if c == '\u{8}' {
        seq!['\\', 'b']
    } else if c == '\u{c}' {
        seq!['\\', 'f']
    } else if c == '\n' {
        seq!['\\', 'n']
    } else if c == '\r' {
        seq!['\\', 'r']
    } else if c == '\t' {
        seq!['\\', 't']
    } else if (c as u32) < 0x20 {
        seq!['\\', 'u', '0', '0', hex_digit((c as u32 / 16) as nat), hex_digit((c as u32 % 16) as nat)]
    } else {
        seq![c]
    }
}

/// JSON escape of a whole string body (without the surrounding quotes).
pub open spec fn esc_string(s: Seq<char>) -> Seq<char>
    decreases s.len(),
{
    if s.len() == 0 {
        Seq::<char>::empty()
    } else {
        esc_string(s.drop_last()) + esc_char(s.last())
    }
}

/// The hexadecimal digit character for `d`, which must be below sixteen.
fn hex_char(d: u32) -> (c: char)
    requires
        d < 16,
    ensures
        c == hex_digit(d as nat),
{
    if d < 10 {
        digit_char(d as u64)
    } else if d == 10 {
        'a'
    } else if d == 11 {
        'b'
    } else if d == 12 {
        'c'
    } else if d == 13 {
        'd'
    } else if d == 14 {
        'e'
    } else {
        'f'
    }
}

/// Appends the JSON escape of `c` to `out`.
fn push_escaped_char(out: &mut Vec<char>, c: char)
    ensures
        final(out)@ == old(out)@ + esc_char(c),
{
    if c == '"' {
        out.push('\\');
        out.push('"');
    } else if c == '\\' {
        out.push('\\');
        out.push('\\');
    } else if c == '\u{8}' {
        out.push('\\');
        out.push('b');
    } else if c == '\u{c}' {
        out.push('\\');
        out.push('f');
    } else if c == '\n' {
        out.push('\\');
        out.push('n');
    } else if c == '\r' {
        out.push('\\');
        out.push('r');
    } else if (c as u32) < 0x20 {
        let code: u32 = c as u32;
        if c == '\t' {
            out.push('\\');
            out.push('t');
        } else {
            out.push('\\');
            out.push('u');
            out.push('0');
            out.push('0');
            out.push(hex_char(code / 16));
            out.push(hex_char(code % 16));
        }
    } else {
        out.push(c);
    }
    proof {
        assert(out@ =~= old(out)@ + esc_char(c));
    }
}

/// Appends the JSON escape of every character of `s` to `out`.
fn push_escaped_str(out: &mut Vec<char>, s: &str)
    ensures
        final(out)@ == old(out)@ + esc_string(s@),
{
    let v = str_chars(s);
    let n = v.len();
    let mut i: usize = 0;
    while i < n
        invariant
            v@ == s@,
            n == s@.len(),
            i <= n,
            out@ == old(out)@ + esc_string(s@.subrange(0, i as int)),
        decreases n - i,
    {
        let c = v[i];
        push_escaped_char(out, c);
        proof {
            let pre = s@.subrange(0, i as int);
            let ext = s@.subrange(0, i + 1);
            assert(ext.drop_last() =~= pre);
            assert(ext.last() == c);
            assert(old(out)@ + (esc_string(pre) + esc_char(c)) =~= (old(out)@ + esc_string(pre))
                + esc_char(c));
        }
        i = i + 1;
    }
    proof {
        assert(s@.subrange(0, s@.len() as int) =~= s@);
    }
}

/// The exact JSON rendering of one scalar.
pub open spec fn render_value(v: SpecFieldValue) -> Seq<char> {
    match v {
        SpecFieldValue::Null => seq!['n', 'u', 'l', 'l'],
        SpecFieldValue::Integer(i) => int_repr(i),
        SpecFieldValue::Boolean(b) => if b {
            seq!['t', 'r', 'u', 'e']
        } else {
            seq!['f', 'a', 'l', 's', 'e']
        },
        SpecFieldValue::Text(s) => seq!['"'] + esc_string(s) + seq!['"'],
        SpecFieldValue::Raw(r) => r,
    }
}

/// Appends the JSON rendering of `v` to `out`.
fn push_rendered_value(out: &mut Vec<char>, v: &FieldValue)
    ensures
        final(out)@ == old(out)@ + render_value(v@),
{
    match v {
        FieldValue::Null => {
            out.push('n');
            out.push('u');
            out.push('l');
            out.push('l');
            proof {
                assert(out@ =~= old(out)@ + render_value(v@));
            }
        },
        FieldValue::Integer(i) => {
            let s = i64_to_string(*i);
            let cs = str_chars(s.as_str());
            let mut j: usize = 0;
            while j < cs.len()
                invariant
                    j <= cs@.len(),
                    out@ == old(out)@ + cs@.subrange(0, j as int),
                decreases cs@.len() - j,
            {
                out.push(cs[j]);
                proof {
                    assert(old(out)@ + cs@.subrange(0, j + 1) =~= (old(out)@ + cs@.subrange(
                        0,
                        j as int,
                    )).push(cs@[j as int]));
                }
                j = j + 1;
            }
            proof {
                assert(cs@.subrange(0, cs@.len() as int) =~= cs@);
            }
        },
        FieldValue::Boolean(b) => {
            if *b {
                out.push('t');
                out.push('r');
                out.push('u');
                out.push('e');
            } else {
                out.push('f');
                out.push('a');
                out.push('l');
                out.push('s');
                out.push('e');
            }
            proof {
                assert(out@ =~= old(out)@ + render_value(v@));
            }
        },
        FieldValue::Text(s) => {
            out.push('"');
            push_escaped_str(out, s.as_str());
            out.push('"');
            proof {
                assert(out@ =~= old(out)@ + (seq!['"'] + esc_string(s@) + seq!['"']));
            }
        },
        FieldValue::Raw(r) => {
            let cs = str_chars(r.as_str());
            let mut j: usize = 0;
            while j < cs.len()
                invariant
                    j <= cs@.len(),
                    cs@ == r@,
                    out@ == old(out)@ + cs@.subrange(0, j as int),
                decreases cs@.len() - j,
            {
                out.push(cs[j]);
                proof {
                    assert(old(out)@ + cs@.subrange(0, j + 1) =~= (old(out)@ + cs@.subrange(
                        0,
                        j as int,
                    )).push(cs@[j as int]));
                }
                j = j + 1;
            }
            proof {
                assert(cs@.subrange(0, cs@.len() as int) =~= cs@);
            }
        },
    }
}

/// The JSON rendering of one scalar, as a string.
pub fn render_field_value(v: &FieldValue) -> (r: String)
    ensures
        r@ == render_value(v@),
{
    let mut out: Vec<char> = Vec::new();
    push_rendered_value(&mut out, v);
    chars_to_string(&out)
}

/// Removes every leading and trailing quotation mark.
pub open spec fn trim_quotes(s: Seq<char>) -> Seq<char>
    decreases s.len(),
{
    if s.len() > 0 && s[0] == '"' {
        trim_quotes(s.drop_first())
    } else if s.len() > 0 && s.last() == '"' {
        trim_quotes(s.drop_last())
    } else {
        s
    }
}

/// The canonical primary-key string of a scalar: its JSON rendering with
/// surrounding quotation marks trimmed.
pub open spec fn pk_string(v: SpecFieldValue) -> Seq<char> {
    trim_quotes(render_value(v))
}

/// Computes `trim_quotes` of `s`.
pub fn trim_quotes_str(s: &str) -> (r: String)
    ensures
        r@ == trim_quotes(s@),
{
    let v = str_chars(s);
    let mut start: usize = 0;
    let mut end: usize = v.len();
    proof {
        assert(v@.subrange(0, v@.len() as int) =~= s@);
    }
    while start < end && v[start] == '"'
        invariant
            start <= end <= v@.len(),
            v@ == s@,
            trim_quotes(s@) == trim_quotes(v@.subrange(start as int, end as int)),
        decreases end - start,
    {
        proof {
            let win = v@.subrange(start as int, end as int);
            assert(win.drop_first() =~= v@.subrange(start + 1, end as int));
        }
        start = start + 1;
    }
    while end > start && v[end - 1] == '"'
        invariant
            start <= end <= v@.len(),
            v@ == s@,
            start == end || v@[start as int] != '"',
            trim_quotes(s@) == trim_quotes(v@.subrange(start as int, end as int)),
        decreases end - start,
    {
        proof {
            let win = v@.subrange(start as int, end as int);
            assert(win.drop_last() =~= v@.subrange(start as int, end - 1));
        }
        end = end - 1;
    }
    let mut out: Vec<char> = Vec::new();
    let mut i: usize = start;
    while i < end
        invariant
            start <= i <= end <= v@.len(),
            out@ == v@.subrange(start as int, i as int),
        decreases end - i,
    {
        out.push(v[i]);
        proof {
            assert(v@.subrange(start as int, i + 1) =~= v@.subrange(start as int, i as int).push(
                v@[i as int],
            ));
        }
        i = i + 1;
    }
    proof {
        let win = v@.subrange(start as int, end as int);
        assert(trim_quotes(win) == win);
    }
    chars_to_string(&out)
}

/// The canonical primary-key string of a scalar, as a string.
pub fn pk_string_of(v: &FieldValue) -> (r: String)
    ensures
        r@ == pk_string(v@),
{
    let rendered = render_field_value(v);
    trim_quotes_str(rendered.as_str())
}

/// The identity rule on primary-key values: a value identifies a row or
/// document unless it is null or its primary-key string is empty, `null`
/// or `0`.
pub open spec fn is_valid_pk_value(v: SpecFieldValue) -> bool {
    &&& !(v is Null)
    &&& pk_string(v) !~= Seq::<char>::empty()
    &&& pk_string(v) !~= seq!['n', 'u', 'l', 'l']
    &&& pk_string(v) !~= seq!['0']
}

/// Decides the identity rule for one scalar.
pub fn is_valid_pk(v: &FieldValue) -> (r: bool)
    ensures
        r == is_valid_pk_value(v@),
{
    if let FieldValue::Null = v {
        return false;
    }
    let s = pk_string_of(v);
    let n = s.as_str().unicode_len();
    if n == 0 {
        return false;
    }
    if n == 4 {
        let c0 = s.as_str().get_char(0);
        let c1 = s.as_str().get_char(1);
        let c2 = s.as_str().get_char(2);
        let c3 = s.as_str().get_char(3);
        if c0 == 'n' && c1 == 'u' && c2 == 'l' && c3 == 'l' {
            proof {
                assert(pk_string(v@) =~= seq!['n', 'u', 'l', 'l']);
            }
            return false;
        }
        proof {
            assert(pk_string(v@) !~= seq!['n', 'u', 'l', 'l']);
            assert(pk_string(v@) !~= seq!['0']);
        }
        return true;
    }
    if n == 1 {
        let c0 = s.as_str().get_char(0);
        if c0 == '0' {
            proof {
                assert(pk_string(v@) =~= seq!['0']);
            }
            return false;
        }
        proof {
            assert(pk_string(v@) !~= seq!['0']);
            assert(pk_string(v@) !~= seq!['n', 'u', 'l', 'l']);
        }
        return true;
    }
    proof {
        assert(pk_string(v@) !~= seq!['n', 'u', 'l', 'l']);
        assert(pk_string(v@) !~= seq!['0']);
    }
    true
}

/// One row or document: an insertion-ordered mapping from field names to
/// scalars.
#[derive(Debug, PartialEq, Eq)]
pub struct Document {
    pub fields: Vec<(String, FieldValue)>,
}

/// The views of a field list.
pub open spec fn fields_view(fields: Seq<(String, FieldValue)>) -> Seq<(Seq<char>, SpecFieldValue)> {
    fields.map_values(|f: (String, FieldValue)| (f.0@, f.1@))
}

impl View for Document {
    type V = Seq<(Seq<char>, SpecFieldValue)>;

    open spec fn view(&self) -> Seq<(Seq<char>, SpecFieldValue)> {
        fields_view(self.fields@)
    }
}

impl Clone for Document {
    fn clone(&self) -> (res: Self)
        ensures
            res@ == self@,
    {
        let mut fields: Vec<(String, FieldValue)> = Vec::new();
        let mut i: usize = 0;
        while i < self.fields.len()
            invariant
                i <= self.fields@.len(),
                fields@.len() == i,
                forall|k: int|
                    0 <= k < i ==> fields@[k].0@ == self.fields@[k].0@ && fields@[k].1@
                        == self.fields@[k].1@,
            decreases self.fields@.len() - i,
        {
            fields.push((self.fields[i].0.clone(), self.fields[i].1.clone()));
            i = i + 1;
        }
        proof {
            assert(fields_view(fields@) =~= fields_view(self.fields@));
        }
        Document { fields }
    }
}

/// Field names are pairwise distinct.
pub open spec fn doc_fields_wf(fields: Seq<(Seq<char>, SpecFieldValue)>) -> bool {
    forall|i: int, j: int| 0 <= i < j < fields.len() ==> fields[i].0 != fields[j].0
}

/// The value of the first field named `name`, if any.
pub open spec fn doc_get(fields: Seq<(Seq<char>, SpecFieldValue)>, name: Seq<char>) -> Option<
    SpecFieldValue,
>
    decreases fields.len(),
{
    if fields.len() == 0 {
        None
    } else if fields[0].0 == name {
        Some(fields[0].1)
    } else {
        doc_get(fields.drop_first(), name)
    }
}

pub proof fn lemma_doc_get_match(
    fields: Seq<(Seq<char>, SpecFieldValue)>,
    name: Seq<char>,
    i: int,
)
    requires
        0 <= i < fields.len(),
        fields[i].0 == name,
        forall|j: int| 0 <= j < i ==> fields[j].0 != name,
    ensures
        doc_get(fields, name) == Some(fields[i].1),
    decreases i,
{
    if i > 0 {
        lemma_doc_get_match(fields.drop_first(), name, i - 1);
    }
}

pub proof fn lemma_doc_get_none(fields: Seq<(Seq<char>, SpecFieldValue)>, name: Seq<char>)
    requires
        forall|j: int| 0 <= j < fields.len() ==> fields[j].0 != name,
    ensures
        doc_get(fields, name) is None,
    decreases fields.len(),
{
    if fields.len() > 0 {
        lemma_doc_get_none(fields.drop_first(), name);
    }
}

/// Replaces the first field named `name`, or appends one.
pub open spec fn doc_insert(
    fields: Seq<(Seq<char>, SpecFieldValue)>,
    name: Seq<char>,
    v: SpecFieldValue,
) -> Seq<(Seq<char>, SpecFieldValue)>
    decreases fields.len(),
{
    if fields.len() == 0 {
        seq![(name, v)]
    } else if fields[0].0 == name {
        seq![(name, v)] + fields.drop_first()
    } else {
        seq![fields[0]] + doc_insert(fields.drop_first(), name, v)
    }
}

proof fn lemma_doc_insert_update(
    fields: Seq<(Seq<char>, SpecFieldValue)>,
    name: Seq<char>,
    v: SpecFieldValue,
    i: int,
)
    requires
        0 <= i < fields.len(),
        fields[i].0 == name,
        forall|j: int| 0 <= j < i ==> fields[j].0 != name,
    ensures
        doc_insert(fields, name, v) =~= fields.update(i, (name, v)),
    decreases i,
{
    if i == 0 {
        assert(seq![(name, v)] + fields.drop_first() =~= fields.update(0, (name, v)));
    } else {
        lemma_doc_insert_update(fields.drop_first(), name, v, i - 1);
        assert(seq![fields[0]] + fields.drop_first().update(i - 1, (name, v)) =~= fields.update(
            i,
            (name, v),
        ));
    }
}

proof fn lemma_doc_insert_push(
    fields: Seq<(Seq<char>, SpecFieldValue)>,
    name: Seq<char>,
    v: SpecFieldValue,
)
    requires
        forall|j: int| 0 <= j < fields.len() ==> fields[j].0 != name,
    ensures
        doc_insert(fields, name, v) =~= fields.push((name, v)),
    decreases fields.len(),
{
    if fields.len() == 0 {
        assert(seq![(name, v)] =~= fields.push((name, v)));
    } else {
        lemma_doc_insert_push(fields.drop_first(), name, v);
        assert(seq![fields[0]] + fields.drop_first().push((name, v)) =~= fields.push((name, v)));
    }
}

impl Document {
    /// An empty document.
    pub fn new() -> (r: Document)
        ensures
            r@ =~= Seq::<(Seq<char>, SpecFieldValue)>::empty(),
    {
        Document { fields: Vec::new() }
    }

    /// Number of fields.
    pub fn len(&self) -> (n: usize)
        ensures
            n == self@.len(),
    {
        self.fields.len()
    }

    /// Looks up the first field named `name`.
    pub fn get(&self, name: &str) -> (r: Option<&FieldValue>)
        ensures
            match r {
                Some(v) => doc_get(self@, name@) == Some(v@),
                None => doc_get(self@, name@) is None,
            },
    {
        let mut i: usize = 0;
        while i < self.fields.len()
            invariant
                i <= self@.len(),
                self@.len() == self.fields@.len(),
                forall|j: int| 0 <= j < i ==> self@[j].0 != name@,
            decreases self@.len() - i,
        {
            assert(self@[i as int] == (self.fields@[i as int].0@, self.fields@[i as int].1@));
            if crate::strings::str_eq(self.fields[i].0.as_str(), name) {
                proof {
                    lemma_doc_get_match(self@, name@, i as int);
                }
                return Some(&self.fields[i].1);
            }
            i = i + 1;
        }
        proof {
            lemma_doc_get_none(self@, name@);
        }
        None
    }

    /// Inserts a field, replacing the value of an existing field of the same
    /// name in place.
    pub fn insert(&mut self, name: String, value: FieldValue)
        ensures
            final(self)@ == doc_insert(old(self)@, name@, value@),
    {
        let mut i: usize = 0;
        while i < self.fields.len()
            invariant
                i <= self@.len(),
                self@.len() == self.fields@.len(),
                forall|j: int| 0 <= j < i ==> self@[j].0 != name@,
                self == old(self),
            decreases self@.len() - i,
        {
            assert(self@[i as int] == (self.fields@[i as int].0@, self.fields@[i as int].1@));
            if crate::strings::str_eq(self.fields[i].0.as_str(), name.as_str()) {
                let ghost pre = self@;
                self.fields.set(i, (name, value));
                proof {
                    lemma_doc_insert_update(pre, name@, value@, i as int);
                    assert(final(self)@ =~= pre.update(i as int, (name@, value@)));
                }
                return ;
            }
            i = i + 1;
        }
        let ghost pre = self@;
        self.fields.push((name, value));
        proof {
            lemma_doc_insert_push(pre, name@, value@);
            assert(final(self)@ =~= pre.push((name@, value@)));
        }
    }
}

/// The JSON rendering of one field: quoted escaped name, a colon, the value.
pub open spec fn render_field(f: (Seq<char>, SpecFieldValue)) -> Seq<char> {
    seq!['"'] + esc_string(f.0) + seq!['"', ':'] + render_value(f.1)
}

/// The JSON rendering of a field list, comma separated.
pub open spec fn render_fields(fields: Seq<(Seq<char>, SpecFieldValue)>) -> Seq<char>
    decreases fields.len(),
{
    if fields.len() == 0 {
        Seq::<char>::empty()
    } else if fields.len() == 1 {
        render_field(fields[0])
    } else {
        render_fields(fields.drop_last()) + seq![','] + render_field(fields.last())
    }
}

/// The exact JSON serialization of a document.
pub open spec fn render_document(fields: Seq<(Seq<char>, SpecFieldValue)>) -> Seq<char> {
    seq!['{'] + render_fields(fields) + seq!['}']
}

/// The serialized byte length of a document.
pub open spec fn document_byte_size(fields: Seq<(Seq<char>, SpecFieldValue)>) -> nat {
    utf8_len(render_document(fields))
}

pub proof fn lemma_utf8_len_ge_len(s: Seq<char>)
    ensures
        utf8_len(s) >= s.len(),
    decreases s.len(),
{
    if s.len() > 0 {
        lemma_utf8_len_ge_len(s.drop_last());
    }
}

pub proof fn lemma_esc_utf8_len_ge_len(s: Seq<char>)
    ensures
        utf8_len(esc_string(s)) >= s.len(),
    decreases s.len(),
{
    if s.len() > 0 {
        lemma_esc_utf8_len_ge_len(s.drop_last());
        lemma_utf8_len_concat(esc_string(s.drop_last()), esc_char(s.last()));
        lemma_utf8_len_ge_len(esc_char(s.last()));
        assert(esc_char(s.last()).len() >= 1);
    }
}

proof fn lemma_render_fields_ge_field(fields: Seq<(Seq<char>, SpecFieldValue)>, i: int)
    requires
        0 <= i < fields.len(),
    ensures
        utf8_len(render_fields(fields)) >= utf8_len(render_field(fields[i])),
    decreases fields.len(),
{
    if fields.len() == 1 {
    } else if i == fields.len() - 1 {
        lemma_utf8_len_concat(
            render_fields(fields.drop_last()) + seq![','],
            render_field(fields.last()),
        );
    } else {
        lemma_render_fields_ge_field(fields.drop_last(), i);
        lemma_utf8_len_concat(
            render_fields(fields.drop_last()) + seq![','],
            render_field(fields.last()),
        );
        lemma_utf8_len_concat(render_fields(fields.drop_last()), seq![',']);
    }
}

/// A text value's length, counted in code points, never exceeds the
/// serialized byte length of a document that carries it: every code point
/// costs at least one byte even after escaping.
pub proof fn lemma_text_field_le_document_size(fields: Seq<(Seq<char>, SpecFieldValue)>, i: int)
    requires
        0 <= i < fields.len(),
        fields[i].1 is Text,
    ensures
        fields[i].1->Text_0.len() <= document_byte_size(fields),
{
    let f = fields[i];
    let s = f.1->Text_0;
    lemma_render_fields_ge_field(fields, i);
    lemma_utf8_len_concat(seq!['{'] + render_fields(fields), seq!['}']);
    lemma_utf8_len_concat(seq!['{'], render_fields(fields));
    lemma_utf8_len_concat(
        seq!['"'] + esc_string(f.0) + seq!['"', ':'],
        render_value(f.1),
    );
    lemma_utf8_len_concat(seq!['"'] + esc_string(s), seq!['"']);
    lemma_utf8_len_concat(seq!['"'], esc_string(s));
    lemma_esc_utf8_len_ge_len(s);
    assert(render_value(f.1) == seq!['"'] + esc_string(s) + seq!['"']);
    assert((seq!['"'] + esc_string(s) + seq!['"']).drop_last() =~= seq!['"'] + esc_string(s));
}

/// Serializes a document to its JSON text.
pub fn render_document_string(doc: &Document) -> (r: String)
    ensures
        r@ == render_document(doc@),
{
    let mut out: Vec<char> = Vec::new();
    out.push('{');
    let mut i: usize = 0;
    while i < doc.fields.len()
        invariant
            i <= doc@.len(),
            doc@.len() == doc.fields@.len(),
            out@ == seq!['{'] + render_fields(doc@.subrange(0, i as int)),
        decreases doc@.len() - i,
    {
        let ghost prefix = doc@.subrange(0, i as int);
        if i > 0 {
            out.push(',');
        }
        out.push('"');
        push_escaped_str(&mut out, doc.fields[i].0.as_str());
        out.push('"');
        out.push(':');
        push_rendered_value(&mut out, &doc.fields[i].1);
        proof {
            assert(doc@[i as int] == (doc.fields@[i as int].0@, doc.fields@[i as int].1@));
            let ext = doc@.subrange(0, i + 1);
            assert(ext.drop_last() =~= prefix);
            assert(ext.last() == doc@[i as int]);
            if i == 0 {
                assert(out@ =~= seq!['{'] + render_fields(ext));
            } else {
                assert(render_fields(ext) == render_fields(prefix) + seq![','] + render_field(
                    doc@[i as int],
                ));
                assert(out@ =~= seq!['{'] + render_fields(ext));
            }
        }
        i = i + 1;
    }
    out.push('}');
    proof {
        assert(doc@.subrange(0, doc@.len() as int) =~= doc@);
        assert(out@ =~= render_document(doc@));
    }
    chars_to_string(&out)
}

/// Counts the UTF-8 bytes of `s`.
pub fn utf8_byte_len(s: &str) -> (r: u128)
    ensures
        r == utf8_len(s@),
{
    let v = str_chars(s);
    let n = v.len();
    let mut acc: u128 = 0;
    let mut i: usize = 0;
    while i < n
        invariant
            v@ == s@,
            n == s@.len(),
            i <= n,
            acc == utf8_len(s@.subrange(0, i as int)),
            acc <= 4 * (i as int),
        decreases n - i,
    {
        let c = v[i];
        let l: u128 = if (c as u32) < 0x80 {
            1
        } else if (c as u32) < 0x800 {
            2
        } else if (c as u32) < 0x10000 {
            3
        } else {
            4
        };
        proof {
            let ext = s@.subrange(0, i + 1);
            assert(ext.drop_last() =~= s@.subrange(0, i as int));
            assert(ext.last() == c);
        }
        acc = acc + l;
        i = i + 1;
    }
    proof {
        assert(s@.subrange(0, s@.len() as int) =~= s@);
    }
    acc
}

/// The serialized byte length of a document.
pub fn document_byte_len(doc: &Document) -> (r: u128)
    ensures
        r == document_byte_size(doc@),
{
    let s = render_document_string(doc);
    utf8_byte_len(s.as_str())
}

} // verus!
