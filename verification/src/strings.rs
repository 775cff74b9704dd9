//! Small executable helpers over `String` and `&str`.
//!
//! Verus models a string as a sequence of characters (`Seq<char>`), so the
//! helpers here are specified against that view.

use vstd::prelude::*;
use vstd::std_specs::iter::IteratorSpec;

verus! {

broadcast use vstd::string::group_string_axioms;

/// Relies on `String::push` from std: appends the given character to the
/// end of the string.
pub assume_specification[ String::push ](s: &mut String, c: char)
    ensures
        final(s)@ == old(s)@.push(c),
;

/// Builds a `String` holding exactly the characters of `v`, in order.
pub fn chars_to_string(v: &Vec<char>) -> (r: String)
    ensures
        r@ == v@,
{
    let mut r = String::new();
    let mut i: usize = 0;
    while i < v.len()
        invariant
            i <= v.len(),
            r@ == v@.subrange(0, i as int),
        decreases v.len() - i,
    {
        r.push(v[i]);
        proof {
            assert(v@.subrange(0, i as int).push(v@[i as int]) =~= v@.subrange(0, i + 1));
        }
        i = i + 1;
    }
    proof {
        assert(v@.subrange(0, v@.len() as int) =~= v@);
    }
    r
}

/// Collects the characters of `s` into a vector, in order.
pub fn str_chars(s: &str) -> (r: Vec<char>)
    ensures
        r@ == s@,
{
    let mut it = s.chars();
    let mut r: Vec<char> = Vec::new();
    proof {
        assert(it.remaining() == s@);
    }
    loop
        invariant_except_break
            r@ + it.remaining() =~= s@,
            it.decrease() is Some,
        ensures
            r@ == s@,
        decreases it.decrease()->Some_0,
    {
        let ghost pre = it;
        match it.next() {
            Some(c) => {
                proof {
                    assert(pre.remaining().len() > 0);
                    assert(it.remaining() == pre.remaining().drop_first());
                    assert(c == pre.remaining()[0]);
                    assert(r@.push(c) + it.remaining() =~= r@ + pre.remaining());
                }
                r.push(c);
            },
            None => {
                proof {
                    assert(pre.remaining().len() == 0);
                    assert(r@ =~= s@);
                }
                break ;
            },
        }
    }
    r
}

/// True when `s` has `p` as a prefix.
pub open spec fn has_prefix(s: Seq<char>, p: Seq<char>) -> bool {
    s.len() >= p.len() && s.subrange(0, p.len() as int) == p
}

/// Decides whether `s` starts with the characters of `p`.
pub fn starts_with_str(s: &str, p: &str) -> (r: bool)
    ensures
        r == has_prefix(s@, p@),
{
    let sn = s.unicode_len();
    let pn = p.unicode_len();
    if sn < pn {
        assert(!has_prefix(s@, p@));
        return false;
    }
    let mut i: usize = 0;
    while i < pn
        invariant
            sn == s@.len(),
            pn == p@.len(),
            pn <= sn,
            i <= pn,
            s@.subrange(0, i as int) == p@.subrange(0, i as int),
        decreases pn - i,
    {
        if s.get_char(i) != p.get_char(i) {
            proof {
                assert(s@.subrange(0, pn as int)[i as int] == s@[i as int]);
                assert(p@.subrange(0, pn as int) =~= p@);
            }
            return false;
        }
        proof {
            assert(s@.subrange(0, i + 1) =~= s@.subrange(0, i as int).push(s@[i as int]));
            assert(p@.subrange(0, i + 1) =~= p@.subrange(0, i as int).push(p@[i as int]));
        }
        i = i + 1;
    }
    proof {
        assert(p@.subrange(0, pn as int) =~= p@);
    }
    true
}

/// True when some character of `s` is `c`.
pub open spec fn contains_char(s: Seq<char>, c: char) -> bool {
    exists|i: int| 0 <= i < s.len() && s[i] == c
}

/// Decides whether `s` contains the character `c`.
pub fn str_contains_char(s: &str, c: char) -> (r: bool)
    ensures
        r == contains_char(s@, c),
{
    let n = s.unicode_len();
    let mut i: usize = 0;
    while i < n
        invariant
            n == s@.len(),
            i <= n,
            forall|j: int| 0 <= j < i ==> s@[j] != c,
        decreases n - i,
    {
        if s.get_char(i) == c {
            return true;
        }
        i = i + 1;
    }
    false
}

/// Concatenation of two string slices.
pub fn concat_str(a: &str, b: &str) -> (r: String)
    ensures
        r@ == a@ + b@,
{
    let mut r = a.to_owned();
    r.append(b);
    r
}

/// The views of a vector of strings.
pub open spec fn str_vec_view(v: Seq<String>) -> Seq<Seq<char>> {
    v.map_values(|s: String| s@)
}

/// Clones a vector of strings.
pub fn clone_string_vec(v: &Vec<String>) -> (r: Vec<String>)
    ensures
        str_vec_view(r@) == str_vec_view(v@),
{
    let mut r: Vec<String> = Vec::new();
    let mut i: usize = 0;
    while i < v.len()
        invariant
            i <= v@.len(),
            r@.len() == i,
            forall|k: int| 0 <= k < i ==> r@[k]@ == v@[k]@,
        decreases v@.len() - i,
    {
        r.push(v[i].clone());
        i = i + 1;
    }
    proof {
        assert(str_vec_view(r@) =~= str_vec_view(v@));
    }
    r
}

/// Decides equality of two string slices.
pub fn str_eq(a: &str, b: &str) -> (r: bool)
    ensures
        r == (a@ == b@),
{
    let an = a.unicode_len();
    let bn = b.unicode_len();
    if an != bn {
        return false;
    }
    let mut i: usize = 0;
    while i < an
        invariant
            an == a@.len(),
            bn == b@.len(),
            an == bn,
            i <= an,
            forall|j: int| 0 <= j < i ==> a@[j] == b@[j],
        decreases an - i,
    {
        if a.get_char(i) != b.get_char(i) {
            return false;
        }
        i = i + 1;
    }
    proof {
        assert(a@ =~= b@);
    }
    true
}

} // verus!
