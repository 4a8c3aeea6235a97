//! Command-line helpers: export file names and `--knob name=value` options.

use vstd::prelude::*;

use crate::text::{is_alphanumeric, is_alphanumeric_of, lowercase_of, push_char, str_eq, to_lowercase};

verus! {

/// A character kept in a file name: alphanumerics, `-` and `_` stay, any
/// other character becomes `_`.
pub open spec fn sanitize_char(c: char) -> char {
    if is_alphanumeric_of(c) || c == '-' || c == '_' {
        c
    } else {
        '_'
    }
}

/// A string made safe for use as a file name: each character sanitized,
/// then the whole lower-cased.
pub open spec fn sanitize_filename_spec(name: Seq<char>) -> Seq<char> {
    lowercase_of(Seq::new(name.len(), |i: int| sanitize_char(name[i])))
}

/// Sanitize a string for use as a filename.
pub fn sanitize_filename(name: &str) -> (r: String)
    ensures
        r@ == sanitize_filename_spec(name@),
{
    let n = name.unicode_len();
    let mut s = String::new();
    let mut i: usize = 0;
    while i < n
        invariant
            0 <= i <= n,
            n == name@.len(),
            s@ == Seq::new(i as nat, |j: int| sanitize_char(name@[j])),
        decreases n - i,
    {
        let c = name.get_char(i);
        let k = if is_alphanumeric(c) || c == '-' || c == '_' {
            c
        } else {
            '_'
        };
        push_char(&mut s, k);
        assert(s@ =~= Seq::new((i + 1) as nat, |j: int| sanitize_char(name@[j])));
        i = i + 1;
    }
    to_lowercase(s.as_str())
}

/// A `--knob` argument without a `=` separating name and value.
#[derive(Debug)]
pub enum KnobError {
    MissingEquals(String),
}

/// Position of the first `=` at or after `i` in `s`.
pub open spec fn first_equals_from(s: Seq<char>, i: int) -> Option<int>
    decreases s.len() - i,
{
    if i < 0 || i >= s.len() {
        None
    } else if s[i] == '=' {
        Some(i)
    } else {
        first_equals_from(s, i + 1)
    }
}

/// A knob split at its first `=` into name and value.
pub open spec fn split_knob(s: Seq<char>) -> Option<(Seq<char>, Seq<char>)> {
    match first_equals_from(s, 0) {
        Some(i) => Some((s.subrange(0, i), s.subrange(i + 1, s.len() as int))),
        None => None,
    }
}

/// Position of the first entry named `name` at or after `j` (`m.len()` if none).
pub open spec fn knob_index_from(m: Seq<(Seq<char>, Seq<char>)>, name: Seq<char>, j: int) -> int
    decreases m.len() - j,
{
    if j < 0 || j >= m.len() {
        m.len() as int
    } else if m[j].0 == name {
        j
    } else {
        knob_index_from(m, name, j + 1)
    }
}

/// Sets knob `name` to `val`: the value of an existing entry is replaced,
/// a new name is appended.
pub open spec fn knob_insert(m: Seq<(Seq<char>, Seq<char>)>, name: Seq<char>, val: Seq<char>) -> Seq<(Seq<char>, Seq<char>)> {
    let j = knob_index_from(m, name, 0);
    if j < m.len() {
        m.update(j, (name, val))
    } else {
        m.push((name, val))
    }
}

/// The knobs set by a list of `name=value` arguments, later values winning
/// (entries in order of first mention); the first argument without `=` is
/// an error.
pub open spec fn knobs_spec(ks: Seq<Seq<char>>) -> Result<Seq<(Seq<char>, Seq<char>)>, Seq<char>>
    decreases ks.len(),
{
    if ks.len() == 0 {
        Ok(Seq::empty())
    } else {
        match knobs_spec(ks.drop_last()) {
            Err(e) => Err(e),
            Ok(m) => match split_knob(ks.last()) {
                None => Err(ks.last()),
                Some((n, v)) => Ok(knob_insert(m, n, v)),
            },
        }
    }
}

pub open spec fn pairs_view(v: Seq<(String, String)>) -> Seq<(Seq<char>, Seq<char>)> {
    Seq::new(v.len(), |i: int| (v[i].0@, v[i].1@))
}

pub open spec fn strings_view(v: Seq<String>) -> Seq<Seq<char>> {
    Seq::new(v.len(), |i: int| v[i]@)
}

/// Whether no two entries share a name.
pub open spec fn distinct_names(m: Seq<(Seq<char>, Seq<char>)>) -> bool {
    forall|a: int, b: int| 0 <= a < b < m.len() ==> m[a].0 != m[b].0
}

proof fn lemma_knob_index(m: Seq<(Seq<char>, Seq<char>)>, name: Seq<char>, j: int)
    requires
        0 <= j <= m.len(),
    ensures
        j <= knob_index_from(m, name, j) <= m.len(),
        knob_index_from(m, name, j) < m.len() ==> m[knob_index_from(m, name, j)].0 == name,
        forall|k: int| j <= k < knob_index_from(m, name, j) ==> m[k].0 != name,
    decreases m.len() - j,
{
    if j < m.len() && m[j].0 != name {
        lemma_knob_index(m, name, j + 1);
    }
}

/// Setting a knob keeps the names distinct.
proof fn lemma_knob_insert_distinct(m: Seq<(Seq<char>, Seq<char>)>, name: Seq<char>, val: Seq<char>)
    requires
        distinct_names(m),
    ensures
        distinct_names(knob_insert(m, name, val)),
{
    lemma_knob_index(m, name, 0);
}

proof fn lemma_split_at(s: Seq<char>, i: int)
    requires
        0 <= i <= s.len(),
        forall|k: int| 0 <= k < i ==> s[k] != '=',
    ensures
        first_equals_from(s, 0) == first_equals_from(s, i),
    decreases i,
{
    if i > 0 {
        lemma_split_at_from(s, 0, i);
    }
}

proof fn lemma_split_at_from(s: Seq<char>, j: int, i: int)
    requires
        0 <= j <= i <= s.len(),
        forall|k: int| j <= k < i ==> s[k] != '=',
    ensures
        first_equals_from(s, j) == first_equals_from(s, i),
    decreases i - j,
{
    if j < i {
        lemma_split_at_from(s, j + 1, i);
    }
}

/// Position of the first `=` in `k`, if any.
fn find_equals(k: &str) -> (r: Option<usize>)
    ensures
        match r {
            Some(i) => first_equals_from(k@, 0) == Some(i as int) && i < k@.len(),
            None => first_equals_from(k@, 0) is None,
        },
{
    let n = k.unicode_len();
    let mut i: usize = 0;
    while i < n
        invariant
            0 <= i <= n,
            n == k@.len(),
            forall|j: int| 0 <= j < i ==> k@[j] != '=',
        decreases n - i,
    {
        if k.get_char(i) == '=' {
            proof {
                lemma_split_at(k@, i as int);
            }
            return Some(i);
        }
        i = i + 1;
    }
    proof {
        lemma_split_at(k@, n as int);
    }
    None
}

fn find_knob(map: &Vec<(String, String)>, name: &str) -> (r: usize)
    ensures
        r == knob_index_from(pairs_view(map@), name@, 0),
{
    let ghost m = pairs_view(map@);
    let mut j: usize = 0;
    while j < map.len()
        invariant
            0 <= j <= map@.len(),
            m == pairs_view(map@),
            knob_index_from(m, name@, 0) == knob_index_from(m, name@, j as int),
        decreases map@.len() - j,
    {
        if str_eq(map[j].0.as_str(), name) {
            return j;
        }
        j = j + 1;
    }
    j
}

/// Parses `--knob name=value` arguments into knob settings (see
/// [`knobs_spec`]); the names of the result are distinct.
pub fn parse_knobs(knobs: &[String]) -> (r: Result<Vec<(String, String)>, KnobError>)
    ensures
        match r {
            Ok(map) => {
                &&& knobs_spec(strings_view(knobs@)) == Ok::<Seq<(Seq<char>, Seq<char>)>, Seq<char>>(pairs_view(map@))
                &&& distinct_names(pairs_view(map@))
            },
            Err(KnobError::MissingEquals(k)) => knobs_spec(strings_view(knobs@)) == Err::<
                Seq<(Seq<char>, Seq<char>)>,
                Seq<char>,
            >(k@),
        },
{
    let ghost ks = strings_view(knobs@);
    let mut map: Vec<(String, String)> = Vec::new();
    assert(ks.subrange(0, 0) =~= Seq::<Seq<char>>::empty());
    assert(pairs_view(map@) =~= Seq::<(Seq<char>, Seq<char>)>::empty());
    let mut i: usize = 0;
    while i < knobs.len()
        invariant
            0 <= i <= knobs@.len(),
            ks == strings_view(knobs@),
            knobs_spec(ks.subrange(0, i as int)) == Ok::<Seq<(Seq<char>, Seq<char>)>, Seq<char>>(pairs_view(map@)),
            distinct_names(pairs_view(map@)),
        decreases knobs@.len() - i,
    {
        let k = knobs[i].as_str();
        let ghost pre = ks.subrange(0, i as int);
        assert(ks.subrange(0, (i + 1) as int).drop_last() =~= pre);
        assert(ks.subrange(0, (i + 1) as int).last() == k@);
        let p = match find_equals(k) {
            Some(p) => p,
            None => {
                proof {
                    // The first i knobs were fine, this one is not.
                    assert(knobs_spec(ks.subrange(0, (i + 1) as int)) == Err::<
                        Seq<(Seq<char>, Seq<char>)>,
                        Seq<char>,
                    >(k@));
                    lemma_knobs_error_persists(ks, (i + 1) as int, k@);
                    assert(ks.subrange(0, ks.len() as int) =~= ks);
                }
                return Err(KnobError::MissingEquals(knobs[i].clone()));
            },
        };
        let n = k.unicode_len();
        let name = String::from_str(k.substring_char(0, p));
        let val = String::from_str(k.substring_char(p + 1, n));
        let ghost m = pairs_view(map@);
        let j = find_knob(&map, name.as_str());
        proof {
            lemma_knob_insert_distinct(m, name@, val@);
        }
        if j < map.len() {
            map.set(j, (name, val));
            assert(pairs_view(map@) =~= m.update(j as int, (name@, val@)));
        } else {
            map.push((name, val));
            assert(pairs_view(map@) =~= m.push((name@, val@)));
        }
        i = i + 1;
    }
    assert(ks.subrange(0, knobs@.len() as int) =~= ks);
    Ok(map)
}

/// Once a prefix of the arguments fails, every longer prefix fails with the
/// same argument.
proof fn lemma_knobs_error_persists(ks: Seq<Seq<char>>, i: int, e: Seq<char>)
    requires
        0 < i <= ks.len(),
        knobs_spec(ks.subrange(0, i)) == Err::<Seq<(Seq<char>, Seq<char>)>, Seq<char>>(e),
    ensures
        knobs_spec(ks.subrange(0, ks.len() as int)) == Err::<Seq<(Seq<char>, Seq<char>)>, Seq<char>>(e),
    decreases ks.len() - i,
{
    if i < ks.len() {
        assert(ks.subrange(0, i + 1).drop_last() =~= ks.subrange(0, i));
        lemma_knobs_error_persists(ks, i + 1, e);
    }
}

} // verus!
