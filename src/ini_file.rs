//! INI-style header and marker files, read through the `rust-ini` crate.
//!
//! A BrainVision header or marker file is an identification line followed by
//! INI sections. The sections are parsed by `ini::Ini`; this module declares
//! the parts of that crate the library relies on, and the text handling around
//! it.

use vstd::prelude::*;
use crate::text::views;

verus! {

#[verifier::external_type_specification]
#[verifier::external_body]
pub struct ExIni(ini::Ini);

#[verifier::external_type_specification]
#[verifier::external_body]
pub struct ExProperties(ini::Properties);

#[verifier::external_type_specification]
#[verifier::external_body]
pub struct ExParseError(ini::ParseError);

/// The key-value pairs of a section, in order.
pub type PropertiesView = Seq<(Seq<char>, Seq<char>)>;

/// The sections of an INI file, in order: each with its name (`None` for the
/// properties before the first section header) and its key-value pairs.
pub type IniView = Seq<(Option<Seq<char>>, PropertiesView)>;

/// What an `ini::Ini` holds: its sections in order, each with its name and its
/// key-value pairs in order.
pub uninterp spec fn ini_view(i: ini::Ini) -> Seq<(Option<Seq<char>>, Seq<(Seq<char>, Seq<char>)>)>;

/// What an `ini::Properties` holds: its key-value pairs, in order.
pub uninterp spec fn properties_view(p: ini::Properties) -> Seq<(Seq<char>, Seq<char>)>;

/// The contents that `ini::Ini::load_from_str` reads from a text: `None` where
/// it reports a parse error.
pub uninterp spec fn parsed_ini(text: Seq<char>) -> Option<
    Seq<(Option<Seq<char>>, Seq<(Seq<char>, Seq<char>)>)>,
>;

/// The pairs of the first section named `name`, if there is one.
pub open spec fn first_section(v: IniView, name: Seq<char>) -> Option<PropertiesView>
    decreases v.len(),
{
    if v.len() == 0 {
        None
    } else if v[0].0 == Some(name) {
        Some(v[0].1)
    } else {
        first_section(v.drop_first(), name)
    }
}

/// The first value of `key` among the pairs, if there is one.
pub open spec fn first_value(p: PropertiesView, key: Seq<char>) -> Option<Seq<char>>
    decreases p.len(),
{
    if p.len() == 0 {
        None
    } else if p[0].0 == key {
        Some(p[0].1)
    } else {
        first_value(p.drop_first(), key)
    }
}

/// The values of the pairs, in order.
pub open spec fn values_of(p: PropertiesView) -> Seq<Seq<char>> {
    p.map_values(|e: (Seq<char>, Seq<char>)| e.1)
}

/// Relies on `ini::Ini::load_from_str`: parses INI text, with its default
/// options.
#[verifier::external_body]
pub(crate) fn load_ini(text: &str) -> (r: Result<ini::Ini, ini::ParseError>)
    ensures
        r is Err <==> parsed_ini(text@) is None,
        r matches Ok(i) ==> parsed_ini(text@) == Some(ini_view(i)),
{
    ini::Ini::load_from_str(text)
}

/// Relies on `ini::Ini::section`: the first section of that name.
#[verifier::external_body]
pub(crate) fn section<'a>(i: &'a ini::Ini, name: &str) -> (r: Option<&'a ini::Properties>)
    ensures
        r is Some <==> first_section(ini_view(*i), name@) is Some,
        r matches Some(p) ==> first_section(ini_view(*i), name@) == Some(properties_view(*p)),
{
    i.section(Some(name))
}

/// Relies on `ini::Properties::get`: the first value of a key.
#[verifier::external_body]
pub(crate) fn get(p: &ini::Properties, key: &str) -> (r: Option<String>)
    ensures
        match r {
            Some(v) => first_value(properties_view(*p), key@) == Some(v@),
            None => first_value(properties_view(*p), key@) is None,
        },
{
    p.get(key).map(|v| v.to_string())
}

/// Relies on `ini::Properties::iter`: the pairs in insertion order; their
/// values are kept.
#[verifier::external_body]
pub(crate) fn values(p: &ini::Properties) -> (r: Vec<String>)
    ensures
        views(r@) == values_of(properties_view(*p)),
{
    p.iter().map(|(_, v)| v.to_string()).collect()
}

/// The text after the first line feed: a file without its identification
/// line (empty when there is no line feed).
pub open spec fn after_first_line(s: Seq<char>) -> Seq<char> {
    if exists|i: int| 0 <= i < s.len() && s[i] == '\n' {
        let i = choose|i: int|
            0 <= i < s.len() && s[i] == '\n' && forall|j: int| 0 <= j < i ==> s[j] != '\n';
        s.subrange(i + 1, s.len() as int)
    } else {
        Seq::empty()
    }
}

/// `pat` occurs in `s` at position `i`.
pub open spec fn occurs_at(s: Seq<char>, pat: Seq<char>, i: int) -> bool {
    0 <= i && i + pat.len() <= s.len() && s.subrange(i, i + pat.len()) == pat
}

/// The text after the first occurrence of `pat`, if `pat` occurs.
pub open spec fn after_first(s: Seq<char>, pat: Seq<char>) -> Option<Seq<char>> {
    if exists|i: int| occurs_at(s, pat, i) {
        let i = choose|i: int|
            occurs_at(s, pat, i) && forall|j: int| 0 <= j < i ==> !occurs_at(s, pat, j);
        Some(s.subrange(i + pat.len(), s.len() as int))
    } else {
        None
    }
}

/// Whether `pat` occurs in `s` at position `i`.
fn matches_at(s: &str, pat: &str, i: usize) -> (r: bool)
    requires
        i <= s@.len(),
    ensures
        r == occurs_at(s@, pat@, i as int),
{
    let n = s.unicode_len();
    let m = pat.unicode_len();
    if m > n - i {
        return false;
    }
    let mut k: usize = 0;
    while k < m
        invariant
            k <= m,
            m == pat@.len(),
            n == s@.len(),
            i + m <= n,
            s@.subrange(i as int, i + k) == pat@.subrange(0, k as int),
        decreases m - k,
    {
        if s.get_char(i + k) != pat.get_char(k) {
            assert(s@.subrange(i as int, i + m)[k as int] == s@[i + k]);
            return false;
        }
        assert(s@.subrange(i as int, i + k + 1) =~= s@.subrange(i as int, i + k).push(s@[i + k]));
        assert(pat@.subrange(0, k + 1) =~= pat@.subrange(0, k as int).push(pat@[k as int]));
        k = k + 1;
    }
    assert(pat@.subrange(0, m as int) =~= pat@);
    true
}

/// The text after the first occurrence of `pat` in `s`, if any.
pub fn text_after(s: &str, pat: &str) -> (r: Option<String>)
    ensures
        match r {
            Some(t) => after_first(s@, pat@) == Some(t@),
            None => after_first(s@, pat@) is None,
        },
{
    let n = s.unicode_len();
    let m = pat.unicode_len();
    if m > n {
        return None;
    }
    if m == 0 {
        proof {
            assert(s@.subrange(0, 0) =~= pat@);
            assert(occurs_at(s@, pat@, 0));
            let k = choose|k: int|
                occurs_at(s@, pat@, k) && forall|j: int| 0 <= j < k ==> !occurs_at(s@, pat@, j);
            assert(k == 0);
            assert(s@.subrange(0, n as int) =~= s@);
        }
        return Some(String::from_str(s));
    }
    let last = n - m;
    let mut i: usize = 0;
    while i <= last
        invariant
            n == s@.len(),
            m == pat@.len(),
            last == n - m,
            m >= 1,
            i <= last + 1,
            forall|j: int| 0 <= j < i ==> !occurs_at(s@, pat@, j),
        decreases last + 1 - i,
    {
        if matches_at(s, pat, i) {
            proof {
                let k = choose|k: int|
                    occurs_at(s@, pat@, k) && forall|j: int| 0 <= j < k ==> !occurs_at(s@, pat@, j);
                assert(k == i) by {
                    if k < i {
                    } else if k > i {
                    }
                }
            }
            return Some(String::from_str(s.substring_char(i + m, n)));
        }
        i = i + 1;
    }
    proof {
        assert forall|j: int| !occurs_at(s@, pat@, j) by {
            if 0 <= j && j + m <= n {
                assert(j < i);
            }
        }
    }
    None
}

/// The text after the first line feed of `s`.
pub fn skip_first_line(s: &str) -> (r: String)
    ensures
        r@ == after_first_line(s@),
{
    let n = s.unicode_len();
    let mut i: usize = 0;
    while i < n
        invariant
            i <= n,
            n == s@.len(),
            forall|j: int| 0 <= j < i ==> s@[j] != '\n',
        decreases n - i,
    {
        if s.get_char(i) == '\n' {
            proof {
                let k = choose|k: int|
                    0 <= k < s@.len() && s@[k] == '\n' && forall|j: int| 0 <= j < k ==> s@[j] != '\n';
                assert(k == i) by {
                    if k < i {
                    } else if k > i {
                    }
                }
            }
            return String::from_str(s.substring_char(i + 1, n));
        }
        i = i + 1;
    }
    String::new()
}

} // verus!
