//! Decimal numbers and comma-separated fields in header and marker text.

use vstd::prelude::*;

verus! {

pub open spec fn is_digit(c: char) -> bool {
    '0' <= c && c <= '9'
}

pub open spec fn all_digits(s: Seq<char>) -> bool {
    forall|i: int| 0 <= i < s.len() ==> is_digit(#[trigger] s[i])
}

pub open spec fn digit_value(c: char) -> nat {
    (c as int - '0' as int) as nat
}

/// The number that a string of decimal digits writes.
pub open spec fn digits_value(s: Seq<char>) -> nat
    decreases s.len(),
{
    if s.len() == 0 {
        0
    } else {
        digits_value(s.drop_last()) * 10 + digit_value(s.last())
    }
}

/// The value of a non-empty run of decimal digits that is at most `max`.
pub open spec fn parse_digits(s: Seq<char>, max: nat) -> Option<nat> {
    if s.len() > 0 && all_digits(s) && digits_value(s) <= max {
        Some(digits_value(s))
    } else {
        None
    }
}

/// An unsigned decimal number, as Rust's `FromStr` for unsigned integers reads
/// it: an optional `+`, then one or more digits, with a value at most `max`.
pub open spec fn parse_unsigned(s: Seq<char>, max: nat) -> Option<nat> {
    if s.len() > 0 && s[0] == '+' {
        parse_digits(s.drop_first(), max)
    } else {
        parse_digits(s, max)
    }
}

/// A signed 32-bit decimal number, as Rust's `FromStr` for `i32` reads it: an
/// optional `+` or `-`, then one or more digits.
pub open spec fn parse_signed32(s: Seq<char>) -> Option<int> {
    if s.len() > 0 && s[0] == '-' {
        match parse_digits(s.drop_first(), 0x8000_0000) {
            Some(v) => Some(-v),
            None => None,
        }
    } else {
        match parse_unsigned(s, 0x7fff_ffff) {
            Some(v) => Some(v as int),
            None => None,
        }
    }
}

/// The value of a prefix one digit longer: ten times the value, plus the digit.
proof fn lemma_digits_value_step(s: Seq<char>, i: int)
    requires
        0 <= i < s.len(),
        is_digit(s[i]),
    ensures
        digits_value(s.subrange(0, i + 1)) == digits_value(s.subrange(0, i)) * 10 + digit_value(
            s[i],
        ),
{
    assert(s.subrange(0, i + 1).drop_last() =~= s.subrange(0, i));
}

/// The value of the digits `s[from..to]`, or `None` when one of them is not a
/// digit, there are none, or the value exceeds `max`.
pub fn parse_digits_in(s: &str, from: usize, to: usize, max: u32) -> (r: Option<u32>)
    requires
        from <= to <= s@.len(),
    ensures
        r matches Some(v) ==> parse_digits(s@.subrange(from as int, to as int), max as nat)
            == Some(v as nat),
        r is None ==> parse_digits(s@.subrange(from as int, to as int), max as nat) is None,
{
    let ghost t = s@.subrange(from as int, to as int);
    if from == to {
        return None;
    }
    let mut v: u64 = 0;
    let mut i: usize = from;
    while i < to
        invariant
            from <= i <= to,
            to <= s@.len(),
            t == s@.subrange(from as int, to as int),
            v <= max,
            all_digits(t.subrange(0, i - from)),
            v == digits_value(t.subrange(0, i - from)),
        decreases to - i,
    {
        let c = s.get_char(i);
        if c < '0' || c > '9' {
            assert(t[i - from] == c);
            assert(!is_digit(t[i - from]));
            return None;
        }
        let d = (c as u32 - '0' as u32) as u64;
        proof {
            lemma_digits_value_step(t, i - from);
            assert(t.subrange(0, i - from + 1) =~= t.subrange(0, i - from).push(c));
        }
        v = v * 10 + d;
        i = i + 1;
        if v > max as u64 {
            proof {
                lemma_digits_value_grows(t, i - from);
            }
            return None;
        }
    }
    assert(t.subrange(0, to - from) =~= t);
    Some(v as u32)
}

/// A digit string's value is at least that of any of its prefixes.
proof fn lemma_digits_value_grows(t: Seq<char>, i: int)
    requires
        0 <= i <= t.len(),
    ensures
        all_digits(t) ==> digits_value(t.subrange(0, i)) <= digits_value(t),
    decreases t.len() - i,
{
    if i < t.len() && all_digits(t) {
        lemma_digits_value_step(t, i);
        lemma_digits_value_grows(t, i + 1);
    } else if i == t.len() {
        assert(t.subrange(0, i) =~= t);
    }
}

/// Reads an unsigned 32-bit decimal number: an optional `+`, then digits only.
pub fn parse_u32(s: &str) -> (r: Option<u32>)
    ensures
        r matches Some(v) ==> parse_unsigned(s@, u32::MAX as nat) == Some(v as nat),
        r is None ==> parse_unsigned(s@, u32::MAX as nat) is None,
{
    let n = s.unicode_len();
    let from: usize = if n > 0 && s.get_char(0) == '+' {
        1
    } else {
        0
    };
    assert(from == 1 ==> s@.drop_first() =~= s@.subrange(1, s@.len() as int));
    assert(from == 0 ==> s@ =~= s@.subrange(0, s@.len() as int));
    parse_digits_in(s, from, n, u32::MAX)
}

/// Reads a signed 32-bit decimal number: an optional `+` or `-`, then digits
/// only.
pub fn parse_i32(s: &str) -> (r: Option<i32>)
    ensures
        r matches Some(v) ==> parse_signed32(s@) == Some(v as int),
        r is None ==> parse_signed32(s@) is None,
{
    let n = s.unicode_len();
    if n > 0 && s.get_char(0) == '-' {
        assert(s@.drop_first() =~= s@.subrange(1, s@.len() as int));
        match parse_digits_in(s, 1, n, 0x8000_0000) {
            Some(v) => Some((0 - v as i64) as i32),
            None => None,
        }
    } else {
        let from: usize = if n > 0 && s.get_char(0) == '+' {
            1
        } else {
            0
        };
        assert(from == 1 ==> s@.drop_first() =~= s@.subrange(1, s@.len() as int));
        assert(from == 0 ==> s@ =~= s@.subrange(0, s@.len() as int));
        match parse_digits_in(s, from, n, 0x7fff_ffff) {
            Some(v) => Some(v as i32),
            None => None,
        }
    }
}

/// The fields joined back together with commas between them.
pub open spec fn join_commas(fields: Seq<Seq<char>>) -> Seq<char>
    decreases fields.len(),
{
    if fields.len() == 0 {
        Seq::empty()
    } else if fields.len() == 1 {
        fields[0]
    } else {
        join_commas(fields.drop_last()) + seq![','] + fields.last()
    }
}

pub open spec fn has_no_comma(s: Seq<char>) -> bool {
    forall|i: int| 0 <= i < s.len() ==> #[trigger] s[i] != ','
}

/// `fields` is the split of `s` at every comma: at least one field, none
/// holding a comma, and joined with commas they give back `s`.
pub open spec fn is_comma_split(s: Seq<char>, fields: Seq<Seq<char>>) -> bool {
    &&& fields.len() >= 1
    &&& join_commas(fields) == s
    &&& forall|k: int| 0 <= k < fields.len() ==> has_no_comma(#[trigger] fields[k])
}

/// The split of `s` at every comma (see `is_comma_split`, which holds of
/// exactly one sequence of fields).
pub open spec fn comma_fields(s: Seq<char>) -> Seq<Seq<char>> {
    choose|f: Seq<Seq<char>>| is_comma_split(s, f)
}

/// A string with a comma in it is no single field.
proof fn lemma_join_has_comma(f: Seq<Seq<char>>)
    requires
        f.len() > 1,
    ensures
        join_commas(f)[join_commas(f.drop_last()).len() as int] == ',',
        join_commas(f).len() == join_commas(f.drop_last()).len() + 1 + f.last().len(),
{
}

/// Two ways of cutting one string at a comma whose tails hold no comma cut it
/// at the same place.
proof fn lemma_last_comma(a1: Seq<char>, l1: Seq<char>, a2: Seq<char>, l2: Seq<char>)
    requires
        a1 + seq![','] + l1 == a2 + seq![','] + l2,
        has_no_comma(l1),
        has_no_comma(l2),
    ensures
        a1 == a2,
        l1 == l2,
{
    let u1 = a1 + seq![','];
    let u2 = a2 + seq![','];
    let s = u1 + l1;
    let t = u2 + l2;
    assert(s.len() == a1.len() + 1 + l1.len());
    assert(t.len() == a2.len() + 1 + l2.len());
    if l1.len() < l2.len() {
        let p = a1.len() as int;
        assert(u1[p] == ',');
        assert(s[p] == u1[p]);
        assert(p >= u2.len());
        assert(t[p] == l2[p - u2.len()]);
        assert(false);
    } else if l2.len() < l1.len() {
        let p = a2.len() as int;
        assert(u2[p] == ',');
        assert(t[p] == u2[p]);
        assert(p >= u1.len());
        assert(s[p] == l1[p - u1.len()]);
        assert(false);
    }
    assert(a1.len() == a2.len());
    assert(a1 =~= s.subrange(0, a1.len() as int));
    assert(a2 =~= t.subrange(0, a2.len() as int));
    assert(l1 =~= s.subrange(a1.len() as int + 1, s.len() as int));
    assert(l2 =~= t.subrange(a2.len() as int + 1, t.len() as int));
}

/// A string has one split at its commas.
pub proof fn lemma_comma_split_unique(s: Seq<char>, f1: Seq<Seq<char>>, f2: Seq<Seq<char>>)
    requires
        is_comma_split(s, f1),
        is_comma_split(s, f2),
    ensures
        f1 == f2,
    decreases f1.len(),
{
    if f1.len() == 1 && f2.len() == 1 {
        assert(f1 =~= f2);
    } else if f1.len() == 1 {
        lemma_join_has_comma(f2);
        assert(has_no_comma(f1[0]));
        assert(f1[0][join_commas(f2.drop_last()).len() as int] == ',');
    } else if f2.len() == 1 {
        lemma_join_has_comma(f1);
        assert(has_no_comma(f2[0]));
        assert(f2[0][join_commas(f1.drop_last()).len() as int] == ',');
    } else {
        assert(has_no_comma(f1[f1.len() - 1]));
        assert(has_no_comma(f2[f2.len() - 1]));
        lemma_last_comma(join_commas(f1.drop_last()), f1.last(), join_commas(f2.drop_last()), f2.last());
        let a = join_commas(f1.drop_last());
        assert forall|k: int| 0 <= k < f1.drop_last().len() implies has_no_comma(
            #[trigger] f1.drop_last()[k],
        ) by {
            assert(f1.drop_last()[k] == f1[k]);
        }
        assert forall|k: int| 0 <= k < f2.drop_last().len() implies has_no_comma(
            #[trigger] f2.drop_last()[k],
        ) by {
            assert(f2.drop_last()[k] == f2[k]);
        }
        lemma_comma_split_unique(a, f1.drop_last(), f2.drop_last());
        assert(f1 =~= f1.drop_last().push(f1.last()));
        assert(f2 =~= f2.drop_last().push(f2.last()));
    }
}

/// The views of a vector of strings.
pub open spec fn views(v: Seq<String>) -> Seq<Seq<char>> {
    v.map_values(|x: String| x@)
}

/// Splits `s` at every comma, as `str::split(',')` does: `n` commas give
/// `n + 1` fields, some of which may be empty.
pub fn split_commas(s: &str) -> (r: Vec<String>)
    ensures
        is_comma_split(s@, views(r@)),
        views(r@) == comma_fields(s@),
{
    let n = s.unicode_len();
    let mut fields: Vec<String> = Vec::new();
    let mut start: usize = 0;
    let mut i: usize = 0;
    while i < n
        invariant
            start <= i <= n,
            n == s@.len(),
            join_commas(views(fields@).push(s@.subrange(start as int, i as int))) == s@.subrange(
                0,
                i as int,
            ),
            forall|k: int| 0 <= k < fields@.len() ==> has_no_comma(#[trigger] views(fields@)[k]),
            has_no_comma(s@.subrange(start as int, i as int)),
        decreases n - i,
    {
        let c = s.get_char(i);
        let ghost old_fields = views(fields@);
        if c == ',' {
            let field = String::from_str(s.substring_char(start, i));
            fields.push(field);
            proof {
                let f = views(fields@);
                assert(f =~= old_fields.push(s@.subrange(start as int, i as int)));
                assert(f.push(s@.subrange(i + 1, i + 1)).drop_last() =~= f);
                assert(s@.subrange(0, i + 1) =~= s@.subrange(0, i as int) + seq![',']
                    + s@.subrange(i + 1, i + 1));
                assert forall|k: int| 0 <= k < f.len() implies has_no_comma(#[trigger] f[k]) by {
                    if k < old_fields.len() {
                        assert(f[k] == old_fields[k]);
                    }
                }
            }
            start = i + 1;
        } else {
            proof {
                let f = views(fields@);
                let a = s@.subrange(start as int, i as int);
                let b = s@.subrange(start as int, i + 1);
                assert(b =~= a.push(c));
                if f.len() == 0 {
                    assert(f.push(b) =~= seq![b]);
                    assert(f.push(a) =~= seq![a]);
                } else {
                    assert(f.push(b).drop_last() =~= f);
                    assert(f.push(a).drop_last() =~= f);
                }
                assert(s@.subrange(0, i + 1) =~= s@.subrange(0, i as int).push(c));
            }
        }
        i = i + 1;
    }
    let last = String::from_str(s.substring_char(start, n));
    let ghost before = views(fields@);
    fields.push(last);
    proof {
        assert(views(fields@) =~= before.push(s@.subrange(start as int, n as int)));
        assert(s@.subrange(0, n as int) =~= s@);
        let f = views(fields@);
        assert forall|k: int| 0 <= k < f.len() implies has_no_comma(#[trigger] f[k]) by {
            if k < before.len() {
                assert(f[k] == before[k]);
            }
        }
        assert(is_comma_split(s@, f));
        lemma_comma_split_unique(s@, f, comma_fields(s@));
    }
    fields
}

/// The character of decimal digit `d`.
pub open spec fn digit_char(d: nat) -> char {
    (d + '0' as nat) as char
}

/// `v` written in decimal, without leading zeros.
pub open spec fn decimal(v: nat) -> Seq<char>
    decreases v,
{
    if v < 10 {
        seq![digit_char(v)]
    } else {
        decimal(v / 10).push(digit_char(v % 10))
    }
}

/// Appends `v` in decimal to `out`.
pub fn append_decimal(out: &mut String, v: u32)
    ensures
        final(out)@ == old(out)@ + decimal(v as nat),
    decreases v,
{
    if v >= 10 {
        append_decimal(out, v / 10);
    }
    let d = (v % 10) as usize;
    let digits = "0123456789";
    proof {
        reveal_strlit("0123456789");
    }
    let c = digits.substring_char(d, d + 1);
    proof {
        assert(c@ =~= seq![digit_char(d as nat)]);
    }
    out.append(c);
    proof {
        if v >= 10 {
            assert(decimal(v as nat) == decimal((v / 10) as nat).push(digit_char((v % 10) as nat)));
        }
    }
}

} // verus!
