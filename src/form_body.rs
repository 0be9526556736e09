//! Reading the ids out of a bulk-delete form body.

use vstd::prelude::*;
use vstd::string::StringExecFns;

verus! {

/// The parts of `s` between occurrences of `sep`; text without `sep` is one
/// part, and the empty text is one empty part.
pub open spec fn split_on(s: Seq<char>, sep: char) -> Seq<Seq<char>>
    decreases s.len(),
{
    if s.len() == 0 {
        seq![Seq::<char>::empty()]
    } else {
        let rest = split_on(s.drop_first(), sep);
        if s[0] == sep {
            seq![Seq::<char>::empty()] + rest
        } else {
            rest.update(0, seq![s[0]] + rest[0])
        }
    }
}

/// `i` is the position of the first `c` in `s`.
pub open spec fn first_at(s: Seq<char>, c: char, i: int) -> bool {
    0 <= i < s.len() && s[i] == c && forall|j: int| 0 <= j < i ==> s[j] != c
}

/// Whether `c` is a decimal digit.
pub open spec fn is_digit(c: char) -> bool {
    '0' <= c <= '9'
}

/// The number that a run of decimal digits spells.
pub open spec fn digits_value(ds: Seq<char>) -> nat
    decreases ds.len(),
{
    if ds.len() == 0 {
        0
    } else {
        digits_value(ds.drop_last()) * 10 + ((ds.last() as int) - ('0' as int)) as nat
    }
}

/// The `u32` that `s` spells: an optional `+` then one or more decimal
/// digits, with a value that fits.
pub open spec fn parse_u32(s: Seq<char>) -> Option<u32> {
    let ds = if s.len() > 0 && s[0] == '+' {
        s.drop_first()
    } else {
        s
    };
    if ds.len() > 0 && (forall|i: int| 0 <= i < ds.len() ==> is_digit(#[trigger] ds[i]))
        && digits_value(ds) <= u32::MAX {
        Some(digits_value(ds) as u32)
    } else {
        None
    }
}

/// The id that one `key=value` part of a form body selects: the value, when
/// the key is `selected_contact_ids` and the value is a `u32`.
pub open spec fn selected_in_part(p: Seq<char>) -> Option<u32> {
    if exists|i: int| first_at(p, '=', i) {
        let i = choose|i: int| first_at(p, '=', i);
        if p.subrange(0, i) == "selected_contact_ids"@ {
            parse_u32(p.subrange(i + 1, p.len() as int))
        } else {
            None
        }
    } else {
        None
    }
}

/// The ids that a list of parts selects, in order.
pub open spec fn selected_in_parts(parts: Seq<Seq<char>>) -> Seq<u32>
    decreases parts.len(),
{
    if parts.len() == 0 {
        Seq::empty()
    } else {
        let before = selected_in_parts(parts.drop_last());
        match selected_in_part(parts.last()) {
            Some(id) => before.push(id),
            None => before,
        }
    }
}

/// The ids that a bulk-delete form body selects, in order.
pub open spec fn selected(body: Seq<char>) -> Seq<u32> {
    selected_in_parts(split_on(body, '&'))
}

/// Relies on `str::split` with a `char` pattern: the parts between the
/// separators, in order, empty parts included.
#[verifier::external_body]
fn split_text(s: &str, sep: char) -> (r: Vec<String>)
    ensures
        r@.map_values(|p: String| p@) == split_on(s@, sep),
{
    s.split(sep).map(|p| p.to_string()).collect()
}

/// Relies on `str::split_once` with a `char` pattern: the text before and
/// after the first occurrence, or `None` when there is none.
#[verifier::external_body]
fn split_once_text(s: &str, c: char) -> (r: Option<(String, String)>)
    ensures
        match r {
            Some((a, b)) => exists|i: int|
                first_at(s@, c, i) && a@ == s@.subrange(0, i) && b@ == s@.subrange(
                    i + 1,
                    s@.len() as int,
                ),
            None => forall|j: int| 0 <= j < s@.len() ==> s@[j] != c,
        },
{
    s.split_once(c).map(|(a, b)| (a.to_string(), b.to_string()))
}

/// Relies on `u32`'s `FromStr`: an optional `+` and decimal digits whose
/// value fits, anything else being an error.
#[verifier::external_body]
fn parse_decimal_u32(s: &str) -> (r: Option<u32>)
    ensures
        r == parse_u32(s@),
{
    s.parse::<u32>().ok()
}

/// The ids that a bulk-delete form body selects
/// (`selected_contact_ids=1&selected_contact_ids=2`), in order; parts with
/// another key or a value that is not a `u32` are passed over.
pub fn selected_ids(body: &str) -> (r: Vec<u32>)
    ensures
        r@ == selected(body@),
{
    let parts = split_text(body, '&');
    let ghost views = parts@.map_values(|p: String| p@);
    let key = String::from_str("selected_contact_ids");
    let mut ids: Vec<u32> = Vec::new();
    let mut n: usize = 0;
    while n < parts.len()
        invariant
            n <= parts.len(),
            views == parts@.map_values(|p: String| p@),
            key@ == "selected_contact_ids"@,
            ids@ == selected_in_parts(views.take(n as int)),
        decreases parts.len() - n,
    {
        let ghost p = parts@[n as int]@;
        assert(views.take(n + 1).drop_last() == views.take(n as int));
        assert(views.take(n + 1).last() == p);
        match split_once_text(parts[n].as_str(), '=') {
            Some((k, v)) => {
                let ghost i = choose|i: int|
                    first_at(p, '=', i) && k@ == p.subrange(0, i) && v@ == p.subrange(
                        i + 1,
                        p.len() as int,
                    );
                proof {
                    let c = choose|c: int| first_at(p, '=', c);
                    if c < i {
                        assert(p[c] != '=');
                    }
                    if i < c {
                        assert(p[i] != '=');
                    }
                    assert(c == i);
                }
                if k == key {
                    match parse_decimal_u32(v.as_str()) {
                        Some(id) => ids.push(id),
                        None => {},
                    }
                }
            },
            None => {
                assert(!exists|i: int| first_at(p, '=', i));
            },
        }
        n = n + 1;
    }
    assert(views.take(parts.len() as int) == views);
    ids
}

} // verus!
