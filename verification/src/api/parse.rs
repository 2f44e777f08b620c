//! Parsing of Datalog atoms written as `Inc(1)`, `Type(1, 2)` or `Role(1, 0, 2)`.

use vstd::prelude::*;
use crate::model::incidence::IId;
use crate::query::datalog::{Predicate, PredicateModel};
use crate::text::{chars_of, parse_unsigned, parse_unsigned_chars, split_chars, split_on, trim, trim_chars};

verus! {

/// Whether `s` begins with `p`.
pub open spec fn starts_with(s: Seq<char>, p: Seq<char>) -> bool {
    p.len() <= s.len() && s.subrange(0, p.len() as int) == p
}

/// `s` without a final `)`, if it ends with one.
pub open spec fn strip_close(s: Seq<char>) -> Option<Seq<char>> {
    if s.len() > 0 && s.last() == ')' { Some(s.drop_last()) } else { None }
}

/// The arguments between `p` and a final `)`, if `s` has that shape.
pub open spec fn call_args(s: Seq<char>, p: Seq<char>) -> Option<Seq<char>> {
    if starts_with(s, p) { strip_close(s.subrange(p.len() as int, s.len() as int)) } else { None }
}

/// The largest `u64`.
pub open spec fn u64_max() -> nat {
    0xffff_ffff_ffff_ffff
}

/// The largest `u32`.
pub open spec fn u32_max() -> nat {
    0xffff_ffff
}

/// The comma-separated parts of `s`, each trimmed.
pub open spec fn trimmed_parts(s: Seq<char>) -> Seq<Seq<char>> {
    split_on(s, ',').map_values(|p: Seq<char>| trim(p))
}

/// `Inc(<u64>)`.
pub open spec fn parse_inc(s: Seq<char>) -> Option<PredicateModel> {
    match call_args(s, seq!['I', 'n', 'c', '(']) {
        Some(inner) => match parse_unsigned(inner, u64_max()) {
            Some(v) => Some(PredicateModel::Inc(IId(v as u64))),
            None => None,
        },
        None => None,
    }
}

/// `Type(<u64>, <u64>)`, parts trimmed.
pub open spec fn parse_type(s: Seq<char>) -> Option<PredicateModel> {
    match call_args(s, seq!['T', 'y', 'p', 'e', '(']) {
        Some(inner) => {
            let parts = trimmed_parts(inner);
            if parts.len() == 2 {
                match (parse_unsigned(parts[0], u64_max()), parse_unsigned(parts[1], u64_max())) {
                    (Some(a), Some(b)) => Some(PredicateModel::Type(IId(a as u64), IId(b as u64))),
                    _ => None,
                }
            } else {
                None
            }
        },
        None => None,
    }
}

/// `Role(<u64>, <u32>, <u64>)`, parts trimmed.
pub open spec fn parse_role(s: Seq<char>) -> Option<PredicateModel> {
    match call_args(s, seq!['R', 'o', 'l', 'e', '(']) {
        Some(inner) => {
            let parts = trimmed_parts(inner);
            if parts.len() == 3 {
                match (
                    parse_unsigned(parts[0], u64_max()),
                    parse_unsigned(parts[1], u32_max()),
                    parse_unsigned(parts[2], u64_max()),
                ) {
                    (Some(a), Some(b), Some(c)) => Some(PredicateModel::Role(IId(a as u64), b as u32, IId(c as u64))),
                    _ => None,
                }
            } else {
                None
            }
        },
        None => None,
    }
}

/// The atom that `s` writes, trying `Inc`, then `Type`, then `Role`.
pub open spec fn parse_predicate_spec(s: Seq<char>) -> Option<PredicateModel> {
    if parse_inc(s) is Some {
        parse_inc(s)
    } else if parse_type(s) is Some {
        parse_type(s)
    } else {
        parse_role(s)
    }
}

/// The arguments of `s` if it is `p` followed by arguments and a final `)`.
fn call_args_exec(s: &Vec<char>, p: &[char]) -> (r: Option<Vec<char>>)
    ensures
        match call_args(s@, p@) {
            Some(inner) => r matches Some(v) && v@ == inner,
            None => r is None,
        },
{
    if p.len() > s.len() {
        return None;
    }
    let mut k: usize = 0;
    while k < p.len()
        invariant
            p@.len() <= s@.len(),
            k <= p@.len(),
            forall|q: int| 0 <= q < k ==> s@[q] == p@[q],
        decreases p@.len() - k,
    {
        if s[k] != p[k] {
            assert(s@.subrange(0, p@.len() as int)[k as int] != p@[k as int]);
            return None;
        }
        k = k + 1;
    }
    assert(s@.subrange(0, p@.len() as int) =~= p@);
    if s.len() == p.len() || s[s.len() - 1] != ')' {
        return None;
    }
    let mut out: Vec<char> = Vec::new();
    let mut i: usize = p.len();
    let end = s.len() - 1;
    while i < end
        invariant
            p@.len() <= i <= end,
            end == s@.len() - 1,
            out@ == s@.subrange(p@.len() as int, i as int),
        decreases end - i,
    {
        out.push(s[i]);
        i = i + 1;
        assert(out@ =~= s@.subrange(p@.len() as int, i as int));
    }
    assert(out@ =~= s@.subrange(p@.len() as int, s@.len() as int).drop_last());
    Some(out)
}

/// The comma-separated parts of `s`, each trimmed.
fn trimmed_parts_exec(s: &Vec<char>) -> (r: Vec<Vec<char>>)
    ensures
        r@.len() == trimmed_parts(s@).len(),
        forall|q: int| 0 <= q < r@.len() ==> #[trigger] r@[q]@ == trimmed_parts(s@)[q],
{
    let raw = split_chars(s.as_slice(), ',');
    let mut out: Vec<Vec<char>> = Vec::new();
    let mut k: usize = 0;
    while k < raw.len()
        invariant
            raw@.len() == split_on(s@, ',').len(),
            forall|q: int| 0 <= q < raw@.len() ==> #[trigger] raw@[q]@ == split_on(s@, ',')[q],
            k <= raw@.len(),
            out@.len() == k,
            forall|q: int| 0 <= q < k ==> #[trigger] out@[q]@ == trimmed_parts(s@)[q],
        decreases raw@.len() - k,
    {
        let t = trim_chars(raw[k].as_slice());
        out.push(t);
        k = k + 1;
    }
    out
}

/// Parses a Datalog atom: `Inc(1)`, `Type(1, 2)` or `Role(1, 0, 2)`.
/// Anything else, or a number that does not parse, gives `None`.
pub fn parse_predicate(s: &str) -> (r: Option<Predicate>)
    ensures
        match parse_predicate_spec(s@) {
            Some(p) => r matches Some(x) && x.model() == p,
            None => r is None,
        },
{
    let cs = chars_of(s);
    parse_predicate_chars(&cs)
}

/// Parses a Datalog atom given as characters; see [`parse_predicate`].
pub fn parse_predicate_chars(cs: &Vec<char>) -> (r: Option<Predicate>)
    ensures
        match parse_predicate_spec(cs@) {
            Some(p) => r matches Some(x) && x.model() == p,
            None => r is None,
        },
{
    let inc_p: [char; 4] = ['I', 'n', 'c', '('];
    let type_p: [char; 5] = ['T', 'y', 'p', 'e', '('];
    let role_p: [char; 5] = ['R', 'o', 'l', 'e', '('];
    assert(inc_p@ =~= seq!['I', 'n', 'c', '(']);
    assert(type_p@ =~= seq!['T', 'y', 'p', 'e', '(']);
    assert(role_p@ =~= seq!['R', 'o', 'l', 'e', '(']);
    match call_args_exec(cs, inc_p.as_slice()) {
        Some(inner) => match parse_unsigned_chars(inner.as_slice(), 0xffff_ffff_ffff_ffff) {
            Some(id) => {
                return Some(Predicate::Inc(IId(id)));
            },
            None => {},
        },
        None => {},
    }
    match call_args_exec(cs, type_p.as_slice()) {
        Some(inner) => {
            let parts = trimmed_parts_exec(&inner);
            if parts.len() == 2 {
                let a = parse_unsigned_chars(parts[0].as_slice(), 0xffff_ffff_ffff_ffff);
                let b = parse_unsigned_chars(parts[1].as_slice(), 0xffff_ffff_ffff_ffff);
                match (a, b) {
                    (Some(inc_id), Some(type_id)) => {
                        return Some(Predicate::Type(IId(inc_id), IId(type_id)));
                    },
                    _ => {},
                }
            }
        },
        None => {},
    }
    match call_args_exec(cs, role_p.as_slice()) {
        Some(inner) => {
            let parts = trimmed_parts_exec(&inner);
            if parts.len() == 3 {
                let a = parse_unsigned_chars(parts[0].as_slice(), 0xffff_ffff_ffff_ffff);
                let b = parse_unsigned_chars(parts[1].as_slice(), 0xffff_ffff);
                let c = parse_unsigned_chars(parts[2].as_slice(), 0xffff_ffff_ffff_ffff);
                match (a, b, c) {
                    (Some(inc_id), Some(role_idx), Some(arg_id)) => {
                        return Some(Predicate::Role(IId(inc_id), role_idx as u32, IId(arg_id)));
                    },
                    _ => {},
                }
            }
        },
        None => {},
    }
    None
}

} // verus!
