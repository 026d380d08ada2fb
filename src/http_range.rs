use vstd::prelude::*;

use crate::text::{
    field0, field1, find_char, has_field1, field_end, parse_unsigned, parse_unsigned_at, starts_with,
    trim, trimmed,
};

verus! {

/// Both numbers of `a-b`: the first two fields of `s` split at `-`.
pub open spec fn parse_pair(s: Seq<char>) -> Option<(nat, nat)> {
    if !has_field1(s, '-') {
        None
    } else {
        match (parse_unsigned(field0(s, '-'), usize::MAX as nat), parse_unsigned(field1(s, '-'), usize::MAX as nat)) {
            (Some(a), Some(b)) => Some((a, b)),
            _ => None,
        }
    }
}

/// A `Content-Range: bytes a-b/n` header, as start, end and total.
pub open spec fn content_range_of(h: Seq<char>) -> Option<(nat, nat, nat)> {
    let t = trimmed(h);
    if !(t.len() >= 6 && t.take(6) == seq!['b', 'y', 't', 'e', 's', ' ']) {
        None
    } else {
        let rest = t.skip(6);
        if !has_field1(rest, '/') {
            None
        } else {
            match (parse_unsigned(field1(rest, '/'), usize::MAX as nat), parse_pair(field0(rest, '/'))) {
                (Some(total), Some((a, b))) => if a <= b && b < total {
                    Some((a, b, total))
                } else {
                    None
                },
                _ => None,
            }
        }
    }
}

/// A `Range: bytes=a-b` header, as start and end.
pub open spec fn range_of(h: Seq<char>) -> Option<(nat, nat)> {
    let t = trimmed(h);
    if !(t.len() >= 6 && t.take(6) == seq!['b', 'y', 't', 'e', 's', '=']) {
        None
    } else {
        match parse_pair(t.skip(6)) {
            Some((a, b)) => if a <= b {
                Some((a, b))
            } else {
                None
            },
            None => None,
        }
    }
}

/// The byte range a `Content-Range` request header announces: bytes
/// `start..=end` of a file of `total` bytes.
#[derive(Debug)]
pub struct ContentRange {
    pub start: usize,
    pub end: usize,
    pub total: usize,
}

/// The byte range `start..=end` a `Range` request header asks for.
#[derive(Debug)]
pub struct Range {
    pub start: usize,
    pub end: usize,
}

/// The two numbers of `s` split at `-`.
fn pair_at(s: &str) -> (r: Option<(usize, usize)>)
    ensures
        match parse_pair(s@) {
            Some((a, b)) => r == Some((a as usize, b as usize)),
            None => r is None,
        },
{
    let n = s.unicode_len();
    let q0 = match find_char(s, '-', 0) {
        Some(q) => q,
        None => return None,
    };
    let q1 = match find_char(s, '-', q0 + 1) {
        Some(q) => q,
        None => n,
    };
    proof {
        assert(field0(s@, '-') =~= s@.subrange(0, q0 as int));
        assert(field_end(s@, '-', q0 + 1) == q1);
        assert(field1(s@, '-') =~= s@.subrange(q0 + 1, q1 as int));
    }
    let a = parse_unsigned_at(s, 0, q0, usize::MAX as u64);
    let b = parse_unsigned_at(s, q0 + 1, q1, usize::MAX as u64);
    match (a, b) {
        (Some(a), Some(b)) => Some((a as usize, b as usize)),
        _ => None,
    }
}

impl ContentRange {
    /// Parses `bytes <start>-<end>/<total>`, surrounding white space
    /// allowed, with `start <= end < total`.
    pub fn from_str(header: &str) -> (r: Option<ContentRange>)
        ensures
            match content_range_of(header@) {
                Some((a, b, n)) => r matches Some(c) && c.start == a && c.end == b && c.total == n,
                None => r is None,
            },
    {
        let t = trim(header);
        proof {
            reveal_strlit("bytes ");
            assert("bytes "@ =~= seq!['b', 'y', 't', 'e', 's', ' ']);
        }
        if !starts_with(t, "bytes ") {
            return None;
        }
        let rest = t.substring_char(6, t.unicode_len());
        proof {
            assert(rest@ =~= t@.skip(6));
        }
        let n = rest.unicode_len();
        let p0 = match find_char(rest, '/', 0) {
            Some(p) => p,
            None => return None,
        };
        let p1 = match find_char(rest, '/', p0 + 1) {
            Some(p) => p,
            None => n,
        };
        proof {
            assert(field0(rest@, '/') =~= rest@.subrange(0, p0 as int));
            assert(field_end(rest@, '/', p0 + 1) == p1);
            assert(field1(rest@, '/') =~= rest@.subrange(p0 + 1, p1 as int));
        }
        let total = match parse_unsigned_at(rest, p0 + 1, p1, usize::MAX as u64) {
            Some(v) => v as usize,
            None => return None,
        };
        let range = rest.substring_char(0, p0);
        let (start, end) = match pair_at(range) {
            Some(p) => p,
            None => return None,
        };
        if start > end || end >= total {
            return None;
        }
        Some(ContentRange { start, end, total })
    }
}

impl Range {
    /// Parses `bytes=<start>-<end>`, surrounding white space allowed, with
    /// `start <= end`.
    pub fn from_str(header: &str) -> (r: Option<Range>)
        ensures
            match range_of(header@) {
                Some((a, b)) => r matches Some(x) && x.start == a && x.end == b,
                None => r is None,
            },
    {
        let t = trim(header);
        proof {
            reveal_strlit("bytes=");
            assert("bytes="@ =~= seq!['b', 'y', 't', 'e', 's', '=']);
        }
        if !starts_with(t, "bytes=") {
            return None;
        }
        let rest = t.substring_char(6, t.unicode_len());
        proof {
            assert(rest@ =~= t@.skip(6));
        }
        let (start, end) = match pair_at(rest) {
            Some(p) => p,
            None => return None,
        };
        if start > end {
            return None;
        }
        Some(Range { start, end })
    }
}

} // verus!
