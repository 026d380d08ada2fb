use vstd::prelude::*;

verus! {

/// Index of the first `c` in `s` at or after `i`, or -1.
pub open spec fn find_from(s: Seq<char>, c: char, i: int) -> int
    decreases s.len() - i,
{
    if i < 0 || i >= s.len() {
        -1
    } else if s[i] == c {
        i
    } else {
        find_from(s, c, i + 1)
    }
}

/// Index of the last `c` in `s` before `i`, or -1.
pub open spec fn rfind_before(s: Seq<char>, c: char, i: int) -> int
    decreases i,
{
    if i <= 0 || i > s.len() {
        -1
    } else if s[i - 1] == c {
        i - 1
    } else {
        rfind_before(s, c, i - 1)
    }
}

/// End of the field that starts at `i` and runs to the next `c` or to the
/// end of `s`.
pub open spec fn field_end(s: Seq<char>, c: char, i: int) -> int {
    if find_from(s, c, i) == -1 {
        s.len() as int
    } else {
        find_from(s, c, i)
    }
}

/// The first field of `s` split at `c`.
pub open spec fn field0(s: Seq<char>, c: char) -> Seq<char> {
    s.take(field_end(s, c, 0))
}

/// Whether `s` split at `c` has a second field.
pub open spec fn has_field1(s: Seq<char>, c: char) -> bool {
    find_from(s, c, 0) != -1
}

/// The second field of `s` split at `c`.
pub open spec fn field1(s: Seq<char>, c: char) -> Seq<char> {
    let p = find_from(s, c, 0);
    s.subrange(p + 1, field_end(s, c, p + 1))
}

/// The part of `s` after its last `c` (all of `s` if there is none).
pub open spec fn last_field(s: Seq<char>, c: char) -> Seq<char> {
    s.subrange(rfind_before(s, c, s.len() as int) + 1, s.len() as int)
}

/// Unicode White_Space, the set `char::is_whitespace` tests.
pub open spec fn is_white(c: char) -> bool {
    ||| ('\u{9}' <= c && c <= '\u{d}')
    ||| c == ' '
    ||| c == '\u{85}'
    ||| c == '\u{a0}'
    ||| c == '\u{1680}'
    ||| ('\u{2000}' <= c && c <= '\u{200a}')
    ||| c == '\u{2028}'
    ||| c == '\u{2029}'
    ||| c == '\u{202f}'
    ||| c == '\u{205f}'
    ||| c == '\u{3000}'
}

/// Start of `s` with its leading white space skipped.
pub open spec fn trim_start_from(s: Seq<char>, i: int) -> int
    decreases s.len() - i,
{
    if i < 0 || i >= s.len() {
        s.len() as int
    } else if is_white(s[i]) {
        trim_start_from(s, i + 1)
    } else {
        i
    }
}

/// End of `s[..i]` with its trailing white space dropped.
pub open spec fn trim_end_before(s: Seq<char>, lo: int, i: int) -> int
    decreases i - lo,
{
    if i <= lo || i > s.len() {
        lo
    } else if is_white(s[i - 1]) {
        trim_end_before(s, lo, i - 1)
    } else {
        i
    }
}

/// `s` without leading and trailing white space.
pub open spec fn trimmed(s: Seq<char>) -> Seq<char> {
    let lo = trim_start_from(s, 0);
    s.subrange(lo, trim_end_before(s, lo, s.len() as int))
}

pub open spec fn is_digit(c: char) -> bool {
    '0' <= c && c <= '9'
}

pub open spec fn all_digits(s: Seq<char>) -> bool {
    forall|i: int| 0 <= i < s.len() ==> is_digit(#[trigger] s[i])
}

/// The number that the decimal digits `s` spell.
pub open spec fn dec_value(s: Seq<char>) -> nat
    decreases s.len(),
{
    if s.len() == 0 {
        0
    } else {
        dec_value(s.drop_last()) * 10 + ((s.last() as u32 - '0' as u32) as nat)
    }
}

/// What `parse::<u64>` gives: an optional `+`, then one or more digits
/// whose value fits.
pub open spec fn parse_unsigned(s: Seq<char>, limit: nat) -> Option<nat> {
    let d = if s.len() > 0 && s[0] == '+' { s.skip(1) } else { s };
    if d.len() > 0 && all_digits(d) && dec_value(d) <= limit {
        Some(dec_value(d))
    } else {
        None
    }
}

/// What `parse::<i32>` gives: an optional sign, then one or more digits
/// whose signed value fits in an `i32`.
pub open spec fn parse_i32(s: Seq<char>) -> Option<i32> {
    if s.len() > 0 && s[0] == '-' {
        let d = s.skip(1);
        if d.len() > 0 && all_digits(d) && dec_value(d) <= 0x8000_0000 {
            Some((-(dec_value(d) as int)) as i32)
        } else {
            None
        }
    } else {
        match parse_unsigned(s, 0x7fff_ffff) {
            Some(v) => Some(v as i32),
            None => None,
        }
    }
}

proof fn lemma_find_from(s: Seq<char>, c: char, i: int)
    requires
        0 <= i <= s.len(),
    ensures
        find_from(s, c, i) == -1 ==> forall|j: int| i <= j < s.len() ==> #[trigger] s[j] != c,
        find_from(s, c, i) != -1 ==> i <= find_from(s, c, i) < s.len() && s[find_from(s, c, i)] == c,
    decreases s.len() - i,
{
    if i < s.len() {
        lemma_find_from(s, c, i + 1);
    }
}

/// Index of the first `c` in `s` at or after `from`.
pub fn find_char(s: &str, c: char, from: usize) -> (r: Option<usize>)
    requires
        from <= s@.len(),
    ensures
        r is None <==> find_from(s@, c, from as int) == -1,
        r matches Some(i) ==> i == find_from(s@, c, from as int) && from <= i < s@.len() && s@[i as int] == c,
        r is None ==> forall|j: int| from <= j < s@.len() ==> #[trigger] s@[j] != c,
{
    proof {
        lemma_find_from(s@, c, from as int);
    }
    let n = s.unicode_len();
    let mut i = from;
    while i < n
        invariant
            n == s@.len(),
            from <= i <= n,
            find_from(s@, c, from as int) == find_from(s@, c, i as int),
        decreases n - i,
    {
        if s.get_char(i) == c {
            return Some(i);
        }
        i = i + 1;
    }
    None
}

/// Index of the last `c` in `s` before `before`.
pub fn rfind_char(s: &str, c: char, before: usize) -> (r: Option<usize>)
    requires
        before <= s@.len(),
    ensures
        r is None <==> rfind_before(s@, c, before as int) == -1,
        r matches Some(i) ==> i == rfind_before(s@, c, before as int) && i < before && s@[i as int] == c,
{
    let mut i = before;
    while i > 0
        invariant
            i <= before <= s@.len(),
            rfind_before(s@, c, before as int) == rfind_before(s@, c, i as int),
        decreases i,
    {
        if s.get_char(i - 1) == c {
            return Some(i - 1);
        }
        i = i - 1;
    }
    None
}

/// `s` without leading and trailing white space.
pub fn trim(s: &str) -> (r: &str)
    ensures
        r@ == trimmed(s@),
{
    let n = s.unicode_len();
    let mut lo: usize = 0;
    while lo < n && is_white_char(s.get_char(lo))
        invariant
            n == s@.len(),
            lo <= n,
            trim_start_from(s@, 0) == trim_start_from(s@, lo as int),
        decreases n - lo,
    {
        lo = lo + 1;
    }
    let mut hi: usize = n;
    while hi > lo && is_white_char(s.get_char(hi - 1))
        invariant
            n == s@.len(),
            lo <= hi <= n,
            trim_start_from(s@, 0) == lo,
            trim_end_before(s@, lo as int, n as int) == trim_end_before(s@, lo as int, hi as int),
        decreases hi,
    {
        hi = hi - 1;
    }
    s.substring_char(lo, hi)
}

pub fn is_white_char(c: char) -> (r: bool)
    ensures
        r == is_white(c),
{
    ('\u{9}' <= c && c <= '\u{d}') || c == ' ' || c == '\u{85}' || c == '\u{a0}' || c == '\u{1680}'
        || ('\u{2000}' <= c && c <= '\u{200a}') || c == '\u{2028}' || c == '\u{2029}' || c
        == '\u{202f}' || c == '\u{205f}' || c == '\u{3000}'
}

proof fn lemma_dec_value_grows(s: Seq<char>, k: int)
    requires
        0 <= k <= s.len(),
        all_digits(s),
    ensures
        dec_value(s.take(k)) <= dec_value(s),
    decreases s.len(),
{
    if k < s.len() {
        assert(s.drop_last().take(k) =~= s.take(k));
        lemma_dec_value_grows(s.drop_last(), k);
        assert(all_digits(s.drop_last()));
    } else {
        assert(s.take(k) =~= s);
    }
}

/// The value of the decimal digits `s[from..to]`, if they are one or more
/// digits and the value is at most `limit`.
pub fn parse_digits(s: &str, from: usize, to: usize, limit: u64) -> (r: Option<u64>)
    requires
        from <= to <= s@.len(),
    ensures
        ({
            let d = s@.subrange(from as int, to as int);
            if d.len() > 0 && all_digits(d) && dec_value(d) <= limit {
                r == Some(dec_value(d) as u64)
            } else {
                r is None
            }
        }),
{
    let ghost d = s@.subrange(from as int, to as int);
    if from == to {
        return None;
    }
    let mut acc: u64 = 0;
    let mut i = from;
    while i < to
        invariant
            from <= i <= to <= s@.len(),
            d == s@.subrange(from as int, to as int),
            all_digits(d.take(i - from)),
            acc == dec_value(d.take(i - from)),
            acc <= limit,
        decreases to - i,
    {
        let c = s.get_char(i);
        if c < '0' || c > '9' {
            proof {
                assert(d[i - from] == c);
            }
            return None;
        }
        let v = (c as u32 - '0' as u32) as u64;
        proof {
            assert(d.take(i - from + 1).drop_last() =~= d.take(i - from));
            assert(d.take(i - from + 1).last() == c);
            assert(d[i - from] == c);
        }
        if v > limit || acc > (limit - v) / 10 {
            proof {
                assert(acc * 10 + v > limit) by (nonlinear_arith)
                    requires
                        v > limit || acc > (limit - v) / 10,
                        v <= 9,
                ;
                if all_digits(d) {
                    lemma_dec_value_grows(d, i - from + 1);
                }
            }
            return None;
        }
        proof {
            assert(acc * 10 + v <= limit) by (nonlinear_arith)
                requires
                    acc <= (limit - v) / 10,
                    v <= limit,
            ;
        }
        acc = acc * 10 + v;
        proof {
            assert forall|j: int| 0 <= j < i - from + 1 implies is_digit(#[trigger] d.take(i - from + 1)[j]) by {
                if j < i - from {
                    assert(d.take(i - from + 1)[j] == d.take(i - from)[j]);
                }
            }
        }
        i = i + 1;
    }
    proof {
        assert(d.take(to - from) =~= d);
    }
    Some(acc)
}

/// `parse::<u64>` on `s[from..to]`, with `limit` in place of `u64::MAX`.
pub fn parse_unsigned_at(s: &str, from: usize, to: usize, limit: u64) -> (r: Option<u64>)
    requires
        from <= to <= s@.len(),
    ensures
        ({
            match parse_unsigned(s@.subrange(from as int, to as int), limit as nat) {
                Some(v) => r == Some(v as u64),
                None => r is None,
            }
        }),
{
    let ghost d = s@.subrange(from as int, to as int);
    if from < to && s.get_char(from) == '+' {
        proof {
            assert(d.skip(1) =~= s@.subrange(from + 1, to as int));
        }
        parse_digits(s, from + 1, to, limit)
    } else {
        parse_digits(s, from, to, limit)
    }
}

/// `parse::<i32>` on `s[from..to]`.
pub fn parse_i32_at(s: &str, from: usize, to: usize) -> (r: Option<i32>)
    requires
        from <= to <= s@.len(),
    ensures
        r == parse_i32(s@.subrange(from as int, to as int)),
{
    let ghost d = s@.subrange(from as int, to as int);
    if from < to && s.get_char(from) == '-' {
        proof {
            assert(d.skip(1) =~= s@.subrange(from + 1, to as int));
        }
        match parse_digits(s, from + 1, to, 0x8000_0000) {
            Some(v) => Some((0 - (v as i64)) as i32),
            None => None,
        }
    } else {
        match parse_unsigned_at(s, from, to, 0x7fff_ffff) {
            Some(v) => Some(v as i32),
            None => None,
        }
    }
}

/// Whether `s` begins with `prefix`.
pub fn starts_with(s: &str, prefix: &str) -> (r: bool)
    ensures
        r == (prefix@.len() <= s@.len() && s@.take(prefix@.len() as int) == prefix@),
{
    let n = prefix.unicode_len();
    if n > s.unicode_len() {
        return false;
    }
    let mut i: usize = 0;
    while i < n
        invariant
            n == prefix@.len() <= s@.len(),
            0 <= i <= n,
            forall|j: int| 0 <= j < i ==> s@[j] == prefix@[j],
        decreases n - i,
    {
        if s.get_char(i) != prefix.get_char(i) {
            proof {
                assert(s@.take(n as int)[i as int] != prefix@[i as int]);
            }
            return false;
        }
        i = i + 1;
    }
    proof {
        assert(s@.take(n as int) =~= prefix@);
    }
    true
}

} // verus!
