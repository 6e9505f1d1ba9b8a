//! Upstream addresses: IPv4 only, written as four dot-separated decimal octets.

use vstd::prelude::*;

verus! {

/// An IPv4 address, its octets most significant first.
#[derive(Clone, Copy, Debug, PartialEq, Eq, Structural)]
pub struct Ipv4(pub u8, pub u8, pub u8, pub u8);

pub open spec fn is_digit(c: char) -> bool {
    '0' <= c && c <= '9'
}

pub open spec fn all_digits(d: Seq<char>) -> bool {
    forall|i: int| 0 <= i < d.len() ==> is_digit(#[trigger] d[i])
}

pub open spec fn digit_value(c: char) -> int {
    c as int - '0' as int
}

/// The number that a run of decimal digits spells.
pub open spec fn digits_value(d: Seq<char>) -> int
    decreases d.len(),
{
    if d.len() == 0 {
        0
    } else {
        digits_value(d.drop_last()) * 10 + digit_value(d.last())
    }
}

/// An octet as `u8`'s decimal parser takes it: an optional `+` before at
/// least one digit, nothing else, and a value that fits in a byte.
pub open spec fn octet_of(f: Seq<char>) -> Option<u8> {
    let d = if f.len() > 1 && f[0] == '+' { f.drop_first() } else { f };
    if d.len() > 0 && all_digits(d) && digits_value(d) <= 255 {
        Some(digits_value(d) as u8)
    } else {
        None
    }
}

/// The pieces of `s` between its dots, the empty ones included.
pub open spec fn split_dots(s: Seq<char>) -> Seq<Seq<char>>
    decreases s.len(),
{
    if s.len() == 0 {
        seq![Seq::empty()]
    } else {
        let init = split_dots(s.drop_last());
        if s.last() == '.' {
            init.push(Seq::empty())
        } else {
            init.update(init.len() - 1, init.last().push(s.last()))
        }
    }
}

/// The address that `s` writes, if it is exactly four valid octets.
pub open spec fn ipv4_of(s: Seq<char>) -> Option<Ipv4> {
    let f = split_dots(s);
    if f.len() == 4 && octet_of(f[0]) is Some && octet_of(f[1]) is Some && octet_of(f[2]) is Some
        && octet_of(f[3]) is Some {
        Some(
            Ipv4(
                octet_of(f[0])->0,
                octet_of(f[1])->0,
                octet_of(f[2])->0,
                octet_of(f[3])->0,
            ),
        )
    } else {
        None
    }
}

proof fn lemma_split_nonempty(s: Seq<char>)
    ensures
        split_dots(s).len() >= 1,
    decreases s.len(),
{
    if s.len() > 0 {
        lemma_split_nonempty(s.drop_last());
    }
}

proof fn lemma_digits_value_nonneg(d: Seq<char>)
    requires
        all_digits(d),
    ensures
        digits_value(d) >= 0,
    decreases d.len(),
{
    if d.len() > 0 {
        assert(is_digit(d[d.len() - 1]));
        lemma_digits_value_nonneg(d.drop_last());
    }
}

/// A longer run of digits never spells a smaller number.
proof fn lemma_digits_value_prefix(d: Seq<char>, k: int)
    requires
        all_digits(d),
        0 <= k <= d.len(),
    ensures
        digits_value(d.take(k)) <= digits_value(d),
    decreases d.len(),
{
    if k < d.len() {
        let p = d.drop_last();
        assert(all_digits(p));
        lemma_digits_value_prefix(p, k);
        assert(p.take(k) =~= d.take(k));
        assert(is_digit(d[d.len() - 1]));
        lemma_digits_value_nonneg(p);
    } else {
        assert(d.take(k) =~= d);
    }
}

/// Reads one octet from the characters `start..end` of `s`.
fn parse_octet(s: &str, start: usize, end: usize) -> (r: Option<u8>)
    requires
        start <= end <= s@.len(),
    ensures
        r == octet_of(s@.subrange(start as int, end as int)),
{
    let ghost f = s@.subrange(start as int, end as int);
    let mut from: usize = start;
    if end - start > 1 && s.get_char(start) == '+' {
        from = start + 1;
    }
    let ghost d = s@.subrange(from as int, end as int);
    assert(d =~= (if f.len() > 1 && f[0] == '+' { f.drop_first() } else { f }));
    if from == end {
        return None;
    }
    let mut v: u32 = 0;
    let mut k: usize = from;
    while k < end
        invariant
            from <= k <= end <= s@.len(),
            d == s@.subrange(from as int, end as int),
            f == s@.subrange(start as int, end as int),
            d == (if f.len() > 1 && f[0] == '+' { f.drop_first() } else { f }),
            d.len() > 0,
            all_digits(d.take(k - from)),
            v as int == digits_value(d.take(k - from)),
            v <= 255,
        decreases end - k,
    {
        let c = s.get_char(k);
        let ghost p = d.take(k - from);
        assert(d.take(k + 1 - from).drop_last() =~= p);
        if !('0' <= c && c <= '9') {
            assert(!all_digits(d)) by {
                assert(d[k - from] == c);
            }
            return None;
        }
        v = v * 10 + (c as u32 - '0' as u32);
        assert(all_digits(d.take(k + 1 - from)));
        if v > 255 {
            proof {
                if all_digits(d) {
                    lemma_digits_value_prefix(d, k + 1 - from);
                }
            }
            return None;
        }
        k = k + 1;
    }
    assert(d.take(end - from) =~= d);
    Some(v as u8)
}

/// Reads an IPv4 address written as four dot-separated decimal octets;
/// anything else (another count of pieces, an empty or oversized piece, a
/// stray character) gives `None`.
pub fn parse_ipv4(s: &str) -> (r: Option<Ipv4>)
    ensures
        r == ipv4_of(s@),
{
    let n: usize = s.unicode_len();
    let mut parsed: Vec<Option<u8>> = Vec::new();
    let ghost mut done: Seq<Seq<char>> = Seq::empty();
    let mut start: usize = 0;
    let mut i: usize = 0;
    assert(s@.take(0) =~= Seq::<char>::empty());
    assert(s@.subrange(0, 0) =~= Seq::<char>::empty());
    assert(split_dots(Seq::<char>::empty()) =~= done.push(Seq::empty()));
    while i < n
        invariant
            n == s@.len(),
            start <= i <= n,
            split_dots(s@.take(i as int)) == done.push(s@.subrange(start as int, i as int)),
            parsed@.len() == done.len(),
            forall|j: int| 0 <= j < done.len() ==> parsed@[j] == octet_of(#[trigger] done[j]),
        decreases n - i,
    {
        let c = s.get_char(i);
        let ghost prev = s@.take(i as int);
        assert(s@.take(i + 1).drop_last() =~= prev);
        assert(s@.take(i + 1).last() == c);
        if c == '.' {
            let o = parse_octet(s, start, i);
            parsed.push(o);
            proof {
                done = done.push(s@.subrange(start as int, i as int));
                assert(s@.subrange(i + 1, i + 1) =~= Seq::<char>::empty());
                assert(split_dots(s@.take(i + 1)) =~= done.push(s@.subrange(i + 1, i + 1)));
            }
            start = i + 1;
        } else {
            proof {
                assert(s@.subrange(start as int, i + 1) =~= s@.subrange(start as int, i as int).push(c));
                assert(split_dots(s@.take(i + 1)) =~= done.push(s@.subrange(start as int, i + 1)));
            }
        }
        i = i + 1;
    }
    let o = parse_octet(s, start, n);
    parsed.push(o);
    proof {
        assert(s@.take(n as int) =~= s@);
        done = done.push(s@.subrange(start as int, n as int));
    }
    assert(split_dots(s@) == done);
    if parsed.len() != 4 {
        return None;
    }
    match (parsed[0], parsed[1], parsed[2], parsed[3]) {
        (Some(a), Some(b), Some(c), Some(d)) => Some(Ipv4(a, b, c, d)),
        _ => None,
    }
}

} // verus!
