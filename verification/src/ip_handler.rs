//! The public address of the host: what counts as a well-formed address, and
//! where the address that was last acted upon is kept.

use crate::error::{DnsError, DnsErrorView};
use crate::paths::{in_home, LAST_IP_FILE};
use crate::text::chars_of;
use std::path::PathBuf;
use vstd::prelude::*;

verus! {

/// The parts of `s` between the occurrences of `sep`. A text without `sep`
/// is one part; two occurrences next to each other hold an empty part.
pub open spec fn split(s: Seq<char>, sep: char) -> Seq<Seq<char>>
    decreases s.len(),
{
    if s.len() == 0 {
        seq![Seq::<char>::empty()]
    } else {
        let parts = split(s.drop_last(), sep);
        if s.last() == sep {
            parts.push(Seq::<char>::empty())
        } else {
            parts.update(parts.len() - 1, parts.last().push(s.last()))
        }
    }
}

/// `c` is a decimal digit.
pub open spec fn is_digit(c: char) -> bool {
    '0' <= c <= '9'
}

/// `c` is a hexadecimal digit, in either case.
pub open spec fn is_hex_digit(c: char) -> bool {
    is_digit(c) || 'a' <= c <= 'f' || 'A' <= c <= 'F'
}

/// The number that the decimal digits of `s` write.
pub open spec fn decimal(s: Seq<char>) -> int
    decreases s.len(),
{
    if s.len() == 0 {
        0
    } else {
        decimal(s.drop_last()) * 10 + (s.last() as int - '0' as int)
    }
}

/// `s` writes one octet of an IPv4 address: one to three decimal digits, no
/// `0` in front of another digit, and at most 255.
pub open spec fn is_octet(s: Seq<char>) -> bool {
    &&& 1 <= s.len() <= 3
    &&& forall|i: int| 0 <= i < s.len() ==> is_digit(#[trigger] s[i])
    &&& s.len() > 1 ==> s[0] != '0'
    &&& decimal(s) <= 255
}

/// `s` writes one group of an IPv6 address: one to four hexadecimal digits.
pub open spec fn is_group(s: Seq<char>) -> bool {
    &&& 1 <= s.len() <= 4
    &&& forall|i: int| 0 <= i < s.len() ==> is_hex_digit(#[trigger] s[i])
}

/// `s` is an IPv4 address: four octets with a `.` between them.
pub open spec fn is_ipv4(s: Seq<char>) -> bool {
    let parts = split(s, '.');
    &&& parts.len() == 4
    &&& forall|i: int| 0 <= i < 4 ==> is_octet(#[trigger] parts[i])
}

/// Each of the first `n` of `parts` is a group.
pub open spec fn all_groups(parts: Seq<Seq<char>>, n: int) -> bool {
    forall|i: int| 0 <= i < n ==> is_group(#[trigger] parts[i])
}

/// The number of groups that `s` writes with a `:` between them, if that is
/// what it is.
pub open spec fn groups(s: Seq<char>) -> Option<int> {
    let parts = split(s, ':');
    if all_groups(parts, parts.len() as int) {
        Some(parts.len() as int)
    } else {
        None
    }
}

/// The number of 16-bit pieces that `s` writes, if it is made of groups with
/// a `:` between them, the last of which may be an IPv4 address and then
/// counts for two.
pub open spec fn pieces(s: Seq<char>) -> Option<int> {
    let parts = split(s, ':');
    if !all_groups(parts, parts.len() - 1) {
        None
    } else if is_group(parts.last()) {
        Some(parts.len() as int)
    } else if is_ipv4(parts.last()) {
        Some(parts.len() as int + 1)
    } else {
        None
    }
}

/// `::` stands at position `p` of `s`.
pub open spec fn gap_at(s: Seq<char>, p: int) -> bool {
    0 <= p && p + 1 < s.len() && s[p] == ':' && s[p + 1] == ':'
}

/// Position of the first `::` in `s`, or `-1`.
pub open spec fn first_gap(s: Seq<char>) -> int
    decreases s.len(),
{
    if s.len() < 2 {
        -1
    } else {
        let before = first_gap(s.drop_last());
        if before >= 0 {
            before
        } else if gap_at(s, s.len() - 2) {
            s.len() - 2
        } else {
            -1
        }
    }
}

/// `s` is an IPv6 address: eight 16-bit pieces, or fewer with one `::` that
/// stands for the pieces left out, of which there is at least one. In front
/// of the `::` stand groups only.
pub open spec fn is_ipv6(s: Seq<char>) -> bool {
    let gap = first_gap(s);
    if gap < 0 {
        pieces(s) == Some(8int)
    } else {
        let head = s.subrange(0, gap);
        let tail = s.subrange(gap + 2, s.len() as int);
        let front = if head.len() == 0 {
            Some(0int)
        } else {
            groups(head)
        };
        let back = if tail.len() == 0 {
            Some(0int)
        } else {
            pieces(tail)
        };
        front is Some && back is Some && front->0 + back->0 <= 7
    }
}

/// `s` is a well-formed IPv4 or IPv6 address.
pub open spec fn valid_ip(s: Seq<char>) -> bool {
    is_ipv4(s) || is_ipv6(s)
}

/// The parts of a list, each as the sequence of its characters.
pub open spec fn parts_view(parts: Seq<Vec<char>>) -> Seq<Seq<char>> {
    parts.map_values(|p: Vec<char>| p@)
}

/// The parts of `s[from..to]` between the occurrences of `sep`.
fn split_chars(s: &Vec<char>, from: usize, to: usize, sep: char) -> (parts: Vec<Vec<char>>)
    requires
        from <= to <= s@.len(),
    ensures
        parts_view(parts@) == split(s@.subrange(from as int, to as int), sep),
        parts@.len() >= 1,
{
    let mut parts: Vec<Vec<char>> = Vec::new();
    parts.push(Vec::new());
    let mut k: usize = from;
    assert(s@.subrange(from as int, from as int) =~= Seq::<char>::empty());
    assert(parts_view(parts@) =~= seq![Seq::<char>::empty()]);
    while k < to
        invariant
            from <= k <= to <= s@.len(),
            parts@.len() >= 1,
            parts_view(parts@) == split(s@.subrange(from as int, k as int), sep),
        decreases to - k,
    {
        let c = s[k];
        let ghost before = parts_view(parts@);
        proof {
            let upto = s@.subrange(from as int, k + 1);
            assert(upto.drop_last() =~= s@.subrange(from as int, k as int));
            assert(upto.last() == c);
        }
        if c == sep {
            parts.push(Vec::new());
            assert(parts_view(parts@) =~= before.push(Seq::<char>::empty()));
        } else {
            let last = parts.len() - 1;
            parts[last].push(c);
            assert(parts_view(parts@) =~= before.update(last as int, before[last as int].push(c)));
        }
        k = k + 1;
    }
    parts
}

fn digit(c: char) -> (yes: bool)
    ensures
        yes == is_digit(c),
{
    '0' <= c && c <= '9'
}

fn hex_digit(c: char) -> (yes: bool)
    ensures
        yes == is_hex_digit(c),
{
    digit(c) || ('a' <= c && c <= 'f') || ('A' <= c && c <= 'F')
}

fn octet(part: &Vec<char>) -> (yes: bool)
    ensures
        yes == is_octet(part@),
{
    let n = part.len();
    if n < 1 || n > 3 {
        return false;
    }
    let mut value: u32 = 0;
    let mut k: usize = 0;
    while k < n
        invariant
            k <= n <= 3,
            n == part@.len(),
            forall|i: int| 0 <= i < k ==> is_digit(#[trigger] part@[i]),
            value == decimal(part@.subrange(0, k as int)),
            value < 1000,
        decreases n - k,
    {
        let c = part[k];
        if !digit(c) {
            return false;
        }
        proof {
            let upto = part@.subrange(0, k + 1);
            assert(upto.drop_last() =~= part@.subrange(0, k as int));
            assert(upto.last() == c);
            lemma_decimal_bound(part@.subrange(0, k as int));
        }
        value = value * 10 + (c as u32 - '0' as u32);
        proof {
            lemma_decimal_bound(part@.subrange(0, k + 1));
        }
        k = k + 1;
    }
    assert(part@.subrange(0, n as int) =~= part@);
    if n > 1 && part[0] == '0' {
        return false;
    }
    value <= 255
}

/// A number of `n` decimal digits is below the `n`-th power of ten, as far as
/// three digits go.
proof fn lemma_decimal_bound(s: Seq<char>)
    requires
        s.len() <= 3,
        forall|i: int| 0 <= i < s.len() ==> is_digit(#[trigger] s[i]),
    ensures
        0 <= decimal(s),
        s.len() == 0 ==> decimal(s) == 0,
        s.len() == 1 ==> decimal(s) < 10,
        s.len() == 2 ==> decimal(s) < 100,
        s.len() == 3 ==> decimal(s) < 1000,
    decreases s.len(),
{
    if s.len() > 0 {
        assert(is_digit(s[s.len() - 1]));
        assert forall|i: int| 0 <= i < s.drop_last().len() implies is_digit(
            #[trigger] s.drop_last()[i],
        ) by {
            assert(s.drop_last()[i] == s[i]);
        }
        lemma_decimal_bound(s.drop_last());
    }
}

fn group(part: &Vec<char>) -> (yes: bool)
    ensures
        yes == is_group(part@),
{
    let n = part.len();
    if n < 1 || n > 4 {
        return false;
    }
    let mut k: usize = 0;
    while k < n
        invariant
            k <= n,
            n == part@.len(),
            forall|i: int| 0 <= i < k ==> is_hex_digit(#[trigger] part@[i]),
        decreases n - k,
    {
        if !hex_digit(part[k]) {
            return false;
        }
        k = k + 1;
    }
    true
}

fn ipv4(s: &Vec<char>) -> (yes: bool)
    ensures
        yes == is_ipv4(s@),
{
    assert(s@.subrange(0, s@.len() as int) =~= s@);
    let parts = split_chars(s, 0, s.len(), '.');
    if parts.len() != 4 {
        return false;
    }
    let mut k: usize = 0;
    while k < 4
        invariant
            k <= 4,
            parts@.len() == 4,
            parts_view(parts@) == split(s@, '.'),
            forall|i: int| 0 <= i < k ==> is_octet(#[trigger] parts_view(parts@)[i]),
        decreases 4 - k,
    {
        if !octet(&parts[k]) {
            assert(!is_octet(parts_view(parts@)[k as int]));
            return false;
        }
        k = k + 1;
    }
    true
}

/// Whether each of the first `n` parts is a group.
fn leading_groups(parts: &Vec<Vec<char>>, n: usize) -> (yes: bool)
    requires
        n <= parts@.len(),
    ensures
        yes == all_groups(parts_view(parts@), n as int),
{
    let mut k: usize = 0;
    while k < n
        invariant
            k <= n <= parts@.len(),
            forall|i: int| 0 <= i < k ==> is_group(#[trigger] parts_view(parts@)[i]),
        decreases n - k,
    {
        if !group(&parts[k]) {
            assert(!is_group(parts_view(parts@)[k as int]));
            return false;
        }
        k = k + 1;
    }
    true
}

/// The number of groups that `s[from..to]` writes, at most 9 of them.
fn count_groups(s: &Vec<char>, from: usize, to: usize) -> (count: Option<usize>)
    requires
        from <= to <= s@.len(),
    ensures
        match count {
            Some(n) => groups(s@.subrange(from as int, to as int)) == Some(n as int) && n <= 9,
            None => groups(s@.subrange(from as int, to as int)) is None || groups(
                s@.subrange(from as int, to as int),
            )->0 > 8,
        },
{
    let parts = split_chars(s, from, to, ':');
    if parts.len() > 8 {
        return None;
    }
    if leading_groups(&parts, parts.len()) {
        Some(parts.len())
    } else {
        None
    }
}

/// The number of 16-bit pieces that `s[from..to]` writes, at most 9 of them.
fn count_pieces(s: &Vec<char>, from: usize, to: usize) -> (count: Option<usize>)
    requires
        from <= to <= s@.len(),
    ensures
        match count {
            Some(n) => pieces(s@.subrange(from as int, to as int)) == Some(n as int) && n <= 9,
            None => pieces(s@.subrange(from as int, to as int)) is None || pieces(
                s@.subrange(from as int, to as int),
            )->0 > 8,
        },
{
    let parts = split_chars(s, from, to, ':');
    let n = parts.len();
    if n > 8 {
        return None;
    }
    if !leading_groups(&parts, n - 1) {
        return None;
    }
    assert(parts_view(parts@).last() == parts@[n - 1]@);
    if group(&parts[n - 1]) {
        Some(n)
    } else if ipv4(&parts[n - 1]) {
        Some(n + 1)
    } else {
        None
    }
}

/// Position of the first `::` in `s`.
fn find_gap(s: &Vec<char>) -> (gap: Option<usize>)
    ensures
        match gap {
            Some(p) => p == first_gap(s@) && p + 2 <= s@.len(),
            None => first_gap(s@) == -1,
        },
{
    let n = s.len();
    if n < 2 {
        return None;
    }
    let mut k: usize = 0;
    assert(s@.subrange(0, 1).len() < 2);
    while k + 1 < n
        invariant
            k + 1 <= n,
            n == s@.len(),
            n >= 2,
            first_gap(s@.subrange(0, k + 1)) == -1,
        decreases n - k,
    {
        proof {
            let upto = s@.subrange(0, k + 2);
            assert(upto.drop_last() =~= s@.subrange(0, k + 1));
            assert(upto[k as int] == s@[k as int]);
            assert(upto[k + 1] == s@[k + 1]);
        }
        if s[k] == ':' && s[k + 1] == ':' {
            proof {
                lemma_first_gap_stays(s@, k + 2);
            }
            return Some(k);
        }
        k = k + 1;
    }
    assert(s@.subrange(0, n as int) =~= s@);
    None
}

/// A `::` that is the first among the first `n` characters is the first of
/// all.
proof fn lemma_first_gap_stays(s: Seq<char>, n: int)
    requires
        0 <= n <= s.len(),
        first_gap(s.subrange(0, n)) >= 0,
    ensures
        first_gap(s) == first_gap(s.subrange(0, n)),
    decreases s.len() - n,
{
    if n < s.len() {
        let upto = s.subrange(0, n + 1);
        assert(upto.drop_last() =~= s.subrange(0, n));
        lemma_first_gap_stays(s, n + 1);
    } else {
        assert(s.subrange(0, n) =~= s);
    }
}

fn ipv6(s: &Vec<char>) -> (yes: bool)
    ensures
        yes == is_ipv6(s@),
{
    let n = s.len();
    match find_gap(s) {
        None => {
            assert(s@.subrange(0, n as int) =~= s@);
            match count_pieces(s, 0, n) {
                Some(count) => count == 8,
                None => false,
            }
        },
        Some(gap) => {
            let front: Option<usize> = if gap == 0 {
                Some(0)
            } else {
                count_groups(s, 0, gap)
            };
            let back: Option<usize> = if gap + 2 == n {
                Some(0)
            } else {
                count_pieces(s, gap + 2, n)
            };
            match (front, back) {
                (Some(f), Some(b)) => f + b <= 7,
                _ => false,
            }
        },
    }
}

/// Whether `ip` is a well-formed IPv4 or IPv6 address.
pub fn is_valid_ip(ip: &str) -> (valid: bool)
    ensures
        valid == valid_ip(ip@),
{
    let chars = chars_of(ip);
    ipv4(&chars) || ipv6(&chars)
}

/// `answer` holds a well-formed address.
pub open spec fn well_formed_answer(answer: Option<Seq<char>>) -> bool {
    answer matches Some(ip) && valid_ip(ip)
}

/// What the lookup service answered, as the sequence of its characters.
pub open spec fn answer_view(answer: Option<String>) -> Option<Seq<char>> {
    match answer {
        Some(text) => Some(text@),
        None => None,
    }
}

/// Takes what the lookup service answered for the current address, if it
/// answered at all: the answer itself where it is a well-formed address,
/// else a failure.
pub fn get_current_ip(answer: Option<String>) -> (ip: Result<String, DnsError>)
    ensures
        match ip {
            Ok(text) => well_formed_answer(answer_view(answer)) && Some(text@) == answer_view(
                answer,
            ),
            Err(e) => !well_formed_answer(answer_view(answer)) && e@ == DnsErrorView::Lookup,
        },
{
    match answer {
        Some(text) => {
            if is_valid_ip(text.as_str()) {
                Ok(text)
            } else {
                Err(DnsError::Lookup)
            }
        },
        None => Err(DnsError::Lookup),
    }
}

/// Where the last known address is kept: in the home directory of the user,
/// where one is known.
pub fn last_ip_path() -> (path: Option<PathBuf>) {
    in_home(LAST_IP_FILE)
}

} // verus!
