//! What the well-formed addresses are, told the other way round: texts that
//! are built as an address is written are well formed.

use crate::ip_handler::{
    first_gap, gap_at, is_digit, is_group, is_hex_digit, is_ipv4, is_octet, split, valid_ip,
};
use vstd::prelude::*;

verus! {

/// `s` holds no `sep`.
pub open spec fn free_of(s: Seq<char>, sep: char) -> bool {
    forall|i: int| 0 <= i < s.len() ==> #[trigger] s[i] != sep
}

/// A text without `sep` is one part.
pub proof fn lemma_split_one(part: Seq<char>, sep: char)
    requires
        free_of(part, sep),
    ensures
        split(part, sep) == seq![part],
    decreases part.len(),
{
    if part.len() > 0 {
        let head = part.drop_last();
        assert forall|i: int| 0 <= i < head.len() implies #[trigger] head[i] != sep by {
            assert(head[i] == part[i]);
        }
        lemma_split_one(head, sep);
        assert(part.last() == part[part.len() - 1]);
        assert(head.push(part.last()) =~= part);
        assert(split(part, sep) =~= seq![part]);
    } else {
        assert(part =~= Seq::<char>::empty());
    }
}

/// A `sep` and a text without `sep` behind it add one part.
pub proof fn lemma_split_more(s: Seq<char>, sep: char, part: Seq<char>)
    requires
        free_of(part, sep),
    ensures
        split(s + seq![sep] + part, sep) == split(s, sep).push(part),
    decreases part.len(),
{
    let whole = s + seq![sep] + part;
    if part.len() == 0 {
        assert(whole.drop_last() =~= s);
        assert(whole.last() == sep);
        assert(part =~= Seq::<char>::empty());
    } else {
        let head = part.drop_last();
        assert forall|i: int| 0 <= i < head.len() implies #[trigger] head[i] != sep by {
            assert(head[i] == part[i]);
        }
        lemma_split_more(s, sep, head);
        assert(whole.drop_last() =~= s + seq![sep] + head);
        assert(whole.last() == part[part.len() - 1]);
        assert(head.push(part.last()) =~= part);
        assert(split(whole, sep) =~= split(s, sep).push(part));
    }
}

/// An octet holds no `.`.
pub proof fn lemma_octet_is_dotless(octet: Seq<char>)
    requires
        is_octet(octet),
    ensures
        free_of(octet, '.'),
{
    assert forall|i: int| 0 <= i < octet.len() implies #[trigger] octet[i] != '.' by {
        assert(is_digit(octet[i]));
    }
}

/// Four octets with a `.` between them are a well-formed address.
pub proof fn lemma_four_octets_are_valid(
    a: Seq<char>,
    b: Seq<char>,
    c: Seq<char>,
    d: Seq<char>,
)
    requires
        is_octet(a),
        is_octet(b),
        is_octet(c),
        is_octet(d),
    ensures
        valid_ip(a + seq!['.'] + b + seq!['.'] + c + seq!['.'] + d),
{
    lemma_octet_is_dotless(a);
    lemma_octet_is_dotless(b);
    lemma_octet_is_dotless(c);
    lemma_octet_is_dotless(d);
    lemma_split_one(a, '.');
    lemma_split_more(a, '.', b);
    lemma_split_more(a + seq!['.'] + b, '.', c);
    lemma_split_more(a + seq!['.'] + b + seq!['.'] + c, '.', d);
    let parts = split(a + seq!['.'] + b + seq!['.'] + c + seq!['.'] + d, '.');
    assert(parts =~= seq![a, b, c, d]);
}

/// The parts one after the other, with `sep` between them.
pub open spec fn joined(parts: Seq<Seq<char>>, sep: char) -> Seq<char>
    decreases parts.len(),
{
    if parts.len() == 0 {
        Seq::<char>::empty()
    } else if parts.len() == 1 {
        parts[0]
    } else {
        joined(parts.drop_last(), sep) + seq![sep] + parts.last()
    }
}

/// Parts without `sep` that were joined with `sep` are the parts of what
/// they were joined to.
pub proof fn lemma_split_joined(parts: Seq<Seq<char>>, sep: char)
    requires
        parts.len() >= 1,
        forall|i: int| 0 <= i < parts.len() ==> free_of(#[trigger] parts[i], sep),
    ensures
        split(joined(parts, sep), sep) == parts,
    decreases parts.len(),
{
    if parts.len() == 1 {
        lemma_split_one(parts[0], sep);
        assert(seq![parts[0]] =~= parts);
    } else {
        let head = parts.drop_last();
        assert forall|i: int| 0 <= i < head.len() implies free_of(#[trigger] head[i], sep) by {
            assert(head[i] == parts[i]);
        }
        lemma_split_joined(head, sep);
        assert(parts.last() == parts[parts.len() - 1]);
        lemma_split_more(joined(head, sep), sep, parts.last());
        assert(head.push(parts.last()) =~= parts);
    }
}

/// Parts that are not empty and hold no `:` end, when joined with `:`, with
/// another character than `:`, and hold no `::`.
pub proof fn lemma_joined_has_no_gap(parts: Seq<Seq<char>>)
    requires
        parts.len() >= 1,
        forall|i: int|
            0 <= i < parts.len() ==> (#[trigger] parts[i]).len() >= 1 && free_of(parts[i], ':'),
    ensures
        joined(parts, ':').len() >= 1,
        joined(parts, ':').last() != ':',
        forall|p: int| !gap_at(joined(parts, ':'), p),
    decreases parts.len(),
{
    let whole = joined(parts, ':');
    let last = parts[parts.len() - 1];
    assert(last.len() >= 1 && free_of(last, ':'));
    if parts.len() == 1 {
        assert(whole.last() == last[last.len() - 1]);
        assert forall|p: int| !gap_at(whole, p) by {
            if 0 <= p && p + 1 < whole.len() {
                assert(whole[p] == last[p]);
            }
        }
    } else {
        let head = parts.drop_last();
        assert forall|i: int| 0 <= i < head.len() implies (#[trigger] head[i]).len() >= 1
            && free_of(head[i], ':') by {
            assert(head[i] == parts[i]);
        }
        lemma_joined_has_no_gap(head);
        let front = joined(head, ':');
        assert(whole == front + seq![':'] + last);
        assert(whole.last() == last[last.len() - 1]);
        assert forall|p: int| !gap_at(whole, p) by {
            if 0 <= p && p + 1 < whole.len() {
                if p + 1 < front.len() {
                    assert(whole[p] == front[p]);
                    assert(whole[p + 1] == front[p + 1]);
                    assert(!gap_at(front, p));
                } else if p + 1 == front.len() {
                    assert(whole[p] == front[front.len() - 1]);
                } else if p == front.len() {
                    assert(whole[p + 1] == last[0]);
                } else {
                    assert(whole[p] == last[p - front.len() - 1]);
                }
            }
        }
    }
}

/// `first_gap` is `-1` where `s` holds no `::`, else the position of the
/// first one.
pub proof fn lemma_first_gap(s: Seq<char>)
    ensures
        -1 <= first_gap(s),
        first_gap(s) >= 0 ==> gap_at(s, first_gap(s)),
        forall|p: int| gap_at(s, p) ==> 0 <= first_gap(s) <= p,
    decreases s.len(),
{
    if s.len() >= 2 {
        let head = s.drop_last();
        lemma_first_gap(head);
        let before = first_gap(head);
        if before >= 0 {
            assert(s[before] == head[before]);
            assert(s[before + 1] == head[before + 1]);
        }
        assert forall|p: int| gap_at(s, p) implies 0 <= first_gap(s) <= p by {
            if p + 1 < head.len() {
                assert(head[p] == s[p]);
                assert(head[p + 1] == s[p + 1]);
                assert(gap_at(head, p));
            }
        }
    }
}

/// A group holds no `:` and is not empty.
pub proof fn lemma_group_is_colonless(group: Seq<char>)
    requires
        is_group(group),
    ensures
        group.len() >= 1,
        free_of(group, ':'),
{
    assert forall|i: int| 0 <= i < group.len() implies #[trigger] group[i] != ':' by {
        assert(is_hex_digit(group[i]));
    }
}

/// Eight groups with a `:` between them are a well-formed address.
pub proof fn lemma_eight_groups_are_valid(groups: Seq<Seq<char>>)
    requires
        groups.len() == 8,
        forall|i: int| 0 <= i < 8 ==> is_group(#[trigger] groups[i]),
    ensures
        valid_ip(joined(groups, ':')),
{
    assert forall|i: int| 0 <= i < groups.len() implies (#[trigger] groups[i]).len() >= 1
        && free_of(groups[i], ':') by {
        lemma_group_is_colonless(groups[i]);
    }
    lemma_split_joined(groups, ':');
    lemma_joined_has_no_gap(groups);
    lemma_first_gap(joined(groups, ':'));
}

/// Groups in front of a `::` and groups behind it, seven at most together,
/// are a well-formed address; and there may be none in front, or none
/// behind.
pub proof fn lemma_shortened_groups_are_valid(front: Seq<Seq<char>>, back: Seq<Seq<char>>)
    requires
        front.len() + back.len() <= 7,
        forall|i: int| 0 <= i < front.len() ==> is_group(#[trigger] front[i]),
        forall|i: int| 0 <= i < back.len() ==> is_group(#[trigger] back[i]),
    ensures
        valid_ip(joined(front, ':') + seq![':', ':'] + joined(back, ':')),
{
    let head = joined(front, ':');
    let tail = joined(back, ':');
    let whole = head + seq![':', ':'] + tail;
    let gap = head.len() as int;
    assert forall|i: int| 0 <= i < front.len() implies (#[trigger] front[i]).len() >= 1
        && free_of(front[i], ':') by {
        lemma_group_is_colonless(front[i]);
    }
    assert forall|i: int| 0 <= i < back.len() implies (#[trigger] back[i]).len() >= 1 && free_of(
        back[i],
        ':',
    ) by {
        lemma_group_is_colonless(back[i]);
    }
    if front.len() >= 1 {
        lemma_split_joined(front, ':');
        lemma_joined_has_no_gap(front);
    }
    if back.len() >= 1 {
        lemma_split_joined(back, ':');
        lemma_joined_has_no_gap(back);
    }
    lemma_first_gap(whole);
    assert(gap_at(whole, gap));
    assert forall|p: int| 0 <= p < gap implies !gap_at(whole, p) by {
        if p + 1 < gap {
            assert(whole[p] == head[p]);
            assert(whole[p + 1] == head[p + 1]);
            assert(!gap_at(head, p));
        } else {
            assert(whole[p] == head[head.len() - 1]);
        }
    }
    assert(first_gap(whole) == gap);
    assert(whole.subrange(0, gap) =~= head);
    assert(whole.subrange(gap + 2, whole.len() as int) =~= tail);
}

/// A character that none of the parts of `s` holds, and that is not the one
/// that parts them, is not in `s`.
pub proof fn lemma_split_keeps_out(s: Seq<char>, sep: char, c: char)
    requires
        c != sep,
        forall|i: int| 0 <= i < split(s, sep).len() ==> free_of(#[trigger] split(s, sep)[i], c),
    ensures
        free_of(s, c),
        split(s, sep).len() >= 1,
    decreases s.len(),
{
    if s.len() > 0 {
        let head = s.drop_last();
        let parts = split(head, sep);
        let all = split(s, sep);
        if s.last() != sep {
            lemma_split_len(head, sep);
            assert forall|i: int| 0 <= i < parts.len() implies free_of(#[trigger] parts[i], c) by {
                assert(free_of(all[i], c));
                if i == parts.len() - 1 {
                    assert forall|k: int| 0 <= k < parts[i].len() implies #[trigger] parts[i][k]
                        != c by {
                        assert(all[i][k] == parts[i][k]);
                    }
                }
            }
            lemma_split_keeps_out(head, sep, c);
            let grown = all[parts.len() - 1];
            assert(free_of(grown, c));
            assert(grown[grown.len() - 1] == s.last());
        } else {
            assert forall|i: int| 0 <= i < parts.len() implies free_of(#[trigger] parts[i], c) by {
                assert(all[i] == parts[i]);
            }
            lemma_split_keeps_out(head, sep, c);
        }
        assert forall|i: int| 0 <= i < s.len() implies #[trigger] s[i] != c by {
            if i < head.len() {
                assert(head[i] == s[i]);
            }
        }
    }
}

/// Every text has at least one part.
pub proof fn lemma_split_len(s: Seq<char>, sep: char)
    ensures
        split(s, sep).len() >= 1,
    decreases s.len(),
{
    if s.len() > 0 {
        lemma_split_len(s.drop_last(), sep);
    }
}

/// An IPv4 address holds a `.` and no `:`, and so is no group.
pub proof fn lemma_ipv4_is_no_group(s: Seq<char>)
    requires
        is_ipv4(s),
    ensures
        s.len() >= 1,
        free_of(s, ':'),
        !is_group(s),
{
    let parts = split(s, '.');
    assert forall|i: int| 0 <= i < parts.len() implies free_of(#[trigger] parts[i], ':') by {
        assert(is_octet(parts[i]));
        assert forall|k: int| 0 <= k < parts[i].len() implies #[trigger] parts[i][k] != ':' by {
            assert(is_digit(parts[i][k]));
        }
    }
    lemma_split_keeps_out(s, '.', ':');
    if free_of(s, '.') {
        lemma_split_one(s, '.');
    }
    if is_group(s) {
        assert forall|i: int| 0 <= i < s.len() implies #[trigger] s[i] != '.' by {
            assert(is_hex_digit(s[i]));
        }
    }
}

/// Six groups and an IPv4 address behind them, with a `:` between them, are
/// a well-formed address.
pub proof fn lemma_groups_and_ipv4_are_valid(groups: Seq<Seq<char>>, ipv4: Seq<char>)
    requires
        groups.len() == 6,
        forall|i: int| 0 <= i < 6 ==> is_group(#[trigger] groups[i]),
        is_ipv4(ipv4),
    ensures
        valid_ip(joined(groups.push(ipv4), ':')),
{
    let parts = groups.push(ipv4);
    lemma_ipv4_is_no_group(ipv4);
    assert forall|i: int| 0 <= i < parts.len() implies (#[trigger] parts[i]).len() >= 1
        && free_of(parts[i], ':') by {
        if i < 6 {
            assert(parts[i] == groups[i]);
            lemma_group_is_colonless(groups[i]);
        }
    }
    lemma_split_joined(parts, ':');
    lemma_joined_has_no_gap(parts);
    lemma_first_gap(joined(parts, ':'));
    assert forall|i: int| 0 <= i < 6 implies is_group(#[trigger] parts[i]) by {
        assert(parts[i] == groups[i]);
    }
    assert(parts.last() == ipv4);
}

/// Groups in front of a `::`, and groups and an IPv4 address behind it,
/// where the groups are five at most together, are a well-formed address.
pub proof fn lemma_shortened_groups_and_ipv4_are_valid(
    front: Seq<Seq<char>>,
    back: Seq<Seq<char>>,
    ipv4: Seq<char>,
)
    requires
        front.len() + back.len() <= 5,
        forall|i: int| 0 <= i < front.len() ==> is_group(#[trigger] front[i]),
        forall|i: int| 0 <= i < back.len() ==> is_group(#[trigger] back[i]),
        is_ipv4(ipv4),
    ensures
        valid_ip(joined(front, ':') + seq![':', ':'] + joined(back.push(ipv4), ':')),
{
    let behind = back.push(ipv4);
    let head = joined(front, ':');
    let tail = joined(behind, ':');
    let whole = head + seq![':', ':'] + tail;
    let gap = head.len() as int;
    lemma_ipv4_is_no_group(ipv4);
    assert forall|i: int| 0 <= i < front.len() implies (#[trigger] front[i]).len() >= 1
        && free_of(front[i], ':') by {
        lemma_group_is_colonless(front[i]);
    }
    assert forall|i: int| 0 <= i < behind.len() implies (#[trigger] behind[i]).len() >= 1
        && free_of(behind[i], ':') by {
        if i < back.len() {
            assert(behind[i] == back[i]);
            lemma_group_is_colonless(back[i]);
        }
    }
    if front.len() >= 1 {
        lemma_split_joined(front, ':');
        lemma_joined_has_no_gap(front);
    }
    lemma_split_joined(behind, ':');
    lemma_joined_has_no_gap(behind);
    lemma_first_gap(whole);
    assert(gap_at(whole, gap));
    assert forall|p: int| 0 <= p < gap implies !gap_at(whole, p) by {
        if p + 1 < gap {
            assert(whole[p] == head[p]);
            assert(whole[p + 1] == head[p + 1]);
            assert(!gap_at(head, p));
        } else {
            assert(whole[p] == head[head.len() - 1]);
        }
    }
    assert(first_gap(whole) == gap);
    assert(whole.subrange(0, gap) =~= head);
    assert(whole.subrange(gap + 2, whole.len() as int) =~= tail);
    assert forall|i: int| 0 <= i < behind.len() - 1 implies is_group(#[trigger] behind[i]) by {
        assert(behind[i] == back[i]);
    }
    assert(behind.last() == ipv4);
}

} // verus!
