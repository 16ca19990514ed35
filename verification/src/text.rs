//! Text of names and requests: dotted names, prefixes and concatenation, over
//! the characters of a string.

use vstd::prelude::*;
use vstd::string::*;

verus! {

/// Position of the last `.` in `s`, or `-1` where it holds none.
pub open spec fn last_dot(s: Seq<char>) -> int
    decreases s.len(),
{
    if s.len() == 0 {
        -1
    } else if s.last() == '.' {
        s.len() - 1
    } else {
        last_dot(s.drop_last())
    }
}

/// The zone that a fully qualified name is taken to lie in: its two trailing
/// labels. A name of fewer than three labels lies in no zone.
pub open spec fn parent_zone(name: Seq<char>) -> Option<Seq<char>> {
    let tld = last_dot(name);
    if tld < 0 {
        None
    } else {
        let cut = last_dot(name.subrange(0, tld));
        if cut < 0 {
            None
        } else {
            Some(name.subrange(cut + 1, name.len() as int))
        }
    }
}

/// `name` is `prefix` itself, or begins with `prefix` followed by a `.`.
pub open spec fn names_prefix(name: Seq<char>, prefix: Seq<char>) -> bool {
    name == prefix || (prefix + seq!['.']).is_prefix_of(name)
}

/// The last `.` of `s` lies where `last_dot` says, and nowhere behind it.
pub proof fn lemma_last_dot(s: Seq<char>)
    ensures
        -1 <= last_dot(s) < s.len(),
        last_dot(s) >= 0 ==> s[last_dot(s)] == '.',
        forall|k: int| last_dot(s) < k < s.len() ==> s[k] != '.',
    decreases s.len(),
{
    if s.len() > 0 && s.last() != '.' {
        let head = s.drop_last();
        lemma_last_dot(head);
        assert forall|k: int| last_dot(s) < k < s.len() implies s[k] != '.' by {
            if k < head.len() {
                assert(head[k] == s[k]);
            }
        }
    }
}

/// `s` holds no `.`.
pub open spec fn dotless(s: Seq<char>) -> bool {
    forall|i: int| 0 <= i < s.len() ==> #[trigger] s[i] != '.'
}

/// A `.` with no `.` behind it is the last one.
pub proof fn lemma_last_dot_at(s: Seq<char>, i: int)
    requires
        0 <= i < s.len(),
        s[i] == '.',
        forall|k: int| i < k < s.len() ==> #[trigger] s[k] != '.',
    ensures
        last_dot(s) == i,
{
    lemma_last_dot(s);
}

/// A text without a `.` has no last one.
pub proof fn lemma_last_dot_of_dotless(s: Seq<char>)
    requires
        dotless(s),
    ensures
        last_dot(s) == -1,
{
    lemma_last_dot(s);
}

/// The zone of a name is made of its two trailing labels: whatever stands in
/// front of them, a name that ends with a `.`, a label, a `.` and a last
/// label lies in the zone of these two labels.
pub proof fn lemma_parent_zone(front: Seq<char>, label: Seq<char>, last: Seq<char>)
    requires
        dotless(label),
        dotless(last),
    ensures
        parent_zone(front + seq!['.'] + label + seq!['.'] + last) == Some(
            label + seq!['.'] + last,
        ),
{
    let name = front + seq!['.'] + label + seq!['.'] + last;
    let cut = front.len() as int;
    let tld = cut + 1 + label.len();
    assert(name[tld] == '.');
    assert forall|k: int| tld < k < name.len() implies #[trigger] name[k] != '.' by {
        assert(name[k] == last[k - tld - 1]);
    }
    lemma_last_dot_at(name, tld);
    let head = name.subrange(0, tld);
    assert(head[cut] == '.');
    assert forall|k: int| cut < k < head.len() implies #[trigger] head[k] != '.' by {
        assert(head[k] == label[k - cut - 1]);
    }
    lemma_last_dot_at(head, cut);
    assert(name.subrange(cut + 1, name.len() as int) =~= label + seq!['.'] + last);
}

/// A name of fewer than three labels lies in no zone.
pub proof fn lemma_parent_zone_of_short(label: Seq<char>, last: Seq<char>)
    requires
        dotless(label),
        dotless(last),
    ensures
        parent_zone(last) is None,
        parent_zone(label + seq!['.'] + last) is None,
{
    lemma_last_dot_of_dotless(last);
    let name = label + seq!['.'] + last;
    let tld = label.len() as int;
    assert(name[tld] == '.');
    assert forall|k: int| tld < k < name.len() implies #[trigger] name[k] != '.' by {
        assert(name[k] == last[k - tld - 1]);
    }
    lemma_last_dot_at(name, tld);
    assert(name.subrange(0, tld) =~= label);
    lemma_last_dot_of_dotless(label);
}

/// The characters of `s`, one by one.
pub fn chars_of(s: &str) -> (chars: Vec<char>)
    ensures
        chars@ == s@,
{
    let mut chars: Vec<char> = Vec::new();
    for c in it: s.chars()
        invariant
            chars@ == it.seq().subrange(0, it.index() as int),
            it.seq() == s@,
    {
        chars.push(c);
    }
    chars
}

/// The position of the last `.` among the first `end` characters of `s`.
fn find_last_dot(s: &Vec<char>, end: usize) -> (found: Option<usize>)
    requires
        end <= s@.len(),
    ensures
        match found {
            Some(i) => i == last_dot(s@.subrange(0, end as int)),
            None => last_dot(s@.subrange(0, end as int)) == -1,
        },
{
    let mut k: usize = end;
    while k > 0
        invariant
            k <= end <= s@.len(),
            last_dot(s@.subrange(0, end as int)) == last_dot(s@.subrange(0, k as int)),
        decreases k,
    {
        let c = s[k - 1];
        proof {
            let head = s@.subrange(0, k as int);
            assert(head.last() == c);
            assert(head.drop_last() =~= s@.subrange(0, k - 1));
        }
        if c == '.' {
            return Some(k - 1);
        }
        k = k - 1;
    }
    None
}

/// The two trailing labels of `name`, where it has at least three.
pub fn parent_zone_name(name: &str) -> (zone: Option<String>)
    ensures
        match zone {
            Some(z) => parent_zone(name@) == Some(z@),
            None => parent_zone(name@) is None,
        },
{
    let chars = chars_of(name);
    let len = chars.len();
    assert(name@.subrange(0, len as int) =~= name@);
    proof {
        lemma_last_dot(name@);
    }
    match find_last_dot(&chars, len) {
        None => None,
        Some(tld) => {
            proof {
                lemma_last_dot(name@.subrange(0, tld as int));
            }
            match find_last_dot(&chars, tld) {
                None => None,
                Some(cut) => Some(name.substring_char(cut + 1, len).to_owned()),
            }
        },
    }
}

/// Whether `name` begins with `prefix`.
pub fn starts_with(name: &str, prefix: &str) -> (yes: bool)
    ensures
        yes == prefix@.is_prefix_of(name@),
{
    let name_chars = chars_of(name);
    let prefix_chars = chars_of(prefix);
    let n = name_chars.len();
    let p = prefix_chars.len();
    if p > n {
        return false;
    }
    let mut k: usize = 0;
    while k < p
        invariant
            k <= p <= n,
            n == name@.len(),
            p == prefix@.len(),
            name_chars@ == name@,
            prefix_chars@ == prefix@,
            name@.subrange(0, k as int) == prefix@.subrange(0, k as int),
        decreases p - k,
    {
        if name_chars[k] != prefix_chars[k] {
            assert(name@.subrange(0, p as int)[k as int] != prefix@[k as int]);
            return false;
        }
        assert(name@.subrange(0, k + 1) =~= name@.subrange(0, k as int).push(name@[k as int]));
        assert(prefix@.subrange(0, k + 1) =~= prefix@.subrange(0, k as int).push(
            prefix@[k as int],
        ));
        k = k + 1;
    }
    assert(prefix@.subrange(0, p as int) =~= prefix@);
    true
}

/// Whether `a` and `b` hold the same characters.
pub fn same_text(a: &str, b: &str) -> (same: bool)
    ensures
        same == (a@ == b@),
{
    if a.unicode_len() != b.unicode_len() {
        return false;
    }
    let same = starts_with(a, b);
    proof {
        if same {
            assert(a@ =~= b@);
        }
    }
    same
}

/// Whether `name` is `prefix` itself or begins with `prefix` and a `.`.
pub fn has_name_prefix(name: &String, prefix: &String) -> (yes: bool)
    ensures
        yes == names_prefix(name@, prefix@),
{
    if *name == *prefix {
        return true;
    }
    let dotted = join(prefix.as_str(), ".");
    proof {
        reveal_strlit(".");
        assert("."@ =~= seq!['.']);
    }
    starts_with(name.as_str(), dotted.as_str())
}

/// The character that writes the digit `d`.
pub open spec fn digit_char(d: nat) -> char {
    if d == 0 {
        '0'
    } else if d == 1 {
        '1'
    } else if d == 2 {
        '2'
    } else if d == 3 {
        '3'
    } else if d == 4 {
        '4'
    } else if d == 5 {
        '5'
    } else if d == 6 {
        '6'
    } else if d == 7 {
        '7'
    } else if d == 8 {
        '8'
    } else {
        '9'
    }
}

/// The decimal digits that write `n`, without a `0` in front.
pub open spec fn decimal_digits(n: nat) -> Seq<char>
    decreases n,
{
    if n < 10 {
        seq![digit_char(n)]
    } else {
        decimal_digits(n / 10).push(digit_char(n % 10))
    }
}

fn digit_text(d: u16) -> (text: &'static str)
    requires
        d < 10,
    ensures
        text@ == seq![digit_char(d as nat)],
{
    proof {
        reveal_strlit("0");
        reveal_strlit("1");
        reveal_strlit("2");
        reveal_strlit("3");
        reveal_strlit("4");
        reveal_strlit("5");
        reveal_strlit("6");
        reveal_strlit("7");
        reveal_strlit("8");
        reveal_strlit("9");
    }
    let text = if d == 0 {
        "0"
    } else if d == 1 {
        "1"
    } else if d == 2 {
        "2"
    } else if d == 3 {
        "3"
    } else if d == 4 {
        "4"
    } else if d == 5 {
        "5"
    } else if d == 6 {
        "6"
    } else if d == 7 {
        "7"
    } else if d == 8 {
        "8"
    } else {
        "9"
    };
    assert(text@ =~= seq![digit_char(d as nat)]);
    text
}

/// `n` written in decimal digits.
pub fn decimal_text(n: u16) -> (text: String)
    ensures
        text@ == decimal_digits(n as nat),
    decreases n,
{
    if n < 10 {
        digit_text(n).to_owned()
    } else {
        let mut text = decimal_text(n / 10);
        text.append(digit_text(n % 10));
        assert(text@ =~= decimal_digits(n as nat));
        text
    }
}

/// `a` followed by `b`.
pub fn join(a: &str, b: &str) -> (text: String)
    ensures
        text@ == a@ + b@,
{
    let mut text = a.to_owned();
    text.append(b);
    text
}

} // verus!
