//! The naming convention that tags a compositor workspace with its activity:
//! `hact-[<raw>]-[<activity>]`.
use vstd::prelude::*;

verus! {

/// The composite name of raw workspace `work` under `activity`.
pub open spec fn workname_spec(activity: Seq<char>, work: Seq<char>) -> Seq<char> {
    seq!['h', 'a', 'c', 't', '-', '['] + work + seq![']', '-', '['] + activity + seq![']']
}

/// The prefix that every name following the convention starts with.
pub open spec fn convention_prefix() -> Seq<char> {
    seq!['h', 'a', 'c', 't', '-', '[']
}

/// `s` holds the two characters `a`, `b` at positions `i`, `i + 1`.
pub open spec fn pair_at(s: Seq<char>, i: int, a: char, b: char) -> bool {
    0 <= i && i + 1 < s.len() && s[i] == a && s[i + 1] == b
}

/// `s` contains the two-character sequence `a b` somewhere.
pub open spec fn has_pair(s: Seq<char>, a: char, b: char) -> bool {
    exists|i: int| pair_at(s, i, a, b)
}

/// `i` is the first position of `a b` in `s`.
pub open spec fn first_pair_at(s: Seq<char>, i: int, a: char, b: char) -> bool {
    pair_at(s, i, a, b) && forall|j: int| 0 <= j < i ==> !pair_at(s, j, a, b)
}

/// The first position of `a b` in `s`, where there is one.
pub open spec fn first_pair(s: Seq<char>, a: char, b: char) -> Option<int> {
    if exists|i: int| first_pair_at(s, i, a, b) {
        Some(choose|i: int| first_pair_at(s, i, a, b))
    } else {
        None
    }
}

/// The raw name read off a composite name by its brackets: the text after the first
/// `-[` and before the first `]-` that follows it.
pub open spec fn parse_raw_spec(s: Seq<char>) -> Option<Seq<char>> {
    match first_pair(s, '-', '[') {
        Some(i) => {
            let rest = s.skip(i + 2);
            match first_pair(rest, ']', '-') {
                Some(j) => Some(rest.take(j)),
                None => None,
            }
        },
        None => None,
    }
}

pub proof fn lemma_first_pair_unique(s: Seq<char>, i: int, a: char, b: char)
    requires
        first_pair_at(s, i, a, b),
    ensures
        first_pair(s, a, b) == Some(i),
{
    let k = choose|k: int| first_pair_at(s, k, a, b);
    assert(first_pair_at(s, k, a, b));
    if k < i {
        assert(!pair_at(s, k, a, b));
    } else if i < k {
        assert(!pair_at(s, i, a, b));
    }
}

pub proof fn lemma_no_pair(s: Seq<char>, a: char, b: char)
    requires
        !has_pair(s, a, b),
    ensures
        first_pair(s, a, b).is_none(),
{
    if exists|i: int| first_pair_at(s, i, a, b) {
        let i = choose|i: int| first_pair_at(s, i, a, b);
        assert(pair_at(s, i, a, b));
    }
}

/// Decoding by the brackets gives back the raw name that was encoded, for any
/// activity, as long as the raw name does not itself hold the closing `]-`.
pub proof fn lemma_round_trip(activity: Seq<char>, raw: Seq<char>)
    requires
        !has_pair(raw, ']', '-'),
    ensures
        parse_raw_spec(workname_spec(activity, raw)) == Some(raw),
{
    let s = workname_spec(activity, raw);
    assert(pair_at(s, 4, '-', '['));
    assert forall|j: int| 0 <= j < 4 implies !pair_at(s, j, '-', '[') by {
        assert(s[j] == seq!['h', 'a', 'c', 't'][j]);
    }
    lemma_first_pair_unique(s, 4, '-', '[');
    let rest = s.skip(6);
    assert(rest =~= raw + seq![']', '-', '['] + activity + seq![']']);
    let n = raw.len() as int;
    assert(pair_at(rest, n, ']', '-'));
    assert forall|j: int| 0 <= j < n implies !pair_at(rest, j, ']', '-') by {
        if j + 1 < n {
            if pair_at(rest, j, ']', '-') {
                assert(pair_at(raw, j, ']', '-'));
            }
        } else {
            assert(rest[j + 1] == ']');
        }
    }
    lemma_first_pair_unique(rest, n, ']', '-');
    assert(rest.take(n) =~= raw);
}

/// The composite name of raw workspace `work` under `activity`.
pub fn workname(activity: &str, work: &str) -> (r: String)
    ensures
        r@ == workname_spec(activity@, work@),
{
    let mut r = String::from_str("hact-[");
    r.append(work);
    r.append("]-[");
    r.append(activity);
    r.append("]");
    proof {
        reveal_strlit("hact-[");
        reveal_strlit("]-[");
        reveal_strlit("]");
        assert(r@ =~= workname_spec(activity@, work@));
    }
    r
}

/// Whether `name` already follows the convention (starts with `hact-[`).
pub fn follows_convention(name: &str) -> (r: bool)
    ensures
        r == (name@.len() >= 6 && name@.take(6) == convention_prefix()),
{
    let n = name.unicode_len();
    if n < 6 {
        return false;
    }
    let p = "hact-[";
    proof {
        reveal_strlit("hact-[");
    }
    let mut i: usize = 0;
    while i < 6
        invariant
            i <= 6 <= n == name@.len(),
            p@ == convention_prefix(),
            forall|k: int| 0 <= k < i ==> name@[k] == p@[k],
        decreases 6 - i,
    {
        if name.get_char(i) != p.get_char(i) {
            assert(name@.take(6)[i as int] != convention_prefix()[i as int]);
            return false;
        }
        i += 1;
    }
    assert(name@.take(6) =~= convention_prefix());
    true
}

/// The first position of `a b` in `s`.
fn find_pair(s: &str, a: char, b: char) -> (r: Option<usize>)
    ensures
        match r {
            Some(i) => first_pair_at(s@, i as int, a, b),
            None => !has_pair(s@, a, b),
        },
{
    let n = s.unicode_len();
    let mut i: usize = 0;
    while i < n && i + 1 < n
        invariant
            n == s@.len(),
            forall|j: int| 0 <= j < i ==> !pair_at(s@, j, a, b),
        decreases n - i,
    {
        if s.get_char(i) == a && s.get_char(i + 1) == b {
            return Some(i);
        }
        i += 1;
    }
    assert forall|j: int| !pair_at(s@, j, a, b) by {
        if 0 <= j && j + 1 < n {
            assert(j < i);
        }
    }
    None
}

/// The raw name read off `name` by its brackets, or `None` where `name` has no
/// `-[ ... ]-` segment.
pub fn parse_raw(name: &str) -> (r: Option<String>)
    ensures
        match r {
            Some(x) => parse_raw_spec(name@) == Some(x@),
            None => parse_raw_spec(name@).is_none(),
        },
{
    match find_pair(name, '-', '[') {
        Some(i) => {
            proof {
                lemma_first_pair_unique(name@, i as int, '-', '[');
            }
            let n = name.unicode_len();
            let rest = name.substring_char(i + 2, n);
            assert(rest@ =~= name@.skip(i + 2));
            match find_pair(rest, ']', '-') {
                Some(j) => {
                    proof {
                        lemma_first_pair_unique(rest@, j as int, ']', '-');
                    }
                    let raw = rest.substring_char(0, j);
                    assert(raw@ =~= rest@.take(j as int));
                    Some(String::from_str(raw))
                },
                None => {
                    proof {
                        lemma_no_pair(rest@, ']', '-');
                    }
                    None
                },
            }
        },
        None => {
            proof {
                lemma_no_pair(name@, '-', '[');
            }
            None
        },
    }
}

} // verus!
