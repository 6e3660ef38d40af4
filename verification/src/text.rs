//! Strings as sequences of characters.

use vstd::prelude::*;

verus! {

/// The digit `d` as a character.
pub open spec fn digit(d: nat) -> char {
    (0x30 + d) as char
}

/// `n` in decimal, without leading zeros.
pub open spec fn decimal(n: nat) -> Seq<char>
    decreases n,
{
    if n < 10 {
        seq![digit(n)]
    } else {
        decimal(n / 10).push(digit(n % 10))
    }
}

/// `FromIterator<char>` of `String`: the characters in their order.
#[verifier::external_body]
pub(crate) fn string_of(chars: &Vec<char>) -> (s: String)
    ensures
        s@ == chars@,
{
    chars.iter().collect::<String>()
}

/// The characters of a string.
pub fn chars_of(s: &str) -> (chars: Vec<char>)
    ensures
        chars@ == s@,
{
    let mut chars: Vec<char> = Vec::new();
    for c in it: s.chars()
        invariant
            it.seq() == s@,
            chars@ == s@.take(it.index() as int),
    {
        proof {
            assert(s@.take(it.index() + 1) =~= s@.take(it.index() as int).push(
                s@[it.index() as int],
            ));
        }
        chars.push(c);
    }
    proof {
        assert(s@.take(s@.len() as int) =~= s@);
    }
    chars
}

fn decimal_chars(n: u64) -> (chars: Vec<char>)
    ensures
        chars@ == decimal(n as nat),
    decreases n,
{
    let mut chars: Vec<char> = if n < 10 {
        Vec::new()
    } else {
        decimal_chars(n / 10)
    };
    let d: u8 = (n % 10) as u8;
    chars.push((0x30 + d) as char);
    proof {
        assert(chars@ =~= decimal(n as nat));
    }
    chars
}

/// `n` in decimal.
pub fn decimal_text(n: u64) -> (s: String)
    ensures
        s@ == decimal(n as nat),
{
    string_of(&decimal_chars(n))
}

/// `a` followed by `b`.
pub fn joined(a: &str, b: &str) -> (s: String)
    ensures
        s@ == a@ + b@,
{
    let mut s = a.to_owned();
    s.append(b);
    s
}

/// `i` is a place in `text` where `part` starts.
pub open spec fn part_at(text: Seq<char>, part: Seq<char>, i: int) -> bool {
    0 <= i && i + part.len() <= text.len() && text.subrange(i, i + part.len()) == part
}

/// `part` occurs in `text`.
pub open spec fn has_part(text: Seq<char>, part: Seq<char>) -> bool {
    exists|i: int| part_at(text, part, i)
}

/// Whether `part` occurs in `text`.
pub fn contains_text(text: &str, part: &str) -> (found: bool)
    ensures
        found == has_part(text@, part@),
{
    let t = chars_of(text);
    let p = chars_of(part);
    if p.len() > t.len() {
        return false;
    }
    let last: usize = t.len() - p.len();
    let mut i: usize = 0;
    while i <= last
        invariant
            t@ == text@,
            p@ == part@,
            last == t.len() - p.len(),
            p.len() <= t.len(),
            i <= last + 1,
            forall|j: int| 0 <= j < i ==> !part_at(text@, part@, j),
        decreases last + 1 - i,
    {
        let mut k: usize = 0;
        while k < p.len() && t[i + k] == p[k]
            invariant
                t@ == text@,
                p@ == part@,
                last == t.len() - p.len(),
            p.len() <= t.len(),
                i <= last,
                k <= p@.len(),
                forall|j: int| 0 <= j < k ==> t@[i + j] == p@[j],
            decreases p@.len() - k,
        {
            k += 1;
        }
        if k == p.len() {
            proof {
                assert(text@.subrange(i as int, i + part@.len()) =~= part@);
                assert(part_at(text@, part@, i as int));
            }
            return true;
        }
        proof {
            if part_at(text@, part@, i as int) {
                assert(text@.subrange(i as int, i + part@.len())[k as int] == t@[i + k]);
            }
        }
        if i == last {
            return false;
        }
        i += 1;
    }
    false
}

/// Whether two texts are the same.
pub fn same_text(a: &str, b: &str) -> (same: bool)
    ensures
        same == (a@ == b@),
{
    let x = chars_of(a);
    let y = chars_of(b);
    if x.len() != y.len() {
        return false;
    }
    let mut i: usize = 0;
    while i < x.len()
        invariant
            x@ == a@,
            y@ == b@,
            x@.len() == y@.len(),
            i <= x@.len(),
            forall|j: int| 0 <= j < i ==> x@[j] == y@[j],
        decreases x@.len() - i,
    {
        if x[i] != y[i] {
            return false;
        }
        i += 1;
    }
    proof {
        assert(a@ =~= b@);
    }
    true
}

} // verus!
