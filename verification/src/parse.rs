//! Taking texts apart: at separators, between blanks, into numbers.
use vstd::prelude::*;

use crate::text::{chars_of, is_white, matches_at, occurs_at, slice_of, text_of, white};

verus! {

/// Whether a key stands first at a position of a text.
pub open spec fn first_at(s: Seq<char>, key: Seq<char>, i: int) -> bool {
    occurs_at(s, key, i) && forall|j: int| 0 <= j < i ==> !#[trigger] occurs_at(s, key, j)
}

/// Whether a text was split at the first place where a separator stands.
pub open spec fn is_split(
    s: Seq<char>,
    separator: Seq<char>,
    parts: (Seq<char>, Seq<char>),
) -> bool {
    &&& s == parts.0 + separator + parts.1
    &&& first_at(s, separator, parts.0.len() as int)
}

/// What stands before and behind the first place where a separator stands.
pub open spec fn split_first(s: Seq<char>, separator: Seq<char>) -> Option<(Seq<char>, Seq<char>)> {
    if crate::text::occurs_in(s, separator) {
        Some(choose|p: (Seq<char>, Seq<char>)| is_split(s, separator, p))
    } else {
        None
    }
}

/// There is one way to split a text at the first place of a separator.
pub proof fn lemma_split_unique(
    s: Seq<char>,
    separator: Seq<char>,
    a: (Seq<char>, Seq<char>),
    b: (Seq<char>, Seq<char>),
)
    requires
        is_split(s, separator, a),
        is_split(s, separator, b),
    ensures
        a == b,
{
    let i = a.0.len() as int;
    let j = b.0.len() as int;
    assert(occurs_at(s, separator, i) && occurs_at(s, separator, j));
    assert(i == j);
    assert(a.0 =~= s.take(i));
    assert(b.0 =~= s.take(j));
    assert(a.1 =~= s.skip(i + separator.len()));
    assert(b.1 =~= s.skip(j + separator.len()));
}

/// Splits a text at the first place where a separator stands.
pub fn split_once(s: &str, separator: &str) -> (r: Option<(String, String)>)
    ensures
        r.deep_view() == split_first(s@, separator@),
        r.deep_view() matches Some(p) ==> is_split(s@, separator@, p),
{
    let t = chars_of(s);
    let k = chars_of(separator);
    if k.len() > t.len() {
        return None;
    }
    let last: usize = t.len() - k.len();
    let mut i: usize = 0;
    while i <= last
        invariant
            t@ == s@,
            k@ == separator@,
            last == t.len() - k.len(),
            k.len() <= t.len(),
            i <= last + 1,
            forall|j: int| 0 <= j < i ==> !#[trigger] occurs_at(s@, separator@, j),
        decreases last + 1 - i,
    {
        if matches_at(&t, &k, i) {
            let front = slice_of(&t, 0, i);
            let back = slice_of(&t, i + k.len(), t.len());
            proof {
                let p = (front@, back@);
                assert(s@.subrange(i as int, i + k.len()) == separator@);
                assert(s@ =~= front@ + separator@ + back@);
                assert(is_split(s@, separator@, p));
                let q = split_first(s@, separator@)->Some_0;
                assert(crate::text::occurs_in(s@, separator@));
                lemma_split_unique(s@, separator@, p, q);
            }
            return Some((front, back));
        }
        if i == last {
            proof {
                assert forall|j: int| !#[trigger] occurs_at(s@, separator@, j) by {}
            }
            return None;
        }
        i = i + 1;
    }
    None
}

/// The pieces of a text between separators, where `piece` is the one that the
/// text continues.
pub open spec fn pieces_from(piece: Seq<char>, s: Seq<char>, separator: char) -> Seq<Seq<char>>
    decreases s.len(),
{
    if s.len() == 0 {
        seq![piece]
    } else if s[0] == separator {
        seq![piece] + pieces_from(Seq::empty(), s.drop_first(), separator)
    } else {
        pieces_from(piece.push(s[0]), s.drop_first(), separator)
    }
}

/// The pieces of a text between separators.
pub open spec fn pieces(s: Seq<char>, separator: char) -> Seq<Seq<char>> {
    pieces_from(Seq::empty(), s, separator)
}

/// The pieces of a text between separators.
pub fn split_at(s: &str, separator: char) -> (r: Vec<String>)
    ensures
        r.deep_view() == pieces(s@, separator),
{
    let chars = chars_of(s);
    let mut out: Vec<String> = Vec::new();
    let mut piece: Vec<char> = Vec::new();
    let mut i: usize = 0;
    assert(s@.skip(0) =~= s@);
    assert(out.deep_view() =~= Seq::<Seq<char>>::empty());
    assert(piece@ =~= Seq::<char>::empty());
    assert(out.deep_view() + pieces_from(piece@, s@.skip(0), separator) =~= pieces(s@, separator));
    while i < chars.len()
        invariant
            chars@ == s@,
            i <= chars.len(),
            out.deep_view() + pieces_from(piece@, s@.skip(i as int), separator) == pieces(
                s@,
                separator,
            ),
        decreases chars.len() - i,
    {
        let c: char = chars[i];
        let ghost before = out.deep_view();
        proof {
            assert(s@.skip(i as int)[0] == c);
            assert(s@.skip(i as int).drop_first() =~= s@.skip(i + 1));
        }
        if c == separator {
            let ended = text_of(&piece);
            let ghost w = ended@;
            let ghost rest = pieces_from(Seq::empty(), s@.skip(i + 1), separator);
            out.push(ended);
            piece = Vec::new();
            proof {
                assert(piece@ =~= Seq::<char>::empty());
                assert(out.deep_view() =~= before.push(w));
                assert(before + (seq![w] + rest) =~= before.push(w) + rest);
            }
        } else {
            piece.push(c);
        }
        i = i + 1;
    }
    let ghost before = out.deep_view();
    assert(s@.skip(i as int) =~= Seq::<char>::empty());
    let last = text_of(&piece);
    let ghost w = last@;
    out.push(last);
    assert(out.deep_view() =~= before.push(w));
    assert(before + seq![w] =~= before.push(w));
    out
}

/// A text without the white space at its front.
pub open spec fn front_trimmed(s: Seq<char>) -> Seq<char>
    decreases s.len(),
{
    if s.len() > 0 && is_white(s[0]) {
        front_trimmed(s.drop_first())
    } else {
        s
    }
}

/// A text without the white space at its end.
pub open spec fn end_trimmed(s: Seq<char>) -> Seq<char>
    decreases s.len(),
{
    if s.len() > 0 && is_white(s.last()) {
        end_trimmed(s.drop_last())
    } else {
        s
    }
}

/// A text without the white space around it.
pub open spec fn trimmed(s: Seq<char>) -> Seq<char> {
    end_trimmed(front_trimmed(s))
}

/// A text without the white space around it.
pub fn trim(s: &str) -> (r: String)
    ensures
        r@ == trimmed(s@),
{
    let chars = chars_of(s);
    let n: usize = chars.len();
    let mut a: usize = 0;
    assert(s@.skip(0) =~= s@);
    while a < n && white(chars[a])
        invariant
            chars@ == s@,
            n == chars.len(),
            a <= n,
            front_trimmed(s@) == front_trimmed(s@.skip(a as int)),
        decreases n - a,
    {
        proof {
            assert(s@.skip(a as int)[0] == s@[a as int]);
            assert(s@.skip(a as int).drop_first() =~= s@.skip(a + 1));
        }
        a = a + 1;
    }
    let ghost front = s@.skip(a as int);
    assert(a < n ==> front[0] == s@[a as int]);
    assert(front_trimmed(s@) == front);
    let mut b: usize = n;
    assert(s@.subrange(a as int, n as int) =~= front);
    while b > a && white(chars[b - 1])
        invariant
            chars@ == s@,
            n == chars.len(),
            a <= b <= n,
            end_trimmed(front) == end_trimmed(s@.subrange(a as int, b as int)),
        decreases b,
    {
        proof {
            let part = s@.subrange(a as int, b as int);
            assert(part.last() == s@[b - 1]);
            assert(part.drop_last() =~= s@.subrange(a as int, b - 1));
        }
        b = b - 1;
    }
    assert(b > a ==> s@.subrange(a as int, b as int).last() == s@[b - 1]);
    slice_of(&chars, a, b)
}

/// The number that a decimal digit stands for.
pub open spec fn digit_value(c: char) -> Option<nat> {
    if '0' <= c && c <= '9' {
        Some((c as int - '0' as int) as nat)
    } else {
        None
    }
}

/// The number that decimal digits stand for, and nothing where there is none or
/// another character stands among them.
pub open spec fn digits_value(s: Seq<char>) -> Option<nat>
    decreases s.len(),
{
    if s.len() == 0 {
        None
    } else if s.len() == 1 {
        digit_value(s[0])
    } else {
        match (digits_value(s.drop_last()), digit_value(s.last())) {
            (Some(n), Some(d)) => Some(10 * n + d),
            _ => None,
        }
    }
}

/// The natural number that a text stands for, where it is at most `max`: decimal
/// digits, which may have a plus sign before them.
pub open spec fn natural_in(s: Seq<char>, max: nat) -> Option<nat> {
    let digits = if s.len() > 1 && s[0] == '+' {
        s.drop_first()
    } else {
        s
    };
    match digits_value(digits) {
        Some(n) => if n <= max {
            Some(n)
        } else {
            None
        },
        None => None,
    }
}

/// The integer that a text stands for, where it fits `i64`: decimal digits, which
/// may have a sign before them.
pub open spec fn integer_in(s: Seq<char>) -> Option<int> {
    if s.len() > 1 && s[0] == '-' {
        match digits_value(s.drop_first()) {
            Some(n) => if n <= 0x8000_0000_0000_0000 {
                Some(-(n as int))
            } else {
                None
            },
            None => None,
        }
    } else {
        match natural_in(s, i64::MAX as nat) {
            Some(n) => Some(n as int),
            None => None,
        }
    }
}

fn value_of_digit(c: char) -> (r: Option<u64>)
    ensures
        match digit_value(c) {
            Some(d) => r == Some(d as u64) && d < 10,
            None => r is None,
        },
{
    if '0' <= c && c <= '9' {
        Some(c as u64 - 48)
    } else {
        None
    }
}

/// Longer digits stand for no smaller number.
proof fn lemma_digits_grow(s: Seq<char>, k: int)
    requires
        0 < k <= s.len(),
    ensures
        digits_value(s.take(k)) is None ==> digits_value(s) is None,
        digits_value(s) matches Some(n) ==> digits_value(s.take(k)) matches Some(m) && m <= n,
    decreases s.len() - k,
{
    if k == s.len() {
        assert(s.take(k) =~= s);
    } else {
        lemma_digits_grow(s, k + 1);
        assert(s.take(k + 1).drop_last() =~= s.take(k));
    }
}

/// The number of the digits from a position on, where it is at most `max`.
fn read_digits(chars: &Vec<char>, from: usize, max: u64) -> (r: Option<u64>)
    requires
        from <= chars.len(),
    ensures
        match digits_value(chars@.skip(from as int)) {
            Some(n) => if n <= max {
                r is Some && r->Some_0 == n
            } else {
                r is None
            },
            None => r is None,
        },
{
    let ghost all = chars@.skip(from as int);
    if from == chars.len() {
        assert(all.len() == 0);
        return None;
    }
    let mut n: u64 = match value_of_digit(chars[from]) {
        Some(d) => d,
        None => {
            proof {
                assert(all.take(1)[0] == chars@[from as int]);
                lemma_digits_grow(all, 1);
            }
            return None;
        },
    };
    proof {
        assert(all.take(1)[0] == chars@[from as int]);
    }
    if n > max {
        proof {
            lemma_digits_grow(all, 1);
        }
        return None;
    }
    let mut i: usize = from + 1;
    while i < chars.len()
        invariant
            from < i <= chars.len(),
            all == chars@.skip(from as int),
            digits_value(all.take(i - from)) == Some(n as nat),
            n <= max,
        decreases chars.len() - i,
    {
        let ghost k = i + 1 - from;
        proof {
            assert(all.take(k).drop_last() =~= all.take(i - from));
            assert(all.take(k).last() == chars@[i as int]);
        }
        match value_of_digit(chars[i]) {
            None => {
                proof {
                    lemma_digits_grow(all, k);
                }
                return None;
            },
            Some(d) => {
                if n > 1844674407370955161 || 10 * n > u64::MAX - d || 10 * n + d > max {
                    proof {
                        assert(digits_value(all.take(k)) == Some((10 * n + d) as nat));
                        lemma_digits_grow(all, k);
                    }
                    return None;
                }
                n = 10 * n + d;
            },
        }
        i = i + 1;
    }
    assert(all.take(i - from) =~= all);
    Some(n)
}

/// The natural number that a text stands for, where it is at most `max`.
pub fn parse_natural(s: &str, max: u64) -> (r: Option<u64>)
    ensures
        match natural_in(s@, max as nat) {
            Some(n) => r is Some && r->Some_0 == n,
            None => r is None,
        },
{
    let chars = chars_of(s);
    assert(s@.skip(0) =~= s@);
    if chars.len() > 1 && chars[0] == '+' {
        assert(s@.skip(1) =~= s@.drop_first());
        read_digits(&chars, 1, max)
    } else {
        read_digits(&chars, 0, max)
    }
}

/// The integer that a text stands for, where it fits `i64`.
pub fn parse_integer(s: &str) -> (r: Option<i64>)
    ensures
        match integer_in(s@) {
            Some(n) => r is Some && r->Some_0 == n,
            None => r is None,
        },
{
    let chars = chars_of(s);
    if chars.len() > 1 && chars[0] == '-' {
        assert(s@.skip(1) =~= s@.drop_first());
        match read_digits(&chars, 1, 0x8000_0000_0000_0000) {
            Some(n) => if n == 0x8000_0000_0000_0000 {
                Some(i64::MIN)
            } else {
                Some(-(n as i64))
            },
            None => None,
        }
    } else {
        match parse_natural(s, i64::MAX as u64) {
            Some(n) => Some(n as i64),
            None => None,
        }
    }
}

} // verus!
