//! What texts are read as: numbers, pieces, words and their order.
use vstd::prelude::*;

use crate::digest::{hex_digit, hex_text, hex_value};
use crate::http::relative;
use crate::parse::{
    digit_value, digits_value, end_trimmed, front_trimmed, integer_in, is_split, natural_in, pieces,
    pieces_from, split_first, trimmed,
};
use crate::prompts::{concatenated, joined};
use crate::text::{
    digit, doubled, int_text, is_white, nat_text, occurs_at, occurs_in, phrases, quoted, text_le,
    words, words_from,
};
use crate::tokenizer::{CharTokenizer, TokenizerPort};

verus! {

/// A number is read back from its text.
pub proof fn law_numbers_read_back(n: nat)
    ensures
        digits_value(nat_text(n)) == Some(n),
        nat_text(n).len() > 0,
        forall|i: int| 0 <= i < nat_text(n).len() ==> '0' <= #[trigger] nat_text(n)[i] <= '9',
    decreases n,
{
    if n >= 10 {
        law_numbers_read_back(n / 10);
        let t = nat_text(n);
        assert(t.drop_last() =~= nat_text(n / 10));
        assert(t.last() == digit((n % 10) as int));
        assert(digit_value(t.last()) == Some((n % 10) as nat));
        assert(10 * (n / 10) + n % 10 == n);
        assert forall|i: int| 0 <= i < t.len() implies '0' <= #[trigger] t[i] <= '9' by {
            if i < t.len() - 1 {
                assert(t[i] == nat_text(n / 10)[i]);
            }
        }
    } else {
        assert(digit_value(digit(n as int)) == Some(n));
    }
}

/// A number that fits is read back from its text, and one that does not is refused.
pub proof fn law_naturals_read_back(n: nat, max: nat)
    ensures
        natural_in(nat_text(n), max) == if n <= max {
            Some(n)
        } else {
            None
        },
        natural_in(seq!['+'] + nat_text(n), max) == if n <= max {
            Some(n)
        } else {
            None
        },
{
    law_numbers_read_back(n);
    let t = nat_text(n);
    assert(t[0] != '+');
    assert((seq!['+'] + t).drop_first() =~= t);
}

/// A whole number of the range is read back from its text, sign and all.
pub proof fn law_integers_read_back(n: int)
    requires
        i64::MIN <= n <= i64::MAX,
    ensures
        integer_in(int_text(n)) == Some(n),
{
    if n < 0 {
        let m = (-n) as nat;
        law_numbers_read_back(m);
        assert((seq!['-'] + nat_text(m)).drop_first() =~= nat_text(m));
    } else {
        law_naturals_read_back(n as nat, i64::MAX as nat);
        law_numbers_read_back(n as nat);
        assert(int_text(n)[0] != '-');
    }
}

/// A text is split at the first separator: the two parts and the separator between
/// them are the text, and no separator starts earlier.
pub proof fn law_text_is_split_at_the_first(s: Seq<char>, separator: Seq<char>)
    ensures
        split_first(s, separator) is Some <==> exists|i: int| #[trigger] occurs_at(s, separator, i),
        split_first(s, separator) matches Some(p) ==> {
            &&& s == p.0 + separator + p.1
            &&& forall|j: int|
                0 <= j < p.0.len() ==> #[trigger] s.subrange(j, j + separator.len()) != separator
                    || j + separator.len() > s.len()
        },
{
    if occurs_in(s, separator) {
        let i = lemma_first_occurrence(s, separator);
        let p = (s.take(i), s.skip(i + separator.len()));
        assert(s =~= p.0 + separator + p.1) by {
            assert(s.subrange(i, i + separator.len()) == separator);
            assert forall|k: int| 0 <= k < s.len() implies #[trigger] s[k] == (p.0 + separator
                + p.1)[k] by {
                if i <= k < i + separator.len() {
                    assert(s.subrange(i, i + separator.len())[k - i] == s[k]);
                }
            }
        }
        assert(is_split(s, separator, p));
        let q = split_first(s, separator)->Some_0;
        assert(is_split(s, separator, q));
        assert forall|j: int| 0 <= j < q.0.len() implies #[trigger] s.subrange(
            j,
            j + separator.len(),
        ) != separator || j + separator.len() > s.len() by {
            assert(!occurs_at(s, separator, j));
        }
    }
}

/// There is a first place where a key occurs.
proof fn lemma_first_occurrence(s: Seq<char>, key: Seq<char>) -> (i: int)
    requires
        occurs_in(s, key),
    ensures
        occurs_at(s, key, i),
        forall|j: int| 0 <= j < i ==> !#[trigger] occurs_at(s, key, j),
{
    let k = choose|k: int| #[trigger] occurs_at(s, key, k);
    lemma_first_before(s, key, k)
}

/// There is a first place up to one where a key occurs.
proof fn lemma_first_before(s: Seq<char>, key: Seq<char>, k: int) -> (i: int)
    requires
        occurs_at(s, key, k),
    ensures
        occurs_at(s, key, i),
        forall|j: int| 0 <= j < i ==> !#[trigger] occurs_at(s, key, j),
    decreases k,
{
    if exists|j: int| 0 <= j < k && #[trigger] occurs_at(s, key, j) {
        let j = choose|j: int| 0 <= j < k && #[trigger] occurs_at(s, key, j);
        lemma_first_before(s, key, j)
    } else {
        k
    }
}

/// The pieces of a text: joined by the separator they are the text again, and no
/// piece holds the separator.
pub proof fn law_pieces_join_to_the_text(s: Seq<char>, separator: char)
    ensures
        pieces(s, separator).len() > 0,
        joined(pieces(s, separator), seq![separator]) == s,
        forall|i: int|
            0 <= i < pieces(s, separator).len() ==> !(#[trigger] pieces(s, separator)[i]).contains(
                separator,
            ),
{
    lemma_pieces(Seq::empty(), s, separator);
    assert(Seq::<char>::empty() + s =~= s);
}

/// The pieces of what is left, where some of the first is read.
proof fn lemma_pieces(piece: Seq<char>, s: Seq<char>, separator: char)
    requires
        !piece.contains(separator),
    ensures
        pieces_from(piece, s, separator).len() > 0,
        joined(pieces_from(piece, s, separator), seq![separator]) == piece + s,
        forall|i: int|
            0 <= i < pieces_from(piece, s, separator).len() ==> !(#[trigger] pieces_from(
                piece,
                s,
                separator,
            )[i]).contains(separator),
    decreases s.len(),
{
    let r = pieces_from(piece, s, separator);
    if s.len() == 0 {
        assert(piece + s =~= piece);
    } else if s[0] == separator {
        let rest = pieces_from(Seq::empty(), s.drop_first(), separator);
        lemma_pieces(Seq::empty(), s.drop_first(), separator);
        lemma_joined_front(piece, rest, seq![separator]);
        assert(piece + seq![separator] + (Seq::<char>::empty() + s.drop_first()) =~= piece + s);
        assert forall|i: int| 0 <= i < r.len() implies !(#[trigger] r[i]).contains(separator) by {
            if i > 0 {
                assert(r[i] == rest[i - 1]);
            }
        }
    } else {
        let more = piece.push(s[0]);
        assert(!more.contains(separator)) by {
            if more.contains(separator) {
                let k = choose|k: int| 0 <= k < more.len() && more[k] == separator;
                assert(k < piece.len());
                assert(piece[k] == separator);
            }
        }
        lemma_pieces(more, s.drop_first(), separator);
        assert(more + s.drop_first() =~= piece + s);
    }
}

/// Joining with one more text in front.
proof fn lemma_joined_front(first: Seq<char>, rest: Seq<Seq<char>>, separator: Seq<char>)
    requires
        rest.len() > 0,
    ensures
        joined(seq![first] + rest, separator) == first + separator + joined(rest, separator),
    decreases rest.len(),
{
    let all = seq![first] + rest;
    let init = rest.drop_last();
    assert(all.drop_last() =~= seq![first] + init);
    assert(all.last() == rest.last());
    if rest.len() == 1 {
        assert(all.drop_last() =~= seq![first]);
        assert(joined(seq![first], separator) == first);
    } else {
        lemma_joined_front(first, init, separator);
        assert(first + separator + joined(init, separator) + separator + rest.last() =~= first
            + separator + (joined(init, separator) + separator + rest.last()));
    }
}

/// A trimmed text is what is left of the text between white characters: it neither
/// starts nor ends with one, and all that was cut off is white.
pub proof fn law_trimming_cuts_white_ends(s: Seq<char>)
    ensures
        ({
            let t = trimmed(s);
            &&& t.len() > 0 ==> !is_white(t[0]) && !is_white(t.last())
            &&& exists|a: int, b: int|
                0 <= a <= b <= s.len() && t == #[trigger] s.subrange(a, b) && (forall|k: int|
                    0 <= k < a || b <= k < s.len() ==> is_white(#[trigger] s[k]))
        }),
{
    lemma_front(s);
    let f = front_trimmed(s);
    lemma_end(f);
    let a = s.len() - f.len();
    let b = a + trimmed(s).len();
    assert(s.subrange(a, b) =~= trimmed(s)) by {
        assert forall|k: int| 0 <= k < trimmed(s).len() implies #[trigger] trimmed(s)[k] == s[a
            + k] by {
            assert(f[k] == s.skip(a)[k]);
        }
    }
    assert forall|k: int| 0 <= k < a || b <= k < s.len() implies is_white(#[trigger] s[k]) by {
        if b <= k < s.len() {
            assert(f[k - a] == s.skip(a)[k - a]);
        }
    }
    if trimmed(s).len() > 0 {
        assert(trimmed(s)[0] == f[0]);
    }
}

/// What is cut off in front.
proof fn lemma_front(s: Seq<char>)
    ensures
        ({
            let f = front_trimmed(s);
            let a = s.len() - f.len();
            &&& f.len() <= s.len()
            &&& f == s.skip(a)
            &&& forall|k: int| 0 <= k < a ==> is_white(#[trigger] s[k])
            &&& f.len() > 0 ==> !is_white(f[0])
        }),
    decreases s.len(),
{
    if s.len() > 0 && is_white(s[0]) {
        let rest = s.drop_first();
        lemma_front(rest);
        let f = front_trimmed(s);
        let a = s.len() - f.len();
        assert(rest.skip(a - 1) =~= s.skip(a));
        assert forall|k: int| 0 <= k < a implies is_white(#[trigger] s[k]) by {
            if k > 0 {
                assert(rest[k - 1] == s[k]);
            }
        }
    } else {
        assert(s.skip(0) =~= s);
    }
}

/// What is cut off at the end.
proof fn lemma_end(s: Seq<char>)
    ensures
        ({
            let e = end_trimmed(s);
            &&& e.len() <= s.len()
            &&& e == s.take(e.len() as int)
            &&& forall|k: int| e.len() <= k < s.len() ==> is_white(#[trigger] s[k])
            &&& e.len() > 0 ==> !is_white(e.last())
        }),
    decreases s.len(),
{
    if s.len() > 0 && is_white(s.last()) {
        let init = s.drop_last();
        lemma_end(init);
        let e = end_trimmed(s);
        assert(init.take(e.len() as int) =~= s.take(e.len() as int));
        assert forall|k: int| e.len() <= k < s.len() implies is_white(#[trigger] s[k]) by {
            if k < init.len() {
                assert(init[k] == s[k]);
            }
        }
    } else {
        assert(s.take(s.len() as int) =~= s);
    }
}

/// Whether a character is not white.
pub open spec fn is_dark() -> spec_fn(char) -> bool {
    |c: char| !is_white(c)
}

/// The words of a text are not empty and hold no white character, and one after the
/// other they are all its other characters.
pub proof fn law_words_are_what_is_not_white(s: Seq<char>)
    ensures
        concatenated(words(s)) == s.filter(is_dark()),
        forall|i: int| 0 <= i < words(s).len() ==> (#[trigger] words(s)[i]).len() > 0,
        forall|i: int, k: int|
            0 <= i < words(s).len() && 0 <= k < words(s)[i].len() ==> !is_white(
                #[trigger] words(s)[i][k],
            ),
{
    lemma_words(Seq::empty(), s);
    assert(Seq::<char>::empty() + s.filter(is_dark()) =~= s.filter(is_dark()));
}

/// The words of what is left, where some of the first is read.
proof fn lemma_words(word: Seq<char>, s: Seq<char>)
    requires
        forall|k: int| 0 <= k < word.len() ==> !is_white(#[trigger] word[k]),
    ensures
        concatenated(words_from(word, s)) == word + s.filter(is_dark()),
        forall|i: int|
            0 <= i < words_from(word, s).len() ==> (#[trigger] words_from(word, s)[i]).len() > 0,
        forall|i: int, k: int|
            0 <= i < words_from(word, s).len() && 0 <= k < words_from(word, s)[i].len()
                ==> !is_white(#[trigger] words_from(word, s)[i][k]),
    decreases s.len(),
{
    let r = words_from(word, s);
    if s.len() == 0 {
        reveal(Seq::filter);
        assert(s.filter(is_dark()) =~= Seq::empty());
        assert(word + Seq::<char>::empty() =~= word);
        if word.len() == 0 {
            assert(concatenated(r) =~= word);
        } else {
            assert(r.drop_last() =~= Seq::empty());
            assert(r.last() == word);
            assert(concatenated(r.drop_last()) == Seq::<char>::empty());
            assert(concatenated(r) =~= word);
        }
    } else {
        let rest = s.drop_first();
        lemma_filter_front(s);
        if is_white(s[0]) {
            if word.len() == 0 {
                lemma_words(word, rest);
            } else {
                lemma_words(Seq::empty(), rest);
                let more = words_from(Seq::empty(), rest);
                lemma_concatenated_front(word, more);
                assert(word + (Seq::<char>::empty() + rest.filter(is_dark())) =~= word
                    + rest.filter(is_dark()));
                assert forall|i: int| 0 <= i < r.len() implies (#[trigger] r[i]).len() > 0 by {
                    if i > 0 {
                        assert(r[i] == more[i - 1]);
                    }
                }
                assert forall|i: int, k: int|
                    0 <= i < r.len() && 0 <= k < r[i].len() implies !is_white(
                    #[trigger] r[i][k],
                ) by {
                    if i > 0 {
                        assert(r[i][k] == more[i - 1][k]);
                    }
                }
            }
        } else {
            lemma_words(word.push(s[0]), rest);
            assert(word.push(s[0]) + rest.filter(is_dark()) =~= word + (seq![s[0]] + rest.filter(
                is_dark(),
            )));
        }
    }
}

/// Selecting characters, from the front.
proof fn lemma_filter_front(s: Seq<char>)
    requires
        s.len() > 0,
    ensures
        s.filter(is_dark()) == if is_white(s[0]) {
            s.drop_first().filter(is_dark())
        } else {
            seq![s[0]] + s.drop_first().filter(is_dark())
        },
    decreases s.len(),
{
    reveal(Seq::filter);
    let rest = s.drop_first();
    if s.len() == 1 {
        assert(s.drop_last() =~= Seq::empty());
        assert(rest =~= Seq::empty());
        assert(Seq::<char>::empty().filter(is_dark()) =~= Seq::empty());
        assert(is_dark()(s[0]) == !is_white(s[0]));
        assert(seq![s[0]] + Seq::<char>::empty() =~= Seq::empty().push(s[0]));
    } else {
        let init = s.drop_last();
        lemma_filter_front(init);
        assert(init.drop_first() =~= rest.drop_last());
        assert(init[0] == s[0]);
        assert(rest.last() == s.last());
        let f = rest.drop_last().filter(is_dark());
        assert(rest.filter(is_dark()) == if is_dark()(s.last()) {
            f.push(s.last())
        } else {
            f
        });
        assert((seq![s[0]] + f).push(s.last()) =~= seq![s[0]] + f.push(s.last()));
    }
}

/// One more text in front of others.
proof fn lemma_concatenated_front(first: Seq<char>, rest: Seq<Seq<char>>)
    ensures
        concatenated(seq![first] + rest) == first + concatenated(rest),
    decreases rest.len(),
{
    let all = seq![first] + rest;
    if rest.len() == 0 {
        assert(all.drop_last() =~= Seq::empty());
        assert(all.last() == first);
        assert(concatenated(all.drop_last()) == Seq::<char>::empty());
        assert(concatenated(all) =~= first + concatenated(rest));
    } else {
        lemma_concatenated_front(first, rest.drop_last());
        assert(all.drop_last() =~= seq![first] + rest.drop_last());
        assert(first + concatenated(rest.drop_last()) + rest.last() =~= first + (concatenated(
            rest.drop_last(),
        ) + rest.last()));
    }
}

/// Texts are in order by their first character that differs; a text is before every
/// text that it begins.
pub proof fn law_text_order_is_by_the_first_difference(a: Seq<char>, b: Seq<char>, i: int)
    requires
        0 <= i <= a.len(),
        i <= b.len(),
        forall|k: int| 0 <= k < i ==> #[trigger] a[k] == b[k],
        i < a.len() && i < b.len() ==> a[i] != b[i],
    ensures
        i < a.len() && i < b.len() ==> (text_le(a, b) <==> (a[i] as int) < (b[i] as int)),
        i == a.len() ==> text_le(a, b),
        i < a.len() && i == b.len() ==> !text_le(a, b),
    decreases a.len(),
{
    if i > 0 {
        assert(a[0] == b[0]);
        let s = a.drop_first();
        let t = b.drop_first();
        assert forall|k: int| 0 <= k < i - 1 implies #[trigger] s[k] == t[k] by {
            assert(a[k + 1] == b[k + 1]);
        }
        law_text_order_is_by_the_first_difference(s, t, i - 1);
    }
}

/// A text in quotes.
pub open spec fn in_quotes() -> spec_fn(Seq<char>) -> Seq<char> {
    |s: Seq<char>| quoted(s)
}

/// A query of phrases has every word in quotes, with a space between each two.
pub proof fn law_phrases_quote_every_word(all: Seq<Seq<char>>)
    ensures
        phrases(all) == joined(all.map_values(in_quotes()), seq![' ']),
    decreases all.len(),
{
    let q = all.map_values(in_quotes());
    if all.len() == 0 {
        assert(phrases(all) =~= joined(q, seq![' ']));
    } else if all.len() == 1 {
        assert(q[0] == quoted(all[0]));
    } else {
        law_phrases_quote_every_word(all.drop_last());
        assert(q.drop_last() =~= all.drop_last().map_values(in_quotes()));
        assert(q.last() == quoted(all.last()));
    }
}

/// A quoted text stands between two quotes, and each quote in it is doubled.
pub proof fn law_quotes_are_doubled(s: Seq<char>, c: char)
    ensures
        quoted(s).len() >= 2,
        quoted(s)[0] == '"',
        quoted(s).last() == '"',
        doubled(s.push(c)) == if c == '"' {
            doubled(s) + seq!['"', '"']
        } else {
            doubled(s).push(c)
        },
{
    assert(s.push(c).drop_last() =~= s);
    assert(doubled(s).push('"').push('"') =~= doubled(s) + seq!['"', '"']);
}

/// Bytes are written as two digits each, in lower case, the high half first.
pub proof fn law_bytes_are_two_digits_each(bytes: Seq<u8>, i: int)
    requires
        0 <= i < bytes.len(),
    ensures
        hex_text(bytes).len() == 2 * bytes.len(),
        ({
            let a = hex_text(bytes)[2 * i];
            let b = hex_text(bytes)[2 * i + 1];
            &&& is_lower_hex(a)
            &&& is_lower_hex(b)
            &&& hex_value(a) matches Some(h) && hex_value(b) matches Some(l) && 16 * h + l
                == bytes[i]
        }),
{
    let x = bytes[i] as int;
    assert((2 * i) % 2 == 0 && (2 * i) / 2 == i);
    assert((2 * i + 1) % 2 == 1 && (2 * i + 1) / 2 == i);
    assert(0 <= x / 16 < 16 && 0 <= x % 16 < 16 && 16 * (x / 16) + x % 16 == x);
    lemma_hex_digit(x / 16);
    lemma_hex_digit(x % 16);
}

/// Whether a character is a hexadecimal digit in lower case.
pub open spec fn is_lower_hex(c: char) -> bool {
    ('0' <= c && c <= '9') || ('a' <= c && c <= 'f')
}

/// The digit of a number below sixteen.
proof fn lemma_hex_digit(d: int)
    requires
        0 <= d < 16,
    ensures
        is_lower_hex(hex_digit(d)),
        hex_value(hex_digit(d)) == Some(d),
{
}

/// The fallback counts a token for every four characters, and at least one; what it
/// keeps for a budget is a front of the text that costs no more, and is all of it
/// where that fits.
pub proof fn law_fallback_counts_four_to_a_token(t: CharTokenizer, text: Seq<char>, max: nat)
    ensures
        t.tokens(text) >= 1,
        4 * t.tokens(text) <= text.len() || t.tokens(text) == 1,
        text.len() < 4 * t.tokens(text) + 4,
        t.front(text, max).is_prefix_of(text),
        t.front(text, max).len() <= 4 * max,
        max >= 1 ==> t.tokens(t.front(text, max)) <= max,
        text.len() <= 4 * max ==> t.front(text, max) == text,
        text.len() > 4 * max ==> t.front(text, max).len() == 4 * max,
{
}

/// What follows a question mark does not matter to the file that a path names, and
/// neither does one slash in front.
pub proof fn law_file_is_named_before_the_query(path: Seq<char>, query: Seq<char>)
    requires
        !path.contains('?'),
    ensures
        relative(path + seq!['?'] + query) == relative(path),
        path.len() > 0 && path[0] == '/' ==> relative(path) == path.drop_first(),
        path.len() == 0 || path[0] != '/' ==> relative(path) == path,
{
    lemma_first_piece(Seq::empty(), path, seq!['?'] + query, '?');
    assert(path + seq!['?'] + query =~= path + (seq!['?'] + query));
    lemma_first_piece(Seq::empty(), path, Seq::empty(), '?');
    assert(path + Seq::<char>::empty() =~= path);
    assert(Seq::<char>::empty() + path =~= path);
}

/// The first piece of a text ends where the separator first stands.
proof fn lemma_first_piece(piece: Seq<char>, s: Seq<char>, rest: Seq<char>, separator: char)
    requires
        !s.contains(separator),
        rest.len() == 0 || rest[0] == separator,
    ensures
        pieces_from(piece, s + rest, separator).len() > 0,
        pieces_from(piece, s + rest, separator)[0] == piece + s,
    decreases s.len(),
{
    let all = s + rest;
    if s.len() == 0 {
        assert(all =~= rest);
        assert(piece + s =~= piece);
    } else {
        assert(s.contains(s[0]));
        assert(all[0] == s[0]);
        let more = s.drop_first();
        assert(!more.contains(separator)) by {
            if more.contains(separator) {
                let k = choose|k: int| 0 <= k < more.len() && more[k] == separator;
                assert(s[k + 1] == separator);
            }
        }
        assert(all.drop_first() =~= more + rest);
        lemma_first_piece(piece.push(s[0]), more, rest, separator);
        assert(piece.push(s[0]) + more =~= piece + s);
    }
}

} // verus!
