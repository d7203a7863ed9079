//! Text helpers: equality, order, joining and splitting of strings as
//! sequences of characters.
use vstd::prelude::*;
use vstd::string::*;

verus! {

broadcast use vstd::string::group_string_axioms;

/// Whether two texts hold the same characters.
pub fn str_eq(a: &str, b: &str) -> (r: bool)
    ensures
        r == (a@ == b@),
{
    let x = chars_of(a);
    let y = chars_of(b);
    if x.len() != y.len() {
        return false;
    }
    let mut i: usize = 0;
    while i < x.len()
        invariant
            x@ == a@,
            y@ == b@,
            x.len() == y.len(),
            i <= x.len(),
            forall|j: int| 0 <= j < i ==> x@[j] == y@[j],
        decreases x.len() - i,
    {
        if x[i] != y[i] {
            return false;
        }
        i = i + 1;
    }
    assert(a@ =~= b@);
    true
}

/// The characters of a text, in order.
pub fn chars_of(s: &str) -> (r: Vec<char>)
    ensures
        r@ == s@,
{
    let mut out: Vec<char> = Vec::new();
    for c in it: s.chars()
        invariant
            it.seq() == s@,
            out@ == s@.take(it.index()),
    {
        proof {
            assert(s@.take(it.index() + 1) =~= s@.take(it.index()).push(s@[it.index()]));
        }
        out.push(c);
    }
    assert(s@.take(s@.len() as int) =~= s@);
    out
}

/// `String::push`: the string gains one character at its end.
pub assume_specification[ String::push ](s: &mut String, c: char)
    ensures
        final(s)@ == old(s)@.push(c),
;

/// `String::push_str`: the string gains the characters of another at its end.
pub assume_specification[ String::push_str ](s: &mut String, t: &str)
    ensures
        final(s)@ == old(s)@ + t@,
;

/// The text that holds the given characters.
pub fn text_of(chars: &Vec<char>) -> (r: String)
    ensures
        r@ == chars@,
{
    let mut out = String::new();
    let mut i: usize = 0;
    while i < chars.len()
        invariant
            i <= chars.len(),
            out@ == chars@.take(i as int),
        decreases chars.len() - i,
    {
        out.push(chars[i]);
        i = i + 1;
        assert(chars@.take(i as int) =~= chars@.take(i - 1).push(chars@[i - 1]));
    }
    assert(chars@.take(i as int) =~= chars@);
    out
}

/// The characters from position `from` up to position `to`.
pub fn slice_of(chars: &Vec<char>, from: usize, to: usize) -> (r: String)
    requires
        from <= to <= chars.len(),
    ensures
        r@ == chars@.subrange(from as int, to as int),
{
    let mut out = String::new();
    let mut i: usize = from;
    assert(chars@.subrange(from as int, i as int) =~= Seq::empty());
    while i < to
        invariant
            from <= i <= to <= chars.len(),
            out@ == chars@.subrange(from as int, i as int),
        decreases to - i,
    {
        out.push(chars[i]);
        i = i + 1;
        assert(chars@.subrange(from as int, i as int) =~= chars@.subrange(
            from as int,
            i - 1,
        ).push(chars@[i - 1]));
    }
    out
}

/// Two texts one after the other.
pub fn cat2(a: &str, b: &str) -> (r: String)
    ensures
        r@ == a@ + b@,
{
    let mut out = String::new();
    out.push_str(a);
    out.push_str(b);
    assert(out@ =~= a@ + b@);
    out
}

/// Three texts one after the other.
pub fn cat3(a: &str, b: &str, c: &str) -> (r: String)
    ensures
        r@ == a@ + b@ + c@,
{
    let mut out = cat2(a, b);
    out.push_str(c);
    out
}

/// Four texts one after the other.
pub fn cat4(a: &str, b: &str, c: &str, d: &str) -> (r: String)
    ensures
        r@ == a@ + b@ + c@ + d@,
{
    let mut out = cat3(a, b, c);
    out.push_str(d);
    out
}

/// Five texts one after the other.
pub fn cat5(a: &str, b: &str, c: &str, d: &str, e: &str) -> (r: String)
    ensures
        r@ == a@ + b@ + c@ + d@ + e@,
{
    let mut out = cat4(a, b, c, d);
    out.push_str(e);
    out
}

/// The decimal digit of a number below ten.
pub open spec fn digit(d: int) -> char {
    if d == 0 {
        '0'
    } else if d == 1 {
        '1'
    } else if d == 2 {
        '2'
    } else if d == 3 {
        '3'
    } else if d == 4 {
        '4'
    } else if d == 5 {
        '5'
    } else if d == 6 {
        '6'
    } else if d == 7 {
        '7'
    } else if d == 8 {
        '8'
    } else {
        '9'
    }
}

/// A natural number in decimal notation.
pub open spec fn nat_text(n: nat) -> Seq<char>
    decreases n,
{
    if n < 10 {
        seq![digit(n as int)]
    } else {
        nat_text(n / 10).push(digit((n % 10) as int))
    }
}

/// An integer in decimal notation.
pub open spec fn int_text(n: int) -> Seq<char> {
    if n < 0 {
        seq!['-'] + nat_text((-n) as nat)
    } else {
        nat_text(n as nat)
    }
}

fn digit_of(d: u64) -> (c: char)
    requires
        d < 10,
    ensures
        c == digit(d as int),
{
    match d {
        0 => '0',
        1 => '1',
        2 => '2',
        3 => '3',
        4 => '4',
        5 => '5',
        6 => '6',
        7 => '7',
        8 => '8',
        _ => '9',
    }
}

/// A number in decimal notation.
pub fn show_u64(n: u64) -> (r: String)
    ensures
        r@ == nat_text(n as nat),
    decreases n,
{
    if n < 10 {
        let mut out = String::new();
        out.push(digit_of(n));
        assert(out@ =~= nat_text(n as nat));
        out
    } else {
        let mut out = show_u64(n / 10);
        out.push(digit_of(n % 10));
        out
    }
}

/// A signed number in decimal notation.
pub fn show_i64(n: i64) -> (r: String)
    ensures
        r@ == int_text(n as int),
{
    if n < 0 {
        let m: u64 = if n == i64::MIN {
            9223372036854775808u64
        } else {
            (-n) as u64
        };
        let digits = show_u64(m);
        let mut out = String::new();
        out.push('-');
        out.push_str(digits.as_str());
        assert(out@ =~= seq!['-'] + digits@);
        out
    } else {
        show_u64(n as u64)
    }
}

/// Whether `key` stands in `s` from position `i` on.
pub open spec fn occurs_at(s: Seq<char>, key: Seq<char>, i: int) -> bool {
    0 <= i && i + key.len() <= s.len() && s.subrange(i, i + key.len()) == key
}

/// Whether `key` stands somewhere in `s`.
pub open spec fn occurs_in(s: Seq<char>, key: Seq<char>) -> bool {
    exists|i: int| #[trigger] occurs_at(s, key, i)
}

/// Whether the characters of `key` stand in `s` from position `i` on.
pub fn matches_at(s: &Vec<char>, key: &Vec<char>, i: usize) -> (r: bool)
    requires
        i + key.len() <= s.len(),
    ensures
        r == occurs_at(s@, key@, i as int),
{
    let mut k: usize = 0;
    while k < key.len()
        invariant
            k <= key.len(),
            i + key.len() <= s.len(),
            forall|j: int| 0 <= j < k ==> #[trigger] s@[i + j] == key@[j],
        decreases key.len() - k,
    {
        if s[i + k] != key[k] {
            proof {
                let part = s@.subrange(i as int, i + key.len());
                assert(part[k as int] == s@[i + k]);
            }
            return false;
        }
        k = k + 1;
    }
    proof {
        let part = s@.subrange(i as int, i + key.len());
        assert forall|j: int| 0 <= j < part.len() implies part[j] == key@[j] by {
            assert(part[j] == s@[i + j]);
        }
        assert(part =~= key@);
    }
    true
}

/// Whether `key` stands somewhere in `s`.
pub fn contains_text(s: &str, key: &str) -> (r: bool)
    ensures
        r == occurs_in(s@, key@),
{
    let t = chars_of(s);
    let k = chars_of(key);
    if k.len() > t.len() {
        return false;
    }
    let last: usize = t.len() - k.len();
    let mut i: usize = 0;
    while i < last
        invariant
            t@ == s@,
            k@ == key@,
            last == t.len() - k.len(),
            k.len() <= t.len(),
            i <= last,
            forall|j: int| 0 <= j < i ==> !#[trigger] occurs_at(s@, key@, j),
        decreases last - i,
    {
        if matches_at(&t, &k, i) {
            assert(occurs_at(s@, key@, i as int));
            return true;
        }
        i = i + 1;
    }
    matches_at(&t, &k, last)
}

/// Whether `s` begins with `key`.
pub fn starts_with_text(s: &str, key: &str) -> (r: bool)
    ensures
        r == key@.is_prefix_of(s@),
{
    let t = chars_of(s);
    let k = chars_of(key);
    if k.len() > t.len() {
        return false;
    }
    matches_at(&t, &k, 0)
}

/// The order of texts by the code points of their characters, which is also
/// the order of their UTF-8 bytes.
pub open spec fn text_le(a: Seq<char>, b: Seq<char>) -> bool
    decreases a.len(),
{
    if a.len() == 0 {
        true
    } else if b.len() == 0 {
        false
    } else if a[0] != b[0] {
        (a[0] as int) < (b[0] as int)
    } else {
        text_le(a.drop_first(), b.drop_first())
    }
}

/// Any two texts are in order one way or the other.
pub proof fn lemma_text_total(a: Seq<char>, b: Seq<char>)
    ensures
        text_le(a, b) || text_le(b, a),
    decreases a.len(),
{
    if a.len() > 0 && b.len() > 0 && a[0] == b[0] {
        lemma_text_total(a.drop_first(), b.drop_first());
    }
}

/// The order of texts is transitive.
pub proof fn lemma_text_transitive(a: Seq<char>, b: Seq<char>, c: Seq<char>)
    requires
        text_le(a, b),
        text_le(b, c),
    ensures
        text_le(a, c),
    decreases a.len(),
{
    if a.len() > 0 && b.len() > 0 && c.len() > 0 && a[0] == b[0] && b[0] == c[0] {
        lemma_text_transitive(a.drop_first(), b.drop_first(), c.drop_first());
    }
}

/// Two texts in order both ways are the same text.
pub proof fn lemma_text_antisymmetric(a: Seq<char>, b: Seq<char>)
    requires
        text_le(a, b),
        text_le(b, a),
    ensures
        a == b,
    decreases a.len(),
{
    if a.len() > 0 && b.len() > 0 {
        assert(a[0] == b[0]);
        lemma_text_antisymmetric(a.drop_first(), b.drop_first());
        assert(a =~= seq![a[0]] + a.drop_first());
        assert(b =~= seq![b[0]] + b.drop_first());
    } else {
        assert(a =~= b);
    }
}

/// The order of texts as a relation.
pub open spec fn by_text() -> spec_fn(Seq<char>, Seq<char>) -> bool {
    |a: Seq<char>, b: Seq<char>| text_le(a, b)
}

fn char_lt(p: char, q: char) -> (r: bool)
    ensures
        r == ((p as int) < (q as int)),
{
    (p as u32) < (q as u32)
}

/// Whether `a` comes no later than `b` in the order of texts.
pub fn str_le(a: &str, b: &str) -> (r: bool)
    ensures
        r == text_le(a@, b@),
{
    let x = chars_of(a);
    let y = chars_of(b);
    let mut i: usize = 0;
    assert(a@.skip(0) =~= a@);
    assert(b@.skip(0) =~= b@);
    while i < x.len() && i < y.len()
        invariant
            x@ == a@,
            y@ == b@,
            i <= x.len(),
            i <= y.len(),
            text_le(a@, b@) == text_le(a@.skip(i as int), b@.skip(i as int)),
        decreases x.len() - i,
    {
        assert(a@.skip(i as int)[0] == x@[i as int]);
        assert(b@.skip(i as int)[0] == y@[i as int]);
        if x[i] != y[i] {
            return char_lt(x[i], y[i]);
        }
        assert(a@.skip(i as int).drop_first() =~= a@.skip(i + 1));
        assert(b@.skip(i as int).drop_first() =~= b@.skip(i + 1));
        i = i + 1;
    }
    i == x.len()
}

/// Whether a character is white space in the sense of Unicode.
pub open spec fn is_white(c: char) -> bool {
    ('\u{9}' <= c && c <= '\u{d}') || c == ' ' || c == '\u{85}' || c == '\u{a0}' || c
        == '\u{1680}' || ('\u{2000}' <= c && c <= '\u{200a}') || c == '\u{2028}' || c == '\u{2029}'
        || c == '\u{202f}' || c == '\u{205f}' || c == '\u{3000}'
}

/// Whether a character is white space in the sense of Unicode.
pub fn white(c: char) -> (r: bool)
    ensures
        r == is_white(c),
{
    ('\u{9}' <= c && c <= '\u{d}') || c == ' ' || c == '\u{85}' || c == '\u{a0}' || c == '\u{1680}'
        || ('\u{2000}' <= c && c <= '\u{200a}') || c == '\u{2028}' || c == '\u{2029}' || c
        == '\u{202f}' || c == '\u{205f}' || c == '\u{3000}'
}

/// The words of a text, where `word` is the one that its end may continue:
/// the longest runs of characters that are not white space.
pub open spec fn words_from(word: Seq<char>, s: Seq<char>) -> Seq<Seq<char>>
    decreases s.len(),
{
    if s.len() == 0 {
        if word.len() == 0 {
            Seq::empty()
        } else {
            seq![word]
        }
    } else if is_white(s[0]) {
        if word.len() == 0 {
            words_from(word, s.drop_first())
        } else {
            seq![word] + words_from(Seq::empty(), s.drop_first())
        }
    } else {
        words_from(word.push(s[0]), s.drop_first())
    }
}

/// The words of a text.
pub open spec fn words(s: Seq<char>) -> Seq<Seq<char>> {
    words_from(Seq::empty(), s)
}

/// The words of a text.
pub fn split_words(s: &str) -> (r: Vec<String>)
    ensures
        r.deep_view() == words(s@),
{
    let chars = chars_of(s);
    let mut out: Vec<String> = Vec::new();
    let mut word = String::new();
    let mut i: usize = 0;
    assert(s@.skip(0) =~= s@);
    assert(out.deep_view() =~= Seq::<Seq<char>>::empty());
    assert(out.deep_view() + words_from(word@, s@.skip(0)) =~= words(s@));
    while i < chars.len()
        invariant
            chars@ == s@,
            i <= chars.len(),
            out.deep_view() + words_from(word@, s@.skip(i as int)) == words(s@),
        decreases chars.len() - i,
    {
        let c: char = chars[i];
        let ghost before = out.deep_view();
        proof {
            assert(s@.skip(i as int)[0] == c);
            assert(s@.skip(i as int).drop_first() =~= s@.skip(i + 1));
        }
        if white(c) {
            if !word.as_str().is_empty() {
                let ghost w = word@;
                let ghost rest = words_from(Seq::empty(), s@.skip(i + 1));
                out.push(word);
                word = String::new();
                proof {
                    assert(out.deep_view() =~= before.push(w));
                    assert(before + (seq![w] + rest) =~= before.push(w) + rest);
                }
            }
        } else {
            word.push(c);
        }
        i = i + 1;
    }
    let ghost before = out.deep_view();
    assert(s@.skip(i as int) =~= Seq::<char>::empty());
    if !word.as_str().is_empty() {
        let ghost w = word@;
        out.push(word);
        assert(out.deep_view() =~= before.push(w));
        assert(before + seq![w] =~= before.push(w));
    } else {
        assert(before + Seq::<Seq<char>>::empty() =~= before);
    }
    out
}

/// A text with each double quote doubled.
pub open spec fn doubled(s: Seq<char>) -> Seq<char>
    decreases s.len(),
{
    if s.len() == 0 {
        s
    } else if s.last() == '"' {
        doubled(s.drop_last()).push('"').push('"')
    } else {
        doubled(s.drop_last()).push(s.last())
    }
}

/// A text as a quoted phrase.
pub open spec fn quoted(s: Seq<char>) -> Seq<char> {
    seq!['"'] + doubled(s) + seq!['"']
}

/// Phrases for the words, one space between them.
pub open spec fn phrases(words: Seq<Seq<char>>) -> Seq<char>
    decreases words.len(),
{
    if words.len() == 0 {
        Seq::empty()
    } else if words.len() == 1 {
        quoted(words[0])
    } else {
        phrases(words.drop_last()) + seq![' '] + quoted(words.last())
    }
}

fn push_quoted(out: &mut String, word: &str)
    ensures
        final(out)@ == old(out)@ + quoted(word@),
{
    let ghost before = out@;
    let chars = chars_of(word);
    out.push('"');
    let mut i: usize = 0;
    assert(out@ =~= before + (seq!['"'] + doubled(word@.take(0))));
    while i < chars.len()
        invariant
            chars@ == word@,
            i <= chars.len(),
            out@ == before + (seq!['"'] + doubled(word@.take(i as int))),
        decreases chars.len() - i,
    {
        let c: char = chars[i];
        let ghost done = doubled(word@.take(i as int));
        proof {
            assert(word@.take(i + 1).drop_last() =~= word@.take(i as int));
            assert(word@.take(i + 1).last() == c);
        }
        if c == '"' {
            out.push('"');
            out.push('"');
            assert(out@ =~= before + (seq!['"'] + done.push('"').push('"')));
        } else {
            out.push(c);
            assert(out@ =~= before + (seq!['"'] + done.push(c)));
        }
        i = i + 1;
    }
    out.push('"');
    assert(word@.take(i as int) =~= word@);
    assert(out@ =~= before + quoted(word@));
}

/// The full-text query for a search text: every word is a quoted phrase, so
/// that punctuation in it has no meaning; a double quote in it is doubled.
pub fn match_query(query_text: &str) -> (r: String)
    ensures
        r@ == phrases(words(query_text@)),
{
    let tokens = split_words(query_text);
    let ghost all = tokens.deep_view();
    let mut out = String::new();
    let mut i: usize = 0;
    assert(all.take(0) =~= Seq::<Seq<char>>::empty());
    while i < tokens.len()
        invariant
            i <= tokens.len(),
            all == tokens.deep_view(),
            out@ == phrases(all.take(i as int)),
        decreases tokens.len() - i,
    {
        proof {
            assert(all.take(i + 1).drop_last() =~= all.take(i as int));
            assert(all.take(i + 1).last() == all[i as int]);
            assert(all.take(i + 1)[0] == all[0]);
        }
        if i > 0 {
            out.push(' ');
            assert(out@ =~= phrases(all.take(i as int)) + seq![' ']);
        } else {
            assert(out@ + quoted(all[0]) =~= quoted(all[0]));
        }
        push_quoted(&mut out, tokens[i].as_str());
        i = i + 1;
    }
    assert(all.take(i as int) =~= all);
    out
}

/// A text with each pair of double quotes made one.
pub open spec fn undoubled(s: Seq<char>) -> Seq<char>
    decreases s.len(),
{
    if s.len() == 0 {
        s
    } else if s.last() == '"' && s.len() >= 2 {
        undoubled(s.drop_last().drop_last()).push('"')
    } else {
        undoubled(s.drop_last()).push(s.last())
    }
}

/// The inside of a quoted phrase reads back as the text, and every double quote
/// in it is one of a pair: nothing in a text can end its phrase early.
pub proof fn law_quoted_reads_back(s: Seq<char>)
    ensures
        quoted(s).len() >= 2,
        quoted(s)[0] == '"',
        quoted(s).last() == '"',
        quoted(s).subrange(1, quoted(s).len() - 1) == doubled(s),
        undoubled(doubled(s)) == s,
    decreases s.len(),
{
    assert(quoted(s).subrange(1, quoted(s).len() - 1) =~= doubled(s));
    if s.len() > 0 {
        law_quoted_reads_back(s.drop_last());
        let init = doubled(s.drop_last());
        assert(s =~= s.drop_last().push(s.last()));
        if s.last() == '"' {
            let d = init.push('"').push('"');
            assert(d.drop_last().drop_last() =~= init);
        } else {
            let d = init.push(s.last());
            assert(d.drop_last() =~= init);
        }
    }
}

/// A line without the carriage return at its end.
pub open spec fn without_return(line: Seq<char>) -> Seq<char> {
    if line.len() > 0 && line.last() == '\r' {
        line.drop_last()
    } else {
        line
    }
}

/// The lines of a text, where `line` is the one that its front continues. A line
/// ends with a line feed or a carriage return and a line feed; the last may end
/// with the text.
pub open spec fn lines_from(line: Seq<char>, s: Seq<char>) -> Seq<Seq<char>>
    decreases s.len(),
{
    if s.len() == 0 {
        if line.len() == 0 {
            Seq::empty()
        } else {
            seq![line]
        }
    } else if s[0] == '\n' {
        seq![without_return(line)] + lines_from(Seq::empty(), s.drop_first())
    } else {
        lines_from(line.push(s[0]), s.drop_first())
    }
}

/// The lines of a text.
pub open spec fn lines(s: Seq<char>) -> Seq<Seq<char>> {
    lines_from(Seq::empty(), s)
}

fn end_line(line: &Vec<char>) -> (r: String)
    ensures
        r@ == without_return(line@),
{
    let n: usize = line.len();
    if n > 0 && line[n - 1] == '\r' {
        let r = slice_of(line, 0, n - 1);
        assert(line@.subrange(0, n - 1) =~= line@.drop_last());
        r
    } else {
        text_of(line)
    }
}

/// The lines of a text.
pub fn split_lines(s: &str) -> (r: Vec<String>)
    ensures
        r.deep_view() == lines(s@),
{
    let chars = chars_of(s);
    let mut out: Vec<String> = Vec::new();
    let mut line: Vec<char> = Vec::new();
    let mut i: usize = 0;
    assert(s@.skip(0) =~= s@);
    assert(out.deep_view() =~= Seq::<Seq<char>>::empty());
    assert(line@ =~= Seq::<char>::empty());
    assert(out.deep_view() + lines_from(line@, s@.skip(0)) =~= lines(s@));
    while i < chars.len()
        invariant
            chars@ == s@,
            i <= chars.len(),
            out.deep_view() + lines_from(line@, s@.skip(i as int)) == lines(s@),
        decreases chars.len() - i,
    {
        let c: char = chars[i];
        let ghost before = out.deep_view();
        proof {
            assert(s@.skip(i as int)[0] == c);
            assert(s@.skip(i as int).drop_first() =~= s@.skip(i + 1));
        }
        if c == '\n' {
            let ended = end_line(&line);
            let ghost w = ended@;
            let ghost rest = lines_from(Seq::empty(), s@.skip(i + 1));
            out.push(ended);
            line = Vec::new();
            proof {
                assert(line@ =~= Seq::<char>::empty());
                assert(out.deep_view() =~= before.push(w));
                assert(before + (seq![w] + rest) =~= before.push(w) + rest);
            }
        } else {
            line.push(c);
        }
        i = i + 1;
    }
    let ghost before = out.deep_view();
    assert(s@.skip(i as int) =~= Seq::<char>::empty());
    if line.len() > 0 {
        let last = text_of(&line);
        let ghost w = last@;
        out.push(last);
        assert(out.deep_view() =~= before.push(w));
        assert(before + seq![w] =~= before.push(w));
    } else {
        assert(before + Seq::<Seq<char>>::empty() =~= before);
    }
    out
}

/// Whether a text is blank.
pub open spec fn is_blank(s: Seq<char>) -> bool {
    forall|i: int| 0 <= i < s.len() ==> is_white(#[trigger] s[i])
}

/// Whether a text is blank.
pub fn blank(s: &str) -> (r: bool)
    ensures
        r == is_blank(s@),
{
    let chars = chars_of(s);
    let mut i: usize = 0;
    while i < chars.len()
        invariant
            chars@ == s@,
            i <= chars.len(),
            forall|k: int| 0 <= k < i ==> is_white(#[trigger] s@[k]),
        decreases chars.len() - i,
    {
        if !white(chars[i]) {
            assert(!is_white(s@[i as int]));
            return false;
        }
        i = i + 1;
    }
    true
}

/// Whether a text fits one line: it holds no line feed or carriage return, and
/// begins with a character that is not white space.
pub open spec fn is_one_line(s: Seq<char>) -> bool {
    s.len() > 0 && !is_white(s[0]) && !s.contains('\n') && !s.contains('\r')
}

/// A text within one line continues a line.
proof fn lemma_within_line(line: Seq<char>, s: Seq<char>, rest: Seq<char>)
    requires
        !s.contains('\n'),
    ensures
        lines_from(line, s + rest) == lines_from(line + s, rest),
    decreases s.len(),
{
    if s.len() == 0 {
        assert(s + rest =~= rest);
        assert(line + s =~= line);
    } else {
        assert((s + rest)[0] == s[0]);
        assert(s.contains(s[0]));
        assert((s + rest).drop_first() =~= s.drop_first() + rest);
        assert forall|c: char| s.drop_first().contains(c) implies s.contains(c) by {
            let k = choose|k: int| 0 <= k < s.len() - 1 && s.drop_first()[k] == c;
            assert(s[k + 1] == c);
        }
        lemma_within_line(line.push(s[0]), s.drop_first(), rest);
        assert(line.push(s[0]) + s.drop_first() =~= line + s);
    }
}

/// What follows whole lines begins a line of its own.
proof fn lemma_after_lines(line: Seq<char>, s: Seq<char>, rest: Seq<char>)
    requires
        s.len() > 0 ==> s.last() == '\n',
        s.len() == 0 ==> line.len() == 0,
    ensures
        lines_from(line, s + rest) == lines_from(line, s) + lines(rest),
    decreases s.len(),
{
    if s.len() == 0 {
        assert(s + rest =~= rest);
        assert(line =~= Seq::<char>::empty());
        assert(lines_from(line, s) + lines(rest) =~= lines(rest));
    } else {
        assert((s + rest)[0] == s[0]);
        assert((s + rest).drop_first() =~= s.drop_first() + rest);
        if s[0] == '\n' {
            let head = seq![without_return(line)];
            lemma_after_lines(Seq::empty(), s.drop_first(), rest);
            assert(head + (lines_from(Seq::empty(), s.drop_first()) + lines(rest)) =~= (head
                + lines_from(Seq::empty(), s.drop_first())) + lines(rest));
        } else {
            lemma_after_lines(line.push(s[0]), s.drop_first(), rest);
        }
    }
}

/// A line put below whole lines is the last of the lines.
pub proof fn law_line_reads_back(s: Seq<char>, line: Seq<char>)
    requires
        s.len() > 0 ==> s.last() == '\n',
        is_one_line(line),
    ensures
        lines(s + line + seq!['\n']) == lines(s).push(line),
{
    let feed = seq!['\n'];
    lemma_after_lines(Seq::empty(), s, line + feed);
    assert(s + line + feed =~= s + (line + feed));
    lemma_within_line(Seq::empty(), line, feed);
    assert(Seq::<char>::empty() + line =~= line);
    assert(line.contains(line.last()));
    assert(feed.drop_first() =~= Seq::<char>::empty());
    reveal_with_fuel(lines_from, 3);
    assert(lines_from(line, feed) =~= seq![line]);
    assert(lines(s) + seq![line] =~= lines(s).push(line));
}

} // verus!
