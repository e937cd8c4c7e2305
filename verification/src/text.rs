//! Text as the library reads and writes it: the lines and columns of command
//! output, decimal numbers, and the order in which names are sorted.
use vstd::prelude::*;
use vstd::string::*;

use crate::list::put;

verus! {

/// What a string holds: its characters.
pub type Text = Seq<char>;

/// `str::eq`: whether two strings hold the same characters.
pub assume_specification[ <str as PartialEq>::eq ](a: &str, b: &str) -> (same: bool)
    ensures
        same == (a@ == b@),
;

/// `String::push`: the character is added behind what the string held.
pub assume_specification[ String::push ](s: &mut String, c: char)
    ensures
        final(s)@ == old(s)@.push(c),
;

// ---------- characters ----------

/// The characters with Unicode's White_Space property.
pub open spec fn is_space(c: char) -> bool {
    ||| '\u{9}' <= c <= '\u{d}'
    ||| c == '\u{20}'
    ||| c == '\u{85}'
    ||| c == '\u{a0}'
    ||| c == '\u{1680}'
    ||| '\u{2000}' <= c <= '\u{200a}'
    ||| c == '\u{2028}'
    ||| c == '\u{2029}'
    ||| c == '\u{202f}'
    ||| c == '\u{205f}'
    ||| c == '\u{3000}'
}

/// Whether a character is white space.
pub fn space(c: char) -> (answer: bool)
    ensures
        answer == is_space(c),
{
    ('\u{9}' <= c && c <= '\u{d}') || c == '\u{20}' || c == '\u{85}' || c == '\u{a0}' || c
        == '\u{1680}' || ('\u{2000}' <= c && c <= '\u{200a}') || c == '\u{2028}' || c == '\u{2029}'
        || c == '\u{202f}' || c == '\u{205f}' || c == '\u{3000}'
}

/// The characters of a string, one by one.
pub fn chars_of(s: &str) -> (chars: Vec<char>)
    ensures
        chars@ == s@,
{
    let mut chars: Vec<char> = Vec::new();
    for c in it: s.chars()
        invariant
            it.seq() == s@,
            chars@ == s@.take(it.index() as int),
    {
        chars.push(c);
    }
    chars
}

/// The string made of the characters from `from` up to `to`.
pub fn text_between(chars: &Vec<char>, from: usize, to: usize) -> (s: String)
    requires
        from <= to <= chars@.len(),
    ensures
        s@ == chars@.subrange(from as int, to as int),
{
    let mut s = String::new();
    let mut i: usize = from;
    while i < to
        invariant
            from <= i <= to <= chars@.len(),
            s@ == chars@.subrange(from as int, i as int),
        decreases to - i,
    {
        s.push(chars[i]);
        i = i + 1;
    }
    s
}

// ---------- splitting ----------

/// The character is the separator `sep`.
pub open spec fn is_sep(sep: char) -> spec_fn(char) -> bool {
    |c: char| c == sep
}

/// The character is white space.
pub open spec fn is_gap() -> spec_fn(char) -> bool {
    |c: char| is_space(c)
}

/// The pieces between the characters that `cut` picks out: always at least
/// one, and empty ones where two such characters meet.
pub open spec fn pieces(s: Text, cut: spec_fn(char) -> bool) -> Seq<Text>
    decreases s.len(),
{
    if s.len() == 0 {
        seq![s]
    } else {
        let before = pieces(s.drop_last(), cut);
        if cut(s.last()) {
            before.push(Seq::empty())
        } else {
            before.drop_last().push(before.last().push(s.last()))
        }
    }
}

/// There is always a piece.
pub proof fn lemma_pieces_nonempty(s: Text, cut: spec_fn(char) -> bool)
    ensures
        pieces(s, cut).len() > 0,
    decreases s.len(),
{
    if s.len() > 0 {
        lemma_pieces_nonempty(s.drop_last(), cut);
    }
}

/// The text split at every `sep`.
pub open spec fn split_at(s: Text, sep: char) -> Seq<Text> {
    pieces(s, is_sep(sep))
}

/// What stands before the first `sep`, or the whole text where there is none.
pub open spec fn before_first(s: Text, sep: char) -> Text {
    split_at(s, sep)[0]
}

/// What stands before the first `sep` does not hold it.
pub proof fn lemma_before_first(s: Text, sep: char)
    ensures
        !before_first(s, sep).contains(sep),
    decreases s.len(),
{
    if s.len() > 0 {
        lemma_before_first(s.drop_last(), sep);
        lemma_pieces_nonempty(s.drop_last(), is_sep(sep));
        let before = split_at(s.drop_last(), sep);
        if s.last() != sep && before.len() == 1 {
            assert(before_first(s, sep) == before[0].push(s.last()));
            assert(!before[0].contains(sep));
            assert forall|i: int| 0 <= i < before[0].push(s.last()).len() implies before[0].push(
                s.last(),
            )[i] != sep by {
                if i < before[0].len() {
                    assert(before[0].push(s.last())[i] == before[0][i]);
                }
            }
        } else {
            assert(before_first(s, sep) == before[0]);
        }
    }
}

/// A text without `sep` is all that stands before the first one behind it.
pub proof fn lemma_before_sep(a: Text, sep: char, b: Text)
    requires
        !a.contains(sep),
    ensures
        before_first(a + seq![sep] + b, sep) == a,
    decreases b.len(),
{
    let s = a + seq![sep] + b;
    lemma_pieces_nonempty(s.drop_last(), is_sep(sep));
    if b.len() == 0 {
        assert(s.drop_last() == a);
        lemma_one_piece(a, sep);
    } else {
        assert(s.drop_last() == a + seq![sep] + b.drop_last());
        lemma_before_sep(a, sep, b.drop_last());
        lemma_two_pieces(a, sep, b.drop_last());
    }
}

/// A text without `sep` is one piece.
proof fn lemma_one_piece(a: Text, sep: char)
    requires
        !a.contains(sep),
    ensures
        split_at(a, sep) == seq![a],
    decreases a.len(),
{
    if a.len() > 0 {
        assert forall|i: int| 0 <= i < a.drop_last().len() implies a.drop_last()[i] != sep by {
            assert(a[i] != sep);
        }
        lemma_one_piece(a.drop_last(), sep);
        assert(a.contains(a.last()));
        assert(a == a.drop_last().push(a.last()));
    }
}

/// A text with `sep` in it has more than one piece.
proof fn lemma_two_pieces(a: Text, sep: char, b: Text)
    ensures
        split_at(a + seq![sep] + b, sep).len() > 1,
    decreases b.len(),
{
    let s = a + seq![sep] + b;
    if b.len() == 0 {
        assert(s.drop_last() == a);
        lemma_pieces_nonempty(a, is_sep(sep));
    } else {
        assert(s.drop_last() == a + seq![sep] + b.drop_last());
        lemma_two_pieces(a, sep, b.drop_last());
    }
}

/// The runs of characters that are not white space.
pub open spec fn words_of(s: Text) -> Seq<Text> {
    pieces(s, is_gap()).filter(|w: Text| w.len() > 0)
}

/// The parts of `s` between the separators.
pub fn split(s: &str, sep: char) -> (parts: Vec<String>)
    ensures
        parts.deep_view() == split_at(s@, sep),
        parts@.len() > 0,
{
    let chars = chars_of(s);
    let mut parts: Vec<String> = Vec::new();
    let mut current = String::new();
    let mut i: usize = 0;
    assert(s@.take(0) == Seq::<char>::empty());
    while i < chars.len()
        invariant
            i <= chars@.len(),
            chars@ == s@,
            parts.deep_view().push(current@) == split_at(s@.take(i as int), sep),
        decreases chars@.len() - i,
    {
        let ghost before = split_at(s@.take(i as int), sep);
        assert(s@.take(i + 1).drop_last() == s@.take(i as int));
        assert(before.drop_last() == parts.deep_view());
        if chars[i] == sep {
            parts.push(current);
            current = String::new();
            assert(parts.deep_view() == before);
        } else {
            current.push(chars[i]);
        }
        i = i + 1;
    }
    assert(s@.take(i as int) == s@);
    parts.push(current);
    parts
}

/// What stands in `s` before the first `sep`.
pub fn head(s: &str, sep: char) -> (part: String)
    ensures
        part@ == before_first(s@, sep),
{
    let mut parts = split(s, sep);
    let ghost all = parts.deep_view();
    let part = parts.remove(0);
    assert(part@ == all[0]);
    part
}

/// The words of `s`: what white space separates.
pub fn split_words(s: &str) -> (words: Vec<String>)
    ensures
        words.deep_view() == words_of(s@),
{
    let chars = chars_of(s);
    let mut words: Vec<String> = Vec::new();
    let mut current = String::new();
    let mut i: usize = 0;
    let ghost kept = |w: Text| w.len() > 0;
    assert(s@.take(0) == Seq::<char>::empty());
    proof {
        assert(pieces(s@.take(0), is_gap()).drop_last() == Seq::<Text>::empty());
        reveal(Seq::filter);
    }
    while i < chars.len()
        invariant
            i <= chars@.len(),
            chars@ == s@,
            kept == (|w: Text| w.len() > 0),
            pieces(s@.take(i as int), is_gap()).len() > 0,
            pieces(s@.take(i as int), is_gap()).last() == current@,
            words.deep_view() == pieces(s@.take(i as int), is_gap()).drop_last().filter(kept),
        decreases chars@.len() - i,
    {
        let ghost before = pieces(s@.take(i as int), is_gap());
        assert(s@.take(i + 1).drop_last() == s@.take(i as int));
        if space(chars[i]) {
            proof {
                assert(before.push(Seq::empty()).drop_last() == before);
                assert(before == before.drop_last().push(current@));
                lemma_filter_push(before.drop_last(), kept, current@);
            }
            if !current.as_str().is_empty() {
                words.push(current);
            }
            current = String::new();
        } else {
            current.push(chars[i]);
            assert(before.drop_last().push(current@).drop_last() == before.drop_last());
        }
        i = i + 1;
    }
    proof {
        assert(s@.take(i as int) == s@);
        let all = pieces(s@, is_gap());
        assert(all == all.drop_last().push(current@));
        lemma_filter_push(all.drop_last(), kept, current@);
    }
    if !current.as_str().is_empty() {
        words.push(current);
    }
    words
}

/// Filtering a sequence with one more element.
pub proof fn lemma_filter_push<A>(s: Seq<A>, keep: spec_fn(A) -> bool, e: A)
    ensures
        s.push(e).filter(keep) == if keep(e) {
            s.filter(keep).push(e)
        } else {
            s.filter(keep)
        },
{
    reveal(Seq::filter);
    assert(s.push(e).drop_last() == s);
}

/// A filter keeps exactly what it lets through.
pub proof fn lemma_filter_contains<A>(s: Seq<A>, keep: spec_fn(A) -> bool, e: A)
    ensures
        s.filter(keep).contains(e) <==> s.contains(e) && keep(e),
    decreases s.len(),
{
    reveal(Seq::filter);
    if s.len() > 0 {
        let front = s.drop_last();
        lemma_filter_contains(front, keep, e);
        lemma_filter_push(front, keep, s.last());
        assert(s == front.push(s.last()));
        let kept = front.filter(keep);
        if s.contains(e) {
            let i = choose|i: int| 0 <= i < s.len() && s[i] == e;
            if i < front.len() {
                assert(front[i] == e);
            }
        }
        if front.contains(e) {
            let i = choose|i: int| 0 <= i < front.len() && front[i] == e;
            assert(s[i] == e);
        }
        assert(s.contains(s.last()));
        if kept.contains(e) {
            let i = choose|i: int| 0 <= i < kept.len() && kept[i] == e;
            assert(s.filter(keep)[i] == e);
        }
        if keep(s.last()) {
            assert(s.filter(keep)[kept.len() as int] == s.last());
        }
        if s.filter(keep).contains(e) {
            let i = choose|i: int| 0 <= i < s.filter(keep).len() && s.filter(keep)[i] == e;
            if i < kept.len() {
                assert(kept[i] == e);
            }
        }
    }
}

/// The lines of a text, without their line ends: a final line end opens no
/// further line, and a carriage return in front of a line end is part of it.
pub open spec fn lines_of(s: Text) -> Seq<Text> {
    let parts = split_at(s, '\n');
    let ended = Seq::new((parts.len() - 1) as nat, |i: int| without_return(parts[i]));
    if parts.last().len() == 0 {
        ended
    } else {
        ended.push(parts.last())
    }
}

/// The text without a carriage return at its end.
pub open spec fn without_return(s: Text) -> Text {
    if s.len() > 0 && s.last() == '\r' {
        s.drop_last()
    } else {
        s
    }
}

/// `s` without a carriage return at its end.
fn drop_return(s: &str) -> (line: String)
    ensures
        line@ == without_return(s@),
{
    let chars = chars_of(s);
    let n: usize = chars.len();
    if n > 0 && chars[n - 1] == '\r' {
        text_between(&chars, 0, n - 1)
    } else {
        text_between(&chars, 0, n)
    }
}

/// The lines of `s`.
pub fn lines(s: &str) -> (all: Vec<String>)
    ensures
        all.deep_view() == lines_of(s@),
{
    let parts = split(s, '\n');
    let mut all: Vec<String> = Vec::new();
    let ghost model = parts.deep_view();
    let mut i: usize = 0;
    while i < parts.len() - 1
        invariant
            0 < parts@.len(),
            i < parts@.len(),
            model == parts.deep_view(),
            all.deep_view() == Seq::new(i as nat, |j: int| without_return(model[j])),
        decreases parts@.len() - i,
    {
        assert(parts@[i as int]@ == model[i as int]);
        put(&mut all, drop_return(parts[i].as_str()));
        i = i + 1;
    }
    assert(parts@[i as int]@ == model.last());
    if !parts[i].as_str().is_empty() {
        put(&mut all, parts[i].clone());
    }
    all
}

// ---------- trimming ----------

/// The text without the white space in front of it.
pub open spec fn trimmed_front(s: Text) -> Text
    decreases s.len(),
{
    if s.len() > 0 && is_space(s.first()) {
        trimmed_front(s.drop_first())
    } else {
        s
    }
}

/// The text without the white space behind it.
pub open spec fn trimmed_back(s: Text) -> Text
    decreases s.len(),
{
    if s.len() > 0 && is_space(s.last()) {
        trimmed_back(s.drop_last())
    } else {
        s
    }
}

/// The text without the white space around it.
pub open spec fn trimmed(s: Text) -> Text {
    trimmed_back(trimmed_front(s))
}

/// `s` without the white space around it.
pub fn trim(s: &str) -> (t: String)
    ensures
        t@ == trimmed(s@),
{
    let chars = chars_of(s);
    let mut from: usize = 0;
    assert(s@.skip(0) == s@);
    while from < chars.len() && space(chars[from])
        invariant
            from <= chars@.len(),
            chars@ == s@,
            trimmed_front(s@) == trimmed_front(s@.skip(from as int)),
        decreases chars@.len() - from,
    {
        assert(s@.skip(from as int).drop_first() == s@.skip(from + 1));
        from = from + 1;
    }
    let ghost rest = s@.skip(from as int);
    let mut to: usize = chars.len();
    assert(s@.subrange(from as int, to as int) == rest);
    while from < to && space(chars[to - 1])
        invariant
            from <= to <= chars@.len(),
            chars@ == s@,
            trimmed_back(rest) == trimmed_back(s@.subrange(from as int, to as int)),
        decreases to,
    {
        let ghost cut = s@.subrange(from as int, to as int);
        assert(cut.drop_last() == s@.subrange(from as int, to - 1));
        to = to - 1;
    }
    text_between(&chars, from, to)
}

// ---------- joining ----------

/// The parts with `sep` between each two of them.
pub open spec fn joined(parts: Seq<Text>, sep: Text) -> Text
    decreases parts.len(),
{
    if parts.len() == 0 {
        Seq::empty()
    } else if parts.len() == 1 {
        parts[0]
    } else {
        joined(parts.drop_last(), sep) + sep + parts.last()
    }
}

/// The parts with `sep` between each two of them.
pub fn join(parts: &[String], sep: &str) -> (s: String)
    ensures
        s@ == joined(parts.deep_view(), sep@),
{
    let mut s = String::new();
    let mut i: usize = 0;
    let ghost model = parts.deep_view();
    while i < parts.len()
        invariant
            i <= parts@.len(),
            model == parts.deep_view(),
            s@ == joined(model.take(i as int), sep@),
        decreases parts@.len() - i,
    {
        assert(model.take(i + 1).drop_last() == model.take(i as int));
        assert(parts@[i as int]@ == model[i as int]);
        if i > 0 {
            s.append(sep);
        }
        s.append(parts[i].as_str());
        i = i + 1;
    }
    assert(model.take(i as int) == model);
    s
}

/// The strings in `words`, owned.
pub fn owned(words: Vec<&str>) -> (all: Vec<String>)
    ensures
        all.deep_view() == words.deep_view(),
{
    let mut all: Vec<String> = Vec::new();
    let mut i: usize = 0;
    while i < words.len()
        invariant
            i <= words@.len(),
            all.deep_view() == words.deep_view().take(i as int),
        decreases words@.len() - i,
    {
        assert(words.deep_view()[i as int] == words@[i as int]@);
        put(&mut all, words[i].to_owned());
        i = i + 1;
    }
    all
}

/// `a` with `b` behind it.
pub fn concat2(a: &str, b: &str) -> (s: String)
    ensures
        s@ == a@ + b@,
{
    let mut s = a.to_owned();
    s.append(b);
    s
}

// ---------- numbers ----------

/// The decimal digit of a value below ten.
pub open spec fn digit_char(d: nat) -> char {
    (48 + d) as char
}

/// A number in decimal notation, without leading zeros.
pub open spec fn decimal(n: nat) -> Text
    decreases n,
{
    if n < 10 {
        seq![digit_char(n)]
    } else {
        decimal(n / 10).push(digit_char(n % 10))
    }
}

/// `n` in decimal notation.
pub fn decimal_text(n: u64) -> (s: String)
    ensures
        s@ == decimal(n as nat),
    decreases n,
{
    let digit = (48u8 + (n % 10) as u8) as char;
    if n < 10 {
        let mut s = String::new();
        s.push(digit);
        s
    } else {
        let mut s = decimal_text(n / 10);
        s.push(digit);
        s
    }
}

/// The character is a decimal digit.
pub open spec fn is_digit(c: char) -> bool {
    '0' <= c <= '9'
}

/// The value of a row of decimal digits.
pub open spec fn digits_value(s: Text) -> nat
    decreases s.len(),
{
    if s.len() == 0 {
        0
    } else {
        10 * digits_value(s.drop_last()) + (s.last() as nat - 48) as nat
    }
}

/// The text is a row of one or more decimal digits.
pub open spec fn all_digits(s: Text) -> bool {
    &&& s.len() > 0
    &&& forall|i: int| 0 <= i < s.len() ==> is_digit(#[trigger] s[i])
}

/// The text without a plus sign in front of it.
pub open spec fn unsigned_part(s: Text) -> Text {
    if s.len() > 0 && s.first() == '+' {
        s.drop_first()
    } else {
        s
    }
}

/// The number that a text stands for: a row of decimal digits, with or without
/// a plus sign in front, of a value up to `max`.
pub open spec fn number(s: Text, max: nat) -> Option<nat> {
    let digits = unsigned_part(s);
    if all_digits(digits) && digits_value(digits) <= max {
        Some(digits_value(digits))
    } else {
        None
    }
}

/// A row of digits is worth at least what its front is worth.
proof fn lemma_front_value(s: Text, n: int)
    requires
        0 <= n <= s.len(),
    ensures
        digits_value(s.take(n)) <= digits_value(s),
    decreases s.len(),
{
    if n < s.len() {
        assert(s.drop_last().take(n) == s.take(n));
        lemma_front_value(s.drop_last(), n);
    } else {
        assert(s.take(n) == s);
    }
}

/// The number that `s` stands for, where it is at most `max`.
pub fn parse_up_to(s: &str, max: u64) -> (n: Option<u64>)
    ensures
        match n {
            Some(v) => number(s@, max as nat) == Some(v as nat),
            None => number(s@, max as nat) is None,
        },
{
    let chars = chars_of(s);
    let from: usize = if chars.len() > 0 && chars[0] == '+' {
        1
    } else {
        0
    };
    let ghost digits = unsigned_part(s@);
    assert(digits == s@.skip(from as int));
    if from == chars.len() {
        return None;
    }
    let mut value: u64 = 0;
    let mut i: usize = from;
    assert(digits.take(0) == Seq::<char>::empty());
    while i < chars.len()
        invariant
            from <= i <= chars@.len(),
            chars@ == s@,
            digits == unsigned_part(s@),
            digits == s@.skip(from as int),
            digits.len() > 0,
            value == digits_value(digits.take(i - from)),
            value <= max,
            forall|j: int| 0 <= j < i - from ==> is_digit(#[trigger] digits[j]),
        decreases chars@.len() - i,
    {
        let c = chars[i];
        assert(digits[i - from] == c);
        if c < '0' || '9' < c {
            return None;
        }
        assert(digits.take(i + 1 - from).drop_last() == digits.take(i - from));
        let next: u128 = 10 * (value as u128) + (c as u128 - 48);
        if next > max as u128 {
            proof {
                lemma_front_value(digits, i + 1 - from);
            }
            return None;
        }
        value = next as u64;
        i = i + 1;
    }
    assert(digits.take(i - from) == digits);
    Some(value)
}

/// The `u64` that `s` stands for.
pub fn parse_u64(s: &str) -> (n: Option<u64>)
    ensures
        match n {
            Some(v) => number(s@, u64::MAX as nat) == Some(v as nat),
            None => number(s@, u64::MAX as nat) is None,
        },
{
    parse_up_to(s, u64::MAX)
}

/// The `u16` that `s` stands for.
pub fn parse_u16(s: &str) -> (n: Option<u16>)
    ensures
        match n {
            Some(v) => number(s@, u16::MAX as nat) == Some(v as nat),
            None => number(s@, u16::MAX as nat) is None,
        },
{
    match parse_up_to(s, 65535) {
        Some(v) => Some(v as u16),
        None => None,
    }
}

/// What is written in decimal notation is read as the same number.
pub proof fn lemma_decimal(n: nat)
    ensures
        all_digits(decimal(n)),
        digits_value(decimal(n)) == n,
        unsigned_part(decimal(n)) == decimal(n),
    decreases n,
{
    let d = digit_char(n % 10);
    assert(is_digit(d) && d as nat == 48 + n % 10);
    if n < 10 {
        assert(decimal(n).drop_last() == Seq::<char>::empty());
        assert(decimal(n).last() == d);
        assert(digits_value(Seq::<char>::empty()) == 0);
        assert(decimal(n).first() != '+');
    } else {
        lemma_decimal(n / 10);
        let front = decimal(n / 10);
        assert(decimal(n).drop_last() == front);
        assert(decimal(n).last() == d);
        assert(10 * (n / 10) + n % 10 == n);
        assert(decimal(n).first() == front.first());
        assert(is_digit(front[0]));
        assert forall|i: int| 0 <= i < decimal(n).len() implies is_digit(
            #[trigger] decimal(n)[i],
        ) by {
            if i < front.len() {
                assert(decimal(n)[i] == front[i]);
            }
        }
    }
}

// ---------- splitting in two ----------

/// The text before and behind the first `sep`.
pub open spec fn cut_first(s: Text, sep: char) -> Option<(Text, Text)> {
    match s.index_of_first(sep) {
        Some(i) => Some((s.take(i), s.skip(i + 1))),
        None => None,
    }
}

/// The text before and behind the last `sep`.
pub open spec fn cut_last(s: Text, sep: char) -> Option<(Text, Text)> {
    match s.index_of_last(sep) {
        Some(i) => Some((s.take(i), s.skip(i + 1))),
        None => None,
    }
}

/// A text is cut at the first `sep`, where nothing before it holds one.
pub proof fn lemma_cut_first(a: Text, sep: char, b: Text)
    requires
        !a.contains(sep),
    ensures
        cut_first(a + seq![sep] + b, sep) == Some((a, b)),
{
    let s = a + seq![sep] + b;
    s.index_of_first_ensures(sep);
    assert(s[a.len() as int] == sep);
    assert(s.contains(sep));
    let i = s.index_of_first(sep)->0;
    if i < a.len() {
        assert(a[i] == s[i]);
    }
    assert(i == a.len());
    assert(s.take(i) == a);
    assert(s.skip(i + 1) == b);
}

/// A text is cut at the last `sep`, where nothing behind it holds one.
pub proof fn lemma_cut_last(a: Text, sep: char, b: Text)
    requires
        !b.contains(sep),
    ensures
        cut_last(a + seq![sep] + b, sep) == Some((a, b)),
{
    let s = a + seq![sep] + b;
    s.index_of_last_ensures(sep);
    assert(s[a.len() as int] == sep);
    assert(s.contains(sep));
    let i = s.index_of_last(sep)->0;
    if i > a.len() {
        assert(b[i - a.len() - 1] == s[i]);
    }
    assert(i == a.len());
    assert(s.take(i) == a);
    assert(s.skip(i + 1) == b);
}

/// What stands before and behind the first `sep` of `s`.
pub fn split_once(s: &str, sep: char) -> (parts: Option<(String, String)>)
    ensures
        parts.deep_view() == cut_first(s@, sep),
{
    let chars = chars_of(s);
    let n: usize = chars.len();
    let mut i: usize = 0;
    proof {
        s@.index_of_first_ensures(sep);
    }
    while i < n
        invariant
            i <= n == chars@.len(),
            chars@ == s@,
            forall|j: int| 0 <= j < i ==> s@[j] != sep,
        decreases n - i,
    {
        if chars[i] == sep {
            assert(s@.contains(sep));
            proof {
                s@.index_of_first_ensures(sep);
                assert(s@.index_of_first(sep) == Some(i as int));
            }
            return Some((text_between(&chars, 0, i), text_between(&chars, i + 1, n)));
        }
        i = i + 1;
    }
    None
}

/// What stands before and behind the last `sep` of `s`.
pub fn rsplit_once(s: &str, sep: char) -> (parts: Option<(String, String)>)
    ensures
        parts.deep_view() == cut_last(s@, sep),
{
    let chars = chars_of(s);
    let n: usize = chars.len();
    let mut i: usize = n;
    proof {
        s@.index_of_last_ensures(sep);
    }
    while i > 0
        invariant
            i <= n == chars@.len(),
            chars@ == s@,
            forall|j: int| i <= j < n ==> s@[j] != sep,
        decreases i,
    {
        i = i - 1;
        if chars[i] == sep {
            assert(s@.contains(sep));
            proof {
                s@.index_of_last_ensures(sep);
                assert(s@.index_of_last(sep) == Some(i as int));
            }
            return Some((text_between(&chars, 0, i), text_between(&chars, i + 1, n)));
        }
    }
    None
}

/// The text begins with `front`.
pub open spec fn begins(s: Text, front: Text) -> bool {
    front.len() <= s.len() && s.take(front.len() as int) == front
}

/// Whether `s` begins with `front`.
pub fn starts_with(s: &str, front: &str) -> (answer: bool)
    ensures
        answer == begins(s@, front@),
{
    let x = chars_of(s);
    let y = chars_of(front);
    if y.len() > x.len() {
        return false;
    }
    let mut i: usize = 0;
    while i < y.len()
        invariant
            i <= y@.len() <= x@.len(),
            x@ == s@,
            y@ == front@,
            forall|j: int| 0 <= j < i ==> s@[j] == front@[j],
        decreases y@.len() - i,
    {
        if x[i] != y[i] {
            assert(s@.take(front@.len() as int)[i as int] != front@[i as int]);
            return false;
        }
        i = i + 1;
    }
    assert(s@.take(front@.len() as int) == front@);
    true
}

// ---------- order ----------

/// The order of texts: character by character, a front before the whole.
pub open spec fn precedes(a: Text, b: Text) -> bool
    decreases a.len(),
{
    if b.len() == 0 {
        false
    } else if a.len() == 0 {
        true
    } else if a[0] != b[0] {
        a[0] < b[0]
    } else {
        precedes(a.drop_first(), b.drop_first())
    }
}

/// Of two different texts one precedes the other, and not both.
pub proof fn lemma_precedes_total(a: Text, b: Text)
    ensures
        precedes(a, b) || precedes(b, a) || a == b,
        !(precedes(a, b) && precedes(b, a)),
        !precedes(a, a),
    decreases a.len(),
{
    if a.len() > 0 && b.len() > 0 {
        lemma_precedes_total(a.drop_first(), b.drop_first());
        if a[0] == b[0] && a.drop_first() == b.drop_first() {
            assert(a == seq![a[0]] + a.drop_first());
            assert(b == seq![b[0]] + b.drop_first());
        }
    } else if a.len() == 0 && b.len() == 0 {
        assert(a == b);
    }
    if a.len() > 0 {
        lemma_precedes_total(a.drop_first(), a.drop_first());
    }
}

/// What precedes a text that precedes another precedes that one too.
pub proof fn lemma_precedes_transitive(a: Text, b: Text, c: Text)
    requires
        precedes(a, b),
        precedes(b, c),
    ensures
        precedes(a, c),
    decreases a.len(),
{
    if a.len() > 0 && a[0] == b[0] && b[0] == c[0] {
        lemma_precedes_transitive(a.drop_first(), b.drop_first(), c.drop_first());
    }
}

/// Whether `a` precedes `b`.
pub fn before(a: &str, b: &str) -> (answer: bool)
    ensures
        answer == precedes(a@, b@),
{
    let x = chars_of(a);
    let y = chars_of(b);
    let mut i: usize = 0;
    assert(x@.skip(0) == x@ && y@.skip(0) == y@);
    loop
        invariant
            i <= x@.len(),
            i <= y@.len(),
            x@ == a@,
            y@ == b@,
            precedes(a@, b@) == precedes(a@.skip(i as int), b@.skip(i as int)),
        decreases x@.len() - i,
    {
        if i == y.len() {
            return false;
        }
        if i == x.len() {
            return true;
        }
        assert(a@.skip(i as int).drop_first() == a@.skip(i + 1));
        assert(b@.skip(i as int).drop_first() == b@.skip(i + 1));
        if x[i] != y[i] {
            return x[i] < y[i];
        }
        i = i + 1;
    }
}

/// The texts stand in order, each behind those that precede it.
pub open spec fn ordered(s: Seq<Text>) -> bool {
    forall|i: int, j: int| 0 <= i < j < s.len() ==> precedes(#[trigger] s[i], #[trigger] s[j])
}

/// Puts `s` in its place among `sorted`, which does not hold it.
pub fn insert_in_order(sorted: &mut Vec<String>, s: String)
    requires
        ordered(old(sorted).deep_view()),
        !old(sorted).deep_view().contains(s@),
    ensures
        ordered(final(sorted).deep_view()),
        final(sorted).deep_view().to_set() == old(sorted).deep_view().to_set().insert(s@),
{
    let ghost model = sorted.deep_view();
    let mut i: usize = 0;
    while i < sorted.len() && before(sorted[i].as_str(), s.as_str())
        invariant
            i <= sorted@.len(),
            model == sorted.deep_view(),
            forall|j: int| 0 <= j < i ==> precedes(#[trigger] model[j], s@),
        decreases sorted@.len() - i,
    {
        assert(model[i as int] == sorted@[i as int]@);
        i = i + 1;
    }
    let ghost text = s@;
    proof {
        if i < sorted@.len() {
            assert(model[i as int] == sorted@[i as int]@);
            lemma_precedes_total(model[i as int], text);
            assert(precedes(text, model[i as int]));
        }
    }
    sorted.insert(i, s);
    proof {
        let result = sorted.deep_view();
        assert(result == model.insert(i as int, text));
        assert forall|a: int, b: int| 0 <= a < b < result.len() implies precedes(
            #[trigger] result[a],
            #[trigger] result[b],
        ) by {
            if a == i {
                if b - 1 > i {
                    lemma_precedes_transitive(text, model[i as int], model[b - 1]);
                }
            } else if b == i {
            } else {
                let p = if a < i { a } else { a - 1 };
                let q = if b < i { b } else { b - 1 };
                assert(precedes(model[p], model[q]));
            }
        }
        assert forall|t: Text| result.contains(t) <==> model.contains(t) || t == text by {
            if model.contains(t) {
                let k = choose|k: int| 0 <= k < model.len() && model[k] == t;
                assert(result[if k < i { k } else { k + 1 }] == t);
            }
            assert(result[i as int] == text);
            if result.contains(t) && t != text {
                let k = choose|k: int| 0 <= k < result.len() && result[k] == t;
                assert(model[if k < i { k } else { k - 1 }] == t);
            }
        }
        assert(result.to_set() =~= model.to_set().insert(text));
    }
}

// ---------- what holds of texts ----------

/// What is white space: among the characters of ASCII the space, the tab and
/// the ends of lines, and none that shows; beyond ASCII the characters with
/// those numbers, and no other.
pub proof fn law_spaces(c: char)
    ensures
        c == ' ' || c == '\t' || c == '\n' || c == '\r' ==> is_space(c),
        '!' <= c <= '~' ==> !is_space(c),
        c as nat <= 31 ==> (is_space(c) <==> 9 <= c as nat <= 13),
        c as nat >= 127 ==> (is_space(c) <==> set![
            133nat,
            160,
            5760,
            8192,
            8193,
            8194,
            8195,
            8196,
            8197,
            8198,
            8199,
            8200,
            8201,
            8202,
            8232,
            8233,
            8239,
            8287,
            12288,
        ].contains(c as nat)),
{
}

/// The pieces of two texts with a cut between them.
proof fn lemma_pieces_cut(a: Text, c: char, b: Text, cut: spec_fn(char) -> bool)
    requires
        cut(c),
    ensures
        pieces(a + seq![c] + b, cut) == pieces(a, cut) + pieces(b, cut),
    decreases b.len(),
{
    let s = a + seq![c] + b;
    lemma_pieces_nonempty(b, cut);
    if b.len() == 0 {
        assert(s.drop_last() == a);
        assert(s.last() == c);
        assert(b == Seq::<char>::empty());
        assert(pieces(s, cut) == pieces(a, cut).push(Seq::empty()));
        assert(pieces(b, cut) == seq![b]);
    } else {
        let front = b.drop_last();
        assert(s.drop_last() == a + seq![c] + front);
        assert(s.last() == b.last());
        lemma_pieces_cut(a, c, front, cut);
        lemma_pieces_nonempty(front, cut);
        let x = pieces(a, cut);
        let y = pieces(front, cut);
        assert((x + y).last() == y.last());
        assert((x + y).drop_last() == x + y.drop_last());
        if cut(b.last()) {
            assert(pieces(s, cut) == (x + y).push(Seq::empty()));
            assert(pieces(b, cut) == y.push(Seq::empty()));
        } else {
            assert(pieces(s, cut) == (x + y.drop_last()).push(y.last().push(b.last())));
            assert(pieces(b, cut) == y.drop_last().push(y.last().push(b.last())));
        }
    }
}

/// A text without a cut is one piece.
proof fn lemma_uncut(a: Text, cut: spec_fn(char) -> bool)
    requires
        forall|i: int| 0 <= i < a.len() ==> !cut(#[trigger] a[i]),
    ensures
        pieces(a, cut) == seq![a],
    decreases a.len(),
{
    if a.len() > 0 {
        let front = a.drop_last();
        assert forall|i: int| 0 <= i < front.len() implies !cut(#[trigger] front[i]) by {
            assert(front[i] == a[i]);
        }
        lemma_uncut(front, cut);
        assert(a == front.push(a.last()));
    }
}

/// A text with a separator in it splits into the parts of what stands before
/// it and those of what stands behind it; one without is a single part.
pub proof fn law_split(a: Text, sep: char, b: Text)
    ensures
        split_at(a + seq![sep] + b, sep) == split_at(a, sep) + split_at(b, sep),
        !a.contains(sep) ==> split_at(a, sep) == seq![a] && before_first(a, sep) == a,
        !a.contains(sep) ==> before_first(a + seq![sep] + b, sep) == a,
{
    lemma_pieces_cut(a, sep, b, is_sep(sep));
    if !a.contains(sep) {
        assert forall|i: int| 0 <= i < a.len() implies !is_sep(sep)(#[trigger] a[i]) by {
            assert(a.contains(a[i]));
        }
        lemma_uncut(a, is_sep(sep));
    }
}

/// Filtering two sequences, one behind the other.
pub proof fn lemma_filter_concat<A>(a: Seq<A>, b: Seq<A>, keep: spec_fn(A) -> bool)
    ensures
        (a + b).filter(keep) == a.filter(keep) + b.filter(keep),
    decreases b.len(),
{
    reveal(Seq::filter);
    if b.len() == 0 {
        assert(a + b == a);
        assert(a.filter(keep) + b.filter(keep) == a.filter(keep));
    } else {
        let front = b.drop_last();
        lemma_filter_concat(a, front, keep);
        assert(a + b == (a + front).push(b.last()));
        assert(b == front.push(b.last()));
        lemma_filter_push(a + front, keep, b.last());
        lemma_filter_push(front, keep, b.last());
    }
}

/// The words of a text with white space in it are those before it and those
/// behind it; a text without any is one word, or none where it is empty.
pub proof fn law_words(a: Text, gap: char, b: Text)
    ensures
        is_space(gap) ==> words_of(a + seq![gap] + b) == words_of(a) + words_of(b),
        a.len() > 0 && (forall|i: int| 0 <= i < a.len() ==> !is_space(#[trigger] a[i]))
            ==> words_of(a) == seq![a],
        words_of(Seq::empty()) == Seq::<Text>::empty(),
{
    let kept = |w: Text| w.len() > 0;
    if is_space(gap) {
        lemma_pieces_cut(a, gap, b, is_gap());
        lemma_filter_concat(pieces(a, is_gap()), pieces(b, is_gap()), kept);
    }
    reveal(Seq::filter);
    if a.len() > 0 && (forall|i: int| 0 <= i < a.len() ==> !is_space(#[trigger] a[i])) {
        lemma_uncut(a, is_gap());
        assert(seq![a] == Seq::<Text>::empty().push(a));
        lemma_filter_push(Seq::<Text>::empty(), kept, a);
    }
    let none: Text = Seq::empty();
    lemma_uncut(none, is_gap());
    assert(seq![none] == Seq::<Text>::empty().push(none));
    lemma_filter_push(Seq::<Text>::empty(), kept, none);
}

/// The first line of a text is what stands before the first line end, without
/// a carriage return, and the others are those of the rest. A text without a
/// line end is one line, or none where it is empty.
pub proof fn law_lines(line: Text, rest: Text)
    requires
        !line.contains('\n'),
    ensures
        lines_of(line + seq!['\n'] + rest) == seq![without_return(line)] + lines_of(rest),
        line.len() > 0 ==> lines_of(line) == seq![line],
        lines_of(Seq::empty()) == Seq::<Text>::empty(),
        without_return(line.push('\r')) == line,
        line.len() > 0 && line.last() != '\r' ==> without_return(line) == line,
{
    law_split(line, '\n', rest);
    law_split(Seq::empty(), '\n', rest);
    lemma_pieces_nonempty(rest, is_sep('\n'));
    let parts = split_at(line + seq!['\n'] + rest, '\n');
    let tail = split_at(rest, '\n');
    assert(parts == seq![line] + tail);
    assert(parts.last() == tail.last());
    assert(Seq::new((parts.len() - 1) as nat, |i: int| without_return(parts[i])) == seq![
        without_return(line),
    ] + Seq::new((tail.len() - 1) as nat, |i: int| without_return(tail[i])));
    assert(lines_of(line + seq!['\n'] + rest) == seq![without_return(line)] + lines_of(rest));
    let single = split_at(line, '\n');
    assert(Seq::new((single.len() - 1) as nat, |i: int| without_return(single[i])) == Seq::<
        Text,
    >::empty());
    assert(line.len() > 0 ==> lines_of(line) == seq![line]);
    let none = split_at(Seq::<char>::empty(), '\n');
    assert(none == seq![Seq::<char>::empty()]);
    assert(lines_of(Seq::empty()) == Seq::<Text>::empty());
    assert(line.push('\r').drop_last() == line);
}

/// There is nothing but white space in the text.
pub open spec fn is_blank(s: Text) -> bool {
    forall|i: int| 0 <= i < s.len() ==> is_space(#[trigger] s[i])
}

/// What is left in front and behind when a text is trimmed.
proof fn lemma_trimmed(s: Text) -> (around: (Text, Text))
    ensures
        s == around.0 + trimmed(s) + around.1,
        is_blank(around.0),
        is_blank(around.1),
        trimmed(s).len() > 0 ==> !is_space(trimmed(s).first()) && !is_space(trimmed(s).last()),
{
    let front = lemma_trimmed_front(s);
    let back = lemma_trimmed_back(trimmed_front(s));
    (front, back)
}

proof fn lemma_trimmed_front(s: Text) -> (front: Text)
    ensures
        s == front + trimmed_front(s),
        is_blank(front),
        trimmed_front(s).len() > 0 ==> !is_space(trimmed_front(s).first()),
    decreases s.len(),
{
    if s.len() > 0 && is_space(s.first()) {
        let front = lemma_trimmed_front(s.drop_first());
        assert(s == seq![s.first()] + s.drop_first());
        assert(s == (seq![s.first()] + front) + trimmed_front(s));
        seq![s.first()] + front
    } else {
        assert(s == Seq::<char>::empty() + s);
        Seq::empty()
    }
}

proof fn lemma_trimmed_back(s: Text) -> (back: Text)
    ensures
        s == trimmed_back(s) + back,
        is_blank(back),
        trimmed_back(s).len() > 0 ==> !is_space(trimmed_back(s).last()),
        trimmed_back(s).len() > 0 ==> trimmed_back(s).first() == s.first(),
    decreases s.len(),
{
    if s.len() > 0 && is_space(s.last()) {
        let back = lemma_trimmed_back(s.drop_last());
        assert(s == s.drop_last().push(s.last()));
        assert(s == trimmed_back(s) + back.push(s.last()));
        back.push(s.last())
    } else {
        assert(s == s + Seq::<char>::empty());
        Seq::empty()
    }
}

/// Trimming takes white space from both ends of a text, and no white space is
/// left there.
pub proof fn law_trimmed(s: Text)
    ensures
        exists|front: Text, back: Text| #[trigger]
            is_blank(front) && #[trigger] is_blank(back) && s == front + trimmed(s) + back,
        trimmed(s).len() > 0 ==> !is_space(trimmed(s).first()) && !is_space(trimmed(s).last()),
        is_blank(s) <==> trimmed(s).len() == 0,
        s.len() > 0 && !is_space(s.first()) && !is_space(s.last()) ==> trimmed(s) == s,
{
    let (front, back) = lemma_trimmed(s);
    let t = trimmed(s);
    assert(is_blank(front) && is_blank(back) && s == front + t + back);
    if t.len() == 0 {
        assert forall|i: int| 0 <= i < s.len() implies is_space(#[trigger] s[i]) by {
            if i < front.len() {
                assert(s[i] == front[i]);
            } else {
                assert(s[i] == back[i - front.len()]);
            }
        }
    } else {
        assert(s[front.len() as int] == t.first());
        assert(!is_blank(s));
    }
}

/// A number that is written in decimal notation is read as that number, with
/// or without a plus sign, where it is not too large.
pub proof fn law_number_reads_decimal(n: nat, max: nat)
    ensures
        number(decimal(n), max) == if n <= max {
            Some(n)
        } else {
            None
        },
        number(seq!['+'] + decimal(n), max) == number(decimal(n), max),
{
    lemma_decimal(n);
    assert((seq!['+'] + decimal(n)).drop_first() == decimal(n));
}

/// Decimal notation: a number below ten is one digit, and each further digit
/// counts ten times less.
pub proof fn law_decimal(n: nat, d: nat)
    requires
        d < 10,
    ensures
        decimal(d) == seq![(48 + d) as char],
        n > 0 ==> decimal(10 * n + d) == decimal(n).push((48 + d) as char),
{
    if n > 0 {
        assert((10 * n + d) / 10 == n);
        assert((10 * n + d) % 10 == d);
    }
}

/// What is read as a number is nothing but digits, with or without a plus
/// sign, and not more than the most it may be.
pub proof fn law_number_is_digits(s: Text, max: nat)
    ensures
        number(s, max) matches Some(n) ==> n <= max && s.len() > 0 && (forall|i: int|
            0 < i < s.len() ==> '0' <= #[trigger] s[i] <= '9') && (s[0] == '+' && s.len() > 1 || '0'
            <= s[0] <= '9'),
{
    let digits = unsigned_part(s);
    if number(s, max) is Some {
        assert forall|i: int| 0 < i < s.len() implies '0' <= #[trigger] s[i] <= '9' by {
            if s.first() == '+' {
                assert(digits[i - 1] == s[i]);
            } else {
                assert(digits[i] == s[i]);
            }
        }
        if s.first() != '+' {
            assert(is_digit(digits[0]));
        }
    }
}

/// Two rows of parts, joined, with the separator between them.
pub proof fn law_joined(a: Seq<Text>, b: Seq<Text>, part: Text, sep: Text)
    ensures
        joined(seq![part], sep) == part,
        a.len() > 0 && b.len() > 0 ==> joined(a + b, sep) == joined(a, sep) + sep + joined(b, sep),
        joined(Seq::empty(), sep) == Seq::<char>::empty(),
    decreases b.len(),
{
    if a.len() > 0 && b.len() > 0 {
        let front = b.drop_last();
        assert((a + b).drop_last() == a + front);
        if front.len() == 0 {
            assert(a + front == a);
        } else {
            law_joined(a, front, part, sep);
            assert(joined(a, sep) + sep + joined(front, sep) + sep + b.last() == joined(a, sep)
                + sep + joined(b, sep));
        }
    }
}

/// What was joined with a separator that occurs in none of the parts splits
/// into the same parts again.
pub proof fn law_split_undoes_join(parts: Seq<Text>, sep: char)
    requires
        parts.len() > 0,
        forall|i: int| 0 <= i < parts.len() ==> !(#[trigger] parts[i]).contains(sep),
    ensures
        split_at(joined(parts, seq![sep]), sep) == parts,
    decreases parts.len(),
{
    if parts.len() == 1 {
        law_split(parts[0], sep, Seq::empty());
        assert(parts == seq![parts[0]]);
    } else {
        let front = parts.drop_last();
        assert forall|i: int| 0 <= i < front.len() implies !(#[trigger] front[i]).contains(
            sep,
        ) by {
            assert(front[i] == parts[i]);
        }
        law_split_undoes_join(front, sep);
        law_split(joined(front, seq![sep]), sep, parts.last());
        law_split(parts.last(), sep, Seq::empty());
        assert(parts == front + seq![parts.last()]);
    }
}

/// The order of texts: where two texts part, the smaller character comes
/// first, and a text comes before every longer one that begins with it.
pub proof fn law_order(front: Text, x: char, a: Text, y: char, b: Text)
    ensures
        x != y ==> (precedes(front + seq![x] + a, front + seq![y] + b) <==> x < y),
        precedes(front, front + seq![x] + a),
        !precedes(front + seq![x] + a, front),
    decreases front.len(),
{
    let s = front + seq![x] + a;
    let t = front + seq![y] + b;
    if front.len() > 0 {
        law_order(front.drop_first(), x, a, y, b);
        assert(s.drop_first() == front.drop_first() + seq![x] + a);
        assert(t.drop_first() == front.drop_first() + seq![y] + b);
        assert(s[0] == front[0] && t[0] == front[0]);
    } else {
        assert(s[0] == x && t[0] == y);
    }
}

/// A text begins with `front` exactly where it is `front` and something behind it.
pub proof fn law_begins(s: Text, front: Text, rest: Text)
    ensures
        begins(front + rest, front),
        begins(s, front) ==> s == front + s.skip(front.len() as int),
{
    assert((front + rest).take(front.len() as int) == front);
    if begins(s, front) {
        assert(s == s.take(front.len() as int) + s.skip(front.len() as int));
    }
}

/// A text is cut in two exactly where it holds the separator: at the first or
/// at the last one.
pub proof fn law_cut(s: Text, sep: char)
    ensures
        cut_first(s, sep) is Some <==> s.contains(sep),
        cut_last(s, sep) is Some <==> s.contains(sep),
        cut_first(s, sep) matches Some((a, b)) ==> s == a + seq![sep] + b && !a.contains(sep),
        cut_last(s, sep) matches Some((a, b)) ==> s == a + seq![sep] + b && !b.contains(sep),
{
    s.index_of_first_ensures(sep);
    s.index_of_last_ensures(sep);
    if s.contains(sep) {
        let i = s.index_of_first(sep)->0;
        let j = s.index_of_last(sep)->0;
        assert(s == s.take(i) + seq![sep] + s.skip(i + 1));
        assert(s == s.take(j) + seq![sep] + s.skip(j + 1));
        if s.take(i).contains(sep) {
            let k = choose|k: int| 0 <= k < i && s.take(i)[k] == sep;
            assert(s[k] == sep);
        }
        let behind = s.skip(j + 1);
        if behind.contains(sep) {
            let k = choose|k: int| 0 <= k < behind.len() && behind[k] == sep;
            assert(s[k + j + 1] == sep);
        }
    }
}

/// A filter that lets everything through keeps everything.
pub proof fn lemma_filter_all<A>(s: Seq<A>, keep: spec_fn(A) -> bool)
    requires
        forall|i: int| 0 <= i < s.len() ==> keep(#[trigger] s[i]),
    ensures
        s.filter(keep) == s,
    decreases s.len(),
{
    reveal(Seq::filter);
    if s.len() > 0 {
        let front = s.drop_last();
        assert forall|i: int| 0 <= i < front.len() implies keep(#[trigger] front[i]) by {
            assert(front[i] == s[i]);
        }
        lemma_filter_all(front, keep);
        assert(keep(s[s.len() - 1]));
        assert(s == front.push(s.last()));
    }
}

/// The first and the last character of parts that are joined.
pub proof fn lemma_joined_ends(parts: Seq<Text>, sep: Text)
    requires
        parts.len() > 0,
        parts[0].len() > 0,
        parts.last().len() > 0,
    ensures
        joined(parts, sep).len() > 0,
        joined(parts, sep).first() == parts[0].first(),
        joined(parts, sep).last() == parts.last().last(),
{
    if parts.len() > 1 {
        let rest = parts.drop_first();
        assert(parts == seq![parts[0]] + rest);
        law_joined(seq![parts[0]], rest, parts[0], sep);
    }
}

/// Zeros in front of a number do not count, and every row of digits is read
/// where what it is worth is not too much.
pub proof fn law_leading_zeros(digits: Text, max: nat)
    requires
        digits.len() > 0,
        forall|i: int| 0 <= i < digits.len() ==> '0' <= #[trigger] digits[i] <= '9',
    ensures
        number(seq!['0'] + digits, max) == number(digits, max),
        number(digits, max) is Some || digits_value(digits) > max,
{
    let longer = seq!['0'] + digits;
    assert(is_digit(digits[0]));
    assert(digits.first() != '+' && longer.first() != '+');
    assert forall|i: int| 0 <= i < longer.len() implies is_digit(#[trigger] longer[i]) by {
        if i > 0 {
            assert(longer[i] == digits[i - 1]);
        }
    }
    lemma_zero_in_front(digits);
}

/// A zero in front is worth nothing.
proof fn lemma_zero_in_front(digits: Text)
    ensures
        digits_value(seq!['0'] + digits) == digits_value(digits),
    decreases digits.len(),
{
    let longer = seq!['0'] + digits;
    if digits.len() == 0 {
        assert(longer.drop_last() == Seq::<char>::empty());
        assert(digits_value(Seq::<char>::empty()) == 0);
    } else {
        assert(longer.drop_last() == seq!['0'] + digits.drop_last());
        lemma_zero_in_front(digits.drop_last());
    }
}

/// What stands in order ascends: of two texts the one in front precedes the
/// other, so that none occurs twice.
pub proof fn law_ordered_texts_ascend(a: Text, b: Text, s: Seq<Text>)
    ensures
        ordered(seq![a, b]) <==> precedes(a, b),
        ordered(s) ==> s.no_duplicates(),
{
    let two = seq![a, b];
    if ordered(two) {
        assert(precedes(two[0], two[1]));
    }
    if ordered(s) {
        assert forall|i: int, j: int| 0 <= i < s.len() && 0 <= j < s.len() && i != j implies s[i]
            != s[j] by {
            lemma_precedes_total(s[i], s[j]);
            lemma_precedes_total(s[i], s[i]);
            if i < j {
                assert(precedes(s[i], s[j]));
            } else {
                assert(precedes(s[j], s[i]));
            }
        }
    }
}

} // verus!
