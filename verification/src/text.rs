//! Text as sequences of characters: lines, words, decimal numbers, and the
//! functions on strings that are proved against them.
use vstd::prelude::*;
use vstd::utf8::encode_utf8;

verus! {

broadcast use vstd::string::group_string_axioms;

/// `String::push`: appends the character to the end of the string.
pub assume_specification[ String::push ](s: &mut String, c: char)
    ensures
        final(s)@ == old(s)@.push(c),
;

/// The characters of each string.
pub open spec fn texts(strings: Seq<String>) -> Seq<Seq<char>> {
    strings.map_values(|s: String| s@)
}

/// Length of the text in bytes, encoded in UTF-8.
pub open spec fn byte_len(s: Seq<char>) -> nat {
    encode_utf8(s).len()
}

/// Encoding one text after the other encodes both together.
pub proof fn lemma_byte_len_concat(a: Seq<char>, b: Seq<char>)
    ensures
        encode_utf8(a + b) == encode_utf8(a) + encode_utf8(b),
        byte_len(a + b) == byte_len(a) + byte_len(b),
    decreases a.len(),
{
    if a.len() == 0 {
        assert(a + b =~= b);
        assert(encode_utf8(a) =~= Seq::<u8>::empty());
        assert(encode_utf8(a) + encode_utf8(b) =~= encode_utf8(b));
    } else {
        lemma_byte_len_concat(a.drop_first(), b);
        assert((a + b).drop_first() =~= a.drop_first() + b);
        assert(encode_utf8(a + b) =~= encode_utf8(a) + encode_utf8(b));
    }
}

/// The characters of a string, one by one.
pub fn chars_of(s: &str) -> (r: Vec<char>)
    ensures
        r@ == s@,
{
    let mut r: Vec<char> = Vec::new();
    for c in it: s.chars()
        invariant
            it.seq() == s@,
            r@ == s@.take(it.index() as int),
    {
        r.push(c);
    }
    r
}

// ---------------------------------------------------------------------------
// Decimal numbers
// ---------------------------------------------------------------------------

pub open spec fn digit(d: nat) -> char
    recommends
        d < 10,
{
    (48 + d) as char
}

/// `n` in decimal, without leading zeros.
pub open spec fn decimal(n: nat) -> Seq<char>
    decreases n,
{
    if n < 10 {
        seq![digit(n)]
    } else {
        decimal(n / 10).push(digit(n % 10))
    }
}

/// `n` in decimal, with at least two digits.
pub open spec fn two_digits(n: nat) -> Seq<char> {
    if n < 10 {
        seq!['0'] + decimal(n)
    } else {
        decimal(n)
    }
}

/// Appends `n` in decimal.
pub fn push_decimal(s: &mut String, n: u64)
    ensures
        final(s)@ == old(s)@ + decimal(n as nat),
    decreases n,
{
    if n >= 10 {
        push_decimal(s, n / 10);
    }
    let d: u8 = (n % 10) as u8;
    s.push((48 + d) as char);
}

/// Appends `n` in decimal, with at least two digits.
pub fn push_two_digits(s: &mut String, n: u64)
    ensures
        final(s)@ == old(s)@ + two_digits(n as nat),
{
    if n < 10 {
        s.push('0');
    }
    push_decimal(s, n);
}

/// The text is made of decimal digits, at least one.
pub open spec fn is_digits(s: Seq<char>) -> bool {
    s.len() > 0 && forall|i: int| 0 <= i < s.len() ==> '0' <= #[trigger] s[i] <= '9'
}

/// The number that decimal digits stand for.
pub open spec fn number_of(digits: Seq<char>) -> nat
    decreases digits.len(),
{
    if digits.len() == 0 {
        0
    } else {
        (number_of(digits.drop_last()) * 10 + (digits.last() as nat - 48)) as nat
    }
}

/// The text without a plus sign in front.
pub open spec fn unsigned(s: Seq<char>) -> Seq<char> {
    if s.len() > 0 && s[0] == '+' {
        s.drop_first()
    } else {
        s
    }
}

/// The number that a text stands for: decimal digits, with or without a plus sign in
/// front, for a number of at most 64 bits. Any other text stands for none.
pub open spec fn parsed(s: Seq<char>) -> Option<nat> {
    if is_digits(unsigned(s)) && number_of(unsigned(s)) <= u64::MAX {
        Some(number_of(unsigned(s)))
    } else {
        None
    }
}

/// More digits never make a number smaller.
proof fn lemma_number_grows(digits: Seq<char>, n: int)
    requires
        is_digits(digits),
        0 <= n <= digits.len(),
    ensures
        number_of(digits.take(n)) <= number_of(digits),
    decreases digits.len() - n,
{
    if n < digits.len() {
        lemma_number_grows(digits, n + 1);
        assert(digits.take(n + 1).drop_last() =~= digits.take(n));
        assert('0' <= digits[n] <= '9');
    } else {
        assert(digits.take(n) =~= digits);
    }
}

/// Reads a number.
pub fn parse_u64(text: &str) -> (r: Option<u64>)
    ensures
        r is Some <==> parsed(text@) is Some,
        r matches Some(n) ==> parsed(text@) == Some(n as nat),
{
    let chars = chars_of(text);
    let n: usize = chars.len();
    let first: usize = if n > 0 && chars[0] == '+' {
        1
    } else {
        0
    };
    let ghost digits = unsigned(text@);
    assert(digits =~= text@.skip(first as int));
    if first == n {
        return None;
    }
    let mut value: u64 = 0;
    assert(digits.take(0) =~= Seq::<char>::empty());
    for i in first..n
        invariant
            n == chars@.len(),
            chars@ == text@,
            first <= n,
            digits == unsigned(text@),
            digits == text@.skip(first as int),
            forall|k: int| 0 <= k < i - first ==> '0' <= #[trigger] digits[k] <= '9',
            value == number_of(digits.take(i - first)),
    {
        let c = chars[i];
        assert(c == digits[i - first]);
        if !('0' <= c && c <= '9') {
            return None;
        }
        assert(digits.take(i + 1 - first).drop_last() =~= digits.take(i - first));
        let next: u128 = value as u128 * 10 + (c as u32 - 48) as u128;
        if next > u64::MAX as u128 {
            proof {
                if is_digits(digits) {
                    lemma_number_grows(digits, i + 1 - first);
                }
            }
            return None;
        }
        value = next as u64;
    }
    assert(digits.take(digits.len() as int) =~= digits);
    Some(value)
}

// ---------------------------------------------------------------------------
// Lines
// ---------------------------------------------------------------------------

/// The lines of a text: what stands between its line feeds. A text without a
/// line feed is one line, the empty text too.
pub open spec fn lines_of(s: Seq<char>) -> Seq<Seq<char>>
    decreases s.len(),
{
    if s.len() == 0 {
        seq![Seq::empty()]
    } else {
        let before = lines_of(s.drop_last());
        if s.last() == '\n' {
            before.push(Seq::empty())
        } else {
            before.update(before.len() - 1, before.last().push(s.last()))
        }
    }
}

/// The parts one after the other, with `sep` between each two.
pub open spec fn join(parts: Seq<Seq<char>>, sep: Seq<char>) -> Seq<char>
    decreases parts.len(),
{
    if parts.len() == 0 {
        Seq::empty()
    } else if parts.len() == 1 {
        parts[0]
    } else {
        join(parts.drop_last(), sep) + sep + parts.last()
    }
}

/// Every text has at least one line.
pub proof fn lemma_lines_nonempty(s: Seq<char>)
    ensures
        lines_of(s).len() > 0,
    decreases s.len(),
{
    if s.len() > 0 {
        lemma_lines_nonempty(s.drop_last());
    }
}

/// Appending a part to a list that is not empty appends the separator and it.
pub proof fn lemma_join_push(parts: Seq<Seq<char>>, part: Seq<char>, sep: Seq<char>)
    ensures
        join(parts.push(part), sep) == if parts.len() == 0 {
            part
        } else {
            join(parts, sep) + sep + part
        },
{
    assert(parts.push(part).drop_last() =~= parts);
}

/// Joining the lines of a text with line feeds gives the text back.
pub proof fn lemma_join_lines(s: Seq<char>)
    ensures
        join(lines_of(s), seq!['\n']) == s,
    decreases s.len(),
{
    if s.len() > 0 {
        let init = s.drop_last();
        let before = lines_of(init);
        lemma_join_lines(init);
        lemma_lines_nonempty(init);
        let sep = seq!['\n'];
        assert(s =~= init.push(s.last()));
        if s.last() == '\n' {
            lemma_join_push(before, Seq::empty(), sep);
            assert(join(lines_of(s), sep) =~= s);
        } else {
            let head = before.drop_last();
            lemma_join_push(head, before.last(), sep);
            lemma_join_push(head, before.last().push(s.last()), sep);
            assert(before =~= head.push(before.last()));
            assert(lines_of(s) =~= head.push(before.last().push(s.last())));
            assert(join(lines_of(s), sep) =~= s);
        }
    } else {
        assert(join(lines_of(s), seq!['\n']) =~= s);
    }
}

/// Splits a text into its lines.
pub fn split_lines(text: &str) -> (r: Vec<String>)
    ensures
        texts(r@) == lines_of(text@),
{
    let mut done: Vec<String> = Vec::new();
    let mut line = String::new();
    assert(texts(done@).push(line@) =~= lines_of(text@.take(0)));
    for c in it: text.chars()
        invariant
            it.seq() == text@,
            texts(done@).push(line@) == lines_of(text@.take(it.index() as int)),
    {
        let ghost i = it.index() as int;
        let ghost before = texts(done@).push(line@);
        assert(text@.take(i + 1).drop_last() =~= text@.take(i));
        if c == '\n' {
            done.push(line);
            line = String::new();
            assert(texts(done@) =~= before);
            assert(line@ =~= Seq::<char>::empty());
        } else {
            line.push(c);
            assert(texts(done@).push(line@) =~= before.update(
                before.len() - 1,
                before.last().push(c),
            ));
        }
    }
    assert(text@.take(text@.len() as int) =~= text@);
    let ghost before = texts(done@).push(line@);
    done.push(line);
    assert(texts(done@) =~= before);
    done
}

/// Joins the parts, with `sep` between each two.
pub fn join_strings(parts: &Vec<String>, sep: &str) -> (r: String)
    ensures
        r@ == join(texts(parts@), sep@),
{
    let mut r = String::new();
    let ghost all = texts(parts@);
    assert(all.take(0) =~= Seq::<Seq<char>>::empty());
    for i in 0..parts.len()
        invariant
            all == texts(parts@),
            r@ == join(all.take(i as int), sep@),
    {
        proof {
            lemma_join_push(all.take(i as int), all[i as int], sep@);
            assert(all.take(i + 1) =~= all.take(i as int).push(all[i as int]));
        }
        if i > 0 {
            r.append(sep);
        }
        r.append(parts[i].as_str());
        assert(i == 0 ==> r@ =~= parts[0]@);
    }
    assert(all.take(parts@.len() as int) =~= all);
    r
}

// ---------------------------------------------------------------------------
// White space and words
// ---------------------------------------------------------------------------

/// The characters with the Unicode property White_Space.
pub open spec fn white_space(c: char) -> bool {
    ||| '\u{9}' <= c <= '\u{d}'
    ||| c == '\u{20}'
    ||| c == '\u{85}'
    ||| c == '\u{a0}'
    ||| c == '\u{1680}'
    ||| '\u{2000}' <= c <= '\u{200a}'
    ||| c == '\u{2028}'
    ||| c == '\u{2029}'
    ||| c == '\u{202f}'
    ||| c == '\u{205f}'
    ||| c == '\u{3000}'
}

pub fn is_white_space(c: char) -> (r: bool)
    ensures
        r == white_space(c),
{
    ('\u{9}' <= c && c <= '\u{d}') || c == '\u{20}' || c == '\u{85}' || c == '\u{a0}' || c
        == '\u{1680}' || ('\u{2000}' <= c && c <= '\u{200a}') || c == '\u{2028}' || c == '\u{2029}'
        || c == '\u{202f}' || c == '\u{205f}' || c == '\u{3000}'
}

/// The text without the white space that it starts with.
pub open spec fn trim_start(s: Seq<char>) -> Seq<char>
    decreases s.len(),
{
    if s.len() > 0 && white_space(s[0]) {
        trim_start(s.drop_first())
    } else {
        s
    }
}

/// The text without the white space that it ends with.
pub open spec fn trim_end(s: Seq<char>) -> Seq<char>
    decreases s.len(),
{
    if s.len() > 0 && white_space(s.last()) {
        trim_end(s.drop_last())
    } else {
        s
    }
}

/// The text without the white space at its ends.
pub open spec fn trimmed(s: Seq<char>) -> Seq<char> {
    trim_end(trim_start(s))
}

proof fn lemma_trim_start(s: Seq<char>)
    ensures
        trim_start(s).len() > 0 ==> !white_space(trim_start(s)[0]),
    decreases s.len(),
{
    if s.len() > 0 && white_space(s[0]) {
        lemma_trim_start(s.drop_first());
    }
}

proof fn lemma_trim_end(s: Seq<char>)
    ensures
        trim_end(s).len() > 0 ==> !white_space(trim_end(s).last()) && trim_end(s)[0] == s[0],
    decreases s.len(),
{
    if s.len() > 0 && white_space(s.last()) {
        lemma_trim_end(s.drop_last());
    }
}

/// Nothing but white space.
pub open spec fn is_blank(s: Seq<char>) -> bool {
    forall|i: int| 0 <= i < s.len() ==> white_space(#[trigger] s[i])
}

proof fn lemma_trim_start_concat(a: Seq<char>, b: Seq<char>)
    ensures
        trim_start(a + b) == if trim_start(a).len() == 0 {
            trim_start(b)
        } else {
            trim_start(a) + b
        },
        is_blank(a) ==> trim_start(a).len() == 0,
    decreases a.len(),
{
    if a.len() == 0 {
        assert(a + b =~= b);
    } else if white_space(a[0]) {
        assert((a + b).drop_first() =~= a.drop_first() + b);
        lemma_trim_start_concat(a.drop_first(), b);
        if is_blank(a) {
            assert forall|i: int| 0 <= i < a.len() - 1 implies white_space(
                #[trigger] a.drop_first()[i],
            ) by {
                assert(white_space(a[i + 1]));
            }
        }
    }
}

proof fn lemma_trim_end_concat(a: Seq<char>, b: Seq<char>)
    ensures
        trim_end(a + b) == if trim_end(b).len() == 0 {
            trim_end(a)
        } else {
            a + trim_end(b)
        },
        is_blank(b) ==> trim_end(b).len() == 0,
    decreases b.len(),
{
    if b.len() == 0 {
        assert(a + b =~= a);
    } else if white_space(b.last()) {
        assert((a + b).drop_last() =~= a + b.drop_last());
        lemma_trim_end_concat(a, b.drop_last());
        if is_blank(b) {
            assert forall|i: int| 0 <= i < b.len() - 1 implies white_space(
                #[trigger] b.drop_last()[i],
            ) by {
                assert(white_space(b[i]));
            }
        }
    }
}

/// White space around a text is removed, whatever it is.
pub proof fn law_blanks_trimmed(before: Seq<char>, s: Seq<char>, after: Seq<char>)
    requires
        is_blank(before),
        is_blank(after),
    ensures
        trimmed(before + s + after) == trimmed(s),
{
    assert(before + s + after =~= before + (s + after));
    lemma_trim_start_concat(before, s + after);
    lemma_trim_start_concat(s, after);
    lemma_trim_start_concat(after, Seq::empty());
    assert(after + Seq::<char>::empty() =~= after);
    lemma_trim_end_concat(trim_start(s), after);
    if trim_start(s).len() == 0 {
        assert(trim_start(after) =~= trim_start(s));
    }
}

/// What stands between other text keeps its place when white space is removed at the
/// ends, where it does not begin or end with any itself.
pub proof fn lemma_trimmed_around(before: Seq<char>, s: Seq<char>, after: Seq<char>)
    requires
        s.len() > 0,
        !white_space(s[0]),
        !white_space(s.last()),
    ensures
        trimmed(before + s + after) == trim_start(before) + s + trim_end(after),
{
    assert(before + s + after =~= before + (s + after));
    lemma_trim_start_concat(before, s + after);
    lemma_trim_start_concat(s, after);
    let head = trim_start(before) + s;
    assert(trim_start(before + s + after) =~= head + after);
    assert(head.last() == s.last());
    lemma_trim_end_concat(head, after);
    assert(trimmed(before + s + after) =~= head + trim_end(after));
}

/// A text has no white space at its ends once it is removed: removing it again
/// changes nothing.
pub proof fn law_trimmed_twice(s: Seq<char>)
    ensures
        trimmed(trimmed(s)) == trimmed(s),
{
    lemma_trim_start(s);
    lemma_trim_end(trim_start(s));
}

/// Removes the white space at both ends of a text.
pub fn trim(text: &str) -> (r: String)
    ensures
        r@ == trimmed(text@),
{
    let chars = chars_of(text);
    let n: usize = chars.len();
    let mut from: usize = 0;
    assert(text@.skip(0) =~= text@);
    while from < n && is_white_space(chars[from])
        invariant
            chars@ == text@,
            n == chars@.len(),
            from <= n,
            trim_start(text@) == trim_start(text@.skip(from as int)),
        decreases n - from,
    {
        assert(text@.skip(from as int).drop_first() =~= text@.skip(from + 1));
        from += 1;
    }
    let mut to: usize = n;
    assert(trim_start(text@) == text@.skip(from as int));
    assert(text@.subrange(from as int, n as int) =~= text@.skip(from as int));
    while to > from && is_white_space(chars[to - 1])
        invariant
            chars@ == text@,
            n == chars@.len(),
            from <= to <= n,
            trimmed(text@) == trim_end(text@.subrange(from as int, to as int)),
        decreases to,
    {
        assert(text@.subrange(from as int, to as int).drop_last() =~= text@.subrange(
            from as int,
            to - 1,
        ));
        to -= 1;
    }
    let mut r = String::new();
    for i in from..to
        invariant
            chars@ == text@,
            from <= to <= chars@.len(),
            r@ == text@.subrange(from as int, i as int),
    {
        r.push(chars[i]);
        assert(r@ =~= text@.subrange(from as int, i + 1));
    }
    assert(text@.subrange(from as int, to as int) == trimmed(text@));
    r
}

/// Words that are over and the word that is still open, after reading `s`.
pub open spec fn words_read(s: Seq<char>) -> (Seq<Seq<char>>, Seq<char>)
    decreases s.len(),
{
    if s.len() == 0 {
        (Seq::empty(), Seq::empty())
    } else {
        let (done, open) = words_read(s.drop_last());
        if !white_space(s.last()) {
            (done, open.push(s.last()))
        } else if open.len() == 0 {
            (done, open)
        } else {
            (done.push(open), Seq::empty())
        }
    }
}

/// The words of a text: its longest runs of characters that are not white space.
pub open spec fn words_of(s: Seq<char>) -> Seq<Seq<char>> {
    let (done, open) = words_read(s);
    if open.len() == 0 {
        done
    } else {
        done.push(open)
    }
}

/// Splits a text into its words.
pub fn split_words(text: &str) -> (r: Vec<String>)
    ensures
        texts(r@) == words_of(text@),
{
    let mut done: Vec<String> = Vec::new();
    let mut open = String::new();
    let mut in_word = false;
    assert(texts(done@) =~= Seq::<Seq<char>>::empty());
    for c in it: text.chars()
        invariant
            it.seq() == text@,
            (texts(done@), open@) == words_read(text@.take(it.index() as int)),
            in_word == (open@.len() > 0),
    {
        let ghost i = it.index() as int;
        assert(text@.take(i + 1).drop_last() =~= text@.take(i));
        let ghost before = texts(done@);
        let ghost word = open@;
        if !is_white_space(c) {
            open.push(c);
            in_word = true;
        } else if in_word {
            done.push(open);
            open = String::new();
            in_word = false;
            assert(texts(done@) =~= before.push(word));
        }
    }
    assert(text@.take(text@.len() as int) =~= text@);
    if in_word {
        let ghost before = texts(done@);
        let ghost word = open@;
        done.push(open);
        assert(texts(done@) =~= before.push(word));
    }
    done
}

// ---------------------------------------------------------------------------
// Case
// ---------------------------------------------------------------------------

/// Nothing but ASCII characters.
pub open spec fn is_ascii_text(s: Seq<char>) -> bool {
    forall|i: int| 0 <= i < s.len() ==> #[trigger] s[i] <= '\u{7f}'
}

/// The lower-case letter for an ASCII capital; any other character itself.
pub open spec fn ascii_lower(c: char) -> char {
    if 'A' <= c <= 'Z' {
        (c as u32 + 32) as char
    } else {
        c
    }
}

/// The capital for a lower-case ASCII letter; any other character itself.
pub open spec fn ascii_upper(c: char) -> char {
    if 'a' <= c <= 'z' {
        (c as u32 - 32) as char
    } else {
        c
    }
}

/// The text with its ASCII capitals in lower case.
pub open spec fn ascii_lowercase(s: Seq<char>) -> Seq<char> {
    s.map_values(|c: char| ascii_lower(c))
}

/// The text with its ASCII letters as capitals.
pub open spec fn ascii_uppercase(s: Seq<char>) -> Seq<char> {
    s.map_values(|c: char| ascii_upper(c))
}

/// Takes the ASCII capitals of a text as lower-case letters.
pub fn lower_ascii(text: &str) -> (r: String)
    ensures
        r@ == ascii_lowercase(text@),
{
    let mut r = String::new();
    for c in it: text.chars()
        invariant
            it.seq() == text@,
            r@ == ascii_lowercase(text@.take(it.index() as int)),
    {
        let ghost i = it.index() as int;
        assert(ascii_lowercase(text@.take(i + 1)) =~= ascii_lowercase(text@.take(i)).push(
            ascii_lower(text@[i]),
        ));
        if 'A' <= c && c <= 'Z' {
            r.push((c as u8 + 32) as char);
        } else {
            r.push(c);
        }
    }
    assert(text@.take(text@.len() as int) =~= text@);
    r
}

/// Taking the capitals of a text in ASCII as lower-case letters leaves ASCII without
/// capitals.
pub proof fn lemma_lowercase_twice(s: Seq<char>)
    ensures
        ascii_lowercase(ascii_lowercase(s)) == ascii_lowercase(s),
        is_ascii_text(s) ==> is_ascii_text(ascii_lowercase(s)),
{
    assert(ascii_lowercase(ascii_lowercase(s)) =~= ascii_lowercase(s));
    if is_ascii_text(s) {
        assert forall|i: int| 0 <= i < s.len() implies #[trigger] ascii_lowercase(s)[i]
            <= '\u{7f}' by {
            assert(s[i] <= '\u{7f}');
        }
    }
}

proof fn lemma_uppercase_trim_start(s: Seq<char>)
    ensures
        trim_start(ascii_uppercase(s)) == ascii_uppercase(trim_start(s)),
    decreases s.len(),
{
    if s.len() > 0 && white_space(s[0]) {
        assert(ascii_uppercase(s).drop_first() =~= ascii_uppercase(s.drop_first()));
        lemma_uppercase_trim_start(s.drop_first());
    }
}

proof fn lemma_uppercase_trim_end(s: Seq<char>)
    ensures
        trim_end(ascii_uppercase(s)) == ascii_uppercase(trim_end(s)),
    decreases s.len(),
{
    if s.len() > 0 && white_space(s.last()) {
        assert(ascii_uppercase(s).drop_last() =~= ascii_uppercase(s.drop_last()));
        lemma_uppercase_trim_end(s.drop_last());
    }
}

/// Capitals change neither what is removed at the ends of a text nor what it is in
/// lower case.
pub proof fn lemma_uppercase_trimmed(s: Seq<char>)
    ensures
        trimmed(ascii_uppercase(s)) == ascii_uppercase(trimmed(s)),
        ascii_lowercase(ascii_uppercase(s)) == ascii_lowercase(s),
{
    lemma_uppercase_trim_start(s);
    lemma_uppercase_trim_end(trim_start(s));
    assert(ascii_lowercase(ascii_uppercase(s)) =~= ascii_lowercase(s));
}

// ---------------------------------------------------------------------------
// Search
// ---------------------------------------------------------------------------

/// `part` stands in `s` from position `at` on.
pub open spec fn occurs_at(s: Seq<char>, part: Seq<char>, at: int) -> bool {
    0 <= at && at + part.len() <= s.len() && s.subrange(at, at + part.len()) == part
}

/// `part` stands somewhere in `s`.
pub open spec fn occurs_in(s: Seq<char>, part: Seq<char>) -> bool {
    exists|at: int| occurs_at(s, part, at)
}

/// Whether `part` stands somewhere in `s`.
pub fn contains(s: &Vec<char>, part: &Vec<char>) -> (r: bool)
    ensures
        r == occurs_in(s@, part@),
{
    let n: usize = s.len();
    if part.len() > n {
        return false;
    }
    let last: usize = n - part.len();
    let mut at: usize = 0;
    loop
        invariant
            n == s@.len(),
            last == n - part@.len(),
            at <= last,
            forall|k: int| 0 <= k < at ==> !#[trigger] occurs_at(s@, part@, k),
        decreases last - at,
    {
        let mut k: usize = 0;
        while k < part.len() && s[at + k] == part[k]
            invariant
                n == s@.len(),
                at + part@.len() <= n,
                k <= part@.len(),
                forall|j: int| 0 <= j < k ==> s@[at + j] == part@[j],
            decreases part@.len() - k,
        {
            k += 1;
        }
        if k == part.len() {
            assert(s@.subrange(at as int, at + part@.len()) =~= part@);
            assert(occurs_at(s@, part@, at as int));
            return true;
        }
        assert(!occurs_at(s@, part@, at as int)) by {
            assert(s@[at + k] != part@[k as int]);
            assert(s@[at + k] == s@.subrange(at as int, at + part@.len())[k as int]);
        }
        if at == last {
            return false;
        }
        at += 1;
    }
}

} // verus!
