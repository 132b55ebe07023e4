//! What holds of lines, words, numbers and search in every text.
use crate::text::{
    ascii_lower, ascii_upper, byte_len, decimal, digit, is_blank, is_digits, join, lines_of,
    number_of, occurs_at, occurs_in, parsed, trim_end, trim_start, trimmed, two_digits, unsigned,
    white_space, words_of, words_read,
};
use vstd::prelude::*;
use vstd::utf8::encode_utf8;

verus! {

// ---------------------------------------------------------------------------
// Words and lines
// ---------------------------------------------------------------------------

proof fn lemma_words_read_split(a: Seq<char>, c: char, b: Seq<char>)
    requires
        white_space(c),
    ensures
        words_read(a.push(c) + b) == (words_of(a) + words_read(b).0, words_read(b).1),
    decreases b.len(),
{
    if b.len() == 0 {
        assert(a.push(c) + b =~= a.push(c));
        assert(a.push(c).drop_last() =~= a);
        assert(words_of(a) + Seq::<Seq<char>>::empty() =~= words_of(a));
    } else {
        let init = b.drop_last();
        lemma_words_read_split(a, c, init);
        assert((a.push(c) + b).drop_last() =~= a.push(c) + init);
        assert((a.push(c) + b).last() == b.last());
        let (done, open) = words_read(init);
        assert((words_of(a) + done).push(open) =~= words_of(a) + done.push(open));
    }
}

/// White space parts a text into words: those before it and those after it.
pub proof fn law_words_split(a: Seq<char>, c: char, b: Seq<char>)
    requires
        white_space(c),
    ensures
        words_of(a.push(c) + b) == words_of(a) + words_of(b),
{
    lemma_words_read_split(a, c, b);
    let (done, open) = words_read(b);
    assert((words_of(a) + done).push(open) =~= words_of(a) + done.push(open));
}

/// A text without white space is one word; the empty text has none.
pub proof fn law_one_word(word: Seq<char>)
    requires
        forall|i: int| 0 <= i < word.len() ==> !white_space(#[trigger] word[i]),
    ensures
        word.len() > 0 ==> words_of(word) == seq![word],
        word.len() == 0 ==> words_of(word) == Seq::<Seq<char>>::empty(),
        words_read(word) == (Seq::<Seq<char>>::empty(), word),
    decreases word.len(),
{
    if word.len() > 0 {
        let init = word.drop_last();
        assert forall|i: int| 0 <= i < init.len() implies !white_space(#[trigger] init[i]) by {
            assert(init[i] == word[i]);
        }
        law_one_word(init);
        assert(word[word.len() - 1] == word.last());
        assert(init.push(word.last()) =~= word);
        assert(Seq::<Seq<char>>::empty().push(word) =~= seq![word]);
    } else {
        assert(word =~= Seq::<char>::empty());
    }
}

/// A line feed parts a text into lines: those before it and those after it.
pub proof fn law_lines_split(a: Seq<char>, b: Seq<char>)
    ensures
        lines_of(a.push('\n') + b) == lines_of(a) + lines_of(b),
    decreases b.len(),
{
    if b.len() == 0 {
        assert(a.push('\n') + b =~= a.push('\n'));
        assert(a.push('\n').drop_last() =~= a);
        assert(lines_of(a).push(Seq::<char>::empty()) =~= lines_of(a) + seq![Seq::<char>::empty()]);
    } else {
        let init = b.drop_last();
        law_lines_split(a, init);
        crate::text::lemma_lines_nonempty(init);
        assert((a.push('\n') + b).drop_last() =~= a.push('\n') + init);
        assert((a.push('\n') + b).last() == b.last());
        let before = lines_of(a) + lines_of(init);
        if b.last() == '\n' {
            assert(before.push(Seq::<char>::empty()) =~= lines_of(a) + lines_of(init).push(
                Seq::<char>::empty(),
            ));
        } else {
            let line = lines_of(init).last().push(b.last());
            assert(before.last() == lines_of(init).last());
            assert(before.update(before.len() - 1, line) =~= lines_of(a) + lines_of(init).update(
                lines_of(init).len() - 1,
                line,
            ));
        }
    }
}

/// A text without a line feed is one line.
pub proof fn law_one_line(line: Seq<char>)
    requires
        !line.contains('\n'),
    ensures
        lines_of(line) == seq![line],
    decreases line.len(),
{
    if line.len() > 0 {
        let init = line.drop_last();
        assert(!init.contains('\n')) by {
            if init.contains('\n') {
                let i = choose|i: int| 0 <= i < init.len() && init[i] == '\n';
                assert(line[i] == '\n');
            }
        }
        law_one_line(init);
        assert(line[line.len() - 1] == line.last());
        assert(init.push(line.last()) =~= line);
        assert(seq![init].update(0, line) =~= seq![line]);
    } else {
        assert(line =~= Seq::<char>::empty());
    }
}

/// No line holds a line feed.
pub proof fn law_lines_unbroken(s: Seq<char>, i: int)
    requires
        0 <= i < lines_of(s).len(),
    ensures
        !lines_of(s)[i].contains('\n'),
    decreases s.len(),
{
    if s.len() > 0 {
        let before = lines_of(s.drop_last());
        crate::text::lemma_lines_nonempty(s.drop_last());
        if i < before.len() {
            law_lines_unbroken(s.drop_last(), i);
        }
        if s.last() != '\n' && i == before.len() - 1 {
            let line = before.last().push(s.last());
            assert forall|k: int| 0 <= k < line.len() implies line[k] != '\n' by {
                if k < before.last().len() {
                    assert(before.last().contains(before.last()[k]));
                }
            }
        }
    }
}

/// Lines without line feeds, joined with line feeds, are the lines of the text that they
/// make.
pub proof fn law_lines_of_joined(lines: Seq<Seq<char>>)
    requires
        lines.len() > 0,
        forall|i: int| 0 <= i < lines.len() ==> !(#[trigger] lines[i]).contains('\n'),
    ensures
        lines_of(join(lines, seq!['\n'])) == lines,
    decreases lines.len(),
{
    let init = lines.drop_last();
    let last = lines.last();
    assert(lines[lines.len() - 1] == last);
    law_one_line(last);
    if init.len() > 0 {
        assert forall|i: int| 0 <= i < init.len() implies !(#[trigger] init[i]).contains('\n') by {
            assert(init[i] == lines[i]);
        }
        law_lines_of_joined(init);
        let text = join(init, seq!['\n']);
        law_lines_split(text, last);
        assert(text + seq!['\n'] + last =~= text.push('\n') + last);
        assert(init + seq![last] =~= lines);
    } else {
        assert(seq![last] =~= lines);
    }
}

/// Parts are joined one after the other: those of two lists with the separator between.
pub proof fn law_join(a: Seq<Seq<char>>, b: Seq<Seq<char>>, part: Seq<char>, sep: Seq<char>)
    ensures
        join(Seq::empty(), sep) == Seq::<char>::empty(),
        join(seq![part], sep) == part,
        a.len() > 0 && b.len() > 0 ==> join(a + b, sep) == join(a, sep) + sep + join(b, sep),
    decreases b.len(),
{
    if a.len() > 0 && b.len() > 0 {
        let init = b.drop_last();
        assert((a + b).drop_last() =~= a + init);
        assert((a + b).last() == b.last());
        if init.len() > 0 {
            law_join(a, init, part, sep);
            assert(join(a + b, sep) =~= join(a, sep) + sep + join(b, sep));
        } else {
            assert(a + init =~= a);
        }
    }
}

// ---------------------------------------------------------------------------
// White space at the ends
// ---------------------------------------------------------------------------

proof fn lemma_start_blank(s: Seq<char>) -> (before: Seq<char>)
    ensures
        is_blank(before),
        s == before + trim_start(s),
        trim_start(s).len() > 0 ==> !white_space(trim_start(s)[0]),
    decreases s.len(),
{
    if s.len() > 0 && white_space(s[0]) {
        let rest = lemma_start_blank(s.drop_first());
        let before = seq![s[0]] + rest;
        assert(s =~= seq![s[0]] + s.drop_first());
        assert(before + trim_start(s) =~= seq![s[0]] + (rest + trim_start(s.drop_first())));
        assert forall|i: int| 0 <= i < before.len() implies white_space(#[trigger] before[i]) by {
            if i > 0 {
                assert(white_space(rest[i - 1]));
            }
        }
        before
    } else {
        assert(s =~= Seq::<char>::empty() + s);
        Seq::empty()
    }
}

proof fn lemma_end_blank(s: Seq<char>) -> (after: Seq<char>)
    ensures
        is_blank(after),
        s == trim_end(s) + after,
        trim_end(s).len() > 0 ==> !white_space(trim_end(s).last()),
    decreases s.len(),
{
    if s.len() > 0 && white_space(s.last()) {
        let rest = lemma_end_blank(s.drop_last());
        let after = rest.push(s.last());
        assert(s =~= s.drop_last().push(s.last()));
        assert(trim_end(s) + after =~= (trim_end(s.drop_last()) + rest).push(s.last()));
        assert forall|i: int| 0 <= i < after.len() implies white_space(#[trigger] after[i]) by {
            if i < rest.len() {
                assert(white_space(rest[i]));
            }
        }
        after
    } else {
        assert(s =~= s + Seq::<char>::empty());
        Seq::empty()
    }
}

/// What is left of a text has no white space at its ends, and nothing but white space
/// was taken away.
pub proof fn law_only_blanks_are_trimmed(s: Seq<char>)
    ensures
        exists|before: Seq<char>, after: Seq<char>|
            is_blank(before) && is_blank(after) && s == #[trigger] (before + trimmed(s) + after),
        trimmed(s).len() > 0 ==> !white_space(trimmed(s)[0]) && !white_space(trimmed(s).last()),
        trimmed(s).len() == 0 <==> is_blank(s),
{
    let before = lemma_start_blank(s);
    let after = lemma_end_blank(trim_start(s));
    assert(s =~= before + trimmed(s) + after);
    if trimmed(s).len() > 0 {
        assert(trim_start(s)[0] == trimmed(s)[0]);
        assert(s[before.len() as int] == trimmed(s)[0]);
    } else {
        assert forall|i: int| 0 <= i < s.len() implies white_space(#[trigger] s[i]) by {
            if i < before.len() {
                assert(white_space(before[i]));
            } else {
                assert(white_space(after[i - before.len()]));
            }
        }
    }
}

// ---------------------------------------------------------------------------
// Numbers
// ---------------------------------------------------------------------------

/// Digits are read from the left, each counting ten times the next.
pub proof fn law_number_of(digits: Seq<char>, c: char)
    requires
        '0' <= c <= '9',
    ensures
        number_of(Seq::empty()) == 0,
        number_of(digits.push(c)) == 10 * number_of(digits) + (c as int - '0' as int),
{
    assert(digits.push(c).drop_last() =~= digits);
}

/// A number in decimal is made of digits, reads back as the number, and has no leading
/// zero.
pub proof fn law_decimal(n: nat)
    ensures
        is_digits(decimal(n)),
        number_of(decimal(n)) == n,
        n > 0 ==> decimal(n)[0] != '0',
        n == 0 ==> decimal(n) == seq!['0'],
    decreases n,
{
    if n < 10 {
        let digits = seq![digit(n)];
        assert(digits =~= Seq::<char>::empty().push(digit(n)));
        law_number_of(Seq::empty(), digit(n));
    } else {
        law_decimal(n / 10);
        law_number_of(decimal(n / 10), digit(n % 10));
        let digits = decimal(n);
        assert forall|i: int| 0 <= i < digits.len() implies '0' <= #[trigger] digits[i] <= '9' by {
            if i < decimal(n / 10).len() {
                assert(digits[i] == decimal(n / 10)[i]);
            }
        }
    }
}

/// With at least two digits a number still reads back; only one below ten is filled up.
pub proof fn law_two_digits(n: nat)
    ensures
        is_digits(two_digits(n)),
        number_of(two_digits(n)) == n,
        two_digits(n).len() >= 2,
        n < 10 ==> two_digits(n).len() == 2,
        n >= 10 ==> two_digits(n)[0] != '0',
{
    law_decimal(n);
    if n < 10 {
        let digits = two_digits(n);
        assert(decimal(n) =~= seq![digit(n)]);
        assert(digits =~= Seq::<char>::empty().push('0').push(digit(n)));
        law_number_of(Seq::empty(), '0');
        law_number_of(Seq::<char>::empty().push('0'), digit(n));
    } else if n < 100 {
        assert(decimal(n / 10).len() == 1);
    } else {
        law_decimal(n / 10);
    }
}

/// Digits are read as the number they stand for, with or without a plus sign in front,
/// where it takes at most 64 bits. So every number of 64 bits is read as it is printed.
pub proof fn law_parsed(digits: Seq<char>, n: nat)
    requires
        is_digits(digits),
    ensures
        number_of(digits) <= u64::MAX ==> parsed(digits) == Some(number_of(digits)),
        number_of(digits) <= u64::MAX ==> parsed(seq!['+'] + digits) == Some(number_of(digits)),
        number_of(digits) > u64::MAX ==> parsed(digits) is None,
        n <= u64::MAX ==> parsed(decimal(n)) == Some(n),
{
    assert('0' <= digits[0] <= '9');
    assert((seq!['+'] + digits).drop_first() =~= digits);
    law_decimal(n);
    assert('0' <= decimal(n)[0] <= '9');
}

/// A text with anything but digits, past a plus sign in front, is no number; nor is one
/// without digits.
pub proof fn law_not_parsed(s: Seq<char>, i: int)
    requires
        s.len() == 0 || (0 <= i < s.len() && !('0' <= s[i] <= '9') && (i > 0 || s[0] != '+'
            || s.len() == 1)),
    ensures
        parsed(s) is None,
{
    if s.len() > 0 && s[0] == '+' {
        if s.len() > 1 {
            assert(s.drop_first()[i - 1] == s[i]);
        }
    } else if s.len() > 0 {
        assert(unsigned(s)[i] == s[i]);
    }
}

// ---------------------------------------------------------------------------
// Search, case, length
// ---------------------------------------------------------------------------

/// A part stands in a text exactly where the text is something, the part, and something.
pub proof fn law_occurs(s: Seq<char>, part: Seq<char>)
    ensures
        occurs_in(s, part) <==> exists|before: Seq<char>, after: Seq<char>|
            s == #[trigger] (before + part + after),
{
    if occurs_in(s, part) {
        let at = choose|at: int| occurs_at(s, part, at);
        assert(s =~= s.take(at) + part + s.skip(at + part.len())) by {
            assert forall|i: int| at <= i < at + part.len() implies s[i] == part[i - at] by {
                assert(s.subrange(at, at + part.len())[i - at] == part[i - at]);
            }
        }
    }
    if exists|before: Seq<char>, after: Seq<char>| s == #[trigger] (before + part + after) {
        let (before, after) = choose|before: Seq<char>, after: Seq<char>|
            s == #[trigger] (before + part + after);
        let at = before.len() as int;
        assert(s.subrange(at, at + part.len()) =~= part);
        assert(occurs_at(s, part, at));
    }
}

/// Capitals and small letters of ASCII are thirty-two apart; all else has no case here.
pub proof fn law_ascii_case(c: char)
    ensures
        'A' <= c <= 'Z' ==> ascii_lower(c) as int == c as int + 32 && ascii_upper(ascii_lower(c))
            == c,
        'a' <= c <= 'z' ==> ascii_upper(c) as int == c as int - 32 && ascii_lower(ascii_upper(c))
            == c,
        !('A' <= c <= 'Z') ==> ascii_lower(c) == c,
        !('a' <= c <= 'z') ==> ascii_upper(c) == c,
{
}

/// The length of a text is that of its UTF-8 encoding; of two texts, the sum.
pub proof fn law_byte_len(a: Seq<char>, b: Seq<char>)
    ensures
        byte_len(a) == encode_utf8(a).len(),
        byte_len(a + b) == byte_len(a) + byte_len(b),
{
    crate::text::lemma_byte_len_concat(a, b);
}

} // verus!
