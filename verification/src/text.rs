//! Text as characters: decimal numbers, fields, lines and blanks.

use vstd::prelude::*;
use vstd::string::*;

verus! {

/// The character of the decimal digit `d`.
pub open spec fn digit(d: int) -> char
    recommends
        0 <= d < 10,
{
    if d == 0 {
        '0'
    } else if d == 1 {
        '1'
    } else if d == 2 {
        '2'
    } else if d == 3 {
        '3'
    } else if d == 4 {
        '4'
    } else if d == 5 {
        '5'
    } else if d == 6 {
        '6'
    } else if d == 7 {
        '7'
    } else if d == 8 {
        '8'
    } else {
        '9'
    }
}

/// The decimal digits of `n`, most significant first, without leading
/// zeros; zero is the single digit `0`.
pub open spec fn digits(n: nat) -> Seq<char>
    decreases n,
{
    if n < 10 {
        seq![digit(n as int)]
    } else {
        digits(n / 10).push(digit((n % 10) as int))
    }
}

/// The decimal text of `n`: its digits, after a minus sign where `n` is
/// negative.
pub open spec fn decimal(n: int) -> Seq<char> {
    if n < 0 {
        seq!['-'] + digits((-n) as nat)
    } else {
        digits(n as nat)
    }
}

/// The text of one decimal digit.
fn digit_text(d: u64) -> (s: &'static str)
    requires
        d < 10,
    ensures
        s@ == seq![digit(d as int)],
{
    proof {
        reveal_strlit("0");
        reveal_strlit("1");
        reveal_strlit("2");
        reveal_strlit("3");
        reveal_strlit("4");
        reveal_strlit("5");
        reveal_strlit("6");
        reveal_strlit("7");
        reveal_strlit("8");
        reveal_strlit("9");
    }
    let s = if d == 0 {
        "0"
    } else if d == 1 {
        "1"
    } else if d == 2 {
        "2"
    } else if d == 3 {
        "3"
    } else if d == 4 {
        "4"
    } else if d == 5 {
        "5"
    } else if d == 6 {
        "6"
    } else if d == 7 {
        "7"
    } else if d == 8 {
        "8"
    } else {
        "9"
    };
    assert(s@ =~= seq![digit(d as int)]);
    s
}

/// The decimal digits of `n` as a string.
pub fn digits_text(n: u64) -> (s: String)
    ensures
        s@ == digits(n as nat),
    decreases n,
{
    if n < 10 {
        String::from_str(digit_text(n))
    } else {
        let mut s = digits_text(n / 10);
        s.append(digit_text(n % 10));
        assert(s@ =~= digits(n as nat));
        s
    }
}

/// The decimal text of `n` as a string.
pub fn decimal_text(n: i32) -> (s: String)
    ensures
        s@ == decimal(n as int),
{
    if n < 0 {
        let magnitude: u64 = (-(n as i64)) as u64;
        proof {
            reveal_strlit("-");
        }
        let mut s = String::from_str("-");
        let rest = digits_text(magnitude);
        s.append(rest.as_str());
        assert(s@ =~= decimal(n as int));
        s
    } else {
        digits_text(n as u64)
    }
}

/// `String::push` of the standard library puts one character at the end of
/// the string and leaves the rest as it was.
pub assume_specification[ String::push ](s: &mut String, c: char)
    ensures
        final(s)@ == old(s)@.push(c),
;

/// The characters `chars` as a string.
pub fn text_of(chars: &Vec<char>) -> (s: String)
    ensures
        s@ == chars@,
{
    let mut s = String::new();
    let mut i: usize = 0;
    while i < chars.len()
        invariant
            i <= chars@.len(),
            s@ == chars@.take(i as int),
        decreases chars@.len() - i,
    {
        s.push(chars[i]);
        assert(chars@.take(i + 1) =~= chars@.take(i as int).push(chars@[i as int]));
        i += 1;
    }
    assert(chars@.take(chars@.len() as int) =~= chars@);
    s
}

/// The characters of `s`.
pub fn chars_of(s: &str) -> (chars: Vec<char>)
    ensures
        chars@ == s@,
{
    let mut chars: Vec<char> = Vec::new();
    for c in it: s.chars()
        invariant
            it.seq() == s@,
            chars@ == s@.take(it.index()),
    {
        chars.push(c);
        assert(s@.take(it.index() + 1) =~= s@.take(it.index()).push(c));
    }
    assert(s@.take(s@.len() as int) =~= s@);
    chars
}

/// The views of a sequence of texts.
pub open spec fn texts(v: Seq<Vec<char>>) -> Seq<Seq<char>> {
    Seq::new(v.len(), |i: int| v[i]@)
}

/// Whether `c` is white space: a tab, a line feed, a vertical tab, a form
/// feed, a carriage return, a space, or one of the spaces and separators
/// beyond the first 128 characters.
pub open spec fn is_space(c: char) -> bool {
    let n = c as u32;
    ||| 9 <= n <= 13
    ||| n == 32
    ||| n == 133
    ||| n == 160
    ||| n == 5760
    ||| 8192 <= n <= 8202
    ||| n == 8232
    ||| n == 8233
    ||| n == 8239
    ||| n == 8287
    ||| n == 12288
}

/// Whether `line` holds white space only.
pub open spec fn is_blank(line: Seq<char>) -> bool {
    forall|i: int| 0 <= i < line.len() ==> is_space(#[trigger] line[i])
}

/// Whether `c` is white space.
pub fn is_white(c: char) -> (b: bool)
    ensures
        b == is_space(c),
{
    let n = c as u32;
    (9 <= n && n <= 13) || n == 32 || n == 133 || n == 160 || n == 5760 || (8192 <= n && n
        <= 8202) || n == 8232 || n == 8233 || n == 8239 || n == 8287 || n == 12288
}

/// Whether `line` holds white space only.
pub fn is_blank_line(line: &Vec<char>) -> (b: bool)
    ensures
        b == is_blank(line@),
{
    let mut i: usize = 0;
    while i < line.len()
        invariant
            i <= line@.len(),
            forall|j: int| 0 <= j < i ==> is_space(#[trigger] line@[j]),
        decreases line@.len() - i,
    {
        if !is_white(line[i]) {
            return false;
        }
        i += 1;
    }
    true
}

/// The pieces of `s` between the occurrences of `sep`, in order. A text
/// with n occurrences has n + 1 pieces, some of them empty perhaps.
pub open spec fn split(s: Seq<char>, sep: char) -> Seq<Seq<char>>
    decreases s.len(),
{
    if s.len() == 0 {
        seq![Seq::<char>::empty()]
    } else {
        let before = split(s.drop_last(), sep);
        if s.last() == sep {
            before.push(Seq::<char>::empty())
        } else {
            before.update(before.len() - 1, before.last().push(s.last()))
        }
    }
}

/// A text has at least one piece.
pub proof fn lemma_split_len(s: Seq<char>, sep: char)
    ensures
        split(s, sep).len() >= 1,
    decreases s.len(),
{
    if s.len() > 0 {
        lemma_split_len(s.drop_last(), sep);
    }
}

/// The pieces of `s` between the occurrences of `sep`.
pub fn split_chars(s: &Vec<char>, sep: char) -> (pieces: Vec<Vec<char>>)
    ensures
        texts(pieces@) == split(s@, sep),
{
    let mut done: Vec<Vec<char>> = Vec::new();
    let mut current: Vec<char> = Vec::new();
    let mut i: usize = 0;
    assert(texts(done@).push(current@) =~= split(s@.take(0), sep));
    while i < s.len()
        invariant
            i <= s@.len(),
            texts(done@).push(current@) == split(s@.take(i as int), sep),
        decreases s@.len() - i,
    {
        let ghost before = split(s@.take(i as int), sep);
        proof {
            assert(s@.take(i + 1).drop_last() =~= s@.take(i as int));
            assert(s@.take(i + 1).last() == s@[i as int]);
        }
        if s[i] == sep {
            done.push(current);
            current = Vec::new();
            assert(texts(done@).push(current@) =~= before.push(Seq::<char>::empty()));
        } else {
            current.push(s[i]);
            assert(texts(done@).push(current@) =~= before.update(
                before.len() - 1,
                before.last().push(s@[i as int]),
            ));
        }
        i += 1;
    }
    assert(s@.take(s@.len() as int) =~= s@);
    done.push(current);
    assert(texts(done@) =~= split(s@, sep));
    done
}

/// The first `n` characters of `v`.
pub fn copy_chars(v: &Vec<char>, n: usize) -> (copy: Vec<char>)
    requires
        n <= v@.len(),
    ensures
        copy@ == v@.take(n as int),
{
    let mut copy: Vec<char> = Vec::new();
    let mut i: usize = 0;
    while i < n
        invariant
            i <= n <= v@.len(),
            copy@ == v@.take(i as int),
        decreases n - i,
    {
        copy.push(v[i]);
        assert(v@.take(i + 1) =~= v@.take(i as int).push(v@[i as int]));
        i += 1;
    }
    copy
}

/// `line` without the carriage return at its end, if it has one.
pub open spec fn without_return(line: Seq<char>) -> Seq<char> {
    if line.len() > 0 && line.last() == '\r' {
        line.drop_last()
    } else {
        line
    }
}

/// The lines of `s`. A line ends with a line feed, or with a carriage
/// return and a line feed, neither of which belongs to it; what follows the
/// last line feed is a line too unless it is empty.
pub open spec fn lines(s: Seq<char>) -> Seq<Seq<char>> {
    let pieces = split(s, '\n');
    let ended = Seq::new((pieces.len() - 1) as nat, |i: int| without_return(pieces[i]));
    if pieces.last().len() == 0 {
        ended
    } else {
        ended.push(pieces.last())
    }
}

/// The lines of `s`.
pub fn lines_of(s: &Vec<char>) -> (found: Vec<Vec<char>>)
    ensures
        texts(found@) == lines(s@),
{
    let pieces = split_chars(s, '\n');
    proof {
        lemma_split_len(s@, '\n');
    }
    let n = pieces.len();
    let ghost parts = split(s@, '\n');
    let mut found: Vec<Vec<char>> = Vec::new();
    let mut i: usize = 0;
    assert(texts(found@) =~= Seq::new(0, |k: int| without_return(parts[k])));
    while i + 1 < n
        invariant
            i + 1 <= n,
            n == pieces@.len(),
            texts(pieces@) == parts,
            found@.len() == i,
            texts(found@) == Seq::new(i as nat, |k: int| without_return(parts[k])),
        decreases n - i,
    {
        let piece = &pieces[i];
        assert(piece@ == parts[i as int]);
        let keep = if piece.len() > 0 && piece[piece.len() - 1] == '\r' {
            piece.len() - 1
        } else {
            piece.len()
        };
        let line = copy_chars(piece, keep);
        assert(line@ =~= without_return(parts[i as int]));
        let ghost earlier = found@;
        found.push(line);
        assert forall|k: int| 0 <= k < i + 1 implies (#[trigger] texts(found@)[k])
            == without_return(parts[k]) by {
            if k < i {
                assert(texts(earlier)[k] == without_return(parts[k]));
            }
        }
        assert(texts(found@) =~= Seq::new((i + 1) as nat, |k: int| without_return(parts[k])));
        i += 1;
    }
    let rest = &pieces[n - 1];
    assert(rest@ == parts[n - 1]);
    if rest.len() > 0 {
        let line = copy_chars(rest, rest.len());
        assert(line@ =~= parts.last());
        let ghost earlier = found@;
        found.push(line);
        assert forall|k: int| 0 <= k < n implies (#[trigger] texts(found@)[k]) == lines(s@)[k] by {
            if k < n - 1 {
                assert(texts(earlier)[k] == without_return(parts[k]));
            }
        }
        assert(texts(found@) =~= lines(s@));
    } else {
        assert(texts(found@) =~= lines(s@));
    }
    found
}

/// Whether `c` is a decimal digit.
pub open spec fn is_digit(c: char) -> bool {
    '0' <= c && c <= '9'
}

/// The number that a text of decimal digits stands for; leading zeros do
/// not count.
pub open spec fn number_of(digits: Seq<char>) -> int
    decreases digits.len(),
{
    if digits.len() == 0 {
        0
    } else {
        number_of(digits.drop_last()) * 10 + (digits.last() as u32 - 48)
    }
}

/// Whether `s` holds decimal digits only.
pub open spec fn all_digits(s: Seq<char>) -> bool {
    forall|i: int| 0 <= i < s.len() ==> is_digit(#[trigger] s[i])
}

/// Whether `text` begins with a plus or minus sign.
pub open spec fn has_sign(text: Seq<char>) -> bool {
    text.len() > 0 && (text[0] == '-' || text[0] == '+')
}

/// `text` without the sign at its beginning, if it has one.
pub open spec fn unsigned_part(text: Seq<char>) -> Seq<char> {
    if has_sign(text) {
        text.skip(1)
    } else {
        text
    }
}

/// The number that `text` stands for as a coordinate: a text of one or more
/// decimal digits, after a plus or minus sign perhaps, whose number lies
/// between the least and the greatest coordinate. Any other text stands for
/// none.
pub open spec fn parsed_number(text: Seq<char>) -> Option<int> {
    let body = unsigned_part(text);
    let value = if has_sign(text) && text[0] == '-' {
        -number_of(body)
    } else {
        number_of(body)
    };
    if body.len() == 0 || !all_digits(body) {
        None
    } else if i32::MIN <= value <= i32::MAX {
        Some(value)
    } else {
        None
    }
}

/// The number of digits grows with every digit that is added.
proof fn lemma_number_grows(digits: Seq<char>, n: int)
    requires
        0 <= n <= digits.len(),
        all_digits(digits),
    ensures
        0 <= number_of(digits.take(n)) <= number_of(digits),
    decreases digits.len() - n,
{
    lemma_number_not_negative(digits.take(n));
    if n < digits.len() {
        lemma_number_grows(digits, n + 1);
        assert(digits.take(n + 1).drop_last() =~= digits.take(n));
        assert(digits.take(n + 1).last() == digits[n]);
    } else {
        assert(digits.take(n) =~= digits);
    }
}

/// A text of digits stands for no negative number.
proof fn lemma_number_not_negative(digits: Seq<char>)
    requires
        all_digits(digits),
    ensures
        0 <= number_of(digits),
    decreases digits.len(),
{
    if digits.len() > 0 {
        lemma_number_not_negative(digits.drop_last());
        assert(is_digit(digits[digits.len() - 1]));
    }
}

/// The coordinate that `text` stands for, if it stands for one.
pub fn parse_number(text: &Vec<char>) -> (r: Option<i32>)
    ensures
        match r {
            Some(n) => parsed_number(text@) == Some(n as int),
            None => parsed_number(text@) is None,
        },
{
    let len = text.len();
    let signed = len > 0 && (text[0] == '-' || text[0] == '+');
    let negative = signed && text[0] == '-';
    let start: usize = if signed {
        1
    } else {
        0
    };
    let ghost body = unsigned_part(text@);
    if start == len {
        return None;
    }
    let mut value: i64 = 0;
    let mut i: usize = start;
    assert(body.take(0) =~= Seq::<char>::empty());
    while i < len
        invariant
            start <= i <= len,
            len == text@.len(),
            start == (if signed {
                1int
            } else {
                0int
            }),
            body == unsigned_part(text@),
            signed == has_sign(text@),
            negative == (signed && text@[0] == '-'),
            forall|j: int| 0 <= j < i - start ==> is_digit(#[trigger] body[j]),
            value == number_of(body.take(i - start)),
            0 <= value <= 2147483648,
        decreases len - i,
    {
        let c = text[i];
        assert(c == body[i - start]);
        if !(c >= '0' && c <= '9') {
            assert(!is_digit(body[i - start]));
            return None;
        }
        let digit: i64 = (c as u32 - 48) as i64;
        let ghost shorter = body.take(i - start);
        let ghost longer = body.take(i - start + 1);
        proof {
            assert(longer.drop_last() =~= shorter);
            assert(longer.last() == c);
        }
        value = value * 10 + digit;
        assert(value == number_of(longer));
        if value > 2147483648 {
            proof {
                if all_digits(body) {
                    lemma_number_grows(body, i - start + 1);
                }
            }
            return None;
        }
        i += 1;
    }
    assert(body.take(i - start) =~= body);
    if negative {
        Some((-value) as i32)
    } else if value <= 2147483647 {
        Some(value as i32)
    } else {
        None
    }
}

/// The decimal digits of a number are digits, and they stand for the
/// number.
pub proof fn lemma_digits_stand_for(n: nat)
    ensures
        digits(n).len() >= 1,
        all_digits(digits(n)),
        number_of(digits(n)) == n,
    decreases n,
{
    if n < 10 {
        let one = seq![digit(n as int)];
        assert(one.drop_last() =~= Seq::<char>::empty());
        assert(one.last() == digit(n as int));
        assert(number_of(one.drop_last()) == 0);
    } else {
        lemma_digits_stand_for(n / 10);
        let all = digits(n / 10).push(digit((n % 10) as int));
        assert(all.drop_last() =~= digits(n / 10));
        assert(all.last() == digit((n % 10) as int));
        assert forall|i: int| 0 <= i < all.len() implies is_digit(#[trigger] all[i]) by {
            if i < all.len() - 1 {
                assert(all[i] == digits(n / 10)[i]);
            }
        }
    }
}

/// A coordinate that is written in decimal is read as the same
/// coordinate.
pub proof fn law_written_numbers_are_read(n: int)
    requires
        i32::MIN <= n <= i32::MAX,
    ensures
        parsed_number(decimal(n)) == Some(n),
{
    let text = decimal(n);
    if n < 0 {
        lemma_digits_stand_for((-n) as nat);
        assert(text[0] == '-');
        assert(text.skip(1) =~= digits((-n) as nat));
    } else {
        lemma_digits_stand_for(n as nat);
        assert(is_digit(text[0]));
    }
}

/// The pieces with `sep` between each two of them.
pub open spec fn join(pieces: Seq<Seq<char>>, sep: char) -> Seq<char>
    decreases pieces.len(),
{
    if pieces.len() == 0 {
        Seq::empty()
    } else if pieces.len() == 1 {
        pieces[0]
    } else {
        join(pieces.drop_last(), sep).push(sep) + pieces.last()
    }
}

/// The pieces of a text hold no separator, and with the separator between
/// each two of them they are the text again.
pub proof fn law_split_joins(s: Seq<char>, sep: char)
    ensures
        join(split(s, sep), sep) == s,
        forall|i: int, j: int|
            0 <= i < split(s, sep).len() && 0 <= j < split(s, sep)[i].len() ==> (#[trigger] split(
                s,
                sep,
            )[i][j]) != sep,
    decreases s.len(),
{
    if s.len() == 0 {
        assert(join(split(s, sep), sep) =~= s);
    } else {
        let rest = s.drop_last();
        let before = split(rest, sep);
        let all = split(s, sep);
        law_split_joins(rest, sep);
        lemma_split_len(rest, sep);
        if s.last() == sep {
            assert(all.drop_last() =~= before);
            assert(join(all, sep) =~= join(before, sep).push(sep));
            assert(rest.push(sep) =~= s);
        } else {
            assert(all.last() == before.last().push(s.last()));
            if before.len() == 1 {
                assert(join(before, sep) == before[0]);
                assert(join(all, sep) =~= rest.push(s.last()));
            } else {
                assert(all.drop_last() =~= before.drop_last());
                assert(join(all, sep) =~= join(before, sep).push(s.last()));
            }
            assert(rest.push(s.last()) =~= s);
            assert forall|i: int, j: int|
                0 <= i < all.len() && 0 <= j < all[i].len() implies (#[trigger] all[i][j])
                != sep by {
                if i < all.len() - 1 {
                    assert(all[i] == before[i]);
                    assert(before[i][j] != sep);
                } else if j < before.last().len() {
                    assert(all[i][j] == before[i][j]);
                    assert(before[i][j] != sep);
                }
            }
        }
    }
}

/// What is said of a row that is not as wide as the first.
pub open spec fn ragged_row_text(row: nat, width: nat, first_width: nat) -> Seq<char> {
    "First row is "@ + digits(first_width) + " wide but row "@ + digits(row) + " is "@ + digits(
        width,
    ) + " wide"@
}

/// What is said of a row that is not as wide as the first.
pub fn ragged_row_message(row: usize, width: usize, first_width: usize) -> (s: String)
    ensures
        s@ == ragged_row_text(row as nat, width as nat, first_width as nat),
{
    let mut s = String::from_str("First row is ");
    s.append(digits_text(first_width as u64).as_str());
    s.append(" wide but row ");
    s.append(digits_text(row as u64).as_str());
    s.append(" is ");
    s.append(digits_text(width as u64).as_str());
    s.append(" wide");
    assert(s@ =~= ragged_row_text(row as nat, width as nat, first_width as nat));
    s
}

/// What the standard library writes for a string where it is asked to
/// write it for a programmer: the string between double quotes, with
/// escapes in place of the characters that cannot stand there as they are.
pub uninterp spec fn quoted(text: Seq<char>) -> Seq<char>;

/// `format!` of the standard library with `{:?}` for a string writes the
/// string as a programmer would have to write it, which depends on the
/// string alone.
#[verifier::external_body]
pub(crate) fn quote(text: &str) -> (q: String)
    ensures
        q@ == quoted(text@),
{
    format!("{:?}", text)
}

} // verus!
