//! Plain text: characters, decimal numbers, lines.

use vstd::prelude::*;
use crate::scalar::Scalar;

verus! {

/// `String::push` appends the character.
pub assume_specification[ String::push ](s: &mut String, c: char)
    ensures
        final(s)@ == old(s)@.push(c),
;

/// How measured values are written out where text is made of them.
pub trait Show {
    /// The shortest decimal text of a value.
    fn show(&self, x: Scalar) -> String;

    /// The shortest decimal text of a value that is held in single precision.
    fn show_single(&self, x: Scalar) -> String;

    /// The text of a value for debugging, which always shows that it is no
    /// integer type.
    fn show_debug(&self, x: Scalar) -> String;

    /// The text of a value with four decimals.
    fn show_rounded(&self, x: Scalar) -> String;
}

/// The characters of a text.
pub fn chars_of(s: &str) -> (r: Vec<char>)
    ensures
        r@ == s@,
{
    let mut r: Vec<char> = Vec::new();
    for c in iter: s.chars()
        invariant
            iter.seq() == s@,
            r@ == iter.seq().take(iter.index() as int),
    {
        r.push(c);
    }
    assert(s@.take(s@.len() as int) =~= s@);
    r
}

/// The text of a list of characters.
pub fn string_of(v: &Vec<char>) -> (s: String)
    ensures
        s@ == v@,
{
    let mut s = String::new();
    let mut i: usize = 0;
    assert(v@.take(0) =~= Seq::empty());
    while i < v.len()
        invariant
            i <= v.len(),
            s@ == v@.take(i as int),
        decreases v.len() - i,
    {
        s.push(v[i]);
        i = i + 1;
        assert(v@.take(i as int) =~= v@.take(i - 1).push(v@[i - 1]));
    }
    assert(v@.take(v@.len() as int) =~= v@);
    s
}

/// The character of a decimal digit.
pub open spec fn digit(d: int) -> char {
    if d == 0 {
        '0'
    } else if d == 1 {
        '1'
    } else if d == 2 {
        '2'
    } else if d == 3 {
        '3'
    } else if d == 4 {
        '4'
    } else if d == 5 {
        '5'
    } else if d == 6 {
        '6'
    } else if d == 7 {
        '7'
    } else if d == 8 {
        '8'
    } else {
        '9'
    }
}

fn digit_char(d: u64) -> (c: char)
    ensures
        c == digit(d as int),
{
    if d == 0 {
        '0'
    } else if d == 1 {
        '1'
    } else if d == 2 {
        '2'
    } else if d == 3 {
        '3'
    } else if d == 4 {
        '4'
    } else if d == 5 {
        '5'
    } else if d == 6 {
        '6'
    } else if d == 7 {
        '7'
    } else if d == 8 {
        '8'
    } else {
        '9'
    }
}

/// A number in decimal, without leading zeros.
pub open spec fn decimal(n: int) -> Seq<char>
    decreases n,
{
    if n < 10 {
        seq![digit(n)]
    } else {
        decimal(n / 10).push(digit(n % 10))
    }
}

/// A number in decimal.
pub fn decimal_text(n: u64) -> (s: String)
    ensures
        s@ == decimal(n as int),
    decreases n,
{
    if n < 10 {
        let mut s = String::new();
        s.push(digit_char(n));
        assert(s@ =~= seq![digit(n as int)]);
        s
    } else {
        let mut s = decimal_text(n / 10);
        s.push(digit_char(n % 10));
        s
    }
}

/// A signed number in decimal.
pub open spec fn signed_decimal(n: int) -> Seq<char> {
    if n < 0 {
        seq!['-'] + decimal(-n)
    } else {
        decimal(n)
    }
}

/// A signed number in decimal.
pub fn signed_text(n: i64) -> (s: String)
    requires
        n > i64::MIN,
    ensures
        s@ == signed_decimal(n as int),
{
    if n < 0 {
        let mut s = String::new();
        s.push('-');
        let rest = decimal_text((-n) as u64);
        s.append(rest.as_str());
        assert(s@ =~= seq!['-'] + decimal(-n as int));
        s
    } else {
        decimal_text(n as u64)
    }
}

/// Text filled up in front with zeros to a width.
pub open spec fn zero_filled(s: Seq<char>, width: int) -> Seq<char>
    decreases width - s.len(),
{
    if s.len() >= width {
        s
    } else {
        zero_filled(seq!['0'] + s, width)
    }
}

/// A number in decimal, filled up in front with zeros to a width.
pub fn padded_text(n: u64, width: usize) -> (s: String)
    ensures
        s@ == zero_filled(decimal(n as int), width as int),
{
    let mut v = chars_of(decimal_text(n).as_str());
    while v.len() < width
        invariant
            zero_filled(v@, width as int) == zero_filled(decimal(n as int), width as int),
        decreases width - v.len(),
    {
        let ghost was = v@;
        v.insert(0, '0');
        assert(v@ =~= seq!['0'] + was);
    }
    string_of(&v)
}

/// Decimal text tells the numbers apart.
pub proof fn law_decimal_is_injective(a: int, b: int)
    requires
        0 <= a,
        0 <= b,
        decimal(a) == decimal(b),
    ensures
        a == b,
    decreases a,
{
    lemma_decimal_len(a);
    lemma_decimal_len(b);
    if a < 10 {
        assert(decimal(a).len() == 1);
        assert(b < 10);
        assert(decimal(a)[0] == digit(a));
        assert(decimal(b)[0] == digit(b));
    } else {
        assert(b >= 10);
        assert(decimal(a).last() == digit(a % 10));
        assert(decimal(b).last() == digit(b % 10));
        assert(decimal(a).drop_last() =~= decimal(a / 10));
        assert(decimal(b).drop_last() =~= decimal(b / 10));
        law_decimal_is_injective(a / 10, b / 10);
        assert(digit(a % 10) == digit(b % 10));
        assert(a % 10 == b % 10);
    }
}

/// The number that decimal digits stand for.
pub open spec fn digits_value(t: Seq<char>) -> int
    decreases t.len(),
{
    if t.len() == 0 {
        0
    } else {
        digits_value(t.drop_last()) * 10 + (t.last() as int - '0' as int)
    }
}

/// The number that decimal digits behind an optional minus sign stand for.
pub open spec fn signed_value(t: Seq<char>) -> int {
    if t.len() > 0 && t[0] == '-' {
        -digits_value(t.drop_first())
    } else {
        digits_value(t)
    }
}

/// Decimal text is digits alone, and its digits stand for its number.
pub proof fn law_decimal_reads_back(n: int)
    requires
        0 <= n,
    ensures
        digits_value(decimal(n)) == n,
        forall|i: int| 0 <= i < decimal(n).len() ==> '0' <= #[trigger] decimal(n)[i] <= '9',
        decimal(n).len() >= 1,
    decreases n,
{
    if n < 10 {
        assert(decimal(n).drop_last() =~= Seq::empty());
        assert(digits_value(Seq::empty()) == 0);
    } else {
        law_decimal_reads_back(n / 10);
        assert(decimal(n).drop_last() =~= decimal(n / 10));
        assert forall|i: int| 0 <= i < decimal(n).len() implies '0' <= #[trigger] decimal(n)[i]
            <= '9' by {
            if i < decimal(n / 10).len() {
                assert(decimal(n)[i] == decimal(n / 10)[i]);
            }
        }
    }
}

proof fn lemma_decimal_len(n: int)
    requires
        0 <= n,
    ensures
        decimal(n).len() >= 1,
        n >= 10 ==> decimal(n).len() >= 2,
    decreases n,
{
    if n >= 10 {
        lemma_decimal_len(n / 10);
    }
}

/// Position of the first `c` at or after `i`, the length when there is none.
pub open spec fn find_from(s: Seq<char>, c: char, i: int) -> int
    decreases s.len() - i,
{
    if i >= s.len() || s[i] == c {
        i
    } else {
        find_from(s, c, i + 1)
    }
}

/// Position of the first `c` at or after `i`, the length when there is none.
pub fn find_char(s: &Vec<char>, c: char, i: usize) -> (r: usize)
    requires
        i <= s.len(),
    ensures
        r == find_from(s@, c, i as int),
        i <= r <= s.len(),
        r < s.len() ==> s[r as int] == c,
        forall|j: int| i <= j < r ==> #[trigger] s[j] != c,
{
    let mut r: usize = i;
    while r < s.len() && s[r] != c
        invariant
            i <= r <= s.len(),
            find_from(s@, c, r as int) == find_from(s@, c, i as int),
            forall|j: int| i <= j < r ==> #[trigger] s[j] != c,
        decreases s.len() - r,
    {
        r = r + 1;
    }
    r
}

/// The found position is at or after the start, and nothing before it matches.
pub proof fn lemma_find(s: Seq<char>, c: char, i: int)
    requires
        0 <= i <= s.len(),
    ensures
        i <= find_from(s, c, i) <= s.len(),
        find_from(s, c, i) < s.len() ==> s[find_from(s, c, i)] == c,
        forall|j: int| i <= j < find_from(s, c, i) ==> #[trigger] s[j] != c,
    decreases s.len() - i,
{
    if i < s.len() && s[i] != c {
        lemma_find(s, c, i + 1);
    }
}

/// The part of a text between two positions.
pub fn slice(s: &Vec<char>, from: usize, to: usize) -> (r: Vec<char>)
    requires
        from <= to <= s.len(),
    ensures
        r@ == s@.subrange(from as int, to as int),
{
    let mut r: Vec<char> = Vec::new();
    let mut i: usize = from;
    while i < to
        invariant
            from <= i <= to <= s.len(),
            r@ == s@.subrange(from as int, i as int),
        decreases to - i,
    {
        r.push(s[i]);
        i = i + 1;
        assert(s@.subrange(from as int, i as int) =~= s@.subrange(from as int, i - 1).push(
            s@[i - 1],
        ));
    }
    r
}

/// `s` begins with `prefix`.
pub open spec fn starts_with(s: Seq<char>, prefix: Seq<char>) -> bool {
    prefix.len() <= s.len() && s.subrange(0, prefix.len() as int) == prefix
}

/// Whether `s` begins with `prefix`.
pub fn begins_with(s: &Vec<char>, prefix: &Vec<char>) -> (r: bool)
    ensures
        r == starts_with(s@, prefix@),
{
    if prefix.len() > s.len() {
        return false;
    }
    let mut i: usize = 0;
    while i < prefix.len()
        invariant
            prefix.len() <= s.len(),
            i <= prefix.len(),
            forall|j: int| 0 <= j < i ==> s[j] == #[trigger] prefix[j],
        decreases prefix.len() - i,
    {
        if s[i] != prefix[i] {
            assert(s@.subrange(0, prefix@.len() as int)[i as int] != prefix@[i as int]);
            return false;
        }
        i = i + 1;
    }
    assert(s@.subrange(0, prefix@.len() as int) =~= prefix@);
    true
}

/// `s` ends with `suffix`.
pub open spec fn ends_with(s: Seq<char>, suffix: Seq<char>) -> bool {
    suffix.len() <= s.len() && s.subrange(s.len() - suffix.len(), s.len() as int) == suffix
}

/// Whether `s` ends with `suffix`.
pub fn finishes_with(s: &Vec<char>, suffix: &Vec<char>) -> (r: bool)
    ensures
        r == ends_with(s@, suffix@),
{
    if suffix.len() > s.len() {
        return false;
    }
    let from: usize = s.len() - suffix.len();
    let mut i: usize = 0;
    while i < suffix.len()
        invariant
            suffix.len() <= s.len(),
            from == s.len() - suffix.len(),
            i <= suffix.len(),
            forall|j: int| 0 <= j < i ==> s[from + j] == #[trigger] suffix[j],
        decreases suffix.len() - i,
    {
        if s[from + i] != suffix[i] {
            assert(s@.subrange(from as int, s@.len() as int)[i as int] != suffix@[i as int]);
            return false;
        }
        i = i + 1;
    }
    assert(s@.subrange(from as int, s@.len() as int) =~= suffix@);
    true
}

/// Whether two texts are equal.
pub fn same_chars(a: &Vec<char>, b: &Vec<char>) -> (r: bool)
    ensures
        r == (a@ == b@),
{
    if a.len() != b.len() {
        return false;
    }
    let r = begins_with(a, b);
    assert(a@.subrange(0, b@.len() as int) =~= a@);
    r
}

/// Appends the characters of `b`.
pub fn add_chars(a: &mut Vec<char>, b: &Vec<char>)
    ensures
        final(a)@ == old(a)@ + b@,
{
    let ghost before = a@;
    let mut i: usize = 0;
    assert(before + b@.take(0) =~= before);
    while i < b.len()
        invariant
            i <= b.len(),
            a@ == before + b@.take(i as int),
        decreases b.len() - i,
    {
        a.push(b[i]);
        i = i + 1;
        assert(a@ =~= before + b@.take(i as int));
    }
    assert(b@.take(b@.len() as int) =~= b@);
}

/// Appends the characters of a text.
pub fn add_str(a: &mut Vec<char>, b: &str)
    ensures
        final(a)@ == old(a)@ + b@,
{
    let v = chars_of(b);
    add_chars(a, &v);
}

/// A line without the carriage return that belongs to its line feed.
pub open spec fn trimmed_line(s: Seq<char>, from: int, end: int) -> Seq<char> {
    if end < s.len() && from < end && s[end - 1] == '\r' {
        s.subrange(from, end - 1)
    } else {
        s.subrange(from, end)
    }
}

/// The lines of a text from position `i` on. A line ends with a line feed or
/// with a carriage return and a line feed; the last line may go without.
pub open spec fn lines_from(s: Seq<char>, i: int) -> Seq<Seq<char>>
    decreases s.len() + 1 - i,
{
    if i < 0 || i >= s.len() {
        Seq::empty()
    } else {
        let end = find_from(s, '\n', i);
        proof {
            lemma_find(s, '\n', i);
        }
        seq![trimmed_line(s, i, end)] + lines_from(s, end + 1)
    }
}

/// The lines of a text.
pub open spec fn lines_of(s: Seq<char>) -> Seq<Seq<char>> {
    lines_from(s, 0)
}

/// A list of texts as sequences.
pub open spec fn views(v: Seq<Vec<char>>) -> Seq<Seq<char>> {
    Seq::new(v.len(), |i: int| v[i]@)
}

/// The lines of a text.
pub fn split_lines(s: &Vec<char>) -> (lines: Vec<Vec<char>>)
    ensures
        views(lines@) == lines_of(s@),
{
    let mut lines: Vec<Vec<char>> = Vec::new();
    let mut i: usize = 0;
    assert(views(lines@) + lines_from(s@, 0) =~= lines_of(s@));
    while i < s.len()
        invariant
            i <= s.len(),
            views(lines@) + lines_from(s@, i as int) == lines_of(s@),
        decreases s.len() - i,
    {
        let ghost was = lines@;
        let end: usize = find_char(s, '\n', i);
        let stop: usize = if end < s.len() && i < end && s[end - 1] == '\r' {
            end - 1
        } else {
            end
        };
        let line = slice(s, i, stop);
        lines.push(line);
        proof {
            assert(views(lines@) =~= views(was) + seq![trimmed_line(s@, i as int, end as int)]);
            assert(views(lines@) + lines_from(s@, end + 1) =~= views(was) + (seq![
                trimmed_line(s@, i as int, end as int),
            ] + lines_from(s@, end + 1)));
        }
        if end < s.len() {
            i = end + 1;
        } else {
            proof {
                assert(lines_from(s@, end + 1) =~= Seq::empty());
                assert(lines_from(s@, end as int) =~= Seq::empty());
            }
            i = end;
        }
    }
    assert(views(lines@) + Seq::empty() =~= views(lines@));
    lines
}

/// Texts joined with a separator.
pub open spec fn joined(items: Seq<Seq<char>>, sep: Seq<char>) -> Seq<char>
    decreases items.len(),
{
    if items.len() == 0 {
        Seq::empty()
    } else if items.len() == 1 {
        items[0]
    } else {
        joined(items.drop_last(), sep) + sep + items.last()
    }
}

/// Texts joined with a separator.
pub fn join_chars(items: &Vec<Vec<char>>, sep: &str) -> (r: Vec<char>)
    ensures
        r@ == joined(views(items@), sep@),
{
    let mut r: Vec<char> = Vec::new();
    let mut i: usize = 0;
    assert(views(items@).take(0) =~= Seq::empty());
    while i < items.len()
        invariant
            i <= items.len(),
            r@ == joined(views(items@).take(i as int), sep@),
        decreases items.len() - i,
    {
        if i > 0 {
            add_str(&mut r, sep);
        }
        add_chars(&mut r, &items[i]);
        i = i + 1;
        proof {
            let taken = views(items@).take(i as int);
            assert(taken.drop_last() =~= views(items@).take(i - 1));
            assert(taken.last() == items@[i - 1]@);
            if i == 1 {
                assert(r@ =~= taken[0]);
            }
        }
    }
    assert(views(items@).take(items@.len() as int) =~= views(items@));
    r
}

/// A number that is filled up in front keeps its value, and has the width when it fits.
pub proof fn law_filling_keeps_the_value(n: int, width: int)
    requires
        0 <= n,
        0 <= width,
    ensures
        digits_value(zero_filled(decimal(n), width)) == n,
        zero_filled(decimal(n), width).len() == if decimal(n).len() < width {
            width
        } else {
            decimal(n).len() as int
        },
        forall|i: int|
            0 <= i < zero_filled(decimal(n), width).len() ==> '0' <= #[trigger] zero_filled(
                decimal(n),
                width,
            )[i] <= '9',
{
    law_decimal_reads_back(n);
    lemma_filled(decimal(n), width);
}

proof fn lemma_filled(s: Seq<char>, width: int)
    requires
        forall|i: int| 0 <= i < s.len() ==> '0' <= #[trigger] s[i] <= '9',
    ensures
        digits_value(zero_filled(s, width)) == digits_value(s),
        zero_filled(s, width).len() == if s.len() < width {
            width
        } else {
            s.len() as int
        },
        forall|i: int|
            0 <= i < zero_filled(s, width).len() ==> '0' <= #[trigger] zero_filled(s, width)[i]
                <= '9',
    decreases width - s.len(),
{
    if s.len() < width {
        lemma_leading_zero(s);
        lemma_filled(seq!['0'] + s, width);
    }
}

proof fn lemma_leading_zero(s: Seq<char>)
    ensures
        digits_value(seq!['0'] + s) == digits_value(s),
    decreases s.len(),
{
    let t = seq!['0'] + s;
    if s.len() == 0 {
        assert(t.drop_last() =~= Seq::<char>::empty());
        assert(digits_value(t.drop_last()) == 0);
        assert(t.last() == '0');
    } else {
        assert(t.drop_last() =~= seq!['0'] + s.drop_last());
        lemma_leading_zero(s.drop_last());
        assert(t.last() == s.last());
    }
}

/// A number below a power of ten has no more digits than its exponent.
pub proof fn law_decimal_is_short(n: int)
    requires
        0 <= n,
    ensures
        n < 10 ==> decimal(n).len() == 1,
        10 <= n < 100 ==> decimal(n).len() == 2,
        100 <= n < 1000 ==> decimal(n).len() == 3,
        1000 <= n < 10000 ==> decimal(n).len() == 4,
        n >= 10 ==> decimal(n).len() == decimal(n / 10).len() + 1,
{
    reveal_with_fuel(decimal, 4);
}

/// Joined texts keep their order: what is joined last stands last, behind the separator.
pub proof fn law_joined_ends_with_the_last(items: Seq<Seq<char>>, item: Seq<char>, sep: Seq<char>)
    ensures
        items.len() == 0 ==> joined(items.push(item), sep) == item,
        items.len() > 0 ==> joined(items.push(item), sep) == joined(items, sep) + sep + item,
{
    assert(items.push(item).drop_last() =~= items);
    assert(items.push(item).last() == item);
}

} // verus!
