//! JSON text of strings and numbers.

use vstd::prelude::*;
use crate::scalar::Scalar;
use crate::text;
use crate::text::{signed_text, Show};

verus! {

/// The character of a hexadecimal digit.
pub open spec fn hex_digit(d: int) -> char {
    if d < 10 {
        text::digit(d)
    } else if d == 10 {
        'a'
    } else if d == 11 {
        'b'
    } else if d == 12 {
        'c'
    } else if d == 13 {
        'd'
    } else if d == 14 {
        'e'
    } else {
        'f'
    }
}

fn hex_char(d: u32) -> (c: char)
    requires
        d < 16,
    ensures
        c == hex_digit(d as int),
{
    if d == 0 {
        '0'
    } else if d == 1 {
        '1'
    } else if d == 2 {
        '2'
    } else if d == 3 {
        '3'
    } else if d == 4 {
        '4'
    } else if d == 5 {
        '5'
    } else if d == 6 {
        '6'
    } else if d == 7 {
        '7'
    } else if d == 8 {
        '8'
    } else if d == 9 {
        '9'
    } else if d == 10 {
        'a'
    } else if d == 11 {
        'b'
    } else if d == 12 {
        'c'
    } else if d == 13 {
        'd'
    } else if d == 14 {
        'e'
    } else {
        'f'
    }
}

/// A character inside a JSON string.
pub open spec fn escape(c: char) -> Seq<char> {
    if c == '"' {
        seq!['\\', '"']
    } else if c == '\\' {
        seq!['\\', '\\']
    } else if c == '\n' {
        seq!['\\', 'n']
    } else if c == '\t' {
        seq!['\\', 't']
    } else if (c as int) < 32 {
        seq!['\\', 'u', '0', '0', hex_digit(c as int / 16), hex_digit(c as int % 16)]
    } else {
        seq![c]
    }
}

/// The inside of a JSON string.
pub open spec fn escaped(s: Seq<char>) -> Seq<char>
    decreases s.len(),
{
    if s.len() == 0 {
        Seq::empty()
    } else {
        escaped(s.drop_last()) + escape(s.last())
    }
}

/// A JSON string.
pub open spec fn quoted(s: Seq<char>) -> Seq<char> {
    seq!['"'] + escaped(s) + seq!['"']
}

fn push_escaped(out: &mut String, c: char)
    ensures
        final(out)@ == old(out)@ + escape(c),
{
    let ghost was = out@;
    if c == '"' {
        out.push('\\');
        out.push('"');
    } else if c == '\\' {
        out.push('\\');
        out.push('\\');
    } else if c == '\n' {
        out.push('\\');
        out.push('n');
    } else if c == '\t' {
        out.push('\\');
        out.push('t');
    } else {
        let code: u32 = c as u32;
        if code < 32 {
            out.push('\\');
            out.push('u');
            out.push('0');
            out.push('0');
            out.push(hex_char(code / 16));
            out.push(hex_char(code % 16));
        } else {
            out.push(c);
        }
    }
    assert(out@ =~= was + escape(c));
}

/// A JSON string.
pub fn json_str(s: &str) -> (out: String)
    ensures
        out@ == quoted(s@),
{
    let mut out = String::new();
    out.push('"');
    assert(out@ =~= seq!['"'] + escaped(Seq::empty()));
    for c in iter: s.chars()
        invariant
            iter.seq() == s@,
            out@ == seq!['"'] + escaped(s@.take(iter.index() as int)),
    {
        let ghost done = s@.take(iter.index() as int);
        push_escaped(&mut out, c);
        proof {
            let next = s@.take(iter.index() + 1);
            assert(next.drop_last() =~= done);
            assert(next.last() == c);
            assert(out@ =~= seq!['"'] + escaped(next));
        }
    }
    assert(s@.take(s@.len() as int) =~= s@);
    out.push('"');
    assert(out@ =~= quoted(s@));
    out
}

/// A JSON number: an integer value as an integer, another finite value as it is
/// shown, and null for what JSON has no number for.
pub open spec fn is_json_num<S: Show>(m: &S, v: Scalar, r: Seq<char>) -> bool {
    if !v.finite() {
        r == "null"@
    } else {
        ||| exists|n: int|
            #![trigger text::signed_decimal(n)]
            stands_for(v, n) && r == text::signed_decimal(n)
        ||| (forall|n: int| !#[trigger] stands_for(v, n)) && exists|shown: String|
            #[trigger] call_ensures(S::show, (m, v), shown) && r == shown@
    }
}

/// The value is the integer `n`, which is within the limit for integers.
pub open spec fn stands_for(v: Scalar, n: int) -> bool {
    &&& -crate::scalar::INTEGER_LIMIT < n < crate::scalar::INTEGER_LIMIT
    &&& v.units() == n * vstd::arithmetic::power2::pow2(1074)
}

/// A JSON number.
pub fn json_num<S: Show>(m: &S, v: Scalar) -> (r: String)
    ensures
        is_json_num(m, v, r@),
{
    if !v.is_finite() {
        return "null".to_owned();
    }
    match v.as_integer() {
        Some(n) => {
            let r = signed_text(n);
            assert(stands_for(v, n as int));
            r
        },
        None => m.show(v),
    }
}

/// A whole number below the limit for integers reads back: its text is digits behind an
/// optional minus sign, with neither point nor exponent, and they stand for its value.
pub proof fn law_whole_numbers_read_back<S: Show>(m: &S, v: Scalar, n: int, t: Seq<char>)
    requires
        v.finite(),
        stands_for(v, n),
        is_json_num(m, v, t),
    ensures
        text::signed_value(t) == n,
        v.units() == text::signed_value(t) * vstd::arithmetic::power2::pow2(1074),
        forall|i: int| 0 <= i < t.len() ==> '0' <= #[trigger] t[i] <= '9' || i == 0 && t[i] == '-',
{
    let k = choose|k: int|
        #![trigger text::signed_decimal(k)]
        stands_for(v, k) && t == text::signed_decimal(k);
    let unit = vstd::arithmetic::power2::pow2(1074);
    vstd::arithmetic::power2::lemma_pow2_pos(1074);
    assert(k == n) by (nonlinear_arith)
        requires
            k * unit == n * unit,
            unit > 0,
    ;
    let digits = text::decimal(if n < 0 {
        -n
    } else {
        n
    });
    text::law_decimal_reads_back(
        if n < 0 {
            -n
        } else {
            n
        },
    );
    if n < 0 {
        assert(t =~= seq!['-'] + digits);
        assert(t.drop_first() =~= digits);
        assert forall|i: int| 0 <= i < t.len() implies '0' <= #[trigger] t[i] <= '9' || i == 0
            && t[i] == '-' by {
            if i > 0 {
                assert(t[i] == digits[i - 1]);
            }
        }
    } else {
        assert(t[0] == digits[0]);
    }
}

/// A finite value reads back from its JSON text: a reader that gives every value back
/// from what it is shown as, and every whole number from its digits, does so.
pub proof fn law_numbers_read_back<S: Show>(
    m: &S,
    v: Scalar,
    t: Seq<char>,
    read: spec_fn(Seq<char>) -> Scalar,
)
    requires
        v.finite(),
        is_json_num(m, v, t),
        forall|x: Scalar, shown: String| #[trigger]
            call_ensures(S::show, (m, x), shown) && x.finite() ==> read(shown@).equals(x),
        forall|x: Scalar, n: int|
            #![trigger stands_for(x, n)]
            x.finite() && stands_for(x, n) ==> read(text::signed_decimal(n)).equals(x),
    ensures
        read(t).equals(v),
{
    if exists|n: int| #[trigger] stands_for(v, n) {
        let n = choose|n: int| #[trigger] stands_for(v, n);
        assert(stands_for(v, n));
        let k = choose|k: int|
            #![trigger text::signed_decimal(k)]
            stands_for(v, k) && t == text::signed_decimal(k);
        assert(stands_for(v, k));
    }
}

/// The value of a hexadecimal digit.
pub open spec fn hex_value(c: char) -> int {
    if '0' <= c <= '9' {
        c as int - '0' as int
    } else {
        c as int - 'a' as int + 10
    }
}

/// What a reader of JSON makes of the inside of a string: the first character,
/// and where the next one begins.
pub open spec fn read_one(t: Seq<char>, i: int) -> (char, int) {
    if t[i] != '\\' {
        (t[i], i + 1)
    } else if t[i + 1] == 'n' {
        ('\n', i + 2)
    } else if t[i + 1] == 't' {
        ('\t', i + 2)
    } else if t[i + 1] == 'u' {
        (
            (hex_value(t[i + 2]) * 4096 + hex_value(t[i + 3]) * 256 + hex_value(t[i + 4]) * 16
                + hex_value(t[i + 5])) as char,
            i + 6,
        )
    } else {
        (t[i + 1], i + 2)
    }
}

/// `t`, read from position `i` on as the inside of a JSON string, is `s`.
pub open spec fn reads(t: Seq<char>, i: int, s: Seq<char>) -> bool
    decreases s.len(),
{
    if s.len() == 0 {
        i == t.len()
    } else {
        0 <= i < t.len() && read_one(t, i).0 == s[0] && reads(t, read_one(t, i).1, s.drop_first())
    }
}

proof fn lemma_escape_reads(t: Seq<char>, i: int, c: char)
    requires
        0 <= i,
        i + escape(c).len() <= t.len(),
        t.subrange(i, i + escape(c).len()) == escape(c),
    ensures
        read_one(t, i) == (c, i + escape(c).len()),
{
    let e = escape(c);
    assert forall|k: int| 0 <= k < e.len() implies t[i + k] == #[trigger] e[k] by {
        assert(t.subrange(i, i + e.len())[k] == e[k]);
    }
    assert(t[i + 0] == e[0]);
    if e.len() >= 2 {
        assert(t[i + 1] == e[1]);
    }
    if e.len() == 6 {
        assert(t[i + 2] == e[2]);
        assert(t[i + 3] == e[3]);
        assert(t[i + 4] == e[4]);
        assert(t[i + 5] == e[5]);
        assert(hex_value(e[4]) == c as int / 16);
        assert(hex_value(e[5]) == c as int % 16);
    }
}

proof fn lemma_escaped_front(s: Seq<char>)
    requires
        s.len() > 0,
    ensures
        escaped(s) == escape(s[0]) + escaped(s.drop_first()),
    decreases s.len(),
{
    if s.len() == 1 {
        assert(s.drop_last() =~= Seq::empty());
        assert(s.drop_first() =~= Seq::empty());
        assert(escaped(s) =~= escape(s[0]) + escaped(s.drop_first()));
    } else {
        lemma_escaped_front(s.drop_last());
        assert(s.drop_last().drop_first() =~= s.drop_first().drop_last());
        assert(s.drop_last()[0] == s[0]);
        assert(s.drop_first().last() == s.last());
        assert(escaped(s) =~= escape(s[0]) + escaped(s.drop_first()));
    }
}

proof fn lemma_reads_from(t: Seq<char>, i: int, s: Seq<char>)
    requires
        0 <= i,
        t.len() == i + escaped(s).len(),
        t.subrange(i, t.len() as int) == escaped(s),
    ensures
        reads(t, i, s),
    decreases s.len(),
{
    if s.len() > 0 {
        lemma_escaped_front(s);
        let e = escape(s[0]);
        let rest = s.drop_first();
        assert(t.subrange(i, i + e.len()) =~= e) by {
            assert forall|k: int| 0 <= k < e.len() implies t[i + k] == #[trigger] e[k] by {
                assert(t.subrange(i, t.len() as int)[k] == escaped(s)[k]);
            }
        }
        lemma_escape_reads(t, i, s[0]);
        assert(t.subrange(i + e.len(), t.len() as int) =~= escaped(rest)) by {
            assert forall|k: int| 0 <= k < escaped(rest).len() implies t[i + e.len() + k]
                == #[trigger] escaped(rest)[k] by {
                assert(t.subrange(i, t.len() as int)[e.len() + k] == escaped(s)[e.len() + k]);
            }
        }
        lemma_reads_from(t, i + e.len(), rest);
    }
}

/// Reading a JSON string gives back the text that was written.
pub proof fn law_reading_undoes_writing(s: Seq<char>)
    ensures
        reads(escaped(s), 0, s),
{
    assert(escaped(s).subrange(0, escaped(s).len() as int) =~= escaped(s));
    lemma_reads_from(escaped(s), 0, s);
}

/// A JSON string is a single line without control characters, whatever it holds.
pub proof fn law_no_control_characters(s: Seq<char>, k: int)
    requires
        0 <= k < quoted(s).len(),
    ensures
        quoted(s)[k] as int >= 32,
{
    lemma_escaped_printable(s);
}

proof fn lemma_escaped_printable(s: Seq<char>)
    ensures
        forall|k: int| 0 <= k < escaped(s).len() ==> (#[trigger] escaped(s)[k]) as int >= 32,
    decreases s.len(),
{
    if s.len() > 0 {
        lemma_escaped_printable(s.drop_last());
        let c = s.last();
        let e = escape(c);
        assert forall|k: int| 0 <= k < e.len() implies (#[trigger] e[k]) as int >= 32 by {
            if e.len() == 6 && k >= 4 {
                assert(c as int / 16 < 16 && c as int % 16 < 16);
            }
        }
        let front = escaped(s.drop_last());
        assert forall|k: int| 0 <= k < escaped(s).len() implies (#[trigger] escaped(s)[k]) as int
            >= 32 by {
            if k < front.len() {
                assert(escaped(s)[k] == front[k]);
            } else {
                assert(escaped(s)[k] == e[k - front.len()]);
            }
        }
    }
}

/// What is not a finite number has no JSON number: its text is null.
pub proof fn law_no_number_is_null<S: Show>(m: &S, v: Scalar, r: String)
    requires
        call_ensures(json_num::<S>, (m, v), r),
        !v.finite(),
    ensures
        r@.len() == 4,
        r@[0] == 'n' && r@[1] == 'u' && r@[2] == 'l' && r@[3] == 'l',
{
    reveal_strlit("null");
}

/// A JSON string begins and ends with a quotation mark.
pub proof fn law_strings_are_quoted(s: &str, out: String)
    requires
        call_ensures(json_str, (s,), out),
    ensures
        out@.len() >= s@.len() + 2,
        out@[0] == '"' && out@.last() == '"',
{
    lemma_escaped_is_longer(s@);
}

proof fn lemma_escaped_is_longer(s: Seq<char>)
    ensures
        escaped(s).len() >= s.len(),
    decreases s.len(),
{
    if s.len() > 0 {
        lemma_escaped_is_longer(s.drop_last());
    }
}

} // verus!
