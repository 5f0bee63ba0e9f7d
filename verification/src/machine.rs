//! Names for the machine that results were measured on, and the turn-taking of
//! the writers of its files.

use vstd::prelude::*;
use crate::text;
use crate::text::{
    add_chars, begins_with, chars_of, decimal_text, finishes_with, same_chars, slice, split_lines,
    string_of,
};

verus! {

/// The white space of Unicode.
pub open spec fn is_white(c: char) -> bool {
    let n = c as int;
    ||| 0x9 <= n <= 0xd
    ||| n == 0x20
    ||| n == 0x85
    ||| n == 0xa0
    ||| n == 0x1680
    ||| 0x2000 <= n <= 0x200a
    ||| n == 0x2028
    ||| n == 0x2029
    ||| n == 0x202f
    ||| n == 0x205f
    ||| n == 0x3000
}

fn white(c: char) -> (r: bool)
    ensures
        r == is_white(c),
{
    let n: u32 = c as u32;
    (0x9 <= n && n <= 0xd) || n == 0x20 || n == 0x85 || n == 0xa0 || n == 0x1680 || (0x2000 <= n
        && n <= 0x200a) || n == 0x2028 || n == 0x2029 || n == 0x202f || n == 0x205f || n == 0x3000
}

/// Position of the first white space at or after `i`, the length when there is none.
pub open spec fn white_from(s: Seq<char>, i: int) -> int
    decreases s.len() - i,
{
    if i >= s.len() || is_white(s[i]) {
        i
    } else {
        white_from(s, i + 1)
    }
}

pub proof fn lemma_white_from(s: Seq<char>, i: int)
    requires
        0 <= i <= s.len(),
    ensures
        i <= white_from(s, i) <= s.len(),
    decreases s.len() - i,
{
    if i < s.len() && !is_white(s[i]) {
        lemma_white_from(s, i + 1);
    }
}

/// The words of a text from position `i` on: the runs without white space.
pub open spec fn words_from(s: Seq<char>, i: int) -> Seq<Seq<char>>
    decreases s.len() - i,
{
    if i < 0 || i >= s.len() {
        Seq::empty()
    } else if is_white(s[i]) {
        words_from(s, i + 1)
    } else {
        let end = white_from(s, i + 1);
        proof {
            lemma_white_from(s, i + 1);
        }
        seq![s.subrange(i, end)] + words_from(s, end)
    }
}

/// The words of a text: the runs without white space.
pub open spec fn words_of(s: Seq<char>) -> Seq<Seq<char>> {
    words_from(s, 0)
}

fn split_words(s: &Vec<char>) -> (words: Vec<Vec<char>>)
    ensures
        text::views(words@) == words_of(s@),
{
    let mut words: Vec<Vec<char>> = Vec::new();
    let mut i: usize = 0;
    assert(text::views(words@) + words_from(s@, 0) =~= words_of(s@));
    while i < s.len()
        invariant
            i <= s.len(),
            text::views(words@) + words_from(s@, i as int) == words_of(s@),
        decreases s.len() - i,
    {
        if white(s[i]) {
            i = i + 1;
        } else {
            let ghost was = words@;
            let mut end: usize = i + 1;
            while end < s.len() && !white(s[end])
                invariant
                    i < end <= s.len(),
                    white_from(s@, end as int) == white_from(s@, i + 1),
                decreases s.len() - end,
            {
                end = end + 1;
            }
            let word = slice(s, i, end);
            words.push(word);
            proof {
                assert(text::views(words@) =~= text::views(was) + seq![word@]);
                assert(text::views(words@) + words_from(s@, end as int) =~= text::views(was) + (
                seq![word@] + words_from(s@, end as int)));
            }
            i = end;
        }
    }
    assert(text::views(words@) + Seq::empty() =~= text::views(words@));
    words
}

/// A letter of the ASCII alphabet in lower case; every other character as it is.
pub open spec fn lowered(c: char) -> char {
    if 'A' <= c <= 'Z' {
        (c as int + 32) as char
    } else {
        c
    }
}

fn lower(c: char) -> (r: char)
    ensures
        r == lowered(c),
{
    if 'A' <= c && c <= 'Z' {
        (c as u8 + 32) as char
    } else {
        c
    }
}

/// A text with every occurrence of `pat`, from the left, taken out.
pub open spec fn without(s: Seq<char>, pat: Seq<char>) -> Seq<char>
    decreases s.len(),
{
    if s.len() == 0 || pat.len() == 0 {
        s
    } else if text::starts_with(s, pat) {
        without(s.subrange(pat.len() as int, s.len() as int), pat)
    } else {
        seq![s[0]] + without(s.subrange(1, s.len() as int), pat)
    }
}

fn take_out(s: &Vec<char>, pat: &str) -> (r: Vec<char>)
    requires
        pat@.len() > 0,
    ensures
        r@ == without(s@, pat@),
{
    let p = chars_of(pat);
    let mut r: Vec<char> = Vec::new();
    let mut i: usize = 0;
    assert(s@.subrange(0, s@.len() as int) =~= s@);
    assert(r@ + without(s@, p@) =~= without(s@, p@));
    while i < s.len()
        invariant
            p@ == pat@,
            p.len() > 0,
            i <= s.len(),
            r@ + without(s@.subrange(i as int, s@.len() as int), p@) == without(s@, p@),
        decreases s.len() - i,
    {
        let ghost rest = s@.subrange(i as int, s@.len() as int);
        let tail = slice(s, i, s.len());
        if begins_with(&tail, &p) {
            proof {
                assert(rest.subrange(p@.len() as int, rest.len() as int) =~= s@.subrange(
                    i + p@.len(),
                    s@.len() as int,
                ));
            }
            i = i + p.len();
        } else {
            let ghost was = r@;
            r.push(s[i]);
            proof {
                let next = s@.subrange(i + 1, s@.len() as int);
                assert(rest.subrange(1, rest.len() as int) =~= next);
                assert(rest[0] == s@[i as int]);
                assert(r@ + without(next, p@) =~= was + (seq![rest[0]] + without(next, p@)));
            }
            i = i + 1;
        }
    }
    assert(s@.subrange(s@.len() as int, s@.len() as int) =~= Seq::empty());
    assert(r@ + Seq::empty() =~= r@);
    r
}

/// A character of a machine name.
pub open spec fn is_slug_char(c: char) -> bool {
    ||| '0' <= c <= '9'
    ||| 'a' <= c <= 'z'
    ||| 'A' <= c <= 'Z'
    ||| c == '-'
    ||| c == '.'
}

fn slug_char(c: char) -> (r: bool)
    ensures
        r == is_slug_char(c),
{
    ('0' <= c && c <= '9') || ('a' <= c && c <= 'z') || ('A' <= c && c <= 'Z') || c == '-' || c
        == '.'
}

/// The first `n` characters of a text, those that a machine name cannot hold
/// left out.
pub open spec fn only_slug(s: Seq<char>, n: int) -> Seq<char>
    decreases n,
{
    if n <= 0 {
        Seq::empty()
    } else if is_slug_char(s[n - 1]) {
        only_slug(s, n - 1).push(s[n - 1])
    } else {
        only_slug(s, n - 1)
    }
}

/// A text in lower case.
pub open spec fn all_lowered(s: Seq<char>) -> Seq<char> {
    Seq::new(s.len(), |i: int| lowered(s[i]))
}

/// A word of a brand text, without trade marks and without characters that a
/// machine name cannot hold.
pub open spec fn cleaned(word: Seq<char>) -> Seq<char> {
    let t = without(without(without(all_lowered(word), "(r)"@), "(tm)"@), "(c)"@);
    only_slug(t, t.len() as int)
}

fn clean(word: &Vec<char>) -> (r: Vec<char>)
    ensures
        r@ == cleaned(word@),
{
    let mut low: Vec<char> = Vec::new();
    let mut i: usize = 0;
    while i < word.len()
        invariant
            i <= word.len(),
            low.len() == i,
            forall|j: int| 0 <= j < i ==> #[trigger] low[j] == lowered(word[j]),
        decreases word.len() - i,
    {
        low.push(lower(word[i]));
        i = i + 1;
    }
    assert(low@ =~= all_lowered(word@));
    proof {
        reveal_strlit("(r)");
        reveal_strlit("(tm)");
        reveal_strlit("(c)");
    }
    let t = take_out(&take_out(&take_out(&low, "(r)"), "(tm)"), "(c)");
    let mut r: Vec<char> = Vec::new();
    let mut i: usize = 0;
    while i < t.len()
        invariant
            i <= t.len(),
            r@ == only_slug(t@, i as int),
        decreases t.len() - i,
    {
        if slug_char(t[i]) {
            r.push(t[i]);
        }
        i = i + 1;
    }
    r
}

/// A word that says nothing about which machine it is: filler, a frequency or a
/// core count.
pub open spec fn is_filler(t: Seq<char>) -> bool {
    ||| t.len() == 0
    ||| t == "processor"@
    ||| t == "cpu"@
    ||| t == "with"@
    ||| t == "@"@
    ||| text::ends_with(t, "ghz"@)
    ||| text::ends_with(t, "-core"@)
}

fn filler(t: &Vec<char>) -> (r: bool)
    ensures
        r == is_filler(t@),
{
    t.len() == 0 || same_chars(t, &chars_of("processor")) || same_chars(t, &chars_of("cpu"))
        || same_chars(t, &chars_of("with")) || same_chars(t, &chars_of("@")) || finishes_with(
        t,
        &chars_of("ghz"),
    ) || finishes_with(t, &chars_of("-core"))
}

/// Position of the first character at or after `i` that is no hyphen.
pub open spec fn dashes_end(s: Seq<char>, i: int) -> int
    decreases s.len() - i,
{
    if i < s.len() && s[i] == '-' {
        dashes_end(s, i + 1)
    } else {
        i
    }
}

/// Position after the last character before `i` that is no hyphen.
pub open spec fn dashes_start(s: Seq<char>, low: int, i: int) -> int
    decreases i,
{
    if i > low && i > 0 && s[i - 1] == '-' {
        dashes_start(s, low, i - 1)
    } else {
        i
    }
}

/// A text without the hyphens at its two ends.
pub open spec fn undashed(s: Seq<char>) -> Seq<char> {
    let a = dashes_end(s, 0);
    s.subrange(a, dashes_start(s, a, s.len() as int))
}

fn trim_dashes(s: &Vec<char>) -> (r: Vec<char>)
    ensures
        r@ == undashed(s@),
{
    let mut a: usize = 0;
    while a < s.len() && s[a] == '-'
        invariant
            a <= s.len(),
            dashes_end(s@, a as int) == dashes_end(s@, 0),
        decreases s.len() - a,
    {
        a = a + 1;
    }
    let mut b: usize = s.len();
    while b > a && s[b - 1] == '-'
        invariant
            a <= b <= s.len(),
            dashes_start(s@, a as int, b as int) == dashes_start(
                s@,
                a as int,
                s@.len() as int,
            ),
        decreases b,
    {
        b = b - 1;
    }
    slice(s, a, b)
}

/// The name that the first `n` words make: the telling words, cleaned and joined
/// with hyphens.
pub open spec fn slug_of(words: Seq<Seq<char>>, n: int) -> Seq<char>
    decreases n,
{
    if n <= 0 {
        Seq::empty()
    } else {
        let before = slug_of(words, n - 1);
        let t = cleaned(words[n - 1]);
        if is_filler(t) {
            before
        } else if before.len() == 0 {
            undashed(t)
        } else {
            before + seq!['-'] + undashed(t)
        }
    }
}

/// The name of a machine: the brand of its processor, or where that says nothing
/// its architecture, cleaned, and the number of its cores.
pub open spec fn label_of(brand: Seq<char>, arch: Seq<char>, cores: int) -> Seq<char> {
    let words = words_of(brand);
    let slug = slug_of(words, words.len() as int);
    (if slug.len() == 0 {
        cleaned(arch)
    } else {
        slug
    }) + seq!['-'] + text::decimal(cores) + seq!['c']
}

/// The name of a machine from its hardware. Without a brand the architecture
/// stands in for it.
pub fn machine_label(brand: Option<&str>, arch: &str, cores: u64) -> (r: String)
    ensures
        r@ == label_of(
            match brand {
                Some(b) => b@,
                None => arch@,
            },
            arch@,
            cores as int,
        ),
{
    let source = match brand {
        Some(b) => chars_of(b),
        None => chars_of(arch),
    };
    let words = split_words(&source);
    let mut slug: Vec<char> = Vec::new();
    let mut i: usize = 0;
    while i < words.len()
        invariant
            i <= words.len(),
            slug@ == slug_of(text::views(words@), i as int),
        decreases words.len() - i,
    {
        let t = clean(&words[i]);
        assert(text::views(words@)[i as int] == words@[i as int]@);
        if !filler(&t) {
            let ghost was = slug@;
            if slug.len() > 0 {
                slug.push('-');
            }
            let core = trim_dashes(&t);
            add_chars(&mut slug, &core);
            proof {
                if was.len() == 0 {
                    assert(slug@ =~= core@);
                } else {
                    assert(slug@ =~= was + seq!['-'] + core@);
                }
            }
        }
        i = i + 1;
    }
    assert(text::views(words@).len() == words@.len());
    let mut out = if slug.len() == 0 {
        string_of(&clean(&chars_of(arch)))
    } else {
        string_of(&slug)
    };
    out.push('-');
    out.append(decimal_text(cores).as_str());
    out.push('c');
    assert(out@ =~= label_of(source@, arch@, cores as int));
    out
}

proof fn lemma_only_slug(s: Seq<char>, n: int)
    requires
        0 <= n <= s.len(),
    ensures
        forall|k: int|
            0 <= k < only_slug(s, n).len() ==> is_slug_char(#[trigger] only_slug(s, n)[k]),
    decreases n,
{
    if n > 0 {
        lemma_only_slug(s, n - 1);
        let p = only_slug(s, n - 1);
        let q = only_slug(s, n);
        assert forall|k: int| 0 <= k < q.len() implies is_slug_char(#[trigger] q[k]) by {
            if k < p.len() {
                assert(q[k] == p[k]);
            }
        }
    }
}

proof fn lemma_dashes(s: Seq<char>)
    ensures
        0 <= dashes_end(s, 0) <= s.len(),
        dashes_end(s, 0) <= dashes_start(s, dashes_end(s, 0), s.len() as int) <= s.len(),
{
    lemma_dashes_end(s, 0);
    lemma_dashes_start(s, dashes_end(s, 0), s.len() as int);
}

proof fn lemma_dashes_end(s: Seq<char>, i: int)
    requires
        0 <= i <= s.len(),
    ensures
        i <= dashes_end(s, i) <= s.len(),
    decreases s.len() - i,
{
    if i < s.len() && s[i] == '-' {
        lemma_dashes_end(s, i + 1);
    }
}

proof fn lemma_dashes_start(s: Seq<char>, low: int, i: int)
    requires
        0 <= low <= i <= s.len(),
    ensures
        low <= dashes_start(s, low, i) <= i,
    decreases i,
{
    if i > low && i > 0 && s[i - 1] == '-' {
        lemma_dashes_start(s, low, i - 1);
    }
}

proof fn lemma_cleaned_chars(w: Seq<char>)
    ensures
        forall|k: int| 0 <= k < cleaned(w).len() ==> is_slug_char(#[trigger] cleaned(w)[k]),
{
    let u = without(without(without(all_lowered(w), "(r)"@), "(tm)"@), "(c)"@);
    lemma_only_slug(u, u.len() as int);
}

proof fn lemma_slug_chars(words: Seq<Seq<char>>, n: int)
    requires
        0 <= n <= words.len(),
    ensures
        forall|k: int|
            0 <= k < slug_of(words, n).len() ==> is_slug_char(#[trigger] slug_of(words, n)[k]),
    decreases n,
{
    if n > 0 {
        lemma_slug_chars(words, n - 1);
        let before = slug_of(words, n - 1);
        let t = cleaned(words[n - 1]);
        lemma_cleaned_chars(words[n - 1]);
        lemma_dashes(t);
        let core = undashed(t);
        assert forall|k: int| 0 <= k < core.len() implies is_slug_char(#[trigger] core[k]) by {
            assert(core[k] == t[dashes_end(t, 0) + k]);
        }
        let now = slug_of(words, n);
        assert forall|k: int| 0 <= k < now.len() implies is_slug_char(#[trigger] now[k]) by {
            if !is_filler(t) && before.len() > 0 {
                if k < before.len() {
                    assert(now[k] == before[k]);
                } else if k > before.len() {
                    assert(now[k] == core[k - before.len() - 1]);
                }
            }
        }
    }
}

proof fn lemma_decimal_chars(n: int)
    requires
        0 <= n,
    ensures
        forall|k: int|
            0 <= k < text::decimal(n).len() ==> is_slug_char(#[trigger] text::decimal(n)[k]),
    decreases n,
{
    if n >= 10 {
        lemma_decimal_chars(n / 10);
        let p = text::decimal(n / 10);
        let q = text::decimal(n);
        assert forall|k: int| 0 <= k < q.len() implies is_slug_char(#[trigger] q[k]) by {
            if k < p.len() {
                assert(q[k] == p[k]);
            }
        }
    }
}

/// A machine name holds nothing but letters, digits, hyphens and points, and
/// ends with a hyphen, the core count and a `c`.
pub proof fn law_label_is_a_slug(brand: Seq<char>, arch: Seq<char>, cores: int, k: int)
    requires
        0 <= cores,
        0 <= k < label_of(brand, arch, cores).len(),
    ensures
        is_slug_char(label_of(brand, arch, cores)[k]),
        (seq!['-'] + text::decimal(cores) + seq!['c']).is_suffix_of(label_of(brand, arch, cores)),
{
    let words = words_of(brand);
    lemma_slug_chars(words, words.len() as int);
    lemma_decimal_chars(cores);
    lemma_cleaned_chars(arch);
    let slug = slug_of(words, words.len() as int);
    let head = if slug.len() == 0 {
        cleaned(arch)
    } else {
        slug
    };
    let d = text::decimal(cores);
    let all = label_of(brand, arch, cores);
    if k < head.len() {
        assert(all[k] == head[k]);
    } else if k == head.len() {
        assert(all[k] == '-');
    } else if k < head.len() + 1 + d.len() {
        assert(all[k] == d[k - head.len() - 1]);
    }
    let tail = seq!['-'] + d + seq!['c'];
    assert(all.subrange(all.len() - tail.len(), all.len() as int) =~= tail);
}

/// A character that stands between the name of a processor field and its value.
pub open spec fn is_field_gap(c: char) -> bool {
    c == ' ' || c == '\t' || c == ':'
}

/// Position of the first character at or after `i` that is no gap.
pub open spec fn gap_end(s: Seq<char>, i: int) -> int
    decreases s.len() - i,
{
    if i < s.len() && is_field_gap(s[i]) {
        gap_end(s, i + 1)
    } else {
        i
    }
}

/// Position of the first character at or after `i` that is no white space.
pub open spec fn white_end(s: Seq<char>, i: int) -> int
    decreases s.len() - i,
{
    if i < s.len() && is_white(s[i]) {
        white_end(s, i + 1)
    } else {
        i
    }
}

/// Position after the last character before `i` that is no white space.
pub open spec fn white_start(s: Seq<char>, low: int, i: int) -> int
    decreases i,
{
    if i > low && i > 0 && is_white(s[i - 1]) {
        white_start(s, low, i - 1)
    } else {
        i
    }
}

/// What stands from `from` on, without white space around it.
pub open spec fn trimmed(s: Seq<char>, from: int) -> Seq<char> {
    let a = white_end(s, from);
    s.subrange(a, white_start(s, a, s.len() as int))
}

/// The value of a processor field: what follows its name, without the gap and
/// without white space around it.
pub open spec fn field_value(line: Seq<char>, name: int) -> Seq<char> {
    trimmed(line, gap_end(line, name))
}

/// The first of the lines from `i` on that begins with the brand field.
pub open spec fn brand_line(lines: Seq<Seq<char>>, i: int) -> Option<Seq<char>>
    decreases lines.len() - i,
{
    if i < 0 || i >= lines.len() {
        None
    } else if text::starts_with(lines[i], "model name"@) {
        Some(lines[i])
    } else {
        brand_line(lines, i + 1)
    }
}

/// The brand of the processor in a text of its fields.
pub open spec fn brand_of(info: Seq<char>) -> Option<Seq<char>> {
    match brand_line(text::lines_of(info), 0) {
        Some(line) => Some(field_value(line, "model name"@.len() as int)),
        None => None,
    }
}

fn trim(s: &Vec<char>, from: usize) -> (r: Vec<char>)
    requires
        from <= s.len(),
    ensures
        r@ == trimmed(s@, from as int),
{
    let mut a: usize = from;
    while a < s.len() && white(s[a])
        invariant
            from <= a <= s.len(),
            white_end(s@, a as int) == white_end(s@, from as int),
        decreases s.len() - a,
    {
        a = a + 1;
    }
    let mut b: usize = s.len();
    while b > a && white(s[b - 1])
        invariant
            a <= b <= s.len(),
            white_start(s@, a as int, b as int) == white_start(s@, a as int, s@.len() as int),
        decreases b,
    {
        b = b - 1;
    }
    slice(s, a, b)
}

fn value_of(line: &Vec<char>, name: usize) -> (r: Vec<char>)
    requires
        name <= line.len(),
    ensures
        r@ == field_value(line@, name as int),
{
    let mut a: usize = name;
    while a < line.len() && (line[a] == ' ' || line[a] == '\t' || line[a] == ':')
        invariant
            a <= line.len(),
            gap_end(line@, a as int) == gap_end(line@, name as int),
        decreases line.len() - a,
    {
        a = a + 1;
    }
    trim(line, a)
}

/// The brand of the processor from the text that the kernel gives of it.
pub fn cpu_brand(info: &str) -> (r: Option<String>)
    ensures
        match r {
            Some(b) => brand_of(info@) == Some(b@),
            None => brand_of(info@) is None,
        },
{
    let lines = split_lines(&chars_of(info));
    let name = chars_of("model name");
    let ghost all = text::lines_of(info@);
    let mut i: usize = 0;
    while i < lines.len()
        invariant
            all == text::lines_of(info@),
            text::views(lines@) == all,
            name@ == "model name"@,
            i <= lines.len(),
            brand_line(all, i as int) == brand_line(all, 0),
        decreases lines.len() - i,
    {
        assert(all[i as int] == lines@[i as int]@);
        if begins_with(&lines[i], &name) {
            let value = value_of(&lines[i], name.len());
            assert(brand_line(all, i as int) == Some(all[i as int]));
            return Some(string_of(&value));
        }
        i = i + 1;
    }
    assert(all.len() == lines@.len());
    None
}

/// The name of the current commit, from what the version control system printed
/// where it could be asked.
pub fn commit_label(printed: Option<&str>) -> (r: String)
    ensures
        r@ == match printed {
            Some(s) => if trimmed(s@, 0).len() == 0 {
                "unknown"@
            } else {
                trimmed(s@, 0)
            },
            None => "unknown"@,
        },
{
    match printed {
        Some(s) => {
            let name = trim(&chars_of(s), 0);
            if name.len() == 0 {
                "unknown".to_owned()
            } else {
                string_of(&name)
            }
        },
        None => "unknown".to_owned(),
    }
}

/// What a writer does when the lock it wants is taken.
#[derive(Debug, Clone, Copy, PartialEq, Eq, Structural)]
pub enum LockMove {
    /// Remove the lock of a writer that never came back, and try again at once.
    BreakStale,
    /// Give up.
    TimeOut,
    /// Try again after a while.
    Wait,
}

/// Seconds after which a lock counts as left behind.
pub const STALE_SECS: u64 = 30;

/// Seconds that a writer waits for its turn.
pub const PATIENCE_SECS: u64 = 20;

/// Milliseconds between two tries.
pub const RETRY_MILLIS: u64 = 25;

/// Decides what to do about a lock that is taken, from its age in seconds and
/// nanoseconds, where that is known, and from whether the deadline has passed.
pub fn lock_move(age: Option<(u64, u32)>, past_deadline: bool) -> (r: LockMove)
    ensures
        r == LockMove::BreakStale <==> (age matches Some((s, n)) && (s > STALE_SECS || (s
            == STALE_SECS && n > 0))),
        r == LockMove::TimeOut <==> r != LockMove::BreakStale && past_deadline,
        r == LockMove::Wait <==> r != LockMove::BreakStale && !past_deadline,
{
    let stale = match age {
        Some((s, n)) => s > STALE_SECS || (s == STALE_SECS && n > 0),
        None => false,
    };
    if stale {
        LockMove::BreakStale
    } else if past_deadline {
        LockMove::TimeOut
    } else {
        LockMove::Wait
    }
}

/// A word is not empty and holds no white space.
pub proof fn law_words_hold_no_white_space(s: Seq<char>, i: int, k: int)
    requires
        0 <= i,
        0 <= k < words_from(s, i).len(),
    ensures
        words_from(s, i)[k].len() > 0,
        forall|j: int|
            0 <= j < words_from(s, i)[k].len() ==> !is_white(#[trigger] words_from(s, i)[k][j]),
    decreases s.len() - i,
{
    if i < s.len() {
        if is_white(s[i]) {
            law_words_hold_no_white_space(s, i + 1, k);
        } else {
            let end = white_from(s, i + 1);
            lemma_white_from(s, i + 1);
            lemma_black_run(s, i + 1);
            let word = s.subrange(i, end);
            if k == 0 {
                assert(words_from(s, i)[0] == word);
                assert forall|j: int| 0 <= j < word.len() implies !is_white(#[trigger] word[j]) by {
                    assert(word[j] == s[i + j]);
                }
            } else {
                law_words_hold_no_white_space(s, end, k - 1);
                assert(words_from(s, i)[k] == words_from(s, end)[k - 1]);
            }
        }
    }
}

proof fn lemma_black_run(s: Seq<char>, i: int)
    requires
        0 <= i <= s.len(),
    ensures
        forall|j: int| i <= j < white_from(s, i) ==> !is_white(#[trigger] s[j]),
        white_from(s, i) < s.len() ==> is_white(s[white_from(s, i)]),
    decreases s.len() - i,
{
    if i < s.len() && !is_white(s[i]) {
        lemma_black_run(s, i + 1);
    }
}

/// The characters of a text from position `i` on that are no white space.
pub open spec fn black_from(s: Seq<char>, i: int) -> Seq<char>
    decreases s.len() - i,
{
    if i < 0 || i >= s.len() {
        Seq::empty()
    } else if is_white(s[i]) {
        black_from(s, i + 1)
    } else {
        seq![s[i]] + black_from(s, i + 1)
    }
}

/// Texts written one after another.
pub open spec fn run_together(items: Seq<Seq<char>>) -> Seq<char>
    decreases items.len(),
{
    if items.len() == 0 {
        Seq::empty()
    } else {
        items[0] + run_together(items.drop_first())
    }
}

/// The words of a text are all of it but the white space, in its order.
pub proof fn law_words_keep_all_but_white_space(s: Seq<char>, i: int)
    requires
        0 <= i <= s.len(),
    ensures
        run_together(words_from(s, i)) == black_from(s, i),
    decreases s.len() - i,
{
    if i < s.len() {
        if is_white(s[i]) {
            law_words_keep_all_but_white_space(s, i + 1);
        } else {
            let end = white_from(s, i + 1);
            lemma_white_from(s, i + 1);
            lemma_black_run(s, i + 1);
            law_words_keep_all_but_white_space(s, end);
            let words = words_from(s, i);
            assert(words.drop_first() =~= words_from(s, end));
            assert(words[0] == s.subrange(i, end));
            lemma_black_together(s, i, end);
        }
    }
}

proof fn lemma_black_together(s: Seq<char>, i: int, end: int)
    requires
        0 <= i <= end <= s.len(),
        forall|j: int| i <= j < end ==> !is_white(#[trigger] s[j]),
    ensures
        black_from(s, i) == s.subrange(i, end) + black_from(s, end),
    decreases end - i,
{
    if i < end {
        lemma_black_together(s, i + 1, end);
        assert(s.subrange(i, end) =~= seq![s[i]] + s.subrange(i + 1, end));
        assert(black_from(s, i) =~= s.subrange(i, end) + black_from(s, end));
    } else {
        assert(s.subrange(i, end) =~= Seq::<char>::empty());
        assert(black_from(s, i) =~= s.subrange(i, end) + black_from(s, end));
    }
}

/// A machine is named in lower case, so the case of its brand does not matter, and a cleaned
/// word holds no capital.
pub proof fn law_case_does_not_matter(word: Seq<char>, k: int)
    ensures
        cleaned(all_lowered(word)) == cleaned(word),
        0 <= k < cleaned(word).len() ==> !is_capital(cleaned(word)[k]),
{
    assert(all_lowered(all_lowered(word)) =~= all_lowered(word));
    let a = without(all_lowered(word), "(r)"@);
    let b = without(a, "(tm)"@);
    let t = without(b, "(c)"@);
    lemma_no_capitals(all_lowered(word), "(r)"@);
    lemma_no_capitals(a, "(tm)"@);
    lemma_no_capitals(b, "(c)"@);
    lemma_slug_no_capitals(t, t.len() as int);
}

/// A capital letter of the ASCII alphabet.
pub open spec fn is_capital(c: char) -> bool {
    'A' <= c && c <= 'Z'
}

proof fn lemma_no_capitals(s: Seq<char>, pat: Seq<char>)
    requires
        forall|i: int| 0 <= i < s.len() ==> !is_capital(#[trigger] s[i]),
    ensures
        forall|i: int|
            0 <= i < without(s, pat).len() ==> !is_capital(#[trigger] without(s, pat)[i]),
    decreases s.len(),
{
    if s.len() > 0 && pat.len() > 0 {
        if text::starts_with(s, pat) {
            let rest = s.subrange(pat.len() as int, s.len() as int);
            lemma_no_capitals(rest, pat);
            assert(without(s, pat) == without(rest, pat));
        } else {
            let rest = s.subrange(1, s.len() as int);
            lemma_no_capitals(rest, pat);
            let p = without(rest, pat);
            let q = without(s, pat);
            assert forall|k: int| 0 <= k < q.len() implies !is_capital(#[trigger] q[k]) by {
                if k == 0 {
                    assert(q[0] == s[0]);
                } else {
                    assert(q[k] == p[k - 1]);
                }
            }
        }
    }
}

proof fn lemma_slug_no_capitals(s: Seq<char>, n: int)
    requires
        0 <= n <= s.len(),
        forall|i: int| 0 <= i < s.len() ==> !is_capital(#[trigger] s[i]),
    ensures
        forall|i: int|
            0 <= i < only_slug(s, n).len() ==> !is_capital(#[trigger] only_slug(s, n)[i]),
    decreases n,
{
    if n > 0 {
        lemma_slug_no_capitals(s, n - 1);
        let p = only_slug(s, n - 1);
        let q = only_slug(s, n);
        assert forall|k: int| 0 <= k < q.len() implies !is_capital(#[trigger] q[k]) by {
            if k < p.len() {
                assert(q[k] == p[k]);
            } else {
                assert(q[k] == s[n - 1]);
            }
        }
    }
}

/// A trade mark in front of a text or in a text without brackets counts for nothing.
pub proof fn law_trade_marks_are_taken_out(s: Seq<char>, pat: Seq<char>)
    requires
        pat.len() > 0,
        forall|i: int| 0 <= i < s.len() ==> #[trigger] s[i] != pat[0],
    ensures
        without(s, pat) == s,
        without(pat + s, pat) == s,
        without(s + pat, pat) == s,
    decreases s.len(),
{
    let front = pat + s;
    assert(front.subrange(0, pat.len() as int) =~= pat);
    assert(front.subrange(pat.len() as int, front.len() as int) =~= s);
    if s.len() > 0 {
        let rest = s.subrange(1, s.len() as int);
        assert forall|i: int| 0 <= i < rest.len() implies #[trigger] rest[i] != pat[0] by {
            assert(rest[i] == s[i + 1]);
        }
        law_trade_marks_are_taken_out(rest, pat);
        if text::starts_with(s, pat) {
            assert(s.subrange(0, pat.len() as int)[0] == s[0]);
        }
        assert(seq![s[0]] + rest =~= s);
        let back = s + pat;
        if text::starts_with(back, pat) {
            assert(back.subrange(0, pat.len() as int)[0] == s[0]);
        }
        assert(back[0] == s[0]);
        assert(back.subrange(1, back.len() as int) =~= rest + pat);
        assert(without(back, pat) =~= s);
    } else {
        assert(s + pat =~= pat);
        assert(pat.subrange(0, pat.len() as int) =~= pat);
        assert(pat.subrange(pat.len() as int, pat.len() as int) =~= s);
        reveal_with_fuel(without, 2);
    }
}

/// Words that tell nothing do not show in the name, and every other word is put behind those
/// before it with a hyphen.
pub proof fn law_telling_words_make_the_name(words: Seq<Seq<char>>, word: Seq<char>)
    ensures
        ({
            let n = words.len() as int;
            let t = cleaned(word);
            let name = slug_of(words.push(word), n + 1);
            let before = slug_of(words, n);
            let idle = t.len() == 0 || t == "processor"@ || t == "cpu"@ || t == "with"@ || t == "@"@
                || text::ends_with(t, "ghz"@) || text::ends_with(t, "-core"@);
            &&& idle ==> name == before
            &&& !idle && before.len() > 0 && (t[0] != '-' && t.last() != '-') ==> name == before
                + seq!['-'] + t
            &&& !idle && before.len() == 0 && (t[0] != '-' && t.last() != '-') ==> name == t
        }),
{
    let n = words.len() as int;
    lemma_same_words(words.push(word), words, n);
    let t = cleaned(word);
    if t.len() > 0 && t[0] != '-' && t.last() != '-' {
        assert(undashed(t) =~= t);
    }
}

proof fn lemma_same_words(a: Seq<Seq<char>>, b: Seq<Seq<char>>, n: int)
    requires
        0 <= n <= a.len(),
        n <= b.len(),
        forall|i: int| 0 <= i < n ==> #[trigger] a[i] == b[i],
    ensures
        slug_of(a, n) == slug_of(b, n),
    decreases n,
{
    if n > 0 {
        lemma_same_words(a, b, n - 1);
        assert(a[n - 1] == b[n - 1]);
    }
}

/// A name part has no hyphen at either end and is else as it was: what was cut off is
/// hyphens alone.
pub proof fn law_hyphens_are_cut_off_the_ends(s: Seq<char>) -> (r: (int, int))
    ensures
        0 <= r.0 <= r.1 <= s.len(),
        undashed(s) == s.subrange(r.0, r.1),
        forall|i: int| 0 <= i < r.0 ==> #[trigger] s[i] == '-',
        forall|i: int| r.1 <= i < s.len() ==> #[trigger] s[i] == '-',
        r.0 < r.1 ==> s[r.0] != '-' && s[r.1 - 1] != '-',
{
    let a = dashes_end(s, 0);
    let b = dashes_start(s, a, s.len() as int);
    lemma_dashes(s);
    lemma_dashes_cut(s, 0);
    lemma_dashes_cut_behind(s, a, s.len() as int);
    (a, b)
}

proof fn lemma_dashes_cut(s: Seq<char>, i: int)
    requires
        0 <= i <= s.len(),
    ensures
        i <= dashes_end(s, i) <= s.len(),
        forall|j: int| i <= j < dashes_end(s, i) ==> #[trigger] s[j] == '-',
        dashes_end(s, i) < s.len() ==> s[dashes_end(s, i)] != '-',
    decreases s.len() - i,
{
    if i < s.len() && s[i] == '-' {
        lemma_dashes_cut(s, i + 1);
    }
}

proof fn lemma_dashes_cut_behind(s: Seq<char>, low: int, i: int)
    requires
        0 <= low <= i <= s.len(),
    ensures
        low <= dashes_start(s, low, i) <= i,
        forall|j: int| dashes_start(s, low, i) <= j < i ==> #[trigger] s[j] == '-',
        dashes_start(s, low, i) > low ==> s[dashes_start(s, low, i) - 1] != '-',
    decreases i,
{
    if i > low && s[i - 1] == '-' {
        lemma_dashes_cut_behind(s, low, i - 1);
    }
}

/// A trimmed text has no white space at either end and is else as it was: what was cut off
/// is white space alone.
pub proof fn law_trimming_cuts_white_space(s: Seq<char>, from: int) -> (r: (int, int))
    requires
        0 <= from <= s.len(),
    ensures
        from <= r.0 <= r.1 <= s.len(),
        trimmed(s, from) == s.subrange(r.0, r.1),
        forall|i: int| from <= i < r.0 ==> is_white(#[trigger] s[i]),
        forall|i: int| r.1 <= i < s.len() ==> is_white(#[trigger] s[i]),
        r.0 < r.1 ==> !is_white(s[r.0]) && !is_white(s[r.1 - 1]),
{
    let a = white_end(s, from);
    let b = white_start(s, a, s.len() as int);
    lemma_white_cut(s, from);
    lemma_white_cut_behind(s, a, s.len() as int);
    (a, b)
}

proof fn lemma_white_cut(s: Seq<char>, i: int)
    requires
        0 <= i <= s.len(),
    ensures
        i <= white_end(s, i) <= s.len(),
        forall|j: int| i <= j < white_end(s, i) ==> is_white(#[trigger] s[j]),
        white_end(s, i) < s.len() ==> !is_white(s[white_end(s, i)]),
    decreases s.len() - i,
{
    if i < s.len() && is_white(s[i]) {
        lemma_white_cut(s, i + 1);
    }
}

proof fn lemma_white_cut_behind(s: Seq<char>, low: int, i: int)
    requires
        0 <= low <= i <= s.len(),
    ensures
        low <= white_start(s, low, i) <= i,
        forall|j: int| white_start(s, low, i) <= j < i ==> is_white(#[trigger] s[j]),
        white_start(s, low, i) > low ==> !is_white(s[white_start(s, low, i) - 1]),
    decreases i,
{
    if i > low && is_white(s[i - 1]) {
        lemma_white_cut_behind(s, low, i - 1);
    }
}

/// The brand is what stands behind the name and a colon on the first line that begins with
/// the name of its field.
pub proof fn law_the_brand_follows_its_name(
    info: &str,
    r: Option<String>,
    k: int,
    brand: Seq<char>,
)
    requires
        call_ensures(cpu_brand, (info,), r),
        0 <= k < text::lines_of(info@).len(),
        text::lines_of(info@)[k] == "model name"@ + seq!['\t', ':', ' '] + brand,
        forall|j: int|
            0 <= j < k ==> !text::starts_with(#[trigger] text::lines_of(info@)[j], "model name"@),
        brand.len() > 0,
        !is_white(brand[0]) && brand[0] != ':' && !is_white(brand.last()),
    ensures
        r matches Some(b) && b@ == brand,
{
    let lines = text::lines_of(info@);
    let line = lines[k];
    let n = "model name"@.len() as int;
    assert(line.subrange(0, n) =~= "model name"@);
    lemma_brand_line(lines, 0, k);
    assert(line[n] == '\t' && line[n + 1] == ':' && line[n + 2] == ' ');
    assert(line[n + 3] == brand[0]);
    reveal_with_fuel(gap_end, 4);
    assert(gap_end(line, n) == n + 3);
    assert(white_end(line, n + 3) == n + 3);
    assert(line[line.len() - 1] == brand.last());
    assert(white_start(line, n + 3, line.len() as int) == line.len());
    assert(line.subrange(n + 3, line.len() as int) =~= brand);
}

proof fn lemma_brand_line(lines: Seq<Seq<char>>, i: int, k: int)
    requires
        0 <= i <= k < lines.len(),
        text::starts_with(lines[k], "model name"@),
        forall|j: int| i <= j < k ==> !text::starts_with(#[trigger] lines[j], "model name"@),
    ensures
        brand_line(lines, i) == Some(lines[k]),
    decreases k - i,
{
    if i < k {
        lemma_brand_line(lines, i + 1, k);
    }
}

/// An older lock is no less stale: where one is broken every older one is, whatever the
/// deadline, and one of thirty seconds or less, or of unknown age, never is.
pub proof fn law_old_locks_are_broken(
    secs: u64,
    nanos: u32,
    later: u64,
    late: bool,
    a: LockMove,
    b: LockMove,
    c: LockMove,
)
    requires
        call_ensures(lock_move, (Some((secs, nanos)), late), a),
        call_ensures(lock_move, (Some((later, nanos)), late), b),
        call_ensures(lock_move, (None, late), c),
        secs <= later,
    ensures
        a is BreakStale ==> b is BreakStale,
        secs < 30 || secs == 30 && nanos == 0 ==> a == c,
        c == if late {
            LockMove::TimeOut
        } else {
            LockMove::Wait
        },
        secs > 30 ==> a is BreakStale,
{
}

} // verus!
