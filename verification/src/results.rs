//! Records of measured results.
//!
//! Every record is one line of a staging text, tagged with the commit, the kind
//! and the key. The document of a machine is rebuilt from the lines of the
//! current commit whenever a record is filed.

use vstd::prelude::*;
use crate::json;
use crate::json::{json_num, json_str};
use crate::scalar::Scalar;
use crate::text;
use crate::text::{
    add_chars, add_str, begins_with, chars_of, decimal_text, find_char, join_chars, same_chars, slice,
    split_lines, string_of, Show,
};

verus! {

/// A number or a text, so that thresholds and bands both fit.
#[derive(Debug, Clone)]
pub enum Value {
    Num(Scalar),
    Str(String),
}

/// One row of a test table.
#[derive(Debug, Clone)]
pub struct TestResult {
    pub id: String,
    pub name: String,
    pub expected: Value,
    pub actual: Value,
    pub units: String,
    pub pass: bool,
}

/// One row of a benchmark table.
#[derive(Debug, Clone)]
pub struct Benchmark {
    pub case: String,
    pub setting: String,
    pub cells: u64,
    pub steps_per_sec: Scalar,
    pub seconds_to_steady: Scalar,
}

/// A record ready to be filed.
#[derive(Debug, Clone)]
pub struct Record {
    pub suite: String,
    pub kind: String,
    pub key: String,
    pub json: String,
}

/// `r` is the JSON text of a value.
pub open spec fn is_value_json<S: Show>(m: &S, v: Value, r: Seq<char>) -> bool {
    match v {
        Value::Num(x) => json::is_json_num(m, x, r),
        Value::Str(s) => r == json::quoted(s@),
    }
}

impl Value {
    /// The JSON text of the value.
    pub fn to_json<S: Show>(&self, m: &S) -> (r: String)
        ensures
            is_value_json(m, *self, r@),
    {
        match self {
            Value::Num(x) => json_num(m, *x),
            Value::Str(s) => json_str(s.as_str()),
        }
    }
}

/// The JSON text of a truth value.
pub open spec fn truth(b: bool) -> Seq<char> {
    if b {
        "true"@
    } else {
        "false"@
    }
}

/// The JSON text of a test row, from the texts of its two values.
pub open spec fn test_json(t: TestResult, expected: Seq<char>, actual: Seq<char>) -> Seq<char> {
    "{\"id\":"@ + json::quoted(t.id@) + ",\"name\":"@ + json::quoted(t.name@) + ",\"expected\":"@
        + expected + ",\"actual\":"@ + actual + ",\"units\":"@ + json::quoted(t.units@)
        + ",\"pass\":"@ + truth(t.pass) + "}"@
}

/// The record of a test row.
pub fn record_test<S: Show>(m: &S, suite: &str, t: &TestResult) -> (r: Record)
    ensures
        r.suite@ == suite@,
        r.kind@ == "test"@,
        r.key@ == t.id@,
        exists|e: Seq<char>, a: Seq<char>|
            #![trigger test_json(*t, e, a)]
            is_value_json(m, t.expected, e) && is_value_json(m, t.actual, a) && r.json@
                == test_json(*t, e, a),
{
    let e = t.expected.to_json(m);
    let a = t.actual.to_json(m);
    let mut out = String::new();
    out.append("{\"id\":");
    out.append(json_str(t.id.as_str()).as_str());
    out.append(",\"name\":");
    out.append(json_str(t.name.as_str()).as_str());
    out.append(",\"expected\":");
    out.append(e.as_str());
    out.append(",\"actual\":");
    out.append(a.as_str());
    out.append(",\"units\":");
    out.append(json_str(t.units.as_str()).as_str());
    out.append(",\"pass\":");
    if t.pass {
        out.append("true");
    } else {
        out.append("false");
    }
    out.append("}");
    assert(out@ =~= test_json(*t, e@, a@));
    Record {
        suite: suite.to_owned(),
        kind: "test".to_owned(),
        key: t.id.clone(),
        json: out,
    }
}

/// A text with every bar replaced by a slash.
pub open spec fn unbarred(s: Seq<char>) -> Seq<char> {
    Seq::new(
        s.len(),
        |i: int|
            if s[i] == '|' {
                '/'
            } else {
                s[i]
            },
    )
}

fn without_bars(s: &str) -> (r: String)
    ensures
        r@ == unbarred(s@),
{
    let v = chars_of(s);
    let mut out: Vec<char> = Vec::new();
    let mut i: usize = 0;
    while i < v.len()
        invariant
            v@ == s@,
            i <= v.len(),
            out.len() == i,
            forall|j: int|
                0 <= j < i ==> #[trigger] out[j] == if s@[j] == '|' {
                    '/'
                } else {
                    s@[j]
                },
        decreases v.len() - i,
    {
        if v[i] == '|' {
            out.push('/');
        } else {
            out.push(v[i]);
        }
        i = i + 1;
    }
    assert(out@ =~= unbarred(s@));
    string_of(&out)
}

/// The JSON text of a benchmark row, from the texts of its two measured values.
pub open spec fn bench_json(b: Benchmark, rate: Seq<char>, seconds: Seq<char>) -> Seq<char> {
    "{\"case\":"@ + json::quoted(b.case@) + ",\"setting\":"@ + json::quoted(b.setting@)
        + ",\"cells\":"@ + text::decimal(b.cells as int) + ",\"steps_per_sec\":"@ + rate
        + ",\"seconds_to_steady\":"@ + seconds + "}"@
}

/// The record of a benchmark row. Its key is case and setting, in which a bar,
/// the separator of a staging line, is replaced.
pub fn record_benchmark<S: Show>(m: &S, suite: &str, b: &Benchmark) -> (r: Record)
    ensures
        r.suite@ == suite@,
        r.kind@ == "bench"@,
        r.key@ == unbarred(b.case@ + "::"@ + b.setting@),
        exists|rate: Seq<char>, seconds: Seq<char>|
            #![trigger bench_json(*b, rate, seconds)]
            json::is_json_num(m, b.steps_per_sec, rate) && json::is_json_num(
                m,
                b.seconds_to_steady,
                seconds,
            ) && r.json@ == bench_json(*b, rate, seconds),
{
    let mut key = b.case.clone();
    key.append("::");
    key.append(b.setting.as_str());
    let rate = json_num(m, b.steps_per_sec);
    let seconds = json_num(m, b.seconds_to_steady);
    let mut out = String::new();
    out.append("{\"case\":");
    out.append(json_str(b.case.as_str()).as_str());
    out.append(",\"setting\":");
    out.append(json_str(b.setting.as_str()).as_str());
    out.append(",\"cells\":");
    out.append(decimal_text(b.cells).as_str());
    out.append(",\"steps_per_sec\":");
    out.append(rate.as_str());
    out.append(",\"seconds_to_steady\":");
    out.append(seconds.as_str());
    out.append("}");
    assert(out@ =~= bench_json(*b, rate@, seconds@));
    Record {
        suite: suite.to_owned(),
        kind: "bench".to_owned(),
        key: without_bars(key.as_str()),
        json: out,
    }
}

/// The record of a free-text note.
pub fn record_note(suite: &str, key: &str, note: &str) -> (r: Record)
    ensures
        r.suite@ == suite@,
        r.kind@ == "note"@,
        r.key@ == key@,
        r.json@ == json::quoted(note@),
{
    Record {
        suite: suite.to_owned(),
        kind: "note".to_owned(),
        key: key.to_owned(),
        json: json_str(note),
    }
}

/// The beginning of every line of a commit.
pub open spec fn commit_tag(commit: Seq<char>) -> Seq<char> {
    commit + seq!['|']
}

/// The beginning of the line of a record.
pub open spec fn record_tag(commit: Seq<char>, kind: Seq<char>, key: Seq<char>) -> Seq<char> {
    commit + seq!['|'] + kind + seq!['|'] + key + seq!['|']
}

/// The lines among the first `n` that stay when a record is filed: those of the
/// commit, less the one that the record replaces.
pub open spec fn kept(
    lines: Seq<Seq<char>>,
    commit: Seq<char>,
    tag: Seq<char>,
    n: int,
) -> Seq<Seq<char>>
    decreases n,
{
    if n <= 0 {
        Seq::empty()
    } else if text::starts_with(lines[n - 1], commit_tag(commit)) && !text::starts_with(
        lines[n - 1],
        tag,
    ) {
        kept(lines, commit, tag, n - 1).push(lines[n - 1])
    } else {
        kept(lines, commit, tag, n - 1)
    }
}

/// The staging lines after a record is filed.
pub open spec fn filed_lines(
    lines: Seq<Seq<char>>,
    commit: Seq<char>,
    kind: Seq<char>,
    key: Seq<char>,
    body: Seq<char>,
) -> Seq<Seq<char>> {
    let tag = record_tag(commit, kind, key);
    kept(lines, commit, tag, lines.len() as int).push(tag + body)
}

/// The text of staging lines.
pub open spec fn staging_text(lines: Seq<Seq<char>>) -> Seq<char> {
    text::joined(lines, "\n"@) + "\n"@
}

/// The second field of a staging line: its kind.
pub open spec fn kind_of(line: Seq<char>) -> Seq<char> {
    let a = text::find_from(line, '|', 0);
    if a < line.len() {
        line.subrange(a + 1, text::find_from(line, '|', a + 1))
    } else {
        Seq::empty()
    }
}

/// What follows the third bar of a staging line: its body.
pub open spec fn body_of(line: Seq<char>) -> Seq<char> {
    let a = text::find_from(line, '|', 0);
    let b = text::find_from(line, '|', a + 1);
    let c = text::find_from(line, '|', b + 1);
    if a < line.len() && b < line.len() && c < line.len() {
        line.subrange(c + 1, line.len() as int)
    } else {
        Seq::empty()
    }
}

/// The bodies of the lines of one kind among the first `n`.
pub open spec fn bodies_of(lines: Seq<Seq<char>>, kind: Seq<char>, n: int) -> Seq<Seq<char>>
    decreases n,
{
    if n <= 0 {
        Seq::empty()
    } else if kind_of(lines[n - 1]) == kind {
        bodies_of(lines, kind, n - 1).push(body_of(lines[n - 1]))
    } else {
        bodies_of(lines, kind, n - 1)
    }
}

/// The JSON text of an array, one item to a line. An array with nothing to
/// write is empty.
pub open spec fn array_text(items: Seq<Seq<char>>) -> Seq<char> {
    let inner = text::joined(items, ",\n    "@);
    if inner.len() == 0 {
        "[]"@
    } else {
        "[\n    "@ + inner + "\n  ]"@
    }
}

/// The document that the staging lines make.
pub open spec fn document_text(
    lines: Seq<Seq<char>>,
    commit: Seq<char>,
    timestamp: Seq<char>,
    machine: Seq<char>,
) -> Seq<char> {
    let n = lines.len() as int;
    "{\n  \"commit\": "@ + json::quoted(commit) + ",\n  \"timestamp\": "@ + json::quoted(timestamp)
        + ",\n  \"machine\": "@ + json::quoted(machine) + ",\n  \"tests\": "@ + array_text(
        bodies_of(lines, "test"@, n),
    ) + ",\n  \"benchmarks\": "@ + array_text(bodies_of(lines, "bench"@, n))
        + ",\n  \"notes\": "@ + array_text(bodies_of(lines, "note"@, n)) + "\n}\n"@
}

/// `s` contains `c`.
pub open spec fn holds(s: Seq<char>, c: char) -> bool {
    exists|i: int| 0 <= i < s.len() && #[trigger] s[i] == c
}

/// Whether `s` contains `c`.
pub fn contains_char(s: &str, c: char) -> (r: bool)
    ensures
        r == holds(s@, c),
{
    let v = chars_of(s);
    let i: usize = find_char(&v, c, 0);
    if i < v.len() {
        assert(s@[i as int] == c);
    }
    i < v.len()
}

fn line_kind(line: &Vec<char>) -> (r: Vec<char>)
    ensures
        r@ == kind_of(line@),
{
    let a: usize = find_char(line, '|', 0);
    if a < line.len() {
        let b: usize = find_char(line, '|', a + 1);
        slice(line, a + 1, b)
    } else {
        Vec::new()
    }
}

fn line_body(line: &Vec<char>) -> (r: Vec<char>)
    ensures
        r@ == body_of(line@),
{
    let a: usize = find_char(line, '|', 0);
    if a >= line.len() {
        return Vec::new();
    }
    let b: usize = find_char(line, '|', a + 1);
    if b >= line.len() {
        return Vec::new();
    }
    let c: usize = find_char(line, '|', b + 1);
    if c >= line.len() {
        return Vec::new();
    }
    slice(line, c + 1, line.len())
}

fn select_bodies(lines: &Vec<Vec<char>>, kind: &str) -> (r: Vec<Vec<char>>)
    ensures
        text::views(r@) == bodies_of(text::views(lines@), kind@, lines.len() as int),
{
    let wanted = chars_of(kind);
    let mut r: Vec<Vec<char>> = Vec::new();
    let mut i: usize = 0;
    assert(text::views(r@) =~= Seq::empty());
    while i < lines.len()
        invariant
            wanted@ == kind@,
            i <= lines.len(),
            text::views(r@) == bodies_of(text::views(lines@), kind@, i as int),
        decreases lines.len() - i,
    {
        let ghost was = r@;
        let k = line_kind(&lines[i]);
        if same_chars(&k, &wanted) {
            let body = line_body(&lines[i]);
            r.push(body);
            assert(text::views(r@) =~= text::views(was).push(body@));
        }
        i = i + 1;
        assert(text::views(lines@)[i - 1] == lines@[i - 1]@);
    }
    r
}

fn add_array(out: &mut Vec<char>, items: &Vec<Vec<char>>)
    ensures
        final(out)@ == old(out)@ + array_text(text::views(items@)),
{
    let ghost was = out@;
    let inner = join_chars(items, ",\n    ");
    if inner.len() == 0 {
        add_str(out, "[]");
    } else {
        add_str(out, "[\n    ");
        add_chars(out, &inner);
        add_str(out, "\n  ]");
        assert(out@ =~= was + ("[\n    "@ + inner@ + "\n  ]"@));
    }
}

fn build_document(
    lines: &Vec<Vec<char>>,
    commit: &str,
    timestamp: &str,
    machine: &str,
) -> (r: Vec<char>)
    ensures
        r@ == document_text(text::views(lines@), commit@, timestamp@, machine@),
{
    let tests = select_bodies(lines, "test");
    let benches = select_bodies(lines, "bench");
    let notes = select_bodies(lines, "note");
    let mut out: Vec<char> = Vec::new();
    add_str(&mut out, "{\n  \"commit\": ");
    add_str(&mut out, json_str(commit).as_str());
    add_str(&mut out, ",\n  \"timestamp\": ");
    add_str(&mut out, json_str(timestamp).as_str());
    add_str(&mut out, ",\n  \"machine\": ");
    add_str(&mut out, json_str(machine).as_str());
    add_str(&mut out, ",\n  \"tests\": ");
    add_array(&mut out, &tests);
    add_str(&mut out, ",\n  \"benchmarks\": ");
    add_array(&mut out, &benches);
    add_str(&mut out, ",\n  \"notes\": ");
    add_array(&mut out, &notes);
    add_str(&mut out, "\n}\n");
    assert(out@ =~= document_text(text::views(lines@), commit@, timestamp@, machine@));
    out
}

/// The texts to be written after a record is filed.
#[derive(Debug, Clone)]
pub struct Filed {
    pub staging: String,
    pub document: String,
}

/// Files a record into the staging text of its machine and rebuilds the
/// document. A record with the same commit, kind and key is replaced; lines of
/// other commits are dropped.
pub fn file_record(
    staging: &str,
    commit: &str,
    timestamp: &str,
    machine: &str,
    r: &Record,
) -> (filed: Filed)
    requires
        !holds(r.key@, '\n'),
        !holds(r.json@, '\n'),
        !holds(r.key@, '|'),
    ensures
        ({
            let lines = filed_lines(
                text::lines_of(staging@),
                commit@,
                r.kind@,
                r.key@,
                r.json@,
            );
            &&& filed.staging@ == staging_text(lines)
            &&& filed.document@ == document_text(lines, commit@, timestamp@, machine@)
        }),
{
    let all = split_lines(&chars_of(staging));
    let ghost lines = text::lines_of(staging@);
    let mut of_commit: Vec<char> = Vec::new();
    add_str(&mut of_commit, commit);
    of_commit.push('|');
    assert(of_commit@ =~= commit_tag(commit@));
    let mut tag: Vec<char> = Vec::new();
    add_str(&mut tag, commit);
    tag.push('|');
    add_str(&mut tag, r.kind.as_str());
    tag.push('|');
    add_str(&mut tag, r.key.as_str());
    tag.push('|');
    assert(tag@ =~= record_tag(commit@, r.kind@, r.key@));
    let mut stay: Vec<Vec<char>> = Vec::new();
    let mut i: usize = 0;
    assert(text::views(stay@) =~= Seq::empty());
    while i < all.len()
        invariant
            text::views(all@) == lines,
            of_commit@ == commit_tag(commit@),
            tag@ == record_tag(commit@, r.kind@, r.key@),
            i <= all.len(),
            text::views(stay@) == kept(lines, commit@, tag@, i as int),
        decreases all.len() - i,
    {
        let ghost was = stay@;
        assert(lines[i as int] == all@[i as int]@);
        if begins_with(&all[i], &of_commit) && !begins_with(&all[i], &tag) {
            let line = slice(&all[i], 0, all[i].len());
            assert(line@ =~= all@[i as int]@);
            stay.push(line);
            assert(text::views(stay@) =~= text::views(was).push(line@));
        }
        i = i + 1;
        assert(lines[i - 1] == all@[i - 1]@);
    }
    let ghost before = stay@;
    let mut line: Vec<char> = Vec::new();
    add_chars(&mut line, &tag);
    add_str(&mut line, r.json.as_str());
    assert(line@ =~= tag@ + r.json@);
    stay.push(line);
    proof {
        assert(text::views(stay@) =~= text::views(before).push(line@));
        assert(text::views(all@).len() == all@.len());
        assert(text::views(stay@) == filed_lines(lines, commit@, r.kind@, r.key@, r.json@));
    }
    let mut text_out = join_chars(&stay, "\n");
    add_str(&mut text_out, "\n");
    let document = build_document(&stay, commit, timestamp, machine);
    Filed { staging: string_of(&text_out), document: string_of(&document) }
}

proof fn lemma_kept(lines: Seq<Seq<char>>, commit: Seq<char>, tag: Seq<char>, n: int, i: int)
    requires
        0 <= n <= lines.len(),
        0 <= i < kept(lines, commit, tag, n).len(),
    ensures
        text::starts_with(kept(lines, commit, tag, n)[i], commit_tag(commit)),
        !text::starts_with(kept(lines, commit, tag, n)[i], tag),
        exists|j: int| 0 <= j < n && #[trigger] lines[j] == kept(lines, commit, tag, n)[i],
    decreases n,
{
    if n > 0 {
        let p = kept(lines, commit, tag, n - 1);
        if i < p.len() {
            lemma_kept(lines, commit, tag, n - 1, i);
            let j = choose|j: int| 0 <= j < n - 1 && #[trigger] lines[j] == p[i];
            assert(lines[j] == kept(lines, commit, tag, n)[i]);
        } else {
            assert(lines[n - 1] == kept(lines, commit, tag, n)[i]);
        }
    }
}

/// A rerun replaces its row: after filing, the record's own line is the only one
/// with its tag.
pub proof fn law_rerun_replaces(
    lines: Seq<Seq<char>>,
    commit: Seq<char>,
    kind: Seq<char>,
    key: Seq<char>,
    body: Seq<char>,
    i: int,
)
    requires
        0 <= i < filed_lines(lines, commit, kind, key, body).len(),
    ensures
        text::starts_with(
            filed_lines(lines, commit, kind, key, body)[i],
            record_tag(commit, kind, key),
        ) <==> i == filed_lines(lines, commit, kind, key, body).len() - 1,
        filed_lines(lines, commit, kind, key, body).last() == record_tag(commit, kind, key) + body,
{
    let tag = record_tag(commit, kind, key);
    let all = filed_lines(lines, commit, kind, key, body);
    if i < all.len() - 1 {
        lemma_kept(lines, commit, tag, lines.len() as int, i);
    } else {
        assert((tag + body).subrange(0, tag.len() as int) =~= tag);
    }
}

/// A document is of one commit: every line that is left after filing begins
/// with the commit.
pub proof fn law_one_commit(
    lines: Seq<Seq<char>>,
    commit: Seq<char>,
    kind: Seq<char>,
    key: Seq<char>,
    body: Seq<char>,
    i: int,
)
    requires
        0 <= i < filed_lines(lines, commit, kind, key, body).len(),
    ensures
        text::starts_with(filed_lines(lines, commit, kind, key, body)[i], commit_tag(commit)),
{
    let tag = record_tag(commit, kind, key);
    let all = filed_lines(lines, commit, kind, key, body);
    if i < all.len() - 1 {
        lemma_kept(lines, commit, tag, lines.len() as int, i);
    } else {
        let p = commit_tag(commit);
        assert((tag + body).subrange(0, p.len() as int) =~= p);
    }
}

proof fn lemma_find_is(s: Seq<char>, c: char, i: int, at: int)
    requires
        0 <= i <= at < s.len(),
        s[at] == c,
        forall|j: int| i <= j < at ==> #[trigger] s[j] != c,
    ensures
        text::find_from(s, c, i) == at,
    decreases at - i,
{
    if i < at {
        lemma_find_is(s, c, i + 1, at);
    }
}

/// What is filed can be read back: the kind and the body of a line are those of
/// its record, whatever bars the body holds.
pub proof fn law_line_reads_back(
    commit: Seq<char>,
    kind: Seq<char>,
    key: Seq<char>,
    body: Seq<char>,
)
    requires
        !holds(commit, '|'),
        !holds(kind, '|'),
        !holds(key, '|'),
    ensures
        kind_of(record_tag(commit, kind, key) + body) == kind,
        body_of(record_tag(commit, kind, key) + body) == body,
{
    let line = record_tag(commit, kind, key) + body;
    let a = commit.len() as int;
    let b = a + 1 + kind.len();
    let c = b + 1 + key.len();
    assert forall|j: int| 0 <= j < a implies #[trigger] line[j] != '|' by {
        assert(line[j] == commit[j]);
    }
    assert(line[a] == '|');
    lemma_find_is(line, '|', 0, a);
    assert forall|j: int| a + 1 <= j < b implies #[trigger] line[j] != '|' by {
        assert(line[j] == kind[j - a - 1]);
    }
    assert(line[b] == '|');
    lemma_find_is(line, '|', a + 1, b);
    assert forall|j: int| b + 1 <= j < c implies #[trigger] line[j] != '|' by {
        assert(line[j] == key[j - b - 1]);
    }
    assert(line[c] == '|');
    lemma_find_is(line, '|', b + 1, c);
    assert(line.subrange(a + 1, b) =~= kind);
    assert(line.subrange(c + 1, line.len() as int) =~= body);
}

/// Lines written one after another, each with its line feed.
spec fn fed(lines: Seq<Seq<char>>) -> Seq<char>
    decreases lines.len(),
{
    if lines.len() == 0 {
        Seq::empty()
    } else {
        lines[0] + seq!['\n'] + fed(lines.drop_first())
    }
}

proof fn lemma_fed_back(lines: Seq<Seq<char>>)
    requires
        lines.len() > 0,
    ensures
        fed(lines) == fed(lines.drop_last()) + lines.last() + seq!['\n'],
    decreases lines.len(),
{
    if lines.len() == 1 {
        assert(lines.drop_first() =~= Seq::empty());
        assert(lines.drop_last() =~= Seq::empty());
        assert(fed(lines) =~= fed(lines.drop_last()) + lines.last() + seq!['\n']);
    } else {
        lemma_fed_back(lines.drop_first());
        assert(lines.drop_first().drop_last() =~= lines.drop_last().drop_first());
        assert(lines.drop_first().last() == lines.last());
        assert(lines.drop_last()[0] == lines[0]);
        assert(fed(lines) =~= fed(lines.drop_last()) + lines.last() + seq!['\n']);
    }
}

proof fn lemma_staging_is_fed(lines: Seq<Seq<char>>)
    requires
        lines.len() > 0,
    ensures
        staging_text(lines) == fed(lines),
    decreases lines.len(),
{
    reveal_strlit("\n");
    assert("\n"@ =~= seq!['\n']);
    lemma_fed_back(lines);
    if lines.len() == 1 {
        assert(lines.drop_last() =~= Seq::empty());
        assert(staging_text(lines) =~= fed(lines));
    } else {
        lemma_staging_is_fed(lines.drop_last());
        assert(staging_text(lines) =~= fed(lines));
    }
}

/// A line as it is read: without a carriage return at its end.
pub open spec fn bare(line: Seq<char>) -> Seq<char> {
    if line.len() > 0 && line.last() == '\r' {
        line.drop_last()
    } else {
        line
    }
}

/// Lines as they are read.
pub open spec fn all_bare(lines: Seq<Seq<char>>) -> Seq<Seq<char>> {
    Seq::new(lines.len(), |k: int| bare(lines[k]))
}

proof fn lemma_lines_of_fed(s: Seq<char>, i: int, lines: Seq<Seq<char>>)
    requires
        0 <= i <= s.len(),
        s.subrange(i, s.len() as int) == fed(lines),
        forall|k: int| 0 <= k < lines.len() ==> !holds(#[trigger] lines[k], '\n'),
    ensures
        text::lines_from(s, i) == all_bare(lines),
    decreases lines.len(),
{
    let tail = s.subrange(i, s.len() as int);
    if lines.len() == 0 {
        assert(tail.len() == 0);
        assert(text::lines_from(s, i) =~= all_bare(lines));
    } else {
        let first = lines[0];
        let rest = lines.drop_first();
        let end = i + first.len();
        assert(fed(lines) == first + seq!['\n'] + fed(rest));
        assert(tail.len() == first.len() + 1 + fed(rest).len());
        assert(s.len() == i + tail.len());
        assert forall|k: int| 0 <= k < tail.len() implies s[i + k] == #[trigger] tail[k] by {}
        assert forall|j: int| i <= j < end implies #[trigger] s[j] == first[j - i] by {
            let k = j - i;
            assert(s[i + k] == tail[k]);
            assert(tail[k] == fed(lines)[k]);
            assert(fed(lines)[k] == first[k]);
        }
        assert(s[end] == '\n') by {
            let k = end - i;
            assert(s[i + k] == tail[k]);
            assert(tail[k] == fed(lines)[k]);
            assert((first + seq!['\n'])[k] == '\n');
        }
        assert forall|j: int| i <= j < end implies #[trigger] s[j] != '\n' by {
            assert(!holds(first, '\n'));
            assert(s[j] == first[j - i]);
        }
        lemma_find_is(s, '\n', i, end);
        if first.len() > 0 {
            assert(s[end - 1] == first.last());
        }
        assert(text::trimmed_line(s, i, end) =~= bare(first));
        assert(s.subrange(end + 1, s.len() as int) =~= fed(rest)) by {
            assert forall|k: int| 0 <= k < fed(rest).len() implies s[end + 1 + k]
                == #[trigger] fed(rest)[k] by {
                let q = first.len() + 1 + k;
                assert(s[i + q] == tail[q]);
                assert(tail[q] == fed(lines)[q]);
            }
        }
        assert forall|k: int| 0 <= k < rest.len() implies !holds(#[trigger] rest[k], '\n') by {
            assert(rest[k] == lines[k + 1]);
        }
        lemma_lines_of_fed(s, end + 1, rest);
        assert(text::lines_from(s, i) =~= all_bare(lines)) by {
            assert forall|k: int| 0 <= k < rest.len() implies #[trigger] all_bare(rest)[k]
                == all_bare(lines)[k + 1] by {
                assert(rest[k] == lines[k + 1]);
            }
        }
    }
}

/// The staging text gives back the lines it was made of, as long as none of them
/// holds a line feed. A carriage return at the end of a line is lost.
pub proof fn law_staging_reads_back(lines: Seq<Seq<char>>)
    requires
        lines.len() > 0,
        forall|k: int| 0 <= k < lines.len() ==> !holds(#[trigger] lines[k], '\n'),
    ensures
        text::lines_of(staging_text(lines)) == all_bare(lines),
        (forall|k: int| 0 <= k < lines.len() ==> bare(#[trigger] lines[k]) == lines[k])
            ==> text::lines_of(staging_text(lines)) == lines,
{
    lemma_staging_is_fed(lines);
    let s = staging_text(lines);
    assert(s.subrange(0, s.len() as int) =~= s);
    lemma_lines_of_fed(s, 0, lines);
    if forall|k: int| 0 <= k < lines.len() ==> bare(#[trigger] lines[k]) == lines[k] {
        assert(all_bare(lines) =~= lines);
    }
}

proof fn lemma_lines_hold_no_feed(s: Seq<char>, i: int, k: int)
    requires
        0 <= i,
        0 <= k < text::lines_from(s, i).len(),
    ensures
        !holds(text::lines_from(s, i)[k], '\n'),
    decreases s.len() + 1 - i,
{
    if i < s.len() {
        let end = text::find_from(s, '\n', i);
        text::lemma_find(s, '\n', i);
        if k == 0 {
            let line = text::trimmed_line(s, i, end);
            assert(text::lines_from(s, i)[0] == line);
            assert forall|j: int| 0 <= j < line.len() implies #[trigger] line[j] != '\n' by {
                assert(line[j] == s[i + j]);
            }
        } else {
            lemma_lines_hold_no_feed(s, end + 1, k - 1);
            assert(text::lines_from(s, i)[k] == text::lines_from(s, end + 1)[k - 1]);
        }
    }
}

/// What stays of a list that was just filed into is what stayed then.
proof fn lemma_kept_again(
    lines: Seq<Seq<char>>,
    commit: Seq<char>,
    tag: Seq<char>,
    body: Seq<char>,
    n: int,
)
    requires
        0 <= n <= kept(lines, commit, tag, lines.len() as int).len(),
    ensures
        kept(kept(lines, commit, tag, lines.len() as int).push(tag + body), commit, tag, n) == kept(
            lines,
            commit,
            tag,
            lines.len() as int,
        ).take(n),
    decreases n,
{
    let k = kept(lines, commit, tag, lines.len() as int);
    let filed = k.push(tag + body);
    if n > 0 {
        lemma_kept_again(lines, commit, tag, body, n - 1);
        lemma_kept(lines, commit, tag, lines.len() as int, n - 1);
        assert(filed[n - 1] == k[n - 1]);
        assert(k.take(n) =~= k.take(n - 1).push(k[n - 1]));
    } else {
        assert(k.take(0) =~= Seq::empty());
    }
}

proof fn lemma_bodies_prefix(a: Seq<Seq<char>>, b: Seq<Seq<char>>, kind: Seq<char>, n: int)
    requires
        0 <= n <= a.len(),
        n <= b.len(),
        forall|i: int| 0 <= i < n ==> a[i] == #[trigger] b[i],
    ensures
        bodies_of(a, kind, n) == bodies_of(b, kind, n),
    decreases n,
{
    if n > 0 {
        lemma_bodies_prefix(a, b, kind, n - 1);
        assert(a[n - 1] == b[n - 1]);
    }
}

/// Two filings of one kind and key, one after the other, are the second one alone:
/// one line has the tag, its body is the second one and it is the last of its
/// array; all other lines are those that the first filing left, in their order,
/// and the arrays of other kinds are the same. The staging text that the second
/// filing reads is the one that the first has written. Left out are lines that
/// stay and end with a carriage return: each reading drops one.
pub proof fn law_second_filing_replaces_first(
    staging: Seq<char>,
    commit: Seq<char>,
    kind: Seq<char>,
    key: Seq<char>,
    first: Seq<char>,
    second: Seq<char>,
    other: Seq<char>,
)
    requires
        !holds(commit, '|') && !holds(commit, '\n'),
        !holds(kind, '|') && !holds(kind, '\n'),
        !holds(key, '|') && !holds(key, '\n'),
        !holds(first, '\n'),
        ({
            let lines = text::lines_of(staging);
            let stay = kept(lines, commit, record_tag(commit, kind, key), lines.len() as int);
            forall|i: int| 0 <= i < stay.len() ==> bare(#[trigger] stay[i]) == stay[i]
        }),
        other != kind,
    ensures
        ({
            let one = filed_lines(text::lines_of(staging), commit, kind, key, first);
            let two = filed_lines(text::lines_of(staging_text(one)), commit, kind, key, second);
            let n = two.len() as int;
            &&& two == filed_lines(text::lines_of(staging), commit, kind, key, second)
            &&& two.drop_last() == one.drop_last()
            &&& forall|i: int|
                0 <= i < n ==> (text::starts_with(
                    #[trigger] two[i],
                    record_tag(commit, kind, key),
                ) <==> i == n - 1)
            &&& bodies_of(two, kind, n) == bodies_of(one.drop_last(), kind, n - 1).push(second)
            &&& bodies_of(one, kind, n) == bodies_of(one.drop_last(), kind, n - 1).push(first)
            &&& bodies_of(two, other, n) == bodies_of(one, other, n)
        }),
{
    let lines = text::lines_of(staging);
    let tag = record_tag(commit, kind, key);
    let k = kept(lines, commit, tag, lines.len() as int);
    let one = filed_lines(lines, commit, kind, key, first);
    let n = one.len() as int;
    assert forall|i: int| 0 <= i < n implies !holds(#[trigger] one[i], '\n') by {
        if i < n - 1 {
            lemma_kept(lines, commit, tag, lines.len() as int, i);
            let j = choose|j: int| 0 <= j < lines.len() && #[trigger] lines[j] == k[i];
            lemma_lines_hold_no_feed(staging, 0, j);
        } else {
            let line = tag + first;
            assert forall|j: int| 0 <= j < line.len() implies #[trigger] line[j] != '\n' by {
                let a = commit.len() as int;
                let b = a + 1 + kind.len();
                let c = b + 1 + key.len();
                if j < a {
                    assert(line[j] == commit[j]);
                } else if a < j < b {
                    assert(line[j] == kind[j - a - 1]);
                } else if b < j < c {
                    assert(line[j] == key[j - b - 1]);
                } else if j > c {
                    assert(line[j] == first[j - c - 1]);
                }
            }
        }
    }
    law_staging_reads_back(one);
    let read = k.push(tag + bare(first));
    assert(all_bare(one) =~= read) by {
        assert(tag.last() == '|');
        if first.len() > 0 {
            assert((tag + first).last() == first.last());
        } else {
            assert(tag + first =~= tag);
        }
        assert(bare(tag + first) =~= tag + bare(first));
        assert forall|i: int| 0 <= i < n implies #[trigger] all_bare(one)[i] == read[i] by {
            if i < n - 1 {
                assert(one[i] == k[i]);
            }
        }
    }
    lemma_kept_again(lines, commit, tag, bare(first), k.len() as int);
    assert(k.take(k.len() as int) =~= k);
    assert((tag + bare(first)).subrange(0, tag.len() as int) =~= tag);
    assert((tag + first).subrange(0, tag.len() as int) =~= tag);
    let two = filed_lines(read, commit, kind, key, second);
    assert(two == k.push(tag + second));
    assert(two.drop_last() =~= k);
    assert(one.drop_last() =~= k);
    assert forall|i: int| 0 <= i < n implies (text::starts_with(#[trigger] two[i], tag) <==> i == n
        - 1) by {
        law_rerun_replaces(read, commit, kind, key, second, i);
    }
    law_line_reads_back(commit, kind, key, first);
    law_line_reads_back(commit, kind, key, second);
    lemma_bodies_prefix(two, k, kind, n - 1);
    lemma_bodies_prefix(one, k, kind, n - 1);
    lemma_bodies_prefix(two, k, other, n - 1);
    lemma_bodies_prefix(one, k, other, n - 1);
}

/// Notes are always one line: the text of a note never keeps a record from being
/// filed.
pub proof fn law_notes_are_one_line(note: Seq<char>)
    ensures
        !holds(json::quoted(note), '\n'),
{
    if holds(json::quoted(note), '\n') {
        let k = choose|k: int| 0 <= k < json::quoted(note).len() && #[trigger] json::quoted(note)[k]
            == '\n';
        json::law_no_control_characters(note, k);
    }
}

/// Filing keeps what other records of the commit have left: a line of the commit that is
/// not the record's own is still there, and of two of them the earlier stays the earlier.
pub proof fn law_other_records_stay(
    lines: Seq<Seq<char>>,
    commit: Seq<char>,
    kind: Seq<char>,
    key: Seq<char>,
    body: Seq<char>,
    j: int,
    k: int,
) -> (r: (int, int))
    requires
        0 <= j < k < lines.len(),
        text::starts_with(lines[j], commit + seq!['|']),
        text::starts_with(lines[k], commit + seq!['|']),
        !text::starts_with(
            lines[j],
            commit + seq!['|'] + kind + seq!['|'] + key + seq!['|'],
        ),
        !text::starts_with(
            lines[k],
            commit + seq!['|'] + kind + seq!['|'] + key + seq!['|'],
        ),
    ensures
        0 <= r.0 < r.1 < filed_lines(lines, commit, kind, key, body).len() - 1,
        filed_lines(lines, commit, kind, key, body)[r.0] == lines[j],
        filed_lines(lines, commit, kind, key, body)[r.1] == lines[k],
{
    let tag = record_tag(commit, kind, key);
    lemma_kept_grows(lines, commit, tag, j + 1, k);
    lemma_kept_grows(lines, commit, tag, j + 1, lines.len() as int);
    lemma_kept_grows(lines, commit, tag, k + 1, lines.len() as int);
    let a: int = kept(lines, commit, tag, j).len() as int;
    let b: int = kept(lines, commit, tag, k).len() as int;
    assert(kept(lines, commit, tag, j + 1)[a] == lines[j]);
    assert(kept(lines, commit, tag, k + 1)[b] == lines[k]);
    (a, b)
}

proof fn lemma_kept_grows(
    lines: Seq<Seq<char>>,
    commit: Seq<char>,
    tag: Seq<char>,
    a: int,
    b: int,
)
    requires
        0 <= a <= b <= lines.len(),
    ensures
        kept(lines, commit, tag, a).len() <= kept(lines, commit, tag, b).len(),
        forall|i: int|
            0 <= i < kept(lines, commit, tag, a).len() ==> #[trigger] kept(
                lines,
                commit,
                tag,
                b,
            )[i] == kept(lines, commit, tag, a)[i],
    decreases b,
{
    if a < b {
        lemma_kept_grows(lines, commit, tag, a, b - 1);
    }
}

/// The first record that is filed makes a document of its own: the commit, the time and
/// the machine under their names, and the record's text as the only item of the array of
/// its kind.
pub proof fn law_first_records_make_documents(
    staging: &str,
    commit: &str,
    timestamp: &str,
    machine: &str,
    r: &Record,
    filed: Filed,
) -> (arrays: (Seq<char>, Seq<char>, Seq<char>))
    requires
        call_ensures(file_record, (staging, commit, timestamp, machine, r), filed),
        staging@.len() == 0,
        !holds(commit@, '|'),
        !holds(r.key@, '|'),
        r.json@.len() > 0,
        r.kind@ == "test"@ || r.kind@ == "bench"@ || r.kind@ == "note"@,
    ensures
        ({
            let (tests, benchmarks, notes) = arrays;
            let only = "[\n    "@ + r.json@ + "\n  ]"@;
            &&& filed.document@ == "{\n  \"commit\": "@ + json::quoted(commit@)
                + ",\n  \"timestamp\": "@ + json::quoted(timestamp@) + ",\n  \"machine\": "@
                + json::quoted(machine@) + ",\n  \"tests\": "@ + tests
                + ",\n  \"benchmarks\": "@ + benchmarks + ",\n  \"notes\": "@ + notes
                + "\n}\n"@
            &&& tests == if r.kind@ == "test"@ {
                only
            } else {
                "[]"@
            }
            &&& benchmarks == if r.kind@ == "bench"@ {
                only
            } else {
                "[]"@
            }
            &&& notes == if r.kind@ == "note"@ {
                only
            } else {
                "[]"@
            }
        }),
{
    let none = text::lines_of(staging@);
    assert(none.len() == 0);
    let tag = record_tag(commit@, r.kind@, r.key@);
    let lines = filed_lines(none, commit@, r.kind@, r.key@, r.json@);
    assert(lines.len() == 1);
    assert(lines[0] == tag + r.json@);
    reveal_strlit("test");
    reveal_strlit("bench");
    reveal_strlit("note");
    assert("test"@[0] == 't' && "bench"@[0] == 'b' && "note"@[0] == 'n');
    assert(!holds(r.kind@, '|'));
    law_line_reads_back(commit@, r.kind@, r.key@, r.json@);
    reveal_with_fuel(bodies_of, 2);
    assert(bodies_of(lines, r.kind@, 1) =~= seq![r.json@]);
    (
        array_text(bodies_of(lines, "test"@, 1)),
        array_text(bodies_of(lines, "bench"@, 1)),
        array_text(bodies_of(lines, "note"@, 1)),
    )
}

/// A row of a test table puts each of its values behind the value's own name.
pub proof fn law_test_rows_name_their_values<S: Show>(
    m: &S,
    suite: &str,
    t: &TestResult,
    r: Record,
) -> (texts: (Seq<char>, Seq<char>))
    requires
        call_ensures(record_test::<S>, (m, suite, t), r),
    ensures
        ({
            let (expected, actual) = texts;
            &&& match t.expected {
                Value::Num(x) => json::is_json_num(m, x, expected),
                Value::Str(s) => expected == json::quoted(s@),
            }
            &&& match t.actual {
                Value::Num(x) => json::is_json_num(m, x, actual),
                Value::Str(s) => actual == json::quoted(s@),
            }
            &&& r.json@ == "{\"id\":"@ + json::quoted(t.id@) + ",\"name\":"@ + json::quoted(
                t.name@,
            ) + ",\"expected\":"@ + expected + ",\"actual\":"@ + actual + ",\"units\":"@
                + json::quoted(t.units@) + ",\"pass\":"@ + (if t.pass {
                "true"@
            } else {
                "false"@
            }) + "}"@
            &&& r.suite@ == suite@ && r.kind@ == "test"@ && r.key@ == t.id@
        }),
{
    let (e, a) = choose|e: Seq<char>, a: Seq<char>|
        #![trigger test_json(*t, e, a)]
        is_value_json(m, t.expected, e) && is_value_json(m, t.actual, a) && r.json@ == test_json(
            *t,
            e,
            a,
        );
    (e, a)
}

/// A row of a benchmark table puts each of its values behind the value's own name, and is
/// filed under its case and setting.
pub proof fn law_benchmark_rows_name_their_values<S: Show>(
    m: &S,
    suite: &str,
    b: &Benchmark,
    r: Record,
) -> (texts: (Seq<char>, Seq<char>))
    requires
        call_ensures(record_benchmark::<S>, (m, suite, b), r),
    ensures
        ({
            let (rate, seconds) = texts;
            &&& json::is_json_num(m, b.steps_per_sec, rate)
            &&& json::is_json_num(m, b.seconds_to_steady, seconds)
            &&& r.json@ == "{\"case\":"@ + json::quoted(b.case@) + ",\"setting\":"@
                + json::quoted(b.setting@) + ",\"cells\":"@ + text::decimal(b.cells as int)
                + ",\"steps_per_sec\":"@ + rate + ",\"seconds_to_steady\":"@ + seconds + "}"@
            &&& r.suite@ == suite@ && r.kind@ == "bench"@
            &&& r.key@.len() == b.case@.len() + "::"@.len() + b.setting@.len()
            &&& !holds(r.key@, '|')
            &&& !holds(b.case@, '|') && !holds(b.setting@, '|') ==> r.key@ == b.case@ + "::"@
                + b.setting@
        }),
{
    let (rate, seconds) = choose|rate: Seq<char>, seconds: Seq<char>|
        #![trigger bench_json(*b, rate, seconds)]
        json::is_json_num(m, b.steps_per_sec, rate) && json::is_json_num(
            m,
            b.seconds_to_steady,
            seconds,
        ) && r.json@ == bench_json(*b, rate, seconds);
    let plain = b.case@ + "::"@ + b.setting@;
    reveal_strlit("::");
    if !holds(b.case@, '|') && !holds(b.setting@, '|') {
        assert forall|i: int| 0 <= i < plain.len() implies #[trigger] unbarred(plain)[i]
            == plain[i] by {
            if i < b.case@.len() {
                assert(plain[i] == b.case@[i]);
            } else if i >= b.case@.len() + 2 {
                assert(plain[i] == b.setting@[i - b.case@.len() - 2]);
            }
        }
        assert(unbarred(plain) =~= plain);
    }
    (rate, seconds)
}

} // verus!
