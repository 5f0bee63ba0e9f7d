//! The record of results: documents, labels, dates and numbers.

use cfd::calendar::iso8601_utc;
use cfd::json::{json_num, json_str};
use cfd::machine::{commit_label, cpu_brand, lock_move, machine_label, LockMove};
use cfd::results::{
    file_record, record_benchmark, record_note, record_test, Benchmark, TestResult, Value,
};
use cfd::scalar::Scalar;
use cfd::text::Show;

/// Floating point of the machine.
#[derive(Debug, Clone, Copy)]
struct Native;

/// Double-precision value of a scalar.
fn d(x: Scalar) -> f64 {
    f64::from_bits(x.bits)
}

/// Scalar of a double-precision value.
fn s(x: f64) -> Scalar {
    Scalar { bits: x.to_bits() }
}

impl Show for Native {
    fn show(&self, x: Scalar) -> String {
        format!("{}", d(x))
    }

    fn show_single(&self, x: Scalar) -> String {
        format!("{}", d(x) as f32)
    }

    fn show_debug(&self, x: Scalar) -> String {
        format!("{:?}", d(x))
    }

    fn show_rounded(&self, x: Scalar) -> String {
        format!("{:.4}", d(x))
    }
}

const M: Native = Native;

const CPU: &str = "processor\t: 0\nvendor_id\t: AuthenticAMD\nmodel name\t: AMD EPYC 7B13 \nflags : x";

#[test]
fn machine_label_is_a_stable_slug() {
    let brand = cpu_brand(CPU);
    let a = machine_label(brand.as_deref(), "x86_64", 16);
    let b = machine_label(brand.as_deref(), "x86_64", 16);
    assert_eq!(a, b, "label must be deterministic");
    assert!(a.ends_with('c'), "ends with core count: {a}");
    assert!(
        a.chars().all(|c| c.is_ascii_alphanumeric() || c == '-' || c == '.'),
        "slug chars only: {a}"
    );
    assert!(!a.contains("processor") && !a.contains("ghz"), "{a}");
    assert_eq!(a, "amd-epyc-7b13-16c");
}

#[test]
fn labels_leave_out_the_filler() {
    let label = |brand: &str| machine_label(Some(brand), "arch", 8);
    assert_eq!(label("Apple M1"), "apple-m1-8c");
    assert_eq!(label("Intel(R) Core(TM) i7-9750H CPU @ 2.60GHz"), "intel-core-i7-9750h-8c");
    assert_eq!(label("AMD Ryzen 9 16-Core Processor"), "amd-ryzen-9-8c");
    assert_eq!(label(""), "arch-8c");
    assert_eq!(machine_label(None, "aarch64", 0), "aarch64-0c");
    for brand in [None, Some(""), Some("CPU @ 3.0GHz"), Some("Processor")] {
        assert_eq!(machine_label(brand, "x86_64", 8), "x8664-8c");
    }
}

#[test]
fn the_brand_is_the_first_of_its_lines() {
    assert_eq!(cpu_brand(CPU), Some("AMD EPYC 7B13".to_string()));
    assert_eq!(cpu_brand("vendor_id: x\n"), None);
    assert_eq!(cpu_brand("model name: a\nmodel name: b"), Some("a".to_string()));
}

#[test]
fn the_commit_is_trimmed_and_unknown_where_it_is_missing() {
    assert_eq!(commit_label(Some("abc123\n")), "abc123");
    assert_eq!(commit_label(Some(" \n")), "unknown");
    assert_eq!(commit_label(None), "unknown");
}

#[test]
fn json_helpers_escape_and_format() {
    assert_eq!(json_str("a\"b\\c\n"), "\"a\\\"b\\\\c\\n\"");
    assert_eq!(json_num(&M, s(2.0)), "2");
    assert_eq!(json_num(&M, s(2.5)), "2.5");
    assert_eq!(json_num(&M, s(f64::NAN)), "null");
}

#[test]
fn json_text_escapes_control_characters() {
    assert_eq!(json_str("\t\u{1}\u{1f}é"), "\"\\t\\u0001\\u001fé\"");
    assert_eq!(json_num(&M, s(-7.0)), "-7");
    assert_eq!(json_num(&M, s(f64::INFINITY)), "null");
    assert_eq!(json_num(&M, s(1e15)), "1000000000000000");
    assert_eq!(json_num(&M, s(1e300)), format!("{}", 1e300));
}

#[test]
fn timestamp_is_iso8601() {
    let t = iso8601_utc(1_900_000_000);
    assert_eq!(t.len(), 20, "{t}");
    assert!(t.ends_with('Z') && t.contains('T'), "{t}");
    assert!(t.starts_with("20"), "{t}");
}

#[test]
fn dates_count_from_the_epoch() {
    assert_eq!(iso8601_utc(0), "1970-01-01T00:00:00Z");
    assert_eq!(iso8601_utc(951_782_400), "2000-02-29T00:00:00Z");
    assert_eq!(iso8601_utc(1_709_251_199), "2024-02-29T23:59:59Z");
    assert_eq!(iso8601_utc(4_107_542_399), "2100-02-28T23:59:59Z");
    assert_eq!(iso8601_utc(4_107_542_400), "2100-03-01T00:00:00Z");
}

fn row(actual: f64) -> TestResult {
    TestResult {
        id: "X1".to_string(),
        name: "self test".to_string(),
        expected: Value::Num(s(1.0)),
        actual: Value::Num(s(actual)),
        units: "widgets".to_string(),
        pass: true,
    }
}

#[test]
fn records_build_one_document() {
    let suite = "selftest";
    let records = vec![
        record_test(&M, suite, &row(0.5)),
        record_benchmark(
            &M,
            suite,
            &Benchmark {
                case: "demo".to_string(),
                setting: "graded | long".to_string(),
                cells: 42,
                steps_per_sec: s(10.5),
                seconds_to_steady: s(3.25),
            },
        ),
        record_note(suite, "n1", "a note"),
        record_test(&M, suite, &row(0.75)),
    ];
    let mut staging = String::new();
    let mut doc = String::new();
    for r in &records {
        assert!(!r.key.contains('|') && !r.key.contains('\n') && !r.json.contains('\n'));
        let filed = file_record(&staging, "abc", "2026-01-01T00:00:00Z", "m-1c", r);
        staging = filed.staging;
        doc = filed.document;
    }
    assert_eq!(doc.matches('{').count(), doc.matches('}').count(), "{doc}");
    assert!(!doc.contains(")|{"), "staging prefix leaked into the document: {doc}");
    assert_eq!(doc.matches("\"X1\"").count(), 1, "rerun must replace, not append");
    assert!(doc.contains("\"actual\":0.75"), "{doc}");
    assert!(doc.contains("\"steps_per_sec\":10.5"), "{doc}");
    assert!(doc.contains("a note"), "{doc}");
    assert!(doc.contains("\"machine\""), "{doc}");
}

#[test]
fn a_new_commit_starts_a_new_document() {
    let first = file_record("", "old", "t", "m", &record_note("s", "a", "one"));
    assert_eq!(first.staging, "old|note|a|\"one\"\n");
    let second = file_record(&first.staging, "new", "t", "m", &record_note("s", "b", "two"));
    assert_eq!(second.staging, "new|note|b|\"two\"\n");
    assert_eq!(
        second.document,
        "{\n  \"commit\": \"new\",\n  \"timestamp\": \"t\",\n  \"machine\": \"m\",\n  \"tests\": \
         [],\n  \"benchmarks\": [],\n  \"notes\": [\n    \"two\"\n  ]\n}\n"
    );
}

#[test]
fn a_rerun_replaces_a_row_that_ends_with_a_carriage_return() {
    let kept = "c|note|z|\"kept\"\n";
    let mut first = record_note("s", "a", "one");
    first.json.push('\r');
    let one = file_record(kept, "c", "t", "m", &first);
    assert_eq!(one.staging, "c|note|z|\"kept\"\nc|note|a|\"one\"\r\n");
    let two = file_record(&one.staging, "c", "t", "m", &record_note("s", "a", "two"));
    assert_eq!(two.staging, "c|note|z|\"kept\"\nc|note|a|\"two\"\n");
}

#[test]
fn a_lock_is_broken_when_stale_and_given_up_after_the_deadline() {
    assert_eq!(lock_move(Some((30, 0)), false), LockMove::Wait);
    assert_eq!(lock_move(Some((30, 1)), true), LockMove::BreakStale);
    assert_eq!(lock_move(Some((31, 0)), false), LockMove::BreakStale);
    assert_eq!(lock_move(Some((2, 0)), true), LockMove::TimeOut);
    assert_eq!(lock_move(None, false), LockMove::Wait);
    assert_eq!(lock_move(None, true), LockMove::TimeOut);
}
