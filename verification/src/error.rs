//! The one error type.

use vstd::prelude::*;
use crate::grid::{Axis, EdgeFault};
use crate::scalar::Scalar;
use crate::text;
use crate::text::{decimal_text, Show};

verus! {

/// What can go wrong.
#[derive(Debug)]
pub enum CfdError {
    Geometry(String),
    Grid(String),
    Parameter(String),
    Diverged { step: u64, detail: String },
    Io(String),
}

/// The text of an error.
pub open spec fn message_of(e: CfdError) -> Seq<char> {
    match e {
        CfdError::Geometry(s) => "invalid geometry: "@ + s@,
        CfdError::Grid(s) => "invalid grid: "@ + s@,
        CfdError::Parameter(s) => "invalid parameter: "@ + s@,
        CfdError::Diverged { step, detail } => "solver diverged at step "@ + text::decimal(
            step as int,
        ) + ": "@ + detail@,
        CfdError::Io(s) => "io: "@ + s@,
    }
}

fn prefixed(prefix: &str, s: &String) -> (r: String)
    ensures
        r@ == prefix@ + s@,
{
    let mut r = prefix.to_owned();
    r.append(s.as_str());
    r
}

impl CfdError {
    /// The text of the error.
    pub fn message(&self) -> (r: String)
        ensures
            r@ == message_of(*self),
    {
        match self {
            CfdError::Geometry(s) => prefixed("invalid geometry: ", s),
            CfdError::Grid(s) => prefixed("invalid grid: ", s),
            CfdError::Parameter(s) => prefixed("invalid parameter: ", s),
            CfdError::Diverged { step, detail } => {
                let mut r = "solver diverged at step ".to_owned();
                r.append(decimal_text(*step).as_str());
                r.append(": ");
                r.append(detail.as_str());
                assert(r@ =~= message_of(*self));
                r
            },
            CfdError::Io(s) => prefixed("io: ", s),
        }
    }
}

/// The letter of an axis.
pub open spec fn axis_name(a: Axis) -> Seq<char> {
    match a {
        Axis::Z => "z"@,
        Axis::R => "r"@,
    }
}

fn axis_text(a: Axis) -> (r: String)
    ensures
        r@ == axis_name(a),
{
    match a {
        Axis::Z => "z".to_owned(),
        Axis::R => "r".to_owned(),
    }
}

/// `r` describes what is wrong with an edge list.
pub open spec fn describes<S: Show>(m: &S, fault: EdgeFault, r: Seq<char>) -> bool {
    match fault {
        EdgeFault::TooFew { axis, entries } => r == axis_name(axis) + "_edges has "@
            + text::decimal(entries as int) + " entries"@,
        EdgeFault::FirstNotZero { axis, first } => exists|a: String| #[trigger]
            call_ensures(S::show, (m, first), a) && r == axis_name(axis) + "_edges[0] = "@ + a@
                + " (must be 0)"@,
        EdgeFault::NotIncreasing { axis, index, before, after } => exists|a: String, b: String|
            {
                &&& #[trigger] call_ensures(S::show, (m, before), a)
                &&& #[trigger] call_ensures(S::show, (m, after), b)
                &&& r == axis_name(axis) + "_edges not strictly increasing at "@ + text::decimal(
                    index as int,
                ) + ": "@ + a@ + " -> "@ + b@
            },
    }
}

impl EdgeFault {
    /// The error that reports the fault.
    pub fn to_error<S: Show>(&self, m: &S) -> (e: CfdError)
        ensures
            e matches CfdError::Grid(s) && describes(m, *self, s@),
    {
        match *self {
            EdgeFault::TooFew { axis, entries } => {
                let mut r = axis_text(axis);
                r.append("_edges has ");
                r.append(decimal_text(entries as u64).as_str());
                r.append(" entries");
                assert(describes(m, *self, r@));
                CfdError::Grid(r)
            },
            EdgeFault::FirstNotZero { axis, first } => {
                let a = m.show(first);
                let mut r = axis_text(axis);
                r.append("_edges[0] = ");
                r.append(a.as_str());
                r.append(" (must be 0)");
                assert(describes(m, *self, r@));
                CfdError::Grid(r)
            },
            EdgeFault::NotIncreasing { axis, index, before, after } => {
                let a = m.show(before);
                let b = m.show(after);
                let mut r = axis_text(axis);
                r.append("_edges not strictly increasing at ");
                r.append(decimal_text(index as u64).as_str());
                r.append(": ");
                r.append(a.as_str());
                r.append(" -> ");
                r.append(b.as_str());
                assert(describes(m, *self, r@));
                CfdError::Grid(r)
            },
        }
    }
}

/// Text made of a prefix and a value in single precision.
pub open spec fn is_shown<S: Show>(m: &S, prefix: Seq<char>, x: Scalar, r: Seq<char>) -> bool {
    exists|a: String| #[trigger] call_ensures(S::show_single, (m, x), a) && r == prefix + a@
}

/// A prefix and a value in single precision.
pub fn shown<S: Show>(m: &S, prefix: &str, x: Scalar) -> (r: String)
    ensures
        is_shown(m, prefix@, x, r@),
{
    let a = m.show_single(x);
    let mut r = prefix.to_owned();
    r.append(a.as_str());
    r
}

/// The text of an error tells its kind and then, unchanged, what was the matter.
pub proof fn law_messages_end_with_the_matter(e: CfdError, r: String) -> (n: int)
    requires
        call_ensures(CfdError::message, (&e,), r),
    ensures
        0 < n <= r@.len(),
        ({
            let (start, matter) = (r@.take(n), r@.skip(n));
            match e {
                CfdError::Geometry(s) => start == "invalid geometry: "@ && matter == s@,
                CfdError::Grid(s) => start == "invalid grid: "@ && matter == s@,
                CfdError::Parameter(s) => start == "invalid parameter: "@ && matter == s@,
                CfdError::Diverged { step, detail } => start == "solver diverged at step "@
                    + text::decimal(step as int) + ": "@ && matter == detail@,
                CfdError::Io(s) => start == "io: "@ && matter == s@,
            }
        }),
{
    reveal_strlit("invalid geometry: ");
    reveal_strlit("invalid grid: ");
    reveal_strlit("invalid parameter: ");
    reveal_strlit("solver diverged at step ");
    reveal_strlit("io: ");
    let start = match e {
        CfdError::Geometry(_) => "invalid geometry: "@,
        CfdError::Grid(_) => "invalid grid: "@,
        CfdError::Parameter(_) => "invalid parameter: "@,
        CfdError::Diverged { step, .. } => "solver diverged at step "@ + text::decimal(step as int)
            + ": "@,
        CfdError::Io(_) => "io: "@,
    };
    let matter = match e {
        CfdError::Geometry(s) => s@,
        CfdError::Grid(s) => s@,
        CfdError::Parameter(s) => s@,
        CfdError::Diverged { detail, .. } => detail@,
        CfdError::Io(s) => s@,
    };
    assert(r@ =~= start + matter);
    assert(r@.take(start.len() as int) =~= start);
    assert(r@.skip(start.len() as int) =~= matter);
    start.len() as int
}

/// The description of a faulty edge list names its axis first, and of two edges out of order
/// shows the place and then the earlier before the later.
pub proof fn law_faults_name_their_axis<S: Show>(m: &S, fault: EdgeFault, r: Seq<char>)
    requires
        describes(m, fault, r),
    ensures
        r.len() > 1,
        r[0] == match fault {
            EdgeFault::TooFew { axis, .. } => if axis is Z {
                'z'
            } else {
                'r'
            },
            EdgeFault::FirstNotZero { axis, .. } => if axis is Z {
                'z'
            } else {
                'r'
            },
            EdgeFault::NotIncreasing { axis, .. } => if axis is Z {
                'z'
            } else {
                'r'
            },
        },
        fault matches EdgeFault::NotIncreasing { axis, index, before, after } ==> exists|
            a: String,
            b: String,
        |
            {
                &&& #[trigger] call_ensures(S::show, (m, before), a)
                &&& #[trigger] call_ensures(S::show, (m, after), b)
                &&& (text::decimal(index as int) + ": "@ + a@ + " -> "@ + b@).is_suffix_of(r)
            },
{
    reveal_strlit("z");
    reveal_strlit("r");
    reveal_strlit("_edges has ");
    reveal_strlit("_edges[0] = ");
    reveal_strlit("_edges not strictly increasing at ");
    if let EdgeFault::NotIncreasing { axis, index, before, after } = fault {
        let (a, b) = choose|a: String, b: String|
            {
                &&& #[trigger] call_ensures(S::show, (m, before), a)
                &&& #[trigger] call_ensures(S::show, (m, after), b)
                &&& r == axis_name(axis) + "_edges not strictly increasing at "@ + text::decimal(
                    index as int,
                ) + ": "@ + a@ + " -> "@ + b@
            };
        let tail = text::decimal(index as int) + ": "@ + a@ + " -> "@ + b@;
        let start = axis_name(axis) + "_edges not strictly increasing at "@;
        assert(r =~= start + tail);
        assert(r.subrange(r.len() - tail.len(), r.len() as int) =~= tail);
        assert(tail.is_suffix_of(r));
    }
}

} // verus!
