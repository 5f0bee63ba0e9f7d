//! Wall angles of parabolic bells, read from a table.

use vstd::prelude::*;
use crate::scalar::Scalar;

verus! {

/// The floating-point formulas of the table.
pub trait RaoMath {
    /// Where `x` lies between two values, as a share of the way.
    fn share_between(&self, x: Scalar, lo: Scalar, hi: Scalar) -> Scalar;

    /// Where `x` lies between two values on a logarithmic scale.
    fn log_share_between(&self, x: Scalar, lo: Scalar, hi: Scalar) -> Scalar;

    /// The value a share of the way from `a` to `b`.
    fn on_line(&self, a: Scalar, b: Scalar, share: Scalar) -> Scalar;
}

/// The area ratios of the table, from 4 to 100.
pub open spec fn ratios() -> Seq<u64> {
    seq![
        0x4010_0000_0000_0000u64,
        0x4014_0000_0000_0000u64,
        0x4024_0000_0000_0000u64,
        0x4034_0000_0000_0000u64,
        0x403E_0000_0000_0000u64,
        0x4044_0000_0000_0000u64,
        0x4049_0000_0000_0000u64,
        0x4059_0000_0000_0000u64,
    ]
}

/// The bell fractions of the table: 0.6, 0.8 and 0.9.
pub open spec fn bells() -> Seq<u64> {
    seq![
        0x3FE3_3333_3333_3333u64,
        0x3FE9_9999_9999_999Au64,
        0x3FEC_CCCC_CCCC_CCCDu64,
    ]
}

/// The angles at the throat in degrees, one row per bell fraction.
pub open spec fn throat_angles(row: int) -> Seq<u64> {
    if row == 0 {
        seq![
            0x403A_8000_0000_0000u64,
            0x403C_0000_0000_0000u64,
            0x4040_0000_0000_0000u64,
            0x4041_8000_0000_0000u64,
            0x4042_1999_9999_999Au64,
            0x4042_8CCC_CCCC_CCCDu64,
            0x4042_C000_0000_0000u64,
            0x4044_0000_0000_0000u64,
        ]
    } else if row == 1 {
        seq![
            0x4035_8000_0000_0000u64,
            0x4037_0000_0000_0000u64,
            0x403A_4CCC_CCCC_CCCDu64,
            0x403C_CCCC_CCCC_CCCDu64,
            0x403E_0000_0000_0000u64,
            0x403F_0000_0000_0000u64,
            0x403F_8000_0000_0000u64,
            0x4040_C000_0000_0000u64,
        ]
    } else {
        seq![
            0x4034_0000_0000_0000u64,
            0x4035_0000_0000_0000u64,
            0x4038_0000_0000_0000u64,
            0x403B_0000_0000_0000u64,
            0x403C_8000_0000_0000u64,
            0x403D_8000_0000_0000u64,
            0x403E_3333_3333_3333u64,
            0x4040_0000_0000_0000u64,
        ]
    }
}

/// The angles at the exit in degrees, one row per bell fraction.
pub open spec fn exit_angles(row: int) -> Seq<u64> {
    if row == 0 {
        seq![
            0x4034_8000_0000_0000u64,
            0x4034_8000_0000_0000u64,
            0x4030_0000_0000_0000u64,
            0x402D_0000_0000_0000u64,
            0x402C_0000_0000_0000u64,
            0x402B_0000_0000_0000u64,
            0x402A_0000_0000_0000u64,
            0x4026_6666_6666_6666u64,
        ]
    } else if row == 1 {
        seq![
            0x402C_0000_0000_0000u64,
            0x402A_0000_0000_0000u64,
            0x4026_0000_0000_0000u64,
            0x4022_0000_0000_0000u64,
            0x4021_0000_0000_0000u64,
            0x4020_0000_0000_0000u64,
            0x401E_0000_0000_0000u64,
            0x401C_0000_0000_0000u64,
        ]
    } else {
        seq![
            0x4027_0000_0000_0000u64,
            0x4025_0000_0000_0000u64,
            0x4020_0000_0000_0000u64,
            0x401C_0000_0000_0000u64,
            0x401A_0000_0000_0000u64,
            0x4018_0000_0000_0000u64,
            0x4018_0000_0000_0000u64,
            0x4018_0000_0000_0000u64,
        ]
    }
}

fn ratio_row() -> (r: Vec<u64>)
    ensures
        r@ == ratios(),
{
    let r: Vec<u64> = vec![
        0x4010_0000_0000_0000,
        0x4014_0000_0000_0000,
        0x4024_0000_0000_0000,
        0x4034_0000_0000_0000,
        0x403E_0000_0000_0000,
        0x4044_0000_0000_0000,
        0x4049_0000_0000_0000,
        0x4059_0000_0000_0000,
    ];
    r
}

fn bell_row() -> (r: Vec<u64>)
    ensures
        r@ == bells(),
{
    let r: Vec<u64> = vec![
        0x3FE3_3333_3333_3333,
        0x3FE9_9999_9999_999A,
        0x3FEC_CCCC_CCCC_CCCD,
    ];
    r
}

fn throat_row(row: usize) -> (r: Vec<u64>)
    ensures
        r@ == throat_angles(row as int),
{
    let r: Vec<u64> = if row == 0 {
        vec![
            0x403A_8000_0000_0000,
            0x403C_0000_0000_0000,
            0x4040_0000_0000_0000,
            0x4041_8000_0000_0000,
            0x4042_1999_9999_999A,
            0x4042_8CCC_CCCC_CCCD,
            0x4042_C000_0000_0000,
            0x4044_0000_0000_0000,
        ]
    } else if row == 1 {
        vec![
            0x4035_8000_0000_0000,
            0x4037_0000_0000_0000,
            0x403A_4CCC_CCCC_CCCD,
            0x403C_CCCC_CCCC_CCCD,
            0x403E_0000_0000_0000,
            0x403F_0000_0000_0000,
            0x403F_8000_0000_0000,
            0x4040_C000_0000_0000,
        ]
    } else {
        vec![
            0x4034_0000_0000_0000,
            0x4035_0000_0000_0000,
            0x4038_0000_0000_0000,
            0x403B_0000_0000_0000,
            0x403C_8000_0000_0000,
            0x403D_8000_0000_0000,
            0x403E_3333_3333_3333,
            0x4040_0000_0000_0000,
        ]
    };
    r
}

fn exit_row(row: usize) -> (r: Vec<u64>)
    ensures
        r@ == exit_angles(row as int),
{
    let r: Vec<u64> = if row == 0 {
        vec![
            0x4034_8000_0000_0000,
            0x4034_8000_0000_0000,
            0x4030_0000_0000_0000,
            0x402D_0000_0000_0000,
            0x402C_0000_0000_0000,
            0x402B_0000_0000_0000,
            0x402A_0000_0000_0000,
            0x4026_6666_6666_6666,
        ]
    } else if row == 1 {
        vec![
            0x402C_0000_0000_0000,
            0x402A_0000_0000_0000,
            0x4026_0000_0000_0000,
            0x4022_0000_0000_0000,
            0x4021_0000_0000_0000,
            0x4020_0000_0000_0000,
            0x401E_0000_0000_0000,
            0x401C_0000_0000_0000,
        ]
    } else {
        vec![
            0x4027_0000_0000_0000,
            0x4025_0000_0000_0000,
            0x4020_0000_0000_0000,
            0x401C_0000_0000_0000,
            0x401A_0000_0000_0000,
            0x4018_0000_0000_0000,
            0x4018_0000_0000_0000,
            0x4018_0000_0000_0000,
        ]
    };
    r
}

/// An entry of a row.
pub open spec fn entry(row: Seq<u64>, i: int) -> Scalar {
    Scalar { bits: row[i] }
}

/// `x` held inside a row.
pub open spec fn inside_row(row: Seq<u64>, x: Scalar) -> Scalar {
    x.held_between(entry(row, 0), entry(row, row.len() - 1))
}

/// The upper end of the interval of a row that holds `x`: the first entry beyond
/// it, the second entry at least and the last one at most.
pub open spec fn upper_end(row: Seq<u64>, x: Scalar, k: int) -> bool {
    &&& 1 <= k <= row.len() - 1
    &&& forall|j: int| 1 <= j < k ==> #[trigger] entry(row, j).at_most(x)
    &&& k > 1 ==> entry(row, 0).at_most(x)
    &&& k < row.len() - 1 ==> !entry(row, k).at_most(x) || !entry(row, 0).at_most(x)
}

fn find_upper_end(row: &Vec<u64>, x: Scalar) -> (k: usize)
    requires
        row.len() >= 2,
    ensures
        upper_end(row@, x, k as int),
{
    if !(Scalar { bits: row[0] }).le(x) {
        return 1;
    }
    let mut k: usize = 1;
    while k + 1 < row.len() && Scalar::from_bits(row[k]).le(x)
        invariant
            1 <= k <= row.len() - 1,
            entry(row@, 0).at_most(x),
            forall|j: int| 1 <= j < k ==> #[trigger] entry(row@, j).at_most(x),
        decreases row.len() - k,
    {
        k = k + 1;
    }
    k
}

/// `r` is read from one row of angles, between the entries around the area ratio,
/// on a logarithmic scale.
pub open spec fn is_read<M: RaoMath>(
    m: &M,
    row: Seq<u64>,
    ratio: Scalar,
    k: int,
    share: Scalar,
    r: Scalar,
) -> bool {
    &&& upper_end(ratios(), ratio, k)
    &&& call_ensures(
        M::log_share_between,
        (m, ratio, entry(ratios(), k - 1), entry(ratios(), k)),
        share,
    )
    &&& call_ensures(M::on_line, (m, entry(row, k - 1), entry(row, k), share), r)
}

/// `r` is the angle of a row at an area ratio.
pub open spec fn reads<M: RaoMath>(m: &M, row: Seq<u64>, ratio: Scalar, r: Scalar) -> bool {
    exists|k: int, share: Scalar| #[trigger] is_read(m, row, ratio, k, share, r)
}

fn read_row<M: RaoMath>(m: &M, row: &Vec<u64>, ratio: Scalar) -> (r: Scalar)
    requires
        row.len() == 8,
    ensures
        reads(m, row@, ratio, r),
{
    let x = ratio_row();
    let k: usize = find_upper_end(&x, ratio);
    let share = m.log_share_between(
        ratio,
        Scalar { bits: x[k - 1] },
        Scalar { bits: x[k] },
    );
    let r = m.on_line(Scalar { bits: row[k - 1] }, Scalar { bits: row[k] }, share);
    assert(is_read(m, row@, ratio, k as int, share, r));
    r
}

/// `angles` are the angles at the throat and at the exit, between the rows around
/// the bell fraction.
pub open spec fn are_angles_by<M: RaoMath>(
    m: &M,
    ratio: Scalar,
    bell: Scalar,
    k: int,
    share: Scalar,
    n0: Scalar,
    n1: Scalar,
    e0: Scalar,
    e1: Scalar,
    angles: (Scalar, Scalar),
) -> bool {
    &&& upper_end(bells(), bell, k)
    &&& call_ensures(
        M::share_between,
        (m, bell, entry(bells(), k - 1), entry(bells(), k)),
        share,
    )
    &&& reads(m, throat_angles(k - 1), ratio, n0)
    &&& reads(m, throat_angles(k), ratio, n1)
    &&& reads(m, exit_angles(k - 1), ratio, e0)
    &&& reads(m, exit_angles(k), ratio, e1)
    &&& call_ensures(M::on_line, (m, n0, n1, share), angles.0)
    &&& call_ensures(M::on_line, (m, e0, e1, share), angles.1)
}

/// `angles` are those of a bell, with both numbers held inside the table.
pub open spec fn are_rao_angles<M: RaoMath>(
    m: &M,
    area_ratio: Scalar,
    bell_percent: Scalar,
    angles: (Scalar, Scalar),
) -> bool {
    let ratio = inside_row(ratios(), area_ratio);
    let bell = inside_row(bells(), bell_percent);
    exists|k: int, share: Scalar, n0: Scalar, n1: Scalar, e0: Scalar, e1: Scalar| #[trigger]
        are_angles_by(m, ratio, bell, k, share, n0, n1, e0, e1, angles)
}

/// The wall angles in degrees at the throat and at the exit of a parabolic bell.
pub fn rao_angles<M: RaoMath>(m: &M, area_ratio: Scalar, bell_percent: Scalar) -> (angles: (
    Scalar,
    Scalar,
))
    ensures
        are_rao_angles(m, area_ratio, bell_percent, angles),
{
    let x = ratio_row();
    let b = bell_row();
    let ratio = area_ratio.hold(Scalar { bits: x[0] }, Scalar { bits: x[7] });
    let bell = bell_percent.hold(Scalar { bits: b[0] }, Scalar { bits: b[2] });
    let k: usize = find_upper_end(&b, bell);
    let share = m.share_between(bell, Scalar { bits: b[k - 1] }, Scalar { bits: b[k] });
    let n0 = read_row(m, &throat_row(k - 1), ratio);
    let n1 = read_row(m, &throat_row(k), ratio);
    let e0 = read_row(m, &exit_row(k - 1), ratio);
    let e1 = read_row(m, &exit_row(k), ratio);
    let angles = (m.on_line(n0, n1, share), m.on_line(e0, e1, share));
    assert(ratio == inside_row(ratios(), area_ratio));
    assert(bell == inside_row(bells(), bell_percent));
    assert(are_angles_by(m, ratio, bell, k as int, share, n0, n1, e0, e1, angles));
    angles
}

/// Numbers outside of the table give the angles of its border.
pub proof fn law_angles_are_held<M: RaoMath>(
    m: &M,
    area_ratio: Scalar,
    bell_percent: Scalar,
    angles: (Scalar, Scalar),
)
    ensures
        are_rao_angles(m, area_ratio, bell_percent, angles) == are_rao_angles(
            m,
            inside_row(ratios(), area_ratio),
            inside_row(bells(), bell_percent),
            angles,
        ),
{
    lemma_held_twice(ratios(), area_ratio);
    lemma_held_twice(bells(), bell_percent);
}

proof fn lemma_held_twice(row: Seq<u64>, x: Scalar)
    requires
        row.len() >= 1,
        entry(row, 0).at_most(entry(row, row.len() - 1)),
    ensures
        inside_row(row, inside_row(row, x)) == inside_row(row, x),
{
}

/// Everywhere in the table the wall is steeper at the throat than at the exit.
pub proof fn law_throat_is_steeper(row: int, i: int)
    requires
        0 <= row < 3,
        0 <= i < 8,
    ensures
        entry(exit_angles(row), i).below(entry(throat_angles(row), i)),
{
}

/// Along every row the angle at the throat rises with the area ratio, and the
/// angle at the exit does not.
pub proof fn law_rows_are_monotone(row: int, i: int)
    requires
        0 <= row < 3,
        0 <= i < 7,
    ensures
        entry(ratios(), i).below(entry(ratios(), i + 1)),
        entry(throat_angles(row), i).below(entry(throat_angles(row), i + 1)),
        entry(exit_angles(row), i + 1).at_most(entry(exit_angles(row), i)),
{
}

/// The table is read where it says: at an area ratio and a bell fraction of the table the
/// angles are those that stand there, for the throat from the one part and for the exit
/// from the other, where an entry is no share of the way from itself to the next.
pub proof fn law_entries_give_their_own_angles<M: RaoMath>(
    m: &M,
    row: int,
    i: int,
    angles: (Scalar, Scalar),
)
    requires
        0 <= row < 2,
        0 <= i < 7,
        are_rao_angles(m, entry(ratios(), i), entry(bells(), row), angles),
        forall|a: Scalar, b: Scalar, x: Scalar| #[trigger]
            call_ensures(M::share_between, (m, a, a, b), x) ==> x.bits == 0,
        forall|a: Scalar, b: Scalar, x: Scalar| #[trigger]
            call_ensures(M::log_share_between, (m, a, a, b), x) ==> x.bits == 0,
        forall|a: Scalar, b: Scalar, x: Scalar| #[trigger]
            call_ensures(M::on_line, (m, a, b, Scalar { bits: 0 }), x) ==> x == a,
    ensures
        angles.0 == entry(throat_angles(row), i),
        angles.1 == entry(exit_angles(row), i),
{
    let ratio = entry(ratios(), i);
    let bell = entry(bells(), row);
    assert(inside_row(ratios(), ratio) == ratio);
    assert(inside_row(bells(), bell) == bell);
    let (k, share, n0, n1, e0, e1) = choose|
        k: int,
        share: Scalar,
        n0: Scalar,
        n1: Scalar,
        e0: Scalar,
        e1: Scalar,
    | #[trigger]
        are_angles_by(m, ratio, bell, k, share, n0, n1, e0, e1, angles);
    lemma_bell_end(row, k);
    assert(share == (Scalar { bits: share.bits }));
    lemma_node_is_read(m, throat_angles(row), i, n0);
    lemma_node_is_read(m, exit_angles(row), i, e0);
    assert(share == (Scalar { bits: 0 }));
}

proof fn lemma_bell_end(row: int, k: int)
    requires
        0 <= row < 2,
        upper_end(bells(), entry(bells(), row), k),
    ensures
        k == row + 1,
{
    let x = entry(bells(), row);
    assert(entry(bells(), 0).at_most(x));
    if k > row + 1 {
        assert(entry(bells(), row + 1).at_most(x));
    }
    if k < row + 1 {
        assert(entry(bells(), k).at_most(x));
    }
}

proof fn lemma_ratio_end(i: int, k: int)
    requires
        0 <= i < 7,
        upper_end(ratios(), entry(ratios(), i), k),
    ensures
        k == i + 1,
{
    let x = entry(ratios(), i);
    assert(i == 0 || i == 1 || i == 2 || i == 3 || i == 4 || i == 5 || i == 6);
    assert(entry(ratios(), 0).at_most(x));
    if k > i + 1 {
        assert(entry(ratios(), i + 1).at_most(x));
    }
    if k < i + 1 {
        assert(k == 1 || k == 2 || k == 3 || k == 4 || k == 5 || k == 6);
        assert(entry(ratios(), k).at_most(x));
    }
}

proof fn lemma_node_is_read<M: RaoMath>(m: &M, row: Seq<u64>, i: int, r: Scalar)
    requires
        0 <= i < 7,
        row.len() == 8,
        reads(m, row, entry(ratios(), i), r),
        forall|a: Scalar, b: Scalar, x: Scalar| #[trigger]
            call_ensures(M::log_share_between, (m, a, a, b), x) ==> x.bits == 0,
        forall|a: Scalar, b: Scalar, x: Scalar| #[trigger]
            call_ensures(M::on_line, (m, a, b, Scalar { bits: 0 }), x) ==> x == a,
    ensures
        r == entry(row, i),
{
    let ratio = entry(ratios(), i);
    let (k, share) = choose|k: int, share: Scalar| #[trigger]
        is_read(m, row, ratio, k, share, r);
    lemma_ratio_end(i, k);
    assert(share == (Scalar { bits: 0 }));
}

} // verus!
