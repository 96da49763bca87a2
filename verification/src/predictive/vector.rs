//! Multivariate normal vectors: standard normal numbers behind a lower-triangular scale.

use vstd::prelude::*;

#[allow(unused_imports)]
use crate::data::number_views;
use crate::number::Number;
#[allow(unused_imports)]
use crate::number::NumberModel;
use crate::numerics::Randomness;
use crate::tensor::Tensor;

verus! {

/// Whether so many standard normal numbers in a row can be those, with that source behind them.
pub open spec fn normals_drawn<N: Randomness>(
    rand: &N,
    n: nat,
    source: N::Source,
    z: Seq<NumberModel>,
    after: N::Source,
) -> bool
    decreases n,
{
    if n == 0 {
        z.len() == 0 && after == source
    } else {
        z.len() == n && exists|middle: N::Source| #[trigger]
            rand.standard_gives(middle, z.last(), after) && normals_drawn(
                rand,
                (n - 1) as nat,
                source,
                z.drop_last(),
                middle,
            )
    }
}

/// Whether a number, with the first `n` of the products of factors and numbers added one behind
/// the other, can be that.
pub open spec fn row_combined<N: Randomness>(
    rand: &N,
    begin: NumberModel,
    factors: Seq<NumberModel>,
    z: Seq<NumberModel>,
    n: nat,
    out: NumberModel,
) -> bool
    decreases n,
{
    if n == 0 {
        out == begin
    } else {
        exists|before: NumberModel| #[trigger]
            rand.step_gives(before, factors[n - 1], z[n - 1], out) && row_combined(
                rand,
                begin,
                factors,
                z,
                (n - 1) as nat,
                before,
            )
    }
}

/// A row of a square matrix that is listed row by row.
pub open spec fn matrix_row(values: Seq<NumberModel>, size: nat, row: int) -> Seq<NumberModel> {
    values.subrange(row * size, row * size + size)
}

/// Whether a vector can be that: each entry is that of the mean, with the products of the entries
/// of its row up to the diagonal and of the standard normal numbers. What stands above the
/// diagonal is not read.
pub open spec fn vector_combined<N: Randomness>(
    rand: &N,
    mean: Seq<NumberModel>,
    scale: Seq<NumberModel>,
    z: Seq<NumberModel>,
    values: Seq<NumberModel>,
) -> bool {
    &&& values.len() == mean.len()
    &&& forall|row: int|
        0 <= row < mean.len() ==> row_combined(
            rand,
            mean[row],
            matrix_row(scale, mean.len(), row),
            z,
            (row + 1) as nat,
            #[trigger] values[row],
        )
}

/// Whether drawing a vector can come to that: as many standard normal numbers as it has entries,
/// then the entries.
pub open spec fn normal_vector<N: Randomness>(
    rand: &N,
    mean: Seq<NumberModel>,
    scale: Seq<NumberModel>,
    source: N::Source,
    values: Seq<NumberModel>,
    after: N::Source,
) -> bool {
    exists|z: Seq<NumberModel>| #[trigger]
        normals_drawn(rand, mean.len(), source, z, after) && vector_combined(
            rand,
            mean,
            scale,
            z,
            values,
        )
}

fn draw_normals<N: Randomness>(rand: &N, n: usize, source: N::Source) -> (r: (
    Vec<Number>,
    N::Source,
))
    requires
        rand.ready(),
    ensures
        normals_drawn(rand, n as nat, source, number_views(r.0@), r.1),
        r.0@.len() == n,
{
    let ghost begin = source;
    let mut now: N::Source = source;
    let mut out: Vec<Number> = Vec::new();
    let mut i: usize = 0;
    while i < n
        invariant
            i <= n,
            rand.ready(),
            out@.len() == i,
            normals_drawn(rand, i as nat, begin, number_views(out@), now),
        decreases n - i,
    {
        let ghost before = number_views(out@);
        let ghost middle = now;
        let (found, next) = rand.standard(now);
        let ghost content = found@;
        out.push(found);
        now = next;
        proof {
            assert(number_views(out@) =~= before.push(content));
            assert(number_views(out@).drop_last() =~= before);
            assert(rand.standard_gives(middle, number_views(out@).last(), now));
        }
        i += 1;
    }
    (out, now)
}

proof fn lemma_place(row: int, size: int, column: int)
    requires
        0 <= row < size,
        0 <= column < size,
    ensures
        0 <= row * size,
        0 <= row * size + column < row * size + size <= size * size,
{
    assert(0 <= row * size && row * size + size <= size * size) by (nonlinear_arith)
        requires
            0 <= row < size,
    ;
}

fn combine_row<N: Randomness>(
    rand: &N,
    mean: &Vec<Number>,
    scale: &Vec<Number>,
    z: &Vec<Number>,
    row: usize,
) -> (r: Number)
    requires
        rand.ready(),
        row < mean.len(),
        z.len() == mean.len(),
        scale.len() == mean.len() * mean.len(),
    ensures
        row_combined(
            rand,
            mean@[row as int]@,
            matrix_row(number_views(scale@), mean@.len(), row as int),
            number_views(z@),
            (row + 1) as nat,
            r@,
        ),
{
    let size: usize = mean.len();
    let ghost factors = matrix_row(number_views(scale@), size as nat, row as int);
    proof {
        lemma_place(row as int, size as int, 0);
    }
    let begin: usize = row * size;
    let mut value: Number = mean[row].copy();
    let mut column: usize = 0;
    while column <= row
        invariant
            row < size,
            size == mean.len(),
            z.len() == size,
            scale.len() == size * size,
            begin == row * size,
            column <= row + 1,
            rand.ready(),
            factors == matrix_row(number_views(scale@), size as nat, row as int),
            row_combined(
                rand,
                mean@[row as int]@,
                factors,
                number_views(z@),
                column as nat,
                value@,
            ),
        decreases row + 1 - column,
    {
        proof {
            lemma_place(row as int, size as int, column as int);
            assert(factors[column as int] == scale@[begin + column]@);
            assert(number_views(z@)[column as int] == z@[column as int]@);
        }
        let ghost before = value@;
        value = rand.step(&value, &scale[begin + column], &z[column]);
        proof {
            let n = (column + 1) as nat;
            assert((n - 1) as nat == column as nat);
            assert(rand.step_gives(before, factors[n - 1], number_views(z@)[n - 1], value@));
            assert(row_combined(
                rand,
                mean@[row as int]@,
                factors,
                number_views(z@),
                n,
                value@,
            ));
        }
        column += 1;
    }
    value
}

/// Draws a multivariate normal vector; `scale` lists a square matrix row by row.
pub fn draw_vector<N: Randomness>(rand: &N, mean: &Tensor, scale: &Tensor, source: N::Source) -> (r: (
    Vec<Number>,
    N::Source,
))
    requires
        rand.ready(),
        scale@.values.len() == mean@.values.len() * mean@.values.len(),
    ensures
        normal_vector(
            rand,
            mean@.values,
            scale@.values,
            source,
            number_views(r.0@),
            r.1,
        ),
        r.0@.len() == mean@.values.len(),
{
    let size: usize = mean.values.len();
    let (z, after) = draw_normals(rand, size, source);
    let mut out: Vec<Number> = Vec::new();
    let mut row: usize = 0;
    while row < size
        invariant
            row <= size,
            rand.ready(),
            size == mean.values.len(),
            z.len() == size,
            scale.values.len() == size * size,
            out.len() == row,
            forall|k: int|
                0 <= k < row ==> row_combined(
                    rand,
                    mean.values@[k]@,
                    matrix_row(number_views(scale.values@), size as nat, k),
                    number_views(z@),
                    (k + 1) as nat,
                    (#[trigger] out@[k])@,
                ),
        decreases size - row,
    {
        let entry: Number = combine_row(rand, &mean.values, &scale.values, &z, row);
        out.push(entry);
        row += 1;
    }
    proof {
        let values = number_views(out@);
        assert forall|k: int| 0 <= k < mean@.values.len() implies row_combined(
            rand,
            mean@.values[k],
            matrix_row(scale@.values, mean@.values.len(), k),
            number_views(z@),
            (k + 1) as nat,
            #[trigger] values[k],
        ) by {
            assert(values[k] == out@[k]@);
        }
        assert(vector_combined(rand, mean@.values, scale@.values, number_views(z@), values));
    }
    (out, after)
}

proof fn lemma_row_reads_below<N: Randomness>(
    rand: &N,
    begin: NumberModel,
    a: Seq<NumberModel>,
    b: Seq<NumberModel>,
    z: Seq<NumberModel>,
    n: nat,
    out: NumberModel,
)
    requires
        forall|i: int| 0 <= i < n ==> a[i] == b[i],
        row_combined(rand, begin, a, z, n, out),
    ensures
        row_combined(rand, begin, b, z, n, out),
    decreases n,
{
    if n > 0 {
        let before = choose|before: NumberModel| #[trigger]
            rand.step_gives(before, a[n - 1], z[n - 1], out) && row_combined(
                rand,
                begin,
                a,
                z,
                (n - 1) as nat,
                before,
            );
        lemma_row_reads_below(rand, begin, a, b, z, (n - 1) as nat, before);
        assert(rand.step_gives(before, b[n - 1], z[n - 1], out));
    }
}

/// What stands above the diagonal of the scale plays no part in a vector.
pub proof fn law_only_the_lower_triangle_counts<N: Randomness>(
    rand: &N,
    mean: Seq<NumberModel>,
    a: Seq<NumberModel>,
    b: Seq<NumberModel>,
    source: N::Source,
    values: Seq<NumberModel>,
    after: N::Source,
)
    requires
        a.len() == mean.len() * mean.len(),
        b.len() == mean.len() * mean.len(),
        forall|row: int, column: int|
            0 <= column <= row < mean.len() ==> #[trigger] matrix_row(a, mean.len(), row)[column]
                == matrix_row(b, mean.len(), row)[column],
        normal_vector(rand, mean, a, source, values, after),
    ensures
        normal_vector(rand, mean, b, source, values, after),
{
    let z = choose|z: Seq<NumberModel>| #[trigger]
        normals_drawn(rand, mean.len(), source, z, after) && vector_combined(
            rand,
            mean,
            a,
            z,
            values,
        );
    assert forall|row: int| 0 <= row < mean.len() implies row_combined(
        rand,
        mean[row],
        matrix_row(b, mean.len(), row),
        z,
        (row + 1) as nat,
        #[trigger] values[row],
    ) by {
        lemma_row_reads_below(
            rand,
            mean[row],
            matrix_row(a, mean.len(), row),
            matrix_row(b, mean.len(), row),
            z,
            (row + 1) as nat,
            values[row],
        );
    }
    assert(vector_combined(rand, mean, b, z, values));
}

} // verus!
