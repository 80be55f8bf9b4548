use vstd::prelude::*;
use vstd::arithmetic::div_mod::{lemma_fundamental_div_mod, lemma_div_pos_is_pos};
use vstd::arithmetic::mul::{lemma_mul_inequality, lemma_mul_is_distributive_add_other_way};

verus! {

/// A horizontal strip of an image: the rows `top..bottom`.
#[derive(Debug, Clone, Copy, PartialEq, Eq, Structural)]
pub struct Band {
    pub top: usize,
    pub bottom: usize,
}

impl Band {
    /// Whether `row` is one of the band's rows.
    pub open spec fn holds(self, row: int) -> bool {
        self.top <= row < self.bottom
    }
}

/// Rows in each band when `height` rows are shared among `count` bands.
pub open spec fn rows_per_band(height: nat, count: nat) -> nat {
    height / count
}

/// The `i`-th of `count` bands over `height` rows: every band has
/// `height / count` rows, and the last one takes the remainder as well.
pub open spec fn band_at(height: nat, count: nat, i: nat) -> Band {
    Band {
        top: (i * rows_per_band(height, count)) as usize,
        bottom: if i + 1 == count {
            height as usize
        } else {
            ((i + 1) * rows_per_band(height, count)) as usize
        },
    }
}

/// `bands` lie one under the other, each non-empty, from row 0 down to row
/// `height`.
pub open spec fn is_partition(bands: Seq<Band>, height: nat) -> bool {
    &&& bands.len() > 0
    &&& bands[0].top == 0
    &&& bands.last().bottom == height
    &&& forall|i: int| 0 <= i < bands.len() ==> #[trigger] bands[i].top < bands[i].bottom <= height
    &&& forall|i: int| 0 <= i < bands.len() - 1 ==> #[trigger] bands[i].bottom == bands[i + 1].top
}

proof fn lemma_band_at_bounds(height: nat, count: nat, i: nat)
    requires
        0 < count <= height <= usize::MAX,
        i < count,
    ensures
        band_at(height, count, i).top < band_at(height, count, i).bottom <= height,
        i * rows_per_band(height, count) < height,
{
    let q = rows_per_band(height, count) as int;
    lemma_div_pos_is_pos(height as int, count as int);
    lemma_fundamental_div_mod(height as int, count as int);
    let r = height as int % count as int;
    assert(0 <= r < count);
    assert(q >= 1 && count * q <= height) by (nonlinear_arith)
        requires
            height == count * q + r,
            0 <= r < count,
            count <= height,
            q >= 0,
    ;
    assert(i * q < (i + 1) * q <= count * q) by (nonlinear_arith)
        requires
            q >= 1,
            i + 1 <= count,
    ;
}

/// Divides `height` rows into `count` bands of `height / count` rows each, the
/// last band also taking the remaining rows. With `count == height` every band
/// is a single row.
pub fn partition_bands(height: usize, count: usize) -> (r: Vec<Band>)
    requires
        0 < count <= height,
    ensures
        r@.len() == count,
        forall|i: int| 0 <= i < count ==> #[trigger] r@[i] == band_at(height as nat, count as nat, i as nat),
        is_partition(r@, height as nat),
{
    let rows: usize = height / count;
    let mut bands: Vec<Band> = Vec::new();
    let mut i: usize = 0;
    while i < count
        invariant
            0 < count <= height,
            rows == rows_per_band(height as nat, count as nat),
            i <= count,
            bands@.len() == i,
            forall|j: int| 0 <= j < i ==> #[trigger] bands@[j] == band_at(height as nat, count as nat, j as nat),
        decreases count - i,
    {
        proof {
            lemma_band_at_bounds(height as nat, count as nat, i as nat);
            if i + 1 < count {
                lemma_band_at_bounds(height as nat, count as nat, (i + 1) as nat);
            }
        }
        let top: usize = i * rows;
        let bottom: usize = if i + 1 == count { height } else { (i + 1) * rows };
        bands.push(Band { top, bottom });
        i = i + 1;
    }
    proof {
        assert forall|j: int| 0 <= j < bands@.len() implies #[trigger] bands@[j].top < bands@[j].bottom <= height by {
            lemma_band_at_bounds(height as nat, count as nat, j as nat);
        }
        assert forall|j: int| 0 <= j < bands@.len() - 1 implies #[trigger] bands@[j].bottom == bands@[j + 1].top by {
            assert(bands@[j + 1] == band_at(height as nat, count as nat, (j + 1) as nat));
        }
        assert(bands@[0] == band_at(height as nat, count as nat, 0));
        assert(bands@[count - 1] == band_at(height as nat, count as nat, (count - 1) as nat));
    }
    bands
}

proof fn lemma_bands_ordered(bands: Seq<Band>, height: nat, i: int, j: int)
    requires
        is_partition(bands, height),
        0 <= i < j < bands.len(),
    ensures
        bands[i].bottom <= bands[j].top,
    decreases j - i,
{
    if j > i + 1 {
        lemma_bands_ordered(bands, height, i, j - 1);
        assert(bands[j - 1].top < bands[j - 1].bottom);
        assert(bands[j - 1].bottom == bands[j].top);
    } else {
        assert(bands[i].bottom == bands[i + 1].top);
    }
}

proof fn lemma_row_in_some_band(bands: Seq<Band>, height: nat, row: int, k: int)
    requires
        is_partition(bands, height),
        0 <= k < bands.len(),
        bands[k].top <= row < height,
    ensures
        exists|i: int| k <= i < bands.len() && #[trigger] bands[i].holds(row),
    decreases bands.len() - k,
{
    if row < bands[k].bottom {
        assert(bands[k].holds(row));
    } else {
        assert(k + 1 < bands.len());
        assert(bands[k].bottom == bands[k + 1].top);
        lemma_row_in_some_band(bands, height, row, k + 1);
    }
}

/// The bands of a partition cover every row of the image, and no row lies in
/// two bands: each row is drawn by exactly one band.
pub proof fn lemma_rows_covered_once(bands: Seq<Band>, height: nat, row: int)
    requires
        is_partition(bands, height),
        0 <= row < height,
    ensures
        exists|i: int| 0 <= i < bands.len() && #[trigger] bands[i].holds(row),
        forall|i: int, j: int|
            0 <= i < bands.len() && 0 <= j < bands.len() && #[trigger] bands[i].holds(row)
                && #[trigger] bands[j].holds(row) ==> i == j,
{
    lemma_row_in_some_band(bands, height, row, 0);
    assert forall|i: int, j: int|
        0 <= i < bands.len() && 0 <= j < bands.len() && #[trigger] bands[i].holds(row)
            && #[trigger] bands[j].holds(row) implies i == j by {
        if i < j {
            lemma_bands_ordered(bands, height, i, j);
        } else if j < i {
            lemma_bands_ordered(bands, height, j, i);
        }
    }
}

} // verus!
