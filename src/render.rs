use crate::color::{decimal, decimal_string};
use rayon::iter::{IndexedParallelIterator, IntoParallelIterator, ParallelIterator};
use vstd::prelude::*;
use vstd::string::StringExecFns;

verus! {

/// The side of the stratification grid of a pixel: the largest `s` with
/// `s * s <= samples_per_pixel`, and 0 when no samples are asked for.
pub fn sqrt_samples(samples_per_pixel: i32) -> (r: i32)
    ensures
        samples_per_pixel <= 0 ==> r == 0,
        samples_per_pixel > 0 ==> 0 < r && r * r <= samples_per_pixel < (r + 1) * (r + 1),
{
    if samples_per_pixel <= 0 {
        return 0;
    }
    let n = samples_per_pixel as i64;
    let mut r: i64 = 1;
    while (r + 1) * (r + 1) <= n
        invariant
            1 <= r <= 46340,
            r * r <= n,
            n <= i32::MAX,
            (r + 1) * (r + 1) <= 2147488281,
        decreases n - r,
    {
        assert(r < n && r + 1 <= 46340 && (r + 2) * (r + 2) <= 2147488281) by (nonlinear_arith)
            requires
                (r + 1) * (r + 1) <= n,
                1 <= r,
                n <= 2147483647,
        ;
        r += 1;
    }
    r as i32
}

/// The header of the plain-text raster: the format tag, the dimensions and
/// the largest channel value, one per line.
pub open spec fn header_text(width: u32, height: u32) -> Seq<char> {
    seq!['P', '3', '\n'] + decimal(width as nat) + seq![' '] + decimal(height as nat) + seq![
        '\n',
        '2',
        '5',
        '5',
        '\n',
    ]
}

/// The rows, in order, one after the other.
pub open spec fn rows_text(rows: Seq<String>) -> Seq<char>
    decreases rows.len(),
{
    if rows.len() == 0 {
        Seq::empty()
    } else {
        rows_text(rows.drop_last()) + rows.last()@
    }
}

/// The header of a `width` by `height` raster.
pub fn ppm_header(width: u32, height: u32) -> (r: String)
    ensures
        r@ == header_text(width, height),
{
    let tag = "P3\n";
    let space = " ";
    let tail = "\n255\n";
    proof {
        reveal_strlit("P3\n");
        reveal_strlit(" ");
        reveal_strlit("\n255\n");
    }
    let mut out = String::from_str(tag);
    let w = decimal_string(width);
    let h = decimal_string(height);
    out.append(w.as_str());
    out.append(space);
    out.append(h.as_str());
    out.append(tail);
    assert(out@ =~= header_text(width, height));
    out
}

/// The whole raster: the header, then the rendered rows strictly in row
/// order, whatever order they were computed in.
pub fn assemble_image(width: u32, height: u32, rows: &Vec<String>) -> (r: String)
    ensures
        r@ == header_text(width, height) + rows_text(rows@),
{
    let mut out = ppm_header(width, height);
    let mut j: usize = 0;
    while j < rows.len()
        invariant
            j <= rows.len(),
            out@ == header_text(width, height) + rows_text(rows@.subrange(0, j as int)),
        decreases rows.len() - j,
    {
        out.append(rows[j].as_str());
        assert(rows@.subrange(0, j + 1).drop_last() =~= rows@.subrange(0, j as int));
        assert(out@ =~= header_text(width, height) + rows_text(rows@.subrange(0, j + 1)));
        j += 1;
    }
    assert(rows@.subrange(0, rows.len() as int) =~= rows@);
    out
}

/// Computes every row, possibly in parallel, and collects them in row
/// order.
///
/// Relies on rayon's `IndexedParallelIterator::collect_into_vec`: over
/// `(0..height).into_par_iter().map(..)`, which stays indexed, it calls
/// `row` once for each index and leaves the results in index order.
#[verifier::external_body]
fn par_rows<F: Fn(u32) -> String + Sync + Send>(height: u32, row: &F) -> (r: Vec<String>)
    requires
        forall|j: u32| j < height ==> row.requires((j,)),
    ensures
        r.len() == height,
        forall|j: int| 0 <= j < height ==> row.ensures((j as u32,), #[trigger] r[j]),
{
    let mut rows = Vec::new();
    (0..height).into_par_iter().map(|j| row(j)).collect_into_vec(&mut rows);
    rows
}

/// Renders a `width` by `height` raster: each row is computed by `row`,
/// rows may run in parallel, and the output is the header followed by the
/// rows strictly in row order.
pub fn render_image<F: Fn(u32) -> String + Sync + Send>(width: u32, height: u32, row: &F) -> (r: String)
    requires
        forall|j: u32| j < height ==> row.requires((j,)),
    ensures
        exists|rows: Seq<String>|
            {
                &&& rows.len() == height
                &&& forall|j: int| 0 <= j < height ==> row.ensures((j as u32,), #[trigger] rows[j])
                &&& r@ == header_text(width, height) + rows_text(rows)
            },
{
    let rows = par_rows(height, row);
    let r = assemble_image(width, height, &rows);
    assert(rows@.len() == height && forall|j: int| 0 <= j < height ==> row.ensures((j as u32,), #[trigger] rows@[j]));
    r
}

} // verus!
