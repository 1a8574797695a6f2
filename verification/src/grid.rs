//! The triangles of a flat grid of vertices.
//!
//! The vertices of a grid are numbered row by row. Each cell between four
//! neighbouring vertices is two triangles, given as six vertex numbers.

use vstd::prelude::*;

verus! {

/// A grid of vertices.
#[derive(Clone, Copy, Debug, PartialEq, Eq, Structural)]
pub struct GridMesh {
    pub n_vertices_width: usize,
    pub n_vertices_height: usize,
}

impl Default for GridMesh {
    fn default() -> (g: GridMesh)
        ensures
            g.n_vertices_width == 2,
            g.n_vertices_height == 2,
    {
        GridMesh { n_vertices_width: 2, n_vertices_height: 2 }
    }
}

/// The two triangles of the cell in column `x` of row `y`: the vertex of
/// the cell, its right neighbour and the one below it; then the right
/// neighbour, the one below that, and the one below the vertex.
pub open spec fn cell(width: int, x: int, y: int) -> Seq<u32> {
    let v = x + y * width;
    seq![
        v as u32,
        (v + 1) as u32,
        (v + width) as u32,
        (v + 1) as u32,
        (v + width + 1) as u32,
        (v + width) as u32,
    ]
}

/// The first `cells` cells of row `y`, left to right.
pub open spec fn row(width: int, y: int, cells: nat) -> Seq<u32>
    decreases cells,
{
    if cells == 0 {
        Seq::empty()
    } else {
        row(width, y, (cells - 1) as nat) + cell(width, cells - 1, y)
    }
}

/// The first `n` rows of cells, top to bottom.
pub open spec fn rows(width: int, n: nat) -> Seq<u32>
    decreases n,
{
    if n == 0 {
        Seq::empty()
    } else {
        rows(width, (n - 1) as nat) + row(width, n - 1, (width - 1) as nat)
    }
}

/// The vertex numbers of the triangles of a grid, or `None` where the grid
/// has more vertices than 32 bits can number. A grid with fewer than two
/// vertices in a direction has no triangle.
pub open spec fn spec_indices(width: nat, height: nat) -> Option<Seq<u32>> {
    if width < 2 || height < 2 {
        Some(Seq::empty())
    } else if width * height > 0x1_0000_0000 {
        None
    } else {
        Some(rows(width as int, (height - 1) as nat))
    }
}

pub proof fn lemma_row_len(width: int, y: int, cells: nat)
    ensures
        row(width, y, cells).len() == 6 * cells,
    decreases cells,
{
    if cells > 0 {
        lemma_row_len(width, y, (cells - 1) as nat);
    }
}

/// A grid has six vertex numbers for each of its cells.
pub proof fn lemma_rows_len(width: int, n: nat)
    requires
        width >= 1,
    ensures
        rows(width, n).len() == 6 * ((width - 1) * n),
    decreases n,
{
    if n > 0 {
        lemma_rows_len(width, (n - 1) as nat);
        lemma_row_len(width, n - 1, (width - 1) as nat);
        let m = (n - 1) as nat;
        assert((width - 1) * n == (width - 1) * m + (width - 1)) by (nonlinear_arith)
            requires
                n == m + 1,
        ;
    } else {
        assert((width - 1) * 0 == 0) by (nonlinear_arith);
    }
}

proof fn lemma_cell_fits(width: int, height: int, x: int, y: int)
    requires
        2 <= width,
        2 <= height,
        width * height <= 0x1_0000_0000,
        0 <= x < width - 1,
        0 <= y < height - 1,
    ensures
        0 <= y * width,
        y * width + width <= width * height - width,
        x + y * width + width + 1 <= 0xffff_ffff,
{
    assert(0 <= y * width) by (nonlinear_arith)
        requires
            0 <= y,
            0 <= width,
    ;
    assert((y + 1) * width <= (height - 1) * width) by (nonlinear_arith)
        requires
            y + 1 <= height - 1,
            0 <= width,
    ;
    assert((y + 1) * width == y * width + width) by (nonlinear_arith);
    assert((height - 1) * width == width * height - width) by (nonlinear_arith);
}

impl GridMesh {
    /// The vertex numbers of the triangles of the grid.
    pub fn indices(&self) -> (r: Option<Vec<u32>>)
        ensures
            match r {
                Some(v) => spec_indices(
                    self.n_vertices_width as nat,
                    self.n_vertices_height as nat,
                ) == Some(v@),
                None => spec_indices(self.n_vertices_width as nat, self.n_vertices_height as nat)
                    is None,
            },
    {
        let w = self.n_vertices_width;
        let h = self.n_vertices_height;
        if w < 2 || h < 2 {
            return Some(Vec::new());
        }
        if w > 0x8000_0000 || h > 0x8000_0000 {
            assert(w * h > 0x1_0000_0000) by (nonlinear_arith)
                requires
                    w >= 2,
                    h >= 2,
                    w > 0x8000_0000 || h > 0x8000_0000,
            ;
            return None;
        }
        assert(w * h <= 0x8000_0000 * 0x8000_0000) by (nonlinear_arith)
            requires
                0 <= w <= 0x8000_0000,
                0 <= h <= 0x8000_0000,
        ;
        let width: u64 = w as u64;
        let height: u64 = h as u64;
        if width * height > 0x1_0000_0000 {
            return None;
        }
        let mut out: Vec<u32> = Vec::new();
        let mut y: u64 = 0;
        let mut start: u64 = 0;
        while y < height - 1
            invariant
                2 <= width,
                2 <= height,
                width * height <= 0x1_0000_0000,
                y <= height - 1,
                start == y * width,
                out@ == rows(width as int, y as nat),
            decreases height - 1 - y,
        {
            let ghost above = out@;
            let mut x: u64 = 0;
            assert(out@ =~= above + row(width as int, y as int, 0));
            while x < width - 1
                invariant
                    2 <= width,
                    2 <= height,
                    width * height <= 0x1_0000_0000,
                    y < height - 1,
                    x <= width - 1,
                    start == y * width,
                    out@ == above + row(width as int, y as int, x as nat),
                decreases width - 1 - x,
            {
                proof {
                    lemma_cell_fits(width as int, height as int, x as int, y as int);
                }
                let v: u64 = x + start;
                let ghost before = out@;
                out.push(v as u32);
                out.push((v + 1) as u32);
                out.push((v + width) as u32);
                out.push((v + 1) as u32);
                out.push((v + width + 1) as u32);
                out.push((v + width) as u32);
                assert(out@ =~= before + cell(width as int, x as int, y as int));
                x += 1;
                assert(out@ =~= above + row(width as int, y as int, x as nat));
            }
            proof {
                lemma_cell_fits(width as int, height as int, 0, y as int);
            }
            start += width;
            y += 1;
            assert(start == y * width) by (nonlinear_arith)
                requires
                    start == (y - 1) * width + width,
            ;
        }
        Some(out)
    }
}

} // verus!
