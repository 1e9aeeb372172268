//! The world grid: a rectangular array of cell symbols. A space is open
//! floor; any other symbol is a wall variant that picks a texture. The
//! ray intersector relies on the grid being enclosed: every border cell
//! is a wall, so no ray can march out of bounds.

use vstd::prelude::*;

verus! {

pub struct Maze {
    pub cells: Vec<Vec<char>>,
}

impl Maze {
    /// The grid is non-empty and rectangular.
    pub open spec fn wf(self) -> bool {
        &&& self.cells.len() >= 1
        &&& self.cells[0].len() >= 1
        &&& forall|j: int| 0 <= j < self.cells.len()
                ==> #[trigger] self.cells[j].len() == self.cells[0].len()
    }

    pub open spec fn spec_height(self) -> int {
        self.cells.len() as int
    }

    pub open spec fn spec_width(self) -> int {
        self.cells[0].len() as int
    }

    /// The symbol of the cell in column `i`, row `j`.
    pub open spec fn cell_at(self, i: int, j: int) -> char {
        self.cells[j][i]
    }

    /// Whether the cell in column `i`, row `j` is open floor.
    pub open spec fn open_at(self, i: int, j: int) -> bool {
        self.cell_at(i, j) == ' '
    }

    /// Every border cell is a wall.
    pub open spec fn enclosed(self) -> bool {
        forall|i: int, j: int|
            0 <= i < self.spec_width() && 0 <= j < self.spec_height()
                && (i == 0 || i == self.spec_width() - 1
                    || j == 0 || j == self.spec_height() - 1)
                ==> !self.open_at(i, j)
    }

    /// Wraps a symbol grid, accepting it iff it is non-empty,
    /// rectangular, and walled in on all four sides.
    pub fn new(cells: Vec<Vec<char>>) -> (r: Option<Maze>)
        ensures
            r is Some <==> (Maze { cells }).wf() && (Maze { cells }).enclosed(),
            r matches Some(m) ==> m == (Maze { cells }) && m.wf() && m.enclosed(),
    {
        let m = Maze { cells };
        if m.check_rectangular() && m.check_enclosed() {
            Some(m)
        } else {
            None
        }
    }

    fn check_rectangular(&self) -> (ok: bool)
        ensures
            ok <==> self.wf(),
    {
        if self.cells.len() == 0 {
            return false;
        }
        let w = self.cells[0].len();
        if w == 0 {
            return false;
        }
        let mut j: usize = 0;
        while j < self.cells.len()
            invariant
                j <= self.cells.len(),
                w == self.cells[0].len(),
                forall|k: int| 0 <= k < j ==> #[trigger] self.cells[k].len() == w,
            decreases self.cells.len() - j,
        {
            if self.cells[j].len() != w {
                return false;
            }
            j = j + 1;
        }
        true
    }

    fn check_enclosed(&self) -> (ok: bool)
        requires
            self.wf(),
        ensures
            ok <==> self.enclosed(),
    {
        let h = self.cells.len();
        let w = self.cells[0].len();
        let mut j: usize = 0;
        while j < h
            invariant
                self.wf(),
                j <= h,
                h == self.spec_height(),
                w == self.spec_width(),
                forall|i2: int, j2: int|
                    0 <= i2 < w && 0 <= j2 < j
                        && (i2 == 0 || i2 == w - 1 || j2 == 0 || j2 == h - 1)
                        ==> !self.open_at(i2, j2),
            decreases h - j,
        {
            let mut i: usize = 0;
            while i < w
                invariant
                    self.wf(),
                    j < h,
                    i <= w,
                    h == self.spec_height(),
                    w == self.spec_width(),
                    forall|i2: int, j2: int|
                        0 <= i2 < w && 0 <= j2 < j
                            && (i2 == 0 || i2 == w - 1 || j2 == 0 || j2 == h - 1)
                            ==> !self.open_at(i2, j2),
                    forall|i2: int|
                        0 <= i2 < i && (i2 == 0 || i2 == w - 1 || j == 0 || j == h - 1)
                            ==> !self.open_at(i2, j as int),
                decreases w - i,
            {
                proof {
                    assert(self.cells[j as int].len() == w);
                }
                let border = i == 0 || i == w - 1 || j == 0 || j == h - 1;
                if border && self.cells[j][i] == ' ' {
                    proof {
                        assert(self.open_at(i as int, j as int));
                    }
                    return false;
                }
                i = i + 1;
            }
            j = j + 1;
        }
        true
    }

    pub fn height(&self) -> (h: usize)
        requires
            self.wf(),
        ensures
            h == self.spec_height(),
    {
        self.cells.len()
    }

    pub fn width(&self) -> (w: usize)
        requires
            self.wf(),
        ensures
            w == self.spec_width(),
    {
        self.cells[0].len()
    }

    /// Reads the symbol of an in-range cell.
    pub fn cell(&self, i: usize, j: usize) -> (c: char)
        requires
            self.wf(),
            i < self.spec_width(),
            j < self.spec_height(),
        ensures
            c == self.cell_at(i as int, j as int),
    {
        proof {
            assert(self.cells[j as int].len() == self.spec_width());
        }
        self.cells[j][i]
    }

    /// An open cell of an enclosed grid is strictly interior.
    pub proof fn lemma_open_is_interior(self, i: int, j: int)
        requires
            self.wf(),
            self.enclosed(),
            0 <= i < self.spec_width(),
            0 <= j < self.spec_height(),
            self.open_at(i, j),
        ensures
            1 <= i < self.spec_width() - 1,
            1 <= j < self.spec_height() - 1,
    {
    }
}

} // verus!
