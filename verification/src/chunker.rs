//! The division of a picture into tiles of work.

use vstd::prelude::*;

verus! {

/// A rectangle of pixels: its least corner and its size.
#[derive(Clone, Copy, Debug, PartialEq, Eq, Structural)]
pub struct WorkChunk {
    pub x: usize,
    pub y: usize,
    pub w: usize,
    pub h: usize,
}

impl WorkChunk {
    /// Whether the pixel `(px, py)` lies in the rectangle.
    pub open spec fn covers(&self, px: int, py: int) -> bool {
        self.x <= px < self.x + self.w && self.y <= py < self.y + self.h
    }

    /// Whether the rectangle lies within a picture of the given size.
    pub open spec fn within(&self, width: int, height: int) -> bool {
        self.x + self.w <= width && self.y + self.h <= height
    }

    pub fn new(x: usize, y: usize, w: usize, h: usize) -> (r: WorkChunk)
        ensures
            r == (WorkChunk { x, y, w, h }),
    {
        WorkChunk { x, y, w, h }
    }

    /// Where the three colours of the pixel `(x, y)` of the rectangle start
    /// in the rectangle's own buffer, which holds its pixels row by row.
    pub fn local_offset(&self, x: usize, y: usize) -> (r: usize)
        requires
            x < self.w,
            y < self.h,
            self.w * self.h * 3 <= usize::MAX,
        ensures
            r == (y * self.w + x) * 3,
            r + 3 <= self.w * self.h * 3,
    {
        assert(y * self.w + x + 1 <= self.w * self.h) by (nonlinear_arith)
            requires
                x < self.w,
                y < self.h,
        ;
        assert(0 <= y * self.w) by (nonlinear_arith);
        assert((y * self.w + x) * 3 + 3 <= self.w * self.h * 3) by (nonlinear_arith)
            requires
                y * self.w + x + 1 <= self.w * self.h,
        ;
        (y * self.w + x) * 3
    }

    /// Where the three colours of the pixel `(x, y)` of the rectangle start
    /// in the buffer of the whole picture, which holds the rows from the top
    /// of the picture down while the rectangle counts them from the bottom
    /// up.
    pub fn picture_offset(&self, width: usize, height: usize, x: usize, y: usize) -> (r: usize)
        requires
            x < self.w,
            y < self.h,
            self.within(width as int, height as int),
            width * height * 3 <= usize::MAX,
        ensures
            r == ((height - 1 - (y + self.y)) * width + self.x + x) * 3,
            r + 3 <= width * height * 3,
    {
        let row: usize = height - 1 - (y + self.y);
        assert(row * width + self.x + x + 1 <= width * height) by (nonlinear_arith)
            requires
                row < height,
                self.x + x < width,
        ;
        assert(0 <= row * width) by (nonlinear_arith);
        assert((row * width + self.x + x) * 3 + 3 <= width * height * 3) by (nonlinear_arith)
            requires
                row * width + self.x + x + 1 <= width * height,
        ;
        (row * width + self.x + x) * 3
    }
}

/// How far the handing out of tiles has come: the size of the picture and
/// of the tiles, and the column and row of the next tile.
#[derive(Clone, Copy, Debug, PartialEq, Eq, Structural)]
pub struct Tiling {
    pub width: usize,
    pub height: usize,
    pub chunk_size: usize,
    pub chunk_x: usize,
    pub chunk_y: usize,
}

/// The smaller of two numbers.
pub open spec fn least(a: int, b: int) -> int {
    if a <= b {
        a
    } else {
        b
    }
}

/// The tile in column `cx` of row `cy`.
pub open spec fn tile(width: int, height: int, size: int, cx: int, cy: int) -> WorkChunk {
    WorkChunk {
        x: (cx * size) as usize,
        y: (cy * size) as usize,
        w: least(width - cx * size, size) as usize,
        h: least(height - cy * size, size) as usize,
    }
}

impl Tiling {
    /// The tiles have a size, the picture and one more tile fit into the
    /// machine's numbers, and the next tile starts inside the picture or at
    /// its edge.
    pub open spec fn wf(&self) -> bool {
        &&& self.chunk_size > 0
        &&& self.width + self.chunk_size <= usize::MAX
        &&& self.height + self.chunk_size <= usize::MAX
        &&& self.chunk_x * self.chunk_size <= self.width
        &&& self.chunk_y * self.chunk_size < self.height + self.chunk_size
    }

    /// Whether all tiles have been handed out.
    pub open spec fn done(&self) -> bool {
        self.chunk_y * self.chunk_size >= self.height
    }

    /// The next tile.
    pub open spec fn current(&self) -> WorkChunk {
        tile(
            self.width as int,
            self.height as int,
            self.chunk_size as int,
            self.chunk_x as int,
            self.chunk_y as int,
        )
    }

    /// The state after the next tile has been handed out: one column on, or
    /// at the start of the next row where the next column would start beyond
    /// the edge of the picture.
    pub open spec fn advanced(&self) -> Tiling {
        if (self.chunk_x + 1) * self.chunk_size > self.width {
            Tiling { chunk_x: 0, chunk_y: (self.chunk_y + 1) as usize, ..*self }
        } else {
            Tiling { chunk_x: (self.chunk_x + 1) as usize, ..*self }
        }
    }
}

/// Hands out the tiles of a picture row by row, each tile a square of
/// `chunk_size` pixels cut off at the right and upper edge of the picture.
pub struct Chunker {
    state: Tiling,
}

impl View for Chunker {
    type V = Tiling;

    closed spec fn view(&self) -> Tiling {
        self.state
    }
}

impl Chunker {
    #[verifier::type_invariant]
    closed spec fn inv(&self) -> bool {
        self.state.wf()
    }

    pub fn new(width: usize, height: usize, chunk_size: usize) -> (r: Chunker)
        requires
            chunk_size > 0,
            width + chunk_size <= usize::MAX,
            height + chunk_size <= usize::MAX,
        ensures
            r@ == (Tiling { width, height, chunk_size, chunk_x: 0, chunk_y: 0 }),
            r@.wf(),
    {
        assert(0 * chunk_size == 0) by (nonlinear_arith);
        Chunker { state: Tiling { width, height, chunk_size, chunk_x: 0, chunk_y: 0 } }
    }

    /// How far the handing out has come.
    pub fn state(&self) -> (r: Tiling)
        ensures
            r == self@,
            r.wf(),
    {
        proof {
            use_type_invariant(self);
        }
        self.state
    }

    /// The next tile, or `None` when the rows are used up.
    pub fn next(&mut self) -> (r: Option<WorkChunk>)
        ensures
            old(self)@.wf(),
            final(self)@.wf(),
            old(self)@.done() ==> r is None && final(self)@ == old(self)@,
            !old(self)@.done() ==> r == Some(old(self)@.current()) && final(self)@ == old(
                self,
            )@.advanced() && old(self)@.current().within(
                old(self)@.width as int,
                old(self)@.height as int,
            ),
    {
        proof {
            use_type_invariant(&*self);
        }
        let now: Tiling = self.state;
        let size: usize = now.chunk_size;
        let cx: usize = now.chunk_x;
        let cy: usize = now.chunk_y;
        assert((cx + 1) * size == cx * size + size) by (nonlinear_arith);
        assert((cy + 1) * size == cy * size + size) by (nonlinear_arith);
        assert(0 * size == 0) by (nonlinear_arith);
        assert(cx + 1 <= (cx + 1) * size && cy + 1 <= (cy + 1) * size) by (nonlinear_arith)
            requires
                size > 0,
                cx >= 0,
                cy >= 0,
        ;
        if cy * size < now.height {
            let x: usize = cx * size;
            let y: usize = cy * size;
            let x_size: usize = if now.width - x < size { now.width - x } else { size };
            let y_size: usize = if now.height - y < size { now.height - y } else { size };
            let ret: WorkChunk = WorkChunk::new(x, y, x_size, y_size);
            let mut chunk_x: usize = cx + 1;
            let mut chunk_y: usize = cy;
            if chunk_x * size > now.width {
                chunk_y = cy + 1;
                chunk_x = 0;
            }
            self.state = Tiling { chunk_x, chunk_y, ..now };
            Some(ret)
        } else {
            None
        }
    }
}

/// Every tile lies within the picture.
pub proof fn lemma_tile_within(width: int, height: int, size: int, cx: int, cy: int)
    requires
        size > 0,
        0 <= cx,
        0 <= cy,
        cx * size <= width <= usize::MAX,
        cy * size < height <= usize::MAX,
    ensures
        tile(width, height, size, cx, cy).within(width, height),
{
    assert(0 <= cx * size && 0 <= cy * size) by (nonlinear_arith)
        requires
            size > 0,
            cx >= 0,
            cy >= 0,
    ;
}

/// Every pixel of the picture lies in one tile and no other: the tile in
/// the column and row that hold its coordinates.
pub proof fn lemma_tiles_partition(width: int, height: int, size: int, cx: int, cy: int, px: int, py: int)
    requires
        size > 0,
        0 <= cx,
        0 <= cy,
        cx * size <= width <= usize::MAX,
        cy * size < height <= usize::MAX,
        0 <= px < width,
        0 <= py < height,
    ensures
        tile(width, height, size, cx, cy).covers(px, py) <==> cx == px / size && cy == py / size,
{
    vstd::arithmetic::div_mod::lemma_fundamental_div_mod(px, size);
    vstd::arithmetic::div_mod::lemma_fundamental_div_mod(py, size);
    vstd::arithmetic::div_mod::lemma_mod_bound(px, size);
    vstd::arithmetic::div_mod::lemma_mod_bound(py, size);
    let qx = px / size;
    let qy = py / size;
    assert(cx * size <= px < cx * size + size ==> cx == qx) by (nonlinear_arith)
        requires
            size > 0,
            px == size * qx + px % size,
            0 <= px % size < size,
    ;
    assert(cy * size <= py < cy * size + size ==> cy == qy) by (nonlinear_arith)
        requires
            size > 0,
            py == size * qy + py % size,
            0 <= py % size < size,
    ;
    assert(cx == qx ==> cx * size <= px < cx * size + size) by (nonlinear_arith)
        requires
            size > 0,
            px == size * qx + px % size,
            0 <= px % size < size,
    ;
    assert(cy == qy ==> cy * size <= py < cy * size + size) by (nonlinear_arith)
        requires
            size > 0,
            py == size * qy + py % size,
            0 <= py % size < size,
    ;
    assert(0 <= cx * size && 0 <= cy * size) by (nonlinear_arith)
        requires
            size > 0,
            cx >= 0,
            cy >= 0,
    ;
}

} // verus!
