use vstd::prelude::*;
use crate::scalar::{scalar_eq, scalar_le, spec_scalar_eq, spec_scalar_le, lemma_scalar_le_trans,
    lemma_scalar_order_total};
use vstd::arithmetic::div_mod::lemma_fundamental_div_mod;

verus! {

/// How a two-dimensional pooling layer combines the cells of a block.
#[derive(Clone, Copy, Debug, PartialEq, Eq, Structural)]
pub enum PoolType {
    MAX,
    AVERAGE,
}

/// The pool type denoted by a textual name, if any.
pub open spec fn spec_pool_type_from(s: Seq<char>) -> Option<PoolType> {
    if s == "max"@ {
        Some(PoolType::MAX)
    } else if s == "avg"@ || s == "average"@ {
        Some(PoolType::AVERAGE)
    } else {
        None
    }
}

impl PoolType {
    /// Parses a pool-type name: `"max"`, or `"avg"` / `"average"`; any other
    /// name is rejected.
    pub fn from_str(string: &str) -> (result: Option<PoolType>)
        ensures
            result == spec_pool_type_from(string@),
    {
        let owned = string.to_owned();
        if owned == "max".to_owned() {
            Some(PoolType::MAX)
        } else if owned == "avg".to_owned() || owned == "average".to_owned() {
            Some(PoolType::AVERAGE)
        } else {
            None
        }
    }
}

/// Two-dimensional pooling layer.
///
/// The input is a column-major flattening of an `input_width` by
/// `input_height` grid: the cell in column `x` and row `y` sits at index
/// `x * input_height + y`.  The grid is tiled into non-overlapping
/// `kernel_width` by `kernel_height` blocks, and the layer emits one value
/// per block, again column-major over the block grid.  The layer is not
/// trainable and applies no nonlinearity.
#[derive(Clone, Copy, Debug, PartialEq, Eq, Structural)]
pub struct Pool2D {
    pub pool_type: PoolType,
    pub input_width: usize,
    pub input_height: usize,
    pub kernel_width: usize,
    pub kernel_height: usize,
}

impl Pool2D {
    /// Number of block columns.
    pub open spec fn spec_blocks_x(self) -> int {
        self.input_width as int / self.kernel_width as int
    }

    /// Number of block rows.
    pub open spec fn spec_blocks_y(self) -> int {
        self.input_height as int / self.kernel_height as int
    }

    /// Number of cells the layer takes as input.
    pub open spec fn spec_input_size(self) -> int {
        self.input_width * self.input_height
    }

    /// Number of values the layer emits.
    pub open spec fn spec_size(self) -> int {
        self.spec_blocks_x() * self.spec_blocks_y()
    }

    /// Shape invariant: the kernel tiles the input exactly, and the number
    /// of blocks is representable.
    pub open spec fn wf(self) -> bool {
        &&& self.kernel_width > 0
        &&& self.kernel_height > 0
        &&& self.input_width as int % self.kernel_width as int == 0
        &&& self.input_height as int % self.kernel_height as int == 0
        &&& self.spec_size() <= usize::MAX
    }

    /// Index of the cell in input column `x`, row `y` (column-major).
    pub open spec fn spec_cell_index(self, x: int, y: int) -> int {
        x * self.input_height + y
    }

    /// Output index of the block in block column `bx`, block row `by`
    /// (column-major over the block grid).
    pub open spec fn spec_output_index(self, bx: int, by: int) -> int {
        bx * self.spec_blocks_y() + by
    }

    /// The output index of the block that covers input column `x`, row `y`.
    pub open spec fn spec_block_of(self, x: int, y: int) -> int {
        self.spec_output_index(x / self.kernel_width as int, y / self.kernel_height as int)
    }

    /// The input value in block (`bx`, `by`) at kernel offset (`dx`, `dy`).
    pub open spec fn spec_block_value(self, input: Seq<u64>, bx: int, by: int, dx: int, dy: int) -> u64 {
        input[self.spec_cell_index(bx * self.kernel_width + dx, by * self.kernel_height + dy)]
    }

    /// `value` is the largest value of block (`bx`, `by`): it occurs in the
    /// block and no block cell exceeds it.
    pub open spec fn spec_is_block_max(self, input: Seq<u64>, bx: int, by: int, value: u64) -> bool {
        &&& exists|dx: int, dy: int|
            0 <= dx < self.kernel_width && 0 <= dy < self.kernel_height
                && value == self.spec_block_value(input, bx, by, dx, dy)
        &&& forall|dx: int, dy: int|
            0 <= dx < self.kernel_width && 0 <= dy < self.kernel_height
                ==> spec_scalar_le(#[trigger] self.spec_block_value(input, bx, by, dx, dy), value)
    }

    /// Builds a pooling layer.  The kernel dimensions must divide the input
    /// dimensions exactly; a mismatch is a construction-time fault, so it is
    /// ruled out here.
    pub fn new(
        pool_type: PoolType,
        input_width: usize,
        input_height: usize,
        kernel_width: usize,
        kernel_height: usize,
    ) -> (result: Pool2D)
        requires
            kernel_width > 0,
            kernel_height > 0,
            input_width as int % kernel_width as int == 0,
            input_height as int % kernel_height as int == 0,
            (input_width as int / kernel_width as int) * (input_height as int
                / kernel_height as int) <= usize::MAX,
        ensures
            result == (Pool2D { pool_type, input_width, input_height, kernel_width, kernel_height }),
            result.wf(),
    {
        Pool2D { pool_type, input_width, input_height, kernel_width, kernel_height }
    }

    /// Builds a pooling layer with a square input and a square kernel.
    pub fn new_square(pool_type: PoolType, input_size: usize, kernel_size: usize) -> (result: Pool2D)
        requires
            kernel_size > 0,
            input_size as int % kernel_size as int == 0,
            (input_size as int / kernel_size as int) * (input_size as int / kernel_size as int)
                <= usize::MAX,
        ensures
            result == (Pool2D {
                pool_type,
                input_width: input_size,
                input_height: input_size,
                kernel_width: kernel_size,
                kernel_height: kernel_size,
            }),
            result.wf(),
    {
        Pool2D::new(pool_type, input_size, input_size, kernel_size, kernel_size)
    }

    /// A pooling layer carries no trainable parameters.
    pub fn trainable(&self) -> (result: bool)
        ensures
            result == false,
    {
        false
    }

    /// Number of values the layer emits: one per block.
    pub fn size(&self) -> (result: usize)
        requires
            self.wf(),
        ensures
            result == self.spec_size(),
    {
        (self.input_width / self.kernel_width) * (self.input_height / self.kernel_height)
    }

    /// The output index of the block covering input column `x`, row `y`.
    pub fn block_of(&self, x: usize, y: usize) -> (result: usize)
        requires
            self.wf(),
            x < self.input_width,
            y < self.input_height,
        ensures
            result == self.spec_block_of(x as int, y as int),
            result < self.spec_size(),
    {
        proof {
            lemma_block_of_bound(*self, x as int, y as int);
        }
        (x / self.kernel_width) * (self.input_height / self.kernel_height) + y / self.kernel_height
    }
}

/// The block index of an in-range cell is an in-range output index.
proof fn lemma_block_of_bound(p: Pool2D, x: int, y: int)
    requires
        p.wf(),
        0 <= x < p.input_width,
        0 <= y < p.input_height,
    ensures
        0 <= p.spec_block_of(x, y) < p.spec_size(),
        (x / p.kernel_width as int) < p.spec_blocks_x(),
        (y / p.kernel_height as int) < p.spec_blocks_y(),
        0 <= x / p.kernel_width as int,
        0 <= y / p.kernel_height as int,
{
    let kw = p.kernel_width as int;
    let kh = p.kernel_height as int;
    let bx = p.spec_blocks_x();
    let by = p.spec_blocks_y();
    lemma_fundamental_div_mod(p.input_width as int, kw);
    lemma_fundamental_div_mod(p.input_height as int, kh);
    assert(x / kw < bx) by (nonlinear_arith)
        requires
            kw > 0,
            0 <= x,
            x < kw * bx,
    {
        lemma_fundamental_div_mod(x, kw);
    }
    assert(y / kh < by) by (nonlinear_arith)
        requires
            kh > 0,
            0 <= y,
            y < kh * by,
    {
        lemma_fundamental_div_mod(y, kh);
    }
    assert(0 <= x / kw && 0 <= y / kh) by (nonlinear_arith)
        requires
            kw > 0,
            kh > 0,
            0 <= x,
            0 <= y,
    ;
    assert((x / kw) * by + y / kh < bx * by) by (nonlinear_arith)
        requires
            0 <= x / kw,
            x / kw < bx,
            0 <= y / kh,
            y / kh < by,
    ;
}

/// An in-range block coordinate with an in-range kernel offset names an
/// in-range input cell.
proof fn lemma_cell_bounds(p: Pool2D, bx: int, by: int, dx: int, dy: int)
    requires
        p.wf(),
        0 <= bx < p.spec_blocks_x(),
        0 <= by < p.spec_blocks_y(),
        0 <= dx < p.kernel_width,
        0 <= dy < p.kernel_height,
    ensures
        0 <= bx * p.kernel_width + dx < p.input_width,
        0 <= by * p.kernel_height + dy < p.input_height,
        0 <= p.spec_cell_index(bx * p.kernel_width + dx, by * p.kernel_height + dy)
            < p.spec_input_size(),
{
    let kw = p.kernel_width as int;
    let kh = p.kernel_height as int;
    let w = p.input_width as int;
    let h = p.input_height as int;
    lemma_fundamental_div_mod(w, kw);
    lemma_fundamental_div_mod(h, kh);
    assert(0 <= bx * kw + dx < w) by (nonlinear_arith)
        requires
            kw > 0,
            0 <= bx,
            0 <= dx < kw,
            w == kw * (w / kw) + w % kw,
            w % kw == 0,
            bx < w / kw,
    ;
    assert(0 <= by * kh + dy < h) by (nonlinear_arith)
        requires
            kh > 0,
            0 <= by,
            0 <= dy < kh,
            h == kh * (h / kh) + h % kh,
            h % kh == 0,
            by < h / kh,
    ;
    assert(0 <= (bx * kw + dx) * h + (by * kh + dy) < w * h) by (nonlinear_arith)
        requires
            0 <= bx * kw + dx < w,
            0 <= by * kh + dy < h,
            h > by * kh + dy,
    ;
}

/// Output indices are column-major over the block grid: an in-range block
/// coordinate names an in-range output index.
proof fn lemma_output_index(p: Pool2D, bx: int, by: int)
    requires
        p.wf(),
        0 <= bx < p.spec_blocks_x(),
        0 <= by < p.spec_blocks_y(),
    ensures
        0 <= p.spec_output_index(bx, by) < p.spec_size(),
{
    let blocks_y = p.spec_blocks_y();
    let blocks_x = p.spec_blocks_x();
    assert(0 <= bx * blocks_y + by < blocks_x * blocks_y) by (nonlinear_arith)
        requires
            0 <= bx < blocks_x,
            0 <= by < blocks_y,
    ;
}

impl Pool2D {
    /// MAX pooling: emits, block by block in column-major block order, the
    /// largest encoded scalar of each block.
    pub fn max_pooled(&self, input: &Vec<u64>) -> (result: Vec<u64>)
        requires
            self.wf(),
            input.len() == self.spec_input_size(),
        ensures
            result.len() == self.spec_size(),
            forall|bx: int, by: int|
                0 <= bx < self.spec_blocks_x() && 0 <= by < self.spec_blocks_y()
                    ==> self.spec_is_block_max(
                    input@,
                    bx,
                    by,
                    result[#[trigger] self.spec_output_index(bx, by)],
                ),
    {
        let blocks_x = self.input_width / self.kernel_width;
        let blocks_y = self.input_height / self.kernel_height;
        let mut result: Vec<u64> = Vec::new();
        let mut bx: usize = 0;
        while bx < blocks_x
            invariant
                self.wf(),
                input.len() == self.spec_input_size(),
                blocks_x == self.spec_blocks_x(),
                blocks_y == self.spec_blocks_y(),
                bx <= blocks_x,
                result.len() == bx * blocks_y,
                forall|px: int, py: int|
                    0 <= px < bx && 0 <= py < blocks_y ==> self.spec_is_block_max(
                        input@,
                        px,
                        py,
                        result[#[trigger] self.spec_output_index(px, py)],
                    ),
            decreases blocks_x - bx,
        {
            let mut by: usize = 0;
            while by < blocks_y
                invariant
                    self.wf(),
                    input.len() == self.spec_input_size(),
                    blocks_x == self.spec_blocks_x(),
                    blocks_y == self.spec_blocks_y(),
                    bx < blocks_x,
                    by <= blocks_y,
                    result.len() == bx * blocks_y + by,
                    forall|px: int, py: int|
                        0 <= px < bx && 0 <= py < blocks_y ==> self.spec_is_block_max(
                            input@,
                            px,
                            py,
                            result[#[trigger] self.spec_output_index(px, py)],
                        ),
                    forall|py: int|
                        0 <= py < by ==> self.spec_is_block_max(
                            input@,
                            bx as int,
                            py,
                            result[#[trigger] self.spec_output_index(bx as int, py)],
                        ),
                decreases blocks_y - by,
            {
                let best = self.block_max(input, bx, by);
                proof {
                    lemma_output_index(*self, bx as int, by as int);
                    assert forall|px: int, py: int|
                        0 <= px < bx && 0 <= py < blocks_y implies 0 <= #[trigger] self.spec_output_index(
                        px,
                        py,
                    ) < bx * blocks_y by {
                        assert(0 <= px * blocks_y + py < bx * blocks_y) by (nonlinear_arith)
                            requires
                                0 <= px < bx as int,
                                0 <= py < blocks_y as int,
                        ;
                    }
                }
                result.push(best);
                by = by + 1;
            }
            proof {
                assert(result.len() == (bx + 1) * blocks_y) by (nonlinear_arith)
                    requires
                        result.len() == bx * blocks_y + blocks_y,
                ;
            }
            bx = bx + 1;
        }
        result
    }

    /// The largest encoded scalar of one block.
    fn block_max(&self, input: &Vec<u64>, bx: usize, by: usize) -> (best: u64)
        requires
            self.wf(),
            input.len() == self.spec_input_size(),
            bx < self.spec_blocks_x(),
            by < self.spec_blocks_y(),
        ensures
            self.spec_is_block_max(input@, bx as int, by as int, best),
    {
        proof {
            lemma_cell_bounds(*self, bx as int, by as int, 0, 0);
        }
        let mut best: u64 = input[(bx * self.kernel_width) * self.input_height + by
            * self.kernel_height];
        let mut dx: usize = 0;
        assert(best == self.spec_block_value(input@, bx as int, by as int, 0, 0));
        while dx < self.kernel_width
            invariant
                self.wf(),
                input.len() == self.spec_input_size(),
                bx < self.spec_blocks_x(),
                by < self.spec_blocks_y(),
                dx <= self.kernel_width,
                exists|ex: int, ey: int|
                    0 <= ex < self.kernel_width && 0 <= ey < self.kernel_height && best
                        == self.spec_block_value(input@, bx as int, by as int, ex, ey),
                forall|ex: int, ey: int|
                    0 <= ex < dx && 0 <= ey < self.kernel_height ==> spec_scalar_le(
                        #[trigger] self.spec_block_value(input@, bx as int, by as int, ex, ey),
                        best,
                    ),
            decreases self.kernel_width - dx,
        {
            let mut dy: usize = 0;
            while dy < self.kernel_height
                invariant
                    self.wf(),
                    input.len() == self.spec_input_size(),
                    bx < self.spec_blocks_x(),
                    by < self.spec_blocks_y(),
                    dx < self.kernel_width,
                    dy <= self.kernel_height,
                    exists|ex: int, ey: int|
                        0 <= ex < self.kernel_width && 0 <= ey < self.kernel_height && best
                            == self.spec_block_value(input@, bx as int, by as int, ex, ey),
                    forall|ex: int, ey: int|
                        0 <= ex < dx && 0 <= ey < self.kernel_height ==> spec_scalar_le(
                            #[trigger] self.spec_block_value(input@, bx as int, by as int, ex, ey),
                            best,
                        ),
                    forall|ey: int|
                        0 <= ey < dy ==> spec_scalar_le(
                            #[trigger] self.spec_block_value(
                                input@,
                                bx as int,
                                by as int,
                                dx as int,
                                ey,
                            ),
                            best,
                        ),
                decreases self.kernel_height - dy,
            {
                proof {
                    lemma_cell_bounds(*self, bx as int, by as int, dx as int, dy as int);
                }
                let candidate = input[(bx * self.kernel_width + dx) * self.input_height + (by
                    * self.kernel_height + dy)];
                if scalar_le(best, candidate) {
                    proof {
                        let old_best = best;
                        assert(candidate == self.spec_block_value(
                            input@,
                            bx as int,
                            by as int,
                            dx as int,
                            dy as int,
                        ));
                        assert forall|ex: int, ey: int|
                            0 <= ex < dx && 0 <= ey < self.kernel_height implies spec_scalar_le(
                            #[trigger] self.spec_block_value(input@, bx as int, by as int, ex, ey),
                            candidate,
                        ) by {
                            lemma_scalar_le_trans(
                                self.spec_block_value(input@, bx as int, by as int, ex, ey),
                                old_best,
                                candidate,
                            );
                        }
                        assert forall|ey: int| 0 <= ey < dy implies spec_scalar_le(
                            #[trigger] self.spec_block_value(
                                input@,
                                bx as int,
                                by as int,
                                dx as int,
                                ey,
                            ),
                            candidate,
                        ) by {
                            lemma_scalar_le_trans(
                                self.spec_block_value(input@, bx as int, by as int, dx as int, ey),
                                old_best,
                                candidate,
                            );
                        }
                    }
                    best = candidate;
                } else {
                    proof {
                        lemma_scalar_order_total(best, candidate);
                    }
                }
                dy = dy + 1;
            }
            dx = dx + 1;
        }
        best
    }

    /// MAX back-propagation routing.  `pooled` is the layer's forward output
    /// for the activation `activation` of the layer below, and `error` the
    /// upstream error, one value per block.  Each input cell whose value
    /// equals its block's pooled value receives that block's error; every
    /// other cell receives the encoding of zero.
    pub fn route_max_error(&self, pooled: &Vec<u64>, activation: &Vec<u64>, error: &Vec<u64>) -> (result: Vec<u64>)
        requires
            self.wf(),
            activation.len() == self.spec_input_size(),
            pooled.len() == self.spec_size(),
            error.len() == self.spec_size(),
        ensures
            result.len() == self.spec_input_size(),
            forall|x: int, y: int|
                0 <= x < self.input_width && 0 <= y < self.input_height
                    ==> result[#[trigger] self.spec_cell_index(x, y)] == (if spec_scalar_eq(
                    pooled[self.spec_block_of(x, y)],
                    activation[self.spec_cell_index(x, y)],
                ) {
                    error[self.spec_block_of(x, y)]
                } else {
                    0u64
                }),
    {
        let mut result: Vec<u64> = Vec::new();
        let mut x: usize = 0;
        while x < self.input_width
            invariant
                self.wf(),
                activation.len() == self.spec_input_size(),
                pooled.len() == self.spec_size(),
                error.len() == self.spec_size(),
                x <= self.input_width,
                result.len() == x * self.input_height,
                forall|px: int, py: int|
                    0 <= px < x && 0 <= py < self.input_height
                        ==> result[#[trigger] self.spec_cell_index(px, py)] == (if spec_scalar_eq(
                        pooled[self.spec_block_of(px, py)],
                        activation[self.spec_cell_index(px, py)],
                    ) {
                        error[self.spec_block_of(px, py)]
                    } else {
                        0u64
                    }),
            decreases self.input_width - x,
        {
            let mut y: usize = 0;
            while y < self.input_height
                invariant
                    self.wf(),
                    activation.len() == self.spec_input_size(),
                    pooled.len() == self.spec_size(),
                    error.len() == self.spec_size(),
                    x < self.input_width,
                    y <= self.input_height,
                    result.len() == x * self.input_height + y,
                    forall|px: int, py: int|
                        0 <= px < x && 0 <= py < self.input_height
                            ==> result[#[trigger] self.spec_cell_index(px, py)] == (
                        if spec_scalar_eq(
                            pooled[self.spec_block_of(px, py)],
                            activation[self.spec_cell_index(px, py)],
                        ) {
                            error[self.spec_block_of(px, py)]
                        } else {
                            0u64
                        }),
                    forall|py: int|
                        0 <= py < y ==> result[#[trigger] self.spec_cell_index(x as int, py)] == (
                        if spec_scalar_eq(
                            pooled[self.spec_block_of(x as int, py)],
                            activation[self.spec_cell_index(x as int, py)],
                        ) {
                            error[self.spec_block_of(x as int, py)]
                        } else {
                            0u64
                        }),
                decreases self.input_height - y,
            {
                proof {
                    lemma_block_of_bound(*self, x as int, y as int);
                    assert(x * self.input_height + y < self.spec_input_size()) by (nonlinear_arith)
                        requires
                            0 <= x < self.input_width,
                            0 <= y < self.input_height,
                    ;
                }
                let block = self.block_of(x, y);
                let cell = x * self.input_height + y;
                let routed = if scalar_eq(pooled[block], activation[cell]) {
                    error[block]
                } else {
                    0u64
                };
                proof {
                    assert forall|px: int, py: int|
                        0 <= px < x && 0 <= py < self.input_height implies 0
                        <= #[trigger] self.spec_cell_index(px, py) < x * self.input_height by {
                        assert(0 <= px * self.input_height + py < x * self.input_height)
                            by (nonlinear_arith)
                            requires
                                0 <= px < x as int,
                                0 <= py < self.input_height as int,
                        ;
                    }
                }
                result.push(routed);
                y = y + 1;
            }
            proof {
                assert(result.len() == (x + 1) * self.input_height) by (nonlinear_arith)
                    requires
                        result.len() == x * self.input_height + self.input_height,
                ;
            }
            x = x + 1;
        }
        result
    }
}

} // verus!
