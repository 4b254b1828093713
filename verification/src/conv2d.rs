use vstd::prelude::*;

verus! {

/// A two-dimensional filter: a `rows` by `cols` grid of scalars, flattened
/// column-major (the entry in column `c`, row `r` sits at `c * rows + r`).
#[derive(Clone, Debug, PartialEq, Eq)]
pub struct Filter {
    pub rows: usize,
    pub cols: usize,
    pub values: Vec<u64>,
}

impl Filter {
    /// Shape invariant: the value list fills the grid exactly.
    pub open spec fn wf(self) -> bool {
        self.values.len() == self.rows * self.cols
    }
}

/// Index of the cell in column `c`, row `r` of a column-major grid with
/// `rows` rows.
pub open spec fn spec_grid_index(rows: int, c: int, r: int) -> int {
    c * rows + r
}

/// Rotates a column-major `rows` by `cols` grid by a half turn: both the
/// column order and the row order are reversed.
pub fn flip_grid(rows: usize, cols: usize, values: &Vec<u64>) -> (result: Vec<u64>)
    requires
        values.len() == rows * cols,
    ensures
        result.len() == values.len(),
        forall|c: int, r: int|
            0 <= c < cols && 0 <= r < rows ==> result[#[trigger] spec_grid_index(
                rows as int,
                c,
                r,
            )] == values[spec_grid_index(rows as int, cols - 1 - c, rows - 1 - r)],
{
    let mut result: Vec<u64> = Vec::new();
    let mut c: usize = 0;
    while c < cols
        invariant
            values.len() == rows * cols,
            c <= cols,
            result.len() == c * rows,
            forall|pc: int, pr: int|
                0 <= pc < c && 0 <= pr < rows ==> result[#[trigger] spec_grid_index(
                    rows as int,
                    pc,
                    pr,
                )] == values[spec_grid_index(rows as int, cols - 1 - pc, rows - 1 - pr)],
        decreases cols - c,
    {
        let mut r: usize = 0;
        while r < rows
            invariant
                values.len() == rows * cols,
                c < cols,
                r <= rows,
                result.len() == c * rows + r,
                forall|pc: int, pr: int|
                    0 <= pc < c && 0 <= pr < rows ==> result[#[trigger] spec_grid_index(
                        rows as int,
                        pc,
                        pr,
                    )] == values[spec_grid_index(rows as int, cols - 1 - pc, rows - 1 - pr)],
                forall|pr: int|
                    0 <= pr < r ==> result[#[trigger] spec_grid_index(rows as int, c as int, pr)]
                        == values[spec_grid_index(rows as int, cols - 1 - c, rows - 1 - pr)],
            decreases rows - r,
        {
            proof {
                assert(0 <= (cols - 1 - c) * rows + (rows - 1 - r) < rows * cols)
                    by (nonlinear_arith)
                    requires
                        0 <= c < cols,
                        0 <= r < rows,
                ;
            }
            let source = values[(cols - 1 - c) * rows + (rows - 1 - r)];
            proof {
                assert forall|pc: int, pr: int| 0 <= pc < c && 0 <= pr < rows implies 0
                    <= #[trigger] spec_grid_index(rows as int, pc, pr) < c * rows by {
                    assert(0 <= pc * rows + pr < c * rows) by (nonlinear_arith)
                        requires
                            0 <= pc < c as int,
                            0 <= pr < rows as int,
                    ;
                }
            }
            result.push(source);
            r = r + 1;
        }
        proof {
            assert(result.len() == (c + 1) * rows) by (nonlinear_arith)
                requires
                    result.len() == c * rows + rows,
            ;
        }
        c = c + 1;
    }
    proof {
        assert(cols * rows == rows * cols) by (nonlinear_arith);
    }
    result
}

/// Two-dimensional convolution layer: a set of independent filters slid
/// with stride one and no padding over a single-channel column-major input
/// grid; the per-filter output maps are emitted one after the other.  The
/// layer applies no nonlinearity.
#[derive(Clone, Debug, PartialEq, Eq)]
pub struct Conv2D {
    pub input_width: usize,
    pub input_height: usize,
    pub filters: Vec<Filter>,
}

/// Combined length of the first `n` filters' output maps: a filter of
/// `rows` by `cols` over a `width` by `height` input emits a map of
/// `(width - cols + 1) * (height - rows + 1)` values.
pub open spec fn spec_conv_size_prefix(filters: Seq<Filter>, width: int, height: int, n: int) -> int
    decreases n,
{
    if n <= 0 {
        0
    } else {
        spec_conv_size_prefix(filters, width, height, n - 1) + (width - filters[n - 1].cols + 1) * (
        height - filters[n - 1].rows + 1)
    }
}

impl Conv2D {
    /// Shape invariant: every filter fits inside the input grid and the
    /// combined output length is representable.
    pub open spec fn wf(self) -> bool {
        &&& forall|i: int|
            0 <= i < self.filters.len() ==> {
                &&& (#[trigger] self.filters[i]).wf()
                &&& 0 < self.filters[i].rows <= self.input_height
                &&& 0 < self.filters[i].cols <= self.input_width
            }
        &&& self.spec_size() <= usize::MAX
    }

    /// Number of values the layer emits.
    pub open spec fn spec_size(self) -> int {
        spec_conv_size_prefix(
            self.filters@,
            self.input_width as int,
            self.input_height as int,
            self.filters.len() as int,
        )
    }

    /// Number of cells the layer takes as input.
    pub open spec fn spec_input_size(self) -> int {
        self.input_width * self.input_height
    }

    /// Builds a convolution layer from its dimensions and the initial values
    /// of its filters (drawn by the caller, one list per filter, each in
    /// column-major order).  The kernel dimensions must divide the input
    /// dimensions exactly; a mismatch is a construction-time fault, so it is
    /// ruled out here.
    pub fn new(
        filter_count: usize,
        input_width: usize,
        input_height: usize,
        kernel_width: usize,
        kernel_height: usize,
        initial_values: Vec<Vec<u64>>,
    ) -> (result: Conv2D)
        requires
            kernel_width > 0,
            kernel_height > 0,
            kernel_width <= input_width,
            kernel_height <= input_height,
            input_width as int % kernel_width as int == 0,
            input_height as int % kernel_height as int == 0,
            initial_values.len() == filter_count,
            forall|i: int|
                0 <= i < filter_count ==> (#[trigger] initial_values[i]).len() == kernel_width
                    * kernel_height,
            filter_count * ((input_width - kernel_width + 1) * (input_height - kernel_height + 1))
                <= usize::MAX,
        ensures
            result.input_width == input_width,
            result.input_height == input_height,
            result.filters.len() == filter_count,
            forall|i: int|
                0 <= i < filter_count ==> {
                    &&& (#[trigger] result.filters[i]).rows == kernel_height
                    &&& result.filters[i].cols == kernel_width
                    &&& result.filters[i].values@ == initial_values[i]@
                },
            result.wf(),
    {
        let mut filters: Vec<Filter> = Vec::new();
        let mut i: usize = 0;
        while i < filter_count
            invariant
                initial_values.len() == filter_count,
                forall|k: int|
                    0 <= k < filter_count ==> (#[trigger] initial_values[k]).len() == kernel_width
                        * kernel_height,
                i <= filter_count,
                filters.len() == i,
                forall|k: int|
                    0 <= k < i ==> {
                        &&& (#[trigger] filters[k]).rows == kernel_height
                        &&& filters[k].cols == kernel_width
                        &&& filters[k].values@ == initial_values[k]@
                    },
            decreases filter_count - i,
        {
            let values = initial_values[i].clone();
            proof {
                assert(values@ == initial_values[i as int]@);
            }
            filters.push(Filter { rows: kernel_height, cols: kernel_width, values });
            i = i + 1;
        }
        let result = Conv2D { input_width, input_height, filters };
        proof {
            lemma_uniform_conv_size(
                result.filters@,
                input_width as int,
                input_height as int,
                filter_count as int,
                (input_width - kernel_width + 1) * (input_height - kernel_height + 1),
            );
            assert forall|k: int| 0 <= k < filter_count implies (#[trigger] result.filters@[k]).wf() by {
                assert(result.filters@[k].values.len() == kernel_width * kernel_height);
                assert(result.filters@[k].rows * result.filters@[k].cols == kernel_height
                    * kernel_width) by (nonlinear_arith)
                    requires
                        result.filters@[k].rows == kernel_height,
                        result.filters@[k].cols == kernel_width,
                ;
            }
        }
        result
    }

    /// Builds a convolution layer with a square input and square kernels.
    pub fn new_square(
        filter_count: usize,
        input_size: usize,
        kernel_size: usize,
        initial_values: Vec<Vec<u64>>,
    ) -> (result: Conv2D)
        requires
            kernel_size > 0,
            kernel_size <= input_size,
            input_size as int % kernel_size as int == 0,
            initial_values.len() == filter_count,
            forall|i: int|
                0 <= i < filter_count ==> (#[trigger] initial_values[i]).len() == kernel_size
                    * kernel_size,
            filter_count * ((input_size - kernel_size + 1) * (input_size - kernel_size + 1))
                <= usize::MAX,
        ensures
            result.input_width == input_size,
            result.input_height == input_size,
            result.filters.len() == filter_count,
            forall|i: int|
                0 <= i < filter_count ==> {
                    &&& (#[trigger] result.filters[i]).rows == kernel_size
                    &&& result.filters[i].cols == kernel_size
                    &&& result.filters[i].values@ == initial_values[i]@
                },
            result.wf(),
    {
        Conv2D::new(filter_count, input_size, input_size, kernel_size, kernel_size, initial_values)
    }

    /// A convolution layer is trainable.
    pub fn trainable(&self) -> (result: bool)
        ensures
            result == true,
    {
        true
    }

    /// Number of values the layer emits: the combined length of the
    /// per-filter output maps.
    pub fn size(&self) -> (result: usize)
        requires
            self.wf(),
        ensures
            result == self.spec_size(),
    {
        let mut total: usize = 0;
        let mut i: usize = 0;
        while i < self.filters.len()
            invariant
                self.wf(),
                i <= self.filters.len(),
                total == spec_conv_size_prefix(
                    self.filters@,
                    self.input_width as int,
                    self.input_height as int,
                    i as int,
                ),
            decreases self.filters.len() - i,
        {
            proof {
                lemma_conv_size_prefix_mono(
                    self.filters@,
                    self.input_width as int,
                    self.input_height as int,
                    i + 1,
                    self.filters.len() as int,
                );
            }
            let filter = &self.filters[i];
            total = total + (self.input_width - filter.cols + 1) * (self.input_height - filter.rows
                + 1);
            i = i + 1;
        }
        total
    }
}

/// Prefix sums of output-map lengths grow with the prefix, for filters that
/// fit inside the input grid.
proof fn lemma_conv_size_prefix_mono(filters: Seq<Filter>, width: int, height: int, a: int, b: int)
    requires
        0 <= a <= b <= filters.len(),
        forall|i: int|
            0 <= i < filters.len() ==> 0 < (#[trigger] filters[i]).rows <= height && 0
                < filters[i].cols <= width,
    ensures
        spec_conv_size_prefix(filters, width, height, a) <= spec_conv_size_prefix(
            filters,
            width,
            height,
            b,
        ),
    decreases b - a,
{
    if a < b {
        lemma_conv_size_prefix_mono(filters, width, height, a, b - 1);
        assert((width - filters[b - 1].cols + 1) * (height - filters[b - 1].rows + 1) >= 0)
            by (nonlinear_arith)
            requires
                filters[b - 1].cols <= width,
                filters[b - 1].rows <= height,
        ;
    }
}

/// When every filter has the same output-map length, the combined length is
/// the filter count times that length.
proof fn lemma_uniform_conv_size(filters: Seq<Filter>, width: int, height: int, n: int, term: int)
    requires
        0 <= n <= filters.len(),
        forall|i: int|
            0 <= i < n ==> (width - (#[trigger] filters[i]).cols + 1) * (height - filters[i].rows
                + 1) == term,
    ensures
        spec_conv_size_prefix(filters, width, height, n) == n * term,
    decreases n,
{
    if n <= 0 {
        assert(n * term == 0) by (nonlinear_arith)
            requires
                n == 0,
        ;
    } else {
        lemma_uniform_conv_size(filters, width, height, n - 1, term);
        assert(spec_conv_size_prefix(filters, width, height, n) == spec_conv_size_prefix(
            filters,
            width,
            height,
            n - 1,
        ) + (width - filters[n - 1].cols + 1) * (height - filters[n - 1].rows + 1));
        assert((width - filters[n - 1].cols + 1) * (height - filters[n - 1].rows + 1) == term);
        assert((n - 1) * term + term == n * term) by (nonlinear_arith);
    }
}

} // verus!
