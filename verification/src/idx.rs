use vstd::prelude::*;
use vstd::arithmetic::div_mod::lemma_fundamental_div_mod;
use vstd::arithmetic::div_mod::lemma_fundamental_div_mod_converse;

verus! {

/// A decoded IDX dataset container: the dimension sizes from the header,
/// and the payload grouped into `shape[0]` equally long items.
#[derive(Clone, Debug, PartialEq, Eq)]
pub struct IDXFile {
    pub shape: Vec<u32>,
    pub items: Vec<Vec<u8>>,
}

/// Why a byte buffer is not a usable IDX file.
#[derive(Clone, Copy, Debug, PartialEq, Eq, Structural)]
pub enum IdxError {
    /// Fewer than the four header bytes (magic, data type, dimension count).
    TruncatedHeader,
    /// The data-type byte is not the unsigned-byte marker `0x08`.
    UnsupportedDataType,
    /// The buffer ends inside the dimension sizes.
    TruncatedShape,
    /// The payload length differs from the product of the dimension sizes.
    CountMismatch,
    /// No dimensions, or a shape with no payload to group (a zero
    /// dimension), so no items can be formed.
    DegenerateShape,
}

impl IdxError {
    /// A short description of the fault.
    pub fn message(&self) -> (result: &'static str)
        ensures
            result@.len() > 0,
    {
        proof {
            reveal_strlit("IDX data ends inside the header");
            reveal_strlit("only IDX files with unsigned byte data are supported");
            reveal_strlit("IDX data ends inside the dimension sizes");
            reveal_strlit("IDX payload length does not match the dimension sizes");
            reveal_strlit("IDX shape admits no items");
        }
        match self {
            IdxError::TruncatedHeader => "IDX data ends inside the header",
            IdxError::UnsupportedDataType => "only IDX files with unsigned byte data are supported",
            IdxError::TruncatedShape => "IDX data ends inside the dimension sizes",
            IdxError::CountMismatch => "IDX payload length does not match the dimension sizes",
            IdxError::DegenerateShape => "IDX shape admits no items",
        }
    }
}

/// The big-endian 32-bit value at offset `i` of `data`.
pub open spec fn spec_u32_be(data: Seq<u8>, i: int) -> int {
    data[i] * 0x100_0000 + data[i + 1] * 0x1_0000 + data[i + 2] * 0x100 + data[i + 3]
}

/// Number of dimensions a buffer claims.
pub open spec fn spec_idx_dims(data: Seq<u8>) -> int {
    data[3] as int
}

/// The `k`-th dimension size a buffer claims.
pub open spec fn spec_idx_dim(data: Seq<u8>, k: int) -> int {
    spec_u32_be(data, 4 + 4 * k)
}

/// Product of the first `k` dimension sizes a buffer claims.
pub open spec fn spec_idx_product(data: Seq<u8>, k: int) -> int
    decreases k,
{
    if k <= 0 {
        1
    } else {
        spec_idx_product(data, k - 1) * spec_idx_dim(data, k - 1)
    }
}

/// Length of the payload that follows the header and dimension sizes.
pub open spec fn spec_idx_count(data: Seq<u8>) -> int {
    data.len() - 4 - 4 * spec_idx_dims(data)
}

/// The conditions under which a buffer decodes, stated in the order in
/// which the faults are reported.
pub open spec fn spec_idx_header_ok(data: Seq<u8>) -> bool {
    &&& data.len() >= 4
    &&& data[2] == 8
    &&& data.len() >= 4 + 4 * spec_idx_dims(data)
}

pub open spec fn spec_idx_counts_ok(data: Seq<u8>) -> bool {
    &&& spec_idx_header_ok(data)
    &&& spec_idx_product(data, spec_idx_dims(data)) == spec_idx_count(data)
}

pub open spec fn spec_idx_ok(data: Seq<u8>) -> bool {
    &&& spec_idx_counts_ok(data)
    &&& spec_idx_dims(data) > 0
    &&& spec_idx_dim(data, 0) > 0
    &&& spec_idx_count(data) > 0
}

/// Length of each decoded item: the payload divided evenly over the first
/// dimension.
pub open spec fn spec_idx_group(data: Seq<u8>) -> int {
    spec_idx_count(data) / spec_idx_dim(data, 0)
}

/// The byte range of decoded item `i`.
pub open spec fn spec_idx_item(data: Seq<u8>, i: int) -> Seq<u8> {
    let base = 4 + 4 * spec_idx_dims(data) + i * spec_idx_group(data);
    data.subrange(base, base + spec_idx_group(data))
}

/// A zero among the first `k` dimension sizes forces their product to zero.
proof fn lemma_zero_dim_product(data: Seq<u8>, k: int, z: int)
    requires
        0 <= z < k,
        spec_idx_dim(data, z) == 0,
    ensures
        spec_idx_product(data, k) == 0,
    decreases k,
{
    if z == k - 1 {
        assert(spec_idx_product(data, k) == spec_idx_product(data, k - 1) * 0);
        assert(spec_idx_product(data, k - 1) * 0 == 0) by (nonlinear_arith);
    } else {
        lemma_zero_dim_product(data, k - 1, z);
        assert(spec_idx_product(data, k) == 0 * spec_idx_dim(data, k - 1));
        assert(0 * spec_idx_dim(data, k - 1) == 0) by (nonlinear_arith);
    }
}

/// With every dimension size positive, prefix products never shrink.
proof fn lemma_product_mono(data: Seq<u8>, a: int, b: int)
    requires
        0 <= a <= b,
        forall|k: int| 0 <= k < b ==> #[trigger] spec_idx_dim(data, k) >= 1,
    ensures
        spec_idx_product(data, a) <= spec_idx_product(data, b),
        spec_idx_product(data, a) >= 1,
    decreases b - a,
{
    if a == b {
        lemma_product_pos(data, a);
    } else {
        lemma_product_mono(data, a, b - 1);
        lemma_product_pos(data, b - 1);
        assert(spec_idx_product(data, b) == spec_idx_product(data, b - 1) * spec_idx_dim(
            data,
            b - 1,
        ));
        assert(spec_idx_product(data, b - 1) * spec_idx_dim(data, b - 1) >= spec_idx_product(
            data,
            b - 1,
        )) by (nonlinear_arith)
            requires
                spec_idx_product(data, b - 1) >= 1,
                spec_idx_dim(data, b - 1) >= 1,
        ;
    }
}

/// With every dimension size positive, prefix products are positive.
proof fn lemma_product_pos(data: Seq<u8>, k: int)
    requires
        0 <= k,
        forall|j: int| 0 <= j < k ==> #[trigger] spec_idx_dim(data, j) >= 1,
    ensures
        spec_idx_product(data, k) >= 1,
    decreases k,
{
    if k > 0 {
        lemma_product_pos(data, k - 1);
        assert(spec_idx_product(data, k) == spec_idx_product(data, k - 1) * spec_idx_dim(
            data,
            k - 1,
        ));
        assert(spec_idx_product(data, k - 1) * spec_idx_dim(data, k - 1) >= 1)
            by (nonlinear_arith)
            requires
                spec_idx_product(data, k - 1) >= 1,
                spec_idx_dim(data, k - 1) >= 1,
        ;
    }
}

/// The big-endian 32-bit value at offset `i`.
fn u32_be(data: &Vec<u8>, i: usize) -> (result: u32)
    requires
        i + 4 <= data.len(),
    ensures
        result == spec_u32_be(data@, i as int),
{
    (data[i] as u32) * 0x100_0000 + (data[i + 1] as u32) * 0x1_0000 + (data[i + 2] as u32) * 0x100
        + (data[i + 3] as u32)
}

/// Decodes an IDX dataset container.
///
/// The layout is: two magic bytes (ignored), a data-type byte that must be
/// `0x08` (unsigned byte data), a dimension count, that many big-endian
/// 32-bit dimension sizes, then the payload.  The payload length must equal
/// the product of the dimension sizes, and is grouped into `shape[0]` items
/// of equal length.
pub fn parse_idx_file(data: Vec<u8>) -> (result: Result<IDXFile, IdxError>)
    ensures
        match result {
            Ok(file) => {
                &&& spec_idx_ok(data@)
                &&& file.shape.len() == spec_idx_dims(data@)
                &&& forall|k: int|
                    0 <= k < file.shape.len() ==> #[trigger] file.shape[k] as int == spec_idx_dim(
                        data@,
                        k,
                    )
                &&& file.items.len() == spec_idx_dim(data@, 0)
                &&& forall|i: int|
                    0 <= i < file.items.len() ==> (#[trigger] file.items[i])@ == spec_idx_item(
                        data@,
                        i,
                    )
            },
            Err(IdxError::TruncatedHeader) => data@.len() < 4,
            Err(IdxError::UnsupportedDataType) => data@.len() >= 4 && data@[2] != 8,
            Err(IdxError::TruncatedShape) => data@.len() >= 4 && data@[2] == 8 && data@.len() < 4
                + 4 * spec_idx_dims(data@),
            Err(IdxError::CountMismatch) => spec_idx_header_ok(data@) && spec_idx_product(
                data@,
                spec_idx_dims(data@),
            ) != spec_idx_count(data@),
            Err(IdxError::DegenerateShape) => spec_idx_counts_ok(data@) && !spec_idx_ok(data@),
        },
{
    if data.len() < 4 {
        return Err(IdxError::TruncatedHeader);
    }
    if data[2] != 8 {
        return Err(IdxError::UnsupportedDataType);
    }
    let dims = data[3] as usize;
    if data.len() < 4 + 4 * dims {
        return Err(IdxError::TruncatedShape);
    }
    let count = data.len() - 4 - 4 * dims;

    let mut shape: Vec<u32> = Vec::new();
    let mut k: usize = 0;
    while k < dims
        invariant
            data.len() >= 4 + 4 * dims,
            k <= dims,
            shape.len() == k,
            forall|j: int| 0 <= j < k ==> #[trigger] shape[j] as int == spec_idx_dim(data@, j),
        decreases dims - k,
    {
        let dim = u32_be(&data, 4 + 4 * k);
        shape.push(dim);
        k = k + 1;
    }

    // The payload length must equal the product of the dimension sizes.
    // A zero dimension forces the product to zero; otherwise the prefix
    // products only grow, so an accumulator that would exceed `u64::MAX`
    // already rules out a payload of matching length.
    let mut zero_at: Option<usize> = None;
    let mut j: usize = 0;
    while j < dims
        invariant
            shape.len() == dims,
            forall|t: int| 0 <= t < dims ==> #[trigger] shape[t] as int == spec_idx_dim(data@, t),
            j <= dims,
            match zero_at {
                Some(z) => z < dims && spec_idx_dim(data@, z as int) == 0,
                None => forall|t: int| 0 <= t < j ==> #[trigger] spec_idx_dim(data@, t) >= 1,
            },
        decreases dims - j,
    {
        if zero_at.is_none() && shape[j] == 0 {
            zero_at = Some(j);
        }
        j = j + 1;
    }

    match zero_at {
        Some(z) => {
            proof {
                lemma_zero_dim_product(data@, dims as int, z as int);
            }
            if count != 0 {
                return Err(IdxError::CountMismatch);
            }
            return Err(IdxError::DegenerateShape);
        },
        None => {},
    }

    let mut product: u64 = 1;
    let mut m: usize = 0;
    while m < dims
        invariant
            data@.len() >= 4,
            data@[2] == 8,
            dims == spec_idx_dims(data@),
            data@.len() >= 4 + 4 * dims,
            shape.len() == dims,
            forall|t: int| 0 <= t < dims ==> #[trigger] shape[t] as int == spec_idx_dim(data@, t),
            forall|t: int| 0 <= t < dims ==> #[trigger] spec_idx_dim(data@, t) >= 1,
            m <= dims,
            product == spec_idx_product(data@, m as int),
            count == spec_idx_count(data@),
        decreases dims - m,
    {
        let dim = shape[m] as u64;
        if product > u64::MAX / dim {
            proof {
                lemma_fundamental_div_mod(u64::MAX as int, dim as int);
                vstd::arithmetic::div_mod::lemma_mod_bound(u64::MAX as int, dim as int);
                assert(product * dim > u64::MAX) by (nonlinear_arith)
                    requires
                        dim >= 1,
                        product > u64::MAX / dim,
                        u64::MAX == (dim as int) * ((u64::MAX as int) / (dim as int)) + (u64::MAX
                            as int) % (dim as int),
                        ((u64::MAX as int) % (dim as int)) < dim,
                ;
                lemma_product_mono(data@, m as int + 1, dims as int);
                assert(spec_idx_product(data@, m as int + 1) == product * dim);
                assert(spec_idx_product(data@, dims as int) > u64::MAX);
                assert(spec_idx_product(data@, dims as int) != spec_idx_count(data@));
            }
            return Err(IdxError::CountMismatch);
        }
        proof {
            lemma_fundamental_div_mod(u64::MAX as int, dim as int);
            assert(product * dim <= u64::MAX) by (nonlinear_arith)
                requires
                    dim >= 1,
                    product <= (u64::MAX as int) / (dim as int),
                    u64::MAX == (dim as int) * ((u64::MAX as int) / (dim as int)) + (u64::MAX
                        as int) % (dim as int),
                    ((u64::MAX as int) % (dim as int)) >= 0,
            ;
        }
        product = product * dim;
        m = m + 1;
    }

    if product != count as u64 {
        return Err(IdxError::CountMismatch);
    }
    if dims == 0 || count == 0 {
        return Err(IdxError::DegenerateShape);
    }

    let first_dim = shape[0];
    proof {
        lemma_product_mono(data@, 1, dims as int);
        assert(spec_idx_product(data@, 0) == 1);
        assert(spec_idx_product(data@, 1) == spec_idx_product(data@, 0) * spec_idx_dim(data@, 0));
        assert(1 * spec_idx_dim(data@, 0) == spec_idx_dim(data@, 0)) by (nonlinear_arith);
    }
    let item_count = first_dim as usize;
    let group = count / item_count;
    proof {
        lemma_idx_group_exact(data@);
    }

    let header = 4 + 4 * dims;
    let mut items: Vec<Vec<u8>> = Vec::new();
    let mut i: usize = 0;
    while i < item_count
        invariant
            data.len() == header + count,
            header == 4 + 4 * spec_idx_dims(data@),
            spec_idx_ok(data@),
            item_count == spec_idx_dim(data@, 0),
            group == spec_idx_group(data@),
            count == spec_idx_count(data@),
            count == item_count * group,
            i <= item_count,
            items.len() == i,
            forall|t: int|
                0 <= t < i ==> (#[trigger] items[t])@ == spec_idx_item(data@, t),
        decreases item_count - i,
    {
        let mut item: Vec<u8> = Vec::new();
        proof {
            assert(i * group + group <= item_count * group) by (nonlinear_arith)
                requires
                    0 <= i < item_count,
                    group >= 0,
            ;
            assert(0 <= i * group) by (nonlinear_arith)
                requires
                    0 <= i,
                    group >= 0,
            ;
        }
        let base = header + i * group;
        let mut t: usize = 0;
        while t < group
            invariant
                data.len() == header + count,
                base == header + i * group,
                i * group + group <= count,
                0 <= i * group,
                t <= group,
                item.len() == t,
                item@ == data@.subrange(base as int, base as int + t as int),
            decreases group - t,
        {
            item.push(data[base + t]);
            proof {
                assert(item@ =~= data@.subrange(base as int, base as int + t as int + 1));
            }
            t = t + 1;
        }
        proof {
            assert(item@ == spec_idx_item(data@, i as int));
        }
        items.push(item);
        i = i + 1;
    }

    Ok(IDXFile { shape, items })
}

/// When the buffer decodes, the payload splits exactly into `shape[0]`
/// groups.
proof fn lemma_idx_group_exact(data: Seq<u8>)
    requires
        spec_idx_ok(data),
    ensures
        spec_idx_count(data) == spec_idx_dim(data, 0) * spec_idx_group(data),
        spec_idx_group(data) >= 1,
{
    let dims = spec_idx_dims(data);
    let n0 = spec_idx_dim(data, 0);
    let count = spec_idx_count(data);
    lemma_rest_product(data, 1, dims);
    lemma_rest_nonneg(data, 1, dims);
    let rest = spec_idx_rest(data, 1, dims);
    assert(spec_idx_product(data, 1) == spec_idx_product(data, 0) * spec_idx_dim(data, 0));
    assert(spec_idx_product(data, 0) * spec_idx_dim(data, 0) == n0) by (nonlinear_arith)
        requires
            spec_idx_product(data, 0) == 1,
            spec_idx_dim(data, 0) == n0,
    ;
    assert(count == n0 * rest);
    assert(n0 * rest == rest * n0) by (nonlinear_arith);
    lemma_fundamental_div_mod_converse(count, n0, rest, 0);
    assert(spec_idx_group(data) == rest);
    assert(rest >= 1) by (nonlinear_arith)
        requires
            n0 * rest == count,
            count > 0,
            n0 > 0,
            rest >= 0,
    ;
}

/// Products of dimension sizes are never negative.
proof fn lemma_rest_nonneg(data: Seq<u8>, a: int, b: int)
    ensures
        spec_idx_rest(data, a, b) >= 0,
    decreases b - a,
{
    if a < b {
        lemma_rest_nonneg(data, a + 1, b);
        assert(spec_idx_dim(data, a) >= 0);
        assert(spec_idx_dim(data, a) * spec_idx_rest(data, a + 1, b) >= 0) by (nonlinear_arith)
            requires
                spec_idx_dim(data, a) >= 0,
                spec_idx_rest(data, a + 1, b) >= 0,
        ;
    }
}

/// Product of the dimension sizes from `a` (inclusive) to `b` (exclusive).
pub open spec fn spec_idx_rest(data: Seq<u8>, a: int, b: int) -> int
    decreases b - a,
{
    if a >= b {
        1
    } else {
        spec_idx_dim(data, a) * spec_idx_rest(data, a + 1, b)
    }
}

/// The full prefix product splits at any point `a` into the prefix product
/// up to `a` times the rest.
proof fn lemma_rest_product(data: Seq<u8>, a: int, b: int)
    requires
        0 <= a <= b,
    ensures
        spec_idx_product(data, b) == spec_idx_product(data, a) * spec_idx_rest(data, a, b),
    decreases b - a,
{
    if a == b {
        assert(spec_idx_product(data, b) * 1 == spec_idx_product(data, b)) by (nonlinear_arith);
    } else {
        lemma_rest_split(data, a, b);
    }
}

/// Helper for [`lemma_rest_product`]: peel one factor off the front of the
/// rest product.
proof fn lemma_rest_split(data: Seq<u8>, a: int, b: int)
    requires
        0 <= a < b,
    ensures
        spec_idx_product(data, b) == spec_idx_product(data, a) * spec_idx_rest(data, a, b),
    decreases b - a,
{
    if a + 1 == b {
        assert(spec_idx_product(data, b) == spec_idx_product(data, a) * spec_idx_dim(data, a));
        assert(spec_idx_rest(data, a + 1, b) == 1);
        assert(spec_idx_rest(data, a, b) == spec_idx_dim(data, a) * 1);
        assert(spec_idx_product(data, a) * (spec_idx_dim(data, a) * 1) == spec_idx_product(
            data,
            a,
        ) * spec_idx_dim(data, a)) by (nonlinear_arith);
    } else {
        lemma_rest_split(data, a + 1, b);
        assert(spec_idx_product(data, a + 1) == spec_idx_product(data, a) * spec_idx_dim(data, a));
        assert(spec_idx_product(data, b) == (spec_idx_product(data, a) * spec_idx_dim(data, a))
            * spec_idx_rest(data, a + 1, b));
        assert((spec_idx_product(data, a) * spec_idx_dim(data, a)) * spec_idx_rest(data, a + 1, b)
            == spec_idx_product(data, a) * (spec_idx_dim(data, a) * spec_idx_rest(data, a + 1, b)))
            by (nonlinear_arith);
    }
}

} // verus!
