use vstd::arithmetic::div_mod::lemma_fundamental_div_mod_converse;
use vstd::arithmetic::mul::lemma_mul_inequality;
use vstd::prelude::*;

verus! {

/// Bytes occupied by the pixels of one row: `width` pixels of
/// `components_count` components, each component `element_size` bytes.
pub open spec fn row_length(width: u32, components_count: u32, element_size: usize) -> int {
    width as int * components_count as int * element_size as int
}

/// Byte `i` of row `y` of a strided buffer whose rows are `stride` bytes
/// apart.
pub open spec fn strided_byte(s: Seq<u8>, stride: int, y: int, i: int) -> u8 {
    s[y * stride + i]
}

/// Strided row copy: for every row `y` below `height`, the first
/// `row_length` bytes at `y * dst_stride` in `dst` are replaced by the
/// first `row_length` bytes at `y * src_stride` in `source`; every other
/// byte of `dst`, the row padding included, is left untouched.
///
/// Source and destination rows may carry distinct strides; rows are
/// independent, so their order of processing cannot be observed.
#[verifier::loop_isolation(false)]
pub fn copy_image(
    source: &[u8],
    src_stride: usize,
    dst: &mut Vec<u8>,
    dst_stride: usize,
    width: u32,
    height: u32,
    components_count: u32,
    element_size: usize,
)
    requires
        1 <= element_size,
        row_length(width, components_count, element_size) <= src_stride,
        row_length(width, components_count, element_size) <= dst_stride,
        height == 0 || source@.len() >= (height - 1) * (src_stride as int) + row_length(
            width,
            components_count,
            element_size,
        ),
        height == 0 || old(dst)@.len() >= (height - 1) * (dst_stride as int) + row_length(
            width,
            components_count,
            element_size,
        ),
    ensures
        final(dst)@.len() == old(dst)@.len(),
        forall|y: int, i: int|
            0 <= y < height && 0 <= i < row_length(width, components_count, element_size)
                ==> #[trigger] strided_byte(final(dst)@, dst_stride as int, y, i) == strided_byte(
                source@,
                src_stride as int,
                y,
                i,
            ),
        forall|j: int|
            0 <= j < old(dst)@.len() && (j % (dst_stride as int) >= row_length(
                width,
                components_count,
                element_size,
            ) || j / (dst_stride as int) >= height) ==> #[trigger] final(dst)@[j] == old(dst)@[j],
        row_length(width, components_count, element_size) == 0 ==> final(dst)@ == old(dst)@,
{
    proof {
        assert(width as int * components_count as int <= width as int * components_count as int
            * element_size as int) by (nonlinear_arith)
            requires
                1 <= element_size,
        ;
    }
    let row_len: usize = width as usize * components_count as usize * element_size;
    if row_len == 0 {
        return ;
    }
    let src_len: usize = source.len();
    let dst_len: usize = dst.len();
    let ghost dst0 = dst@;
    let mut y: usize = 0;
    while y < height as usize
        invariant
            0 <= y <= height,
            dst@.len() == dst0.len(),
            forall|y0: int, i: int|
                0 <= y0 < y && 0 <= i < row_len ==> #[trigger] strided_byte(
                    dst@,
                    dst_stride as int,
                    y0,
                    i,
                ) == strided_byte(source@, src_stride as int, y0, i),
            forall|j: int|
                0 <= j < dst0.len() && (j % (dst_stride as int) >= row_len || j / (
                dst_stride as int) >= y) ==> #[trigger] dst@[j] == dst0[j],
        decreases height - y,
    {
        proof {
            lemma_mul_inequality(y as int, height as int - 1, src_stride as int);
            lemma_mul_inequality(y as int, height as int - 1, dst_stride as int);
        }
        let mut i: usize = 0;
        while i < row_len
            invariant
                0 <= y < height,
                0 <= i <= row_len,
                dst@.len() == dst0.len(),
                y * src_stride + row_len <= source@.len(),
                y * dst_stride + row_len <= dst0.len(),
                forall|y0: int, i0: int|
                    0 <= y0 < y && 0 <= i0 < row_len ==> #[trigger] strided_byte(
                        dst@,
                        dst_stride as int,
                        y0,
                        i0,
                    ) == strided_byte(source@, src_stride as int, y0, i0),
                forall|i0: int|
                    0 <= i0 < i ==> #[trigger] strided_byte(dst@, dst_stride as int, y as int, i0)
                        == strided_byte(source@, src_stride as int, y as int, i0),
                forall|j: int|
                    0 <= j < dst0.len() && (j % (dst_stride as int) >= row_len || j / (
                    dst_stride as int) > y || (j / (dst_stride as int) == y && j % (
                    dst_stride as int) >= i)) ==> #[trigger] dst@[j] == dst0[j],
            decreases row_len - i,
        {
            proof {
                lemma_mul_inequality(0, y as int, src_stride as int);
                lemma_mul_inequality(0, y as int, dst_stride as int);
                assert((y + 1) * src_stride == y * src_stride + src_stride) by (nonlinear_arith);
                assert((y + 1) * dst_stride == y * dst_stride + dst_stride) by (nonlinear_arith);
                assert(y * src_stride + i < src_len);
                assert(y * dst_stride + i < dst_len);
                lemma_fundamental_div_mod_converse(
                    y * dst_stride + i,
                    dst_stride as int,
                    y as int,
                    i as int,
                );
            }
            let ghost w = y * (dst_stride as int) + i;
            let ghost pre = dst@;
            let b = source[y * src_stride + i];
            dst.set(y * dst_stride + i, b);
            proof {
                assert(w % (dst_stride as int) == i && w / (dst_stride as int) == y);
                assert(dst@ == pre.update(w, b));
                assert forall|y0: int, i0: int| 0 <= y0 < y && 0 <= i0 < row_len implies
                    #[trigger] strided_byte(dst@, dst_stride as int, y0, i0) == strided_byte(
                    source@,
                    src_stride as int,
                    y0,
                    i0,
                ) by {
                    lemma_mul_inequality(y0 + 1, y as int, dst_stride as int);
                    assert((y0 + 1) * (dst_stride as int) == y0 * (dst_stride as int)
                        + dst_stride) by (nonlinear_arith);
                    assert(y0 * (dst_stride as int) + i0 < w);
                    assert(strided_byte(pre, dst_stride as int, y0, i0) == strided_byte(
                        source@,
                        src_stride as int,
                        y0,
                        i0,
                    ));
                }
                assert forall|i0: int| 0 <= i0 < i + 1 implies #[trigger] strided_byte(
                    dst@,
                    dst_stride as int,
                    y as int,
                    i0,
                ) == strided_byte(source@, src_stride as int, y as int, i0) by {
                    if i0 < i {
                        assert(strided_byte(pre, dst_stride as int, y as int, i0) == strided_byte(
                            source@,
                            src_stride as int,
                            y as int,
                            i0,
                        ));
                    } else {
                        assert(y * (dst_stride as int) + i0 == w);
                    }
                }
                assert forall|j: int|
                    0 <= j < dst0.len() && (j % (dst_stride as int) >= row_len || j / (
                    dst_stride as int) > y || (j / (dst_stride as int) == y && j % (
                    dst_stride as int) >= i + 1)) implies #[trigger] dst@[j] == dst0[j] by {
                    assert(j != w);
                    assert(pre[j] == dst0[j]);
                }
            }
            i = i + 1;
        }
        y = y + 1;
    }
}

} // verus!
