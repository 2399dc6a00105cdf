use crate::copy_image::copy_image;
use crate::copy_image::strided_byte;
use crate::scaling_function::selector_of;
use crate::scaling_function::ScalingFunction;
use vstd::arithmetic::div_mod::lemma_fundamental_div_mod;
use vstd::arithmetic::div_mod::lemma_fundamental_div_mod_converse;
use vstd::arithmetic::mul::lemma_mul_inequality;
use vstd::prelude::*;

verus! {

/// The packed logical grid of a strided buffer: row `y` contributes its
/// first `row_len` elements, taken at byte offset `y * stride`; padding
/// beyond `row_len` is dropped.
pub open spec fn strided_grid<T>(s: Seq<T>, stride: int, row_len: int, height: int) -> Seq<T> {
    Seq::new((height * row_len) as nat, |k: int| s[(k / row_len) * stride + k % row_len])
}

/// What the resampling engine returns for an RGBA 8-bit source grid: a
/// packed `4 * new_width * new_height` grid. The result is a function of
/// the logical pixels and the scaling parameters alone.
pub uninterp spec fn resized_u8(
    src: Seq<u8>,
    width: int,
    height: int,
    new_width: int,
    new_height: int,
    filter: int,
    premultiply_alpha: bool,
) -> Seq<u8>;

#[verifier::external_type_specification]
#[verifier::external_body]
pub struct ExPicScaleError(pic_scale::PicScaleError);

/// Relies on pic_scale::PicScaleError::code: every error variant carries a
/// distinct non-zero integer code, currently 1 through 14.
pub assume_specification[ pic_scale::PicScaleError::code ](e: &pic_scale::PicScaleError) -> (r:
    usize)
    ensures
        1 <= r <= 14,
;

/// Collapse the engine's outcome into the foreign return convention:
/// `0` for success, the engine's own non-zero code otherwise.
pub fn map_error_code(error: Result<(), pic_scale::PicScaleError>) -> (r: usize)
    ensures
        r == 0 <==> error is Ok,
{
    match error {
        Ok(()) => 0,
        Err(err) => err.code(),
    }
}

/// The alignment classification that decides between the zero-copy borrow
/// path and the copy-and-repack path: a buffer may be viewed directly as
/// elements only when its base address sits on the element's alignment and
/// its stride is a whole number of elements.
pub fn is_aligned(addr: usize, stride: usize, alignment: usize, element_size: usize) -> (r: bool)
    requires
        1 <= alignment,
        1 <= element_size,
    ensures
        r == (addr % alignment == 0 && stride % element_size == 0),
{
    addr % alignment == 0 && stride % element_size == 0
}

/// Relies on pic_scale's `ImageStoreScaling::scale` for `ImageStore<u8, 4>`:
/// driven single-threaded into a freshly allocated packed target, it either
/// reports an error, or fills all `4 * new_width * new_height` target
/// elements with a result determined by the logical source pixels and the
/// scaling parameters alone — the engine reads each source row at its
/// stride but touches only the first `4 * width` elements of it, so row
/// padding cannot influence the outcome. It draws on no randomness, time
/// or environment; its kernels are dispatched on CPU features, and the
/// dispatched paths are relied on to agree with the portable one. The
/// engine reads a stride of zero as "tightly packed", so the stride is
/// required to cover a row here. When source and target sizes are equal
/// the engine short-circuits to a row copy before any filtering, for every
/// filter, so the result is then the source grid itself.
#[verifier::external_body]
fn resize_rgba_u8(
    src: &[u8],
    stride_elems: usize,
    width: u32,
    height: u32,
    new_width: u32,
    new_height: u32,
    filter: &ScalingFunction,
    premultiply_alpha: bool,
) -> (r: Result<Vec<u8>, pic_scale::PicScaleError>)
    requires
        4 * (width as int) <= stride_elems,
        4 * (new_width as int) * (new_height as int) <= isize::MAX,
    ensures
        r matches Ok(v) ==> v@.len() == 4 * (new_width as int) * (new_height as int) && v@
            == resized_u8(
            strided_grid(src@, stride_elems as int, 4 * (width as int), height as int),
            width as int,
            height as int,
            new_width as int,
            new_height as int,
            selector_of(*filter),
            premultiply_alpha,
        ),
        width == new_width && height == new_height ==> (r matches Ok(v) ==> v@ == strided_grid(
            src@,
            stride_elems as int,
            4 * (width as int),
            height as int,
        )),
{
    let buffer = std::borrow::Cow::Borrowed(src);
    let store = pic_scale::ImageStore::<u8, 4> { buffer, channels: 4, width: width as usize, height: height as usize, stride: stride_elems, bit_depth: 8 };
    let mut options = pic_scale::ScalingOptions::default();
    options.resampling_function = filter.to_resampling_function();
    options.premultiply_alpha = premultiply_alpha;
    options.threading_policy = pic_scale::ThreadingPolicy::Single;
    let mut target = pic_scale::ImageStoreMut::<u8, 4>::alloc_with_depth(new_width as usize, new_height as usize, 8);
    pic_scale::ImageStoreScaling::scale(&store, &mut target, options)?;
    // The freshly allocated target is always owned; the borrowed arm is not reached.
    match target.buffer { pic_scale::BufferStore::Owned(v) => Ok(v), pic_scale::BufferStore::Borrowed(_) => Err(pic_scale::PicScaleError::EmptyPlan) }
}

/// Scale an RGBA 8-bit strided source into a strided destination.
///
/// The source is borrowed as-is (byte buffers always satisfy byte
/// alignment); the engine resizes into a packed scratch buffer, and the
/// row-copy engine then writes the result out at the destination stride.
/// Returns `0` on success and the engine's non-zero code on failure, in
/// which case the destination is untouched. When the target size equals
/// the source size, the destination rows reproduce the source rows
/// exactly, whatever the filter.
pub fn weave_scale_u8(
    src: &[u8],
    src_stride: usize,
    width: u32,
    height: u32,
    dst: &mut Vec<u8>,
    dst_stride: usize,
    new_width: u32,
    new_height: u32,
    scaling_function: ScalingFunction,
    premultiply_alpha: bool,
) -> (r: usize)
    requires
        4 * width <= src_stride,
        src@.len() >= (height as int) * (src_stride as int),
        4 * new_width <= dst_stride,
        old(dst)@.len() >= (new_height as int) * (dst_stride as int),
        4 * (new_width as int) * (new_height as int) <= isize::MAX,
    ensures
        final(dst)@.len() == old(dst)@.len(),
        r == 0 ==> forall|y: int, i: int|
            0 <= y < new_height && 0 <= i < 4 * new_width ==> #[trigger] strided_byte(
                final(dst)@,
                dst_stride as int,
                y,
                i,
            ) == resized_u8(
                strided_grid(src@, src_stride as int, 4 * (width as int), height as int),
                width as int,
                height as int,
                new_width as int,
                new_height as int,
                selector_of(scaling_function),
                premultiply_alpha,
            )[y * (4 * new_width as int) + i],
        r == 0 ==> forall|j: int|
            0 <= j < old(dst)@.len() && (j % (dst_stride as int) >= 4 * new_width || j / (
            dst_stride as int) >= new_height) ==> #[trigger] final(dst)@[j] == old(dst)@[j],
        r == 0 && width == new_width && height == new_height ==> forall|y: int, i: int|
            0 <= y < height && 0 <= i < 4 * width ==> #[trigger] strided_byte(
                final(dst)@,
                dst_stride as int,
                y,
                i,
            ) == strided_byte(src@, src_stride as int, y, i),
        r != 0 ==> final(dst)@ == old(dst)@,
{
    match resize_rgba_u8(
        src,
        src_stride,
        width,
        height,
        new_width,
        new_height,
        &scaling_function,
        premultiply_alpha,
    ) {
        Ok(packed) => {
            proof {
                assert((new_height as int) * (4 * new_width as int) == 4 * (new_width as int) * (
                new_height as int)) by (nonlinear_arith);
                assert((new_height as int) * (4 * new_width as int) == ((new_height as int) - 1) * (
                4 * new_width as int) + (4 * new_width as int)) by (nonlinear_arith);
                assert((new_height as int) * (dst_stride as int) == ((new_height as int) - 1) * (
                dst_stride as int) + (dst_stride as int)) by (nonlinear_arith);
            }
            copy_image(
                packed.as_slice(),
                4 * (new_width as usize),
                dst,
                dst_stride,
                new_width,
                new_height,
                4,
                1,
            );
            proof {
                assert forall|y: int, i: int| 0 <= y < new_height && 0 <= i < 4 * new_width implies
                    #[trigger] strided_byte(dst@, dst_stride as int, y, i) == resized_u8(
                    strided_grid(src@, src_stride as int, 4 * (width as int), height as int),
                    width as int,
                    height as int,
                    new_width as int,
                    new_height as int,
                    selector_of(scaling_function),
                    premultiply_alpha,
                )[y * (4 * new_width as int) + i] by {
                    assert(strided_byte(dst@, dst_stride as int, y, i) == strided_byte(
                        packed@,
                        4 * new_width as int,
                        y,
                        i,
                    ));
                }
                if width == new_width && height == new_height {
                    assert(packed@ == strided_grid(
                        src@,
                        src_stride as int,
                        4 * (width as int),
                        height as int,
                    ));
                    assert forall|y: int, i: int|
                        0 <= y < new_height && 0 <= i < 4 * new_width implies #[trigger] strided_byte(
                        dst@,
                        dst_stride as int,
                        y,
                        i,
                    ) == strided_byte(src@, src_stride as int, y, i) by {
                        let k = y * (4 * new_width as int) + i;
                        lemma_fundamental_div_mod_converse(k, 4 * new_width as int, y, i);
                        lemma_mul_inequality(y + 1, new_height as int, 4 * new_width as int);
                        assert((y + 1) * (4 * new_width as int) == y * (4 * new_width as int) + (4
                            * new_width as int)) by (nonlinear_arith);
                        assert(strided_byte(dst@, dst_stride as int, y, i) == strided_byte(
                            packed@,
                            4 * new_width as int,
                            y,
                            i,
                        ));
                        assert(packed@[k] == strided_grid(
                            src@,
                            src_stride as int,
                            4 * (width as int),
                            height as int,
                        )[k]);
                    }
                }
            }
            0
        },
        Err(e) => map_error_code(Err(e)),
    }
}

/// The 16-bit word stored, least-significant byte first, as the byte pair
/// `(lo, hi)`. All two-byte elements cross the foreign boundary in this
/// explicit byte order.
pub open spec fn word_of_bytes(lo: u8, hi: u8) -> u16 {
    (lo + 256 * hi) as u16
}

/// The low-order byte of a 16-bit word.
pub open spec fn low_byte(w: u16) -> u8 {
    (w % 256) as u8
}

/// The high-order byte of a 16-bit word.
pub open spec fn high_byte(w: u16) -> u8 {
    (w / 256) as u8
}

/// The first `count` 16-bit words of a byte buffer, each read from two
/// consecutive bytes.
pub open spec fn whole_words(bytes: Seq<u8>, count: int) -> Seq<u16> {
    Seq::new(count as nat, |k: int| word_of_bytes(bytes[2 * k], bytes[2 * k + 1]))
}

/// The packed word grid of a 4-channel 16-bit strided byte buffer: word `x`
/// of row `y` is read from the two bytes at `y * stride + 2 * x`.
pub open spec fn word_grid(bytes: Seq<u8>, stride: int, width: int, height: int) -> Seq<u16> {
    Seq::new(
        (height * (4 * width)) as nat,
        |k: int|
            word_of_bytes(
                bytes[(k / (4 * width)) * stride + 2 * (k % (4 * width))],
                bytes[(k / (4 * width)) * stride + 2 * (k % (4 * width)) + 1],
            ),
    )
}

/// The byte pair holding 16-bit component `x` of row `y` of a strided byte
/// buffer.
pub open spec fn word_bytes_at(s: Seq<u8>, stride: int, y: int, x: int) -> (u8, u8) {
    (s[y * stride + 2 * x], s[y * stride + 2 * x + 1])
}

/// What the resampling engine returns for an RGBA 16-bit source grid: a
/// packed `4 * new_width * new_height` grid. The result is a function of
/// the logical pixels and the scaling parameters alone.
pub uninterp spec fn resized_u16(
    src: Seq<u16>,
    width: int,
    height: int,
    new_width: int,
    new_height: int,
    bit_depth: int,
    filter: int,
    premultiply_alpha: bool,
) -> Seq<u16>;

/// View an even-strided byte buffer as its 16-bit elements, the zero-copy
/// borrow path made explicit: element `k` is read from bytes `2k` and
/// `2k + 1`.
#[verifier::loop_isolation(false)]
fn whole_word_view(src: &[u8], count: usize) -> (r: Vec<u16>)
    requires
        2 * count <= src@.len(),
    ensures
        r@ == whole_words(src@, count as int),
{
    let src_len: usize = src.len();
    let mut r: Vec<u16> = Vec::new();
    let mut k: usize = 0;
    while k < count
        invariant
            0 <= k <= count,
            r@.len() == k,
            forall|k0: int|
                0 <= k0 < k ==> #[trigger] r@[k0] == word_of_bytes(src@[2 * k0], src@[2 * k0 + 1]),
        decreases count - k,
    {
        let lo = src[2 * k];
        let hi = src[2 * k + 1];
        r.push(lo as u16 + 256 * (hi as u16));
        k = k + 1;
    }
    proof {
        assert(r@ =~= whole_words(src@, count as int));
    }
    r
}

/// Copy-and-repack path: read every 16-bit element of a strided byte
/// buffer with a two-byte unaligned read and pack the elements tightly,
/// dropping the row padding.
#[verifier::loop_isolation(false)]
fn pack_words(src: &[u8], src_stride: usize, width: u32, height: u32) -> (r: Vec<u16>)
    requires
        8 * width <= src_stride,
        src@.len() >= (height as int) * (src_stride as int),
    ensures
        r@ == word_grid(src@, src_stride as int, width as int, height as int),
{
    let row_words: usize = 4 * (width as usize);
    let src_len: usize = src.len();
    let mut r: Vec<u16> = Vec::new();
    let mut y: usize = 0;
    while y < height as usize
        invariant
            0 <= y <= height,
            r@.len() == y * row_words,
            forall|k: int|
                0 <= k < r@.len() ==> #[trigger] r@[k] == word_grid(
                    src@,
                    src_stride as int,
                    width as int,
                    height as int,
                )[k],
        decreases height - y,
    {
        proof {
            lemma_mul_inequality(y + 1, height as int, src_stride as int);
            assert((y + 1) * src_stride == y * src_stride + src_stride) by (nonlinear_arith);
            lemma_mul_inequality(y + 1, height as int, row_words as int);
            assert((y + 1) * row_words == y * row_words + row_words) by (nonlinear_arith);
        }
        let mut x: usize = 0;
        while x < row_words
            invariant
                0 <= y < height,
                0 <= x <= row_words,
                r@.len() == y * row_words + x,
                (y + 1) * src_stride <= src@.len(),
                y * row_words + row_words <= height * row_words,
                forall|k: int|
                    0 <= k < r@.len() ==> #[trigger] r@[k] == word_grid(
                        src@,
                        src_stride as int,
                        width as int,
                        height as int,
                    )[k],
            decreases row_words - x,
        {
            proof {
                lemma_mul_inequality(0, y as int, src_stride as int);
                lemma_mul_inequality(0, y as int, row_words as int);
            }
            let lo = src[y * src_stride + 2 * x];
            let hi = src[y * src_stride + 2 * x + 1];
            let ghost k = y * (row_words as int) + x;
            r.push(lo as u16 + 256 * (hi as u16));
            proof {
                lemma_fundamental_div_mod_converse(k, row_words as int, y as int, x as int);
                assert(r@[k] == word_grid(src@, src_stride as int, width as int, height as int)[k]);
            }
            x = x + 1;
        }
        y = y + 1;
    }
    proof {
        assert(r@ =~= word_grid(src@, src_stride as int, width as int, height as int));
    }
    r
}

/// Relies on pic_scale's `ImageStoreScaling::scale` for `ImageStore<u16, 4>`:
/// driven single-threaded into a freshly allocated packed target, it either
/// reports an error, or fills all `4 * new_width * new_height` target
/// elements with a result determined by the logical source pixels and the
/// scaling parameters alone — the engine reads each source row at its
/// stride but touches only the first `4 * width` elements of it, so row
/// padding cannot influence the outcome. It draws on no randomness, time
/// or environment; its kernels are dispatched on CPU features, and the
/// dispatched paths are relied on to agree with the portable one. The
/// engine reads a stride of zero as "tightly packed", so the stride is
/// required to cover a row here. When source and target sizes are equal
/// the engine short-circuits to a row copy before any filtering, for every
/// filter, so the result is then the source grid itself.
#[verifier::external_body]
fn resize_rgba_u16(
    src: &[u16],
    stride_elems: usize,
    width: u32,
    height: u32,
    new_width: u32,
    new_height: u32,
    bit_depth: usize,
    filter: &ScalingFunction,
    premultiply_alpha: bool,
) -> (r: Result<Vec<u16>, pic_scale::PicScaleError>)
    requires
        4 * (width as int) <= stride_elems,
        8 * (new_width as int) * (new_height as int) <= isize::MAX,
    ensures
        r matches Ok(v) ==> v@.len() == 4 * (new_width as int) * (new_height as int) && v@
            == resized_u16(
            strided_grid(src@, stride_elems as int, 4 * (width as int), height as int),
            width as int,
            height as int,
            new_width as int,
            new_height as int,
            bit_depth as int,
            selector_of(*filter),
            premultiply_alpha,
        ),
        width == new_width && height == new_height ==> (r matches Ok(v) ==> v@ == strided_grid(
            src@,
            stride_elems as int,
            4 * (width as int),
            height as int,
        )),
{
    let buffer = std::borrow::Cow::Borrowed(src);
    let store = pic_scale::ImageStore::<u16, 4> { buffer, channels: 4, width: width as usize, height: height as usize, stride: stride_elems, bit_depth };
    let mut options = pic_scale::ScalingOptions::default();
    options.resampling_function = filter.to_resampling_function();
    options.premultiply_alpha = premultiply_alpha;
    options.threading_policy = pic_scale::ThreadingPolicy::Single;
    let mut target = pic_scale::ImageStoreMut::<u16, 4>::alloc_with_depth(new_width as usize, new_height as usize, bit_depth);
    pic_scale::ImageStoreScaling::scale(&store, &mut target, options)?;
    // The freshly allocated target is always owned; the borrowed arm is not reached.
    match target.buffer { pic_scale::BufferStore::Owned(v) => Ok(v), pic_scale::BufferStore::Borrowed(_) => Err(pic_scale::PicScaleError::EmptyPlan) }
}

/// Write a packed buffer of 16-bit words into a strided byte destination:
/// word `x` of row `y` lands, low byte first, at `y * dst_stride + 2 * x`.
/// Bytes outside the written row prefixes — the row padding included — are
/// left untouched.
#[verifier::loop_isolation(false)]
pub fn write_words(
    words: &Vec<u16>,
    dst: &mut Vec<u8>,
    dst_stride: usize,
    new_width: u32,
    new_height: u32,
)
    requires
        words@.len() == 4 * (new_width as int) * (new_height as int),
        8 * new_width <= dst_stride,
        old(dst)@.len() >= (new_height as int) * (dst_stride as int),
    ensures
        final(dst)@.len() == old(dst)@.len(),
        forall|y: int, x: int|
            0 <= y < new_height && 0 <= x < 4 * new_width ==> #[trigger] word_bytes_at(
                final(dst)@,
                dst_stride as int,
                y,
                x,
            ) == (
                low_byte(words@[y * (4 * new_width as int) + x]),
                high_byte(words@[y * (4 * new_width as int) + x]),
            ),
        forall|j: int|
            0 <= j < old(dst)@.len() && (j % (dst_stride as int) >= 8 * new_width || j / (
            dst_stride as int) >= new_height) ==> #[trigger] final(dst)@[j] == old(dst)@[j],
{
    let row_words: usize = 4 * (new_width as usize);
    let words_len: usize = words.len();
    let dst_len: usize = dst.len();
    let ghost dst0 = dst@;
    proof {
        assert((new_height as int) * (4 * new_width as int) == 4 * (new_width as int) * (
        new_height as int)) by (nonlinear_arith);
    }
    let mut y: usize = 0;
    while y < new_height as usize
        invariant
            0 <= y <= new_height,
            dst@.len() == dst0.len(),
            forall|y0: int, x0: int|
                0 <= y0 < y && 0 <= x0 < row_words ==> #[trigger] word_bytes_at(
                    dst@,
                    dst_stride as int,
                    y0,
                    x0,
                ) == (
                    low_byte(words@[y0 * (row_words as int) + x0]),
                    high_byte(words@[y0 * (row_words as int) + x0]),
                ),
            forall|j: int|
                0 <= j < dst0.len() && (j % (dst_stride as int) >= 8 * new_width || j / (
                dst_stride as int) >= y) ==> #[trigger] dst@[j] == dst0[j],
        decreases new_height - y,
    {
        proof {
            lemma_mul_inequality(y + 1, new_height as int, dst_stride as int);
            assert((y + 1) * dst_stride == y * dst_stride + dst_stride) by (nonlinear_arith);
            lemma_mul_inequality(y + 1, new_height as int, row_words as int);
            assert((y + 1) * row_words == y * row_words + row_words) by (nonlinear_arith);
        }
        let mut x: usize = 0;
        while x < row_words
            invariant
                0 <= y < new_height,
                0 <= x <= row_words,
                dst@.len() == dst0.len(),
                (y + 1) * dst_stride <= dst0.len(),
                y * row_words + row_words <= words@.len(),
                forall|y0: int, x0: int|
                    0 <= y0 < y && 0 <= x0 < row_words ==> #[trigger] word_bytes_at(
                        dst@,
                        dst_stride as int,
                        y0,
                        x0,
                    ) == (
                        low_byte(words@[y0 * (row_words as int) + x0]),
                        high_byte(words@[y0 * (row_words as int) + x0]),
                    ),
                forall|x0: int|
                    0 <= x0 < x ==> #[trigger] word_bytes_at(
                        dst@,
                        dst_stride as int,
                        y as int,
                        x0,
                    ) == (
                        low_byte(words@[y * (row_words as int) + x0]),
                        high_byte(words@[y * (row_words as int) + x0]),
                    ),
                forall|j: int|
                    0 <= j < dst0.len() && (j % (dst_stride as int) >= 8 * new_width || j / (
                    dst_stride as int) > y || (j / (dst_stride as int) == y && j % (
                    dst_stride as int) >= 2 * x)) ==> #[trigger] dst@[j] == dst0[j],
            decreases row_words - x,
        {
            proof {
                lemma_mul_inequality(0, y as int, dst_stride as int);
                lemma_mul_inequality(0, y as int, row_words as int);
                assert(y * (dst_stride as int) + 2 * x + 1 < dst_len);
                assert(y * (row_words as int) + x < words_len);
                lemma_fundamental_div_mod_converse(
                    y * (dst_stride as int) + 2 * x,
                    dst_stride as int,
                    y as int,
                    2 * x,
                );
                lemma_fundamental_div_mod_converse(
                    y * (dst_stride as int) + 2 * x + 1,
                    dst_stride as int,
                    y as int,
                    2 * x + 1,
                );
            }
            let ghost w0 = y * (dst_stride as int) + 2 * x;
            let ghost w1 = w0 + 1;
            let ghost pre = dst@;
            let v = words[y * row_words + x];
            dst.set(y * dst_stride + 2 * x, (v % 256) as u8);
            dst.set(y * dst_stride + 2 * x + 1, (v / 256) as u8);
            proof {
                assert(dst@ == pre.update(w0, low_byte(v)).update(w1, high_byte(v)));
                assert forall|y0: int, x0: int| 0 <= y0 < y && 0 <= x0 < row_words implies
                    #[trigger] word_bytes_at(dst@, dst_stride as int, y0, x0) == (
                    low_byte(words@[y0 * (row_words as int) + x0]),
                    high_byte(words@[y0 * (row_words as int) + x0]),
                ) by {
                    lemma_mul_inequality(y0 + 1, y as int, dst_stride as int);
                    assert((y0 + 1) * (dst_stride as int) == y0 * (dst_stride as int)
                        + dst_stride) by (nonlinear_arith);
                    assert(y0 * (dst_stride as int) + 2 * x0 + 1 < w0);
                    assert(word_bytes_at(pre, dst_stride as int, y0, x0) == (
                        low_byte(words@[y0 * (row_words as int) + x0]),
                        high_byte(words@[y0 * (row_words as int) + x0]),
                    ));
                }
                assert forall|x0: int| 0 <= x0 < x + 1 implies #[trigger] word_bytes_at(
                    dst@,
                    dst_stride as int,
                    y as int,
                    x0,
                ) == (
                    low_byte(words@[y * (row_words as int) + x0]),
                    high_byte(words@[y * (row_words as int) + x0]),
                ) by {
                    if x0 < x {
                        assert(y * (dst_stride as int) + 2 * x0 + 1 < w0);
                        assert(word_bytes_at(pre, dst_stride as int, y as int, x0) == (
                            low_byte(words@[y * (row_words as int) + x0]),
                            high_byte(words@[y * (row_words as int) + x0]),
                        ));
                    } else {
                        assert(y * (dst_stride as int) + 2 * x0 == w0);
                    }
                }
                assert forall|j: int|
                    0 <= j < dst0.len() && (j % (dst_stride as int) >= 8 * new_width || j / (
                    dst_stride as int) > y || (j / (dst_stride as int) == y && j % (
                    dst_stride as int) >= 2 * (x + 1))) implies #[trigger] dst@[j] == dst0[j] by {
                    assert(w0 % (dst_stride as int) == 2 * x && w0 / (dst_stride as int) == y);
                    assert(w1 % (dst_stride as int) == 2 * x + 1 && w1 / (dst_stride as int) == y);
                    assert(j != w0 && j != w1);
                    assert(pre[j] == dst0[j]);
                }
            }
            x = x + 1;
        }
        y = y + 1;
    }
}

/// Packing a buffer that is already tightly packed is the identity: with
/// the stride equal to the row length, the packed grid is the buffer
/// itself.
pub proof fn lemma_packed_grid_identity<T>(s: Seq<T>, row_len: int, height: int)
    requires
        0 <= height,
        0 <= row_len,
        s.len() == height * row_len,
    ensures
        strided_grid(s, row_len, row_len, height) == s,
{
    let g = strided_grid(s, row_len, row_len, height);
    assert forall|k: int| 0 <= k < s.len() implies g[k] == s[k] by {
        if row_len == 0 {
            assert(height * row_len == 0) by (nonlinear_arith)
                requires
                    row_len == 0,
            ;
        } else {
            lemma_fundamental_div_mod(k, row_len);
            assert((k / row_len) * row_len + k % row_len == k) by (nonlinear_arith)
                requires
                    k == row_len * (k / row_len) + k % row_len,
            ;
            assert(g[k] == s[(k / row_len) * row_len + k % row_len]);
        }
    }
    assert(g =~= s);
}

/// Alignment never changes what the resampling engine sees: for a source
/// whose base address and stride satisfy 16-bit alignment, the word grid
/// obtained by borrowing the buffer as whole 16-bit elements at its element
/// stride equals the word grid obtained by element-wise unaligned reads, so
/// the resized output of the two paths is identical.
pub proof fn lemma_alignment_path_equivalence(
    bytes: Seq<u8>,
    src_stride: int,
    width: int,
    height: int,
    new_width: int,
    new_height: int,
    bit_depth: int,
    filter: int,
    premultiply_alpha: bool,
)
    requires
        src_stride % 2 == 0,
        0 <= width,
        8 * width <= src_stride,
        0 <= height,
        bytes.len() >= height * src_stride,
    ensures
        strided_grid(
            whole_words(bytes, (src_stride / 2) * height),
            src_stride / 2,
            4 * width,
            height,
        ) == word_grid(bytes, src_stride, width, height),
        resized_u16(
            strided_grid(
                whole_words(bytes, (src_stride / 2) * height),
                src_stride / 2,
                4 * width,
                height,
            ),
            width,
            height,
            new_width,
            new_height,
            bit_depth,
            filter,
            premultiply_alpha,
        ) == resized_u16(
            word_grid(bytes, src_stride, width, height),
            width,
            height,
            new_width,
            new_height,
            bit_depth,
            filter,
            premultiply_alpha,
        ),
{
    let se = src_stride / 2;
    let count = se * height;
    let words = whole_words(bytes, count);
    let g1 = strided_grid(words, se, 4 * width, height);
    let g2 = word_grid(bytes, src_stride, width, height);
    lemma_fundamental_div_mod(src_stride, 2);
    assert forall|k: int| 0 <= k < g1.len() implies g1[k] == g2[k] by {
        if width == 0 {
            assert(height * (4 * width) == 0) by (nonlinear_arith)
                requires
                    width == 0,
            ;
        }
        lemma_fundamental_div_mod(k, 4 * width);
        let y = k / (4 * width);
        let x = k % (4 * width);
        assert(0 <= x < 4 * width && 0 <= y < height) by (nonlinear_arith)
            requires
                k == y * (4 * width) + x,
                x == k % (4 * width),
                0 <= k < height * (4 * width),
                0 < 4 * width,
        ;
        let idx = y * se + x;
        assert(0 <= idx && idx + 1 <= count && 2 * idx + 1 < height * src_stride && 2 * idx == y
            * src_stride + 2 * x) by (nonlinear_arith)
            requires
                0 <= x < 4 * width,
                0 <= y < height,
                idx == y * se + x,
                count == se * height,
                src_stride == 2 * se,
                8 * width <= src_stride,
        ;
        assert(g1[k] == words[idx]);
        assert(words[idx] == word_of_bytes(bytes[2 * idx], bytes[2 * idx + 1]));
    }
    assert(g1 =~= g2);
}

/// Scale an RGBA 16-bit strided source into a strided byte destination.
///
/// `src_addr` is the address at which the foreign source buffer sits; it
/// takes part only in the alignment classification. When address and
/// stride satisfy 16-bit alignment, the buffer is viewed as whole words at
/// its element stride (the borrow path); otherwise every element is read
/// with a two-byte unaligned load and repacked (the copy path). Either way
/// the engine sees the same word grid, so the output never depends on the
/// alignment. Returns `0` on success and the engine's non-zero code on
/// failure, in which case the destination is untouched. When the target
/// size equals the source size, the destination words reproduce the source
/// words exactly, whatever the filter.
pub fn weave_scale_u16(
    src: &[u8],
    src_addr: usize,
    src_stride: usize,
    width: u32,
    height: u32,
    dst: &mut Vec<u8>,
    dst_stride: usize,
    new_width: u32,
    new_height: u32,
    bit_depth: usize,
    scaling_function: ScalingFunction,
    premultiply_alpha: bool,
) -> (r: usize)
    requires
        8 * width <= src_stride,
        src@.len() >= (height as int) * (src_stride as int),
        8 * new_width <= dst_stride,
        old(dst)@.len() >= (new_height as int) * (dst_stride as int),
        8 * (new_width as int) * (new_height as int) <= isize::MAX,
    ensures
        final(dst)@.len() == old(dst)@.len(),
        r == 0 ==> forall|y: int, x: int|
            0 <= y < new_height && 0 <= x < 4 * new_width ==> #[trigger] word_bytes_at(
                final(dst)@,
                dst_stride as int,
                y,
                x,
            ) == (
                low_byte(
                    resized_u16(
                        word_grid(src@, src_stride as int, width as int, height as int),
                        width as int,
                        height as int,
                        new_width as int,
                        new_height as int,
                        bit_depth as int,
                        selector_of(scaling_function),
                        premultiply_alpha,
                    )[y * (4 * new_width as int) + x],
                ),
                high_byte(
                    resized_u16(
                        word_grid(src@, src_stride as int, width as int, height as int),
                        width as int,
                        height as int,
                        new_width as int,
                        new_height as int,
                        bit_depth as int,
                        selector_of(scaling_function),
                        premultiply_alpha,
                    )[y * (4 * new_width as int) + x],
                ),
            ),
        r == 0 ==> forall|j: int|
            0 <= j < old(dst)@.len() && (j % (dst_stride as int) >= 8 * new_width || j / (
            dst_stride as int) >= new_height) ==> #[trigger] final(dst)@[j] == old(dst)@[j],
        r == 0 && width == new_width && height == new_height ==> forall|y: int, x: int|
            0 <= y < height && 0 <= x < 4 * width ==> #[trigger] word_bytes_at(
                final(dst)@,
                dst_stride as int,
                y,
                x,
            ) == (
                low_byte(
                    word_grid(src@, src_stride as int, width as int, height as int)[y * (4
                        * width as int) + x],
                ),
                high_byte(
                    word_grid(src@, src_stride as int, width as int, height as int)[y * (4
                        * width as int) + x],
                ),
            ),
        r != 0 ==> final(dst)@ == old(dst)@,
{
    let src_len: usize = src.len();
    let scaled: Result<Vec<u16>, pic_scale::PicScaleError> = if is_aligned(
        src_addr,
        src_stride,
        2,
        2,
    ) {
        let stride_elems = src_stride / 2;
        proof {
            lemma_fundamental_div_mod(src_stride as int, 2);
            assert(0 <= (src_stride as int) / 2 * (height as int) && 2 * ((src_stride as int) / 2
                * (height as int)) <= (src_stride as int) * (height as int) && (src_stride as int)
                * (height as int) == (height as int) * (src_stride as int)) by (nonlinear_arith)
                requires
                    0 <= height,
                    0 <= (src_stride as int) / 2 && 2 * ((src_stride as int) / 2) <= src_stride,
            ;
        }
        let count = stride_elems * (height as usize);
        let words = whole_word_view(src, count);
        proof {
            lemma_alignment_path_equivalence(
                src@,
                src_stride as int,
                width as int,
                height as int,
                new_width as int,
                new_height as int,
                bit_depth as int,
                selector_of(scaling_function),
                premultiply_alpha,
            );
        }
        resize_rgba_u16(
            words.as_slice(),
            stride_elems,
            width,
            height,
            new_width,
            new_height,
            bit_depth,
            &scaling_function,
            premultiply_alpha,
        )
    } else {
        let packed = pack_words(src, src_stride, width, height);
        proof {
            lemma_packed_grid_identity(
                word_grid(src@, src_stride as int, width as int, height as int),
                4 * (width as int),
                height as int,
            );
        }
        resize_rgba_u16(
            packed.as_slice(),
            4 * (width as usize),
            width,
            height,
            new_width,
            new_height,
            bit_depth,
            &scaling_function,
            premultiply_alpha,
        )
    };
    match scaled {
        Ok(v) => {
            proof {
                if width == new_width && height == new_height {
                    assert(v@ == word_grid(src@, src_stride as int, width as int, height as int));
                }
            }
            write_words(&v, dst, dst_stride, new_width, new_height);
            0
        },
        Err(e) => map_error_code(Err(e)),
    }
}

} // verus!


