//! Repacking a decoded YUV 4:2:0 picture, whose rows are padded to a stride,
//! into tight planes (`Y` then `U` then `V`, each row exactly as wide as the
//! picture), as a streaming IYUV texture expects.
use vstd::prelude::*;

verus! {

/// Index of column `c` of row `r` in a plane laid out from `off` with rows
/// `w` apart.
pub open spec fn plane_index(off: int, r: int, w: int, c: int) -> int {
    off + r * w + c
}

/// Position `c` past `base`.
pub open spec fn offset(base: int, c: int) -> int {
    base + c
}

proof fn lemma_row_layout(r: int, w: int, c: int)
    requires
        0 <= r,
        0 <= c < w,
    ensures
        r * w <= r * w + c < (r + 1) * w,
        (r + 1) * w == r * w + w,
        0 <= r * w,
{
    assert((r + 1) * w == r * w + w) by (nonlinear_arith);
    assert(0 <= r * w) by (nonlinear_arith)
        requires
            0 <= r,
            0 <= c < w,
    ;
}

proof fn lemma_rows_ordered(r1: int, r2: int, w: int)
    requires
        0 <= r1 < r2,
        0 <= w,
    ensures
        (r1 + 1) * w <= r2 * w,
{
    assert((r1 + 1) * w <= r2 * w) by (nonlinear_arith)
        requires
            0 <= r1 < r2,
            0 <= w,
    ;
}

/// Copies `rows` rows of `row_len` bytes, read from `src` with rows `stride`
/// apart, into `dst` from `off` on, with rows `row_len` apart. Nothing else
/// of `dst` changes.
fn copy_rows(dst: &mut Vec<u8>, off: usize, src: &[u8], stride: usize, row_len: usize, rows: usize)
    requires
        off + rows * row_len <= old(dst)@.len(),
        rows == 0 || (rows - 1) * stride + row_len <= src@.len(),
    ensures
        final(dst)@.len() == old(dst)@.len(),
        forall|r: int, c: int|
            #![trigger final(dst)@[plane_index(off as int, r, row_len as int, c)]]
            0 <= r < rows && 0 <= c < row_len ==> final(dst)@[plane_index(
                off as int,
                r,
                row_len as int,
                c,
            )] == src@[plane_index(0, r, stride as int, c)],
        forall|i: int|
            0 <= i < old(dst)@.len() && !(off <= i < off + rows * row_len) ==> final(dst)@[i]
                == old(dst)@[i],
{
    let ghost orig = dst@;
    // both lengths are `usize` values
    let dst_len = dst.len();
    let src_len = src.len();
    assert(dst_len == orig.len() && src_len == src@.len());
    let mut r: usize = 0;
    while r < rows
        invariant
            r <= rows,
            dst@.len() == orig.len(),
            off + rows * row_len <= orig.len(),
            rows == 0 || (rows - 1) * stride + row_len <= src@.len(),
            orig.len() <= usize::MAX,
            src@.len() <= usize::MAX,
            forall|r2: int, c: int|
                #![trigger dst@[plane_index(off as int, r2, row_len as int, c)]]
                0 <= r2 < r && 0 <= c < row_len ==> dst@[plane_index(
                    off as int,
                    r2,
                    row_len as int,
                    c,
                )] == src@[plane_index(0, r2, stride as int, c)],
            forall|i: int|
                0 <= i < orig.len() && !(off <= i < off + r * row_len) ==> dst@[i] == orig[i],
        decreases rows - r,
    {
        proof {
            assert((r + 1) * row_len == r * row_len + row_len) by (nonlinear_arith);
            assert((r + 1) * stride == r * stride + stride) by (nonlinear_arith);
            assert((r + 1) * row_len <= rows * row_len) by (nonlinear_arith)
                requires
                    r < rows,
            ;
            assert(r * stride <= (rows - 1) * stride) by (nonlinear_arith)
                requires
                    r < rows,
            ;
            assert(0 <= r * row_len) by (nonlinear_arith);
            assert(0 <= r * stride) by (nonlinear_arith);
        }
        let dpos = off + r * row_len;
        let spos = r * stride;
        let ghost before = dst@;
        let mut c: usize = 0;
        while c < row_len
            invariant
                c <= row_len,
                r < rows,
                dst@.len() == orig.len(),
                dpos == off + r * row_len,
                spos == r * stride,
                dpos + row_len <= orig.len(),
                orig.len() <= usize::MAX,
                src@.len() <= usize::MAX,
                spos + row_len <= src@.len(),
                forall|c2: int|
                    0 <= c2 < c ==> #[trigger] dst@[offset(dpos as int, c2)] == src@[offset(
                        spos as int,
                        c2,
                    )],
                forall|i: int|
                    0 <= i < orig.len() && !(dpos <= i < dpos + c) ==> dst@[i] == before[i],
            decreases row_len - c,
        {
            dst.set(dpos + c, src[spos + c]);
            c += 1;
        }
        proof {
            assert forall|r2: int, c2: int|
                0 <= r2 < r + 1 && 0 <= c2 < row_len implies #[trigger] dst@[plane_index(
                off as int,
                r2,
                row_len as int,
                c2,
            )] == src@[plane_index(0, r2, stride as int, c2)] by {
                lemma_row_layout(r2, row_len as int, c2);
                if r2 < r {
                    lemma_rows_ordered(r2, r as int, row_len as int);
                    assert(before[plane_index(off as int, r2, row_len as int, c2)] == src@[plane_index(
                        0,
                        r2,
                        stride as int,
                        c2,
                    )]);
                } else {
                    assert(dst@[offset(dpos as int, c2)] == src@[offset(spos as int, c2)]);
                }
            }
        }
        r += 1;
    }
}

/// `rows` rows of `row_len` bytes, `stride` apart, lie within `len` bytes.
pub open spec fn plane_fits(len: int, stride: int, row_len: int, rows: int) -> bool {
    rows == 0 || (rows - 1) * stride + row_len <= len
}

/// A decoded 4:2:0 picture: its size, the stride of each plane, and the
/// three padded planes.
pub struct YuvFrame {
    pub width: usize,
    pub height: usize,
    pub stride_y: usize,
    pub stride_u: usize,
    pub stride_v: usize,
    pub y: Vec<u8>,
    pub u: Vec<u8>,
    pub v: Vec<u8>,
}

impl YuvFrame {
    /// Length of the tight luma plane.
    pub open spec fn luma_len(&self) -> int {
        self.width * self.height
    }

    /// Length of each tight chroma plane.
    pub open spec fn chroma_len(&self) -> int {
        (self.width * self.height) / 4
    }

    /// Length of the three tight planes together.
    pub open spec fn tight_len(&self) -> int {
        self.luma_len() + 2 * self.chroma_len()
    }

    /// Width of a chroma row.
    pub open spec fn chroma_width(&self) -> int {
        (self.width / 2) as int
    }

    /// Number of chroma rows.
    pub open spec fn chroma_height(&self) -> int {
        (self.height / 2) as int
    }

    /// Every row that repacking reads lies within its plane, and the tight
    /// size fits in memory.
    pub open spec fn fits(&self) -> bool {
        &&& self.tight_len() <= usize::MAX
        &&& plane_fits(
            self.y@.len() as int,
            self.stride_y as int,
            self.width as int,
            self.height as int,
        )
        &&& plane_fits(
            self.u@.len() as int,
            self.stride_u as int,
            self.chroma_width(),
            self.chroma_height(),
        )
        &&& plane_fits(
            self.v@.len() as int,
            self.stride_v as int,
            self.chroma_width(),
            self.chroma_height(),
        )
    }
}

/// Law: a picture whose planes are as long as the decoder makes them
/// (`height * stride` for luma, `height * stride / 2` for each chroma
/// plane), with strides at least as wide as the rows, fits whenever its
/// tight size does, whatever its width and height: such a picture is never
/// reported malformed.
pub proof fn lemma_decoder_shaped_frame_fits(f: YuvFrame)
    requires
        f.width <= f.stride_y,
        f.width / 2 <= f.stride_u,
        f.width / 2 <= f.stride_v,
        f.y@.len() == f.height * f.stride_y,
        f.u@.len() == (f.height * f.stride_u) / 2,
        f.v@.len() == (f.height * f.stride_v) / 2,
        f.tight_len() <= usize::MAX,
    ensures
        f.fits(),
{
    let w = f.width as int;
    let h = f.height as int;
    lemma_plane_rows_fit(w, h, f.stride_y as int);
    lemma_chroma_rows_fit(w / 2, h, f.stride_u as int);
    lemma_chroma_rows_fit(w / 2, h, f.stride_v as int);
}

proof fn lemma_plane_rows_fit(w: int, h: int, stride: int)
    requires
        0 <= w <= stride,
        0 <= h,
    ensures
        plane_fits(h * stride, stride, w, h),
{
    if h > 0 {
        assert((h - 1) * stride + w <= h * stride) by (nonlinear_arith)
            requires
                0 <= w <= stride,
                0 < h,
        ;
    }
}

proof fn lemma_chroma_rows_fit(cw: int, h: int, stride: int)
    requires
        0 <= cw <= stride,
        0 <= h,
    ensures
        plane_fits((h * stride) / 2, stride, cw, h / 2),
{
    if h / 2 > 0 {
        assert((h / 2 - 1) * stride + cw <= (h * stride) / 2) by (nonlinear_arith)
            requires
                0 <= cw <= stride,
                0 < h / 2,
        ;
    }
}

/// Whether `rows` rows of `row_len` bytes, `stride` apart, lie within `len`.
fn plane_fits_exec(len: usize, stride: usize, row_len: usize, rows: usize) -> (r: bool)
    ensures
        r == plane_fits(len as int, stride as int, row_len as int, rows as int),
{
    if rows == 0 {
        return true;
    }
    match (rows - 1).checked_mul(stride) {
        Some(start) => match start.checked_add(row_len) {
            Some(end) => end <= len,
            None => false,
        },
        None => false,
    }
}

/// Whether `frame` can be repacked: every row read lies within its plane and
/// the tight size fits in memory.
pub fn frame_fits(frame: &YuvFrame) -> (r: bool)
    ensures
        r == frame.fits(),
{
    let w = frame.width;
    let h = frame.height;
    let luma = match w.checked_mul(h) {
        Some(n) => n,
        None => {
            return false;
        },
    };
    let chroma = luma / 4;
    let total = match chroma.checked_mul(2) {
        Some(c2) => match luma.checked_add(c2) {
            Some(t) => t,
            None => {
                return false;
            },
        },
        None => {
            return false;
        },
    };
    plane_fits_exec(frame.y.len(), frame.stride_y, w, h) && plane_fits_exec(
        frame.u.len(),
        frame.stride_u,
        w / 2,
        h / 2,
    ) && plane_fits_exec(frame.v.len(), frame.stride_v, w / 2, h / 2)
}

proof fn lemma_chroma_area(w: int, h: int)
    requires
        0 <= w,
        0 <= h,
    ensures
        (h / 2) * (w / 2) <= (w * h) / 4,
        0 <= (h / 2) * (w / 2),
{
    assert((h / 2) * (w / 2) <= (w * h) / 4) by (nonlinear_arith)
        requires
            0 <= w,
            0 <= h,
    ;
    assert(0 <= (h / 2) * (w / 2)) by (nonlinear_arith)
        requires
            0 <= w,
            0 <= h,
    ;
}

/// `new` is `old` with `frame` repacked into it: it is as long as the
/// three tight planes; row `r` of the luma plane is at `r * width`, row `r`
/// of the `U` plane at `luma_len + r * (width / 2)`, row `r` of the `V`
/// plane at `luma_len + chroma_len + r * (width / 2)`, each copied from the
/// start of that row in its padded plane; and the bytes that no row covers
/// (an odd width or height leaves some at the end of each chroma plane) are
/// those of `old`, or 0 past its end.
pub open spec fn repacked(frame: YuvFrame, old: Seq<u8>, new: Seq<u8>) -> bool {
    &&& new.len() == frame.tight_len()
    &&& forall|r: int, c: int|
        #![trigger new[plane_index(0, r, frame.width as int, c)]]
        0 <= r < frame.height && 0 <= c < frame.width ==> new[plane_index(
            0,
            r,
            frame.width as int,
            c,
        )] == frame.y@[plane_index(0, r, frame.stride_y as int, c)]
    &&& forall|r: int, c: int|
        #![trigger new[plane_index(frame.luma_len(), r, frame.chroma_width(), c)]]
        0 <= r < frame.chroma_height() && 0 <= c < frame.chroma_width() ==> new[plane_index(
            frame.luma_len(),
            r,
            frame.chroma_width(),
            c,
        )] == frame.u@[plane_index(0, r, frame.stride_u as int, c)]
    &&& forall|r: int, c: int|
        #![trigger new[plane_index(frame.luma_len() + frame.chroma_len(), r, frame.chroma_width(), c)]]
        0 <= r < frame.chroma_height() && 0 <= c < frame.chroma_width() ==> new[plane_index(
            frame.luma_len() + frame.chroma_len(),
            r,
            frame.chroma_width(),
            c,
        )] == frame.v@[plane_index(0, r, frame.stride_v as int, c)]
    &&& forall|i: int|
        #![trigger new[i]]
        (frame.luma_len() + frame.chroma_height() * frame.chroma_width() <= i < frame.luma_len()
            + frame.chroma_len() || frame.luma_len() + frame.chroma_len() + frame.chroma_height()
            * frame.chroma_width() <= i < frame.tight_len()) ==> new[i] == (if i < old.len() {
            old[i]
        } else {
            0u8
        })
}

/// Law: a picture whose planes carry no padding (each stride is its row
/// width, each plane exactly its rows) and whose sides are even repacks to
/// its luma plane, then its `U` plane, then its `V` plane, whatever was in
/// the buffer before.
pub proof fn lemma_unpadded_repack_is_y_u_v(f: YuvFrame, old: Seq<u8>, new: Seq<u8>)
    requires
        repacked(f, old, new),
        f.width % 2 == 0,
        f.height % 2 == 0,
        f.stride_y == f.width,
        f.stride_u == f.width / 2,
        f.stride_v == f.width / 2,
        f.y@.len() == f.luma_len(),
        f.u@.len() == f.chroma_len(),
        f.v@.len() == f.chroma_len(),
    ensures
        new == f.y@ + f.u@ + f.v@,
{
    let w = f.width as int;
    let h = f.height as int;
    let cw = w / 2;
    let ch = h / 2;
    let luma = f.luma_len();
    let chroma = f.chroma_len();
    assert(chroma == ch * cw) by (nonlinear_arith)
        requires
            w % 2 == 0,
            h % 2 == 0,
            cw == w / 2,
            ch == h / 2,
            chroma == (w * h) / 4,
            w >= 0,
            h >= 0,
    ;
    assert(luma == h * w) by (nonlinear_arith)
        requires
            luma == w * h,
    ;
    let cat = f.y@ + f.u@ + f.v@;
    assert forall|i: int| 0 <= i < new.len() implies new[i] == cat[i] by {
        if i < luma {
            let r = i / w;
            let c = i % w;
            lemma_split_index(i, w, h);
            assert(new[plane_index(0, r, w, c)] == f.y@[plane_index(0, r, w, c)]);
        } else if i < luma + chroma {
            let j = i - luma;
            let r = j / cw;
            let c = j % cw;
            lemma_split_index(j, cw, ch);
            assert(new[plane_index(luma, r, cw, c)] == f.u@[plane_index(0, r, cw, c)]);
        } else {
            let j = i - luma - chroma;
            let r = j / cw;
            let c = j % cw;
            lemma_split_index(j, cw, ch);
            assert(new[plane_index(luma + chroma, r, cw, c)] == f.v@[plane_index(0, r, cw, c)]);
        }
    }
    assert(new =~= cat);
}

/// An index below `rows * w` is row `i / w`, column `i % w`.
proof fn lemma_split_index(i: int, w: int, rows: int)
    requires
        0 <= i < rows * w,
        0 <= w,
        0 <= rows,
    ensures
        w > 0,
        0 <= i / w < rows,
        0 <= i % w < w,
        i == (i / w) * w + i % w,
{
    assert(w > 0) by (nonlinear_arith)
        requires
            0 <= i < rows * w,
            0 <= w,
            0 <= rows,
    ;
    assert(i == (i / w) * w + i % w && 0 <= i % w < w) by (nonlinear_arith)
        requires
            w > 0,
    ;
    assert(0 <= i / w < rows) by (nonlinear_arith)
        requires
            w > 0,
            0 <= i < rows * w,
            i == (i / w) * w + i % w,
            0 <= i % w < w,
    ;
}

/// Repacks `frame` into `tight`: the luma rows, then the `U` rows, then the
/// `V` rows, each row exactly as wide as its plane. `tight` is resized to
/// the tight size when its length differs; bytes that no row covers (an odd
/// width or height leaves some) keep their old value, or 0 past the old end.
pub fn repack_tight(frame: &YuvFrame, tight: &mut Vec<u8>)
    requires
        frame.fits(),
    ensures
        repacked(*frame, old(tight)@, final(tight)@),
{
    let w = frame.width;
    let h = frame.height;
    proof {
        lemma_chroma_area(w as int, h as int);
        assert(0 <= w * h) by (nonlinear_arith);
    }
    let luma = w * h;
    let chroma = luma / 4;
    let total = luma + chroma * 2;
    if tight.len() != total {
        tight.resize(total, 0);
    }
    let ghost sized = tight@;
    assert(forall|i: int| 0 <= i < total ==> sized[i] == (if i < old(tight)@.len() {
        old(tight)@[i]
    } else {
        0u8
    }));
    proof {
        assert(h * w == w * h) by (nonlinear_arith);
    }
    copy_rows(tight, 0, frame.y.as_slice(), frame.stride_y, w, h);
    let ghost after_y = tight@;
    copy_rows(tight, luma, frame.u.as_slice(), frame.stride_u, w / 2, h / 2);
    let ghost after_u = tight@;
    copy_rows(tight, luma + chroma, frame.v.as_slice(), frame.stride_v, w / 2, h / 2);
    proof {
        let cw = (w / 2) as int;
        let ch = (h / 2) as int;
        assert forall|r: int, c: int| 0 <= r < h && 0 <= c < w implies #[trigger] tight@[plane_index(
            0,
            r,
            w as int,
            c,
        )] == frame.y@[plane_index(0, r, frame.stride_y as int, c)] by {
            lemma_row_layout(r, w as int, c);
            lemma_rows_ordered(r, h as int, w as int);
            assert(after_y[plane_index(0, r, w as int, c)] == frame.y@[plane_index(
                0,
                r,
                frame.stride_y as int,
                c,
            )]);
        }
        assert forall|r: int, c: int| 0 <= r < ch && 0 <= c < cw implies #[trigger] tight@[plane_index(
            luma as int,
            r,
            cw,
            c,
        )] == frame.u@[plane_index(0, r, frame.stride_u as int, c)] by {
            lemma_row_layout(r, cw, c);
            lemma_rows_ordered(r, ch, cw);
            assert(ch * cw == cw * ch) by (nonlinear_arith);
            assert(after_u[plane_index(luma as int, r, cw, c)] == frame.u@[plane_index(
                0,
                r,
                frame.stride_u as int,
                c,
            )]);
        }
    }
}

} // verus!
