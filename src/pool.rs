//! The shared-memory frame pool: one XRGB8888 frame that image and video frames are written into.
use vstd::prelude::*;
use memmap2::MmapMut;

verus! {

#[verifier::external_type_specification]
#[verifier::external_body]
pub struct ExMmapMut(MmapMut);

/// The bytes that a writable memory map holds.
pub uninterp spec fn mapped_bytes(m: MmapMut) -> Seq<u8>;

/// Relies on memmap2's `MmapMut` dereferencing to its bytes: their number.
#[verifier::external_body]
fn mapping_len(m: &MmapMut) -> (r: usize)
    ensures
        r == mapped_bytes(*m).len(),
{
    m.len()
}

/// Relies on memmap2's `MmapMut` dereferencing to its bytes: a view of all of them.
#[verifier::external_body]
fn mapping_bytes(m: &MmapMut) -> (r: &[u8])
    ensures
        r@ == mapped_bytes(*m),
{
    &m[..]
}

/// Relies on memmap2's `MmapMut` dereferencing mutably to its bytes: overwrites those from `at`
/// on with `bytes` and leaves the others.
#[verifier::external_body]
fn mapping_write(m: &mut MmapMut, at: usize, bytes: &[u8])
    requires
        at + bytes@.len() <= mapped_bytes(*old(m)).len(),
    ensures
        mapped_bytes(*final(m)) == mapped_bytes(*old(m)).subrange(0, at as int) + bytes@
            + mapped_bytes(*old(m)).subrange(
            at + bytes@.len(),
            mapped_bytes(*old(m)).len() as int,
        ),
{
    m[at..at + bytes.len()].copy_from_slice(bytes);
}

/// Largest size, in bytes, that the compositor accepts for a pool or a row.
pub const MAX_POOL_BYTES: u64 = 0x7fff_ffff;

/// Why a frame could not be set up or written.
#[derive(Clone, Copy, Debug, PartialEq, Eq, Structural)]
pub enum PoolError {
    /// The geometry is empty, or too large for the compositor's signed sizes.
    BadGeometry,
    /// The memory map does not hold exactly one frame.
    MappingSize,
    /// The frame written is larger than the pool.
    FrameTooLarge,
    /// An RGBA frame whose length is not a whole number of pixels.
    PartialPixel,
    /// A video row reaches past the end of the decoded buffer.
    StrideOverrun,
}

/// The geometry gives a frame that the compositor can address.
pub open spec fn valid_geometry(width: u32, height: u32) -> bool {
    &&& width >= 1
    &&& height >= 1
    &&& 4 * width * height <= MAX_POOL_BYTES
}

/// One XRGB8888 frame in shared memory, `width * 4` bytes per row with no padding.
pub struct FramePool {
    pub width: u32,
    pub height: u32,
    pub frame_size: usize,
    pub mmap: MmapMut,
}

/// The XRGB8888 bytes (blue, green, red, opaque) for RGBA bytes, pixel by pixel.
pub open spec fn bgrx_of(rgba: Seq<u8>) -> Seq<u8> {
    Seq::new(
        rgba.len(),
        |i: int|
            {
                let p = i - i % 4;
                if i % 4 == 0 {
                    rgba[p + 2]
                } else if i % 4 == 1 {
                    rgba[p + 1]
                } else if i % 4 == 2 {
                    rgba[p]
                } else {
                    255u8
                }
            },
    )
}

/// The pool's bytes after an RGBA frame is written over `before`.
pub open spec fn after_rgba_write(before: Seq<u8>, rgba: Seq<u8>) -> Seq<u8> {
    bgrx_of(rgba) + before.subrange(rgba.len() as int, before.len() as int)
}

/// The pool's bytes after `height` video rows of `row_bytes` bytes, `stride` apart in `src`,
/// are written over `before`: row `r` of the frame is `src[r * stride .. r * stride + row_bytes]`.
pub open spec fn rows_copied(
    after: Seq<u8>,
    before: Seq<u8>,
    src: Seq<u8>,
    stride: int,
    row_bytes: int,
    height: int,
) -> bool {
    &&& after.len() == before.len()
    &&& forall|r: int, c: int|
        0 <= r < height && 0 <= c < row_bytes ==> #[trigger] after[r * row_bytes + c] == src[r
            * stride + c]
    &&& forall|i: int| height * row_bytes <= i < before.len() ==> #[trigger] after[i] == before[i]
}

/// The last row of a video frame lies inside the decoded buffer.
pub open spec fn rows_fit(src_len: int, stride: int, row_bytes: int, height: int) -> bool {
    height == 0 || (height - 1) * stride + row_bytes <= src_len
}

impl FramePool {
    pub open spec fn wf(&self) -> bool {
        &&& valid_geometry(self.width, self.height)
        &&& self.frame_size == 4 * self.width * self.height
        &&& mapped_bytes(self.mmap).len() == self.frame_size
    }

    /// The bytes of the frame.
    pub open spec fn bytes(&self) -> Seq<u8> {
        mapped_bytes(self.mmap)
    }

    /// A pool over `mmap` for a `width` by `height` frame; the map must hold exactly one frame.
    pub fn new(width: u32, height: u32, mmap: MmapMut) -> (r: Result<FramePool, PoolError>)
        ensures
            match r {
                Ok(p) => p.wf() && p.width == width && p.height == height && p.bytes()
                    == mapped_bytes(mmap),
                Err(e) => if !valid_geometry(width, height) {
                    e == PoolError::BadGeometry
                } else {
                    e == PoolError::MappingSize && mapped_bytes(mmap).len() != 4 * width
                        * height
                },
            },
    {
        let size = match frame_size_for(width, height) {
            Some(s) => s,
            None => {
                return Err(PoolError::BadGeometry);
            },
        };
        if mapping_len(&mmap) != size {
            return Err(PoolError::MappingSize);
        }
        Ok(FramePool { width, height, frame_size: size, mmap })
    }

    /// The frame's bytes.
    pub fn pixels(&self) -> (r: &[u8])
        ensures
            r@ == self.bytes(),
    {
        mapping_bytes(&self.mmap)
    }

    /// Writes RGBA pixels from the start of the frame as blue, green, red and an opaque alpha.
    pub fn write_rgba(&mut self, rgba: &[u8]) -> (r: Result<(), PoolError>)
        requires
            old(self).wf(),
        ensures
            final(self).wf(),
            final(self).width == old(self).width,
            final(self).height == old(self).height,
            match r {
                Ok(()) => rgba@.len() <= old(self).frame_size && rgba@.len() % 4 == 0
                    && final(self).bytes() == after_rgba_write(old(self).bytes(), rgba@),
                Err(e) => final(self).bytes() == old(self).bytes() && if rgba@.len()
                    > old(self).frame_size {
                    e == PoolError::FrameTooLarge
                } else {
                    e == PoolError::PartialPixel && rgba@.len() % 4 != 0
                },
            },
    {
        if rgba.len() > self.frame_size {
            return Err(PoolError::FrameTooLarge);
        }
        if rgba.len() % 4 != 0 {
            return Err(PoolError::PartialPixel);
        }
        let converted = to_bgrx(rgba);
        mapping_write(&mut self.mmap, 0, converted.as_slice());
        proof {
            let before = old(self).bytes();
            assert(self.bytes() =~= after_rgba_write(before, rgba@));
        }
        Ok(())
    }

    /// Copies a BGRx video frame of `height` rows of `width` pixels, whose rows lie `src_stride`
    /// bytes apart in `src`, to the start of the frame.
    pub fn write_video_bgrx(&mut self, src: &[u8], src_stride: usize, width: usize, height: usize) -> (r:
        Result<(), PoolError>)
        requires
            old(self).wf(),
        ensures
            final(self).wf(),
            final(self).width == old(self).width,
            final(self).height == old(self).height,
            match r {
                Ok(()) => 4 * width * height <= old(self).frame_size && rows_fit(
                    src@.len() as int,
                    src_stride as int,
                    4 * width,
                    height as int,
                ) && rows_copied(
                    final(self).bytes(),
                    old(self).bytes(),
                    src@,
                    src_stride as int,
                    4 * width,
                    height as int,
                ),
                Err(e) => final(self).bytes() == old(self).bytes() && if 4 * width * height
                    > old(self).frame_size {
                    e == PoolError::FrameTooLarge
                } else {
                    e == PoolError::StrideOverrun && !rows_fit(
                        src@.len() as int,
                        src_stride as int,
                        4 * width,
                        height as int,
                    )
                },
            },
    {
        let size = self.frame_size;
        if width > size / 4 {
            proof {
                if height >= 1 {
                    assert(4 * width * height >= 4 * width) by (nonlinear_arith)
                        requires
                            height >= 1,
                    ;
                } else {
                    assert(4 * width * height == 0);
                }
            }
            if height > 0 {
                return Err(PoolError::FrameTooLarge);
            }
            proof {
                assert(self.bytes() =~= old(self).bytes());
            }
            return Ok(());
        }
        let row_bytes = width * 4;
        if row_bytes > 0 && height > size / row_bytes {
            proof {
                lemma_too_tall(size as int, row_bytes as int, height as int);
            }
            return Err(PoolError::FrameTooLarge);
        }
        proof {
            if row_bytes > 0 {
                lemma_fits(size as int, row_bytes as int, height as int);
            }
            assert(row_bytes * height == 4 * width * height);
        }
        if height == 0 {
            proof {
                assert(self.bytes() =~= old(self).bytes());
            }
            return Ok(());
        }
        let src_len = src.len();
        let last = height - 1;
        let fits = match last.checked_mul(src_stride) {
            Some(start) => match start.checked_add(row_bytes) {
                Some(end) => end <= src_len,
                None => false,
            },
            None => false,
        };
        if !fits {
            return Err(PoolError::StrideOverrun);
        }
        let ghost before = self.bytes();
        let mut row: usize = 0;
        while row < height
            invariant
                self.wf(),
                self.width == old(self).width,
                self.height == old(self).height,
                self.frame_size == size,
                row_bytes == 4 * width,
                row_bytes * height <= size,
                src_len == src@.len(),
                (height - 1) * src_stride + row_bytes <= src_len,
                before == old(self).bytes(),
                before.len() == size,
                0 <= row <= height,
                forall|r: int, c: int|
                    0 <= r < row && 0 <= c < row_bytes ==> #[trigger] self.bytes()[r * row_bytes
                        + c] == src@[r * src_stride + c],
                forall|i: int|
                    row * row_bytes <= i < before.len() ==> #[trigger] self.bytes()[i] == before[i],
            decreases height - row,
        {
            proof {
                assert(row * src_stride + row_bytes <= src_len) by (nonlinear_arith)
                    requires
                        row < height,
                        (height - 1) * src_stride + row_bytes <= src_len,
                ;
                assert(row * row_bytes + row_bytes <= size) by (nonlinear_arith)
                    requires
                        row < height,
                        row_bytes * height <= size,
                ;
            }
            let src_start = row * src_stride;
            let dst_start = row * row_bytes;
            let ghost prev = self.bytes();
            let piece = &src[src_start..src_start + row_bytes];
            assert(piece@ == src@.subrange(src_start as int, src_start + row_bytes));
            mapping_write(&mut self.mmap, dst_start, piece);
            proof {
                let now = self.bytes();
                assert(now.len() == prev.len());
                assert forall|r: int, c: int|
                    0 <= r < row + 1 && 0 <= c < row_bytes implies #[trigger] now[r * row_bytes + c]
                    == src@[r * src_stride + c] by {
                    if r < row {
                        assert(r * row_bytes + c < row * row_bytes) by (nonlinear_arith)
                            requires
                                r < row,
                                c < row_bytes,
                        ;
                        assert(now[r * row_bytes + c] == prev[r * row_bytes + c]);
                    } else {
                        assert(now[dst_start + c] == piece@[c]);
                    }
                }
                assert forall|i: int|
                    (row + 1) * row_bytes <= i < before.len() implies #[trigger] now[i]
                    == before[i] by {
                    assert((row + 1) * row_bytes == row * row_bytes + row_bytes) by (nonlinear_arith);
                    assert(before.len() == size && prev.len() == size);
                    assert(i >= dst_start + row_bytes);
                    assert(now[i] == prev[i]);
                }
            }
            row = row + 1;
        }
        Ok(())
    }
}

proof fn lemma_too_tall(size: int, row_bytes: int, height: int)
    requires
        row_bytes >= 1,
        height > size / row_bytes,
        size >= 0,
    ensures
        row_bytes * height > size,
{
    vstd::arithmetic::div_mod::lemma_fundamental_div_mod(size, row_bytes);
    vstd::arithmetic::div_mod::lemma_mod_bound(size, row_bytes);
    assert(row_bytes * height > size) by (nonlinear_arith)
        requires
            row_bytes >= 1,
            height >= size / row_bytes + 1,
            size >= 0,
            size == row_bytes * (size / row_bytes) + size % row_bytes,
            size % row_bytes < row_bytes,
    {
    }
}

proof fn lemma_fits(size: int, row_bytes: int, height: int)
    requires
        row_bytes >= 1,
        height <= size / row_bytes,
        size >= 0,
    ensures
        row_bytes * height <= size,
{
    vstd::arithmetic::div_mod::lemma_fundamental_div_mod(size, row_bytes);
    vstd::arithmetic::div_mod::lemma_mod_bound(size, row_bytes);
    assert(row_bytes * height <= size) by (nonlinear_arith)
        requires
            row_bytes >= 1,
            height <= size / row_bytes,
            size >= 0,
            size == row_bytes * (size / row_bytes) + size % row_bytes,
            size % row_bytes >= 0,
    {
    }
}

/// The frame size of a geometry that the compositor can address.
pub fn frame_size_for(width: u32, height: u32) -> (r: Option<usize>)
    ensures
        match r {
            Some(s) => valid_geometry(width, height) && s == 4 * width * height,
            None => !valid_geometry(width, height),
        },
{
    if width == 0 || height == 0 {
        return None;
    }
    let w = width as u64;
    let h = height as u64;
    if w > MAX_POOL_BYTES / 4 {
        proof {
            assert(4 * width * height >= 4 * width) by (nonlinear_arith)
                requires
                    height >= 1,
            ;
        }
        return None;
    }
    let stride = 4 * w;
    if h > MAX_POOL_BYTES / stride {
        proof {
            lemma_too_tall(MAX_POOL_BYTES as int, stride as int, h as int);
        }
        return None;
    }
    proof {
        lemma_fits(MAX_POOL_BYTES as int, stride as int, h as int);
    }
    Some((stride * h) as usize)
}

/// Converts RGBA pixels to XRGB8888 bytes.
pub fn to_bgrx(rgba: &[u8]) -> (r: Vec<u8>)
    requires
        rgba@.len() % 4 == 0,
    ensures
        r@ == bgrx_of(rgba@),
{
    let mut out: Vec<u8> = Vec::with_capacity(rgba.len());
    let mut p: usize = 0;
    while p < rgba.len()
        invariant
            rgba@.len() % 4 == 0,
            p % 4 == 0,
            p <= rgba@.len(),
            out@.len() == p,
            forall|i: int| 0 <= i < p ==> #[trigger] out@[i] == bgrx_of(rgba@)[i],
        decreases rgba@.len() - p,
    {
        out.push(rgba[p + 2]);
        out.push(rgba[p + 1]);
        out.push(rgba[p]);
        out.push(255);
        proof {
            assert forall|i: int| 0 <= i < p + 4 implies #[trigger] out@[i] == bgrx_of(rgba@)[i] by {
                if i >= p {
                    assert((i - p) % 4 == i % 4 - p % 4);
                    assert(i - i % 4 == p);
                }
            }
        }
        p = p + 4;
    }
    proof {
        assert(out@ =~= bgrx_of(rgba@));
    }
    out
}

/// Writing the same RGBA frame twice leaves the same bytes as writing it once, every written
/// pixel opaque.
pub proof fn rgba_write_idempotent(before: Seq<u8>, rgba: Seq<u8>)
    requires
        rgba.len() <= before.len(),
        rgba.len() % 4 == 0,
    ensures
        after_rgba_write(after_rgba_write(before, rgba), rgba) == after_rgba_write(before, rgba),
        forall|p: int|
            0 <= p < rgba.len() / 4 ==> #[trigger] after_rgba_write(before, rgba)[4 * p + 3] == 255,
{
    let once = after_rgba_write(before, rgba);
    assert(once.subrange(rgba.len() as int, once.len() as int) =~= before.subrange(
        rgba.len() as int,
        before.len() as int,
    ));
    assert(after_rgba_write(once, rgba) =~= once);
    assert forall|p: int| 0 <= p < rgba.len() / 4 implies #[trigger] once[4 * p + 3] == 255 by {
        assert((4 * p + 3) % 4 == 3);
        assert(4 * p + 3 < rgba.len());
    }
}

} // verus!
