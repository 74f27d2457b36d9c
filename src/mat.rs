//! Frames and masks as byte matrices, and the colour-band threshold.
use vstd::prelude::*;

verus! {

/// Full opacity in the alpha channel.
pub const OPAQUE: u8 = 255;

/// Value of a foreground pixel in a mask.
pub const FOREGROUND: u8 = 255;

/// Why a frame could not be processed.
#[derive(Clone, Copy, Debug, PartialEq, Eq, Structural)]
pub enum VentError {
    /// The dimensions are not positive or do not match the buffer length.
    MalformedFrame,
    /// The frame holds more pixels than region extraction can number.
    FrameTooLarge,
}

/// A row-major matrix of 8-bit values with `channels` interleaved channels.
#[derive(Clone, Debug)]
pub struct Mat {
    pub rows: usize,
    pub cols: usize,
    pub channels: usize,
    pub data: Vec<u8>,
}

impl Mat {
    /// The buffer holds exactly `rows * cols * channels` bytes.
    pub open spec fn wf(&self) -> bool {
        self.data@.len() == self.rows * self.cols * self.channels
    }

    /// Wraps a copy of `buffer` as a `rows` by `cols` matrix with `channels`
    /// channels, provided all three are positive and the length matches.
    pub fn new_from_bytes(rows: i32, cols: i32, channels: i32, buffer: &[u8]) -> (r: Result<
        Mat,
        VentError,
    >)
        ensures
            r is Ok <==> (rows > 0 && cols > 0 && channels > 0 && buffer@.len() == rows * cols
                * channels),
            r matches Ok(m) ==> (m.wf() && m.rows == rows && m.cols == cols && m.channels
                == channels && m.data@ == buffer@),
            r matches Err(e) ==> e == VentError::MalformedFrame,
    {
        let len = buffer.len();
        if rows <= 0 || cols <= 0 || channels <= 0 {
            return Err(VentError::MalformedFrame);
        }
        let r = rows as u64;
        let c = cols as u64;
        let ch = channels as u64;
        assert(r * c <= 0x4000_0000_0000_0000) by (nonlinear_arith)
            requires
                r < 0x8000_0000,
                c < 0x8000_0000,
        ;
        let pixels = r * c;
        assert(rows * cols * channels == pixels * ch);
        if pixels > (usize::MAX as u64) / ch {
            assert(pixels * ch > usize::MAX) by (nonlinear_arith)
                requires
                    pixels > (usize::MAX as u64) / ch,
                    ch > 0,
            ;
            return Err(VentError::MalformedFrame);
        }
        assert(pixels * ch <= usize::MAX) by (nonlinear_arith)
            requires
                pixels <= (usize::MAX as u64) / ch,
                ch > 0,
        ;
        let total = (pixels * ch) as usize;
        if len != total {
            return Err(VentError::MalformedFrame);
        }
        let data = vstd::slice::slice_to_vec(buffer);
        Ok(Mat { rows: rows as usize, cols: cols as usize, channels: channels as usize, data })
    }
}

/// An inclusive colour range over opaque pixels: a target for each of the
/// first three channels, in the frame's byte order, with a symmetric tolerance.
#[derive(Clone, Copy, Debug, PartialEq, Eq, Structural)]
pub struct ColorBand {
    pub c0: u8,
    pub c1: u8,
    pub c2: u8,
    pub delta: u8,
}

/// `v` lies within `delta` of `t`.
pub open spec fn near(v: u8, t: u8, delta: u8) -> bool {
    t - delta <= v <= t + delta
}

impl ColorBand {
    /// The four channel values of a pixel fall inside this band.
    pub open spec fn contains(self, c0: u8, c1: u8, c2: u8, alpha: u8) -> bool {
        &&& near(c0, self.c0, self.delta)
        &&& near(c1, self.c1, self.delta)
        &&& near(c2, self.c2, self.delta)
        &&& alpha == OPAQUE
    }
}

/// Pixel `i` of a four-channel buffer falls inside `band`.
pub open spec fn pixel_in_band(data: Seq<u8>, i: int, band: ColorBand) -> bool {
    band.contains(data[4 * i], data[4 * i + 1], data[4 * i + 2], data[4 * i + 3])
}

/// Pixel `i` of a four-channel buffer falls inside at least one of `bands`.
pub open spec fn pixel_matches(data: Seq<u8>, i: int, bands: Seq<ColorBand>) -> bool {
    exists|k: int| 0 <= k < bands.len() && #[trigger] pixel_in_band(data, i, bands[k])
}

/// Mask value for a condition.
pub open spec fn mask_value(b: bool) -> u8 {
    if b {
        FOREGROUND
    } else {
        0
    }
}

/// The single-channel mask of a four-channel buffer against one band.
pub open spec fn band_mask(data: Seq<u8>, band: ColorBand) -> Seq<u8> {
    Seq::new(data.len() / 4, |i: int| mask_value(pixel_in_band(data, i, band)))
}

/// The single-channel mask of a four-channel buffer against a set of bands:
/// a pixel is foreground iff it falls in any of them.
pub open spec fn frame_mask(data: Seq<u8>, bands: Seq<ColorBand>) -> Seq<u8> {
    Seq::new(data.len() / 4, |i: int| mask_value(pixel_matches(data, i, bands)))
}

fn near_exec(v: u8, t: u8, delta: u8) -> (r: bool)
    ensures
        r == near(v, t, delta),
{
    let lo = t as i32 - delta as i32;
    let hi = t as i32 + delta as i32;
    lo <= v as i32 && v as i32 <= hi
}

/// Thresholds a four-channel matrix against `band`: each pixel becomes
/// `FOREGROUND` where it falls inside the band and 0 elsewhere.
pub fn in_range(src: &Mat, band: &ColorBand) -> (dst: Mat)
    requires
        src.wf(),
        src.channels == 4,
    ensures
        dst.wf(),
        dst.rows == src.rows,
        dst.cols == src.cols,
        dst.channels == 1,
        dst.data@ == band_mask(src.data@, *band),
{
    let n = src.data.len() / 4;
    assert(n == src.rows * src.cols);
    let mut out: Vec<u8> = Vec::with_capacity(n);
    let mut i: usize = 0;
    while i < n
        invariant
            src.wf(),
            src.channels == 4,
            n == src.data@.len() / 4,
            4 * n == src.data@.len(),
            src.data@.len() <= usize::MAX,
            i <= n,
            out@.len() == i,
            forall|j: int| 0 <= j < i ==> out@[j] == mask_value(pixel_in_band(src.data@, j, *band)),
        decreases n - i,
    {
        let b = 4 * i;
        let inside = near_exec(src.data[b], band.c0, band.delta) && near_exec(
            src.data[b + 1],
            band.c1,
            band.delta,
        ) && near_exec(src.data[b + 2], band.c2, band.delta) && src.data[b + 3] == OPAQUE;
        out.push(if inside {
            FOREGROUND
        } else {
            0
        });
        i = i + 1;
    }
    assert(out@ =~= band_mask(src.data@, *band));
    Mat { rows: src.rows, cols: src.cols, channels: 1, data: out }
}

/// Combines two single-channel masks of equal shape byte by byte with `|`.
pub fn bitwise_or(src1: &Mat, src2: &Mat) -> (dst: Mat)
    requires
        src1.wf(),
        src2.wf(),
        src1.rows == src2.rows,
        src1.cols == src2.cols,
        src1.channels == src2.channels,
    ensures
        dst.wf(),
        dst.rows == src1.rows,
        dst.cols == src1.cols,
        dst.channels == src1.channels,
        dst.data@ == Seq::new(src1.data@.len(), |i: int| src1.data@[i] | src2.data@[i]),
{
    let n = src1.data.len();
    let mut out: Vec<u8> = Vec::with_capacity(n);
    let mut i: usize = 0;
    while i < n
        invariant
            n == src1.data@.len(),
            n == src2.data@.len(),
            i <= n,
            out@.len() == i,
            forall|j: int| 0 <= j < i ==> out@[j] == src1.data@[j] | src2.data@[j],
        decreases n - i,
    {
        out.push(src1.data[i] | src2.data[i]);
        i = i + 1;
    }
    assert(out@ =~= Seq::new(n as nat, |i: int| src1.data@[i] | src2.data@[i]));
    Mat { rows: src1.rows, cols: src1.cols, channels: src1.channels, data: out }
}

proof fn lemma_or_mask_value(a: bool, b: bool)
    ensures
        mask_value(a) | mask_value(b) == mask_value(a || b),
{
    assert(0u8 | 0u8 == 0u8) by (bit_vector);
    assert(0u8 | 255u8 == 255u8) by (bit_vector);
    assert(255u8 | 0u8 == 255u8) by (bit_vector);
    assert(255u8 | 255u8 == 255u8) by (bit_vector);
}

/// Builds the mask of a four-channel frame: the union of its thresholds
/// against every band.
pub fn build_mask(frame: &Mat, bands: &Vec<ColorBand>) -> (mask: Mat)
    requires
        frame.wf(),
        frame.channels == 4,
    ensures
        mask.wf(),
        mask.rows == frame.rows,
        mask.cols == frame.cols,
        mask.channels == 1,
        mask.data@ == frame_mask(frame.data@, bands@),
{
    let n = frame.data.len() / 4;
    assert(n == frame.rows * frame.cols);
    let mut acc = Mat { rows: frame.rows, cols: frame.cols, channels: 1, data: vec![0u8; n] };
    let mut k: usize = 0;
    while k < bands.len()
        invariant
            frame.wf(),
            frame.channels == 4,
            n == frame.data@.len() / 4,
            n == frame.rows * frame.cols,
            k <= bands@.len(),
            acc.wf(),
            acc.rows == frame.rows,
            acc.cols == frame.cols,
            acc.channels == 1,
            acc.data@.len() == n,
            forall|i: int|
                0 <= i < n ==> #[trigger] acc.data@[i] == mask_value(
                    pixel_matches(frame.data@, i, bands@.take(k as int)),
                ),
        decreases bands@.len() - k,
    {
        let m = in_range(frame, &bands[k]);
        let next = bitwise_or(&acc, &m);
        assert forall|i: int| 0 <= i < n implies #[trigger] next.data@[i] == mask_value(
            pixel_matches(frame.data@, i, bands@.take(k + 1)),
        ) by {
            let before = bands@.take(k as int);
            let after = bands@.take(k + 1);
            lemma_or_mask_value(
                pixel_matches(frame.data@, i, before),
                pixel_in_band(frame.data@, i, bands@[k as int]),
            );
            if pixel_matches(frame.data@, i, after) {
                let j = choose|j: int|
                    0 <= j < after.len() && #[trigger] pixel_in_band(frame.data@, i, after[j]);
                if j < k {
                    assert(pixel_in_band(frame.data@, i, before[j]));
                }
            }
            if pixel_matches(frame.data@, i, before) {
                let j = choose|j: int|
                    0 <= j < before.len() && #[trigger] pixel_in_band(frame.data@, i, before[j]);
                assert(pixel_in_band(frame.data@, i, after[j]));
            }
            if pixel_in_band(frame.data@, i, bands@[k as int]) {
                assert(pixel_in_band(frame.data@, i, after[k as int]));
            }
        }
        acc = next;
        k = k + 1;
    }
    assert(bands@.take(bands@.len() as int) =~= bands@);
    assert(acc.data@ =~= frame_mask(frame.data@, bands@));
    acc
}

/// The two palettes of the vent glyph: its normal colour and its tint while
/// the screen flashes during an emergency, each with a tolerance of one.
pub fn vent_bands() -> (bands: Vec<ColorBand>)
    ensures
        bands@ == seq![
            ColorBand { c0: 184u8, c1: 179u8, c2: 169u8, delta: 1u8 },
            ColorBand { c0: 116u8, c1: 112u8, c2: 201u8, delta: 1u8 },
        ],
{
    let mut bands: Vec<ColorBand> = Vec::new();
    bands.push(ColorBand { c0: 184, c1: 179, c2: 169, delta: 1 });
    bands.push(ColorBand { c0: 116, c1: 112, c2: 201, delta: 1 });
    bands
}
} // verus!
