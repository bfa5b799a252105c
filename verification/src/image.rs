//! The image buffer: one or more frames of 8-bit RGB pixels, filled in
//! parallel, averaged for motion blur, and encoded as PPM or PNG bytes.
//! Reading and writing files is the caller's business; this module only
//! computes.

use vstd::prelude::*;
use vstd::arithmetic::div_mod::lemma_fundamental_div_mod;
use vstd::arithmetic::div_mod::lemma_fundamental_div_mod_converse;
use vstd::string::StringExecFns;

use crate::decimal::ascii_bytes;
use crate::decimal::dec_str;
use crate::decimal::push_dec_bytes;

use rayon::iter::IntoParallelRefIterator;
use rayon::iter::ParallelIterator;

verus! {

/// A pixel: red, green and blue, each from 0 to 255.
pub type Rgb = [u8; 3];

/// The mathematical value of an `Image`: its dimensions and the pixel
/// rows of each frame.
pub struct ImageView {
    pub width: u32,
    pub height: u32,
    pub frames: Seq<Seq<Rgb>>,
}

/// An image of one or more frames, each a row-major vector of pixels.
#[derive(Debug, Clone)]
pub struct Image {
    width: u32,
    height: u32,
    buf: Vec<Vec<Rgb>>,
}

impl View for Image {
    type V = ImageView;

    closed spec fn view(&self) -> ImageView {
        ImageView {
            width: self.width,
            height: self.height,
            frames: Seq::new(self.buf@.len(), |f: int| self.buf@[f]@),
        }
    }
}

impl Image {
    /// Create an image of the given dimensions with every frame black.
    pub fn new(width: u32, height: u32, frames: usize) -> (img: Image)
        requires
            width as int * height as int <= u32::MAX as int,
        ensures
            img@.width == width,
            img@.height == height,
            img@.frames.len() == frames,
            forall|f: int|
                0 <= f < frames ==> (#[trigger] img@.frames[f]).len() == width as int
                    * height as int,
            forall|f: int, k: int|
                0 <= f < frames && 0 <= k < width as int * height as int
                    ==> (#[trigger] img@.frames[f][k])@ == seq![0u8, 0u8, 0u8],
    {
        let count: usize = (width * height) as usize;
        let mut buf: Vec<Vec<Rgb>> = Vec::new();
        let mut f: usize = 0;
        while f < frames
            invariant
                0 <= f <= frames,
                buf@.len() == f,
                forall|f2: int| 0 <= f2 < f ==> (#[trigger] buf@[f2])@.len() == count,
                forall|f2: int, k: int|
                    0 <= f2 < f && 0 <= k < count ==> (#[trigger] buf@[f2]@[k])@ == seq![
                        0u8,
                        0u8,
                        0u8,
                    ],
            decreases frames - f,
        {
            let mut frame: Vec<Rgb> = Vec::new();
            let mut k: usize = 0;
            while k < count
                invariant
                    0 <= k <= count,
                    frame@.len() == k,
                    forall|k2: int| 0 <= k2 < k ==> (#[trigger] frame@[k2])@ == seq![0u8, 0u8, 0u8],
                decreases count - k,
            {
                let px: Rgb = [0u8, 0u8, 0u8];
                proof {
                    assert(px@ =~= seq![0u8, 0u8, 0u8]);
                }
                frame.push(px);
                k += 1;
            }
            buf.push(frame);
            f += 1;
        }
        let img = Image { width, height, buf };
        proof {
            assert forall|f2: int| 0 <= f2 < frames implies (#[trigger] img@.frames[f2]).len()
                == width as int * height as int by {
                assert(img@.frames[f2] == img.buf@[f2]@);
            }
        }
        img
    }

    /// Wrap one already-decoded frame of pixels as a single-frame image.
    pub fn from_frame(width: u32, height: u32, pixels: Vec<Rgb>) -> (img: Image)
        ensures
            img@.width == width,
            img@.height == height,
            img@.frames =~= seq![pixels@],
    {
        let buf = vec![pixels];
        Image { width, height, buf }
    }

    /// The width in pixels.
    pub fn width(&self) -> (r: u32)
        ensures
            r == self@.width,
    {
        self.width
    }

    /// The height in pixels.
    pub fn height(&self) -> (r: u32)
        ensures
            r == self@.height,
    {
        self.height
    }

    /// How many frames the image holds.
    pub fn frame_count(&self) -> (r: usize)
        ensures
            r == self@.frames.len(),
    {
        self.buf.len()
    }

    /// How many pixels one frame holds.
    pub fn frame_len(&self, frame: usize) -> (r: usize)
        requires
            frame < self@.frames.len(),
        ensures
            r == self@.frames[frame as int].len(),
    {
        self.buf[frame].len()
    }

    /// The pixel at a flat index of one frame.
    pub fn pixel_at(&self, frame: usize, index: usize) -> (r: Rgb)
        requires
            frame < self@.frames.len(),
            index < self@.frames[frame as int].len(),
        ensures
            r == self@.frames[frame as int][index as int],
    {
        self.buf[frame][index]
    }

    /// Fill one frame from a per-pixel function, in parallel.  The pixel
    /// at flat index `k` gets the value of `op` at the coordinates
    /// `(coord_x(k, w), coord_y(k, w))`: the walk starts one step ahead of
    /// the origin and ends at `(0, height)`, and the caller accounts for
    /// that when it flips the row index.
    pub fn par_init_pixels<OP>(&mut self, frame: usize, op: OP) where
        OP: Fn(u32, u32) -> Rgb + Sync + Send,

        requires
            frame < old(self)@.frames.len(),
            old(self)@.width > 0,
            old(self)@.frames[frame as int].len() <= u32::MAX as int,
            forall|x: u32, y: u32| call_requires(op, (x, y)),
        ensures
            final(self)@.width == old(self)@.width,
            final(self)@.height == old(self)@.height,
            final(self)@.frames.len() == old(self)@.frames.len(),
            forall|f: int|
                0 <= f < old(self)@.frames.len() && f != frame ==> final(self)@.frames[f] == old(
                    self,
                )@.frames[f],
            final(self)@.frames[frame as int].len() == old(self)@.frames[frame as int].len(),
            forall|k: int|
                0 <= k < final(self)@.frames[frame as int].len() ==> call_ensures(
                    op,
                    (
                        coord_x(k, old(self)@.width as int) as u32,
                        coord_y(k, old(self)@.width as int) as u32,
                    ),
                    #[trigger] final(self)@.frames[frame as int][k],
                ),
    {
        let ghost prev = self@;
        let len: usize = self.buf[frame].len();
        let w: u32 = self.width;
        let mut coords: Vec<(u32, u32)> = Vec::new();
        let mut x: u32 = 0;
        let mut y: u32 = 0;
        let mut k: usize = 0;
        while k < len
            invariant
                0 < w,
                len <= u32::MAX,
                0 <= k <= len,
                coords@.len() == k,
                x as int == k as int % w as int,
                y as int == k as int / w as int,
                forall|k2: int|
                    0 <= k2 < k ==> #[trigger] coords@[k2] == (
                        coord_x(k2, w as int) as u32,
                        coord_y(k2, w as int) as u32,
                    ),
            decreases len - k,
        {
            proof {
                lemma_coord_step(k as int, w as int);
            }
            if x < w - 1 {
                x += 1;
            } else {
                proof {
                    lemma_div_le_self(k as int, w as int);
                }
                y += 1;
                x = 0;
            }
            coords.push((x, y));
            k += 1;
        }
        let results = par_map(&coords, op);
        self.buf.set(frame, results);
        proof {
            assert(final(self)@.frames =~= prev.frames.update(frame as int, final(self).buf@[frame as int]@));
        }
    }
}

/// The sum of channel `c` of the pixel at flat index `k` over all frames.
pub open spec fn channel_sum(frames: Seq<Seq<Rgb>>, k: int, c: int) -> int
    decreases frames.len(),
{
    if frames.len() == 0 {
        0
    } else {
        channel_sum(frames.drop_last(), k, c) + frames.last()[k]@[c]
    }
}

/// One more frame adds one more channel value to the sum.
proof fn lemma_channel_sum_step(frames: Seq<Seq<Rgb>>, f: int, k: int, c: int)
    requires
        0 <= f < frames.len(),
    ensures
        channel_sum(frames.take(f + 1), k, c) == channel_sum(frames.take(f), k, c)
            + frames[f][k]@[c],
{
    assert(frames.take(f + 1).drop_last() =~= frames.take(f));
    assert(frames.take(f + 1).last() == frames[f]);
}

/// A channel sum lies between zero and 255 per frame, since every
/// channel is a byte.
proof fn lemma_channel_sum_bound(frames: Seq<Seq<Rgb>>, k: int, c: int)
    ensures
        0 <= channel_sum(frames, k, c) <= 255 * frames.len(),
    decreases frames.len(),
{
    if frames.len() > 0 {
        lemma_channel_sum_bound(frames.drop_last(), k, c);
        let v: u8 = frames.last()[k]@[c];
        assert(0 <= v <= 255);
    }
}

impl Image {
    /// Average all frames, pixel by pixel and channel by channel, into the
    /// first frame, leaving the others as they were: a single-frame image
    /// is unchanged, and an animation becomes one motion-blurred still.
    pub fn average_frames(&mut self)
        requires
            old(self)@.frames.len() >= 1,
            255 * old(self)@.frames.len() <= u64::MAX as int,
            forall|f: int|
                0 <= f < old(self)@.frames.len() ==> (#[trigger] old(self)@.frames[f]).len() == old(
                    self,
                )@.frames[0].len(),
        ensures
            final(self)@.width == old(self)@.width,
            final(self)@.height == old(self)@.height,
            final(self)@.frames.len() == old(self)@.frames.len(),
            forall|f: int|
                1 <= f < old(self)@.frames.len() ==> final(self)@.frames[f] == old(
                    self,
                )@.frames[f],
            final(self)@.frames[0].len() == old(self)@.frames[0].len(),
            forall|k: int, c: int|
                0 <= k < old(self)@.frames[0].len() && 0 <= c < 3 ==> (
                #[trigger] final(self)@.frames[0][k]@[c]) == channel_sum(old(self)@.frames, k, c)
                    / old(self)@.frames.len() as int,
    {
        let ghost prev = self@;
        let frames_n: usize = self.buf.len();
        let len0: usize = self.buf[0].len();
        let mut sums: Vec<[u64; 3]> = Vec::new();
        let mut k: usize = 0;
        while k < len0
            invariant
                len0 == prev.frames[0].len(),
                prev == self@,
                prev.frames.len() >= 1,
                0 <= k <= len0,
                sums@.len() == k,
                forall|k2: int, c: int|
                    0 <= k2 < k && 0 <= c < 3 ==> (#[trigger] sums@[k2]@[c]) as int == channel_sum(
                        prev.frames.take(1),
                        k2,
                        c,
                    ),
            decreases len0 - k,
        {
            let p = self.buf[0][k];
            let s: [u64; 3] = [p[0] as u64, p[1] as u64, p[2] as u64];
            proof {
                assert(prev.frames.take(1).drop_last() =~= Seq::<Seq<Rgb>>::empty());
                assert(prev.frames.take(1).last() == prev.frames[0]);
                assert(p == prev.frames[0][k as int]);
                assert forall|c: int| 0 <= c < 3 implies s@[c] as int == channel_sum(
                    prev.frames.take(1),
                    k as int,
                    c,
                ) by {
                    assert(s@ =~= seq![p@[0] as u64, p@[1] as u64, p@[2] as u64]);
                    assert(channel_sum(prev.frames.take(1).drop_last(), k as int, c) == 0);
                    assert(channel_sum(prev.frames.take(1), k as int, c) == prev.frames[0][k as int]@[c]);
                }
            }
            sums.push(s);
            k += 1;
        }
        let mut f: usize = 1;
        while f < frames_n
            invariant
                frames_n == prev.frames.len(),
                len0 == prev.frames[0].len(),
                prev == self@,
                255 * prev.frames.len() <= u64::MAX as int,
                forall|f2: int|
                    0 <= f2 < prev.frames.len() ==> (#[trigger] prev.frames[f2]).len() == len0,
                1 <= f <= frames_n,
                sums@.len() == len0,
                forall|k2: int, c: int|
                    0 <= k2 < len0 && 0 <= c < 3 ==> (#[trigger] sums@[k2]@[c]) as int
                        == channel_sum(prev.frames.take(f as int), k2, c),
            decreases frames_n - f,
        {
            let mut k: usize = 0;
            while k < len0
                invariant
                    frames_n == prev.frames.len(),
                    len0 == prev.frames[0].len(),
                    prev == self@,
                    255 * prev.frames.len() <= u64::MAX as int,
                    forall|f2: int|
                        0 <= f2 < prev.frames.len() ==> (#[trigger] prev.frames[f2]).len() == len0,
                    1 <= f < frames_n,
                    0 <= k <= len0,
                    sums@.len() == len0,
                    forall|k2: int, c: int|
                        0 <= k2 < k && 0 <= c < 3 ==> (#[trigger] sums@[k2]@[c]) as int
                            == channel_sum(prev.frames.take(f + 1), k2, c),
                    forall|k2: int, c: int|
                        k <= k2 < len0 && 0 <= c < 3 ==> (#[trigger] sums@[k2]@[c]) as int
                            == channel_sum(prev.frames.take(f as int), k2, c),
                decreases len0 - k,
            {
                proof {
                    assert(self.buf@.len() == prev.frames.len());
                    assert(self.buf@[f as int]@ == prev.frames[f as int]);
                }
                let p = self.buf[f][k];
                let s = sums[k];
                proof {
                    assert(p == prev.frames[f as int][k as int]);
                    lemma_channel_sum_bound(prev.frames.take(f as int), k as int, 0);
                    lemma_channel_sum_bound(prev.frames.take(f as int), k as int, 1);
                    lemma_channel_sum_bound(prev.frames.take(f as int), k as int, 2);
                    assert(255 * prev.frames.take(f as int).len() <= 255 * (prev.frames.len() - 1))
                        by (nonlinear_arith)
                        requires
                            prev.frames.take(f as int).len() <= prev.frames.len() - 1,
                    ;
                    lemma_channel_sum_step(prev.frames, f as int, k as int, 0);
                    lemma_channel_sum_step(prev.frames, f as int, k as int, 1);
                    lemma_channel_sum_step(prev.frames, f as int, k as int, 2);
                }
                let s2: [u64; 3] = [s[0] + p[0] as u64, s[1] + p[1] as u64, s[2] + p[2] as u64];
                proof {
                    assert(s2@ =~= seq![
                        (s@[0] + p@[0]) as u64,
                        (s@[1] + p@[1]) as u64,
                        (s@[2] + p@[2]) as u64,
                    ]);
                }
                sums.set(k, s2);
                k += 1;
            }
            f += 1;
        }
        proof {
            assert(prev.frames.take(frames_n as int) =~= prev.frames);
        }
        let mut averaged: Vec<Rgb> = Vec::new();
        let mut k: usize = 0;
        while k < len0
            invariant
                frames_n == prev.frames.len(),
                len0 == prev.frames[0].len(),
                prev == self@,
                1 <= frames_n,
                255 * prev.frames.len() <= u64::MAX as int,
                forall|f2: int|
                    0 <= f2 < prev.frames.len() ==> (#[trigger] prev.frames[f2]).len() == len0,
                0 <= k <= len0,
                sums@.len() == len0,
                forall|k2: int, c: int|
                    0 <= k2 < len0 && 0 <= c < 3 ==> (#[trigger] sums@[k2]@[c]) as int
                        == channel_sum(prev.frames, k2, c),
                averaged@.len() == k,
                forall|k2: int, c: int|
                    0 <= k2 < k && 0 <= c < 3 ==> (#[trigger] averaged@[k2]@[c]) as int
                        == channel_sum(prev.frames, k2, c) / prev.frames.len() as int,
            decreases len0 - k,
        {
            let s = sums[k];
            let n64: u64 = frames_n as u64;
            proof {
                lemma_channel_sum_bound(prev.frames, k as int, 0);
                lemma_channel_sum_bound(prev.frames, k as int, 1);
                lemma_channel_sum_bound(prev.frames, k as int, 2);
                lemma_avg_fits(s@[0] as int, frames_n as int);
                lemma_avg_fits(s@[1] as int, frames_n as int);
                lemma_avg_fits(s@[2] as int, frames_n as int);
            }
            let px: Rgb = [(s[0] / n64) as u8, (s[1] / n64) as u8, (s[2] / n64) as u8];
            proof {
                assert(px@ =~= seq![(s@[0] / n64) as u8, (s@[1] / n64) as u8, (s@[2] / n64) as u8]);
            }
            averaged.push(px);
            k += 1;
        }
        self.buf.set(0, averaged);
        proof {
            assert(final(self)@.frames =~= prev.frames.update(0, final(self).buf@[0]@));
        }
    }
}

/// An average of byte values is a byte value.
proof fn lemma_avg_fits(s: int, n: int)
    requires
        n >= 1,
        0 <= s <= 255 * n,
    ensures
        0 <= s / n <= 255,
{
    vstd::arithmetic::div_mod::lemma_div_pos_is_pos(s, n);
    lemma_fundamental_div_mod(s, n);
    assert(s / n <= 255) by (nonlinear_arith)
        requires
            n >= 1,
            0 <= s <= 255 * n,
            s == n * (s / n) + s % n,
            0 <= s % n,
    ;
}

/// The pixel bytes of a frame: three channel bytes per pixel, in order.
pub open spec fn flat_bytes(frame: Seq<Rgb>) -> Seq<u8>
    decreases frame.len(),
{
    if frame.len() == 0 {
        Seq::empty()
    } else {
        flat_bytes(frame.drop_last()) + frame.last()@
    }
}

/// One more pixel adds its three channel bytes.
proof fn lemma_flat_bytes_step(frame: Seq<Rgb>, k: int)
    requires
        0 <= k < frame.len(),
    ensures
        flat_bytes(frame.take(k + 1)) == flat_bytes(frame.take(k)) + frame[k]@,
{
    assert(frame.take(k + 1).drop_last() =~= frame.take(k));
    assert(frame.take(k + 1).last() == frame[k]);
}

/// The channel bytes of one frame, gathered into a vector.
fn flatten_frame(frame: &Vec<Rgb>) -> (r: Vec<u8>)
    ensures
        r@ == flat_bytes(frame@),
{
    let mut out: Vec<u8> = Vec::new();
    let mut k: usize = 0;
    while k < frame.len()
        invariant
            0 <= k <= frame@.len(),
            out@ == flat_bytes(frame@.take(k as int)),
        decreases frame@.len() - k,
    {
        let p = frame[k];
        out.push(p[0]);
        out.push(p[1]);
        out.push(p[2]);
        proof {
            lemma_flat_bytes_step(frame@, k as int);
            assert(p@ =~= seq![p@[0], p@[1], p@[2]]);
            assert(out@ =~= flat_bytes(frame@.take(k + 1)));
        }
        k += 1;
    }
    proof {
        assert(frame@.take(frame@.len() as int) =~= frame@);
    }
    out
}

/// The binary PPM header: `P6`, the dimensions, and the channel maximum.
pub open spec fn ppm_header(w: int, h: int) -> Seq<u8> {
    ascii_bytes("P6 "@) + ascii_bytes(dec_str(w)) + ascii_bytes(" "@) + ascii_bytes(dec_str(h))
        + ascii_bytes(" 255\n"@)
}

impl Image {
    /// The image as binary PPM bytes: the header and the raw pixels of
    /// the first frame.
    pub fn ppm_bytes(&self) -> (r: Vec<u8>)
        requires
            self@.frames.len() >= 1,
        ensures
            r@ == ppm_header(self@.width as int, self@.height as int) + flat_bytes(
                self@.frames[0],
            ),
    {
        proof {
            reveal_strlit("P6 ");
            reveal_strlit(" ");
            reveal_strlit(" 255\n");
        }
        let mut out: Vec<u8> = Vec::new();
        out.push(80);  // 'P'
        out.push(54);  // '6'
        out.push(32);  // ' '
        proof {
            assert(out@ =~= ascii_bytes("P6 "@));
        }
        push_dec_bytes(&mut out, self.width as usize);
        out.push(32);  // ' '
        proof {
            assert(out@ =~= ascii_bytes("P6 "@) + ascii_bytes(dec_str(self@.width as int))
                + ascii_bytes(" "@));
        }
        push_dec_bytes(&mut out, self.height as usize);
        out.push(32);  // ' '
        out.push(50);  // '2'
        out.push(53);  // '5'
        out.push(53);  // '5'
        out.push(10);  // newline
        proof {
            assert(out@ =~= ppm_header(self@.width as int, self@.height as int));
        }
        let mut pixels = flatten_frame(&self.buf[0]);
        out.append(&mut pixels);
        out
    }
}

/// The PNG stream that encoding a frame of raw RGB bytes yields, for
/// given dimensions.  The encoder is deterministic, so this is a function
/// of its inputs; nothing shorter than the stream itself describes it.
pub uninterp spec fn png_stream_of(width: u32, height: u32, data: Seq<u8>) -> Seq<u8>;

/// The animated PNG stream that encoding a row of frames yields, with one
/// frame delay of `1/fps` seconds.
pub uninterp spec fn apng_stream_of(width: u32, height: u32, fps: u16, frames: Seq<Seq<u8>>) -> Seq<
    u8,
>;

/// What decoding a PNG stream yields: the width, the height, and the raw
/// bytes of the first frame, or nothing for a stream the decoder
/// refuses.  Under fixed decoder settings this too is a function of the
/// bytes alone.
pub uninterp spec fn png_image_of(data: Seq<u8>) -> Option<(u32, u32, Seq<u8>)>;

/// The stream decodes, and its raw bytes are whole 8-bit RGB pixels.
pub open spec fn decodes_to_pixels(data: Seq<u8>) -> bool {
    match png_image_of(data) {
        Option::Some(t) => t.2.len() % 3 == 0,
        Option::None => false,
    }
}

#[verifier::external_type_specification]
#[verifier::external_body]
pub struct ExSourceChromaticities(png::SourceChromaticities);

/// Relies on png's `ScaledFloat::from_scaled`: the sRGB chromaticity
/// constants, each scaled by 100000 as the PNG `cHRM` chunk stores them.
#[verifier::external_body]
fn srgb_chromaticities() -> png::SourceChromaticities {
    png::SourceChromaticities {
        white: (png::ScaledFloat::from_scaled(31270), png::ScaledFloat::from_scaled(32900)),
        red: (png::ScaledFloat::from_scaled(64000), png::ScaledFloat::from_scaled(33000)),
        green: (png::ScaledFloat::from_scaled(30000), png::ScaledFloat::from_scaled(60000)),
        blue: (png::ScaledFloat::from_scaled(15000), png::ScaledFloat::from_scaled(6000)),
    }
}

/// Relies on png's `Encoder` writing into a byte buffer: an 8-bit RGB
/// still image with gamma 1/2.2 and sRGB chromaticities, a deterministic
/// function of the dimensions and the data; `Ok` holds that stream
/// alone.  Writing into a plain byte buffer, the encoder rejects only a
/// zero dimension or a data length other than three bytes per pixel, so
/// on all other inputs it succeeds.
#[verifier::external_body]
fn encode_png(width: u32, height: u32, data: &Vec<u8>) -> (r: Result<Vec<u8>, String>)
    ensures
        r matches Result::Ok(b) ==> b@ == png_stream_of(width, height, data@),
        width > 0 && height > 0 && data@.len() == 3 * width * height ==> r is Ok,
{
    let mut out: Vec<u8> = Vec::new();
    let mut enc = png::Encoder::new(&mut out, width, height);
    enc.set_color(png::ColorType::Rgb);
    enc.set_depth(png::BitDepth::Eight);
    enc.set_source_gamma(png::ScaledFloat::from_scaled(45455));
    enc.set_source_chromaticities(srgb_chromaticities());
    let mut writer = enc.write_header().map_err(|e| e.to_string())?;
    writer.write_image_data(data).map_err(|e| e.to_string())?;
    writer.finish().map_err(|e| e.to_string())?;
    Ok(out)
}

/// Relies on png's `Encoder` in animated mode, one `write_image_data` per
/// frame: an animated PNG of all frames at the given rate, played
/// endlessly, a deterministic function of its inputs; `Ok` holds that
/// stream alone.  Writing into a plain byte buffer, the encoder rejects
/// only a zero dimension, a zero frame count, or a frame whose length is
/// not three bytes per pixel, so on all other inputs it succeeds.
#[verifier::external_body]
fn encode_apng(width: u32, height: u32, fps: u16, frames: &Vec<Vec<u8>>) -> (r: Result<
    Vec<u8>,
    String,
>)
    ensures
        r matches Result::Ok(b) ==> b@ == apng_stream_of(width, height, fps, frames.deep_view()),
        width > 0 && height > 0 && 1 <= frames@.len() <= u32::MAX && (forall|f: int|
            0 <= f < frames@.len() ==> (#[trigger] frames.deep_view()[f]).len() == 3 * width
                * height) ==> r is Ok,
{
    let text = |e: png::EncodingError| e.to_string();
    let mut out: Vec<u8> = Vec::new();
    let mut enc = png::Encoder::new(&mut out, width, height);
    enc.set_color(png::ColorType::Rgb);
    enc.set_depth(png::BitDepth::Eight);
    enc.set_source_gamma(png::ScaledFloat::from_scaled(45455));
    enc.set_source_chromaticities(srgb_chromaticities());
    enc.set_animated(frames.len() as u32, 0).map_err(text)?;
    enc.set_frame_delay(1, fps).map_err(text)?;
    let mut writer = enc.write_header().map_err(text)?;
    for frame in frames {
        writer.write_image_data(frame).map_err(text)?;
    }
    writer.finish().map_err(text)?;
    Ok(out)
}

/// Relies on png's `Decoder` over a byte slice: reads back the header
/// dimensions and the raw bytes of the first frame.  With fixed default
/// settings the whole outcome, acceptance included, is a function of the
/// stream alone.
#[verifier::external_body]
fn decode_png_raw(data: &Vec<u8>) -> (r: Result<(u32, u32, Vec<u8>), String>)
    ensures
        r is Ok <==> png_image_of(data@) is Some,
        r matches Result::Ok(d) ==> png_image_of(data@) == Option::Some((d.0, d.1, d.2@)),
{
    let decoder = png::Decoder::new(std::io::Cursor::new(data.as_slice()));
    let mut reader = decoder.read_info().map_err(|e| e.to_string())?;
    let size = match reader.output_buffer_size() {
        Some(s) => s,
        None => return Err("image too large".to_string()),
    };
    let mut buf = vec![0u8; size];
    let info = reader.next_frame(&mut buf).map_err(|e| e.to_string())?;
    buf.truncate(info.buffer_size());
    Ok((info.width, info.height, buf))
}

/// Cut raw channel bytes into pixels of three.
fn chunk_pixels(bytes: &Vec<u8>) -> (r: Vec<Rgb>)
    requires
        bytes@.len() % 3 == 0,
    ensures
        r@.len() == bytes@.len() / 3,
        forall|k: int|
            0 <= k < r@.len() ==> (#[trigger] r@[k])@ == seq![
                bytes@[3 * k],
                bytes@[3 * k + 1],
                bytes@[3 * k + 2],
            ],
{
    let n: usize = bytes.len();
    let total: usize = n / 3;
    proof {
        lemma_fundamental_div_mod(n as int, 3);
    }
    let mut out: Vec<Rgb> = Vec::new();
    let mut k: usize = 0;
    while k < total
        invariant
            n == bytes@.len(),
            3 * total == n,
            0 <= k <= total,
            out@.len() == k,
            forall|k2: int|
                0 <= k2 < k ==> (#[trigger] out@[k2])@ == seq![
                    bytes@[3 * k2],
                    bytes@[3 * k2 + 1],
                    bytes@[3 * k2 + 2],
                ],
        decreases total - k,
    {
        let p: Rgb = [bytes[3 * k], bytes[3 * k + 1], bytes[3 * k + 2]];
        proof {
            assert(p@ =~= seq![bytes@[3 * (k as int)], bytes@[3 * (k as int) + 1], bytes@[3 * (
            k as int) + 2]]);
        }
        out.push(p);
        k += 1;
    }
    out
}

/// A frame's byte row holds three bytes per pixel.
proof fn lemma_flat_bytes_len(frame: Seq<Rgb>)
    ensures
        flat_bytes(frame).len() == 3 * frame.len(),
    decreases frame.len(),
{
    if frame.len() > 0 {
        lemma_flat_bytes_len(frame.drop_last());
        assert(frame.last()@.len() == 3);
    }
}

impl Image {
    /// The first frame encoded as PNG bytes; an image of positive
    /// dimensions whose first frame fills them is always encoded.
    pub fn png_bytes(&self) -> (r: Result<Vec<u8>, String>)
        requires
            self@.frames.len() >= 1,
        ensures
            r matches Result::Ok(b) ==> b@ == png_stream_of(
                self@.width,
                self@.height,
                flat_bytes(self@.frames[0]),
            ),
            self@.width > 0 && self@.height > 0 && self@.frames[0].len() == self@.width as int
                * self@.height as int ==> r is Ok,
    {
        proof {
            lemma_flat_bytes_len(self@.frames[0]);
            assert(self.buf@[0]@ == self@.frames[0]);
            assert(3 * (self@.width as int * self@.height as int) == 3 * self@.width
                * self@.height) by (nonlinear_arith);
        }
        let data = flatten_frame(&self.buf[0]);
        encode_png(self.width, self.height, &data)
    }

    /// All frames encoded as animated PNG bytes at the given frame rate;
    /// an image of positive dimensions with at least one frame, all of
    /// them filling the dimensions, is always encoded.
    pub fn apng_bytes(&self, fps: u16) -> (r: Result<Vec<u8>, String>)
        ensures
            r matches Result::Ok(b) ==> b@ == apng_stream_of(
                self@.width,
                self@.height,
                fps,
                Seq::new(self@.frames.len(), |f: int| flat_bytes(self@.frames[f])),
            ),
            self@.width > 0 && self@.height > 0 && 1 <= self@.frames.len() <= u32::MAX && (
            forall|f: int|
                0 <= f < self@.frames.len() ==> (#[trigger] self@.frames[f]).len()
                    == self@.width as int * self@.height as int) ==> r is Ok,
    {
        let mut flat: Vec<Vec<u8>> = Vec::new();
        let mut f: usize = 0;
        while f < self.buf.len()
            invariant
                self@.frames.len() == self.buf@.len(),
                0 <= f <= self.buf@.len(),
                flat@.len() == f,
                forall|f2: int|
                    0 <= f2 < f ==> (#[trigger] flat@[f2])@ == flat_bytes(self@.frames[f2]),
            decreases self.buf@.len() - f,
        {
            proof {
                assert(self.buf@[f as int]@ == self@.frames[f as int]);
            }
            let row = flatten_frame(&self.buf[f]);
            flat.push(row);
            f += 1;
        }
        proof {
            assert forall|f2: int| 0 <= f2 < flat@.len() implies (#[trigger] flat.deep_view()[f2])
                =~= flat_bytes(self@.frames[f2]) by {
                assert(flat.deep_view()[f2] =~= flat@[f2]@);
            }
        }
        let r = encode_apng(self.width, self.height, fps, &flat);
        proof {
            assert(flat.deep_view() =~~= Seq::new(
                self@.frames.len(),
                |f2: int| flat_bytes(self@.frames[f2]),
            ));
            if self@.width > 0 && self@.height > 0 && 1 <= self@.frames.len() <= u32::MAX && (
            forall|f2: int|
                0 <= f2 < self@.frames.len() ==> (#[trigger] self@.frames[f2]).len()
                    == self@.width as int * self@.height as int) {
                assert forall|f2: int| 0 <= f2 < flat@.len() implies (
                #[trigger] flat.deep_view()[f2]).len() == 3 * self@.width * self@.height by {
                    assert(self@.frames[f2].len() == self@.width as int * self@.height as int);
                    lemma_flat_bytes_len(self@.frames[f2]);
                    assert(flat.deep_view()[f2] =~= flat_bytes(self@.frames[f2]));
                    assert(3 * (self@.width as int * self@.height as int) == 3 * self@.width
                        * self@.height) by (nonlinear_arith);
                }
                assert(r is Ok);
            }
        }
        r
    }

    /// Decode a PNG stream into a single-frame image.  This succeeds
    /// exactly when the decoder accepts the stream and its raw bytes are
    /// whole RGB pixels; the latter rejection carries its own message.
    pub fn decode_png(data: &Vec<u8>) -> (r: Result<Image, String>)
        ensures
            r is Ok <==> decodes_to_pixels(data@),
            r matches Result::Ok(img) ==> {
                let t = png_image_of(data@).unwrap();
                &&& img@.width == t.0
                &&& img@.height == t.1
                &&& img@.frames.len() == 1
                &&& img@.frames[0].len() == t.2.len() / 3
                &&& forall|k: int|
                    0 <= k < img@.frames[0].len() ==> (#[trigger] img@.frames[0][k])@ == seq![
                        t.2[3 * k],
                        t.2[3 * k + 1],
                        t.2[3 * k + 2],
                    ]
            },
            (png_image_of(data@) matches Option::Some(t) && t.2.len() % 3 != 0) ==> (r
                matches Result::Err(m) && m@ == "image data is not whole 8-bit RGB pixels"@),
    {
        let decoded = match decode_png_raw(data) {
            Result::Ok(d) => d,
            Result::Err(m) => {
                return Result::Err(m);
            },
        };
        let (w, h, raw) = decoded;
        if raw.len() % 3 != 0 {
            return Result::Err(String::from_str("image data is not whole 8-bit RGB pixels"));
        }
        let pixels = chunk_pixels(&raw);
        Result::Ok(Image::from_frame(w, h, pixels))
    }
}

/// The x coordinate that the pixel at flat index `k` is traced at.
pub open spec fn coord_x(k: int, w: int) -> int {
    (k + 1) % w
}

/// The y coordinate that the pixel at flat index `k` is traced at.
pub open spec fn coord_y(k: int, w: int) -> int {
    (k + 1) / w
}

/// How one more step moves the coordinate walk.
proof fn lemma_coord_step(k: int, w: int)
    requires
        w > 0,
        k >= 0,
    ensures
        k % w < w - 1 ==> (k + 1) % w == k % w + 1 && (k + 1) / w == k / w,
        k % w == w - 1 ==> (k + 1) % w == 0 && (k + 1) / w == k / w + 1,
{
    lemma_fundamental_div_mod(k, w);
    if k % w < w - 1 {
        assert(k + 1 == (k / w) * w + (k % w + 1)) by (nonlinear_arith)
            requires
                k == w * (k / w) + k % w,
        ;
        lemma_fundamental_div_mod_converse(k + 1, w, k / w, k % w + 1);
    } else {
        assert(k + 1 == (k / w + 1) * w + 0) by (nonlinear_arith)
            requires
                k == w * (k / w) + k % w,
                k % w == w - 1,
        ;
        lemma_fundamental_div_mod_converse(k + 1, w, k / w + 1, 0);
    }
}

/// Dividing a nonnegative number by a positive one does not enlarge it.
proof fn lemma_div_le_self(k: int, w: int)
    requires
        w > 0,
        k >= 0,
    ensures
        k / w <= k,
{
    lemma_fundamental_div_mod(k, w);
    assert(k / w <= k) by (nonlinear_arith)
        requires
            w > 0,
            k >= 0,
            k == w * (k / w) + k % w,
            0 <= k % w,
            k / w >= 0,
    ;
    assert(k / w >= 0) by {
        vstd::arithmetic::div_mod::lemma_div_pos_is_pos(k, w);
    }
}

/// Relies on rayon's `par_iter().map(..).collect()` over a vector: the
/// result gathers, in order, one application of `op` to each coordinate
/// pair of `coords`.
#[verifier::external_body]
fn par_map<OP>(coords: &Vec<(u32, u32)>, op: OP) -> (r: Vec<Rgb>) where
    OP: Fn(u32, u32) -> Rgb + Sync + Send,

    requires
        forall|k: int| 0 <= k < coords@.len() ==> call_requires(op, (coords@[k].0, coords@[k].1)),
    ensures
        r@.len() == coords@.len(),
        forall|k: int|
            0 <= k < coords@.len() ==> call_ensures(op, (coords@[k].0, coords@[k].1), #[trigger] r@[k]),
{
    coords.par_iter().map(|c| op(c.0, c.1)).collect()
}

/// Pixel independence: a per-pixel function that allows only one result
/// for each coordinate pair determines the filled frame completely, so
/// any scheduling or permutation of the pixels produces the same frame.
pub proof fn lemma_pixel_independence<OP: Fn(u32, u32) -> Rgb>(
    op: OP,
    w: int,
    b1: Seq<Rgb>,
    b2: Seq<Rgb>,
)
    requires
        b1.len() == b2.len(),
        forall|k: int|
            0 <= k < b1.len() ==> call_ensures(
                op,
                (coord_x(k, w) as u32, coord_y(k, w) as u32),
                #[trigger] b1[k],
            ),
        forall|k: int|
            0 <= k < b2.len() ==> call_ensures(
                op,
                (coord_x(k, w) as u32, coord_y(k, w) as u32),
                #[trigger] b2[k],
            ),
        forall|x: u32, y: u32, r1: Rgb, r2: Rgb|
            call_ensures(op, (x, y), r1) && call_ensures(op, (x, y), r2) ==> r1 == r2,
    ensures
        b1 == b2,
{
    assert forall|k: int| 0 <= k < b1.len() implies b1[k] == b2[k] by {
        assert(call_ensures(op, (coord_x(k, w) as u32, coord_y(k, w) as u32), b1[k]));
        assert(call_ensures(op, (coord_x(k, w) as u32, coord_y(k, w) as u32), b2[k]));
    }
    assert(b1 =~= b2);
}

} // verus!
