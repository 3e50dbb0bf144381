//! A rectangular canvas of colors, addressed from its center.
use vstd::prelude::*;
use crate::color::{Color, channel_u8};

verus! {

/// A rectangular canvas of RGB color values, stored row by row from the top.
pub struct Canvas {
    pub width: usize,
    pub height: usize,
    pub pixels: Vec<Color>,
}

/// `(x, y)` lies on a `w` by `h` canvas: `x` in `[-w/2, w/2)`, `y` in `[-h/2, h/2)`.
pub open spec fn in_bounds(w: int, h: int, x: int, y: int) -> bool {
    -(w / 2) <= x < w / 2 && -(h / 2) <= y < h / 2
}

/// Where pixel `(x, y)` is stored: row `h/2 - 1 - y` from the top, column `w/2 + x`.
pub open spec fn index_of(w: int, h: int, x: int, y: int) -> int {
    (h / 2 - 1 - y) * w + (w / 2 + x)
}

/// The `x` coordinate of the pixel stored at index `i`.
pub open spec fn x_of(w: int, i: int) -> int {
    i % w - w / 2
}

/// The `y` coordinate of the pixel stored at index `i`.
pub open spec fn y_of(w: int, h: int, i: int) -> int {
    h / 2 - 1 - i / w
}

/// A pixel on the canvas is stored at an index whose coordinates are its own, and no other
/// index has them.
pub proof fn lemma_index_of(w: int, h: int, x: int, y: int)
    requires
        w > 0,
        h > 0,
        in_bounds(w, h, x, y),
    ensures
        0 <= index_of(w, h, x, y) < w * h,
        x_of(w, index_of(w, h, x, y)) == x,
        y_of(w, h, index_of(w, h, x, y)) == y,
        forall|i: int| 0 <= i && x_of(w, i) == x && y_of(w, h, i) == y ==> i == index_of(w, h, x, y),
{
    let row = h / 2 - 1 - y;
    let col = w / 2 + x;
    assert(0 <= row < h);
    assert(0 <= col < w);
    assert(0 <= row * w + col < w * h) by (nonlinear_arith)
        requires
            0 <= row < h,
            0 <= col < w,
    ;
    vstd::arithmetic::div_mod::lemma_fundamental_div_mod_converse(row * w + col, w, row, col);
    assert forall|i: int| 0 <= i && x_of(w, i) == x && y_of(w, h, i) == y implies i == index_of(w, h, x, y) by {
        vstd::arithmetic::div_mod::lemma_fundamental_div_mod(i, w);
        assert(i / w == row);
        assert(i % w == col);
        assert(i == w * row + col);
        assert(w * row == row * w) by (nonlinear_arith);
    }
}

/// The decimal digits of `n`, in ASCII.
pub open spec fn decimal(n: nat) -> Seq<u8>
    decreases n,
{
    if n < 10 {
        seq![(48 + n) as u8]
    } else {
        decimal(n / 10).push((48 + n % 10) as u8)
    }
}

/// The header of a binary PPM image: `P6`, the width and height, and the largest channel value.
pub open spec fn ppm_header(w: nat, h: nat) -> Seq<u8> {
    seq![80u8, 54u8, 10u8] + decimal(w) + seq![32u8] + decimal(h) + seq![10u8, 50u8, 53u8, 53u8, 10u8]
}

/// Three bytes per pixel, red, green and blue, in the order of `px`.
pub open spec fn pixel_bytes(px: Seq<Color>) -> Seq<u8>
    decreases px.len(),
{
    if px.len() == 0 {
        seq![]
    } else {
        let c = px.last();
        pixel_bytes(px.drop_last()) + seq![
            channel_u8(c.0 as int) as u8,
            channel_u8(c.1 as int) as u8,
            channel_u8(c.2 as int) as u8,
        ]
    }
}

fn push_decimal(out: &mut Vec<u8>, n: usize)
    ensures
        final(out)@ == old(out)@ + decimal(n as nat),
    decreases n,
{
    if n >= 10 {
        push_decimal(out, n / 10);
    }
    out.push((48 + n % 10) as u8);
}

impl Canvas {
    pub open spec fn wf(&self) -> bool {
        &&& self.pixels@.len() == self.width * self.height
        &&& forall|i: int| 0 <= i < self.pixels@.len() ==> (#[trigger] self.pixels@[i]).wf()
    }

    /// Returns a new canvas with all color values zero (black).
    pub fn new(width: usize, height: usize) -> (r: Canvas)
        requires
            width * height <= usize::MAX,
        ensures
            r.wf(),
            r.width == width,
            r.height == height,
            forall|i: int| 0 <= i < r.pixels@.len() ==> r.pixels@[i] == Color(0, 0, 0),
    {
        let n = width * height;
        let mut pixels: Vec<Color> = Vec::new();
        while pixels.len() < n
            invariant
                pixels@.len() <= n,
                forall|i: int| 0 <= i < pixels@.len() ==> pixels@[i] == Color(0, 0, 0),
            decreases n - pixels@.len(),
        {
            pixels.push(Color::black());
        }
        Canvas { width, height, pixels }
    }

    /// The image in binary PPM format: the header, then each pixel's channels as bytes, row by
    /// row from the top.
    pub fn to_ppm(&self) -> (r: Vec<u8>)
        ensures
            r@ == ppm_header(self.width as nat, self.height as nat) + pixel_bytes(self.pixels@),
    {
        let mut out: Vec<u8> = Vec::new();
        out.push(80);
        out.push(54);
        out.push(10);
        push_decimal(&mut out, self.width);
        out.push(32);
        push_decimal(&mut out, self.height);
        out.push(10);
        out.push(50);
        out.push(53);
        out.push(53);
        out.push(10);
        let ghost header = out@;
        assert(header =~= ppm_header(self.width as nat, self.height as nat));
        let mut k: usize = 0;
        while k < self.pixels.len()
            invariant
                k <= self.pixels@.len(),
                out@ == header + pixel_bytes(self.pixels@.subrange(0, k as int)),
            decreases self.pixels@.len() - k,
        {
            let c = self.pixels[k];
            let (r, g, b) = c.to_u8();
            out.push(r);
            out.push(g);
            out.push(b);
            assert(self.pixels@.subrange(0, k + 1).drop_last() == self.pixels@.subrange(0, k as int));
            assert(out@ =~= header + pixel_bytes(self.pixels@.subrange(0, k + 1)));
            k += 1;
        }
        assert(self.pixels@.subrange(0, k as int) == self.pixels@);
        out
    }

    /// Sets the color of a pixel.
    ///
    /// `y` goes from the bottom of the image at `-height/2` to the top at `height/2 - 1`, and
    /// `x` from the left at `-width/2` to the right at `width/2 - 1`. A pixel outside these
    /// bounds is ignored.
    pub fn put_pixel(&mut self, x: i32, y: i32, color: Color)
        requires
            old(self).wf(),
            color.wf(),
        ensures
            final(self).wf(),
            final(self).width == old(self).width,
            final(self).height == old(self).height,
            in_bounds(old(self).width as int, old(self).height as int, x as int, y as int)
                ==> final(self).pixels@ == old(self).pixels@.update(
                index_of(old(self).width as int, old(self).height as int, x as int, y as int),
                color,
            ),
            !in_bounds(old(self).width as int, old(self).height as int, x as int, y as int)
                ==> final(self).pixels@ == old(self).pixels@,
    {
        let w2 = (self.width / 2) as i128;
        let h2 = (self.height / 2) as i128;
        let x = x as i128;
        let y = y as i128;
        if x < -w2 || x >= w2 || y < -h2 || y >= h2 {
            return;
        }
        proof {
            lemma_index_of(self.width as int, self.height as int, x as int, y as int);
        }
        let col = (w2 + x) as usize;
        let row = (h2 - 1 - y) as usize;
        let n = self.pixels.len();
        proof {
            assert(row * self.width + col < self.width * self.height);
            assert(row * self.width <= self.width * self.height) by (nonlinear_arith)
                requires
                    row * self.width + col < self.width * self.height,
                    col >= 0,
            ;
        }
        self.pixels.set(row * self.width + col, color);
    }
}

} // verus!
