//! Plain-text PPM output.

use vstd::prelude::*;
use crate::image::Image;
use crate::rgb::RGB;
use crate::vec3::SCALE;

verus! {

/// Decimal digits of `n`, most significant first, as ASCII.
pub open spec fn decimal(n: nat) -> Seq<u8>
    decreases n,
{
    if n < 10 {
        seq![(48 + n) as u8]
    } else {
        decimal(n / 10).push((48 + n % 10) as u8)
    }
}

/// A channel in `[0, SCALE]` brought to `[0, 255]`, rounded down.
pub open spec fn byte_of(c: int) -> nat {
    (255 * c / SCALE as int) as nat
}

/// One pixel's line: `"R G B\n"`.
pub open spec fn pixel_line(p: RGB) -> Seq<u8> {
    decimal(byte_of(p.r as int)) + seq![32u8] + decimal(byte_of(p.g as int)) + seq![32u8]
        + decimal(byte_of(p.b as int)) + seq![10u8]
}

/// The lines of the pixels, in order.
pub open spec fn ppm_body(pixels: Seq<RGB>) -> Seq<u8>
    decreases pixels.len(),
{
    if pixels.len() == 0 {
        Seq::empty()
    } else {
        ppm_body(pixels.drop_last()) + pixel_line(pixels.last())
    }
}

/// The plain-text PPM file of an image: the magic line, its width and height, `255`, then
/// one line per pixel, row by row from the top left.
pub open spec fn ppm_spec(img: &Image) -> Seq<u8> {
    seq![80u8, 51u8, 10u8] + decimal(img.resolution.width as nat) + seq![32u8] + decimal(
        img.resolution.height as nat,
    ) + seq![10u8, 50u8, 53u8, 53u8, 10u8] + ppm_body(img.content@)
}

/// Appends the decimal digits of `n`.
pub fn push_decimal(out: &mut Vec<u8>, n: u64)
    ensures
        final(out)@ == old(out)@ + decimal(n as nat),
    decreases n,
{
    if n < 10 {
        out.push((48 + n) as u8);
        assert(final(out)@ =~= old(out)@ + decimal(n as nat));
    } else {
        push_decimal(out, n / 10);
        out.push((48 + n % 10) as u8);
        assert(final(out)@ =~= old(out)@ + decimal(n as nat));
    }
}

/// Something that can be written as a plain-text PPM file.
pub trait SavableToPPM {
    /// The value is in a state to be written.
    spec fn savable(&self) -> bool;

    /// The bytes that the file holds.
    spec fn ppm_bytes(&self) -> Seq<u8>;

    /// The file's bytes.
    fn to_ppm(&self) -> (r: Vec<u8>)
        requires
            self.savable(),
        ensures
            r@ == self.ppm_bytes(),
    ;
}

impl Image {
    /// The image as a plain-text PPM file.
    pub fn ppm_text(&self) -> (r: Vec<u8>)
        requires
            self.wf(),
        ensures
            r@ == ppm_spec(self),
    {
        let mut out: Vec<u8> = Vec::new();
        out.push(80u8);
        out.push(51u8);
        out.push(10u8);
        push_decimal(&mut out, self.resolution.width as u64);
        out.push(32u8);
        push_decimal(&mut out, self.resolution.height as u64);
        out.push(10u8);
        out.push(50u8);
        out.push(53u8);
        out.push(53u8);
        out.push(10u8);
        let ghost header = out@;
        assert(header =~= seq![80u8, 51u8, 10u8] + decimal(self.resolution.width as nat) + seq![32u8]
            + decimal(self.resolution.height as nat) + seq![10u8, 50u8, 53u8, 53u8, 10u8]);
        let mut i: usize = 0;
        while i < self.content.len()
            invariant
                self.wf(),
                i <= self.content.len(),
                out@ == header + ppm_body(self.content@.subrange(0, i as int)),
            decreases self.content.len() - i,
        {
            let p = self.content[i];
            assert(p.wf());
            let before = out.len();
            push_decimal(&mut out, (255 * p.r / SCALE) as u64);
            out.push(32u8);
            push_decimal(&mut out, (255 * p.g / SCALE) as u64);
            out.push(32u8);
            push_decimal(&mut out, (255 * p.b / SCALE) as u64);
            out.push(10u8);
            proof {
                let s = self.content@.subrange(0, i as int + 1);
                assert(s.drop_last() =~= self.content@.subrange(0, i as int));
                assert(s.last() == p);
                assert(out@ =~= header + ppm_body(s));
            }
            i = i + 1;
        }
        assert(self.content@.subrange(0, self.content.len() as int) =~= self.content@);
        out
    }
}

impl SavableToPPM for Image {
    open spec fn savable(&self) -> bool {
        self.wf()
    }

    open spec fn ppm_bytes(&self) -> Seq<u8> {
        ppm_spec(self)
    }

    fn to_ppm(&self) -> (r: Vec<u8>) {
        self.ppm_text()
    }
}

} // verus!
