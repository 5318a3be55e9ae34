//! Pixel formats: the four channel layouts, the byte codec of each, and
//! the total conversion matrix between them.

use vstd::prelude::*;

verus! {

/// A single-channel pixel: luminance only.
#[derive(Clone, Copy, Debug, PartialEq, Eq, Structural)]
pub struct Gray {
    pub gray: u8,
}

/// A three-channel pixel: red, green, blue.
#[derive(Clone, Copy, Debug, PartialEq, Eq, Structural)]
pub struct RGB {
    pub red: u8,
    pub green: u8,
    pub blue: u8,
}

/// A two-channel pixel: luminance and alpha.
#[derive(Clone, Copy, Debug, PartialEq, Eq, Structural)]
pub struct GrayA {
    pub gray: u8,
    pub alpha: u8,
}

/// A four-channel pixel: red, green, blue, alpha.
#[derive(Clone, Copy, Debug, PartialEq, Eq, Structural)]
pub struct RGBA {
    pub red: u8,
    pub green: u8,
    pub blue: u8,
    pub alpha: u8,
}

/// Luminance of an RGB triple: 0.3 R + 0.59 G + 0.11 B, computed exactly
/// over the rationals and truncated by discarding the fractional part.
pub open spec fn luminance(r: int, g: int, b: int) -> int {
    (30 * r + 59 * g + 11 * b) / 100
}

/// The weights of `luminance` sum to 1, so channel values in `0..=255`
/// yield a luminance in `0..=255`.
pub proof fn lemma_luminance_bounds(r: int, g: int, b: int)
    requires
        0 <= r <= 255,
        0 <= g <= 255,
        0 <= b <= 255,
    ensures
        0 <= luminance(r, g, b) <= 255,
{
    assert(30 * r + 59 * g + 11 * b <= 25500) by (nonlinear_arith)
        requires
            r <= 255,
            g <= 255,
            b <= 255,
    ;
    assert(30 * r + 59 * g + 11 * b >= 0) by (nonlinear_arith)
        requires
            0 <= r,
            0 <= g,
            0 <= b,
    ;
}

/// Truncating luminance on 8-bit channels.
pub fn rgb_to_gray(r: u8, g: u8, b: u8) -> (l: u8)
    ensures
        l == luminance(r as int, g as int, b as int),
{
    proof {
        lemma_luminance_bounds(r as int, g as int, b as int);
    }
    let sum: u32 = 30 * (r as u32) + 59 * (g as u32) + 11 * (b as u32);
    (sum / 100) as u8
}

/// A pixel value of one fixed format: a fixed channel count, and a byte
/// codec that is a bijection between pixel values and byte runs of
/// exactly that width.
pub trait Pixel: Sized + Copy {
    /// Number of channels, each one byte wide, in one pixel.
    spec fn channels() -> int;

    /// The byte run a pixel value serializes to, channels in layout order.
    spec fn enc(self) -> Seq<u8>;

    /// The pixel value a byte run of width `channels()` deserializes to.
    spec fn dec(bytes: Seq<u8>) -> Self;

    proof fn lemma_channels()
        ensures
            1 <= Self::channels() <= 4,
    ;

    proof fn lemma_enc_len(self)
        ensures
            self.enc().len() == Self::channels(),
    ;

    /// Decoding inverts encoding: the codec loses nothing.
    proof fn lemma_dec_of_enc(self)
        ensures
            Self::dec(self.enc()) == self,
    ;

    /// Encoding inverts decoding on byte runs of the right width: the
    /// codec is a bijection, with no padding and no spare bits.
    proof fn lemma_enc_of_dec(bytes: Seq<u8>)
        requires
            bytes.len() == Self::channels(),
        ensures
            Self::dec(bytes).enc() == bytes,
    ;

    /// Executable channel count.
    fn num_channels() -> (n: usize)
        ensures
            n as int == Self::channels(),
    ;

    fn into_vec(self) -> (v: Vec<u8>)
        ensures
            v@ == self.enc(),
    ;

    fn from_slice(bytes: &[u8], idx: usize) -> (p: Self)
        requires
            idx + Self::channels() <= bytes@.len(),
        ensures
            p == Self::dec(bytes@.subrange(idx as int, idx + Self::channels())),
    ;
}

impl Pixel for Gray {
    open spec fn channels() -> int {
        1
    }

    open spec fn enc(self) -> Seq<u8> {
        seq![self.gray]
    }

    open spec fn dec(bytes: Seq<u8>) -> Self {
        Gray { gray: bytes[0] }
    }

    proof fn lemma_channels() {
    }

    proof fn lemma_enc_len(self) {
    }

    proof fn lemma_dec_of_enc(self) {
    }

    proof fn lemma_enc_of_dec(bytes: Seq<u8>) {
        assert(Self::dec(bytes).enc() =~= bytes);
    }

    fn num_channels() -> usize {
        1
    }

    fn into_vec(self) -> (v: Vec<u8>) {
        let mut v: Vec<u8> = Vec::new();
        v.push(self.gray);
        proof {
            assert(v@ =~= self.enc());
        }
        v
    }

    fn from_slice(bytes: &[u8], idx: usize) -> (p: Self) {
        Gray { gray: bytes[idx] }
    }
}

impl Pixel for GrayA {
    open spec fn channels() -> int {
        2
    }

    open spec fn enc(self) -> Seq<u8> {
        seq![self.gray, self.alpha]
    }

    open spec fn dec(bytes: Seq<u8>) -> Self {
        GrayA { gray: bytes[0], alpha: bytes[1] }
    }

    proof fn lemma_channels() {
    }

    proof fn lemma_enc_len(self) {
    }

    proof fn lemma_dec_of_enc(self) {
    }

    proof fn lemma_enc_of_dec(bytes: Seq<u8>) {
        assert(Self::dec(bytes).enc() =~= bytes);
    }

    fn num_channels() -> usize {
        2
    }

    fn into_vec(self) -> (v: Vec<u8>) {
        let mut v: Vec<u8> = Vec::new();
        v.push(self.gray);
        v.push(self.alpha);
        proof {
            assert(v@ =~= self.enc());
        }
        v
    }

    fn from_slice(bytes: &[u8], idx: usize) -> (p: Self) {
        GrayA { gray: bytes[idx], alpha: bytes[idx + 1] }
    }
}

impl Pixel for RGB {
    open spec fn channels() -> int {
        3
    }

    open spec fn enc(self) -> Seq<u8> {
        seq![self.red, self.green, self.blue]
    }

    open spec fn dec(bytes: Seq<u8>) -> Self {
        RGB { red: bytes[0], green: bytes[1], blue: bytes[2] }
    }

    proof fn lemma_channels() {
    }

    proof fn lemma_enc_len(self) {
    }

    proof fn lemma_dec_of_enc(self) {
    }

    proof fn lemma_enc_of_dec(bytes: Seq<u8>) {
        assert(Self::dec(bytes).enc() =~= bytes);
    }

    fn num_channels() -> usize {
        3
    }

    fn into_vec(self) -> (v: Vec<u8>) {
        let mut v: Vec<u8> = Vec::new();
        v.push(self.red);
        v.push(self.green);
        v.push(self.blue);
        proof {
            assert(v@ =~= self.enc());
        }
        v
    }

    fn from_slice(bytes: &[u8], idx: usize) -> (p: Self) {
        RGB { red: bytes[idx], green: bytes[idx + 1], blue: bytes[idx + 2] }
    }
}

impl Pixel for RGBA {
    open spec fn channels() -> int {
        4
    }

    open spec fn enc(self) -> Seq<u8> {
        seq![self.red, self.green, self.blue, self.alpha]
    }

    open spec fn dec(bytes: Seq<u8>) -> Self {
        RGBA { red: bytes[0], green: bytes[1], blue: bytes[2], alpha: bytes[3] }
    }

    proof fn lemma_channels() {
    }

    proof fn lemma_enc_len(self) {
    }

    proof fn lemma_dec_of_enc(self) {
    }

    proof fn lemma_enc_of_dec(bytes: Seq<u8>) {
        assert(Self::dec(bytes).enc() =~= bytes);
    }

    fn num_channels() -> usize {
        4
    }

    fn into_vec(self) -> (v: Vec<u8>) {
        let mut v: Vec<u8> = Vec::new();
        v.push(self.red);
        v.push(self.green);
        v.push(self.blue);
        v.push(self.alpha);
        proof {
            assert(v@ =~= self.enc());
        }
        v
    }

    fn from_slice(bytes: &[u8], idx: usize) -> (p: Self) {
        RGBA {
            red: bytes[idx],
            green: bytes[idx + 1],
            blue: bytes[idx + 2],
            alpha: bytes[idx + 3],
        }
    }
}

/// One entry of the conversion matrix: a total pure function from pixels
/// of format `Self` to pixels of format `T`.
pub trait PixelConvert<T: Pixel>: Pixel {
    /// The converted pixel, as the conversion matrix defines it.
    spec fn convert_spec(self) -> T;

    fn convert(self) -> (t: T)
        ensures
            t == self.convert_spec(),
    ;
}

impl PixelConvert<Gray> for Gray {
    open spec fn convert_spec(self) -> Gray {
        self
    }

    fn convert(self) -> Gray {
        self
    }
}

impl PixelConvert<GrayA> for Gray {
    open spec fn convert_spec(self) -> GrayA {
        GrayA { gray: self.gray, alpha: 0xff }
    }

    fn convert(self) -> GrayA {
        GrayA { gray: self.gray, alpha: 0xff }
    }
}

impl PixelConvert<RGB> for Gray {
    open spec fn convert_spec(self) -> RGB {
        RGB { red: self.gray, green: self.gray, blue: self.gray }
    }

    fn convert(self) -> RGB {
        RGB { red: self.gray, green: self.gray, blue: self.gray }
    }
}

impl PixelConvert<RGBA> for Gray {
    open spec fn convert_spec(self) -> RGBA {
        RGBA { red: self.gray, green: self.gray, blue: self.gray, alpha: 0xff }
    }

    fn convert(self) -> RGBA {
        RGBA { red: self.gray, green: self.gray, blue: self.gray, alpha: 0xff }
    }
}

impl PixelConvert<Gray> for GrayA {
    open spec fn convert_spec(self) -> Gray {
        Gray { gray: self.gray }
    }

    fn convert(self) -> Gray {
        Gray { gray: self.gray }
    }
}

impl PixelConvert<GrayA> for GrayA {
    open spec fn convert_spec(self) -> GrayA {
        self
    }

    fn convert(self) -> GrayA {
        self
    }
}

impl PixelConvert<RGB> for GrayA {
    open spec fn convert_spec(self) -> RGB {
        RGB { red: self.gray, green: self.gray, blue: self.gray }
    }

    fn convert(self) -> RGB {
        RGB { red: self.gray, green: self.gray, blue: self.gray }
    }
}

impl PixelConvert<RGBA> for GrayA {
    open spec fn convert_spec(self) -> RGBA {
        RGBA { red: self.gray, green: self.gray, blue: self.gray, alpha: self.alpha }
    }

    fn convert(self) -> RGBA {
        RGBA { red: self.gray, green: self.gray, blue: self.gray, alpha: self.alpha }
    }
}

impl PixelConvert<Gray> for RGB {
    open spec fn convert_spec(self) -> Gray {
        Gray { gray: luminance(self.red as int, self.green as int, self.blue as int) as u8 }
    }

    fn convert(self) -> (t: Gray)
    {
        proof {
            lemma_luminance_bounds(self.red as int, self.green as int, self.blue as int);
        }
        Gray { gray: rgb_to_gray(self.red, self.green, self.blue) }
    }
}

impl PixelConvert<GrayA> for RGB {
    open spec fn convert_spec(self) -> GrayA {
        GrayA {
            gray: luminance(self.red as int, self.green as int, self.blue as int) as u8,
            alpha: 0xff,
        }
    }

    fn convert(self) -> (t: GrayA)
    {
        proof {
            lemma_luminance_bounds(self.red as int, self.green as int, self.blue as int);
        }
        GrayA { gray: rgb_to_gray(self.red, self.green, self.blue), alpha: 0xff }
    }
}

impl PixelConvert<RGB> for RGB {
    open spec fn convert_spec(self) -> RGB {
        self
    }

    fn convert(self) -> RGB {
        self
    }
}

impl PixelConvert<RGBA> for RGB {
    open spec fn convert_spec(self) -> RGBA {
        RGBA { red: self.red, green: self.green, blue: self.blue, alpha: 0xff }
    }

    fn convert(self) -> RGBA {
        RGBA { red: self.red, green: self.green, blue: self.blue, alpha: 0xff }
    }
}

impl PixelConvert<Gray> for RGBA {
    open spec fn convert_spec(self) -> Gray {
        Gray { gray: luminance(self.red as int, self.green as int, self.blue as int) as u8 }
    }

    fn convert(self) -> (t: Gray)
    {
        proof {
            lemma_luminance_bounds(self.red as int, self.green as int, self.blue as int);
        }
        Gray { gray: rgb_to_gray(self.red, self.green, self.blue) }
    }
}

impl PixelConvert<GrayA> for RGBA {
    open spec fn convert_spec(self) -> GrayA {
        GrayA {
            gray: luminance(self.red as int, self.green as int, self.blue as int) as u8,
            alpha: self.alpha,
        }
    }

    fn convert(self) -> (t: GrayA)
    {
        proof {
            lemma_luminance_bounds(self.red as int, self.green as int, self.blue as int);
        }
        GrayA { gray: rgb_to_gray(self.red, self.green, self.blue), alpha: self.alpha }
    }
}

impl PixelConvert<RGB> for RGBA {
    open spec fn convert_spec(self) -> RGB {
        RGB { red: self.red, green: self.green, blue: self.blue }
    }

    fn convert(self) -> RGB {
        RGB { red: self.red, green: self.green, blue: self.blue }
    }
}

impl PixelConvert<RGBA> for RGBA {
    open spec fn convert_spec(self) -> RGBA {
        self
    }

    fn convert(self) -> RGBA {
        self
    }
}

/// Converting a pixel without an alpha channel to a format with one
/// always yields a fully opaque pixel: the alpha defaults to 255.
pub proof fn lemma_alpha_default_gray_to_graya(p: Gray)
    ensures
        <Gray as PixelConvert<GrayA>>::convert_spec(p).alpha == 255,
{
}

/// Converting a pixel without an alpha channel to a format with one
/// always yields a fully opaque pixel: the alpha defaults to 255.
pub proof fn lemma_alpha_default_gray_to_rgba(p: Gray)
    ensures
        <Gray as PixelConvert<RGBA>>::convert_spec(p).alpha == 255,
{
}

/// Converting a pixel without an alpha channel to a format with one
/// always yields a fully opaque pixel: the alpha defaults to 255.
pub proof fn lemma_alpha_default_rgb_to_graya(p: RGB)
    ensures
        <RGB as PixelConvert<GrayA>>::convert_spec(p).alpha == 255,
{
}

/// Converting a pixel without an alpha channel to a format with one
/// always yields a fully opaque pixel: the alpha defaults to 255.
pub proof fn lemma_alpha_default_rgb_to_rgba(p: RGB)
    ensures
        <RGB as PixelConvert<RGBA>>::convert_spec(p).alpha == 255,
{
}

} // verus!
