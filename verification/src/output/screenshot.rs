//! One picture of what is being composited, as a PNG.
use vstd::prelude::*;
use vstd::string::*;

use crate::text::{self, decimal_of, joined};

verus! {

/// How many names past the first are tried before giving up.
pub const MAX_SUFFIX: u32 = 1_000;

/// Why a picture could not be made.
#[derive(Clone, Copy, Debug, PartialEq, Eq, Structural)]
pub enum ScreenshotError {
    /// A frame that is not three bytes a pixel.
    NotRgb24,
    /// A picture with no width or no height.
    Empty,
}

/// What is said of a frame that is not three bytes a pixel, given what its
/// format is called.
pub fn expected_rgb24(format: &str) -> (r: String)
    ensures
        r@ == "expected an RGB24 frame, got "@ + format@,
{
    joined("expected an RGB24 frame, got ", format)
}

/// What `png` answers where it cannot encode.
#[verifier::external_type_specification]
#[verifier::external_body]
pub struct ExEncodingError(png::EncodingError);

/// The file `png` makes of an 8-bit RGB picture of this size.
pub uninterp spec fn png_file(width: u32, height: u32, pixels: Seq<u8>) -> Seq<u8>;

/// `png::Encoder`, `Writer::write_image_data` and `Writer::finish`, of the
/// crate `png`, with its default compression, into memory.
///
/// A picture of the right length is refused only where it has no width or no
/// height; what comes out otherwise depends on the size and the pixels alone.
#[verifier::external_body]
fn encode_rgb(width: u32, height: u32, pixels: &Vec<u8>) -> (r: Result<
    Vec<u8>,
    png::EncodingError,
>)
    requires
        pixels@.len() == width * height * 3,
    ensures
        match r {
            Ok(file) => width > 0 && height > 0 && file@ == png_file(width, height, pixels@),
            Err(_) => width == 0 || height == 0,
        },
{
    let mut file: Vec<u8> = Vec::new();
    let mut encoder = png::Encoder::new(&mut file, width, height);
    encoder.set_color(png::ColorType::Rgb);
    encoder.set_depth(png::BitDepth::Eight);
    let mut writer = encoder.write_header()?;
    writer.write_image_data(pixels.as_slice())?;
    writer.finish()?;
    Ok(file)
}

/// The rows of a picture whose rows are padded out to a stride, without the
/// padding.
pub open spec fn unpadded(data: Seq<u8>, stride: int, row: int, height: int) -> Seq<u8>
    decreases height,
{
    if height <= 0 {
        Seq::empty()
    } else {
        unpadded(data, stride, row, height - 1) + data.subrange(
            (height - 1) * stride,
            (height - 1) * stride + row,
        )
    }
}

/// Whether every row of a picture is there.
pub open spec fn has_rows(len: int, stride: int, row: int, height: int) -> bool {
    height > 0 ==> (height - 1) * stride + row <= len
}

proof fn lemma_unpadded_len(data: Seq<u8>, stride: int, row: int, height: int)
    requires
        0 <= height,
        0 <= stride,
        0 <= row,
        has_rows(data.len() as int, stride, row, height),
    ensures
        unpadded(data, stride, row, height).len() == height * row,
    decreases height,
{
    if height > 0 {
        assert(height > 1 ==> (height - 2) * stride + row <= (height - 1) * stride + row)
            by (nonlinear_arith)
            requires
                stride >= 0,
        ;
        lemma_unpadded_len(data, stride, row, height - 1);
        assert((height - 1) * stride >= 0) by (nonlinear_arith)
            requires
                height >= 1,
                stride >= 0,
        ;
        assert((height - 1) * row + row == height * row) by (nonlinear_arith);
    } else {
        assert(height * row == 0) by (nonlinear_arith)
            requires
                height == 0,
        ;
    }
}

/// The rows of a picture without their padding.
pub fn pack_rows(data: &Vec<u8>, stride: usize, row: usize, height: u32) -> (r: Vec<u8>)
    requires
        has_rows(data@.len() as int, stride as int, row as int, height as int),
    ensures
        r@ == unpadded(data@, stride as int, row as int, height as int),
{
    let mut r: Vec<u8> = Vec::new();
    let total: usize = data.len();
    let mut line: u32 = 0;
    while line < height
        invariant
            line <= height,
            total == data@.len(),
            has_rows(data@.len() as int, stride as int, row as int, height as int),
            r@ == unpadded(data@, stride as int, row as int, line as int),
        decreases height - line,
    {
        proof {
            assert(line * stride + row <= (height - 1) * stride + row) by (nonlinear_arith)
                requires
                    line <= height - 1,
                    stride >= 0,
            ;
            assert(line as int * stride as int >= 0) by (nonlinear_arith);
        }
        let start: usize = line as usize * stride;
        let ghost before = r@;
        let mut i: usize = 0;
        while i < row
            invariant
                i <= row,
                start + row <= data@.len(),
                data@.len() <= usize::MAX,
                r@ == before + data@.subrange(start as int, start + i),
            decreases row - i,
        {
            r.push(data[start + i]);
            proof {
                assert(data@.subrange(start as int, start + i + 1) =~= data@.subrange(
                    start as int,
                    start + i,
                ).push(data@[start + i]));
                assert(r@ =~= before + data@.subrange(start as int, start + i + 1));
            }
            i = i + 1;
        }
        line = line + 1;
    }
    r
}

/// Encodes a picture of three bytes a pixel, whose rows are padded out to a
/// stride, as a PNG.
pub fn encode(data: &Vec<u8>, stride: usize, width: u32, height: u32) -> (r: Result<
    Vec<u8>,
    ScreenshotError,
>)
    requires
        width * 3 <= usize::MAX,
        has_rows(data@.len() as int, stride as int, width * 3, height as int),
    ensures
        match r {
            Ok(file) => width > 0 && height > 0 && file@ == png_file(
                width,
                height,
                unpadded(data@, stride as int, width * 3, height as int),
            ),
            Err(error) => error == ScreenshotError::Empty && (width == 0 || height == 0),
        },
{
    let row: usize = width as usize * 3;
    let pixels = pack_rows(data, stride, row, height);
    proof {
        lemma_unpadded_len(data@, stride as int, row as int, height as int);
        assert(height as int * (width * 3) == width * height * 3) by (nonlinear_arith);
    }
    match encode_rgb(width, height, &pixels) {
        Ok(file) => Ok(file),
        Err(_) => Err(ScreenshotError::Empty),
    }
}

/// Encodes a frame as a PNG: one of three bytes a pixel, and no other.
pub fn write_png(rgb24: bool, data: &Vec<u8>, stride: usize, width: u32, height: u32) -> (r: Result<
    Vec<u8>,
    ScreenshotError,
>)
    requires
        rgb24 ==> width * 3 <= usize::MAX,
        rgb24 ==> has_rows(data@.len() as int, stride as int, width * 3, height as int),
    ensures
        match r {
            Ok(file) => rgb24 && width > 0 && height > 0 && file@ == png_file(
                width,
                height,
                unpadded(data@, stride as int, width * 3, height as int),
            ),
            Err(ScreenshotError::NotRgb24) => !rgb24,
            Err(ScreenshotError::Empty) => rgb24 && (width == 0 || height == 0),
        },
{
    if !rgb24 {
        return Err(ScreenshotError::NotRgb24);
    }
    encode(data, stride, width, height)
}

/// Every byte of the picture is where it was in its row, and nothing of the
/// padding is kept.
pub proof fn law_rows_are_kept_byte_for_byte(
    data: Seq<u8>,
    stride: int,
    row: int,
    height: int,
    line: int,
    at: int,
)
    requires
        0 <= line < height,
        0 <= at < row,
        0 <= stride,
        has_rows(data.len() as int, stride, row, height),
    ensures
        unpadded(data, stride, row, height).len() == height * row,
        0 <= line * row + at < height * row,
        unpadded(data, stride, row, height)[line * row + at] == data[line * stride + at],
    decreases height,
{
    lemma_unpadded_len(data, stride, row, height);
    assert(height > 1 ==> (height - 2) * stride + row <= (height - 1) * stride + row)
        by (nonlinear_arith)
        requires
            stride >= 0,
    ;
    lemma_unpadded_len(data, stride, row, height - 1);
    assert(0 <= line * row + at < height * row) by (nonlinear_arith)
        requires
            0 <= line < height,
            0 <= at < row,
    ;
    assert((height - 1) * stride >= 0) by (nonlinear_arith)
        requires
            height >= 1,
            stride >= 0,
    ;
    if line < height - 1 {
        law_rows_are_kept_byte_for_byte(data, stride, row, height - 1, line, at);
    } else {
        assert(line * row == (height - 1) * row);
    }
}

/// The name that is tried in place of one that is taken: the first is the name
/// itself, and the others have a number before the extension.
pub open spec fn candidate_name(
    name: Seq<char>,
    stem: Seq<char>,
    extension: Seq<char>,
    suffix: nat,
) -> Seq<char> {
    if suffix <= 1 {
        name
    } else {
        stem + "-"@ + text::decimal(suffix) + "."@ + extension
    }
}

/// A search for a name that is not taken.
pub struct NameSearch {
    name: String,
    stem: String,
    extension: String,
    tried: u32,
}

impl NameSearch {
    /// The name asked for.
    pub closed spec fn name(&self) -> Seq<char> {
        self.name@
    }

    /// The name asked for, without its extension.
    pub closed spec fn stem(&self) -> Seq<char> {
        self.stem@
    }

    /// The extension.
    pub closed spec fn extension(&self) -> Seq<char> {
        self.extension@
    }

    /// How many names have been handed out.
    pub closed spec fn tried(&self) -> nat {
        self.tried as nat
    }

    /// Begins a search, for a name with its stem and its extension.
    pub fn new(name: &str, stem: &str, extension: &str) -> (r: Self)
        ensures
            r.name() == name@,
            r.stem() == stem@,
            r.extension() == extension@,
            r.tried() == 0,
    {
        NameSearch {
            name: name.to_owned(),
            stem: stem.to_owned(),
            extension: extension.to_owned(),
            tried: 0,
        }
    }

    /// The next name to try: the one asked for, and then as many with a number
    /// as are tried before giving up. `None` where all of them have been.
    pub fn next(&mut self) -> (r: Option<String>)
        ensures
            final(self).name() == old(self).name(),
            final(self).stem() == old(self).stem(),
            final(self).extension() == old(self).extension(),
            match r {
                Some(candidate) => {
                    &&& old(self).tried() < MAX_SUFFIX + 1
                    &&& final(self).tried() == old(self).tried() + 1
                    &&& candidate@ == candidate_name(
                        old(self).name(),
                        old(self).stem(),
                        old(self).extension(),
                        old(self).tried() + 1,
                    )
                },
                None => old(self).tried() >= MAX_SUFFIX + 1 && final(self).tried() == old(
                    self,
                ).tried(),
            },
            r is Some <==> old(self).tried() <= 1_000,
            r matches Some(candidate) ==> (if old(self).tried() == 0 {
                candidate@ == old(self).name()
            } else {
                candidate@ == old(self).stem() + "-"@ + text::decimal(old(self).tried() + 1) + "."@
                    + old(self).extension()
            }),
    {
        if self.tried > MAX_SUFFIX {
            return None;
        }
        self.tried = self.tried + 1;
        if self.tried == 1 {
            return Some(self.name.clone());
        }
        let mut r: String = self.stem.clone();
        r.append("-");
        let digits = decimal_of(self.tried as u64);
        r.append(digits.as_str());
        r.append(".");
        r.append(self.extension.as_str());
        Some(r)
    }

    /// What is said where every name is taken, given how the path is written.
    pub fn all_taken(path: &str) -> (r: String)
        ensures
            r@ == path@ + " and "@ + text::decimal(MAX_SUFFIX as nat)
                + " names after it are taken"@,
    {
        let mut r: String = path.to_owned();
        r.append(" and ");
        let digits = decimal_of(MAX_SUFFIX as u64);
        r.append(digits.as_str());
        r.append(" names after it are taken");
        r
    }
}

/// Numbers are written in one way only.
proof fn lemma_decimal_tells(a: nat, b: nat)
    requires
        text::decimal(a) == text::decimal(b),
    ensures
        a == b,
    decreases a,
{
    assert(text::decimal(a).last() == text::digit(a % 10)) by {
        if a < 10 {
            assert(a % 10 == a);
        }
    }
    assert(text::decimal(b).last() == text::digit(b % 10)) by {
        if b < 10 {
            assert(b % 10 == b);
        }
    }
    assert(a % 10 == b % 10);
    lemma_decimal_len(a);
    lemma_decimal_len(b);
    if a >= 10 && b >= 10 {
        assert(text::decimal(a).drop_last() =~= text::decimal(a / 10));
        assert(text::decimal(b).drop_last() =~= text::decimal(b / 10));
        lemma_decimal_tells(a / 10, b / 10);
    }
}

proof fn lemma_decimal_len(n: nat)
    ensures
        text::decimal(n).len() >= 1,
        n < 10 <==> text::decimal(n).len() == 1,
    decreases n,
{
    if n >= 10 {
        lemma_decimal_len(n / 10);
    }
}

/// No two of the numbered names are the same, so a search never tries one
/// twice.
pub proof fn law_numbered_names_differ(
    name: Seq<char>,
    stem: Seq<char>,
    extension: Seq<char>,
    a: nat,
    b: nat,
)
    requires
        a > 1,
        b > 1,
        candidate_name(name, stem, extension, a) == candidate_name(name, stem, extension, b),
    ensures
        a == b,
{
    let x = candidate_name(name, stem, extension, a);
    let y = candidate_name(name, stem, extension, b);
    let head = (stem + "-"@).len() as int;
    let tail = ("."@ + extension).len() as int;
    assert(x.len() == head + text::decimal(a).len() + tail);
    assert(y.len() == head + text::decimal(b).len() + tail);
    assert(text::decimal(a) =~= x.subrange(head, head + text::decimal(a).len()));
    assert(text::decimal(b) =~= y.subrange(head, head + text::decimal(b).len()));
    lemma_decimal_tells(a, b);
}

/// The end of a screenshot's branch: the first picture is taken, and the rest
/// let go by.
pub struct FirstFrame {
    pending: bool,
}

impl FirstFrame {
    /// Whether a picture is still waited for.
    pub closed spec fn waits(&self) -> bool {
        self.pending
    }

    /// Waiting for a picture.
    pub fn new() -> (r: Self)
        ensures
            r.waits(),
    {
        FirstFrame { pending: true }
    }

    /// Whether what arrived is the one to write: the first that is a picture.
    pub fn takes(&mut self, picture: bool) -> (r: bool)
        ensures
            r == (picture && old(self).waits()),
            final(self).waits() == (old(self).waits() && !picture),
    {
        if picture && self.pending {
            self.pending = false;
            true
        } else {
            false
        }
    }
}

/// The first name tried is the one asked for, and every later one is numbered
/// from two, before the extension.
pub proof fn law_names_are_numbered_from_two(
    name: Seq<char>,
    stem: Seq<char>,
    extension: Seq<char>,
    suffix: nat,
)
    ensures
        candidate_name(name, stem, extension, 1) == name,
        suffix >= 2 ==> candidate_name(name, stem, extension, suffix) == stem + "-"@
            + text::decimal(suffix) + "."@ + extension,
{
}

} // verus!
