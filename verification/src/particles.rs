//! The textures of the particle sketch: a palette texture made of horizontal
//! colour bands, sized after a Worley noise map, and the image the
//! compute shader draws into.
use noise::utils::{NoiseMapBuilder, PlaneMapBuilder};
use noise::Worley;
use vstd::prelude::*;

verus! {

/// Width of the particle image, in pixels.
pub const PARTICLES_WIDTH: u32 = 3840;

/// Height of the particle image, in pixels.
pub const PARTICLES_HEIGHT: u32 = 2160;

/// Seed of the Worley noise the palette texture is sized after.
pub const PARTICLES_NOISE_SEED: u32 = 0;

/// Size of a 2D texture, as the GPU wants it.
#[derive(Clone, Copy, Debug, PartialEq, Eq, Structural)]
pub struct Extent {
    pub width: u32,
    pub height: u32,
    pub depth_or_array_layers: u32,
}

/// The size a noise map reports after it was asked for `width` by `height`:
/// a map with an empty side is empty.
pub open spec fn noise_map_size(width: usize, height: usize) -> (usize, usize) {
    if width == 0 || height == 0 {
        (0, 0)
    } else {
        (width, height)
    }
}

/// Builds a `width` by `height` Worley noise map with `noise`'s
/// `PlaneMapBuilder::<Worley, 3>::new(Worley::new(seed)).set_size(..).build()`
/// and reads its size back with `NoiseMap::size`.
///
/// Claimed of `noise` (its `NoiseMap::set_size`): the built map has the size
/// it was asked for, except that a request with a zero side gives an empty
/// map of size (0, 0); a side of 32767 or more makes it panic, which the
/// `requires` leaves out. The noise values themselves are not read here.
#[verifier::external_body]
fn worley_map_size(seed: u32, width: usize, height: usize) -> (size: (usize, usize))
    requires
        width < 32767,
        height < 32767,
    ensures
        size == noise_map_size(width, height),
{
    PlaneMapBuilder::<Worley, 3>::new(Worley::new(seed)).set_size(width, height).build().size()
}

/// The size of the palette texture: that of a Worley noise map of `width` by
/// `height` samples, one layer deep.
pub fn noise_texture_extent(seed: u32, width: u32, height: u32) -> (extent: Extent)
    requires
        width < 32767,
        height < 32767,
    ensures
        extent.depth_or_array_layers == 1,
        width == 0 || height == 0 ==> extent.width == 0 && extent.height == 0,
        width != 0 && height != 0 ==> extent.width == width && extent.height == height,
{
    let size = worley_map_size(seed, width as usize, height as usize);
    Extent { width: size.0 as u32, height: size.1 as u32, depth_or_array_layers: 1 }
}

/// The size of the image the particle compute shader draws into.
pub fn particles_image_extent() -> (extent: Extent)
    ensures
        extent == (Extent {
            width: PARTICLES_WIDTH,
            height: PARTICLES_HEIGHT,
            depth_or_array_layers: 1,
        }),
{
    Extent { width: PARTICLES_WIDTH, height: PARTICLES_HEIGHT, depth_or_array_layers: 1 }
}

/// How many pixels each of `bands` colour bands gets on a `width` by
/// `height` image: as many whole rows as fit.
pub open spec fn band_len(width: int, height: int, bands: int) -> int {
    (height / bands) * width
}

/// The bytes of a palette texture: each colour of `palette` in turn,
/// repeated for `count` pixels, four bytes per pixel.
pub open spec fn banded(palette: Seq<[u8; 4]>, count: nat) -> Seq<u8> {
    Seq::new(
        palette.len() * count * 4,
        |i: int| palette[i / (count * 4) as int]@[i % 4],
    )
}

/// Where byte `byte` of pixel `pixel` of band `band` lies in bands of
/// `count` pixels each, four bytes per pixel.
pub open spec fn band_byte_index(count: int, band: int, pixel: int, byte: int) -> int {
    (band * count + pixel) * 4 + byte
}

/// Where byte `byte` of the pixel at (`col`, `row`) lies in an RGBA image
/// `width` pixels wide.
pub open spec fn texel_index(width: int, row: int, col: int, byte: int) -> int {
    (row * width + col) * 4 + byte
}

/// The number of pixels of one colour band: `(height / bands) * width`.
pub fn band_pixel_count(width: u32, height: u32, bands: u32) -> (count: usize)
    requires
        bands > 0,
        band_len(width as int, height as int, bands as int) <= u32::MAX,
    ensures
        count == band_len(width as int, height as int, bands as int),
        count == (height / bands) * width,
        count * bands <= width * height,
{
    let rows = height / bands;
    assert(rows * width <= u32::MAX);
    proof {
        lemma_bands_fit(width as nat, height as nat, bands as nat);
    }
    (rows * width) as usize
}

/// Lays out `palette` as consecutive bands of `count` pixels each.
pub fn banded_pixels(palette: &Vec<[u8; 4]>, count: usize) -> (bytes: Vec<u8>)
    requires
        palette@.len() * count * 4 <= usize::MAX,
    ensures
        bytes@ == banded(palette@, count as nat),
        bytes@.len() == palette@.len() * count * 4,
        forall|band: int, pixel: int, byte: int|
            0 <= band < palette@.len() && 0 <= pixel < count && 0 <= byte < 4 ==> #[trigger] bytes@[band_byte_index(
                count as int,
                band,
                pixel,
                byte,
            )] == palette@[band]@[byte],
{
    let mut bytes: Vec<u8> = Vec::new();
    let n = palette.len();
    let ghost stride: int = count as int * 4;
    let mut c: usize = 0;
    while c < n
        invariant
            n == palette@.len(),
            n * count * 4 <= usize::MAX,
            stride == count * 4,
            c <= n,
            bytes@.len() == c * count * 4,
            forall|i: int|
                0 <= i < bytes@.len() ==> #[trigger] bytes@[i] == palette@[i / stride]@[i % 4],
        decreases n - c,
    {
        let color = palette[c];
        let mut k: usize = 0;
        proof {
            assert(c * count * 4 + count * 4 <= n * count * 4) by (nonlinear_arith)
                requires
                    c < n,
            ;
        }
        while k < count
            invariant
                n == palette@.len(),
                n * count * 4 <= usize::MAX,
                stride == count * 4,
                c < n,
                k <= count,
                color == palette@[c as int],
                c * count * 4 + count * 4 <= n * count * 4,
                bytes@.len() == c * count * 4 + k * 4,
                forall|i: int|
                    0 <= i < bytes@.len() ==> #[trigger] bytes@[i] == palette@[i / stride]@[i % 4],
            decreases count - k,
        {
            let ghost base: int = bytes@.len() as int;
            proof {
                assert(k * 4 + 4 <= count * 4);
            }
            bytes.push(color[0]);
            bytes.push(color[1]);
            bytes.push(color[2]);
            bytes.push(color[3]);
            proof {
                assert forall|i: int| 0 <= i < bytes@.len() implies #[trigger] bytes@[i]
                    == palette@[i / stride]@[i % 4] by {
                    if i >= base {
                        lemma_band_index(c as int, count as int, k as int, i - base);
                    }
                }
            }
            k = k + 1;
        }
        proof {
            assert(c * count * 4 + count * 4 == (c + 1) * count * 4) by (nonlinear_arith);
        }
        c = c + 1;
    }
    proof {
        assert(bytes@ =~= banded(palette@, count as nat));
        assert forall|band: int, pixel: int, byte: int|
            0 <= band < n && 0 <= pixel < count && 0 <= byte < 4 implies #[trigger] bytes@[band_byte_index(
            count as int,
            band,
            pixel,
            byte,
        )] == palette@[band]@[byte] by {
            lemma_band_index(band, count as int, pixel, byte);
            assert(band_byte_index(count as int, band, pixel, byte) < n * count * 4) by (nonlinear_arith)
                requires
                    0 <= band < n,
                    0 <= pixel < count,
                    0 <= byte < 4,
            ;
        }
    }
    bytes
}

/// Byte `j` of pixel `k` of band `c` lies in band `c` and is component `j`.
proof fn lemma_band_index(c: int, count: int, k: int, j: int)
    requires
        0 <= c,
        0 <= k < count,
        0 <= j < 4,
    ensures
        ((c * count + k) * 4 + j) / (count * 4) == c,
        ((c * count + k) * 4 + j) % 4 == j,
{
    let i = (c * count + k) * 4 + j;
    assert((c * count + k) * 4 + j == c * (count * 4) + (k * 4 + j)) by (nonlinear_arith);
    vstd::arithmetic::div_mod::lemma_fundamental_div_mod_converse(i, count * 4, c, k * 4 + j);
    vstd::arithmetic::div_mod::lemma_fundamental_div_mod_converse(i, 4, c * count + k, j);
}

/// The palette texture's bytes for an image of `width` by `height` pixels:
/// one band per colour, each as many whole rows high as fit.
pub fn palette_texture(palette: &Vec<[u8; 4]>, width: u32, height: u32) -> (bytes: Vec<u8>)
    requires
        0 < palette@.len() <= u32::MAX,
        band_len(width as int, height as int, palette@.len() as int) <= u32::MAX,
        palette@.len() * band_len(width as int, height as int, palette@.len() as int) * 4
            <= usize::MAX,
    ensures
        bytes@ == banded(palette@, band_len(width as int, height as int, palette@.len() as int) as nat),
        bytes@.len() == palette@.len() * ((height as int / palette@.len() as int) * width) * 4,
        forall|row: int, col: int, byte: int|
            0 <= row < palette@.len() * (height as int / palette@.len() as int) && 0 <= col < width && 0
                <= byte < 4 ==> #[trigger] bytes@[texel_index(width as int, row, col, byte)]
                == palette@[row / (height as int / palette@.len() as int)]@[byte],
{
    let count = band_pixel_count(width, height, palette.len() as u32);
    let bytes = banded_pixels(palette, count);
    proof {
        assert forall|row: int, col: int, byte: int|
            0 <= row < palette@.len() * (height as int / palette@.len() as int) && 0 <= col < width && 0
                <= byte < 4 implies #[trigger] bytes@[texel_index(width as int, row, col, byte)]
            == palette@[row / (height as int / palette@.len() as int)]@[byte] by {
            lemma_band_of_row(palette@, width as nat, height as nat, row as nat, col as nat, byte as nat);
        }
    }
    bytes
}

/// The bands never reach past the image, and they leave uncovered fewer than
/// `bands` rows at its bottom.
pub proof fn lemma_bands_fit(width: nat, height: nat, bands: nat)
    requires
        bands > 0,
    ensures
        0 <= band_len(width as int, height as int, bands as int) * bands <= width * height,
        width * height - band_len(width as int, height as int, bands as int) * bands < bands * width
            || width == 0,
{
    let w = width as int;
    let h = height as int;
    let b = bands as int;
    vstd::arithmetic::div_mod::lemma_fundamental_div_mod(h, b);
    assert((h / b) * w * b <= w * h && (w == 0 || w * h - (h / b) * w * b < b * w)) by (nonlinear_arith)
        requires
            b > 0,
            w >= 0,
            h >= 0,
            h == b * (h / b) + h % b,
            0 <= h % b < b,
    {
    }
    assert(0 <= (h / b) * w * b) by (nonlinear_arith)
        requires
            b > 0,
            w >= 0,
            h >= 0,
    {
    }
}

/// Pixel `col` of row `row` of a palette texture carries the colour of band
/// `row / (height / bands)`: every band is a stack of whole rows.
pub proof fn lemma_band_of_row(
    palette: Seq<[u8; 4]>,
    width: nat,
    height: nat,
    row: nat,
    col: nat,
    byte: nat,
)
    requires
        palette.len() > 0,
        row < palette.len() * (height / palette.len()),
        col < width,
        byte < 4,
    ensures
        ({
            let data = banded(palette, band_len(width as int, height as int, palette.len() as int) as nat);
            let i = (row * width + col) * 4 + byte;
            &&& i < data.len()
            &&& data[i as int] == palette[(row / (height / palette.len())) as int]@[byte as int]
        }),
{
    let b = palette.len() as int;
    let rows = height as int / b;
    let w = width as int;
    let r = row as int;
    let q = r / rows;
    let s = r % rows;
    let count = rows * w;
    let i = (r * w + col) * 4 + byte;
    vstd::arithmetic::div_mod::lemma_fundamental_div_mod(r, rows);
    assert(0 <= q < b) by (nonlinear_arith)
        requires
            r == rows * q + s,
            0 <= s < rows,
            r < b * rows,
            r >= 0,
    {
    }
    assert(i == q * (count * 4) + ((s * w + col) * 4 + byte) && 0 <= (s * w + col) * 4 + byte < count
        * 4) by (nonlinear_arith)
        requires
            r == rows * q + s,
            0 <= s < rows,
            0 <= col < w,
            0 <= byte < 4,
            count == rows * w,
            i == (r * w + col) * 4 + byte,
    {
    }
    vstd::arithmetic::div_mod::lemma_fundamental_div_mod_converse(
        i,
        count * 4,
        q,
        (s * w + col) * 4 + byte,
    );
    vstd::arithmetic::div_mod::lemma_fundamental_div_mod_converse(i, 4, r * w + col, byte as int);
    assert(i < b * count * 4) by (nonlinear_arith)
        requires
            i == q * (count * 4) + ((s * w + col) * 4 + byte),
            0 <= (s * w + col) * 4 + byte < count * 4,
            0 <= q < b,
    {
    }
    assert(band_len(width as int, height as int, b) == count);
}

} // verus!
