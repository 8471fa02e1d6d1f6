//! Tile sheets (TILESnnn.ART) and the tiles of all sheets of an archive.
//!
//! A sheet is a 16-byte header (version, an unreliable tile count, the global
//! numbers of its first and last tile), the widths of its tiles (16 bits
//! each), their heights (16 bits each), an attribute word per tile (32 bits),
//! then each tile's palette indices, column by column.
use crate::art::{palette_colors, Palette, PALETTE_MIN_SIZE};
use crate::bytes::{le_u16, le_u32, read_u16, read_u32};
use crate::error::FormatError;
use crate::grp::GroupManager;
use vstd::arithmetic::div_mod::lemma_fundamental_div_mod_converse;
use vstd::prelude::*;

verus! {

/// The only sheet version this decoder reads.
pub const ART_VERSION: u32 = 1;

/// A tile as width, height and row-major packed 0xAARRGGBB colors.
pub type TileView = (u16, u16, Seq<u32>);

pub open spec fn first_tile(s: Seq<u8>) -> u32 {
    le_u32(s, 8)
}

pub open spec fn last_tile(s: Seq<u8>) -> u32 {
    le_u32(s, 12)
}

/// How many tiles the sheet holds, from its index range.
pub open spec fn tile_count(s: Seq<u8>) -> nat {
    (last_tile(s) - first_tile(s) + 1) as nat
}

pub open spec fn tile_width(s: Seq<u8>, i: int) -> u16 {
    le_u16(s, 16 + 2 * i)
}

pub open spec fn tile_height(s: Seq<u8>, i: int) -> u16 {
    le_u16(s, 16 + 2 * (tile_count(s) as int) + 2 * i)
}

/// Where the pixel data of the first tile starts.
pub open spec fn pixels_at(s: Seq<u8>) -> int {
    16 + 8 * tile_count(s) as int
}

/// Where the pixel data of tile `i` starts.
pub open spec fn tile_start(s: Seq<u8>, i: nat) -> int
    decreases i,
{
    if i == 0 {
        pixels_at(s)
    } else {
        tile_start(s, (i - 1) as nat) + tile_width(s, i - 1) * tile_height(s, i - 1)
    }
}

/// The `w` by `h` tile whose column-major palette indices start at `off`, as
/// row-major colors: the pixel at row `k / w` and column `k % w` is at index
/// `k`.
pub open spec fn tile_pixels(s: Seq<u8>, off: int, w: int, h: int, palette: Seq<u32>) -> Seq<
    u32,
> {
    Seq::new((w * h) as nat, |k: int| palette[s[off + (k % w) * h + k / w] as int])
}

pub open spec fn sheet_tile(s: Seq<u8>, palette: Seq<u32>, i: int) -> TileView {
    let w = tile_width(s, i);
    let h = tile_height(s, i);
    (w, h, tile_pixels(s, tile_start(s, i as nat), w as int, h as int, palette))
}

/// The tiles of the sheet `s`, in sheet order.
pub open spec fn sheet_tiles(s: Seq<u8>, palette: Seq<u32>) -> Seq<TileView> {
    Seq::new(tile_count(s), |i: int| sheet_tile(s, palette, i))
}

/// The error that decoding the sheet `s` gives, if any.
pub open spec fn art_error(s: Seq<u8>) -> Option<FormatError> {
    if s.len() < 16 {
        Some(FormatError::TruncatedHeader)
    } else if le_u32(s, 0) != ART_VERSION {
        Some(FormatError::UnsupportedVersion)
    } else if last_tile(s) < first_tile(s) {
        Some(FormatError::InvalidTileRange)
    } else if pixels_at(s) > s.len() {
        Some(FormatError::InvalidTileRange)
    } else if tile_start(s, tile_count(s)) > s.len() {
        Some(FormatError::InvalidTileRange)
    } else {
        None
    }
}

/// A rectangle of packed 0xAARRGGBB colors, stored row by row.
#[derive(Clone, Debug)]
pub struct Bitmap {
    pub width: u16,
    pub height: u16,
    pub data: Vec<u32>,
}

impl View for Bitmap {
    type V = TileView;

    open spec fn view(&self) -> TileView {
        (self.width, self.height, self.data@)
    }
}

pub open spec fn bitmap_views(v: Seq<Bitmap>) -> Seq<TileView> {
    v.map_values(|b: Bitmap| b@)
}

proof fn lemma_tile_start_monotonic(s: Seq<u8>, i: nat, j: nat)
    requires
        i <= j,
    ensures
        tile_start(s, i) <= tile_start(s, j),
    decreases j - i,
{
    if i < j {
        lemma_tile_start_monotonic(s, i, (j - 1) as nat);
        assert(tile_width(s, j - 1) * tile_height(s, j - 1) >= 0) by (nonlinear_arith);
    }
}

/// Looks the `w` by `h` tile at `off` up in `palette`, turning its columns
/// into rows.
fn decode_tile(data: &[u8], off: usize, w: usize, h: usize, palette: &[u32]) -> (r: Vec<u32>)
    requires
        off + w * h <= data@.len() <= usize::MAX,
        palette@.len() == 256,
    ensures
        r@ == tile_pixels(data@, off as int, w as int, h as int, palette@),
{
    let ghost spec_pixels = tile_pixels(data@, off as int, w as int, h as int, palette@);
    let mut pixels: Vec<u32> = Vec::new();
    let mut row: usize = 0;
    while row < h
        invariant
            off + w * h <= data@.len() <= usize::MAX,
            palette@.len() == 256,
            spec_pixels == tile_pixels(data@, off as int, w as int, h as int, palette@),
            row <= h,
            pixels@.len() == row * w,
            forall|k: int| 0 <= k < pixels@.len() ==> pixels@[k] == spec_pixels[k],
        decreases h - row,
    {
        let mut col: usize = 0;
        while col < w
            invariant
                off + w * h <= data@.len() <= usize::MAX,
                palette@.len() == 256,
                spec_pixels == tile_pixels(data@, off as int, w as int, h as int, palette@),
                row < h,
                col <= w,
                pixels@.len() == row * w + col,
                forall|k: int| 0 <= k < pixels@.len() ==> pixels@[k] == spec_pixels[k],
            decreases w - col,
        {
            proof {
                let k = row * w + col;
                assert(col * h + row < w * h) by (nonlinear_arith)
                    requires
                        col < w,
                        row < h,
                ;
                assert(k < w * h) by (nonlinear_arith)
                    requires
                        col < w,
                        row < h,
                        k == row * w + col,
                ;
                lemma_fundamental_div_mod_converse(k, w as int, row as int, col as int);
            }
            let index = data[off + col * h + row];
            pixels.push(palette[index as usize]);
            col = col + 1;
        }
        assert(pixels@.len() == (row + 1) * w) by (nonlinear_arith)
            requires
                pixels@.len() == row * w + w,
        ;
        row = row + 1;
    }
    assert(pixels@.len() == w * h) by (nonlinear_arith)
        requires
            pixels@.len() == h * w,
    ;
    assert(pixels@ =~= spec_pixels);
    pixels
}

/// The name of the palette entry: "PALETTE.DAT".
pub open spec fn palette_name() -> Seq<u8> {
    seq![80u8, 65, 76, 69, 84, 84, 69, 46, 68, 65, 84]
}

/// The decimal digits of `n`, most significant first.
pub open spec fn decimal(n: nat) -> Seq<u8>
    decreases n,
{
    if n < 10 {
        seq![(48 + n) as u8]
    } else {
        decimal(n / 10).push((48 + n % 10) as u8)
    }
}

/// The decimal digits of `n`, with leading zeros up to three digits.
pub open spec fn sheet_digits(n: nat) -> Seq<u8> {
    if n < 10 {
        seq![48u8, 48] + decimal(n)
    } else if n < 100 {
        seq![48u8] + decimal(n)
    } else {
        decimal(n)
    }
}

/// The name of sheet `n`: "TILES000.ART", "TILES001.ART", and so on.
pub open spec fn sheet_name(n: nat) -> Seq<u8> {
    seq![84u8, 73, 76, 69, 83] + sheet_digits(n) + seq![46u8, 65, 82, 84]
}

/// The sheets before sheet `k` are all in the archive `m`.
pub open spec fn sheets_present(m: Map<Seq<u8>, Seq<u8>>, k: nat) -> bool {
    forall|j: nat| j < k ==> #[trigger] m.contains_key(sheet_name(j))
}

/// The sheets before sheet `k` all decode.
pub open spec fn sheets_valid(m: Map<Seq<u8>, Seq<u8>>, k: nat) -> bool {
    forall|j: nat| j < k ==> #[trigger] art_error(m[sheet_name(j)]) is None
}

/// The archive `m` holds a palette file of sufficient size.
pub open spec fn usable_palette(m: Map<Seq<u8>, Seq<u8>>) -> bool {
    m.contains_key(palette_name()) && m[palette_name()].len() >= PALETTE_MIN_SIZE
}

pub open spec fn archive_palette(m: Map<Seq<u8>, Seq<u8>>) -> Seq<u32> {
    palette_colors(m[palette_name()])
}

/// The tiles of the sheets before sheet `k`, sheet after sheet.
pub open spec fn all_tiles(m: Map<Seq<u8>, Seq<u8>>, palette: Seq<u32>, k: nat) -> Seq<TileView>
    decreases k,
{
    if k == 0 {
        Seq::empty()
    } else {
        all_tiles(m, palette, (k - 1) as nat) + sheet_tiles(m[sheet_name((k - 1) as nat)], palette)
    }
}

spec fn digits_value(s: Seq<u8>) -> int
    decreases s.len(),
{
    if s.len() == 0 {
        0
    } else {
        digits_value(s.drop_last()) * 10 + (s.last() as int - 48)
    }
}

proof fn lemma_decimal_value(n: nat)
    ensures
        digits_value(decimal(n)) == n,
    decreases n,
{
    if n >= 10 {
        lemma_decimal_value(n / 10);
        assert(decimal(n).drop_last() =~= decimal(n / 10));
        assert(digits_value(decimal(n)) == digits_value(decimal(n / 10)) * 10 + n % 10);
    } else {
        assert(decimal(n).drop_last() =~= Seq::<u8>::empty());
        assert(digits_value(Seq::<u8>::empty()) == 0);
    }
}

proof fn lemma_leading_zero(s: Seq<u8>)
    ensures
        digits_value(seq![48u8] + s) == digits_value(s),
    decreases s.len(),
{
    let t = seq![48u8] + s;
    if s.len() > 0 {
        lemma_leading_zero(s.drop_last());
        assert(t.drop_last() =~= seq![48u8] + s.drop_last());
        assert(digits_value(t) == digits_value(t.drop_last()) * 10 + (s.last() as int - 48));
    } else {
        assert(t.drop_last() =~= Seq::<u8>::empty());
        assert(digits_value(Seq::<u8>::empty()) == 0);
    }
}

proof fn lemma_sheet_digits_value(n: nat)
    ensures
        digits_value(sheet_digits(n)) == n,
{
    lemma_decimal_value(n);
    if n < 10 {
        lemma_leading_zero(decimal(n));
        lemma_leading_zero(seq![48u8] + decimal(n));
        assert(seq![48u8, 48] + decimal(n) =~= seq![48u8] + (seq![48u8] + decimal(n)));
    } else if n < 100 {
        lemma_leading_zero(decimal(n));
    }
}

proof fn lemma_sheet_name_injective(a: nat, b: nat)
    requires
        sheet_name(a) == sheet_name(b),
    ensures
        a == b,
{
    let na = sheet_name(a);
    let nb = sheet_name(b);
    assert(na.subrange(5, na.len() - 4) =~= sheet_digits(a));
    assert(nb.subrange(5, nb.len() - 4) =~= sheet_digits(b));
    lemma_sheet_digits_value(a);
    lemma_sheet_digits_value(b);
}

/// A finite set of names holds at most as many sheet names as it has elements.
proof fn lemma_sheets_bounded(d: Set<Seq<u8>>, k: nat)
    requires
        d.finite(),
        forall|j: nat| j < k ==> #[trigger] d.contains(sheet_name(j)),
    ensures
        k <= d.len(),
    decreases k,
{
    if k > 0 {
        let last = sheet_name((k - 1) as nat);
        assert forall|j: nat| j < k - 1 implies #[trigger] d.remove(last).contains(
            sheet_name(j),
        ) by {
            if sheet_name(j) == last {
                lemma_sheet_name_injective(j, (k - 1) as nat);
            }
        }
        lemma_sheets_bounded(d.remove(last), (k - 1) as nat);
    }
}

/// Tiles are numbered through the sheets in sheet order: tile `t` of sheet
/// `j` comes right after the tiles of the sheets before it, so the first
/// tile of the second sheet has the number of tiles in the first.
pub proof fn lemma_global_index(
    m: Map<Seq<u8>, Seq<u8>>,
    palette: Seq<u32>,
    k: nat,
    j: nat,
    t: int,
)
    requires
        j < k,
        0 <= t < sheet_tiles(m[sheet_name(j)], palette).len(),
    ensures
        all_tiles(m, palette, j).len() + t < all_tiles(m, palette, k).len(),
        all_tiles(m, palette, k)[all_tiles(m, palette, j).len() + t] == sheet_tiles(
            m[sheet_name(j)],
            palette,
        )[t],
    decreases k,
{
    if j < k - 1 {
        lemma_global_index(m, palette, (k - 1) as nat, j, t);
    }
}

/// Appends the decimal digits of `n` to `v`.
fn push_decimal(v: &mut Vec<u8>, n: u64)
    ensures
        final(v)@ == old(v)@ + decimal(n as nat),
    decreases n,
{
    if n >= 10 {
        push_decimal(v, n / 10);
    }
    v.push((48 + n % 10) as u8);
    assert(v@ =~= old(v)@ + decimal(n as nat));
}

/// The name of sheet `n` as bytes.
fn sheet_name_bytes(n: u64) -> (r: Vec<u8>)
    ensures
        r@ == sheet_name(n as nat),
{
    let mut r: Vec<u8> = Vec::new();
    r.push(84);
    r.push(73);
    r.push(76);
    r.push(69);
    r.push(83);
    if n < 10 {
        r.push(48);
        r.push(48);
    } else if n < 100 {
        r.push(48);
    }
    push_decimal(&mut r, n);
    r.push(46);
    r.push(65);
    r.push(82);
    r.push(84);
    assert(r@ =~= sheet_name(n as nat));
    r
}

/// The name of the palette entry as bytes.
fn palette_name_bytes() -> (r: Vec<u8>)
    ensures
        r@ == palette_name(),
{
    let mut r: Vec<u8> = Vec::new();
    r.push(80);
    r.push(65);
    r.push(76);
    r.push(69);
    r.push(84);
    r.push(84);
    r.push(69);
    r.push(46);
    r.push(68);
    r.push(65);
    r.push(84);
    assert(r@ =~= palette_name());
    r
}

/// The tiles of all the sheets of an archive, by global tile number.
pub struct BitmapManager {
    bitmaps: Vec<Bitmap>,
}

impl View for BitmapManager {
    type V = Seq<TileView>;

    closed spec fn view(&self) -> Seq<TileView> {
        bitmap_views(self.bitmaps@)
    }
}

impl BitmapManager {
    /// Decodes the palette and the tile sheets of the archive: sheet 0, then
    /// each following sheet until one is missing.
    pub fn new(grp: &GroupManager) -> (r: Result<BitmapManager, FormatError>)
        ensures
            match r {
                Ok(bm) => usable_palette(grp@) && exists|k: nat|
                    k > 0 && sheets_present(grp@, k) && !grp@.contains_key(sheet_name(k))
                        && sheets_valid(grp@, k) && bm@ == all_tiles(
                        grp@,
                        archive_palette(grp@),
                        k,
                    ),
                Err(e) => if !grp@.contains_key(palette_name()) {
                    e == FormatError::NoPaletteData
                } else if !usable_palette(grp@) {
                    e == FormatError::PaletteTooSmall
                } else if !grp@.contains_key(sheet_name(0)) {
                    e == FormatError::NoTileData
                } else {
                    exists|j: nat|
                        sheets_present(grp@, j + 1) && sheets_valid(grp@, j) && art_error(
                            grp@[sheet_name(j)],
                        ) == Some(e)
                },
            },
    {
        let ghost m = grp@;
        let palette_key = palette_name_bytes();
        let palette_data = match grp.get_bytes(palette_key.as_slice()) {
            Some(d) => d,
            None => return Err(FormatError::NoPaletteData),
        };
        let palette = match Palette::new(palette_data) {
            Ok(p) => p,
            Err(e) => return Err(e),
        };
        let colors = palette.colors();
        let total = grp.len();
        let mut bitmaps: Vec<Bitmap> = Vec::new();
        let mut i: u64 = 0;
        loop
            invariant
                m == grp@,
                m.dom().finite(),
                total == m.dom().len(),
                usable_palette(m),
                colors@ == archive_palette(m),
                colors@.len() == 256,
                i <= total,
                sheets_present(m, i as nat),
                sheets_valid(m, i as nat),
                bitmap_views(bitmaps@) == all_tiles(m, colors@, i as nat),
            decreases total - i,
        {
            let name = sheet_name_bytes(i);
            match grp.get_bytes(name.as_slice()) {
                Some(sheet) => {
                    proof {
                        lemma_sheets_bounded(m.dom(), (i + 1) as nat);
                    }
                    match BitmapManager::load_art(sheet, colors) {
                        Ok(mut tiles) => {
                            let ghost previous = bitmaps@;
                            let ghost added = tiles@;
                            bitmaps.append(&mut tiles);
                            assert(bitmap_views(bitmaps@) =~= bitmap_views(previous)
                                + bitmap_views(added));
                        },
                        Err(e) => return Err(e),
                    }
                    i = i + 1;
                },
                None => {
                    if i == 0 {
                        return Err(FormatError::NoTileData);
                    }
                    let bm = BitmapManager { bitmaps };
                    assert(bm@ == all_tiles(m, archive_palette(m), i as nat));
                    return Ok(bm);
                },
            }
        }
    }

    /// Decodes the tiles of one sheet with a 256-color palette. Nothing is
    /// returned but all of the sheet's tiles or an error.
    pub fn load_art(data: &[u8], palette: &[u32]) -> (r: Result<Vec<Bitmap>, FormatError>)
        requires
            palette@.len() == 256,
        ensures
            match r {
                Ok(tiles) => art_error(data@) is None && bitmap_views(tiles@) == sheet_tiles(
                    data@,
                    palette@,
                ),
                Err(e) => art_error(data@) == Some(e),
            },
    {
        let ghost s = data@;
        let len = data.len();
        if len < 16 {
            return Err(FormatError::TruncatedHeader);
        }
        if read_u32(data, 0) != ART_VERSION {
            return Err(FormatError::UnsupportedVersion);
        }
        // The count field at offset 4 is not reliable: the index range decides.
        let first = read_u32(data, 8);
        let last = read_u32(data, 12);
        if last < first {
            return Err(FormatError::InvalidTileRange);
        }
        let count: u64 = (last - first) as u64 + 1;
        let pixels_start: u64 = 16 + 8 * count;
        if pixels_start > len as u64 {
            return Err(FormatError::InvalidTileRange);
        }
        let count = count as usize;
        let mut off: usize = pixels_start as usize;
        let mut tiles: Vec<Bitmap> = Vec::new();
        let mut i: usize = 0;
        while i < count
            invariant
                s == data@,
                len == s.len(),
                len >= 16,
                le_u32(s, 0) == ART_VERSION,
                last_tile(s) >= first_tile(s),
                count == tile_count(s),
                pixels_at(s) <= len,
                palette@.len() == 256,
                i <= count,
                off == tile_start(s, i as nat),
                off <= len,
                tiles@.len() == i,
                forall|j: int| 0 <= j < i ==> tiles@[j]@ == sheet_tile(s, palette@, j),
            decreases count - i,
        {
            let width = read_u16(data, 16 + 2 * i);
            let height = read_u16(data, 16 + 2 * count + 2 * i);
            proof {
                let (w, h) = (width as int, height as int);
                assert(w * h <= 0xffff * 0xffff) by (nonlinear_arith)
                    requires
                        0 <= w <= 0xffff,
                        0 <= h <= 0xffff,
                ;
            }
            let size: u64 = width as u64 * height as u64;
            if size > (len - off) as u64 {
                proof {
                    lemma_tile_start_monotonic(s, (i + 1) as nat, count as nat);
                }
                return Err(FormatError::InvalidTileRange);
            }
            let pixels = decode_tile(data, off, width as usize, height as usize, palette);
            tiles.push(Bitmap { width, height, data: pixels });
            off = off + size as usize;
            i = i + 1;
        }
        proof {
            assert(bitmap_views(tiles@) =~= sheet_tiles(s, palette@));
        }
        Ok(tiles)
    }

    /// The tile with global number `index`, if there is one.
    pub fn get(&self, index: i32) -> (r: Option<&Bitmap>)
        ensures
            match r {
                Some(b) => 0 <= index < self@.len() && b@ == self@[index as int],
                None => !(0 <= index < self@.len()),
            },
    {
        if index >= 0 && (index as usize) < self.bitmaps.len() {
            Some(&self.bitmaps[index as usize])
        } else {
            None
        }
    }
}

} // verus!
