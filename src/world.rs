//! Level maps: a version, the player's start, and three arrays of fixed-size
//! records (sectors, walls, sprites), each preceded by a 16-bit count.
//!
//! Cross-references between records (a sector's wall range, a wall's next and
//! opposite wall, a sprite's sector) are kept as read and are not checked
//! against the array bounds: historical maps hold quirky references that a
//! renderer or a simulation is better placed to judge.
use crate::bytes::{
    le_i16, le_i32, le_u16, le_u32, read_i16, read_i32, read_u16, read_u32, signed_byte,
    to_signed_byte,
};
use crate::error::FormatError;
use vstd::prelude::*;

verus! {

/// The only map version this decoder reads.
pub const MAP_VERSION: u32 = 7;

/// Bytes in one sector record.
pub const SECTOR_SIZE: usize = 40;

/// Bytes in one wall record.
pub const WALL_SIZE: usize = 32;

/// Bytes in one sprite record.
pub const SPRITE_SIZE: usize = 44;

/// A region with a floor and a ceiling, bounded by a run of walls.
#[derive(Clone, Copy, Debug, PartialEq, Eq)]
pub struct Sector {
    pub first_wall: i16,
    pub wall_count: i16,
    pub visibility: u8,
    pub tags: (i16, i16, i16),
    pub ceiling_height: i32,
    pub ceiling_slope: i16,
    pub ceiling_status: i16,
    pub ceiling_bitmap: i16,
    pub ceiling_shade: i8,
    pub ceiling_palette: u8,
    pub ceiling_panning: (u8, u8),
    pub floor_height: i32,
    pub floor_slope: i16,
    pub floor_status: i16,
    pub floor_bitmap: i16,
    pub floor_shade: i8,
    pub floor_palette: u8,
    pub floor_panning: (u8, u8),
}

/// A directed edge of a sector's boundary. A negative index means that there
/// is no wall or sector on the other side.
#[derive(Clone, Copy, Debug, PartialEq, Eq)]
pub struct Wall {
    pub position: (i32, i32),
    pub adjacent_wall_index: i16,
    pub opposite_wall_index: i16,
    pub into_sector_index: i16,
    pub bitmap: i16,
    pub bitmap_overlay: i16,
    pub shade: i8,
    pub palette: u8,
    pub stretch: (u8, u8),
    pub panning: (u8, u8),
    pub status: i16,
    pub tags: (i16, i16, i16),
}

/// A point entity placed in a sector.
#[derive(Clone, Copy, Debug, PartialEq, Eq)]
pub struct Sprite {
    pub position: (i32, i32, i32),
    pub velocity: (i16, i16, i16),
    pub angle: i16,
    pub sector_index: i16,
    pub bitmap: i16,
    pub clip_distance: u8,
    pub shade: i8,
    pub palette: u8,
    pub stretch: (u8, u8),
    pub panning: (i8, i8),
    pub sprite_status: i16,
    pub entity_status: i16,
    pub owner: i16,
    pub tags: (i16, i16, i16),
}

/// The map geometry and everything placed in it.
#[derive(Debug)]
pub struct World {
    pub start_position: (i32, i32, i32),
    pub start_angle: i16,
    pub start_sector: i16,
    pub sectors: Vec<Sector>,
    pub walls: Vec<Wall>,
    pub sprites: Vec<Sprite>,
}

/// A record index as stored, where a negative value means "no record".
pub open spec fn reference(v: i16) -> Option<u16> {
    if v < 0 {
        None
    } else {
        Some(v as u16)
    }
}

/// The record index `v` refers to, or `None` for the negative sentinel.
pub fn to_reference(v: i16) -> (r: Option<u16>)
    ensures
        r == reference(v),
{
    if v < 0 {
        None
    } else {
        Some(v as u16)
    }
}

impl Wall {
    /// The wall on the other side of this one, if any.
    pub fn opposite_wall(&self) -> (r: Option<u16>)
        ensures
            r == reference(self.opposite_wall_index),
    {
        to_reference(self.opposite_wall_index)
    }

    /// The sector on the other side of this wall, if any.
    pub fn opposite_sector(&self) -> (r: Option<u16>)
        ensures
            r == reference(self.into_sector_index),
    {
        to_reference(self.into_sector_index)
    }
}

impl Sprite {
    /// The sector the sprite is in, if any.
    pub fn sector(&self) -> (r: Option<u16>)
        ensures
            r == reference(self.sector_index),
    {
        to_reference(self.sector_index)
    }
}

/// The sector record stored at `off`.
pub open spec fn sector_at(s: Seq<u8>, off: int) -> Sector {
    Sector {
        first_wall: le_i16(s, off),
        wall_count: le_i16(s, off + 2),
        ceiling_height: le_i32(s, off + 4),
        floor_height: le_i32(s, off + 8),
        ceiling_status: le_i16(s, off + 12),
        floor_status: le_i16(s, off + 14),
        ceiling_bitmap: le_i16(s, off + 16),
        ceiling_slope: le_i16(s, off + 18),
        ceiling_shade: signed_byte(s[off + 20]),
        ceiling_palette: s[off + 21],
        ceiling_panning: (s[off + 22], s[off + 23]),
        floor_bitmap: le_i16(s, off + 24),
        floor_slope: le_i16(s, off + 26),
        floor_shade: signed_byte(s[off + 28]),
        floor_palette: s[off + 29],
        floor_panning: (s[off + 30], s[off + 31]),
        visibility: s[off + 32],
        tags: (le_i16(s, off + 34), le_i16(s, off + 36), le_i16(s, off + 38)),
    }
}

/// The wall record stored at `off`.
pub open spec fn wall_at(s: Seq<u8>, off: int) -> Wall {
    Wall {
        position: (le_i32(s, off), le_i32(s, off + 4)),
        adjacent_wall_index: le_i16(s, off + 8),
        opposite_wall_index: le_i16(s, off + 10),
        into_sector_index: le_i16(s, off + 12),
        status: le_i16(s, off + 14),
        bitmap: le_i16(s, off + 16),
        bitmap_overlay: le_i16(s, off + 18),
        shade: signed_byte(s[off + 20]),
        palette: s[off + 21],
        stretch: (s[off + 22], s[off + 23]),
        panning: (s[off + 24], s[off + 25]),
        tags: (le_i16(s, off + 26), le_i16(s, off + 28), le_i16(s, off + 30)),
    }
}

/// The sprite record stored at `off`.
pub open spec fn sprite_at(s: Seq<u8>, off: int) -> Sprite {
    Sprite {
        position: (le_i32(s, off), le_i32(s, off + 4), le_i32(s, off + 8)),
        sprite_status: le_i16(s, off + 12),
        bitmap: le_i16(s, off + 14),
        shade: signed_byte(s[off + 16]),
        palette: s[off + 17],
        clip_distance: s[off + 18],
        stretch: (s[off + 20], s[off + 21]),
        panning: (signed_byte(s[off + 22]), signed_byte(s[off + 23])),
        sector_index: le_i16(s, off + 24),
        entity_status: le_i16(s, off + 26),
        angle: le_i16(s, off + 28),
        owner: le_i16(s, off + 30),
        velocity: (le_i16(s, off + 32), le_i16(s, off + 34), le_i16(s, off + 36)),
        tags: (le_i16(s, off + 38), le_i16(s, off + 40), le_i16(s, off + 42)),
    }
}

/// Offset of the sector count; the sector records follow it.
pub open spec fn sectors_at() -> int {
    20
}

pub open spec fn sector_count(s: Seq<u8>) -> nat {
    le_u16(s, sectors_at()) as nat
}

/// Offset of the wall count; the wall records follow it.
pub open spec fn walls_at(s: Seq<u8>) -> int {
    sectors_at() + 2 + 40 * sector_count(s)
}

pub open spec fn wall_count(s: Seq<u8>) -> nat {
    le_u16(s, walls_at(s)) as nat
}

/// Offset of the sprite count; the sprite records follow it.
pub open spec fn sprites_at(s: Seq<u8>) -> int {
    walls_at(s) + 2 + 32 * wall_count(s)
}

pub open spec fn sprite_count(s: Seq<u8>) -> nat {
    le_u16(s, sprites_at(s)) as nat
}

/// Where the last sprite record ends.
pub open spec fn map_end(s: Seq<u8>) -> int {
    sprites_at(s) + 2 + 44 * sprite_count(s)
}

/// Every count and every record that the counts announce lies within `s`.
pub open spec fn map_complete(s: Seq<u8>) -> bool {
    &&& sectors_at() + 2 <= s.len()
    &&& walls_at(s) + 2 <= s.len()
    &&& sprites_at(s) + 2 <= s.len()
    &&& map_end(s) <= s.len()
}

pub open spec fn map_sectors(s: Seq<u8>) -> Seq<Sector> {
    Seq::new(sector_count(s), |i: int| sector_at(s, sectors_at() + 2 + 40 * i))
}

pub open spec fn map_walls(s: Seq<u8>) -> Seq<Wall> {
    Seq::new(wall_count(s), |i: int| wall_at(s, walls_at(s) + 2 + 32 * i))
}

pub open spec fn map_sprites(s: Seq<u8>) -> Seq<Sprite> {
    Seq::new(sprite_count(s), |i: int| sprite_at(s, sprites_at(s) + 2 + 44 * i))
}

/// The error that decoding `s` as a map gives, if any.
pub open spec fn map_error(s: Seq<u8>) -> Option<FormatError> {
    if s.len() < 4 {
        Some(FormatError::TruncatedRecord)
    } else if le_u32(s, 0) != MAP_VERSION {
        Some(FormatError::UnsupportedMapVersion)
    } else if !map_complete(s) {
        Some(FormatError::TruncatedRecord)
    } else {
        None
    }
}

/// `w` holds what the map `s` describes.
pub open spec fn world_of(w: World, s: Seq<u8>) -> bool {
    &&& w.start_position == (le_i32(s, 4), le_i32(s, 8), le_i32(s, 12))
    &&& w.start_angle == le_i16(s, 16) & 0x7ff
    &&& w.start_sector == le_i16(s, 18)
    &&& w.sectors@ == map_sectors(s)
    &&& w.walls@ == map_walls(s)
    &&& w.sprites@ == map_sprites(s)
}

fn read_sector(data: &[u8], off: usize) -> (r: Sector)
    requires
        off + 40 <= data@.len() <= usize::MAX,
    ensures
        r == sector_at(data@, off as int),
{
    Sector {
        first_wall: read_i16(data, off),
        wall_count: read_i16(data, off + 2),
        ceiling_height: read_i32(data, off + 4),
        floor_height: read_i32(data, off + 8),
        ceiling_status: read_i16(data, off + 12),
        floor_status: read_i16(data, off + 14),
        ceiling_bitmap: read_i16(data, off + 16),
        ceiling_slope: read_i16(data, off + 18),
        ceiling_shade: to_signed_byte(data[off + 20]),
        ceiling_palette: data[off + 21],
        ceiling_panning: (data[off + 22], data[off + 23]),
        floor_bitmap: read_i16(data, off + 24),
        floor_slope: read_i16(data, off + 26),
        floor_shade: to_signed_byte(data[off + 28]),
        floor_palette: data[off + 29],
        floor_panning: (data[off + 30], data[off + 31]),
        visibility: data[off + 32],
        tags: (read_i16(data, off + 34), read_i16(data, off + 36), read_i16(data, off + 38)),
    }
}

fn read_wall(data: &[u8], off: usize) -> (r: Wall)
    requires
        off + 32 <= data@.len() <= usize::MAX,
    ensures
        r == wall_at(data@, off as int),
{
    Wall {
        position: (read_i32(data, off), read_i32(data, off + 4)),
        adjacent_wall_index: read_i16(data, off + 8),
        opposite_wall_index: read_i16(data, off + 10),
        into_sector_index: read_i16(data, off + 12),
        status: read_i16(data, off + 14),
        bitmap: read_i16(data, off + 16),
        bitmap_overlay: read_i16(data, off + 18),
        shade: to_signed_byte(data[off + 20]),
        palette: data[off + 21],
        stretch: (data[off + 22], data[off + 23]),
        panning: (data[off + 24], data[off + 25]),
        tags: (read_i16(data, off + 26), read_i16(data, off + 28), read_i16(data, off + 30)),
    }
}

fn read_sprite(data: &[u8], off: usize) -> (r: Sprite)
    requires
        off + 44 <= data@.len() <= usize::MAX,
    ensures
        r == sprite_at(data@, off as int),
{
    Sprite {
        position: (read_i32(data, off), read_i32(data, off + 4), read_i32(data, off + 8)),
        sprite_status: read_i16(data, off + 12),
        bitmap: read_i16(data, off + 14),
        shade: to_signed_byte(data[off + 16]),
        palette: data[off + 17],
        clip_distance: data[off + 18],
        stretch: (data[off + 20], data[off + 21]),
        panning: (to_signed_byte(data[off + 22]), to_signed_byte(data[off + 23])),
        sector_index: read_i16(data, off + 24),
        entity_status: read_i16(data, off + 26),
        angle: read_i16(data, off + 28),
        owner: read_i16(data, off + 30),
        velocity: (read_i16(data, off + 32), read_i16(data, off + 34), read_i16(data, off + 36)),
        tags: (read_i16(data, off + 38), read_i16(data, off + 40), read_i16(data, off + 42)),
    }
}

impl World {
    /// Decodes a level map. Nothing is returned but the whole map or an error.
    pub fn from_map(data: &[u8]) -> (r: Result<World, FormatError>)
        ensures
            match r {
                Ok(w) => map_error(data@) is None && world_of(w, data@),
                Err(e) => map_error(data@) == Some(e),
            },
    {
        let len = data.len();
        if len < 4 {
            return Err(FormatError::TruncatedRecord);
        }
        if read_u32(data, 0) != MAP_VERSION {
            return Err(FormatError::UnsupportedMapVersion);
        }
        if len < 22 {
            return Err(FormatError::TruncatedRecord);
        }
        let start_position = (read_i32(data, 4), read_i32(data, 8), read_i32(data, 12));
        let start_angle = read_i16(data, 16) & 0x7ff;
        let start_sector = read_i16(data, 18);

        let sector_total = read_u16(data, 20) as usize;
        let sector_base: usize = 22;
        let wall_header = sector_base + SECTOR_SIZE * sector_total;
        if wall_header + 2 > len {
            return Err(FormatError::TruncatedRecord);
        }
        let mut sectors: Vec<Sector> = Vec::new();
        let mut i: usize = 0;
        while i < sector_total
            invariant
                len == data@.len(),
                sector_total == sector_count(data@),
                wall_header == sector_base + 40 * sector_total,
                sector_base == 22,
                wall_header + 2 <= data@.len(),
                i <= sector_total,
                sectors@.len() == i,
                forall|j: int| 0 <= j < i ==> sectors@[j] == sector_at(data@, 22 + 40 * j),
            decreases sector_total - i,
        {
            sectors.push(read_sector(data, sector_base + SECTOR_SIZE * i));
            i = i + 1;
        }
        assert(sectors@ =~= map_sectors(data@));

        let wall_total = read_u16(data, wall_header) as usize;
        let wall_base = wall_header + 2;
        let sprite_header = wall_base + WALL_SIZE * wall_total;
        if sprite_header + 2 > len {
            return Err(FormatError::TruncatedRecord);
        }
        let mut walls: Vec<Wall> = Vec::new();
        let mut i: usize = 0;
        while i < wall_total
            invariant
                len == data@.len(),
                wall_total == wall_count(data@),
                wall_base == walls_at(data@) + 2,
                sprite_header == wall_base + 32 * wall_total,
                sprite_header + 2 <= data@.len(),
                i <= wall_total,
                walls@.len() == i,
                forall|j: int| 0 <= j < i ==> walls@[j] == wall_at(data@, wall_base + 32 * j),
            decreases wall_total - i,
        {
            walls.push(read_wall(data, wall_base + WALL_SIZE * i));
            i = i + 1;
        }
        assert(walls@ =~= map_walls(data@));

        let sprite_total = read_u16(data, sprite_header) as usize;
        let sprite_base = sprite_header + 2;
        if sprite_total > (len - sprite_base) / SPRITE_SIZE {
            return Err(FormatError::TruncatedRecord);
        }
        let mut sprites: Vec<Sprite> = Vec::new();
        let mut i: usize = 0;
        while i < sprite_total
            invariant
                len == data@.len(),
                sprite_total == sprite_count(data@),
                sprite_base == sprites_at(data@) + 2,
                sprite_base + 44 * sprite_total <= data@.len(),
                i <= sprite_total,
                sprites@.len() == i,
                forall|j: int| 0 <= j < i ==> sprites@[j] == sprite_at(data@, sprite_base + 44 * j),
            decreases sprite_total - i,
        {
            sprites.push(read_sprite(data, sprite_base + SPRITE_SIZE * i));
            i = i + 1;
        }
        assert(sprites@ =~= map_sprites(data@));

        Ok(World { start_position, start_angle, start_sector, sectors, walls, sprites })
    }
}

} // verus!
