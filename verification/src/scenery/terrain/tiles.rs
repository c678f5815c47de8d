use vstd::prelude::*;

verus! {

/// Pixels along one edge of a heightmap tile.
pub const TILE_PX: u32 = 512;

/// Deepest zoom the heightmap tiles actually have data for.
pub const MAX_HEIGHTMAP_ZOOM: u8 = 15;

/// How long a failed tile fetch is remembered, in nanoseconds, before the
/// next chunk that needs it gets a fresh attempt (15 s).
pub const TILE_RETRY_COOLDOWN_NANOS: u64 = 15_000_000_000;

/// Terrarium elevation of a pixel, in 1/256 metre: `r * 256 + g + b / 256 - 32768`
/// metres, scaled by 256.
pub open spec fn terrarium_elevation(r: u8, g: u8, b: u8) -> int {
    r * 65536 + g * 256 + b - 8_388_608
}

/// The Terrarium code, in 1/256 metre: a step of the red channel is 256
/// metres, of the green one metre, of the blue 1/256 metre; (128, 0, 0) is
/// sea level, and every code lies within 32768 metres of it.
pub proof fn lemma_terrarium_steps(r: u8, g: u8, b: u8)
    ensures
        terrarium_elevation(128, 0, 0) == 0,
        terrarium_elevation(r, g, b) == terrarium_elevation(r, g, 0) + b,
        g < 255 ==> terrarium_elevation(r, (g + 1) as u8, b) == terrarium_elevation(r, g, b) + 256,
        r < 255 ==> terrarium_elevation((r + 1) as u8, g, b) == terrarium_elevation(r, g, b) + 256
            * 256,
        -32768 * 256 <= terrarium_elevation(r, g, b) < 32768 * 256,
{
}

/// Decodes a Terrarium-encoded pixel `[r, g, b]` to its elevation in 1/256
/// metre (exact: the metre value is this divided by 256).
pub fn decode_elevation(pixel: [u8; 3]) -> (h: i32)
    ensures
        h == terrarium_elevation(pixel[0], pixel[1], pixel[2]),
{
    let r = pixel[0] as i32;
    let g = pixel[1] as i32;
    let b = pixel[2] as i32;
    r * 65536 + g * 256 + b - 8_388_608
}

/// A decoded heightmap tile: `width * height` RGB pixels, row by row.
pub struct HeightTile {
    width: u32,
    height: u32,
    rgb: Vec<u8>,
}

impl HeightTile {
    #[verifier::type_invariant]
    spec fn inv(self) -> bool {
        self.rgb@.len() >= self.width * self.height * 3
    }

    /// Pixels per row.
    pub closed spec fn spec_width(&self) -> u32 {
        self.width
    }

    /// Rows.
    pub closed spec fn spec_height(&self) -> u32 {
        self.height
    }

    /// The raw RGB samples.
    pub closed spec fn samples(&self) -> Seq<u8> {
        self.rgb@
    }

    /// Channel `c` of pixel (`px`, `py`).
    pub open spec fn channel(&self, px: int, py: int, c: int) -> u8 {
        self.samples()[(py * self.spec_width() + px) * 3 + c]
    }

    /// A tile from raw RGB samples, when there are enough of them.
    pub fn from_rgb(width: u32, height: u32, rgb: Vec<u8>) -> (t: Option<HeightTile>)
        ensures
            t is Some <==> rgb@.len() >= width * height * 3,
            t matches Some(t) ==> t.spec_width() == width && t.spec_height() == height
                && t.samples() == rgb@,
    {
        assert((width as u128) * (height as u128) * 3 <= 0xffff_ffff_ffff_ffff_ffff) by (nonlinear_arith)
            requires
                width <= 0xffff_ffff,
                height <= 0xffff_ffff,
        ;
        let needed = (width as u128) * (height as u128) * 3;
        if (rgb.len() as u128) >= needed {
            Some(HeightTile { width, height, rgb })
        } else {
            None
        }
    }

    /// Pixels per row.
    pub fn width(&self) -> (w: u32)
        ensures
            w == self.spec_width(),
    {
        self.width
    }

    /// Rows.
    pub fn height(&self) -> (h: u32)
        ensures
            h == self.spec_height(),
    {
        self.height
    }

    /// The `[r, g, b]` samples of pixel (`px`, `py`).
    pub fn pixel(&self, px: u32, py: u32) -> (p: [u8; 3])
        requires
            px < self.spec_width(),
            py < self.spec_height(),
        ensures
            p@ == seq![self.channel(px as int, py as int, 0), self.channel(px as int, py as int, 1), self.channel(px as int, py as int, 2)],
    {
        proof {
            use_type_invariant(self);
            let w = self.width as int;
            let h = self.height as int;
            assert((py * w + px) * 3 + 2 < w * h * 3 && py * w <= py * w + px) by (nonlinear_arith)
                requires
                    0 <= px < w,
                    0 <= py < h,
            ;
        }
        let len = self.rgb.len();
        assert(len == self.rgb@.len());
        let i = ((py as usize) * (self.width as usize) + (px as usize)) * 3;
        [self.rgb[i], self.rgb[i + 1], self.rgb[i + 2]]
    }
}

/// What one heightmap tile decodes to: width, height and RGB samples, or
/// nothing when the bytes are not a WebP image.
pub uninterp spec fn webp_rgb8(bytes: Seq<u8>) -> Option<(u32, u32, Seq<u8>)>;

/// Decodes WebP `bytes` with `image::load_from_memory_with_format` and
/// converts the result to 8-bit RGB with `DynamicImage::to_rgb8`. Trusted:
/// the result is a function of the bytes alone (`webp_rgb8`), and, as
/// `ImageBuffer` keeps it, holds at least three samples per pixel.
#[verifier::external_body]
fn webp_to_rgb8(bytes: &[u8]) -> (r: Option<(u32, u32, Vec<u8>)>)
    ensures
        match r {
            Some((w, h, data)) => webp_rgb8(bytes@) == Some((w, h, data@)) && data@.len() >= w * h
                * 3,
            None => webp_rgb8(bytes@) is None,
        },
{
    match image::load_from_memory_with_format(bytes, image::ImageFormat::WebP) {
        Ok(img) => {
            let rgb = img.to_rgb8();
            let (w, h) = rgb.dimensions();
            Some((w, h, rgb.into_raw()))
        },
        Err(_) => None,
    }
}

/// One tile's fetch state, shared by every chunk build that needs it.
pub enum TileState {
    /// The decoded heightmap.
    Loaded(HeightTile),
    /// The tile server has no coverage here; happens over water.
    NoData,
    /// Fetching or decoding failed at this time (nanoseconds on the
    /// caller's monotonic clock); retried after the cooldown.
    Failed(u64),
}

/// Turns the downloaded bytes of a tile into its state: the decoded tile, or
/// a failure stamped `now_nanos` when the bytes do not decode.
pub fn decode_tile(bytes: &[u8], now_nanos: u64) -> (s: TileState)
    ensures
        match webp_rgb8(bytes@) {
            Some((w, h, data)) => s matches TileState::Loaded(t) && t.spec_width() == w
                && t.spec_height() == h && t.samples() == data,
            None => s == TileState::Failed(now_nanos),
        },
{
    match webp_to_rgb8(bytes) {
        Some((w, h, data)) => TileState::Loaded(HeightTile { width: w, height: h, rgb: data }),
        None => TileState::Failed(now_nanos),
    }
}

/// A failed tile is fetched again once the cooldown has passed.
pub fn tile_retry_due(state: &TileState, now_nanos: u64) -> (due: bool)
    ensures
        due == (match *state {
            TileState::Failed(t) => now_nanos - t > TILE_RETRY_COOLDOWN_NANOS,
            _ => false,
        }),
{
    match state {
        TileState::Failed(failed_at) => {
            if now_nanos > *failed_at {
                now_nanos - *failed_at > TILE_RETRY_COOLDOWN_NANOS
            } else {
                false
            }
        },
        _ => false,
    }
}

/// Height at one exact pixel of one tile (in 1/256 metre), if it is known:
/// decoded from a loaded tile, zero where the server has no data, unknown
/// for a missing or failed tile.
pub fn sample_tile_pixel(state: Option<&TileState>, px: u32, py: u32) -> (h: Option<i32>)
    requires
        state matches Some(TileState::Loaded(t)) ==> px < t.spec_width() && py < t.spec_height(),
    ensures
        h == match state {
            Some(TileState::Loaded(t)) => Some(
                terrarium_elevation(
                    t.channel(px as int, py as int, 0),
                    t.channel(px as int, py as int, 1),
                    t.channel(px as int, py as int, 2),
                ) as i32,
            ),
            Some(TileState::NoData) => Some(0i32),
            _ => None::<i32>,
        },
{
    match state {
        Some(TileState::Loaded(t)) => Some(decode_elevation(t.pixel(px, py))),
        Some(TileState::NoData) => Some(0),
        _ => None,
    }
}

/// Highest tile index at `zoom`: `2^zoom - 1`, saturating as the engine's
/// float-to-integer conversion does from zoom 32 on.
pub open spec fn max_tile_of(zoom: u8) -> u32 {
    if zoom < 32 {
        (crate::scenery::terrain::quadtree::grid_size(zoom as nat) - 1) as u32
    } else {
        (u32::MAX - 1) as u32
    }
}

/// Zoom 0 has a single tile; each zoom level doubles the tiles along an
/// edge, up to zoom 31.
pub proof fn lemma_max_tile_doubles(zoom: u8)
    ensures
        max_tile_of(0) == 0,
        zoom < 31 ==> max_tile_of((zoom + 1) as u8) + 1 == 2 * (max_tile_of(zoom) + 1),
{
    if zoom < 31 {
        crate::scenery::terrain::quadtree::lemma_grid_size_bounds(zoom as nat, 31);
        crate::scenery::terrain::quadtree::lemma_grid_size_bounds((zoom + 1) as nat, 31);
        assert(crate::scenery::terrain::quadtree::grid_size((zoom + 1) as nat) == 2
            * crate::scenery::terrain::quadtree::grid_size(zoom as nat));
    }
    assert(crate::scenery::terrain::quadtree::grid_size(0) == 1);
}

/// Highest tile index at `zoom`.
pub fn max_tile_index(zoom: u8) -> (m: u32)
    ensures
        m == max_tile_of(zoom),
{
    if zoom < 32 {
        proof {
            crate::scenery::terrain::quadtree::lemma_grid_size_bounds(zoom as nat, 31);
            lemma_grid_size_is_shift(zoom as nat);
        }
        ((1u64 << (zoom as u64)) - 1) as u32
    } else {
        u32::MAX - 1
    }
}

proof fn lemma_grid_size_is_shift(z: nat)
    requires
        z < 32,
    ensures
        (1u64 << (z as u64)) == crate::scenery::terrain::quadtree::grid_size(z),
    decreases z,
{
    if z > 0 {
        lemma_grid_size_is_shift((z - 1) as nat);
        let zz = z as u64;
        assert((1u64 << zz) == 2 * (1u64 << ((zz - 1) as u64))) by (bit_vector)
            requires
                0 < zz < 32,
        ;
    } else {
        assert((1u64 << 0u64) == 1) by (bit_vector);
    }
}

/// The zoom level heightmap tiles are fetched at for a node at `lod_level`.
pub fn heightmap_zoom(lod_level: u8) -> (z: u8)
    ensures
        z == (if lod_level < MAX_HEIGHTMAP_ZOOM {
            lod_level
        } else {
            MAX_HEIGHTMAP_ZOOM
        }),
{
    if lod_level < MAX_HEIGHTMAP_ZOOM {
        lod_level
    } else {
        MAX_HEIGHTMAP_ZOOM
    }
}

/// Tile and pixel of the two bilinear taps along one axis: the tap at the
/// sample's pixel, and the next pixel over, which spills into the next tile
/// at the tile's far edge.
#[derive(Clone, Copy, Debug, PartialEq, Eq, Structural)]
pub struct TapAxis {
    pub tile0: u32,
    pub px0: u32,
    pub tile1: u32,
    pub px1: u32,
}

/// `f` clamped into `0..=max_tile`.
pub open spec fn clamp_tile(f: i64, max_tile: u32) -> u32 {
    if f < 0 {
        0
    } else if f > max_tile {
        max_tile
    } else {
        f as u32
    }
}

/// The bilinear taps along one axis, from the floor of the sample's
/// tile-space coordinate and the floor of its in-tile pixel coordinate.
pub fn tap_axis(tile_floor: i64, pixel_floor: u32, max_tile: u32) -> (a: TapAxis)
    ensures
        a.tile0 == clamp_tile(tile_floor, max_tile),
        a.px0 == (if pixel_floor < TILE_PX - 1 {
            pixel_floor
        } else {
            (TILE_PX - 1) as u32
        }),
        a.px0 + 1 >= TILE_PX ==> a.px1 == 0 && a.tile1 == (if a.tile0 < max_tile {
            (a.tile0 + 1) as u32
        } else {
            max_tile
        }),
        a.px0 + 1 < TILE_PX ==> a.px1 == a.px0 + 1 && a.tile1 == a.tile0,
        a.tile0 <= max_tile && a.tile1 <= max_tile,
        a.px0 < TILE_PX && a.px1 < TILE_PX,
{
    let tile0 = if tile_floor < 0 {
        0
    } else if tile_floor > max_tile as i64 {
        max_tile
    } else {
        tile_floor as u32
    };
    let px0 = if pixel_floor < TILE_PX - 1 {
        pixel_floor
    } else {
        TILE_PX - 1
    };
    if px0 + 1 >= TILE_PX {
        let next = if tile0 < u32::MAX {
            tile0 + 1
        } else {
            u32::MAX
        };
        let tile1 = if next < max_tile {
            next
        } else {
            max_tile
        };
        TapAxis { tile0, px0, tile1, px1: 0 }
    } else {
        TapAxis { tile0, px0, tile1: tile0, px1: px0 + 1 }
    }
}

/// The taps of a bilinear height sample at `zoom`, along x and along y; the
/// four samples read are (x.tile0, y.tile0, x.px0, y.px0), (x.tile1, y.tile0,
/// x.px1, y.px0), (x.tile0, y.tile1, x.px0, y.px1) and (x.tile1, y.tile1,
/// x.px1, y.px1).
pub fn height_taps(x_floor: i64, y_floor: i64, px_floor: u32, py_floor: u32, zoom: u8) -> (r: (
    TapAxis,
    TapAxis,
))
    ensures
        r.0 == tap_axis_spec(x_floor, px_floor, max_tile_of(zoom)),
        r.1 == tap_axis_spec(y_floor, py_floor, max_tile_of(zoom)),
{
    let max_tile = max_tile_index(zoom);
    (tap_axis(x_floor, px_floor, max_tile), tap_axis(y_floor, py_floor, max_tile))
}

/// What `tap_axis` returns.
pub open spec fn tap_axis_spec(tile_floor: i64, pixel_floor: u32, max_tile: u32) -> TapAxis {
    let tile0 = clamp_tile(tile_floor, max_tile);
    let px0 = if pixel_floor < TILE_PX - 1 {
        pixel_floor
    } else {
        (TILE_PX - 1) as u32
    };
    if px0 + 1 >= TILE_PX {
        TapAxis {
            tile0,
            px0,
            tile1: if tile0 < max_tile {
                (tile0 + 1) as u32
            } else {
                max_tile
            },
            px1: 0,
        }
    } else {
        TapAxis { tile0, px0, tile1: tile0, px1: (px0 + 1) as u32 }
    }
}

/// The taps along one axis: the first is the sample's own pixel in its own
/// tile (the tile clamped to the map, the pixel to the tile), and the second
/// is the next pixel over, in the next tile when the first is at the tile's
/// far edge (staying on the last tile at the map's edge).
pub proof fn lemma_tap_axis_next_pixel(tile_floor: i64, pixel_floor: u32, max_tile: u32)
    ensures
        ({
            let a = tap_axis_spec(tile_floor, pixel_floor, max_tile);
            &&& 0 <= tile_floor <= max_tile ==> a.tile0 == tile_floor
            &&& tile_floor < 0 ==> a.tile0 == 0
            &&& tile_floor > max_tile ==> a.tile0 == max_tile
            &&& pixel_floor < TILE_PX ==> a.px0 == pixel_floor
            &&& a.px0 < TILE_PX && a.px1 < TILE_PX
            &&& a.tile0 < max_tile ==> a.tile1 * TILE_PX + a.px1 == a.tile0 * TILE_PX + a.px0 + 1
            &&& a.tile0 >= max_tile ==> a.tile1 == a.tile0 && (a.px0 + 1 < TILE_PX ==> a.px1
                == a.px0 + 1) && (a.px0 + 1 == TILE_PX ==> a.px1 == 0)
        }),
{
}

/// Tile `t` and its (+1, 0), (0, +1), (+1, +1) neighbours at `zoom`, each
/// coordinate capped at `max_tile`: the tiles a bilinear sample in `t` may read.
pub open spec fn tile_neighbors(t: (u32, u32), zoom: u8, max_tile: u32) -> Set<(u8, u32, u32)> {
    let x1 = if t.0 + 1 < max_tile {
        (t.0 + 1) as u32
    } else {
        max_tile
    };
    let y1 = if t.1 + 1 < max_tile {
        (t.1 + 1) as u32
    } else {
        max_tile
    };
    let x0 = if t.0 < max_tile {
        t.0
    } else {
        max_tile
    };
    let y0 = if t.1 < max_tile {
        t.1
    } else {
        max_tile
    };
    set![(zoom, x0, y0), (zoom, x1, y0), (zoom, x0, y1), (zoom, x1, y1)]
}

/// The tiles prefetched for tile `t` are `t` itself and its right, lower
/// and lower-right neighbours, all at `zoom` and on the map: inside the map
/// exactly those four, at the map's last row or column the neighbours past
/// it fall back onto the edge.
pub proof fn lemma_tile_neighbors_are_adjacent(t: (u32, u32), zoom: u8, max_tile: u32)
    requires
        t.0 <= max_tile,
        t.1 <= max_tile,
    ensures
        tile_neighbors(t, zoom, max_tile).contains((zoom, t.0, t.1)),
        forall|k: (u8, u32, u32)| #[trigger]
            tile_neighbors(t, zoom, max_tile).contains(k) ==> k.0 == zoom && t.0 <= k.1 <= t.0 + 1
                && t.1 <= k.2 <= t.1 + 1 && k.1 <= max_tile && k.2 <= max_tile,
        t.0 < max_tile && t.1 < max_tile ==> tile_neighbors(t, zoom, max_tile).contains(
            (zoom, (t.0 + 1) as u32, (t.1 + 1) as u32),
        ) && tile_neighbors(t, zoom, max_tile).contains((zoom, (t.0 + 1) as u32, t.1))
            && tile_neighbors(t, zoom, max_tile).contains((zoom, t.0, (t.1 + 1) as u32)),
{
}

/// The tiles a bilinear height sample reads are among the neighbours
/// prefetched for the tile the sample falls in, so the "+1" taps that spill
/// over a tile edge always find their tile fetched.
pub proof fn lemma_taps_are_prefetched(
    x_floor: i64,
    y_floor: i64,
    px_floor: u32,
    py_floor: u32,
    zoom: u8,
)
    requires
        0 <= x_floor <= u32::MAX,
        0 <= y_floor <= u32::MAX,
    ensures
        ({
            let m = max_tile_of(zoom);
            let a = tap_axis_spec(x_floor, px_floor, m);
            let b = tap_axis_spec(y_floor, py_floor, m);
            let n = tile_neighbors((x_floor as u32, y_floor as u32), zoom, m);
            &&& n.contains((zoom, a.tile0, b.tile0))
            &&& n.contains((zoom, a.tile1, b.tile0))
            &&& n.contains((zoom, a.tile0, b.tile1))
            &&& n.contains((zoom, a.tile1, b.tile1))
        }),
{
}

/// Adds `t` to `tiles` unless it is there.
fn insert_tile(tiles: &mut Vec<(u8, u32, u32)>, t: (u8, u32, u32))
    requires
        old(tiles)@.no_duplicates(),
    ensures
        final(tiles)@.no_duplicates(),
        final(tiles)@.to_set() == old(tiles)@.to_set().insert(t),
{
    let mut i: usize = 0;
    while i < tiles.len()
        invariant
            i <= tiles@.len(),
            tiles@ == old(tiles)@,
            old(tiles)@.no_duplicates(),
            forall|j: int| 0 <= j < i ==> #[trigger] tiles@[j] != t,
        decreases tiles@.len() - i,
    {
        let (z, x, y) = tiles[i];
        if z == t.0 && x == t.1 && y == t.2 {
            assert(tiles@.contains(t));
            assert(tiles@.to_set().insert(t) =~= tiles@.to_set());
            return ;
        }
        i = i + 1;
    }
    proof {
        tiles@.lemma_push_to_set_commute(t);
    }
    tiles.push(t);
}

/// Adds the tile `t` plus its `(+1,0)`/`(0,+1)`/`(+1,+1)` neighbours to
/// `tiles`. The neighbours cover whatever the bilinear taps might spill into
/// when a sample sits near the tile's far edge.
pub fn add_tile_and_bilinear_neighbors(
    tiles: &mut Vec<(u8, u32, u32)>,
    t: (u32, u32),
    zoom: u8,
    max_tile: u32,
)
    requires
        old(tiles)@.no_duplicates(),
        t.0 < u32::MAX,
        t.1 < u32::MAX,
    ensures
        final(tiles)@.no_duplicates(),
        final(tiles)@.to_set() == old(tiles)@.to_set().union(tile_neighbors(t, zoom, max_tile)),
{
    let ghost start = tiles@.to_set();
    let (tx, ty) = t;
    let x0 = if tx < max_tile {
        tx
    } else {
        max_tile
    };
    let y0 = if ty < max_tile {
        ty
    } else {
        max_tile
    };
    let x1 = if tx + 1 < max_tile {
        tx + 1
    } else {
        max_tile
    };
    let y1 = if ty + 1 < max_tile {
        ty + 1
    } else {
        max_tile
    };
    insert_tile(tiles, (zoom, x0, y0));
    insert_tile(tiles, (zoom, x1, y0));
    insert_tile(tiles, (zoom, x0, y1));
    insert_tile(tiles, (zoom, x1, y1));
    assert(tiles@.to_set() =~= start.union(tile_neighbors(t, zoom, max_tile)));
}

/// All tiles that bilinear samples falling in the tiles of `base` may read,
/// each once.
pub fn required_tiles(base: &Vec<(u32, u32)>, zoom: u8, max_tile: u32) -> (tiles: Vec<(u8, u32, u32)>)
    requires
        forall|i: int| 0 <= i < base@.len() ==> (#[trigger] base@[i]).0 < u32::MAX && base@[i].1
            < u32::MAX,
    ensures
        tiles@.no_duplicates(),
        forall|k: (u8, u32, u32)|
            tiles@.contains(k) <==> exists|i: int|
                0 <= i < base@.len() && #[trigger] tile_neighbors(base@[i], zoom, max_tile).contains(k),
        forall|j: int|
            0 <= j < tiles@.len() ==> (#[trigger] tiles@[j]).0 == zoom && tiles@[j].1 <= max_tile
                && tiles@[j].2 <= max_tile,
{
    let mut tiles: Vec<(u8, u32, u32)> = Vec::new();
    let mut i: usize = 0;
    while i < base.len()
        invariant
            i <= base@.len(),
            forall|i: int| 0 <= i < base@.len() ==> (#[trigger] base@[i]).0 < u32::MAX && base@[i].1
                < u32::MAX,
            tiles@.no_duplicates(),
            forall|k: (u8, u32, u32)|
                tiles@.to_set().contains(k) <==> exists|j: int|
                    0 <= j < i && #[trigger] tile_neighbors(base@[j], zoom, max_tile).contains(k),
        decreases base@.len() - i,
    {
        let ghost before = tiles@.to_set();
        add_tile_and_bilinear_neighbors(&mut tiles, base[i], zoom, max_tile);
        assert forall|k: (u8, u32, u32)|
            tiles@.to_set().contains(k) <==> exists|j: int|
                0 <= j < i + 1 && #[trigger] tile_neighbors(base@[j], zoom, max_tile).contains(k) by {
            if tile_neighbors(base@[i as int], zoom, max_tile).contains(k) {
                assert(0 <= i < i + 1);
            }
            if before.contains(k) {
                let j = choose|j: int| 0 <= j < i && #[trigger] tile_neighbors(base@[j], zoom, max_tile).contains(k);
                assert(0 <= j < i + 1);
            }
        }
        i = i + 1;
    }
    assert forall|k: (u8, u32, u32)|
        tiles@.contains(k) <==> exists|i: int|
            0 <= i < base@.len() && #[trigger] tile_neighbors(base@[i], zoom, max_tile).contains(k) by {
        assert(tiles@.contains(k) == tiles@.to_set().contains(k));
    }
    assert forall|j: int| 0 <= j < tiles@.len() implies (#[trigger] tiles@[j]).0 == zoom
        && tiles@[j].1 <= max_tile && tiles@[j].2 <= max_tile by {
        assert(tiles@.to_set().contains(tiles@[j]));
    }
    tiles
}

/// What a tile server's reply means for the tile.
#[derive(Clone, Copy, Debug, PartialEq, Eq, Structural)]
pub enum TileReply {
    /// 404: the server has no coverage there.
    NoData,
    /// Any other status outside 200..=299: the fetch failed.
    Rejected,
    /// A success status: the body holds the tile (an empty body means no data).
    ReadBody,
}

/// Classifies the HTTP status of a tile server's reply.
pub fn classify_tile_status(status: u16) -> (r: TileReply)
    ensures
        r == (if status == 404 {
            TileReply::NoData
        } else if 200 <= status < 300 {
            TileReply::ReadBody
        } else {
            TileReply::Rejected
        }),
{
    if status == 404 {
        TileReply::NoData
    } else if 200 <= status && status < 300 {
        TileReply::ReadBody
    } else {
        TileReply::Rejected
    }
}

} // verus!
