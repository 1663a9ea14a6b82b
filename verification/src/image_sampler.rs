use vstd::prelude::*;
use crate::collection::{cleared, same_column, VoxelCollection};
use crate::element::{widened, Color, Meters, Point3D, Voxel};
use crate::hmap2d::HMap2DVoxelCollection;
use coordinate_transformer::ZoomLv;

verus! {

/// What decides the size of a pixel of an altitude tile.
pub enum AltitudeResolutionCriteria {
    /// The zoom level alone; the latitude is that of the origin of the geodetic
    /// datum.
    ZoomLv(ZoomLv),
    /// A latitude in radians, as the bit pattern of a double precision number,
    /// and the zoom level.
    Lat(u64, ZoomLv),
}

/// The sampler of altitude tiles.
pub struct JTerrainImageSampler;

/// The width and height of a tile in pixels.
pub const TILE_SIZE: usize = 256;

/// The value that marks a pixel without data.
pub const NO_DATA: i32 = 0x80_0000;

/// The number that the three bytes of a pixel encode.
pub open spec fn encoded(pixel: (u8, u8, u8)) -> int {
    65536 * pixel.0 + 256 * pixel.1 + pixel.2
}

/// The altitude in centimetres that a pixel encodes: the number itself below
/// two to the 23rd, the number less two to the 24th above it, and nothing
/// exactly at it.
pub open spec fn altitude_of(pixel: (u8, u8, u8)) -> Option<i32> {
    if encoded(pixel) < NO_DATA {
        Some(encoded(pixel) as i32)
    } else if encoded(pixel) > NO_DATA {
        Some((encoded(pixel) - 0x100_0000) as i32)
    } else {
        None
    }
}

/// The number of the pixel above which a cell stands, counting row after row
/// of 256 pixels.
pub open spec fn pixel_of(point: Point3D) -> int {
    point.1 * 256 + point.0
}

/// The cells of the surface over the first `upto` pixels: for every pixel with
/// a height one cell, in the column of the pixel at that height, holding the
/// voxel of one point of the color of the pixel. A pixel without height has no
/// cell.
pub open spec fn surface(heights: Seq<Option<i32>>, colors: Seq<Color>, upto: int) -> Map<Point3D, Voxel> {
    Map::new(
        |p: Point3D| 0 <= p.0 < 256 && 0 <= p.1 && pixel_of(p) < upto && heights[pixel_of(p)] == Some(p.2),
        |p: Point3D| Voxel { color: widened(colors[pixel_of(p)]), weight: 1 },
    )
}

/// The color of each pixel: that of the color image, or black where there is no
/// color image.
pub open spec fn colors_of(color_image: Option<Vec<Color>>, pixels: int) -> Seq<Color> {
    match color_image {
        Some(image) => image@,
        None => Seq::new(pixels as nat, |i: int| (0u8, 0u8, 0u8)),
    }
}

/// How many pixels have both a height and a color.
pub open spec fn sampled(heights: Seq<Option<i32>>, colors: Seq<Color>) -> int {
    if heights.len() <= colors.len() {
        heights.len() as int
    } else {
        colors.len() as int
    }
}

impl JTerrainImageSampler {
    /// The altitude in centimetres that one pixel of an altitude tile encodes.
    pub fn altitude(pixel: (u8, u8, u8)) -> (r: Option<i32>)
        ensures
            r == altitude_of(pixel),
    {
        let value: i32 = 65536 * (pixel.0 as i32) + 256 * (pixel.1 as i32) + pixel.2 as i32;
        if value < NO_DATA {
            Some(value)
        } else if value > NO_DATA {
            Some(value - 0x100_0000)
        } else {
            None
        }
    }

    /// The altitude in centimetres of every pixel of an altitude tile.
    pub fn altitudes(altitude_image: &Vec<(u8, u8, u8)>) -> (r: Vec<Option<i32>>)
        ensures
            r@.len() == altitude_image@.len(),
            forall|i: int| 0 <= i < r@.len() ==> #[trigger] r@[i] == altitude_of(altitude_image@[i]),
    {
        let mut out: Vec<Option<i32>> = Vec::new();
        let mut i: usize = 0;
        while i < altitude_image.len()
            invariant
                i <= altitude_image.len(),
                out@.len() == i,
                forall|j: int| 0 <= j < i ==> #[trigger] out@[j] == altitude_of(altitude_image@[j]),
            decreases altitude_image.len() - i,
        {
            out.push(Self::altitude(altitude_image[i]));
            i += 1;
        }
        out
    }

    /// The voxels of the surface of a tile. `heights` holds, row after row of
    /// 256 pixels, the height of each pixel in cells, or nothing for a pixel
    /// without data. Every pixel with a height gives one voxel, in its column
    /// at that height, in the color of the pixel.
    pub fn sampling(resolution: Meters, heights: Vec<Option<i32>>, color_image: Option<Vec<Color>>) -> (store:
        HMap2DVoxelCollection)
        requires
            heights@.len() <= TILE_SIZE * TILE_SIZE,
        ensures
            store.wf(),
            store.spec_resolution() == resolution,
            store.spec_offset() == (0i32, 0i32, 0i32),
            store.cells() == surface(
                heights@,
                colors_of(color_image, heights@.len() as int),
                sampled(heights@, colors_of(color_image, heights@.len() as int)),
            ),
    {
        let ghost colors = colors_of(color_image, heights@.len() as int);
        let n: usize = match &color_image {
            Some(image) => if image.len() < heights.len() {
                image.len()
            } else {
                heights.len()
            },
            None => heights.len(),
        };
        let mut store = HMap2DVoxelCollection::new(Vec::new(), None, (0, 0, 0), resolution);
        proof {
            assert(store.cells() =~= surface(heights@, colors, 0));
        }
        let mut i: usize = 0;
        while i < n
            invariant
                i <= n,
                n == sampled(heights@, colors),
                n <= TILE_SIZE * TILE_SIZE,
                colors == colors_of(color_image, heights@.len() as int),
                store.wf(),
                store.spec_resolution() == resolution,
                store.spec_offset() == (0i32, 0i32, 0i32),
                store.cells() == surface(heights@, colors, i as int),
            decreases n - i,
        {
            let color: Color = match &color_image {
                Some(image) => image[i],
                None => (0, 0, 0),
            };
            assert(color == colors[i as int]);
            let ghost before = store.cells();
            match heights[i] {
                Some(height) => {
                    let point: Point3D = ((i % TILE_SIZE) as i32, (i / TILE_SIZE) as i32, height);
                    store.insert_one(point, Voxel::of_color(color));
                    proof {
                        assert(pixel_of(point) == i);
                        assert(!before.dom().contains(point));
                        assert forall|q: Point3D| before.dom().contains(q) && same_column(point, q) implies false by {
                            assert(pixel_of(q) == pixel_of(point));
                        }
                        assert(cleared(before, point) =~= before);
                        assert(store.cells() =~= surface(heights@, colors, i + 1));
                    }
                },
                None => {
                    proof {
                        assert(store.cells() =~= surface(heights@, colors, i + 1));
                    }
                },
            }
            i += 1;
        }
        store
    }
}

} // verus!
