use vstd::prelude::*;
use crate::element::{Color, Meters, Point3D};
use crate::voxel_mesh::{in_reach, lists_groups, Corner, VoxelMesh};

verus! {

/// The kind of image a texture holds.
#[derive(Copy, Clone, Debug, PartialEq, Eq)]
pub enum Mime {
    ImageJpeg,
    ImagePng,
}

/// An image to lay over the surface: its bytes, or where it can be found.
#[derive(Clone, Debug, PartialEq, Eq)]
pub struct TextureInfo {
    pub buf: Option<Vec<u8>>,
    pub uri: Option<String>,
    pub mime_type: Mime,
}

/// Why a binary container cannot be written.
#[derive(Copy, Clone, Debug, PartialEq, Eq)]
pub enum GlbError {
    /// The container would be longer than its 32-bit length field can say.
    SizeExceeded,
}

/// A stretch of the buffer, in bytes.
#[derive(Copy, Clone, Debug, PartialEq, Eq)]
pub struct BufferView {
    pub byte_offset: usize,
    pub byte_length: usize,
}

/// The triangles of one color: their corner indices, filled up with zeros to a
/// multiple of four, how many of them are real, and where their run starts
/// inside the view of all indices.
pub struct Primitive {
    pub color: Color,
    pub byte_offset: usize,
    pub count: usize,
    pub indices: Vec<u32>,
}

/// What a container with one primitive per color holds in its buffer, and where.
pub struct GlbLayout {
    /// The corner positions in the axes of the container, filled up with zero
    /// positions to a multiple of four.
    pub positions: Vec<Corner>,
    pub vertex_count: usize,
    pub vertices_view: BufferView,
    pub indices_view: BufferView,
    pub primitives: Vec<Primitive>,
    pub buffer_length: usize,
    pub min: Corner,
    pub max: Corner,
    pub translation: Point3D,
    pub scale: Meters,
}

/// What a container with a single textured primitive holds in its buffer, and
/// where.
pub struct TexturedGlbLayout {
    pub positions: Vec<Corner>,
    pub vertex_count: usize,
    pub vertices_view: BufferView,
    /// The corner indices of all triangles, filled up with zeros.
    pub indices: Vec<u32>,
    pub index_count: usize,
    pub indices_view: BufferView,
    /// For each corner, how far it lies from the least corner of the placed box
    /// on the first two axes, filled up with zero pairs. Divided by `uv_extent`
    /// this is the texture coordinate.
    pub uvs: Vec<(i64, i64)>,
    /// The extent of the box on the first two axes.
    pub uv_extent: (i64, i64),
    pub uv_view: BufferView,
    /// The image bytes, filled up with zeros, and their place in the buffer.
    pub texture: Option<Vec<u8>>,
    pub texture_view: Option<BufferView>,
    pub mime_type: Mime,
    pub uri: Option<String>,
    pub buffer_length: usize,
    pub min: Corner,
    pub max: Corner,
    pub translation: Point3D,
    pub scale: Meters,
}

/// The bytes of one position: three single precision numbers.
pub const POSITION_BYTES: u64 = 12;

/// The bytes of one corner index.
pub const INDEX_BYTES: u64 = 4;

/// The bytes of one texture coordinate: two single precision numbers.
pub const UV_BYTES: u64 = 8;

/// The greatest length the container's length field can say.
pub const LENGTH_LIMIT: u64 = 0xffff_ffff;

/// The least multiple of four that is not below `n`.
pub open spec fn rounded_up(n: int) -> int {
    if n % 4 == 0 {
        n
    } else {
        n + 4 - n % 4
    }
}

/// That `padded` is `list` followed by default values up to the next multiple of
/// four in length.
pub open spec fn pads<T: Default>(list: Seq<T>, padded: Seq<T>) -> bool {
    &&& padded.len() == rounded_up(list.len() as int)
    &&& padded.take(list.len() as int) == list
    &&& forall|i: int| list.len() <= i < padded.len() ==> call_ensures(T::default, (), #[trigger] padded[i])
}

/// A corner in the axes of the container, which point up where the surface
/// points back: `(x, y, z)` becomes `(x, z, -y)`.
pub open spec fn remapped(corner: Corner) -> Corner {
    (corner.0, corner.2, (-corner.1) as i64)
}

/// That `positions` holds the corners in the container's axes, then zero
/// positions up to a multiple of four.
pub open spec fn places(corners: Seq<Corner>, positions: Seq<Corner>) -> bool {
    &&& positions.len() == rounded_up(corners.len() as int)
    &&& forall|i: int| 0 <= i < corners.len() ==> #[trigger] positions[i] == remapped(corners[i])
    &&& forall|i: int| corners.len() <= i < positions.len() ==> #[trigger] positions[i] == (0i64, 0i64, 0i64)
}

/// That `padded` holds the indices of `list`, then zeros up to a multiple of four.
pub open spec fn numbers(list: Seq<usize>, padded: Seq<u32>) -> bool {
    &&& padded.len() == rounded_up(list.len() as int)
    &&& forall|k: int| 0 <= k < list.len() ==> #[trigger] padded[k] == list[k]
    &&& forall|k: int| list.len() <= k < padded.len() ==> #[trigger] padded[k] == 0
}

/// The bytes that the index runs of the first `upto` groups take.
pub open spec fn bytes_before(groups: Seq<(Color, Vec<usize>)>, upto: int) -> int
    decreases upto,
{
    if upto <= 0 {
        0
    } else {
        bytes_before(groups, upto - 1) + rounded_up(groups[upto - 1].1@.len() as int) * 4
    }
}

/// The length of the buffer of a container with one primitive per color.
pub open spec fn colored_bytes(corners: int, groups: Seq<(Color, Vec<usize>)>) -> int {
    rounded_up(corners) * 12 + bytes_before(groups, groups.len() as int)
}

/// The indices of the first `upto` groups, one group after the other.
pub open spec fn flattened(groups: Seq<(Color, Vec<usize>)>, upto: int) -> Seq<usize>
    decreases upto,
{
    if upto <= 0 {
        Seq::empty()
    } else {
        flattened(groups, upto - 1) + groups[upto - 1].1@
    }
}

/// The length of the buffer of a container with a single textured primitive.
pub open spec fn textured_bytes(corners: int, indices: int, texture: Option<Seq<u8>>) -> int {
    rounded_up(corners) * 12 + rounded_up(indices) * 4 + rounded_up(corners) * 8 + match texture {
        Some(bytes) => rounded_up(bytes.len() as int),
        None => 0,
    }
}

/// That every index of every group is below `corners`.
pub open spec fn indices_fit(groups: Seq<(Color, Vec<usize>)>, corners: int) -> bool {
    forall|i: int, k: int|
        0 <= i < groups.len() && 0 <= k < groups[i].1@.len() ==> (#[trigger] groups[i].1@[k]) < corners
}

/// That `layout` is the layout of the given corners and groups: the positions,
/// then one run of indices per group in the order of `groups`, each view and each
/// run on the four-byte grid.
pub open spec fn describes(
    layout: GlbLayout,
    corners: Seq<Corner>,
    groups: Seq<(Color, Vec<usize>)>,
    bounds: (Corner, Corner),
    offset: Point3D,
    resolution: Meters,
) -> bool {
    &&& layout.vertex_count == corners.len()
    &&& places(corners, layout.positions@)
    &&& layout.vertices_view == (BufferView { byte_offset: 0, byte_length: (rounded_up(corners.len() as int) * 12) as usize })
    &&& layout.indices_view == (BufferView {
        byte_offset: (rounded_up(corners.len() as int) * 12) as usize,
        byte_length: bytes_before(groups, groups.len() as int) as usize,
    })
    &&& layout.primitives@.len() == groups.len()
    &&& forall|i: int|
        0 <= i < groups.len() ==> {
            &&& (#[trigger] layout.primitives@[i]).color == groups[i].0
            &&& layout.primitives@[i].count == groups[i].1@.len()
            &&& layout.primitives@[i].byte_offset == bytes_before(groups, i)
            &&& numbers(groups[i].1@, layout.primitives@[i].indices@)
        }
    &&& layout.buffer_length == colored_bytes(corners.len() as int, groups)
    &&& layout.min == bounds.0
    &&& layout.max == bounds.1
    &&& layout.translation == offset
    &&& layout.scale == resolution
}

/// How far a corner lies from the least corner of the placed box on the first
/// two axes.
pub open spec fn uv_of(corner: Corner, bounds: (Corner, Corner), offset: Point3D) -> (i64, i64) {
    ((corner.0 - (bounds.0.0 + offset.0)) as i64, (corner.1 - (bounds.0.1 + offset.1)) as i64)
}

/// That `uvs` holds the distances of the corners, then zero pairs up to a
/// multiple of four.
pub open spec fn projects(corners: Seq<Corner>, bounds: (Corner, Corner), offset: Point3D, uvs: Seq<(i64, i64)>) -> bool {
    &&& uvs.len() == rounded_up(corners.len() as int)
    &&& forall|i: int| 0 <= i < corners.len() ==> #[trigger] uvs[i] == uv_of(corners[i], bounds, offset)
    &&& forall|i: int| corners.len() <= i < uvs.len() ==> #[trigger] uvs[i] == (0i64, 0i64)
}

/// That `padded` holds `bytes`, then zeros up to a multiple of four.
pub open spec fn fills(bytes: Seq<u8>, padded: Seq<u8>) -> bool {
    &&& padded.len() == rounded_up(bytes.len() as int)
    &&& padded.take(bytes.len() as int) == bytes
    &&& forall|k: int| bytes.len() <= k < padded.len() ==> #[trigger] padded[k] == 0
}

/// That `layout` is the textured layout of the given corners, groups and image:
/// positions, indices, texture coordinates and image follow each other, each on
/// the four-byte grid.
pub open spec fn describes_textured(
    layout: TexturedGlbLayout,
    corners: Seq<Corner>,
    groups: Seq<(Color, Vec<usize>)>,
    bounds: (Corner, Corner),
    offset: Point3D,
    resolution: Meters,
    texture: TextureInfo,
) -> bool {
    let n = corners.len() as int;
    let all = flattened(groups, groups.len() as int);
    let vertices_length = rounded_up(n) * 12;
    let indices_length = rounded_up(all.len() as int) * 4;
    let uv_length = rounded_up(n) * 8;
    &&& layout.vertex_count == n
    &&& places(corners, layout.positions@)
    &&& layout.vertices_view == (BufferView { byte_offset: 0, byte_length: vertices_length as usize })
    &&& layout.index_count == all.len()
    &&& numbers(all, layout.indices@)
    &&& layout.indices_view == (BufferView { byte_offset: vertices_length as usize, byte_length: indices_length as usize })
    &&& projects(corners, bounds, offset, layout.uvs@)
    &&& layout.uv_extent == (((bounds.1.0 - bounds.0.0) as i64, (bounds.1.1 - bounds.0.1) as i64))
    &&& layout.uv_view == (BufferView {
        byte_offset: (vertices_length + indices_length) as usize,
        byte_length: uv_length as usize,
    })
    &&& match texture.buf {
        Some(bytes) => {
            &&& layout.texture.is_some()
            &&& fills(bytes@, layout.texture.unwrap()@)
            &&& layout.texture_view == Some(
                BufferView {
                    byte_offset: (vertices_length + indices_length + uv_length) as usize,
                    byte_length: rounded_up(bytes@.len() as int) as usize,
                },
            )
        },
        None => layout.texture.is_none() && layout.texture_view.is_none(),
    }
    &&& layout.mime_type == texture.mime_type
    &&& layout.uri == texture.uri
    &&& layout.buffer_length == textured_bytes(
        n,
        all.len() as int,
        match texture.buf {
            Some(bytes) => Some(bytes@),
            None => None,
        },
    )
    &&& layout.min == bounds.0
    &&& layout.max == bounds.1
    &&& layout.translation == offset
    &&& layout.scale == resolution
}

/// The length that the container's header states: the text part rounded up to
/// the four-byte grid, then the buffer.
pub open spec fn container_length(json_length: int, buffer_length: int) -> int {
    rounded_up(json_length) + buffer_length
}

pub proof fn lemma_rounded_up(n: int)
    requires
        0 <= n,
    ensures
        rounded_up(n) % 4 == 0,
        n <= rounded_up(n) < n + 4,
{
}

pub proof fn lemma_bytes_before(groups: Seq<(Color, Vec<usize>)>, i: int, j: int)
    requires
        0 <= i <= j <= groups.len(),
    ensures
        0 <= bytes_before(groups, i) <= bytes_before(groups, j),
        bytes_before(groups, i) % 4 == 0,
    decreases j,
{
    if i < j {
        lemma_bytes_before(groups, i, j - 1);
        lemma_rounded_up(groups[j - 1].1@.len() as int);
    } else if i > 0 {
        lemma_bytes_before(groups, i - 1, i - 1);
        lemma_rounded_up(groups[i - 1].1@.len() as int);
    }
}

/// Every view of a layout with one primitive per color, and every run of
/// indices in it, starts at a multiple of four and has a length that is a
/// multiple of four.
pub proof fn lemma_colored_views_aligned(
    layout: GlbLayout,
    corners: Seq<Corner>,
    groups: Seq<(Color, Vec<usize>)>,
    bounds: (Corner, Corner),
    offset: Point3D,
    resolution: Meters,
)
    requires
        describes(layout, corners, groups, bounds, offset, resolution),
        colored_bytes(corners.len() as int, groups) <= LENGTH_LIMIT,
    ensures
        layout.vertices_view.byte_offset % 4 == 0,
        layout.vertices_view.byte_length % 4 == 0,
        layout.indices_view.byte_offset % 4 == 0,
        layout.indices_view.byte_length % 4 == 0,
        layout.buffer_length % 4 == 0,
        layout.buffer_length == layout.vertices_view.byte_length + layout.indices_view.byte_length,
        forall|i: int|
            0 <= i < layout.primitives@.len() ==> (#[trigger] layout.primitives@[i]).byte_offset % 4 == 0
                && layout.primitives@[i].indices@.len() % 4 == 0,
{
    lemma_rounded_up(corners.len() as int);
    lemma_bytes_before(groups, groups.len() as int, groups.len() as int);
    assert forall|i: int| 0 <= i < layout.primitives@.len() implies (#[trigger] layout.primitives@[i]).byte_offset
        % 4 == 0 && layout.primitives@[i].indices@.len() % 4 == 0 by {
        lemma_bytes_before(groups, i, groups.len() as int);
        lemma_rounded_up(groups[i].1@.len() as int);
    }
}

/// Every view of a textured layout starts at a multiple of four and has a
/// length that is a multiple of four.
pub proof fn lemma_textured_views_aligned(
    layout: TexturedGlbLayout,
    corners: Seq<Corner>,
    groups: Seq<(Color, Vec<usize>)>,
    bounds: (Corner, Corner),
    offset: Point3D,
    resolution: Meters,
    texture: TextureInfo,
)
    requires
        describes_textured(layout, corners, groups, bounds, offset, resolution, texture),
        layout.buffer_length <= LENGTH_LIMIT,
        textured_bytes(
            corners.len() as int,
            flattened(groups, groups.len() as int).len() as int,
            match texture.buf {
                Some(bytes) => Some(bytes@),
                None => None,
            },
        ) <= LENGTH_LIMIT,
    ensures
        layout.vertices_view.byte_offset % 4 == 0,
        layout.vertices_view.byte_length % 4 == 0,
        layout.indices_view.byte_offset % 4 == 0,
        layout.indices_view.byte_length % 4 == 0,
        layout.uv_view.byte_offset % 4 == 0,
        layout.uv_view.byte_length % 4 == 0,
        layout.texture_view.is_some() ==> layout.texture_view.unwrap().byte_offset % 4 == 0
            && layout.texture_view.unwrap().byte_length % 4 == 0,
        layout.buffer_length % 4 == 0,
{
    lemma_rounded_up(corners.len() as int);
    lemma_rounded_up(flattened(groups, groups.len() as int).len() as int);
    match texture.buf {
        Some(bytes) => {
            lemma_rounded_up(bytes@.len() as int);
        },
        None => {},
    }
}

/// Rounding and padding to the four-byte grid of a binary container.
pub trait GlbGenPrivateMethod {
    /// Fills a list up with default values until its length is a multiple of four.
    fn pad_to_mul_of_four<T: Default + Clone>(vec: Vec<T>) -> (padded: Vec<T>)
        ensures
            pads(vec@, padded@),
    {
        let mut vec = vec;
        let ghost list = vec@;
        let remainder: usize = vec.len() % 4;
        if remainder != 0 {
            let mut k: usize = remainder;
            while k < 4
                invariant
                    1 <= remainder <= k <= 4,
                    remainder == list.len() % 4,
                    vec@.len() == list.len() + (k - remainder),
                    vec@.take(list.len() as int) == list,
                    forall|i: int| list.len() <= i < vec@.len() ==> call_ensures(T::default, (), #[trigger] vec@[i]),
                decreases 4 - k,
            {
                let ghost before = vec@;
                vec.push(T::default());
                assert(vec@.take(list.len() as int) == before.take(list.len() as int));
                k += 1;
            }
        } else {
            assert(vec@.take(list.len() as int) == list);
        }
        vec
    }

    /// The least multiple of four that is not below `n`.
    fn round_up_to_mul_of_four(n: usize) -> (r: usize)
        requires
            n <= usize::MAX - 3,
        ensures
            r == rounded_up(n as int),
    {
        let remainder: usize = n % 4;
        if remainder == 0 {
            n
        } else {
            n + 4 - remainder
        }
    }

    /// The bytes that `count` items of `width` bytes take once their number is
    /// rounded up to a multiple of four, if that stays within the limit of a
    /// container.
    fn padded_bytes(count: usize, width: u64) -> (r: Option<u64>)
        requires
            1 <= width <= 16,
        ensures
            r.is_some() <==> rounded_up(count as int) * width <= LENGTH_LIMIT,
            r.is_some() ==> r.unwrap() == rounded_up(count as int) * width,
    {
        if count > 0xffff_fffc {
            let ghost rounded = rounded_up(count as int);
            assert(rounded * width > LENGTH_LIMIT) by (nonlinear_arith)
                requires
                    rounded >= 0x1_0000_0000,
                    width >= 1,
            ;
            return None;
        }
        let rounded: u64 = Self::round_up_to_mul_of_four(count) as u64;
        assert(rounded * width <= 0xffff_fffc * 16) by (nonlinear_arith)
            requires
                rounded <= 0xffff_fffc,
                width <= 16,
        ;
        let bytes: u64 = rounded * width;
        if bytes > LENGTH_LIMIT {
            None
        } else {
            Some(bytes)
        }
    }

    /// The length for the header of a container whose text part is
    /// `json_length` bytes long and whose buffer is `buffer_length` bytes long.
    /// A container that would be longer than the header can say is refused.
    fn container_length(json_length: usize, buffer_length: usize) -> (r: Result<u32, GlbError>)
        ensures
            r is Ok <==> container_length(json_length as int, buffer_length as int) <= LENGTH_LIMIT,
            r is Ok ==> r.unwrap() == container_length(json_length as int, buffer_length as int),
            r is Err ==> r == Err::<u32, GlbError>(GlbError::SizeExceeded),
    {
        if json_length > 0xffff_fffc || buffer_length > 0xffff_ffff {
            return Err(GlbError::SizeExceeded);
        }
        let total: u64 = Self::round_up_to_mul_of_four(json_length) as u64 + buffer_length as u64;
        if total > LENGTH_LIMIT {
            Err(GlbError::SizeExceeded)
        } else {
            Ok(total as u32)
        }
    }
}

/// What building the layout with one primitive per color gives: the layout when
/// the buffer stays within the limit of a container, the refusal when it does
/// not.
pub open spec fn colored_outcome(
    r: Result<GlbLayout, GlbError>,
    corners: Seq<Corner>,
    groups: Seq<(Color, Vec<usize>)>,
    bounds: (Corner, Corner),
    offset: Point3D,
    resolution: Meters,
) -> bool {
    &&& r is Ok <==> colored_bytes(corners.len() as int, groups) <= LENGTH_LIMIT
    &&& r is Ok ==> describes(r->Ok_0, corners, groups, bounds, offset, resolution)
    &&& r is Err ==> r->Err_0 == GlbError::SizeExceeded
}

/// What building the textured layout gives: the layout when the buffer stays
/// within the limit of a container, the refusal when it does not.
pub open spec fn textured_outcome(
    r: Result<TexturedGlbLayout, GlbError>,
    corners: Seq<Corner>,
    groups: Seq<(Color, Vec<usize>)>,
    bounds: (Corner, Corner),
    offset: Point3D,
    resolution: Meters,
    texture: TextureInfo,
) -> bool {
    &&& r is Ok <==> textured_bytes(
        corners.len() as int,
        flattened(groups, groups.len() as int).len() as int,
        match texture.buf {
            Some(bytes) => Some(bytes@),
            None => None,
        },
    ) <= LENGTH_LIMIT
    &&& r is Ok ==> describes_textured(r->Ok_0, corners, groups, bounds, offset, resolution, texture)
    &&& r is Err ==> r->Err_0 == GlbError::SizeExceeded
}

proof fn lemma_flattened(groups: Seq<(Color, Vec<usize>)>, upto: int, corners: int)
    requires
        0 <= upto <= groups.len(),
        indices_fit(groups, corners),
    ensures
        forall|k: int| 0 <= k < flattened(groups, upto).len() ==> #[trigger] flattened(groups, upto)[k] < corners,
    decreases upto,
{
    if upto > 0 {
        lemma_flattened(groups, upto - 1, corners);
        assert forall|k: int| 0 <= k < flattened(groups, upto).len() implies #[trigger] flattened(groups, upto)[k]
            < corners by {
            let head = flattened(groups, upto - 1);
            if k >= head.len() {
                assert(flattened(groups, upto)[k] == groups[upto - 1].1@[k - head.len()]);
            }
        }
    }
}

/// Laying out the buffer of a binary container for a surface.
pub trait GlbGen: GlbGenPrivateMethod {
    /// The corners in the axes of the container, filled up to a multiple of four.
    fn place(vertices: &Vec<Corner>) -> (positions: Vec<Corner>)
        requires
            forall|i: int| 0 <= i < vertices@.len() ==> in_reach(#[trigger] vertices@[i]),
        ensures
            places(vertices@, positions@),
    {
        let mut out: Vec<Corner> = Vec::new();
        let mut i: usize = 0;
        while i < vertices.len()
            invariant
                i <= vertices.len(),
                out@.len() == i,
                forall|j: int| 0 <= j < vertices@.len() ==> in_reach(#[trigger] vertices@[j]),
                forall|j: int| 0 <= j < i ==> #[trigger] out@[j] == remapped(vertices@[j]),
            decreases vertices.len() - i,
        {
            let corner: Corner = vertices[i];
            assert(in_reach(vertices@[i as int]));
            out.push((corner.0, corner.2, -corner.1));
            i += 1;
        }
        let ghost list = out@;
        let padded = Self::pad_to_mul_of_four(out);
        proof {
            assert forall|j: int| 0 <= j < vertices@.len() implies #[trigger] padded@[j] == remapped(vertices@[j]) by {
                assert(padded@.take(list.len() as int)[j] == list[j]);
            }
        }
        padded
    }

    /// The indices as the container stores them, filled up with zeros to a
    /// multiple of four.
    fn number(indices: &Vec<usize>) -> (padded: Vec<u32>)
        requires
            forall|k: int| 0 <= k < indices@.len() ==> #[trigger] indices@[k] <= u32::MAX,
        ensures
            numbers(indices@, padded@),
    {
        let mut out: Vec<u32> = Vec::new();
        let mut k: usize = 0;
        while k < indices.len()
            invariant
                k <= indices.len(),
                out@.len() == k,
                forall|j: int| 0 <= j < indices@.len() ==> #[trigger] indices@[j] <= u32::MAX,
                forall|j: int| 0 <= j < k ==> #[trigger] out@[j] == indices@[j],
            decreases indices.len() - k,
        {
            let index: usize = indices[k];
            out.push(index as u32);
            k += 1;
        }
        let ghost list = out@;
        let padded = Self::pad_to_mul_of_four(out);
        proof {
            assert forall|j: int| 0 <= j < indices@.len() implies #[trigger] padded@[j] == indices@[j] by {
                assert(padded@.take(list.len() as int)[j] == list[j]);
            }
        }
        padded
    }

    /// The layout of a container with one primitive per color, from the corners
    /// of a surface and its triangles by color. The runs of indices follow each
    /// other in the order of `groups`.
    fn colored(
        vertices: Vec<Corner>,
        groups: Vec<(Color, Vec<usize>)>,
        bounds: (Corner, Corner),
        offset: Point3D,
        resolution: Meters,
    ) -> (r: Result<GlbLayout, GlbError>)
        requires
            forall|i: int| 0 <= i < vertices@.len() ==> in_reach(#[trigger] vertices@[i]),
            indices_fit(groups@, vertices@.len() as int),
        ensures
            colored_outcome(r, vertices@, groups@, bounds, offset, resolution),
    {
        let n: usize = vertices.len();
        proof {
            lemma_bytes_before(groups@, 0, groups@.len() as int);
        }
        let vertices_length: u64 = match Self::padded_bytes(n, POSITION_BYTES) {
            Some(bytes) => bytes,
            None => {
                return Err(GlbError::SizeExceeded);
            },
        };
        proof {
            lemma_rounded_up(n as int);
        }
        let mut total: u64 = 0;
        let mut primitives: Vec<Primitive> = Vec::new();
        let mut i: usize = 0;
        while i < groups.len()
            invariant
                i <= groups.len(),
                n == vertices@.len(),
                n <= u32::MAX,
                indices_fit(groups@, n as int),
                vertices_length == rounded_up(n as int) * 12,
                total == bytes_before(groups@, i as int),
                vertices_length + total <= LENGTH_LIMIT,
                primitives@.len() == i,
                forall|j: int|
                    0 <= j < i ==> {
                        &&& (#[trigger] primitives@[j]).color == groups@[j].0
                        &&& primitives@[j].count == groups@[j].1@.len()
                        &&& primitives@[j].byte_offset == bytes_before(groups@, j)
                        &&& numbers(groups@[j].1@, primitives@[j].indices@)
                    },
            decreases groups.len() - i,
        {
            proof {
                lemma_bytes_before(groups@, i + 1, groups@.len() as int);
                lemma_bytes_before(groups@, i as int, i as int);
            }
            let count: usize = groups[i].1.len();
            let run: u64 = match Self::padded_bytes(count, INDEX_BYTES) {
                Some(bytes) => bytes,
                None => {
                    return Err(GlbError::SizeExceeded);
                },
            };
            if vertices_length + total + run > LENGTH_LIMIT {
                return Err(GlbError::SizeExceeded);
            }
            assert forall|k: int| 0 <= k < groups@[i as int].1@.len() implies #[trigger] groups@[i as int].1@[k]
                <= u32::MAX by {
                assert(groups@[i as int].1@[k] < n);
            }
            let indices: Vec<u32> = Self::number(&groups[i].1);
            let color: Color = groups[i].0;
            primitives.push(Primitive { color, byte_offset: total as usize, count, indices });
            total = total + run;
            i += 1;
        }
        let positions: Vec<Corner> = Self::place(&vertices);
        Ok(
            GlbLayout {
                positions,
                vertex_count: n,
                vertices_view: BufferView { byte_offset: 0, byte_length: vertices_length as usize },
                indices_view: BufferView { byte_offset: vertices_length as usize, byte_length: total as usize },
                primitives,
                buffer_length: (vertices_length + total) as usize,
                min: bounds.0,
                max: bounds.1,
                translation: offset,
                scale: resolution,
            },
        )
    }

    /// The layout of a container with one primitive per color for a surface.
    /// The colors follow each other in the order in which the surface hands
    /// them out, which it does not promise.
    fn from_voxel_mesh(voxel_mesh: VoxelMesh) -> (r: Result<GlbLayout, GlbError>)
        requires
            voxel_mesh.wf(),
        ensures
            exists|groups: Seq<(Color, Vec<usize>)>| #[trigger]
                lists_groups(voxel_mesh.groups(), groups) && colored_outcome(
                    r,
                    voxel_mesh.corners(),
                    groups,
                    voxel_mesh.spec_bounds(),
                    voxel_mesh.spec_offset(),
                    voxel_mesh.spec_resolution(),
                ),
    {
        let vertices: Vec<Corner> = voxel_mesh.vertices();
        let bounds = voxel_mesh.bounds();
        let offset = voxel_mesh.offset();
        let resolution = voxel_mesh.resolution();
        let groups = voxel_mesh.into_groups();
        let r = Self::colored(vertices, groups, bounds, offset, resolution);
        proof {
            assert(lists_groups(voxel_mesh.groups(), groups@));
        }
        r
    }

    /// The layout of a container with a single textured primitive, from the
    /// corners of a surface, its triangles by color and the image. The triangles
    /// follow each other in the order of `groups`; the texture is laid over the
    /// first two axes of the box around the surface.
    fn textured(
        vertices: Vec<Corner>,
        groups: Vec<(Color, Vec<usize>)>,
        bounds: (Corner, Corner),
        offset: Point3D,
        resolution: Meters,
        texture: TextureInfo,
    ) -> (r: Result<TexturedGlbLayout, GlbError>)
        requires
            forall|i: int| 0 <= i < vertices@.len() ==> in_reach(#[trigger] vertices@[i]),
            in_reach(bounds.0),
            in_reach(bounds.1),
            indices_fit(groups@, vertices@.len() as int),
        ensures
            textured_outcome(r, vertices@, groups@, bounds, offset, resolution, texture),
    {
        let n: usize = vertices.len();
        let mut all: Vec<usize> = Vec::new();
        let mut i: usize = 0;
        while i < groups.len()
            invariant
                i <= groups.len(),
                all@ == flattened(groups@, i as int),
            decreases groups.len() - i,
        {
            let mut k: usize = 0;
            while k < groups[i].1.len()
                invariant
                    i < groups.len(),
                    k <= groups@[i as int].1@.len(),
                    all@ == flattened(groups@, i as int) + groups@[i as int].1@.take(k as int),
                decreases groups@[i as int].1@.len() - k,
            {
                let index: usize = groups[i].1[k];
                all.push(index);
                proof {
                    assert(groups@[i as int].1@.take(k + 1) == groups@[i as int].1@.take(k as int).push(
                        groups@[i as int].1@[k as int],
                    ));
                }
                k += 1;
            }
            proof {
                assert(groups@[i as int].1@.take(k as int) == groups@[i as int].1@);
            }
            i += 1;
        }
        proof {
            lemma_rounded_up(n as int);
            lemma_rounded_up(all@.len() as int);
            lemma_flattened(groups@, groups@.len() as int, n as int);
        }
        let index_count: usize = all.len();
        let vertices_length: u64 = match Self::padded_bytes(n, POSITION_BYTES) {
            Some(bytes) => bytes,
            None => {
                return Err(GlbError::SizeExceeded);
            },
        };
        let indices_length: u64 = match Self::padded_bytes(index_count, INDEX_BYTES) {
            Some(bytes) => bytes,
            None => {
                return Err(GlbError::SizeExceeded);
            },
        };
        let uv_length: u64 = match Self::padded_bytes(n, UV_BYTES) {
            Some(bytes) => bytes,
            None => {
                return Err(GlbError::SizeExceeded);
            },
        };
        let texture_length: u64 = match &texture.buf {
            Some(bytes) => {
                proof {
                    lemma_rounded_up(bytes@.len() as int);
                }
                match Self::padded_bytes(bytes.len(), 1) {
                    Some(length) => length,
                    None => {
                        return Err(GlbError::SizeExceeded);
                    },
                }
            },
            None => 0,
        };
        let buffer_length: u64 = vertices_length + indices_length + uv_length + texture_length;
        if buffer_length > LENGTH_LIMIT {
            return Err(GlbError::SizeExceeded);
        }
        let mut uvs: Vec<(i64, i64)> = Vec::new();
        let mut j: usize = 0;
        while j < vertices.len()
            invariant
                j <= vertices.len(),
                uvs@.len() == j,
                in_reach(bounds.0),
                forall|m: int| 0 <= m < vertices@.len() ==> in_reach(#[trigger] vertices@[m]),
                forall|m: int| 0 <= m < j ==> #[trigger] uvs@[m] == uv_of(vertices@[m], bounds, offset),
            decreases vertices.len() - j,
        {
            let corner: Corner = vertices[j];
            assert(in_reach(vertices@[j as int]));
            uvs.push((corner.0 - (bounds.0.0 + offset.0 as i64), corner.1 - (bounds.0.1 + offset.1 as i64)));
            j += 1;
        }
        let ghost plain = uvs@;
        let uvs = Self::pad_to_mul_of_four(uvs);
        proof {
            assert forall|m: int| 0 <= m < vertices@.len() implies #[trigger] uvs@[m] == uv_of(
                vertices@[m],
                bounds,
                offset,
            ) by {
                assert(uvs@.take(plain.len() as int)[m] == plain[m]);
            }
        }
        let indices: Vec<u32> = Self::number(&all);
        let positions: Vec<Corner> = Self::place(&vertices);
        let TextureInfo { buf, uri, mime_type } = texture;
        let (image, texture_view) = match buf {
            Some(bytes) => {
                let padded = Self::pad_to_mul_of_four(bytes);
                (
                    Some(padded),
                    Some(
                        BufferView {
                            byte_offset: (vertices_length + indices_length + uv_length) as usize,
                            byte_length: texture_length as usize,
                        },
                    ),
                )
            },
            None => (None, None),
        };
        Ok(
            TexturedGlbLayout {
                positions,
                vertex_count: n,
                vertices_view: BufferView { byte_offset: 0, byte_length: vertices_length as usize },
                indices,
                index_count,
                indices_view: BufferView {
                    byte_offset: vertices_length as usize,
                    byte_length: indices_length as usize,
                },
                uvs,
                uv_extent: (bounds.1.0 - bounds.0.0, bounds.1.1 - bounds.0.1),
                uv_view: BufferView {
                    byte_offset: (vertices_length + indices_length) as usize,
                    byte_length: uv_length as usize,
                },
                texture: image,
                texture_view,
                mime_type,
                uri,
                buffer_length: buffer_length as usize,
                min: bounds.0,
                max: bounds.1,
                translation: offset,
                scale: resolution,
            },
        )
    }

    /// The layout of a container with a single textured primitive for a
    /// surface. The colors follow each other in the order in which the surface
    /// hands them out, which it does not promise.
    fn from_voxel_mesh_with_texture_projected_z(voxel_mesh: VoxelMesh, texture: TextureInfo) -> (r: Result<
        TexturedGlbLayout,
        GlbError,
    >)
        requires
            voxel_mesh.wf(),
        ensures
            exists|groups: Seq<(Color, Vec<usize>)>| #[trigger]
                lists_groups(voxel_mesh.groups(), groups) && textured_outcome(
                    r,
                    voxel_mesh.corners(),
                    groups,
                    voxel_mesh.spec_bounds(),
                    voxel_mesh.spec_offset(),
                    voxel_mesh.spec_resolution(),
                    texture,
                ),
    {
        let vertices: Vec<Corner> = voxel_mesh.vertices();
        let bounds = voxel_mesh.bounds();
        let offset = voxel_mesh.offset();
        let resolution = voxel_mesh.resolution();
        let groups = voxel_mesh.into_groups();
        let r = Self::textured(vertices, groups, bounds, offset, resolution, texture);
        proof {
            assert(lists_groups(voxel_mesh.groups(), groups@));
        }
        r
    }
}

/// The layouts of binary containers.
pub struct GlbParts;

impl GlbGenPrivateMethod for GlbParts {

}

impl GlbGen for GlbParts {

}

} // verus!
