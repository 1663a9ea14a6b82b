use vstd::prelude::*;
use coordinate_transformer::ZoomLv;

verus! {

/// A cell coordinate: the index of a voxel on the x, y and z axis.
pub type Point3D = (i32, i32, i32);

/// A planar cell coordinate: the index of a column of voxels on the x and y axis.
pub type Point2D = (i32, i32);

/// The red, green and blue channel of a point or of an averaged voxel.
pub type Color = (u8, u8, u8);

/// Per-channel running sums of colors, in a type wider than a channel and a weight.
pub type ColorPool = (u16, u16, u16);

/// A resolution in metres per cell, carried as the bit pattern of a double
/// precision number. The library never computes with it: it stores it, hands it on
/// and compares two of them bit for bit.
pub type Meters = u64;

/// One metre.
pub const ONE_METER: Meters = 0x3ff0_0000_0000_0000;

/// The cell size a voxelizer works at.
pub enum Resolution {
    /// Cells with edges of this length.
    Mater(Meters),
    /// Cells the size of a pixel of the tile pyramid at this zoom level.
    Tile { zoom_lv: ZoomLv },
}

/// One voxel: the sum of the colors of the points that fell into the cell, and
/// how many points that were. A weight of zero marks a vacant cell.
#[derive(Clone, Copy, Debug, PartialEq, Eq)]
pub struct Voxel {
    pub color: ColorPool,
    pub weight: u8,
}

/// The share of an offered weight that still fits under the cap.
pub open spec fn fitting_weight(current: u8, offered: u8) -> int {
    if current + offered > u8::MAX {
        u8::MAX - current
    } else {
        offered as int
    }
}

/// One channel of the pool after `weight` points of value `channel` were added,
/// stopping at the largest value the pool can hold.
pub open spec fn pooled(sum: u16, channel: u16, weight: int) -> u16 {
    if sum + channel * weight > u16::MAX {
        u16::MAX
    } else {
        (sum + channel * weight) as u16
    }
}

/// The voxel that results when `offered` is merged into `current`: a full voxel
/// stays as it is; otherwise as much of the offered weight as fits is taken, and
/// the offered color enters the sums once for each unit of weight taken.
pub open spec fn merged(current: Voxel, offered: Voxel) -> Voxel {
    if current.weight == u8::MAX {
        current
    } else {
        let w = fitting_weight(current.weight, offered.weight);
        Voxel {
            color: (
                pooled(current.color.0, offered.color.0, w),
                pooled(current.color.1, offered.color.1, w),
                pooled(current.color.2, offered.color.2, w),
            ),
            weight: (current.weight + w) as u8,
        }
    }
}

/// One averaged channel: the sum divided by the weight, rounded down and stopped
/// at the largest channel value. A vacant voxel has no color; its average is zero.
pub open spec fn averaged_channel(sum: u16, weight: u8) -> u8 {
    if weight == 0 {
        0
    } else if sum / (weight as u16) > u8::MAX {
        u8::MAX
    } else {
        (sum / (weight as u16)) as u8
    }
}

/// The color a voxel shows: its sums divided by its weight, channel by channel.
pub open spec fn averaged(voxel: Voxel) -> Color {
    (
        averaged_channel(voxel.color.0, voxel.weight),
        averaged_channel(voxel.color.1, voxel.weight),
        averaged_channel(voxel.color.2, voxel.weight),
    )
}

/// A color with each channel widened to the pool's type.
pub open spec fn widened(color: Color) -> ColorPool {
    (color.0 as u16, color.1 as u16, color.2 as u16)
}

impl Voxel {
    /// The voxel of a single point of the given color.
    pub fn new(color: ColorPool) -> (voxel: Voxel)
        ensures
            voxel == (Voxel { color, weight: 1 }),
    {
        Voxel { color, weight: 1 }
    }

    /// The voxel of a single point whose color is given channel by channel.
    pub fn of_color(color: Color) -> (voxel: Voxel)
        ensures
            voxel == (Voxel { color: widened(color), weight: 1 }),
    {
        Voxel { color: (color.0 as u16, color.1 as u16, color.2 as u16), weight: 1 }
    }

    /// The color this voxel shows.
    pub fn average(&self) -> (color: Color)
        ensures
            color == averaged(*self),
    {
        (
            average_channel(self.color.0, self.weight),
            average_channel(self.color.1, self.weight),
            average_channel(self.color.2, self.weight),
        )
    }
}

impl Default for Voxel {
    /// The vacant voxel.
    fn default() -> (voxel: Voxel)
        ensures
            voxel == (Voxel { color: (0, 0, 0), weight: 0 }),
    {
        Voxel { color: (0, 0, 0), weight: 0 }
    }
}

fn average_channel(sum: u16, weight: u8) -> (channel: u8)
    ensures
        channel == averaged_channel(sum, weight),
{
    if weight == 0 {
        0
    } else {
        let quotient: u16 = sum / (weight as u16);
        if quotient > 255 {
            255
        } else {
            quotient as u8
        }
    }
}

fn pool_channel(sum: u16, channel: u16, weight: u8) -> (total: u16)
    ensures
        total == pooled(sum, channel, weight as int),
{
    assert(channel * weight <= 65535 * 255) by (nonlinear_arith)
        requires
            channel <= 65535,
            weight <= 255,
    ;
    let total: u32 = sum as u32 + (channel as u32) * (weight as u32);
    if total > 65535 {
        65535
    } else {
        total as u16
    }
}

/// Merges `voxel` into `current_voxel` under the weight cap: nothing changes once
/// the weight is at its largest value, and a weight that would pass it is cut to
/// what still fits.
pub fn add_color_with_weight_check(current_voxel: &mut Voxel, voxel: Voxel)
    ensures
        *final(current_voxel) == merged(*old(current_voxel), voxel),
{
    if current_voxel.weight == <u8 as Number>::max_value() {
        return ;
    }
    let weight: u8 = match Int::checked_add(&current_voxel.weight, &voxel.weight) {
        Some(_) => voxel.weight,
        None => <u8 as Number>::max_value() - current_voxel.weight,
    };
    let color: ColorPool = (
        pool_channel(current_voxel.color.0, voxel.color.0, weight),
        pool_channel(current_voxel.color.1, voxel.color.1, weight),
        pool_channel(current_voxel.color.2, voxel.color.2, weight),
    );
    current_voxel.color = color;
    current_voxel.weight = current_voxel.weight + weight;
}

/// A number the library counts in: a value in a range with two ends.
pub trait Number: Sized {
    /// The value as a mathematical integer.
    spec fn value(self) -> int;

    /// The least value of the type.
    spec fn least() -> int;

    /// The greatest value of the type.
    spec fn greatest() -> int;

    /// Every value lies between the ends of its type.
    proof fn lemma_in_range(self)
        ensures
            Self::least() <= self.value() <= Self::greatest(),
    ;

    /// The least value of the type.
    fn min_value() -> (r: Self)
        ensures
            r.value() == Self::least(),
    ;

    /// The greatest value of the type.
    fn max_value() -> (r: Self)
        ensures
            r.value() == Self::greatest(),
    ;
}

/// A whole number with sums and differences that say when they leave the
/// range of the type.
pub trait Int: Number {
    /// The number one.
    fn one() -> (r: Self)
        ensures
            r.value() == 1,
    ;

    /// The sum, if it lies in the range of the type.
    fn checked_add(&self, v: &Self) -> (r: Option<Self>)
        ensures
            r is Some <==> Self::least() <= self.value() + v.value() <= Self::greatest(),
            r is Some ==> r->Some_0.value() == self.value() + v.value(),
    ;

    /// The difference, if it lies in the range of the type.
    fn checked_sub(&self, v: &Self) -> (r: Option<Self>)
        ensures
            r is Some <==> Self::least() <= self.value() - v.value() <= Self::greatest(),
            r is Some ==> r->Some_0.value() == self.value() - v.value(),
    ;
}

/// A whole number that is never below zero.
pub trait UInt: Int {
    /// The range of the type starts at zero.
    proof fn lemma_unsigned()
        ensures
            Self::least() == 0,
    ;
}

impl Number for i32 {
    open spec fn value(self) -> int {
        self as int
    }

    open spec fn least() -> int {
        i32::MIN as int
    }

    open spec fn greatest() -> int {
        i32::MAX as int
    }

    proof fn lemma_in_range(self) {
    }

    fn min_value() -> (r: Self) {
        i32::MIN
    }

    fn max_value() -> (r: Self) {
        i32::MAX
    }
}

impl Int for i32 {
    fn one() -> (r: Self) {
        1
    }

    fn checked_add(&self, v: &Self) -> (r: Option<Self>) {
        i32::checked_add(*self, *v)
    }

    fn checked_sub(&self, v: &Self) -> (r: Option<Self>) {
        i32::checked_sub(*self, *v)
    }
}

impl Number for u8 {
    open spec fn value(self) -> int {
        self as int
    }

    open spec fn least() -> int {
        0
    }

    open spec fn greatest() -> int {
        u8::MAX as int
    }

    proof fn lemma_in_range(self) {
    }

    fn min_value() -> (r: Self) {
        0
    }

    fn max_value() -> (r: Self) {
        u8::MAX
    }
}

impl Int for u8 {
    fn one() -> (r: Self) {
        1
    }

    fn checked_add(&self, v: &Self) -> (r: Option<Self>) {
        u8::checked_add(*self, *v)
    }

    fn checked_sub(&self, v: &Self) -> (r: Option<Self>) {
        u8::checked_sub(*self, *v)
    }
}

impl UInt for u8 {
    proof fn lemma_unsigned() {
    }
}

impl Number for u16 {
    open spec fn value(self) -> int {
        self as int
    }

    open spec fn least() -> int {
        0
    }

    open spec fn greatest() -> int {
        u16::MAX as int
    }

    proof fn lemma_in_range(self) {
    }

    fn min_value() -> (r: Self) {
        0
    }

    fn max_value() -> (r: Self) {
        u16::MAX
    }
}

impl Int for u16 {
    fn one() -> (r: Self) {
        1
    }

    fn checked_add(&self, v: &Self) -> (r: Option<Self>) {
        u16::checked_add(*self, *v)
    }

    fn checked_sub(&self, v: &Self) -> (r: Option<Self>) {
        u16::checked_sub(*self, *v)
    }
}

impl UInt for u16 {
    proof fn lemma_unsigned() {
    }
}

/// The index next to `index`, up or down, if there is one.
pub fn step<P: Int>(index: &P, up: bool) -> (r: Option<P>)
    ensures
        r is Some <==> P::least() <= index.value() + (if up { 1int } else { -1int }) <= P::greatest(),
        r is Some ==> r->Some_0.value() == index.value() + (if up { 1int } else { -1int }),
{
    let one = P::one();
    if up {
        index.checked_add(&one)
    } else {
        index.checked_sub(&one)
    }
}

/// How a coordinate value names its neighbours. A neighbour whose index would
/// leave the range of the coordinate type does not exist.
pub trait Point: Sized {
    /// The coordinate moved by the given number of cells on each axis, if there
    /// is such a coordinate.
    spec fn moved(self, dx: int, dy: int, dz: int) -> Option<Self>;

    /// That `bounds` is the smallest box, given by its least and its greatest
    /// corner, that holds every coordinate of `list`.
    spec fn encloses(list: Seq<Self>, bounds: (Self, Self)) -> bool;

    /// The neighbour one cell up the first axis.
    fn right(&self) -> (r: Option<Self>)
        ensures
            r == self.moved(1, 0, 0),
    ;

    /// The neighbour one cell down the first axis.
    fn left(&self) -> (r: Option<Self>)
        ensures
            r == self.moved(-1, 0, 0),
    ;

    /// The neighbour one cell up the second axis.
    fn front(&self) -> (r: Option<Self>)
        ensures
            r == self.moved(0, 1, 0),
    ;

    /// The neighbour one cell down the second axis.
    fn back(&self) -> (r: Option<Self>)
        ensures
            r == self.moved(0, -1, 0),
    ;

    /// The neighbour one cell up the third axis; a planar coordinate has none.
    fn top(&self) -> (r: Option<Self>)
        ensures
            r == self.moved(0, 0, 1),
    ;

    /// The neighbour one cell down the third axis; a planar coordinate has none.
    fn bottom(&self) -> (r: Option<Self>)
        ensures
            r == self.moved(0, 0, -1),
    ;

    /// The least and the greatest value on each axis over a list that is not
    /// empty.
    fn calc_bounds(list: &Vec<Self>) -> (bounds: (Self, Self))
        requires
            list.len() > 0,
        ensures
            Self::encloses(list@, bounds),
    ;
}

/// Whether `value` lies in the range of a cell index.
pub open spec fn is_index(value: int) -> bool {
    i32::MIN <= value <= i32::MAX
}

/// The index of a cell on the axis numbered `axis` (0, 1 or 2).
pub open spec fn on_axis(point: Point3D, axis: int) -> int {
    if axis == 0 {
        point.0 as int
    } else if axis == 1 {
        point.1 as int
    } else {
        point.2 as int
    }
}

/// That `low` is the least and `high` the greatest index on one axis among the
/// first `n` cells of `list`.
pub open spec fn spans(list: Seq<Point3D>, n: int, axis: int, low: int, high: int) -> bool {
    &&& forall|i: int| 0 <= i < n ==> low <= on_axis(#[trigger] list[i], axis) <= high
    &&& exists|i: int| 0 <= i < n && on_axis(#[trigger] list[i], axis) == low
    &&& exists|i: int| 0 <= i < n && on_axis(#[trigger] list[i], axis) == high
}

/// A planar coordinate as the cell at height zero of its column.
pub open spec fn grounded(point: Point2D) -> Point3D {
    (point.0, point.1, 0)
}

/// The least and the greatest index over one cell more.
pub proof fn lemma_spans_step(list: Seq<Point3D>, n: int, axis: int, low: int, high: int)
    requires
        0 < n < list.len(),
        spans(list, n, axis, low, high),
    ensures
        spans(
            list,
            n + 1,
            axis,
            if on_axis(list[n], axis) < low { on_axis(list[n], axis) } else { low },
            if on_axis(list[n], axis) > high { on_axis(list[n], axis) } else { high },
        ),
{
    let v = on_axis(list[n], axis);
    let lo = if v < low { v } else { low };
    let hi = if v > high { v } else { high };
    let a = choose|i: int| 0 <= i < n && on_axis(#[trigger] list[i], axis) == low;
    let b = choose|i: int| 0 <= i < n && on_axis(#[trigger] list[i], axis) == high;
    let wa = if v < low { n } else { a };
    let wb = if v > high { n } else { b };
    assert(0 <= wa < n + 1 && on_axis(list[wa], axis) == lo);
    assert(0 <= wb < n + 1 && on_axis(list[wb], axis) == hi);
}

/// The first `n` cells of a list have a least and a greatest index on every
/// axis, and both are indices of cells.
pub proof fn lemma_span_exists(list: Seq<Point3D>, n: int, axis: int) -> (r: (int, int))
    requires
        0 < n <= list.len(),
    ensures
        spans(list, n, axis, r.0, r.1),
        is_index(r.0),
        is_index(r.1),
    decreases n,
{
    if n == 1 {
        let v = on_axis(list[0], axis);
        (v, v)
    } else {
        let before = lemma_span_exists(list, n - 1, axis);
        lemma_spans_step(list, n - 1, axis, before.0, before.1);
        let v = on_axis(list[n - 1], axis);
        (if v < before.0 { v } else { before.0 }, if v > before.1 { v } else { before.1 })
    }
}

impl Point for Point3D {
    open spec fn moved(self, dx: int, dy: int, dz: int) -> Option<Self> {
        if is_index(self.0 + dx) && is_index(self.1 + dy) && is_index(self.2 + dz) {
            Some(((self.0 + dx) as i32, (self.1 + dy) as i32, (self.2 + dz) as i32))
        } else {
            None
        }
    }

    open spec fn encloses(list: Seq<Self>, bounds: (Self, Self)) -> bool {
        &&& spans(list, list.len() as int, 0, bounds.0.0 as int, bounds.1.0 as int)
        &&& spans(list, list.len() as int, 1, bounds.0.1 as int, bounds.1.1 as int)
        &&& spans(list, list.len() as int, 2, bounds.0.2 as int, bounds.1.2 as int)
    }

    fn right(&self) -> (r: Option<Self>) {
        match step(&self.0, true) {
            Some(x) => Some((x, self.1, self.2)),
            None => None,
        }
    }

    fn left(&self) -> (r: Option<Self>) {
        match step(&self.0, false) {
            Some(x) => Some((x, self.1, self.2)),
            None => None,
        }
    }

    fn front(&self) -> (r: Option<Self>) {
        match step(&self.1, true) {
            Some(y) => Some((self.0, y, self.2)),
            None => None,
        }
    }

    fn back(&self) -> (r: Option<Self>) {
        match step(&self.1, false) {
            Some(y) => Some((self.0, y, self.2)),
            None => None,
        }
    }

    fn top(&self) -> (r: Option<Self>) {
        match step(&self.2, true) {
            Some(z) => Some((self.0, self.1, z)),
            None => None,
        }
    }

    fn bottom(&self) -> (r: Option<Self>) {
        match step(&self.2, false) {
            Some(z) => Some((self.0, self.1, z)),
            None => None,
        }
    }

    fn calc_bounds(list: &Vec<Self>) -> (bounds: (Self, Self)) {
        let mut min: Point3D = list[0];
        let mut max: Point3D = list[0];
        let mut i: usize = 1;
        assert(on_axis(list@[0], 0) == min.0 && on_axis(list@[0], 1) == min.1 && on_axis(list@[0], 2) == min.2);
        while i < list.len()
            invariant
                1 <= i <= list.len(),
                spans(list@, i as int, 0, min.0 as int, max.0 as int),
                spans(list@, i as int, 1, min.1 as int, max.1 as int),
                spans(list@, i as int, 2, min.2 as int, max.2 as int),
            decreases list.len() - i,
        {
            let point: Point3D = list[i];
            proof {
                lemma_spans_step(list@, i as int, 0, min.0 as int, max.0 as int);
                lemma_spans_step(list@, i as int, 1, min.1 as int, max.1 as int);
                lemma_spans_step(list@, i as int, 2, min.2 as int, max.2 as int);
            }
            min = (lesser(min.0, point.0), lesser(min.1, point.1), lesser(min.2, point.2));
            max = (greater(max.0, point.0), greater(max.1, point.1), greater(max.2, point.2));
            i += 1;
        }
        (min, max)
    }
}

impl Point for Point2D {
    open spec fn moved(self, dx: int, dy: int, dz: int) -> Option<Self> {
        if dz == 0 && is_index(self.0 + dx) && is_index(self.1 + dy) {
            Some(((self.0 + dx) as i32, (self.1 + dy) as i32))
        } else {
            None
        }
    }

    open spec fn encloses(list: Seq<Self>, bounds: (Self, Self)) -> bool {
        &&& spans(list.map_values(|p: Point2D| grounded(p)), list.len() as int, 0, bounds.0.0 as int, bounds.1.0 as int)
        &&& spans(list.map_values(|p: Point2D| grounded(p)), list.len() as int, 1, bounds.0.1 as int, bounds.1.1 as int)
    }

    fn right(&self) -> (r: Option<Self>) {
        match step(&self.0, true) {
            Some(x) => Some((x, self.1)),
            None => None,
        }
    }

    fn left(&self) -> (r: Option<Self>) {
        match step(&self.0, false) {
            Some(x) => Some((x, self.1)),
            None => None,
        }
    }

    fn front(&self) -> (r: Option<Self>) {
        match step(&self.1, true) {
            Some(y) => Some((self.0, y)),
            None => None,
        }
    }

    fn back(&self) -> (r: Option<Self>) {
        match step(&self.1, false) {
            Some(y) => Some((self.0, y)),
            None => None,
        }
    }

    fn top(&self) -> (r: Option<Self>) {
        None
    }

    fn bottom(&self) -> (r: Option<Self>) {
        None
    }

    fn calc_bounds(list: &Vec<Self>) -> (bounds: (Self, Self)) {
        let mut min: Point2D = list[0];
        let mut max: Point2D = list[0];
        let mut i: usize = 1;
        let ghost cells = list@.map_values(|p: Point2D| grounded(p));
        assert(on_axis(cells[0], 0) == min.0 && on_axis(cells[0], 1) == min.1);
        while i < list.len()
            invariant
                1 <= i <= list.len(),
                cells == list@.map_values(|p: Point2D| grounded(p)),
                spans(cells, i as int, 0, min.0 as int, max.0 as int),
                spans(cells, i as int, 1, min.1 as int, max.1 as int),
            decreases list.len() - i,
        {
            let point: Point2D = list[i];
            proof {
                assert(cells[i as int] == grounded(point));
                lemma_spans_step(cells, i as int, 0, min.0 as int, max.0 as int);
                lemma_spans_step(cells, i as int, 1, min.1 as int, max.1 as int);
            }
            min = (lesser(min.0, point.0), lesser(min.1, point.1));
            max = (greater(max.0, point.0), greater(max.1, point.1));
            i += 1;
        }
        (min, max)
    }
}

/// The smaller of two cell indices.
pub fn lesser(a: i32, b: i32) -> (r: i32)
    ensures
        r == (if a <= b { a } else { b }),
{
    if a <= b {
        a
    } else {
        b
    }
}

/// The larger of two cell indices.
pub fn greater(a: i32, b: i32) -> (r: i32)
    ensures
        r == (if a >= b { a } else { b }),
{
    if a >= b {
        a
    } else {
        b
    }
}

} // verus!
