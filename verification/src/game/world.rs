//! The arena's floor, in whole world units.

use crate::bits::{at_most, nan, negate, negated, scaled};
use crate::scale::{
    GRID_COLUMNS, GRID_MAJOR_EVERY, GRID_ROWS, GRID_SPACING, MARK_COLUMNS, MARK_ROWS, MARK_SPACING,
    WORLD_HALF_HEIGHT, WORLD_HALF_WIDTH,
};
use vstd::prelude::*;

verus! {

/// How strongly a floor marking reads.
#[derive(Clone, Copy, Debug, PartialEq, Eq, Structural)]
pub enum Strength {
    /// A minor grid line: 0.16.
    Minor,
    /// A major grid line: 0.30.
    Major,
    /// A marking: 0.45.
    Marking,
}

/// The opacity a minor grid line is drawn with, by its bit pattern: 0.16.
pub const MINOR: u32 = 0x3e23_d70a;

/// The opacity a major grid line is drawn with, by its bit pattern: 0.3.
pub const MAJOR: u32 = 0x3e99_999a;

/// The opacity a marking is drawn with, by its bit pattern: 0.45.
pub const MARKING: u32 = 0x3ee6_6666;

impl Strength {
    /// The opacity a marking is drawn with, by its bit pattern.
    pub fn alpha(self) -> (bits: u32)
        ensures
            bits == match self {
                Strength::Minor => MINOR,
                Strength::Major => MAJOR,
                Strength::Marking => MARKING,
            },
    {
        match self {
            Strength::Minor => MINOR,
            Strength::Major => MAJOR,
            Strength::Marking => MARKING,
        }
    }
}

/// A rectangle painted flat on the floor, around its center.
#[derive(Clone, Copy, Debug, PartialEq, Eq, Structural)]
pub struct FloorRect {
    pub x: i32,
    pub y: i32,
    pub width: i32,
    pub height: i32,
    pub strength: Strength,
    pub depth: i32,
}

/// Every so many lines one is a major one.
pub open spec fn line_strength(index: int) -> Strength {
    if index % GRID_MAJOR_EVERY as int == 0 {
        Strength::Major
    } else {
        Strength::Minor
    }
}

/// A rectangle of the floor.
pub open spec fn flat(
    x: int,
    y: int,
    width: int,
    height: int,
    strength: Strength,
    depth: int,
) -> FloorRect {
    FloorRect {
        x: x as i32,
        y: y as i32,
        width: width as i32,
        height: height as i32,
        strength,
        depth: depth as i32,
    }
}

/// A line down the world.
pub open spec fn column_line(index: int) -> FloorRect {
    flat(
        index * GRID_SPACING - WORLD_HALF_WIDTH,
        0,
        1,
        2 * WORLD_HALF_HEIGHT,
        line_strength(index),
        -9,
    )
}

/// A line across the world.
pub open spec fn row_line(index: int) -> FloorRect {
    flat(
        0,
        index * GRID_SPACING - WORLD_HALF_HEIGHT,
        2 * WORLD_HALF_WIDTH,
        1,
        line_strength(index),
        -9,
    )
}

/// One of the two strokes of a registration mark.
pub open spec fn mark_stroke(column: int, row: int, upright: bool) -> FloorRect {
    flat(
        column * MARK_SPACING - WORLD_HALF_WIDTH,
        row * MARK_SPACING - WORLD_HALF_HEIGHT,
        if upright {
            2
        } else {
            14
        },
        if upright {
            14
        } else {
            2
        },
        Strength::Marking,
        -8,
    )
}

/// The strokes of the registration marks, column by column.
pub open spec fn mark_at(place: int) -> FloorRect {
    mark_stroke(place / 16, place % 16 / 2, place % 2 == 1)
}

/// The grid and its registration marks.
///
/// Lines are laid out from one corner so the pattern tiles: the line that would
/// sit on the far edge is the same line as the one on the near edge.
pub open spec fn grid() -> Seq<FloorRect> {
    Seq::new(48, |index: int| column_line(index)) + Seq::new(32, |index: int| row_line(index))
        + Seq::new(192, |place: int| mark_at(place))
}

/// Whether a line is a major one.
fn strength_of(index: i32) -> (strength: Strength)
    requires
        0 <= index,
    ensures
        strength == line_strength(index as int),
{
    if index % GRID_MAJOR_EVERY as i32 == 0 {
        Strength::Major
    } else {
        Strength::Minor
    }
}

/// Paint the grid and its registration marks.
pub fn spawn_grid() -> (rects: Vec<FloorRect>)
    ensures
        rects@ == grid(),
{
    let mut rects: Vec<FloorRect> = Vec::new();
    let ghost columns = Seq::new(48, |index: int| column_line(index));
    let ghost rows = Seq::new(32, |index: int| row_line(index));
    let ghost marks = Seq::new(192, |place: int| mark_at(place));
    let mut index: i32 = 0;
    while index < 48
        invariant
            0 <= index <= 48,
            columns == Seq::new(48, |index: int| column_line(index)),
            rects@ =~= columns.take(index as int),
        decreases 48 - index,
    {
        rects.push(
            FloorRect {
                x: index * GRID_SPACING as i32 - WORLD_HALF_WIDTH as i32,
                y: 0,
                width: 1,
                height: 2 * WORLD_HALF_HEIGHT as i32,
                strength: strength_of(index),
                depth: -9,
            },
        );
        index = index + 1;
    }
    assert(rects@ =~= columns + rows.take(0));
    let mut index: i32 = 0;
    while index < 32
        invariant
            0 <= index <= 32,
            columns.len() == 48,
            rows == Seq::new(32, |index: int| row_line(index)),
            rects@ =~= columns + rows.take(index as int),
        decreases 32 - index,
    {
        rects.push(
            FloorRect {
                x: 0,
                y: index * GRID_SPACING as i32 - WORLD_HALF_HEIGHT as i32,
                width: 2 * WORLD_HALF_WIDTH as i32,
                height: 1,
                strength: strength_of(index),
                depth: -9,
            },
        );
        index = index + 1;
    }
    assert(rects@ =~= columns + rows + marks.take(0));
    let mut place: i32 = 0;
    while place < 192
        invariant
            0 <= place <= 192,
            columns.len() == 48,
            rows.len() == 32,
            marks == Seq::new(192, |place: int| mark_at(place)),
            rects@ =~= columns + rows + marks.take(place as int),
        decreases 192 - place,
    {
        let upright: bool = place % 2 == 1;
        rects.push(
            FloorRect {
                x: place / 16 * MARK_SPACING as i32 - WORLD_HALF_WIDTH as i32,
                y: place % 16 / 2 * MARK_SPACING as i32 - WORLD_HALF_HEIGHT as i32,
                width: if upright {
                    2
                } else {
                    14
                },
                height: if upright {
                    14
                } else {
                    2
                },
                strength: Strength::Marking,
                depth: -8,
            },
        );
        place = place + 1;
    }
    assert(rects@ =~= grid());
    rects
}

/// Every line and every mark of the grid stands on the world, none on its far
/// edge, and as many of them are laid out as fit; the next copy of the floor
/// begins where this one ends.
pub proof fn law_grid_stays_on_the_world(place: int)
    requires
        0 <= place < 272,
    ensures
        tile(1, 1).center_x == 2 * WORLD_HALF_WIDTH,
        tile(1, 1).center_y == 2 * WORLD_HALF_HEIGHT,
        grid().len() == GRID_COLUMNS + GRID_ROWS + 2 * MARK_COLUMNS * MARK_ROWS,
        -WORLD_HALF_WIDTH <= grid()[place].x < WORLD_HALF_WIDTH,
        -WORLD_HALF_HEIGHT <= grid()[place].y < WORLD_HALF_HEIGHT,
{
}

/// A four-sided outline drawn flat on the floor: left, bottom, right, top.
pub open spec fn frame(
    x: int,
    y: int,
    width: int,
    height: int,
    line: int,
    strength: Strength,
) -> Seq<FloorRect> {
    seq![
        flat(x - width / 2, y, line, height, strength, -6),
        flat(x, y - height / 2, width, line, strength, -6),
        flat(x + width / 2, y, line, height, strength, -6),
        flat(x, y + height / 2, width, line, strength, -6),
    ]
}

fn add_rect(
    rects: &mut Vec<FloorRect>,
    x: i32,
    y: i32,
    width: i32,
    height: i32,
    strength: Strength,
    depth: i32,
)
    ensures
        final(rects)@ == old(rects)@.push(
            flat(x as int, y as int, width as int, height as int, strength, depth as int),
        ),
{
    rects.push(FloorRect { x, y, width, height, strength, depth });
}

fn add_frame(
    rects: &mut Vec<FloorRect>,
    x: i32,
    y: i32,
    width: i32,
    height: i32,
    line: i32,
    strength: Strength,
)
    requires
        -10_000 <= x <= 10_000,
        -10_000 <= y <= 10_000,
        0 <= width <= 10_000,
        0 <= height <= 10_000,
    ensures
        final(rects)@ == old(rects)@ + frame(
            x as int,
            y as int,
            width as int,
            height as int,
            line as int,
            strength,
        ),
{
    add_rect(rects, x - width / 2, y, line, height, strength, -6);
    add_rect(rects, x, y - height / 2, width, line, strength, -6);
    add_rect(rects, x + width / 2, y, line, height, strength, -6);
    add_rect(rects, x, y + height / 2, width, line, strength, -6);
    assert(rects@ =~= old(rects)@ + frame(
        x as int,
        y as int,
        width as int,
        height as int,
        line as int,
        strength,
    ));
}

/// The landmarks: where each is centered, and its width and height.
pub const LANDMARKS: [(i32, i32, i32, i32); 6] = [
    (-960, 600, 320, 160),
    (960, -600, 160, 320),
    (1_680, 1_200, 320, 320),
    (-1_680, -1_200, 400, 200),
    (-2_400, 960, 160, 320),
    (2_400, -960, 320, 160),
];

/// A landmark: a frame, a thinner one inside it, and three bars.
pub open spec fn landmark(entry: (i32, i32, i32, i32)) -> Seq<FloorRect> {
    let (x, y, width, height) = (entry.0 as int, entry.1 as int, entry.2 as int, entry.3 as int);
    frame(x, y, width, height, 3, Strength::Marking) + frame(
        x,
        y,
        width - 24,
        height - 24,
        1,
        Strength::Major,
    ) + seq![
        flat(x - 24, y, 8, 48, Strength::Major, -6),
        flat(x, y, 8, 48, Strength::Major, -6),
        flat(x + 24, y, 8, 48, Strength::Major, -6),
    ]
}

/// The first landmarks, one behind the other.
pub open spec fn landmarks(count: nat) -> Seq<FloorRect>
    decreases count,
{
    if count == 0 {
        Seq::empty()
    } else {
        landmarks((count - 1) as nat) + landmark(LANDMARKS@[count - 1])
    }
}

/// A lane dash: right, left, up and down from the spawn point, four to the
/// lane.
pub open spec fn dash(place: int) -> FloorRect {
    let distance = 240 + place % 4 * 80;
    let lane = place / 4;
    flat(
        if lane == 0 {
            distance
        } else if lane == 1 {
            -distance
        } else {
            0
        },
        if lane == 2 {
            distance
        } else if lane == 3 {
            -distance
        } else {
            0
        },
        if lane < 2 {
            28
        } else {
            3
        },
        if lane < 2 {
            3
        } else {
            28
        },
        Strength::Marking,
        -7,
    )
}

/// Paint the landmarks and the lane dashes that lead away from the spawn point.
/// These are painted floor markings, not collision obstacles.
pub fn spawn_landmarks() -> (rects: Vec<FloorRect>)
    ensures
        rects@ == landmarks(6) + Seq::new(16, |place: int| dash(place)),
{
    let mut rects: Vec<FloorRect> = Vec::new();
    let table: [(i32, i32, i32, i32); 6] = LANDMARKS;
    let mut index: usize = 0;
    while index < 6
        invariant
            index <= 6,
            table == LANDMARKS,
            rects@ == landmarks(index as nat),
        decreases 6 - index,
    {
        let (x, y, width, height): (i32, i32, i32, i32) = table[index];
        proof {
            assert(index == 0 || index == 1 || index == 2 || index == 3 || index == 4 || index
                == 5);
        }
        let ghost before = rects@;
        add_frame(&mut rects, x, y, width, height, 3, Strength::Marking);
        add_frame(&mut rects, x, y, width - 24, height - 24, 1, Strength::Major);
        add_rect(&mut rects, x - 24, y, 8, 48, Strength::Major, -6);
        add_rect(&mut rects, x, y, 8, 48, Strength::Major, -6);
        add_rect(&mut rects, x + 24, y, 8, 48, Strength::Major, -6);
        assert(rects@ =~= before + landmark(LANDMARKS@[index as int]));
        index = index + 1;
    }
    let ghost before = rects@;
    let ghost dashes = Seq::new(16, |place: int| dash(place));
    let mut place: i32 = 0;
    assert(rects@ =~= before + dashes.take(0));
    while place < 16
        invariant
            0 <= place <= 16,
            dashes == Seq::new(16, |place: int| dash(place)),
            rects@ =~= before + dashes.take(place as int),
        decreases 16 - place,
    {
        let distance: i32 = 240 + place % 4 * 80;
        let lane: i32 = place / 4;
        let x: i32 = if lane == 0 {
            distance
        } else if lane == 1 {
            -distance
        } else {
            0
        };
        let y: i32 = if lane == 2 {
            distance
        } else if lane == 3 {
            -distance
        } else {
            0
        };
        let width: i32 = if lane < 2 { 28 } else { 3 };
        let height: i32 = if lane < 2 { 3 } else { 28 };
        add_rect(&mut rects, x, y, width, height, Strength::Marking, -7);
        place = place + 1;
    }
    assert(dashes.take(16) =~= dashes);
    rects
}

/// The spawn point's outline, corner brackets and cross.
pub open spec fn origin() -> Seq<FloorRect> {
    frame(0, 0, 144, 144, 1, Strength::Marking) + seq![
        flat(-88, -104, 32, 3, Strength::Marking, -5),
        flat(-104, -88, 3, 32, Strength::Marking, -5),
        flat(-88, 104, 32, 3, Strength::Marking, -5),
        flat(-104, 88, 3, 32, Strength::Marking, -5),
        flat(88, -104, 32, 3, Strength::Marking, -5),
        flat(104, -88, 3, 32, Strength::Marking, -5),
        flat(88, 104, 32, 3, Strength::Marking, -5),
        flat(104, 88, 3, 32, Strength::Marking, -5),
        flat(0, 0, 32, 2, Strength::Marking, -5),
        flat(0, 0, 2, 32, Strength::Marking, -5),
    ]
}

/// Paint the spawn point.
pub fn spawn_origin() -> (rects: Vec<FloorRect>)
    ensures
        rects@ == origin(),
{
    let mut rects: Vec<FloorRect> = Vec::new();
    add_frame(&mut rects, 0, 0, 144, 144, 1, Strength::Marking);
    add_rect(&mut rects, -88, -104, 32, 3, Strength::Marking, -5);
    add_rect(&mut rects, -104, -88, 3, 32, Strength::Marking, -5);
    add_rect(&mut rects, -88, 104, 32, 3, Strength::Marking, -5);
    add_rect(&mut rects, -104, 88, 3, 32, Strength::Marking, -5);
    add_rect(&mut rects, 88, -104, 32, 3, Strength::Marking, -5);
    add_rect(&mut rects, 104, -88, 3, 32, Strength::Marking, -5);
    add_rect(&mut rects, 88, 104, 32, 3, Strength::Marking, -5);
    add_rect(&mut rects, 104, 88, 3, 32, Strength::Marking, -5);
    add_rect(&mut rects, 0, 0, 32, 2, Strength::Marking, -5);
    add_rect(&mut rects, 0, 0, 2, 32, Strength::Marking, -5);
    assert(rects@ =~= origin());
    rects
}

/// Which periodic copy of the floor this is, and where it is centered.
#[derive(Clone, Copy, Debug, PartialEq, Eq, Structural)]
pub struct WorldTile {
    pub x: i16,
    pub y: i16,
    pub center_x: i32,
    pub center_y: i32,
    /// Shown from the start.
    pub visible: bool,
}

/// One copy of the floor, a whole world's width and height from the next.
pub open spec fn tile(x: int, y: int) -> WorldTile {
    WorldTile {
        x: x as i16,
        y: y as i16,
        center_x: (x * 6_000) as i32,
        center_y: (y * 4_000) as i32,
        visible: x == 0 && y == 0,
    }
}

/// The world is periodic, so it is laid out as a three by three block, column
/// by column. A camera near a seam then looks into the neighbouring copy
/// instead of a void, and because the floor tiles exactly the join is
/// invisible.
pub fn spawn_world() -> (tiles: Vec<WorldTile>)
    ensures
        tiles@ == Seq::new(9, |place: int| tile(place / 3 - 1, place % 3 - 1)),
{
    let mut tiles: Vec<WorldTile> = Vec::new();
    let mut place: i16 = 0;
    while place < 9
        invariant
            0 <= place <= 9,
            tiles@ =~= Seq::new(place as nat, |k: int| tile(k / 3 - 1, k % 3 - 1)),
        decreases 9 - place,
    {
        let x: i16 = place / 3 - 1;
        let y: i16 = place % 3 - 1;
        tiles.push(
            WorldTile {
                x,
                y,
                center_x: x as i32 * 6_000,
                center_y: y as i32 * 4_000,
                visible: x == 0 && y == 0,
            },
        );
        place = place + 1;
    }
    tiles
}

/// Whether a copy of the floor can be seen along an axis, given where the view
/// begins and ends.
///
/// The centre tile is always present. A neighbouring copy is needed only when
/// the viewport crosses that side of the world's seam.
pub fn tile_axis_visible(tile: i16, view_start: u32, view_end: u32, world_half: u32) -> (visible:
    bool)
    ensures
        visible == if tile == -1 {
            !nan(view_start) && !nan(world_half) && scaled(view_start) <= -scaled(world_half)
        } else if tile == 0 {
            true
        } else if tile == 1 {
            !nan(view_end) && !nan(world_half) && scaled(view_end) >= scaled(world_half)
        } else {
            false
        },
{
    proof {
        crate::bits::law_signs(world_half);
        assert(scaled(negated(world_half)) == -scaled(world_half));
    }
    match tile {
        -1 => at_most(view_start, negate(world_half)),
        0 => true,
        1 => at_most(world_half, view_end),
        _ => false,
    }
}

/// Lines stand one grid spacing apart on both axes, from one edge of the world on,
/// across all of it; every fourth is a major one. Marks stand one mark spacing
/// apart, each an upright and a level stroke.
pub proof fn law_lines_stand_evenly(index: int, place: int)
    requires
        0 <= index,
        0 <= place < 192,
    ensures
        index < 48 ==> grid()[index].x == 125 * index - 3_000 && grid()[index].height == 4_000
            && grid()[index].y == 0,
        index < 32 ==> grid()[48 + index].y == 125 * index - 2_000 && grid()[48 + index].width
            == 6_000 && grid()[48 + index].x == 0,
        index < 48 ==> (grid()[index].strength == Strength::Major <==> index % 4 == 0),
        index < 32 ==> (grid()[48 + index].strength == Strength::Major <==> index % 4 == 0),
        grid()[80 + place].x == 500 * (place / 16) - 3_000,
        grid()[80 + place].y == 500 * (place % 16 / 2) - 2_000,
        grid()[80 + place].strength == Strength::Marking,
        place % 2 == 0 ==> grid()[80 + place].width == grid()[80 + place + 1].height && grid()[80
            + place].height == grid()[80 + place + 1].width && grid()[80 + place].x == grid()[80
            + place + 1].x && grid()[80 + place].y == grid()[80 + place + 1].y,
{
}

/// An outline has its four sides at equal distances from its middle, opposite each
/// other.
pub proof fn law_frames_close(x: int, y: int, width: int, height: int, line: int)
    requires
        -10_000 <= x <= 10_000,
        -10_000 <= y <= 10_000,
        0 <= width <= 10_000,
        0 <= height <= 10_000,
        0 <= line <= 100,
    ensures
        ({
            let sides = frame(x, y, width, height, line, Strength::Marking);
            &&& sides.len() == 4
            &&& sides[0].x + sides[2].x == 2 * x && sides[0].y == y && sides[2].y == y
            &&& sides[1].y + sides[3].y == 2 * y && sides[1].x == x && sides[3].x == x
            &&& sides[2].x - sides[0].x == 2 * (width / 2)
            &&& sides[3].y - sides[1].y == 2 * (height / 2)
            &&& sides[0].height == height && sides[2].height == height
            &&& sides[1].width == width && sides[3].width == width
            &&& sides[0].width == line && sides[1].height == line
        }),
{
}

/// Lane dashes lead away from the middle in four directions, alike in each.
pub proof fn law_dashes_lead_four_ways(step: int)
    requires
        0 <= step < 4,
    ensures
        dash(step).x == 240 + 80 * step && dash(step).y == 0,
        dash(4 + step).x == -dash(step).x && dash(4 + step).y == 0,
        dash(8 + step).y == dash(step).x && dash(8 + step).x == 0,
        dash(12 + step).y == -dash(step).x && dash(12 + step).x == 0,
        dash(step).width == dash(8 + step).height && dash(step).height == dash(8 + step).width,
{
}

/// The copies of the floor lie side by side, a whole world apart, and only the
/// middle one is shown from the start.
pub proof fn law_tiles_lie_side_by_side(x: int, y: int)
    requires
        -1 <= x <= 0,
        -1 <= y <= 0,
    ensures
        tile(x + 1, y).center_x - tile(x, y).center_x == 2 * WORLD_HALF_WIDTH,
        tile(x, y + 1).center_y - tile(x, y).center_y == 2 * WORLD_HALF_HEIGHT,
        tile(x + 1, y).center_y == tile(x, y).center_y,
        tile(x, y + 1).center_x == tile(x, y).center_x,
        tile(0, 0).center_x == 0 && tile(0, 0).center_y == 0,
        tile(x, y).visible <==> x == 0 && y == 0,
        tile(x, y).x == x && tile(x, y).y == y,
{
}

/// Every landmark is drawn where the table puts it and as large, eleven pieces
/// each, one landmark behind the other: its outline, a smaller one around the same
/// middle, and three bars across it.
pub proof fn law_landmarks_stand_where_they_are_put(index: int, count: nat)
    requires
        0 <= index < count <= 6,
    ensures
        landmarks(count).len() == 11 * count,
        ({
            let (x, y, width, height) = LANDMARKS@[index];
            let first = 11 * index;
            let drawn = landmarks(count);
            &&& drawn[first].x + drawn[first + 2].x == 2 * x && drawn[first].y == y
            &&& drawn[first + 1].y + drawn[first + 3].y == 2 * y && drawn[first + 1].x == x
            &&& drawn[first].height == height && drawn[first + 1].width == width
            &&& drawn[first + 2].x - drawn[first].x == width
            &&& drawn[first + 3].y - drawn[first + 1].y == height
            &&& drawn[first + 4].height == height - 24 && drawn[first + 5].width == width - 24
            &&& drawn[first + 4].x + drawn[first + 6].x == 2 * x
            &&& drawn[first + 5].y + drawn[first + 7].y == 2 * y
            &&& drawn[first + 9].x == x && drawn[first + 9].y == y
            &&& drawn[first + 8].x == x - 24 && drawn[first + 10].x == x + 24
        }),
    decreases count,
{
    lemma_landmarks_len((count - 1) as nat);
    assert(landmark(LANDMARKS@[count - 1]).len() == 11);
    let entry = LANDMARKS@[index];
    assert(index == 0 || index == 1 || index == 2 || index == 3 || index == 4 || index == 5);
    if index < count - 1 {
        law_landmarks_stand_where_they_are_put(index, (count - 1) as nat);
        let (fewer, more) = (landmarks((count - 1) as nat), landmarks(count));
        assert forall|k: int| 0 <= k < fewer.len() implies fewer[k] == #[trigger] more[k] by {}
    } else {
        let (fewer, more) = (landmarks((count - 1) as nat), landmarks(count));
        let last = landmark(entry);
        assert forall|k: int| 0 <= k < 11 implies #[trigger] last[k] == more[11 * index + k] by {}
        assert(last[0] == more[11 * index]);
        assert(last[1] == more[11 * index + 1]);
        assert(last[2] == more[11 * index + 2]);
        assert(last[3] == more[11 * index + 3]);
        assert(last[4] == more[11 * index + 4]);
        assert(last[5] == more[11 * index + 5]);
        assert(last[6] == more[11 * index + 6]);
        assert(last[7] == more[11 * index + 7]);
        assert(last[8] == more[11 * index + 8]);
        assert(last[9] == more[11 * index + 9]);
        assert(last[10] == more[11 * index + 10]);
    }
}

proof fn lemma_landmarks_len(count: nat)
    requires
        count <= 6,
    ensures
        landmarks(count).len() == 11 * count,
    decreases count,
{
    if count > 0 {
        lemma_landmarks_len((count - 1) as nat);
    }
}

/// The spawn point is marked alike on every side: a square outline, eight bracket
/// strokes as far out as each other, and a cross in the middle.
pub proof fn law_the_spawn_point_is_marked_alike(k: int)
    requires
        4 <= k < 12,
    ensures
        ({
            let drawn = origin();
            let stroke = drawn[k];
            &&& drawn.len() == 14
            &&& drawn[0].x == -drawn[2].x && drawn[1].y == -drawn[3].y
            &&& drawn[2].x - drawn[0].x == 144 && drawn[3].y - drawn[1].y == 144
            &&& stroke.depth == -5 && stroke.strength == Strength::Marking
            &&& k % 2 == 0 ==> stroke.width == 32 && stroke.height == 3
            &&& k % 2 == 1 ==> stroke.width == 3 && stroke.height == 32
            &&& k % 2 == 0 ==> (stroke.x == 88 || stroke.x == -88) && (stroke.y == 104 || stroke.y
                == -104)
            &&& k % 2 == 1 ==> (stroke.x == 104 || stroke.x == -104) && (stroke.y == 88 || stroke.y
                == -88)
            &&& stroke.x < 0 <==> k < 8
            &&& stroke.y < 0 <==> k < 6 || 8 <= k < 10
            &&& drawn[12].x == 0 && drawn[12].y == 0 && drawn[13].x == 0 && drawn[13].y == 0
            &&& drawn[12].width == drawn[13].height && drawn[12].height == drawn[13].width
        }),
{
    assert(k == 4 || k == 5 || k == 6 || k == 7 || k == 8 || k == 9 || k == 10 || k == 11);
}

} // verus!
