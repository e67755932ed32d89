//! Turn one frame of the arena into the numbers a policy reads.
//!
//! The window is local and deliberately so: 256 reference pixels across,
//! centred on the player, wrapping with the world. Threats outside it are
//! unobserved, which is a design choice rather than an oversight.
//!
//! Every value is carried by its bit pattern. The geometry, where a hazard
//! falls in the window, arrives as bounds in window pixels; which cells those
//! bounds cover, who owns a cell, and where each value goes is decided here.

use crate::bits::{
    at_most, clamp, clamped, finite, is_finite, lemma_magnitude_increases, less, magnitude, nan,
    scaled, total_order, total_rank, Vec2, MINUS_ONE, ONE, ZERO,
};
use crate::collision::Collider;
use crate::enemy_types::EnemyKind;
use crate::ranked::{in_order, law_ranked, lemma_ranked_contains, rank, ranked, Ranked};
use crate::scale::PIXEL;
use crate::simulation::{
    Action, ArenaError, BlastView, EnemyView, PlayerView, SAMPLE_COUNT, SAMPLE_FRAMES,
};
use vstd::arithmetic::power2::{lemma2_to64, lemma_pow2_adds, lemma_pow2_pos, pow2};
use vstd::prelude::*;

verus! {

/// Cells across the observed window, on each axis.
pub const GRID: usize = 64;

/// Reference pixels a cell covers, on each axis, by the bit pattern: 4.
pub const CELL_PIXELS: u32 = 0x4080_0000;

/// Reference pixels the window covers, on each axis, by the bit pattern: 256.
pub const WINDOW_PIXELS: u32 = 0x4380_0000;

/// Half the window, which is where the player always is, by the bit pattern:
/// 128.
pub const WINDOW_HALF: u32 = 0x4300_0000;

/// Cells in one channel.
pub const CELLS: usize = GRID * GRID;

/// Divisor putting velocities in roughly [-1, 1], by its bit pattern: 4.
///
/// The fastest thing in the arena is the player, at 2.5 reference pixels a
/// frame; enemies travel well under one.
pub const VELOCITY_SCALE: u32 = 0x4080_0000;

/// Grid channels.
pub const CHANNEL_COUNT: usize = 7;

/// Values before the channels: the player's own velocity.
pub const PLAYER_VALUES: usize = 2;

/// Values in the channels.
pub const GRID_VALUES: usize = CHANNEL_COUNT * CELLS;

/// Values after the channels: nine paths of six samples in x and y.
pub const PATH_VALUES: usize = 9 * SAMPLE_COUNT * 2;

/// Every value in one observation.
pub const OBSERVATION_VALUES: usize = PLAYER_VALUES + GRID_VALUES + PATH_VALUES;

/// Minus zero: what standing still reads along a flipped axis.
pub const MINUS_ZERO: u32 = 0x8000_0000;

/// One grid of numbers, one value per cell.
#[derive(Clone, Copy, Debug, PartialEq, Eq, Structural)]
pub enum Channel {
    /// An ordinary enemy occupies the cell.
    NormalEnemy,
    /// A kamikaze occupies the cell.
    Kamikaze,
    /// A kamikaze blast covers the cell.
    Blast,
    /// Where a blast is in its life: +1 just detonated and growing, 0 at its
    /// widest, -1 about to vanish. Size alone cannot say which, because a
    /// blast passes through every width twice.
    BlastPhase,
    /// The player's own hitbox.
    Player,
    /// Horizontal velocity of whatever owns the cell.
    VelocityX,
    /// Vertical velocity of the same, positive downward.
    VelocityY,
}

/// What each grid channel holds, in order.
///
/// The names travel in the handshake, so a reader learns the layout rather than
/// assuming it.
pub const CHANNELS: [Channel; 7] = [
    Channel::NormalEnemy,
    Channel::Kamikaze,
    Channel::Blast,
    Channel::BlastPhase,
    Channel::Player,
    Channel::VelocityX,
    Channel::VelocityY,
];

impl Channel {
    /// The name of a channel.
    pub open spec fn called(self) -> Seq<char> {
        match self {
            Channel::NormalEnemy => "normal-enemy"@,
            Channel::Kamikaze => "kamikaze"@,
            Channel::Blast => "blast"@,
            Channel::BlastPhase => "blast-phase"@,
            Channel::Player => "player"@,
            Channel::VelocityX => "velocity-x"@,
            Channel::VelocityY => "velocity-y"@,
        }
    }

    /// The name used in the handshake.
    pub fn name(self) -> (name: &'static str)
        ensures
            name@ == self.called(),
    {
        match self {
            Channel::NormalEnemy => "normal-enemy",
            Channel::Kamikaze => "kamikaze",
            Channel::Blast => "blast",
            Channel::BlastPhase => "blast-phase",
            Channel::Player => "player",
            Channel::VelocityX => "velocity-x",
            Channel::VelocityY => "velocity-y",
        }
    }
}

/// Which hazard owns a cell when several cover it.
///
/// A lethal thing must never hide behind a harmless one, and two hazards of the
/// same kind are separated by size and then identity, so a contested cell
/// resolves the same way on every run of a seed.
#[derive(Clone, Copy, Debug, PartialEq, Eq, Structural)]
pub enum HazardRank {
    Normal,
    Kamikaze,
    Blast,
}

impl HazardRank {
    /// How far up a rank stands, which is also the channel it is painted in.
    pub open spec fn level(self) -> int {
        match self {
            HazardRank::Normal => 0,
            HazardRank::Kamikaze => 1,
            HazardRank::Blast => 2,
        }
    }

    /// How far up a rank stands, which is also the channel it is painted in.
    pub fn channel(self) -> (channel: usize)
        ensures
            channel == self.level(),
    {
        match self {
            HazardRank::Normal => 0,
            HazardRank::Kamikaze => 1,
            HazardRank::Blast => 2,
        }
    }
}

/// A rectangle in window pixels; the window's corner is at the origin and Y
/// points down.
#[derive(Clone, Copy, Debug, PartialEq, Eq, Structural)]
pub struct Bounds {
    pub min: Vec2,
    pub max: Vec2,
}

/// One hazard, converted into window pixels.
#[derive(Clone, Copy, Debug, PartialEq, Eq, Structural)]
pub struct Painted {
    pub rank: HazardRank,
    /// Sort key: of two hazards alike the lowest owns the cell.
    pub identity: u64,
    pub area: u32,
    pub bounds: Bounds,
    /// What the two velocity channels say of it.
    pub velocity: Vec2,
    /// `None` unless the hazard is a blast.
    pub phase: Option<u32>,
}

impl Ranked for Painted {
    /// By rank, then area, then identity, the lowest identity last.
    open spec fn at_most(&self, other: &Self) -> bool {
        if self.rank.level() != other.rank.level() {
            self.rank.level() < other.rank.level()
        } else if total_rank(self.area) != total_rank(other.area) {
            total_rank(self.area) < total_rank(other.area)
        } else {
            self.identity >= other.identity
        }
    }

    fn is_at_most(&self, other: &Self) -> (result: bool) {
        let level: usize = self.rank.channel();
        let other_level: usize = other.rank.channel();
        let area: i64 = total_order(self.area);
        let other_area: i64 = total_order(other.area);
        if level != other_level {
            level < other_level
        } else if area != other_area {
            area < other_area
        } else {
            self.identity >= other.identity
        }
    }

    proof fn lemma_total(&self, other: &Self) {
    }

    proof fn lemma_transitive(first: &Self, second: &Self, third: &Self) {
    }
}

/// Where a cell begins, in units of the smallest positive value: four pixels
/// are 2 to the 151st of them.
pub open spec fn cell_edge(cell: int) -> int {
    cell * pow2(151)
}

/// Something that begins there has begun before the cell ends.
pub open spec fn begun(start: u32, cell: int) -> bool {
    nan(start) || scaled(start) < cell_edge(cell + 1)
}

/// Something that ends there reaches into the cell. What does not end at a
/// number ends in the first cell.
pub open spec fn reaches(end: u32, cell: int) -> bool {
    if nan(end) {
        cell == 0
    } else {
        scaled(end) > cell_edge(cell)
    }
}

impl Bounds {
    /// A rectangle covers the cell with positive area.
    pub open spec fn covers(self, column: int, row: int) -> bool {
        &&& begun(self.min.x, column) && reaches(self.max.x, column)
        &&& begun(self.min.y, row) && reaches(self.max.y, row)
    }
}

/// A cell inside the grid.
pub open spec fn in_grid(column: int, row: int) -> bool {
    0 <= column < GRID && 0 <= row < GRID
}

proof fn lemma_cell_edge()
    ensures
        pow2(151) > 0,
        scaled(CELL_PIXELS) == cell_edge(1),
        scaled(WINDOW_PIXELS) == cell_edge(GRID as int),
{
    lemma2_to64();
    lemma_pow2_pos(151);
    lemma_pow2_adds(23, 128);
    lemma_pow2_adds(29, 122);
    lemma_pow2_adds(6, 151);
    lemma_pow2_adds(23, 134);
    assert(CELL_PIXELS as int / 0x80_0000 == 129);
    assert(WINDOW_PIXELS as int / 0x80_0000 == 135);
    assert(pow2(23) == 0x80_0000);
    assert(magnitude(CELL_PIXELS) == 0x80_0000 * pow2(128));
    assert(magnitude(WINDOW_PIXELS) == 0x80_0000 * pow2(134));
    assert(pow2(157) == 64 * pow2(151));
}

/// How a value between 4 and 256 lies among the cell edges: its significand
/// counts parts of a cell, `parts` to the cell.
proof fn lemma_significand(bits: u32, parts: int)
    requires
        129 <= bits as int / 0x80_0000 <= 134,
        parts == pow2((152 - bits as int / 0x80_0000) as nat),
    ensures
        parts > 0,
        forall|cell: int|
            #![trigger cell_edge(cell)]
            cell_edge(cell) < scaled(bits) <==> cell * parts < 0x80_0000 + bits as int % 0x80_0000,
        forall|cell: int|
            #![trigger cell_edge(cell)]
            cell_edge(cell) <= scaled(bits) <==> cell * parts <= 0x80_0000 + bits as int
                % 0x80_0000,
{
    let e = bits as int / 0x80_0000;
    let unit = pow2((e - 1) as nat) as int;
    let whole = 0x80_0000 + bits as int % 0x80_0000;
    lemma_pow2_pos((e - 1) as nat);
    lemma_pow2_pos((152 - e) as nat);
    lemma_pow2_adds((e - 1) as nat, (152 - e) as nat);
    assert(scaled(bits) == whole * unit);
    assert forall|cell: int|
        #![trigger cell_edge(cell)]
        (cell_edge(cell) < scaled(bits) <==> cell * parts < whole) && (cell_edge(cell) <= scaled(
            bits,
        ) <==> cell * parts <= whole) by {
        let count = cell * parts;
        assert(cell * (unit * parts) == count * unit) by (nonlinear_arith)
            requires
                count == cell * parts,
        ;
        assert(count * unit < whole * unit <==> count < whole) by (nonlinear_arith)
            requires
                unit > 0,
        ;
        assert(count * unit <= whole * unit <==> count <= whole) by (nonlinear_arith)
            requires
                unit > 0,
        ;
    }
}

/// Parts of a cell the significand counts, for a value between 4 and 256.
fn parts_of(exponent: u32) -> (parts: u32)
    requires
        129 <= exponent <= 134,
    ensures
        parts == pow2((152 - exponent) as nat),
        0x4_0000 <= parts <= 0x80_0000,
        exponent == 134 || parts >= 0x8_0000,
{
    proof {
        lemma2_to64();
    }
    match exponent {
        129 => 0x80_0000,
        130 => 0x40_0000,
        131 => 0x20_0000,
        132 => 0x10_0000,
        133 => 0x8_0000,
        _ => 0x4_0000,
    }
}

/// The first cell a rectangle's near edge leaves any of, clipped into the
/// window.
fn cell_index(pixels: u32) -> (cell: usize)
    requires
        nan(pixels) || scaled(pixels) < cell_edge(GRID as int),
    ensures
        cell < GRID,
        forall|other: int| 0 <= other < GRID ==> (#[trigger] begun(pixels, other) <==> cell <= other),
{
    proof {
        lemma_cell_edge();
    }
    if crate::bits::is_nan(pixels) {
        return 0;
    }
    if less(pixels, CELL_PIXELS) {
        proof {
            assert(!nan(CELL_PIXELS));
            assert forall|other: int| 0 <= other < GRID implies #[trigger] begun(pixels, other) by {
                assert((other + 1) * pow2(151) >= pow2(151)) by (nonlinear_arith)
                    requires
                        other >= 0,
                        pow2(151) > 0,
                ;
            }
        }
        return 0;
    }
    let exponent: u32 = pixels / 0x80_0000;
    proof {
        assert(!nan(CELL_PIXELS));
        lemma_between(pixels);
    }
    let parts: u32 = parts_of(exponent);
    let whole: u32 = 0x80_0000 + pixels % 0x80_0000;
    proof {
        lemma_significand(pixels, parts as int);
        let cell = whole as int / parts as int;
        assert forall|other: int| 0 <= other < GRID implies (#[trigger] begun(pixels, other)
            <==> cell <= other) by {
            assert(cell_edge(other + 1) <= scaled(pixels) <==> (other + 1) * parts <= whole);
            assert((other + 1) * parts <= whole <==> other + 1 <= whole as int / parts as int)
                by (nonlinear_arith)
                requires
                    parts > 0,
            ;
        }
        assert(whole as int / parts as int <= 63) by (nonlinear_arith)
            requires
                whole < 0x100_0000,
                parts >= 0x4_0000,
        ;
    }
    (whole / parts) as usize
}

/// A number of at least 4 and below 256 has one of six exponents.
proof fn lemma_between(bits: u32)
    requires
        !nan(bits),
        scaled(CELL_PIXELS) <= scaled(bits) < scaled(WINDOW_PIXELS),
    ensures
        129 <= bits as int / 0x80_0000 <= 134,
{
    lemma_cell_edge();
    if bits >= 0x8000_0000 {
        let plain = (bits - 0x8000_0000) as u32;
        if plain > 0 {
            lemma_magnitude_increases(0, plain);
        }
        assert(magnitude(0) == 0);
        assert(scaled(bits) <= 0);
    } else {
        if bits < CELL_PIXELS {
            lemma_magnitude_increases(bits, CELL_PIXELS);
        }
        if WINDOW_PIXELS < bits {
            lemma_magnitude_increases(WINDOW_PIXELS, bits);
        }
        assert(CELL_PIXELS <= bits < WINDOW_PIXELS);
    }
}

/// The last cell a rectangle's far edge touches.
///
/// The edge is exclusive: a rectangle ending exactly on a cell boundary does
/// not paint the cell beyond it, because it covers none of it.
fn cell_index_end(pixels: u32) -> (cell: usize)
    requires
        nan(pixels) || scaled(pixels) > 0,
    ensures
        cell < GRID,
        forall|other: int|
            0 <= other < GRID ==> (#[trigger] reaches(pixels, other) <==> other <= cell),
{
    proof {
        lemma_cell_edge();
    }
    if crate::bits::is_nan(pixels) {
        return 0;
    }
    if less(pixels, CELL_PIXELS) {
        proof {
            assert forall|other: int| 0 <= other < GRID implies (#[trigger] reaches(pixels, other)
                <==> other <= 0) by {
                if other > 0 {
                    assert(other * pow2(151) >= pow2(151)) by (nonlinear_arith)
                        requires
                            other > 0,
                            pow2(151) > 0,
                    ;
                }
            }
        }
        return 0;
    }
    if at_most(WINDOW_PIXELS, pixels) {
        proof {
            assert forall|other: int| 0 <= other < GRID implies #[trigger] reaches(
                pixels,
                other,
            ) by {
                assert(other * pow2(151) < 64 * pow2(151)) by (nonlinear_arith)
                    requires
                        other < 64,
                        pow2(151) > 0,
                ;
            }
        }
        return GRID - 1;
    }
    let exponent: u32 = pixels / 0x80_0000;
    proof {
        assert(!nan(CELL_PIXELS));
        assert(!nan(WINDOW_PIXELS));
        lemma_between(pixels);
    }
    let parts: u32 = parts_of(exponent);
    let whole: u32 = 0x80_0000 + pixels % 0x80_0000;
    proof {
        lemma_significand(pixels, parts as int);
        let cell = (whole - 1) / parts as int;
        assert forall|other: int| 0 <= other < GRID implies (#[trigger] reaches(pixels, other)
            <==> other <= cell) by {
            assert(cell_edge(other) < scaled(pixels) <==> other * parts < whole);
            assert(other * parts <= whole - 1 <==> other <= (whole - 1) / parts as int)
                by (nonlinear_arith)
                requires
                    parts > 0,
            ;
        }
        assert((whole - 1) / parts as int <= 63) by (nonlinear_arith)
            requires
                whole < 0x100_0000,
                parts >= 0x4_0000,
        ;
    }
    ((whole - 1) / parts) as usize
}

/// A block of cells: from the first to before the end, on each axis.
#[derive(Clone, Copy, Debug, PartialEq, Eq, Structural)]
pub struct CellBlock {
    pub first_column: usize,
    pub end_column: usize,
    pub first_row: usize,
    pub end_row: usize,
}

impl CellBlock {
    /// The cell is in the block.
    pub open spec fn has(self, column: int, row: int) -> bool {
        &&& self.first_column <= column < self.end_column
        &&& self.first_row <= row < self.end_row
    }
}

/// Every cell a rectangle covers with positive area, clipped to the window.
///
/// A hazard entirely outside the window paints nothing; it is not dragged onto
/// an edge cell, because the window is local by design and a threat beyond it
/// is simply unobserved.
pub fn covered_cells(bounds: Bounds) -> (cells: CellBlock)
    ensures
        cells.end_column <= GRID,
        cells.end_row <= GRID,
        forall|column: int, row: int|
            #![trigger cells.has(column, row)]
            #![trigger bounds.covers(column, row)]
            in_grid(column, row) ==> (cells.has(column, row) <==> bounds.covers(column, row)),
{
    proof {
        lemma_cell_edge();
        assert(scaled(ZERO) == 0 && !nan(ZERO) && !nan(WINDOW_PIXELS));
    }
    let (min, max): (Vec2, Vec2) = (bounds.min, bounds.max);
    if at_most(max.x, ZERO) || at_most(max.y, ZERO) || at_most(WINDOW_PIXELS, min.x) || at_most(
        WINDOW_PIXELS,
        min.y,
    ) {
        proof {
            assert forall|column: int, row: int| in_grid(column, row) implies !bounds.covers(
                column,
                row,
            ) by {
                law_outside_is_unobserved(bounds, column, row);
            }
        }
        return CellBlock { first_column: 0, end_column: 0, first_row: 0, end_row: 0 };
    }
    CellBlock {
        first_column: cell_index(min.x),
        end_column: cell_index_end(max.x) + 1,
        first_row: cell_index(min.y),
        end_row: cell_index_end(max.y) + 1,
    }
}

/// Where a grid value stands in an observation.
pub open spec fn cell_place(channel: int, column: int, row: int) -> int {
    PLAYER_VALUES + channel * 4_096 + row * 64 + column
}

/// What a channel says of a cell.
pub open spec fn cell_at(values: Seq<u32>, channel: int, column: int, row: int) -> u32 {
    values[cell_place(channel, column, row)]
}

/// A place among the grid values.
pub open spec fn in_grid_section(place: int) -> bool {
    PLAYER_VALUES <= place < PLAYER_VALUES + GRID_VALUES
}

/// Every grid value has a place of its own in the grid section.
pub proof fn law_cells_have_their_own_place(
    channel: int,
    column: int,
    row: int,
    other_channel: int,
    other_column: int,
    other_row: int,
)
    requires
        0 <= channel < CHANNEL_COUNT,
        in_grid(column, row),
        0 <= other_channel < CHANNEL_COUNT,
        in_grid(other_column, other_row),
    ensures
        in_grid_section(cell_place(channel, column, row)),
        cell_place(channel, column, row) == cell_place(other_channel, other_column, other_row) <==> (
        channel == other_channel && column == other_column && row == other_row),
{
}

/// Every place in the grid section is that of a grid value.
pub proof fn law_cells_fill_the_grid(place: int) -> (cell: (int, int, int))
    requires
        in_grid_section(place),
    ensures
        0 <= cell.0 < CHANNEL_COUNT,
        in_grid(cell.1, cell.2),
        cell_place(cell.0, cell.1, cell.2) == place,
{
    let offset = place - PLAYER_VALUES;
    (offset / 4_096, offset % 64, (offset % 4_096) / 64)
}

/// Where a grid value stands in an observation, as far as a `usize` counts.
pub fn cell_offset(channel: usize, column: usize, row: usize) -> (place: usize)
    ensures
        place == if cell_place(channel as int, column as int, row as int) > usize::MAX {
            usize::MAX as int
        } else {
            cell_place(channel as int, column as int, row as int)
        },
{
    let before: usize = match channel.checked_mul(4_096) {
        Some(cells) => cells,
        None => usize::MAX,
    };
    let above: usize = match row.checked_mul(64) {
        Some(cells) => cells,
        None => usize::MAX,
    };
    PLAYER_VALUES.saturating_add(before).saturating_add(above).saturating_add(column)
}

fn write_cell(values: &mut Vec<u32>, channel: usize, column: usize, row: usize, value: u32)
    requires
        old(values)@.len() == OBSERVATION_VALUES,
        channel < CHANNEL_COUNT,
        in_grid(column as int, row as int),
    ensures
        final(values)@ == old(values)@.update(
            cell_place(channel as int, column as int, row as int),
            value,
        ),
{
    let place: usize = cell_offset(channel, column, row);
    values[place] = value;
}

/// What the hazard channels say of a cell that this hazard owns. A cell that
/// none owns reads zero throughout.
pub open spec fn hazard_value(owner: Option<Painted>, channel: int) -> u32 {
    match owner {
        None => ZERO,
        Some(hazard) => if channel == 3 {
            match hazard.phase {
                Some(phase) => phase,
                None => ZERO,
            }
        } else if channel == 5 {
            hazard.velocity.x
        } else if channel == 6 {
            hazard.velocity.y
        } else if channel == hazard.rank.level() {
            ONE
        } else {
            ZERO
        },
    }
}

/// The grid reads like this in every hazard channel of every cell.
pub open spec fn hazards_read(
    values: Seq<u32>,
    owner: spec_fn(int, int) -> Option<Painted>,
) -> bool {
    forall|channel: int, column: int, row: int|
        #![trigger cell_at(values, channel, column, row)]
        0 <= channel < CHANNEL_COUNT && channel != 4 && in_grid(column, row) ==> cell_at(
            values,
            channel,
            column,
            row,
        ) == hazard_value(owner(column, row), channel)
}

/// Nothing changed but hazard channels.
pub open spec fn only_hazards_changed(before: Seq<u32>, after: Seq<u32>) -> bool {
    &&& after.len() == before.len()
    &&& forall|place: int|
        0 <= place < before.len() && !in_grid_section(place) ==> #[trigger] after[place]
            == before[place]
    &&& forall|column: int, row: int|
        in_grid(column, row) ==> #[trigger] cell_at(after, 4, column, row) == cell_at(
            before,
            4,
            column,
            row,
        )
}

/// Let a hazard own a cell: clear what the channels said of another, so a cell
/// never describes two.
fn paint_cell(values: &mut Vec<u32>, hazard: &Painted, column: usize, row: usize)
    requires
        old(values)@.len() == OBSERVATION_VALUES,
        in_grid(column as int, row as int),
    ensures
        only_hazards_changed(old(values)@, final(values)@),
        forall|channel: int, c: int, r: int|
            #![trigger cell_at(final(values)@, channel, c, r)]
            0 <= channel < CHANNEL_COUNT && channel != 4 && in_grid(c, r) ==> cell_at(
                final(values)@,
                channel,
                c,
                r,
            ) == if c == column && r == row {
                hazard_value(Some(*hazard), channel)
            } else {
                cell_at(old(values)@, channel, c, r)
            },
{
    write_cell(values, 0, column, row, ZERO);
    write_cell(values, 1, column, row, ZERO);
    write_cell(values, 2, column, row, ZERO);
    write_cell(
        values,
        3,
        column,
        row,
        match hazard.phase {
            Some(phase) => phase,
            None => ZERO,
        },
    );
    write_cell(values, 5, column, row, hazard.velocity.x);
    write_cell(values, 6, column, row, hazard.velocity.y);
    write_cell(values, hazard.rank.channel(), column, row, ONE);
}

/// Paint a hazard over every cell it covers.
fn paint_hazard(values: &mut Vec<u32>, hazard: &Painted)
    requires
        old(values)@.len() == OBSERVATION_VALUES,
    ensures
        only_hazards_changed(old(values)@, final(values)@),
        forall|channel: int, column: int, row: int|
            #![trigger cell_at(final(values)@, channel, column, row)]
            0 <= channel < CHANNEL_COUNT && channel != 4 && in_grid(column, row) ==> cell_at(
                final(values)@,
                channel,
                column,
                row,
            ) == if hazard.bounds.covers(column, row) {
                hazard_value(Some(*hazard), channel)
            } else {
                cell_at(old(values)@, channel, column, row)
            },
{
    let cells: CellBlock = covered_cells(hazard.bounds);
    let ghost before = values@;
    let mut row: usize = cells.first_row;
    while row < cells.end_row
        invariant
            before.len() == OBSERVATION_VALUES,
            cells.end_column <= GRID,
            cells.end_row <= GRID,
            cells.first_row <= row,
            only_hazards_changed(before, values@),
            forall|channel: int, c: int, r: int|
                #![trigger cell_at(values@, channel, c, r)]
                0 <= channel < CHANNEL_COUNT && channel != 4 && in_grid(c, r) ==> cell_at(
                    values@,
                    channel,
                    c,
                    r,
                ) == if cells.has(c, r) && r < row {
                    hazard_value(Some(*hazard), channel)
                } else {
                    cell_at(before, channel, c, r)
                },
        decreases cells.end_row - row,
    {
        let mut column: usize = cells.first_column;
        while column < cells.end_column
            invariant
                before.len() == OBSERVATION_VALUES,
                cells.end_column <= GRID,
                cells.end_row <= GRID,
                cells.first_row <= row < cells.end_row,
                cells.first_column <= column,
                only_hazards_changed(before, values@),
                forall|channel: int, c: int, r: int|
                    #![trigger cell_at(values@, channel, c, r)]
                    0 <= channel < CHANNEL_COUNT && channel != 4 && in_grid(c, r) ==> cell_at(
                        values@,
                        channel,
                        c,
                        r,
                    ) == if cells.has(c, r) && (r < row || (r == row && c < column)) {
                        hazard_value(Some(*hazard), channel)
                    } else {
                        cell_at(before, channel, c, r)
                    },
            decreases cells.end_column - column,
        {
            paint_cell(values, hazard, column, row);
            column = column + 1;
        }
        row = row + 1;
    }
}

/// The last of these hazards that covers the cell.
pub open spec fn topmost(hazards: Seq<Painted>, column: int, row: int) -> Option<Painted>
    decreases hazards.len(),
{
    if hazards.len() == 0 {
        None
    } else if hazards.last().bounds.covers(column, row) {
        Some(hazards.last())
    } else {
        topmost(hazards.drop_last(), column, row)
    }
}

/// The hazard that owns a cell: the highest of those that cover it.
pub open spec fn owner(hazards: Seq<Painted>, column: int, row: int) -> Option<Painted> {
    topmost(ranked(hazards), column, row)
}

/// Paint every hazard, lowest first, so that a later one wins the cell.
fn paint_hazards(values: &mut Vec<u32>, hazards: Vec<Painted>)
    requires
        old(values)@.len() == OBSERVATION_VALUES,
        hazards_read(old(values)@, |column: int, row: int| None),
    ensures
        only_hazards_changed(old(values)@, final(values)@),
        hazards_read(final(values)@, |column: int, row: int| owner(hazards@, column, row)),
{
    let ghost before = values@;
    let order: Vec<Painted> = rank(hazards);
    let mut index: usize = 0;
    while index < order.len()
        invariant
            before.len() == OBSERVATION_VALUES,
            index <= order@.len(),
            only_hazards_changed(before, values@),
            hazards_read(
                values@,
                |column: int, row: int| topmost(order@.take(index as int), column, row),
            ),
        decreases order@.len() - index,
    {
        let ghost done = order@.take(index as int);
        let ghost more = order@.take(index + 1);
        let ghost painted = values@;
        paint_hazard(values, &order[index]);
        proof {
            assert(more.drop_last() =~= done);
            assert(more.last() == order@[index as int]);
            let old_owner = |column: int, row: int| topmost(done, column, row);
            let new_owner = |column: int, row: int| topmost(more, column, row);
            assert forall|channel: int, column: int, row: int|
                #![trigger cell_at(values@, channel, column, row)]
                0 <= channel < CHANNEL_COUNT && channel != 4 && in_grid(column, row) implies cell_at(
                values@,
                channel,
                column,
                row,
            ) == hazard_value(new_owner(column, row), channel) by {
                assert(cell_at(painted, channel, column, row) == hazard_value(
                    old_owner(column, row),
                    channel,
                ));
            }
        }
        index = index + 1;
    }
    assert(order@.take(index as int) =~= order@);
}

/// The cells of the player's own channel.
pub open spec fn player_reads(values: Seq<u32>, hitbox: Bounds) -> bool {
    forall|column: int, row: int|
        in_grid(column, row) ==> #[trigger] cell_at(values, 4, column, row) == if hitbox.covers(
            column,
            row,
        ) {
            ONE
        } else {
            ZERO
        }
}

/// Nothing changed but the player's own channel.
pub open spec fn only_player_changed(before: Seq<u32>, after: Seq<u32>) -> bool {
    &&& after.len() == before.len()
    &&& forall|place: int|
        0 <= place < before.len() && !(cell_place(4, 0, 0) <= place < cell_place(5, 0, 0))
            ==> #[trigger] after[place] == before[place]
}

/// Paint the player. It is its own channel, so it never contests a hazard's
/// cell.
fn paint_player(values: &mut Vec<u32>, hitbox: Bounds)
    requires
        old(values)@.len() == OBSERVATION_VALUES,
        forall|column: int, row: int|
            in_grid(column, row) ==> #[trigger] cell_at(old(values)@, 4, column, row) == ZERO,
    ensures
        only_player_changed(old(values)@, final(values)@),
        player_reads(final(values)@, hitbox),
{
    let cells: CellBlock = covered_cells(hitbox);
    let ghost before = values@;
    let mut row: usize = cells.first_row;
    while row < cells.end_row
        invariant
            before.len() == OBSERVATION_VALUES,
            cells.end_column <= GRID,
            cells.end_row <= GRID,
            cells.first_row <= row,
            only_player_changed(before, values@),
            forall|c: int, r: int|
                in_grid(c, r) ==> #[trigger] cell_at(values@, 4, c, r) == if cells.has(c, r) && r
                    < row {
                    ONE
                } else {
                    ZERO
                },
        decreases cells.end_row - row,
    {
        let mut column: usize = cells.first_column;
        while column < cells.end_column
            invariant
                before.len() == OBSERVATION_VALUES,
                cells.end_column <= GRID,
                cells.end_row <= GRID,
                cells.first_row <= row < cells.end_row,
                cells.first_column <= column,
                only_player_changed(before, values@),
                forall|c: int, r: int|
                    in_grid(c, r) ==> #[trigger] cell_at(values@, 4, c, r) == if cells.has(c, r) && (
                    r < row || (r == row && c < column)) {
                        ONE
                    } else {
                        ZERO
                    },
            decreases cells.end_column - column,
        {
            let ghost painted = values@;
            write_cell(values, 4, column, row, ONE);
            proof {
                assert forall|c: int, r: int| in_grid(c, r) implies #[trigger] cell_at(
                    values@,
                    4,
                    c,
                    r,
                ) == if c == column && r == row {
                    ONE
                } else {
                    cell_at(painted, 4, c, r)
                } by {
                    law_cells_have_their_own_place(4, c, r, 4, column as int, row as int);
                }
            }
            column = column + 1;
        }
        row = row + 1;
    }
}

/// Where a hazard falls in the window.
#[derive(Clone, Copy, Debug, PartialEq, Eq, Structural)]
pub struct Footprint {
    /// Where its hitbox is centred in the world.
    pub position: Vec2,
    /// The rectangle around the nearest wrapped copy of it: a threat just
    /// across a seam is close, however far apart the two coordinates look.
    pub bounds: Bounds,
    /// Half its width times half its height, in pixels.
    pub area: u32,
    /// Its velocity in reference pixels a frame over the velocity scale, Y
    /// flipped.
    pub velocity: Vec2,
}

/// An enemy and where it falls in the window.
#[derive(Clone, Copy, Debug, PartialEq, Eq, Structural)]
pub struct SeenEnemy {
    pub enemy: EnemyView,
    pub footprint: Footprint,
}

/// A blast and where it falls in the window.
#[derive(Clone, Copy, Debug, PartialEq, Eq, Structural)]
pub struct SeenBlast {
    pub blast: BlastView,
    pub footprint: Footprint,
    /// One minus twice its age over its duration.
    pub phase: u32,
}

/// The player, and what it sees of itself.
#[derive(Clone, Copy, Debug, PartialEq, Eq)]
pub struct SeenPlayer {
    pub player: PlayerView,
    /// Its velocity in reference pixels a frame over the velocity scale, Y
    /// flipped.
    pub velocity: Vec2,
    /// Its own hitbox in the window.
    pub hitbox: Bounds,
    /// Where each action takes it, as offsets from the player over half the
    /// window. Never clamped: a sample outside the window is a real answer.
    pub paths: [[Vec2; 6]; 9],
}

/// One frame as the player sees it.
#[derive(Debug)]
pub struct Sight {
    pub player: Option<SeenPlayer>,
    pub enemies: Vec<SeenEnemy>,
    pub blasts: Vec<SeenBlast>,
    /// Half the arena's width and height.
    pub half_extents: Vec2,
}

/// Everything about a hitbox is finite.
pub open spec fn collider_finite(collider: Collider) -> bool {
    collider.half_extents.finite() && collider.offset.finite()
}

fn is_collider_finite(collider: Collider) -> (result: bool)
    ensures
        result == collider_finite(collider),
{
    collider.half_extents.is_finite() && collider.offset.is_finite()
}

/// Everything about a player is finite.
pub open spec fn player_finite(player: PlayerView) -> bool {
    player.position.finite() && player.velocity.finite() && collider_finite(player.collider)
}

/// Everything about an enemy is finite.
pub open spec fn enemy_finite(enemy: EnemyView) -> bool {
    enemy.position.finite() && enemy.velocity.finite() && collider_finite(enemy.collider)
}

/// Everything about a blast is finite.
pub open spec fn blast_finite(blast: BlastView) -> bool {
    blast.position.finite() && collider_finite(blast.collider) && finite(blast.age) && finite(
        blast.duration,
    )
}

/// Everything around the player is finite: the world, every enemy and every
/// blast, whether or not it would be painted.
pub open spec fn surroundings_finite(
    enemies: Seq<SeenEnemy>,
    blasts: Seq<SeenBlast>,
    half_extents: Vec2,
) -> bool {
    &&& half_extents.finite()
    &&& forall|i: int| 0 <= i < enemies.len() ==> enemy_finite((#[trigger] enemies[i]).enemy)
    &&& forall|i: int| 0 <= i < blasts.len() ==> blast_finite((#[trigger] blasts[i]).blast)
}

/// Why a player's sight cannot be observed, if it cannot: it carries a value
/// that is not finite.
pub open spec fn sight_fault(
    player: PlayerView,
    enemies: Seq<SeenEnemy>,
    blasts: Seq<SeenBlast>,
    half_extents: Vec2,
) -> Option<ArenaError> {
    if !player_finite(player) {
        Some(ArenaError::NonFinite("the player's state must be finite"))
    } else if !surroundings_finite(enemies, blasts, half_extents) {
        Some(ArenaError::NonFinite("everything in sight must be finite"))
    } else {
        None
    }
}

fn are_surroundings_finite(sight: &Sight) -> (result: bool)
    ensures
        result == surroundings_finite(sight.enemies@, sight.blasts@, sight.half_extents),
{
    if !sight.half_extents.is_finite() {
        return false;
    }
    let mut index: usize = 0;
    while index < sight.enemies.len()
        invariant
            index <= sight.enemies@.len(),
            forall|i: int|
                0 <= i < index ==> enemy_finite((#[trigger] sight.enemies@[i]).enemy),
        decreases sight.enemies@.len() - index,
    {
        let enemy: EnemyView = sight.enemies[index].enemy;
        if !enemy.position.is_finite() || !enemy.velocity.is_finite() || !is_collider_finite(
            enemy.collider,
        ) {
            assert(!enemy_finite(sight.enemies@[index as int].enemy));
            return false;
        }
        index = index + 1;
    }
    let mut index: usize = 0;
    while index < sight.blasts.len()
        invariant
            index <= sight.blasts@.len(),
            forall|i: int| 0 <= i < index ==> blast_finite((#[trigger] sight.blasts@[i]).blast),
        decreases sight.blasts@.len() - index,
    {
        let blast: BlastView = sight.blasts[index].blast;
        if !blast.position.is_finite() || !is_collider_finite(blast.collider) || !is_finite(
            blast.age,
        ) || !is_finite(blast.duration) {
            assert(!blast_finite(sight.blasts@[index as int].blast));
            return false;
        }
        index = index + 1;
    }
    true
}

/// A value, or the end of [-1, 1] it is outside of.
pub open spec fn unit(value: u32) -> u32 {
    clamped(value, MINUS_ONE, ONE)
}

fn clamp_unit(value: u32) -> (result: u32)
    ensures
        result == unit(value),
{
    clamp(value, MINUS_ONE, ONE)
}

/// What is painted of an enemy, if anything: neither a disabled hitbox nor one
/// that is not at a real place.
pub open spec fn enemy_painted(seen: SeenEnemy) -> Option<Painted> {
    let enemy = seen.enemy;
    if enemy.collider.enabled && seen.footprint.position.finite()
        && enemy.collider.half_extents.finite() && enemy.velocity.finite() {
        Some(
            Painted {
                rank: match enemy.kind {
                    EnemyKind::Normal => HazardRank::Normal,
                    EnemyKind::Kamikaze => HazardRank::Kamikaze,
                },
                identity: enemy.entity,
                area: seen.footprint.area,
                bounds: seen.footprint.bounds,
                velocity: Vec2 {
                    x: unit(seen.footprint.velocity.x),
                    y: unit(seen.footprint.velocity.y),
                },
                phase: None,
            },
        )
    } else {
        None
    }
}

/// What is painted of a blast, if anything: not one that lasts no time. A blast
/// does not travel; only its size changes.
pub open spec fn blast_painted(seen: SeenBlast) -> Option<Painted> {
    let blast = seen.blast;
    if blast.collider.enabled && (nan(blast.duration) || scaled(blast.duration) > 0)
        && seen.footprint.position.finite() && blast.collider.half_extents.finite() {
        Some(
            Painted {
                rank: HazardRank::Blast,
                identity: blast.entity,
                area: seen.footprint.area,
                bounds: seen.footprint.bounds,
                velocity: Vec2 { x: ZERO, y: MINUS_ZERO },
                phase: Some(unit(seen.phase)),
            },
        )
    } else {
        None
    }
}

/// Turn an enemy into what is painted of it.
pub fn paint_enemy(seen: &SeenEnemy) -> (painted: Option<Painted>)
    ensures
        painted == enemy_painted(*seen),
{
    let enemy: EnemyView = seen.enemy;
    if !enemy.collider.enabled || !seen.footprint.position.is_finite()
        || !enemy.collider.half_extents.is_finite() || !enemy.velocity.is_finite() {
        return None;
    }
    Some(
        Painted {
            rank: match enemy.kind {
                EnemyKind::Normal => HazardRank::Normal,
                EnemyKind::Kamikaze => HazardRank::Kamikaze,
            },
            identity: enemy.entity,
            area: seen.footprint.area,
            bounds: seen.footprint.bounds,
            velocity: Vec2 {
                x: clamp_unit(seen.footprint.velocity.x),
                y: clamp_unit(seen.footprint.velocity.y),
            },
            phase: None,
        },
    )
}

/// Turn a blast into what is painted of it.
pub fn paint_blast(seen: &SeenBlast) -> (painted: Option<Painted>)
    ensures
        painted == blast_painted(*seen),
{
    let blast: BlastView = seen.blast;
    proof {
        assert(scaled(ZERO) == 0 && !nan(ZERO));
    }
    if !blast.collider.enabled || at_most(blast.duration, ZERO)
        || !seen.footprint.position.is_finite() || !blast.collider.half_extents.is_finite() {
        return None;
    }
    Some(
        Painted {
            rank: HazardRank::Blast,
            identity: blast.entity,
            area: seen.footprint.area,
            bounds: seen.footprint.bounds,
            velocity: Vec2 { x: ZERO, y: MINUS_ZERO },
            phase: Some(clamp_unit(seen.phase)),
        },
    )
}

/// The items that are there, in order.
pub open spec fn present(items: Seq<Option<Painted>>) -> Seq<Painted>
    decreases items.len(),
{
    if items.len() == 0 {
        Seq::empty()
    } else {
        match items.last() {
            Some(item) => present(items.drop_last()).push(item),
            None => present(items.drop_last()),
        }
    }
}

/// Everything that is painted of the hazards in sight.
pub open spec fn hazards_in(enemies: Seq<SeenEnemy>, blasts: Seq<SeenBlast>) -> Seq<Painted> {
    present(enemies.map_values(|seen: SeenEnemy| enemy_painted(seen))) + present(
        blasts.map_values(|seen: SeenBlast| blast_painted(seen)),
    )
}

fn gather_hazards(sight: &Sight) -> (hazards: Vec<Painted>)
    ensures
        hazards@ == hazards_in(sight.enemies@, sight.blasts@),
{
    let ghost of_enemies = sight.enemies@.map_values(|seen: SeenEnemy| enemy_painted(seen));
    let ghost of_blasts = sight.blasts@.map_values(|seen: SeenBlast| blast_painted(seen));
    let mut hazards: Vec<Painted> = Vec::new();
    let mut index: usize = 0;
    assert(of_enemies.take(0) =~= Seq::empty());
    while index < sight.enemies.len()
        invariant
            index <= sight.enemies@.len(),
            of_enemies == sight.enemies@.map_values(|seen: SeenEnemy| enemy_painted(seen)),
            hazards@ == present(of_enemies.take(index as int)),
        decreases sight.enemies@.len() - index,
    {
        proof {
            assert(of_enemies.take(index + 1).drop_last() =~= of_enemies.take(index as int));
            assert(of_enemies.take(index + 1).last() == enemy_painted(
                sight.enemies@[index as int],
            ));
        }
        if let Some(painted) = paint_enemy(&sight.enemies[index]) {
            hazards.push(painted);
        }
        index = index + 1;
    }
    assert(of_enemies.take(index as int) =~= of_enemies);
    let mut index: usize = 0;
    assert(of_blasts.take(0) =~= Seq::empty());
    assert(hazards@ =~= present(of_enemies) + present(of_blasts.take(0)));
    while index < sight.blasts.len()
        invariant
            index <= sight.blasts@.len(),
            of_blasts == sight.blasts@.map_values(|seen: SeenBlast| blast_painted(seen)),
            hazards@ == present(of_enemies) + present(of_blasts.take(index as int)),
        decreases sight.blasts@.len() - index,
    {
        proof {
            assert(of_blasts.take(index + 1).drop_last() =~= of_blasts.take(index as int));
            assert(of_blasts.take(index + 1).last() == blast_painted(sight.blasts@[index as int]));
        }
        if let Some(painted) = paint_blast(&sight.blasts[index]) {
            hazards.push(painted);
            assert(hazards@ =~= present(of_enemies) + present(of_blasts.take(index as int)).push(
                painted,
            ));
        }
        index = index + 1;
    }
    assert(of_blasts.take(index as int) =~= of_blasts);
    hazards
}

/// Where a path value stands in an observation: the x of a sample, with its y
/// behind it.
pub open spec fn path_place(action: int, sample: int) -> int {
    PLAYER_VALUES + GRID_VALUES + action * 12 + sample * 2
}

/// What an observation says of a path sample.
pub open spec fn path_at(values: Seq<u32>, action: int, sample: int) -> Vec2 {
    Vec2 { x: values[path_place(action, sample)], y: values[path_place(action, sample) + 1] }
}

/// The paths read like this.
pub open spec fn paths_read(values: Seq<u32>, paths: [[Vec2; 6]; 9]) -> bool {
    forall|action: int, sample: int|
        0 <= action < 9 && 0 <= sample < SAMPLE_COUNT ==> #[trigger] path_at(values, action, sample)
            == paths@[action]@[sample]
}

/// Write one path sample.
fn write_sample(values: &mut Vec<u32>, action: usize, sample: usize, point: Vec2)
    requires
        old(values)@.len() == OBSERVATION_VALUES,
        action < 9,
        sample < SAMPLE_COUNT,
    ensures
        final(values)@.len() == OBSERVATION_VALUES,
        forall|place: int|
            0 <= place < PLAYER_VALUES + GRID_VALUES ==> #[trigger] final(values)@[place] == old(
                values,
            )@[place],
        forall|a: int, k: int|
            0 <= a < 9 && 0 <= k < SAMPLE_COUNT ==> #[trigger] path_at(final(values)@, a, k) == if a
                == action && k == sample {
                point
            } else {
                path_at(old(values)@, a, k)
            },
{
    let place: usize = PLAYER_VALUES + GRID_VALUES + action * 12 + sample * 2;
    values[place] = point.x;
    values[place + 1] = point.y;
}

/// Write where each action takes the player.
fn write_paths(values: &mut Vec<u32>, paths: &[[Vec2; 6]; 9])
    requires
        old(values)@.len() == OBSERVATION_VALUES,
    ensures
        final(values)@.len() == OBSERVATION_VALUES,
        forall|place: int|
            0 <= place < PLAYER_VALUES + GRID_VALUES ==> #[trigger] final(values)@[place] == old(
                values,
            )@[place],
        paths_read(final(values)@, *paths),
{
    let ghost before = values@;
    let mut action: usize = 0;
    while action < 9
        invariant
            action <= 9,
            before.len() == OBSERVATION_VALUES,
            values@.len() == OBSERVATION_VALUES,
            forall|place: int|
                0 <= place < PLAYER_VALUES + GRID_VALUES ==> #[trigger] values@[place]
                    == before[place],
            forall|a: int, k: int|
                0 <= a < action && 0 <= k < SAMPLE_COUNT ==> #[trigger] path_at(values@, a, k)
                    == paths@[a]@[k],
        decreases 9 - action,
    {
        let mut sample: usize = 0;
        while sample < SAMPLE_COUNT
            invariant
                action < 9,
                sample <= SAMPLE_COUNT,
                before.len() == OBSERVATION_VALUES,
                values@.len() == OBSERVATION_VALUES,
                forall|place: int|
                    0 <= place < PLAYER_VALUES + GRID_VALUES ==> #[trigger] values@[place]
                        == before[place],
                forall|a: int, k: int|
                    0 <= a < action && 0 <= k < SAMPLE_COUNT ==> #[trigger] path_at(values@, a, k)
                        == paths@[a]@[k],
                forall|k: int|
                    0 <= k < sample ==> #[trigger] path_at(values@, action as int, k)
                        == paths@[action as int]@[k],
            decreases SAMPLE_COUNT - sample,
        {
            write_sample(values, action, sample, paths[action][sample]);
            sample = sample + 1;
        }
        action = action + 1;
    }
}

/// One observation: the player's velocity, the grid, and the paths.
pub open spec fn observes(
    values: Seq<u32>,
    player: SeenPlayer,
    enemies: Seq<SeenEnemy>,
    blasts: Seq<SeenBlast>,
) -> bool {
    &&& values.len() == OBSERVATION_VALUES
    &&& values[0] == unit(player.velocity.x)
    &&& values[1] == unit(player.velocity.y)
    &&& hazards_read(
        values,
        |column: int, row: int| owner(hazards_in(enemies, blasts), column, row),
    )
    &&& player_reads(values, player.hitbox)
    &&& paths_read(values, player.paths)
}

/// Nothing but zeros.
pub open spec fn blank(values: Seq<u32>) -> bool {
    forall|place: int| 0 <= place < values.len() ==> #[trigger] values[place] == ZERO
}

/// Fill a buffer with one observation.
///
/// Without a player there is no observation: an arena in this state has nothing
/// to centre a window on, and reads zero. With one, a buffer of the wrong length
/// and a sight that carries a value that is not finite are refused.
pub fn encode(sight: &Sight, values: &mut Vec<u32>) -> (result: Result<(), ArenaError>)
    ensures
        final(values)@.len() == old(values)@.len(),
        if old(values)@.len() != OBSERVATION_VALUES {
            result == Err::<(), ArenaError>(
                ArenaError::NonFinite("an observation buffer must be exactly the layout's length"),
            ) && final(values)@ == old(values)@
        } else {
            match sight.player {
                None => result is Ok && blank(final(values)@),
                Some(seen) => match sight_fault(
                    seen.player,
                    sight.enemies@,
                    sight.blasts@,
                    sight.half_extents,
                ) {
                    None => result is Ok && observes(
                        final(values)@,
                        seen,
                        sight.enemies@,
                        sight.blasts@,
                    ),
                    Some(fault) => result == Err::<(), ArenaError>(fault) && blank(
                        final(values)@,
                    ),
                },
            }
        },
{
    if values.len() != OBSERVATION_VALUES {
        return Err(
            ArenaError::NonFinite("an observation buffer must be exactly the layout's length"),
        );
    }
    let mut place: usize = 0;
    while place < OBSERVATION_VALUES
        invariant
            values@.len() == OBSERVATION_VALUES,
            place <= OBSERVATION_VALUES,
            forall|k: int| 0 <= k < place ==> #[trigger] values@[k] == ZERO,
        decreases OBSERVATION_VALUES - place,
    {
        values[place] = ZERO;
        place = place + 1;
    }
    let seen: &SeenPlayer = match &sight.player {
        None => {
            return Ok(());
        },
        Some(seen) => seen,
    };
    if !seen.player.position.is_finite() || !seen.player.velocity.is_finite()
        || !is_collider_finite(seen.player.collider) {
        return Err(ArenaError::NonFinite("the player's state must be finite"));
    }
    if !are_surroundings_finite(sight) {
        return Err(ArenaError::NonFinite("everything in sight must be finite"));
    }
    values[0] = clamp_unit(seen.velocity.x);
    values[1] = clamp_unit(seen.velocity.y);
    paint_hazards(values, gather_hazards(sight));
    let ghost painted = values@;
    paint_player(values, seen.hitbox);
    let ghost grid = values@;
    write_paths(values, &seen.paths);
    proof {
        let own = |column: int, row: int|
            owner(hazards_in(sight.enemies@, sight.blasts@), column, row);
        assert forall|channel: int, column: int, row: int|
            #![trigger cell_at(values@, channel, column, row)]
            0 <= channel < CHANNEL_COUNT && channel != 4 && in_grid(column, row) implies cell_at(
            values@,
            channel,
            column,
            row,
        ) == hazard_value(own(column, row), channel) by {
            assert(cell_at(painted, channel, column, row) == hazard_value(
                own(column, row),
                channel,
            ));
            assert(grid[cell_place(channel, column, row)] == painted[cell_place(
                channel,
                column,
                row,
            )]);
        }
        assert forall|column: int, row: int| in_grid(column, row) implies #[trigger] cell_at(
            values@,
            4,
            column,
            row,
        ) == cell_at(grid, 4, column, row) by {}
    }
    Ok(())
}

/// A section of the flat observation.
#[derive(Clone, Copy, Debug, PartialEq, Eq, Structural)]
pub struct Section {
    pub offset: usize,
    pub length: usize,
}

/// Everything a reader needs to interpret an observation.
///
/// Sent once, in the handshake. A policy checkpoint stores it too, so a model
/// trained against one layout cannot silently be fed another.
#[derive(Debug)]
pub struct Layout {
    /// Bumped whenever the meaning of any value changes.
    pub version: u32,
    pub dtype: String,
    pub grid: usize,
    pub cell_pixels: u32,
    pub window_pixels: u32,
    /// World units per reference pixel, by its bit pattern.
    pub world_units_per_pixel: u32,
    /// By its bit pattern.
    pub velocity_scale: u32,
    /// Positive Y points down, as it does on a screen.
    pub y_axis: String,
    pub channels: Vec<String>,
    pub actions: Vec<String>,
    pub horizons: Vec<u32>,
    pub hold_frames: u32,
    /// Path samples are divided by this, so they match the window's half width.
    /// By its bit pattern.
    pub path_scale: u32,
    pub player_section: Section,
    pub grid_section: Section,
    pub path_section: Section,
    pub observation_values: usize,
}

/// The layout of this build, at that hold.
pub open spec fn describes(layout: Layout, hold_frames: u32) -> bool {
    &&& layout.version == 1
    &&& layout.dtype@ == "f32"@
    &&& layout.grid == GRID
    &&& layout.cell_pixels == 4
    &&& layout.window_pixels == 256
    &&& layout.world_units_per_pixel == PIXEL
    &&& layout.velocity_scale == VELOCITY_SCALE
    &&& layout.y_axis@ == "down"@
    &&& layout.channels@.len() == CHANNEL_COUNT
    &&& forall|k: int|
        0 <= k < CHANNEL_COUNT ==> (#[trigger] layout.channels@[k])@ == CHANNELS@[k].called()
    &&& layout.actions@.len() == 9
    &&& forall|k: int|
        0 <= k < 9 ==> (#[trigger] layout.actions@[k])@ == Action::ALL@[k].called()
    &&& layout.horizons@ == SAMPLE_FRAMES@
    &&& layout.hold_frames == hold_frames
    &&& layout.path_scale == WINDOW_HALF
    &&& layout.player_section == (Section { offset: 0, length: PLAYER_VALUES })
    &&& layout.grid_section == (Section { offset: PLAYER_VALUES, length: GRID_VALUES })
    &&& layout.path_section == (Section {
        offset: (PLAYER_VALUES + GRID_VALUES) as usize,
        length: PATH_VALUES,
    })
    &&& layout.observation_values == OBSERVATION_VALUES
}

/// The layout this build produces.
pub fn layout(hold_frames: u32) -> (layout: Layout)
    ensures
        describes(layout, hold_frames),
{
    let mut channels: Vec<String> = Vec::new();
    let mut index: usize = 0;
    while index < CHANNEL_COUNT
        invariant
            index <= CHANNEL_COUNT,
            channels@.len() == index,
            forall|k: int| 0 <= k < index ==> (#[trigger] channels@[k])@ == CHANNELS@[k].called(),
        decreases CHANNEL_COUNT - index,
    {
        channels.push(CHANNELS[index].name().to_owned());
        index = index + 1;
    }
    let mut actions: Vec<String> = Vec::new();
    let mut index: usize = 0;
    while index < 9
        invariant
            index <= 9,
            actions@.len() == index,
            forall|k: int| 0 <= k < index ==> (#[trigger] actions@[k])@ == Action::ALL@[k].called(),
        decreases 9 - index,
    {
        actions.push(Action::ALL[index].name().to_owned());
        index = index + 1;
    }
    let mut horizons: Vec<u32> = Vec::new();
    let mut index: usize = 0;
    while index < SAMPLE_COUNT
        invariant
            index <= SAMPLE_COUNT,
            horizons@ == SAMPLE_FRAMES@.take(index as int),
        decreases SAMPLE_COUNT - index,
    {
        horizons.push(SAMPLE_FRAMES[index]);
        assert(horizons@ =~= SAMPLE_FRAMES@.take(index + 1));
        index = index + 1;
    }
    assert(SAMPLE_FRAMES@.take(index as int) =~= SAMPLE_FRAMES@);
    Layout {
        version: 1,
        dtype: "f32".to_owned(),
        grid: GRID,
        cell_pixels: 4,
        window_pixels: 256,
        world_units_per_pixel: PIXEL,
        velocity_scale: VELOCITY_SCALE,
        y_axis: "down".to_owned(),
        channels,
        actions,
        horizons,
        hold_frames,
        path_scale: WINDOW_HALF,
        player_section: Section { offset: 0, length: PLAYER_VALUES },
        grid_section: Section { offset: PLAYER_VALUES, length: GRID_VALUES },
        path_section: Section { offset: PLAYER_VALUES + GRID_VALUES, length: PATH_VALUES },
        observation_values: OBSERVATION_VALUES,
    }
}

/// The three sections tile an observation exactly, every path value stands in
/// the last of them, and the pixel counts of the layout are those the cells are
/// cut by.
pub proof fn law_sections_tile(action: int, sample: int)
    requires
        0 <= action < 9,
        0 <= sample < SAMPLE_COUNT,
    ensures
        PLAYER_VALUES + GRID_VALUES + PATH_VALUES == OBSERVATION_VALUES,
        PLAYER_VALUES + GRID_VALUES <= path_place(action, sample),
        path_place(action, sample) + 1 < OBSERVATION_VALUES,
        scaled(CELL_PIXELS) == cell_edge(1),
        scaled(WINDOW_PIXELS) == cell_edge(GRID as int),
{
    lemma_cell_edge();
}

/// The largest of these lengths, or zero: what is not a number is passed over.
pub open spec fn furthest_of(lengths: Seq<u32>, result: u32) -> bool {
    &&& !nan(result) && scaled(result) >= 0
    &&& result == ZERO || lengths.contains(result)
    &&& forall|i: int|
        0 <= i < lengths.len() && !nan(#[trigger] lengths[i]) ==> scaled(lengths[i]) <= scaled(
            result,
        )
}

/// The furthest a predicted path travels, in reference pixels, given how far
/// each of its samples is.
///
/// Compared against the window's half width, this says whether the far samples
/// can leave the observed window.
pub fn max_path_pixels(lengths: &[u32]) -> (furthest: u32)
    ensures
        furthest_of(lengths@, furthest),
{
    let mut furthest: u32 = ZERO;
    let mut index: usize = 0;
    proof {
        assert(scaled(ZERO) == 0 && !nan(ZERO));
    }
    while index < lengths.len()
        invariant
            index <= lengths@.len(),
            !nan(furthest) && scaled(furthest) >= 0,
            furthest == ZERO || lengths@.contains(furthest),
            forall|i: int|
                0 <= i < index && !nan(#[trigger] lengths@[i]) ==> scaled(lengths@[i]) <= scaled(
                    furthest,
                ),
        decreases lengths@.len() - index,
    {
        if less(furthest, lengths[index]) {
            furthest = lengths[index];
            assert(lengths@[index as int] == furthest);
        }
        index = index + 1;
    }
    furthest
}

proof fn lemma_topmost(hazards: Seq<Painted>, column: int, row: int)
    requires
        in_order(hazards),
    ensures
        match topmost(hazards, column, row) {
            None => forall|i: int|
                0 <= i < hazards.len() ==> !(#[trigger] hazards[i]).bounds.covers(column, row),
            Some(winner) => hazards.contains(winner) && winner.bounds.covers(column, row) && forall|
                i: int,
            |
                0 <= i < hazards.len() && (#[trigger] hazards[i]).bounds.covers(column, row)
                    ==> hazards[i].at_most(&winner),
        },
    decreases hazards.len(),
{
    if hazards.len() > 0 {
        let last = hazards[hazards.len() - 1];
        if last.bounds.covers(column, row) {
            last.lemma_total(&last);
            assert forall|i: int| 0 <= i < hazards.len() implies (#[trigger] hazards[i]).at_most(
                &last,
            ) by {
                if i < hazards.len() - 1 {
                    assert(hazards[i].at_most(&hazards[hazards.len() - 1]));
                }
            }
        } else {
            let shorter = hazards.drop_last();
            assert(in_order(shorter));
            lemma_topmost(shorter, column, row);
            if let Some(winner) = topmost(shorter, column, row) {
                let k = choose|k: int| 0 <= k < shorter.len() && shorter[k] == winner;
                assert(hazards[k] == winner);
                assert forall|i: int|
                    0 <= i < hazards.len() && (#[trigger] hazards[i]).bounds.covers(
                        column,
                        row,
                    ) implies hazards[i].at_most(&winner) by {
                    assert(shorter[i] == hazards[i]);
                }
            } else {
                assert forall|i: int| 0 <= i < hazards.len() implies !(
                #[trigger] hazards[i]).bounds.covers(column, row) by {
                    if i < shorter.len() {
                        assert(shorter[i] == hazards[i]);
                    }
                }
            }
        }
    }
}

/// A contested cell belongs to the highest of the hazards that cover it, and a
/// cell belongs to nobody only if no hazard covers it. So a lethal thing never
/// hides behind a harmless one.
pub proof fn law_highest_hazard_owns_the_cell(
    hazards: Seq<Painted>,
    column: int,
    row: int,
    other: Painted,
)
    requires
        hazards.contains(other),
        other.bounds.covers(column, row),
    ensures
        owner(hazards, column, row) matches Some(winner) && {
            &&& hazards.contains(winner)
            &&& winner.bounds.covers(column, row)
            &&& other.at_most(&winner)
            &&& other.rank.level() <= winner.rank.level()
        },
{
    law_ranked(hazards);
    lemma_topmost(ranked(hazards), column, row);
    lemma_ranked_contains(hazards, other);
    let order = ranked(hazards);
    let i = choose|i: int| 0 <= i < order.len() && order[i] == other;
    assert(order[i].bounds.covers(column, row));
    if let Some(winner) = owner(hazards, column, row) {
        lemma_ranked_contains(hazards, winner);
    }
}

/// No two of these hazards are alike in rank, size and identity.
pub open spec fn told_apart(hazards: Seq<Painted>) -> bool {
    forall|i: int, j: int|
        #![trigger hazards[i], hazards[j]]
        0 <= i < hazards.len() && 0 <= j < hazards.len() && hazards[i].at_most(&hazards[j])
            && hazards[j].at_most(&hazards[i]) ==> hazards[i] == hazards[j]
}

/// Who owns a cell does not depend on the order the hazards are found in.
pub proof fn law_order_does_not_matter(
    left: Seq<Painted>,
    right: Seq<Painted>,
    column: int,
    row: int,
)
    requires
        left.to_multiset() == right.to_multiset(),
        told_apart(left),
    ensures
        owner(left, column, row) == owner(right, column, row),
{
    broadcast use vstd::seq_lib::group_to_multiset_ensures;

    law_ranked(left);
    law_ranked(right);
    lemma_topmost(ranked(left), column, row);
    lemma_topmost(ranked(right), column, row);
    if let Some(winner) = owner(left, column, row) {
        lemma_ranked_contains(left, winner);
        assert(right.to_multiset().count(winner) > 0);
        law_highest_hazard_owns_the_cell(right, column, row, winner);
    }
    if let Some(winner) = owner(right, column, row) {
        lemma_ranked_contains(right, winner);
        assert(left.to_multiset().count(winner) > 0);
        law_highest_hazard_owns_the_cell(left, column, row, winner);
        let other = owner(left, column, row)->0;
        lemma_ranked_contains(left, other);
        let i = choose|i: int| 0 <= i < left.len() && left[i] == winner;
        let j = choose|j: int| 0 <= j < left.len() && left[j] == other;
        assert(left[i] == left[j]);
    }
}

proof fn lemma_mapped<A, B>(left: Seq<A>, right: Seq<A>, map: spec_fn(A) -> B)
    requires
        left.to_multiset() == right.to_multiset(),
    ensures
        left.map_values(map).to_multiset() == right.map_values(map).to_multiset(),
    decreases left.len(),
{
    broadcast use vstd::seq_lib::group_to_multiset_ensures;

    vstd::seq_lib::to_multiset_len(left);
    vstd::seq_lib::to_multiset_len(right);
    if left.len() == 0 {
        assert(left.map_values(map) =~= right.map_values(map));
    } else {
        let last = left.last();
        let shorter = left.drop_last();
        assert(left =~= shorter.push(last));
        assert(right.to_multiset().count(last) > 0);
        let i = choose|i: int| 0 <= i < right.len() && right[i] == last;
        let others = right.remove(i);
        assert(others.to_multiset() =~= right.to_multiset().remove(last));
        assert(shorter.to_multiset() =~= left.to_multiset().remove(last));
        lemma_mapped(shorter, others, map);
        assert(left.map_values(map) =~= shorter.map_values(map).push(map(last)));
        assert(others.map_values(map) =~= right.map_values(map).remove(i));
        assert(right.map_values(map)[i] == map(last));
        assert(left.map_values(map).to_multiset() =~= right.map_values(map).to_multiset());
    }
}

proof fn lemma_present_count(items: Seq<Option<Painted>>, item: Painted)
    ensures
        present(items).to_multiset().count(item) == items.to_multiset().count(Some(item)),
    decreases items.len(),
{
    broadcast use vstd::seq_lib::group_to_multiset_ensures;

    if items.len() == 0 {
        vstd::seq_lib::to_multiset_len(items);
        vstd::seq_lib::to_multiset_len(present(items));
    } else {
        lemma_present_count(items.drop_last(), item);
        assert(items =~= items.drop_last().push(items.last()));
    }
}

proof fn lemma_hazards_in(
    enemies: Seq<SeenEnemy>,
    blasts: Seq<SeenBlast>,
    other_enemies: Seq<SeenEnemy>,
    other_blasts: Seq<SeenBlast>,
)
    requires
        enemies.to_multiset() == other_enemies.to_multiset(),
        blasts.to_multiset() == other_blasts.to_multiset(),
    ensures
        hazards_in(enemies, blasts).to_multiset() == hazards_in(
            other_enemies,
            other_blasts,
        ).to_multiset(),
{
    let of_enemy = |seen: SeenEnemy| enemy_painted(seen);
    let of_blast = |seen: SeenBlast| blast_painted(seen);
    lemma_mapped(enemies, other_enemies, of_enemy);
    lemma_mapped(blasts, other_blasts, of_blast);
    let (a, b) = (enemies.map_values(of_enemy), other_enemies.map_values(of_enemy));
    let (c, d) = (blasts.map_values(of_blast), other_blasts.map_values(of_blast));
    assert(present(a).to_multiset() =~= present(b).to_multiset()) by {
        assert forall|item: Painted| #[trigger]
            present(a).to_multiset().count(item) == present(b).to_multiset().count(item) by {
            lemma_present_count(a, item);
            lemma_present_count(b, item);
        }
    }
    assert(present(c).to_multiset() =~= present(d).to_multiset()) by {
        assert forall|item: Painted| #[trigger]
            present(c).to_multiset().count(item) == present(d).to_multiset().count(item) by {
            lemma_present_count(c, item);
            lemma_present_count(d, item);
        }
    }
    vstd::seq_lib::lemma_multiset_commutative(present(a), present(c));
    vstd::seq_lib::lemma_multiset_commutative(present(b), present(d));
}

/// An observation does not depend on the order the enemies and blasts are found
/// in: a frame is encoded in one way only.
pub proof fn law_observations_are_unique(
    left: Seq<u32>,
    right: Seq<u32>,
    player: SeenPlayer,
    enemies: Seq<SeenEnemy>,
    blasts: Seq<SeenBlast>,
    other_enemies: Seq<SeenEnemy>,
    other_blasts: Seq<SeenBlast>,
)
    requires
        observes(left, player, enemies, blasts),
        observes(right, player, other_enemies, other_blasts),
        enemies.to_multiset() == other_enemies.to_multiset(),
        blasts.to_multiset() == other_blasts.to_multiset(),
        told_apart(hazards_in(enemies, blasts)),
    ensures
        left == right,
{
    lemma_hazards_in(enemies, blasts, other_enemies, other_blasts);
    let hazards = hazards_in(enemies, blasts);
    let others = hazards_in(other_enemies, other_blasts);
    assert forall|place: int| 0 <= place < OBSERVATION_VALUES implies left[place]
        == right[place] by {
        if in_grid_section(place) {
            let (channel, column, row) = law_cells_fill_the_grid(place);
            law_order_does_not_matter(hazards, others, column, row);
            assert(cell_at(left, channel, column, row) == cell_at(right, channel, column, row));
        } else if place >= PLAYER_VALUES {
            let offset = place - (PLAYER_VALUES + GRID_VALUES);
            let (action, sample) = (offset / 12, (offset % 12) / 2);
            assert(path_at(left, action, sample) == path_at(right, action, sample));
            assert(path_place(action, sample) == place || path_place(action, sample) + 1 == place);
        }
    }
    assert(left =~= right);
}

/// A rectangle that is outside the window on either axis covers none of its
/// cells: the window is local, and no threat is dragged onto its edge.
pub proof fn law_outside_is_unobserved(bounds: Bounds, column: int, row: int)
    requires
        in_grid(column, row),
        ({
            ||| !nan(bounds.max.x) && scaled(bounds.max.x) <= 0
            ||| !nan(bounds.max.y) && scaled(bounds.max.y) <= 0
            ||| !nan(bounds.min.x) && scaled(bounds.min.x) >= scaled(WINDOW_PIXELS)
            ||| !nan(bounds.min.y) && scaled(bounds.min.y) >= scaled(WINDOW_PIXELS)
        }),
    ensures
        !bounds.covers(column, row),
{
    lemma_cell_edge();
    let unit = pow2(151) as int;
    assert(column * unit >= 0 && row * unit >= 0) by (nonlinear_arith)
        requires
            column >= 0,
            row >= 0,
            unit > 0,
    ;
    assert((column + 1) * unit <= 64 * unit && (row + 1) * unit <= 64 * unit) by (nonlinear_arith)
        requires
            column < 64,
            row < 64,
            unit > 0,
    ;
}

/// A rectangle whose edges are numbers overlaps the square of a cell with
/// positive area.
pub open spec fn lies_over(bounds: Bounds, column: int, row: int) -> bool {
    let side = scaled(CELL_PIXELS);
    &&& !nan(bounds.min.x) && !nan(bounds.max.x) && !nan(bounds.min.y) && !nan(bounds.max.y)
    &&& scaled(bounds.min.x) < (column + 1) * side && scaled(bounds.max.x) > column * side
    &&& scaled(bounds.min.y) < (row + 1) * side && scaled(bounds.max.y) > row * side
}

/// A rectangle covers exactly the cells whose square it overlaps.
pub proof fn law_coverage_is_overlap(bounds: Bounds, column: int, row: int)
    requires
        !nan(bounds.min.x) && !nan(bounds.max.x),
        !nan(bounds.min.y) && !nan(bounds.max.y),
    ensures
        bounds.covers(column, row) <==> lies_over(bounds, column, row),
{
    lemma_cell_edge();
    assert(cell_edge(1) == pow2(151));
}

/// Which occupancy channel an enemy of this kind is read from; the higher one is
/// the greater threat.
pub open spec fn threat(kind: EnemyKind) -> int {
    match kind {
        EnemyKind::Normal => 0,
        EnemyKind::Kamikaze => 1,
    }
}

proof fn lemma_present_contains(items: Seq<Option<Painted>>, item: Painted)
    ensures
        present(items).contains(item) <==> items.contains(Some(item)),
    decreases items.len(),
{
    broadcast use vstd::seq_lib::group_to_multiset_ensures;

    lemma_present_count(items, item);
    assert(present(items).contains(item) <==> present(items).to_multiset().count(item) > 0);
    assert(items.contains(Some(item)) <==> items.to_multiset().count(Some(item)) > 0);
}

/// Everything that is painted comes from an enemy or a blast in sight, and what
/// is made of either is painted.
proof fn lemma_painted_comes_from_sight(
    enemies: Seq<SeenEnemy>,
    blasts: Seq<SeenBlast>,
    hazard: Painted,
)
    ensures
        hazards_in(enemies, blasts).contains(hazard) <==> {
            ||| exists|i: int|
                0 <= i < enemies.len() && enemy_painted(#[trigger] enemies[i]) == Some(hazard)
            ||| exists|i: int|
                0 <= i < blasts.len() && blast_painted(#[trigger] blasts[i]) == Some(hazard)
        },
{
    let of_enemies = enemies.map_values(|seen: SeenEnemy| enemy_painted(seen));
    let of_blasts = blasts.map_values(|seen: SeenBlast| blast_painted(seen));
    lemma_present_contains(of_enemies, hazard);
    lemma_present_contains(of_blasts, hazard);
    let (left, right) = (present(of_enemies), present(of_blasts));
    let all = left + right;
    if left.contains(hazard) {
        let k = choose|k: int| 0 <= k < left.len() && left[k] == hazard;
        assert(all[k] == hazard);
        let i = choose|i: int| 0 <= i < of_enemies.len() && of_enemies[i] == Some(hazard);
        assert(enemy_painted(enemies[i]) == Some(hazard));
    }
    if right.contains(hazard) {
        let k = choose|k: int| 0 <= k < right.len() && right[k] == hazard;
        assert(all[left.len() + k] == hazard);
        let i = choose|i: int| 0 <= i < of_blasts.len() && of_blasts[i] == Some(hazard);
        assert(blast_painted(blasts[i]) == Some(hazard));
    }
    if all.contains(hazard) {
        let k = choose|k: int| 0 <= k < all.len() && all[k] == hazard;
        if k < left.len() {
            assert(left[k] == hazard);
        } else {
            assert(right[k - left.len()] == hazard);
        }
    }
    if exists|i: int| 0 <= i < enemies.len() && enemy_painted(#[trigger] enemies[i]) == Some(hazard) {
        let i = choose|i: int|
            0 <= i < enemies.len() && enemy_painted(#[trigger] enemies[i]) == Some(hazard);
        assert(of_enemies[i] == Some(hazard));
    }
    if exists|i: int| 0 <= i < blasts.len() && blast_painted(#[trigger] blasts[i]) == Some(hazard) {
        let i = choose|i: int|
            0 <= i < blasts.len() && blast_painted(#[trigger] blasts[i]) == Some(hazard);
        assert(of_blasts[i] == Some(hazard));
    }
}

/// The channels of a cell that this hazard owns.
proof fn lemma_cell_reads(
    values: Seq<u32>,
    player: SeenPlayer,
    enemies: Seq<SeenEnemy>,
    blasts: Seq<SeenBlast>,
    column: int,
    row: int,
    channel: int,
)
    requires
        observes(values, player, enemies, blasts),
        in_grid(column, row),
        0 <= channel < CHANNEL_COUNT,
        channel != 4,
    ensures
        cell_at(values, channel, column, row) == hazard_value(
            owner(hazards_in(enemies, blasts), column, row),
            channel,
        ),
{
    let own = |c: int, r: int| owner(hazards_in(enemies, blasts), c, r);
    assert(hazards_read(values, own));
    assert(cell_at(values, channel, column, row) == hazard_value(own(column, row), channel));
}

/// Every enemy in sight whose hitbox is enabled and whose state is finite is
/// observed, of either kind and at any velocity: each cell its hitbox overlaps is
/// read as occupied by exactly one hazard, and by none that is a lesser threat
/// than it. Where nothing else that covers the cell is a greater threat, nor as
/// great and larger, nor the same and of a lower identity, the cell is its own:
/// its occupancy channel reads one and the velocity channels read its own
/// velocity, clamped to one either way.
pub proof fn law_enemies_in_sight_are_observed(
    values: Seq<u32>,
    player: SeenPlayer,
    enemies: Seq<SeenEnemy>,
    blasts: Seq<SeenBlast>,
    i: int,
    column: int,
    row: int,
)
    requires
        observes(values, player, enemies, blasts),
        0 <= i < enemies.len(),
        enemies[i].enemy.collider.enabled,
        finite(enemies[i].footprint.position.x) && finite(enemies[i].footprint.position.y),
        finite(enemies[i].enemy.collider.half_extents.x),
        finite(enemies[i].enemy.collider.half_extents.y),
        finite(enemies[i].enemy.velocity.x) && finite(enemies[i].enemy.velocity.y),
        in_grid(column, row),
        lies_over(enemies[i].footprint.bounds, column, row),
    ensures
        ({
            let seen = enemies[i];
            let own = threat(seen.enemy.kind);
            let alone = {
                &&& forall|j: int|
                    0 <= j < enemies.len() && j != i && (
                    #[trigger] enemies[j]).enemy.collider.enabled
                        && enemies[j].footprint.bounds.covers(column, row) ==> {
                        ||| threat(enemies[j].enemy.kind) < own
                        ||| enemies[j].enemy.kind == seen.enemy.kind && {
                            ||| scaled(enemies[j].footprint.area) < scaled(seen.footprint.area)
                            ||| enemies[j].footprint.area == seen.footprint.area
                                && enemies[j].enemy.entity > seen.enemy.entity
                        }
                    }
                &&& forall|j: int|
                    0 <= j < blasts.len() && (#[trigger] blasts[j]).blast.collider.enabled
                        ==> !blasts[j].footprint.bounds.covers(column, row)
            };
            &&& exists|channel: int|
                {
                    &&& own <= channel <= 2
                    &&& #[trigger] cell_at(values, channel, column, row) == ONE
                    &&& forall|other: int|
                        0 <= other <= 2 && other != channel ==> #[trigger] cell_at(
                            values,
                            other,
                            column,
                            row,
                        ) == ZERO
                }
            &&& alone ==> {
                &&& cell_at(values, own, column, row) == ONE
                &&& cell_at(values, 3, column, row) == ZERO
                &&& cell_at(values, 5, column, row) == clamped(
                    seen.footprint.velocity.x,
                    MINUS_ONE,
                    ONE,
                )
                &&& cell_at(values, 6, column, row) == clamped(
                    seen.footprint.velocity.y,
                    MINUS_ONE,
                    ONE,
                )
            }
        }),
{
    let seen = enemies[i];
    let own = threat(seen.enemy.kind);
    let hazards = hazards_in(enemies, blasts);
    assert(enemy_painted(seen) is Some);
    let mine = enemy_painted(seen)->0;
    lemma_painted_comes_from_sight(enemies, blasts, mine);
    law_coverage_is_overlap(seen.footprint.bounds, column, row);
    law_highest_hazard_owns_the_cell(hazards, column, row, mine);
    let winner = owner(hazards, column, row)->0;
    lemma_painted_comes_from_sight(enemies, blasts, winner);
    let top = winner.rank.level();
    assert forall|channel: int| 0 <= channel < CHANNEL_COUNT && channel != 4 implies #[trigger] cell_at(
        values,
        channel,
        column,
        row,
    ) == hazard_value(Some(winner), channel) by {
        lemma_cell_reads(values, player, enemies, blasts, column, row, channel);
    }
    assert(cell_at(values, top, column, row) == ONE);
    assert forall|other: int| 0 <= other <= 2 && other != top implies #[trigger] cell_at(
        values,
        other,
        column,
        row,
    ) == ZERO by {}
    let alone = {
        &&& forall|j: int|
            0 <= j < enemies.len() && j != i && (#[trigger] enemies[j]).enemy.collider.enabled
                && enemies[j].footprint.bounds.covers(column, row) ==> {
                ||| threat(enemies[j].enemy.kind) < own
                ||| enemies[j].enemy.kind == seen.enemy.kind && {
                    ||| scaled(enemies[j].footprint.area) < scaled(seen.footprint.area)
                    ||| enemies[j].footprint.area == seen.footprint.area && enemies[j].enemy.entity
                        > seen.enemy.entity
                }
            }
        &&& forall|j: int|
            0 <= j < blasts.len() && (#[trigger] blasts[j]).blast.collider.enabled
                ==> !blasts[j].footprint.bounds.covers(column, row)
    };
    if alone {
        assert(winner == mine) by {
            if exists|j: int|
                0 <= j < enemies.len() && enemy_painted(#[trigger] enemies[j]) == Some(winner) {
                let j = choose|j: int|
                    0 <= j < enemies.len() && enemy_painted(#[trigger] enemies[j]) == Some(winner);
                if j != i {
                    assert(enemies[j].enemy.collider.enabled);
                    crate::bits::law_total_order(
                        enemies[j].footprint.area,
                        seen.footprint.area,
                    );
                }
            } else {
                let j = choose|j: int|
                    0 <= j < blasts.len() && blast_painted(#[trigger] blasts[j]) == Some(winner);
                assert(blasts[j].blast.collider.enabled);
            }
        }
    }
}

/// Every blast in sight with an enabled hitbox, a finite place and size and a
/// duration is observed: each cell its hitbox overlaps reads as a blast and as
/// nothing else, however many enemies stand in it. Where no other blast that
/// covers the cell is larger, nor of the same size and a lower identity, the cell
/// reads how far along this one is.
pub proof fn law_blasts_in_sight_are_observed(
    values: Seq<u32>,
    player: SeenPlayer,
    enemies: Seq<SeenEnemy>,
    blasts: Seq<SeenBlast>,
    i: int,
    column: int,
    row: int,
)
    requires
        observes(values, player, enemies, blasts),
        0 <= i < blasts.len(),
        blasts[i].blast.collider.enabled,
        scaled(blasts[i].blast.duration) > 0,
        finite(blasts[i].footprint.position.x) && finite(blasts[i].footprint.position.y),
        finite(blasts[i].blast.collider.half_extents.x),
        finite(blasts[i].blast.collider.half_extents.y),
        in_grid(column, row),
        lies_over(blasts[i].footprint.bounds, column, row),
    ensures
        cell_at(values, 2, column, row) == ONE,
        cell_at(values, 0, column, row) == ZERO,
        cell_at(values, 1, column, row) == ZERO,
        scaled(cell_at(values, 5, column, row)) == 0,
        scaled(cell_at(values, 6, column, row)) == 0,
        (forall|j: int|
            0 <= j < blasts.len() && j != i && (#[trigger] blasts[j]).blast.collider.enabled
                && blasts[j].footprint.bounds.covers(column, row) ==> {
                ||| scaled(blasts[j].footprint.area) < scaled(blasts[i].footprint.area)
                ||| blasts[j].footprint.area == blasts[i].footprint.area && blasts[j].blast.entity
                    > blasts[i].blast.entity
            }) ==> cell_at(values, 3, column, row) == clamped(blasts[i].phase, MINUS_ONE, ONE),
{
    let seen = blasts[i];
    let hazards = hazards_in(enemies, blasts);
    assert(blast_painted(seen) is Some);
    let mine = blast_painted(seen)->0;
    lemma_painted_comes_from_sight(enemies, blasts, mine);
    law_coverage_is_overlap(seen.footprint.bounds, column, row);
    law_highest_hazard_owns_the_cell(hazards, column, row, mine);
    let winner = owner(hazards, column, row)->0;
    lemma_painted_comes_from_sight(enemies, blasts, winner);
    assert forall|channel: int| 0 <= channel < CHANNEL_COUNT && channel != 4 implies #[trigger] cell_at(
        values,
        channel,
        column,
        row,
    ) == hazard_value(Some(winner), channel) by {
        lemma_cell_reads(values, player, enemies, blasts, column, row, channel);
    }
    assert(winner.rank.level() == 2);
    crate::bits::law_signs(ZERO);
    assert(scaled(ZERO) == 0 && scaled(MINUS_ZERO) == 0) by {
        assert(crate::bits::negated(ZERO) == MINUS_ZERO);
    }
    assert(cell_at(values, 5, column, row) == winner.velocity.x);
    assert(cell_at(values, 6, column, row) == winner.velocity.y);
    let j = choose|j: int|
        0 <= j < blasts.len() && blast_painted(#[trigger] blasts[j]) == Some(winner);
    assert(0 <= j < blasts.len() && blast_painted(blasts[j]) == Some(winner)) by {
        if exists|k: int|
            0 <= k < enemies.len() && enemy_painted(#[trigger] enemies[k]) == Some(winner) {
            let k = choose|k: int|
                0 <= k < enemies.len() && enemy_painted(#[trigger] enemies[k]) == Some(winner);
            assert(winner.rank.level() < 2);
        }
    }
    assert(cell_at(values, 3, column, row) == clamped(blasts[j].phase, MINUS_ONE, ONE));
    if j != i {
        crate::bits::law_total_order(blasts[j].footprint.area, seen.footprint.area);
    }
}

/// A cell says nothing that is not so: what it reads as occupied by is an enabled
/// enemy or blast in sight that covers it, and the other channels read that one's
/// velocity and phase. A cell that nothing in sight covers reads zero throughout.
pub proof fn law_cells_say_only_what_is_there(
    values: Seq<u32>,
    player: SeenPlayer,
    enemies: Seq<SeenEnemy>,
    blasts: Seq<SeenBlast>,
    column: int,
    row: int,
)
    requires
        observes(values, player, enemies, blasts),
        in_grid(column, row),
    ensures
        forall|channel: int|
            0 <= channel <= 1 && #[trigger] cell_at(values, channel, column, row) != ZERO
                ==> exists|i: int|
                {
                    &&& 0 <= i < enemies.len()
                    &&& (#[trigger] enemies[i]).enemy.collider.enabled
                    &&& threat(enemies[i].enemy.kind) == channel
                    &&& enemies[i].footprint.bounds.covers(column, row)
                    &&& cell_at(values, 5, column, row) == clamped(
                        enemies[i].footprint.velocity.x,
                        MINUS_ONE,
                        ONE,
                    )
                    &&& cell_at(values, 6, column, row) == clamped(
                        enemies[i].footprint.velocity.y,
                        MINUS_ONE,
                        ONE,
                    )
                },
        cell_at(values, 2, column, row) != ZERO ==> exists|i: int|
            {
                &&& 0 <= i < blasts.len()
                &&& (#[trigger] blasts[i]).blast.collider.enabled
                &&& blasts[i].footprint.bounds.covers(column, row)
                &&& cell_at(values, 3, column, row) == clamped(blasts[i].phase, MINUS_ONE, ONE)
            },
        (forall|i: int|
            0 <= i < enemies.len() ==> !(#[trigger] enemies[i]).enemy.collider.enabled
                || !enemies[i].footprint.bounds.covers(column, row)) && (forall|i: int|
            0 <= i < blasts.len() ==> !(#[trigger] blasts[i]).blast.collider.enabled
                || !blasts[i].footprint.bounds.covers(column, row)) ==> forall|channel: int|
            0 <= channel < CHANNEL_COUNT && channel != 4 ==> #[trigger] cell_at(
                values,
                channel,
                column,
                row,
            ) == ZERO,
{
    let hazards = hazards_in(enemies, blasts);
    let own = owner(hazards, column, row);
    assert forall|channel: int| 0 <= channel < CHANNEL_COUNT && channel != 4 implies #[trigger] cell_at(
        values,
        channel,
        column,
        row,
    ) == hazard_value(own, channel) by {
        lemma_cell_reads(values, player, enemies, blasts, column, row, channel);
    }
    if let Some(winner) = own {
        law_ranked(hazards);
        lemma_topmost(ranked(hazards), column, row);
        lemma_ranked_contains(hazards, winner);
        lemma_painted_comes_from_sight(enemies, blasts, winner);
        assert(cell_at(values, 3, column, row) == hazard_value(own, 3));
        assert(cell_at(values, 5, column, row) == winner.velocity.x);
        assert(cell_at(values, 6, column, row) == winner.velocity.y);
        if exists|i: int|
            0 <= i < enemies.len() && enemy_painted(#[trigger] enemies[i]) == Some(winner) {
            let i = choose|i: int|
                0 <= i < enemies.len() && enemy_painted(#[trigger] enemies[i]) == Some(winner);
            assert(enemies[i].enemy.collider.enabled);
            assert(enemies[i].footprint.bounds.covers(column, row));
            assert(winner.rank.level() == threat(enemies[i].enemy.kind));
        } else {
            let i = choose|i: int|
                0 <= i < blasts.len() && blast_painted(#[trigger] blasts[i]) == Some(winner);
            assert(blasts[i].blast.collider.enabled);
            assert(blasts[i].footprint.bounds.covers(column, row));
        }
    }
}

/// The player is observed in a channel of its own, in exactly the cells its hitbox
/// overlaps and whatever else is there; its velocity comes first, clamped to one
/// either way, and its paths come last, as they are.
pub proof fn law_the_player_is_observed(
    values: Seq<u32>,
    player: SeenPlayer,
    enemies: Seq<SeenEnemy>,
    blasts: Seq<SeenBlast>,
    column: int,
    row: int,
    action: int,
    sample: int,
)
    requires
        observes(values, player, enemies, blasts),
        in_grid(column, row),
        !nan(player.hitbox.min.x) && !nan(player.hitbox.max.x),
        !nan(player.hitbox.min.y) && !nan(player.hitbox.max.y),
        0 <= action < 9,
        0 <= sample < SAMPLE_COUNT,
    ensures
        values.len() == OBSERVATION_VALUES,
        cell_at(values, 4, column, row) == if lies_over(player.hitbox, column, row) {
            ONE
        } else {
            ZERO
        },
        values[0] == clamped(player.velocity.x, MINUS_ONE, ONE),
        values[1] == clamped(player.velocity.y, MINUS_ONE, ONE),
        values[2 + 7 * 4_096 + action * 12 + sample * 2] == player.paths@[action]@[sample].x,
        values[2 + 7 * 4_096 + action * 12 + sample * 2 + 1] == player.paths@[action]@[sample].y,
{
    law_coverage_is_overlap(player.hitbox, column, row);
    assert(cell_at(values, 4, column, row) == if player.hitbox.covers(column, row) {
        ONE
    } else {
        ZERO
    });
    assert(path_at(values, action, sample) == player.paths@[action]@[sample]);
}

/// Grid values stand channel by channel, row by row and column by column, behind
/// the player's velocity; path values stand action by action and sample by sample
/// behind the grid.
pub proof fn law_values_stand_in_order(
    channel: int,
    column: int,
    row: int,
    action: int,
    sample: int,
)
    ensures
        cell_place(0, 0, 0) == 2,
        cell_place(channel, column + 1, row) == cell_place(channel, column, row) + 1,
        cell_place(channel, column, row + 1) == cell_place(channel, column, row) + 64,
        cell_place(channel + 1, column, row) == cell_place(channel, column, row) + 64 * 64,
        path_place(0, 0) == cell_place(7, 0, 0),
        path_place(action, sample + 1) == path_place(action, sample) + 2,
        path_place(action + 1, sample) == path_place(action, sample) + 12,
{
}

/// A sight is observed exactly when everything in it is finite: one value of the
/// world, the player, an enemy or a blast that is not refuses it, whether or not
/// that one would be painted.
pub proof fn law_one_value_that_is_not_finite_refuses_a_sight(
    player: PlayerView,
    enemies: Seq<SeenEnemy>,
    blasts: Seq<SeenBlast>,
    half_extents: Vec2,
)
    ensures
        ({
            let fault = sight_fault(player, enemies, blasts, half_extents);
            &&& !finite(player.position.x) || !finite(player.position.y) || !finite(
                player.velocity.x,
            ) || !finite(player.velocity.y) || !finite(player.collider.half_extents.x) || !finite(
                player.collider.half_extents.y,
            ) || !finite(player.collider.offset.x) || !finite(player.collider.offset.y)
                ==> fault is Some
            &&& !finite(half_extents.x) || !finite(half_extents.y) ==> fault is Some
            &&& forall|i: int|
                0 <= i < enemies.len() && {
                    let enemy = (#[trigger] enemies[i]).enemy;
                    ||| !finite(enemy.position.x) || !finite(enemy.position.y)
                    ||| !finite(enemy.velocity.x) || !finite(enemy.velocity.y)
                    ||| !finite(enemy.collider.half_extents.x)
                    ||| !finite(enemy.collider.half_extents.y)
                    ||| !finite(enemy.collider.offset.x) || !finite(enemy.collider.offset.y)
                } ==> fault is Some
            &&& forall|i: int|
                0 <= i < blasts.len() && {
                    let blast = (#[trigger] blasts[i]).blast;
                    ||| !finite(blast.position.x) || !finite(blast.position.y)
                    ||| !finite(blast.collider.half_extents.x)
                    ||| !finite(blast.collider.half_extents.y)
                    ||| !finite(blast.collider.offset.x) || !finite(blast.collider.offset.y)
                    ||| !finite(blast.age) || !finite(blast.duration)
                } ==> fault is Some
        }),
{
}

/// A sight in which everything is finite is never refused.
pub proof fn law_finite_sights_are_observed(
    player: PlayerView,
    enemies: Seq<SeenEnemy>,
    blasts: Seq<SeenBlast>,
    half_extents: Vec2,
)
    requires
        finite(half_extents.x) && finite(half_extents.y),
        finite(player.position.x) && finite(player.position.y),
        finite(player.velocity.x) && finite(player.velocity.y),
        finite(player.collider.half_extents.x) && finite(player.collider.half_extents.y),
        finite(player.collider.offset.x) && finite(player.collider.offset.y),
        forall|i: int|
            0 <= i < enemies.len() ==> {
                let enemy = (#[trigger] enemies[i]).enemy;
                &&& finite(enemy.position.x) && finite(enemy.position.y)
                &&& finite(enemy.velocity.x) && finite(enemy.velocity.y)
                &&& finite(enemy.collider.half_extents.x) && finite(enemy.collider.half_extents.y)
                &&& finite(enemy.collider.offset.x) && finite(enemy.collider.offset.y)
            },
        forall|i: int|
            0 <= i < blasts.len() ==> {
                let blast = (#[trigger] blasts[i]).blast;
                &&& finite(blast.position.x) && finite(blast.position.y)
                &&& finite(blast.collider.half_extents.x) && finite(blast.collider.half_extents.y)
                &&& finite(blast.collider.offset.x) && finite(blast.collider.offset.y)
                &&& finite(blast.age) && finite(blast.duration)
            },
    ensures
        sight_fault(player, enemies, blasts, half_extents) is None,
{
}

/// An edge that is no number is the window's near edge: what begins there begins
/// with the first cell, and what ends there ends with it.
pub proof fn law_edges_that_are_no_number(bounds: Bounds, column: int, row: int)
    requires
        in_grid(column, row),
    ensures
        nan(bounds.min.x) ==> (bounds.covers(column, row) <==> (Bounds {
            min: Vec2 { x: ZERO, ..bounds.min },
            ..bounds
        }).covers(column, row)),
        nan(bounds.min.y) ==> (bounds.covers(column, row) <==> (Bounds {
            min: Vec2 { y: ZERO, ..bounds.min },
            ..bounds
        }).covers(column, row)),
        nan(bounds.max.x) ==> (bounds.covers(column, row) <==> (Bounds {
            max: Vec2 { x: CELL_PIXELS, ..bounds.max },
            ..bounds
        }).covers(column, row)),
        nan(bounds.max.y) ==> (bounds.covers(column, row) <==> (Bounds {
            max: Vec2 { y: CELL_PIXELS, ..bounds.max },
            ..bounds
        }).covers(column, row)),
{
    lemma_cell_edge();
    assert(scaled(ZERO) == 0 && !nan(ZERO) && !nan(CELL_PIXELS));
    let unit = pow2(151) as int;
    assert((column + 1) * unit > 0 && (row + 1) * unit > 0) by (nonlinear_arith)
        requires
            column >= 0,
            row >= 0,
            unit > 0,
    ;
    assert((column >= 1 ==> column * unit >= unit) && (row >= 1 ==> row * unit >= unit))
        by (nonlinear_arith)
        requires
            unit > 0,
    ;
    assert(0 * unit == 0 && 1 * unit == unit);
}

/// A layout describes an observation completely: its sections follow each other
/// without a gap up to the last value, there is a name for every channel and every
/// action, and the hold is the one that was asked for.
pub proof fn law_layouts_describe_everything(layout: Layout, hold_frames: u32)
    requires
        describes(layout, hold_frames),
    ensures
        layout.player_section.offset == 0,
        layout.grid_section.offset == layout.player_section.length,
        layout.path_section.offset == layout.grid_section.offset + layout.grid_section.length,
        layout.observation_values == layout.path_section.offset + layout.path_section.length,
        layout.grid_section.length == layout.channels@.len() * layout.grid * layout.grid,
        layout.path_section.length == layout.actions@.len() * layout.horizons@.len() * 2,
        layout.window_pixels == layout.grid * layout.cell_pixels,
        layout.hold_frames == hold_frames,
        layout.horizons@ == SAMPLE_FRAMES@,
        forall|k: int|
            0 <= k < 7 ==> (#[trigger] layout.channels@[k])@ == CHANNELS@[k].called(),
        forall|k: int|
            0 <= k < 9 ==> (#[trigger] layout.actions@[k])@ == Action::ALL@[k].called(),
{
}

/// Without a player, and wherever a sight is refused, every value reads zero.
pub proof fn law_blank_is_zero(values: Seq<u32>, place: int)
    requires
        blank(values),
        0 <= place < values.len(),
    ensures
        values[place] == 0,
{
}

/// No path sample that is a number is further than the furthest, which is one of
/// them or nothing.
pub proof fn law_the_furthest_is_reached(lengths: Seq<u32>, furthest: u32, i: int)
    requires
        furthest_of(lengths, furthest),
        0 <= i < lengths.len(),
        !nan(lengths[i]),
    ensures
        scaled(lengths[i]) <= scaled(furthest),
        scaled(furthest) >= 0 && !nan(furthest),
        furthest == 0 || lengths.contains(furthest),
{
}

/// The channels are called by what they show.
pub proof fn law_channels_are_called_by_what_they_show()
    ensures
        Channel::NormalEnemy.called() == "normal-enemy"@,
        Channel::Kamikaze.called() == "kamikaze"@,
        Channel::Blast.called() == "blast"@,
        Channel::BlastPhase.called() == Channel::Blast.called() + "-phase"@,
        Channel::Player.called() == "player"@,
        Channel::VelocityX.called() == "velocity"@ + "-x"@,
        Channel::VelocityY.called() == "velocity"@ + "-y"@,
{
    reveal_strlit("blast");
    reveal_strlit("-phase");
    reveal_strlit("blast-phase");
    reveal_strlit("velocity");
    reveal_strlit("-x");
    reveal_strlit("-y");
    reveal_strlit("velocity-x");
    reveal_strlit("velocity-y");
    assert("blast-phase"@ =~= "blast"@ + "-phase"@);
    assert("velocity-x"@ =~= "velocity"@ + "-x"@);
    assert("velocity-y"@ =~= "velocity"@ + "-y"@);
}

} // verus!
