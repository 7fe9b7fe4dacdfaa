use vstd::prelude::*;

use crate::material::MaterialType;

verus! {

/// The lake on the ground grid, row by row: for each grid row `z` the run of
/// columns `x` that hold water. No other cell holds water.
pub open spec fn water_cell(x: int, z: int) -> bool {
    if z == 1 {
        3 <= x <= 4
    } else if z == 2 {
        2 <= x <= 5
    } else if z == 3 {
        2 <= x <= 6
    } else if z == 4 {
        0 <= x <= 6
    } else if z == 5 {
        1 <= x <= 6
    } else if z == 6 {
        2 <= x <= 5
    } else {
        false
    }
}

/// Whether the ground cell `(x, z)` is part of the lake. The shape is a main
/// body with extensions and corners added so that its outline is irregular.
pub fn is_water_position(x: i32, z: i32) -> (water: bool)
    ensures
        water == water_cell(x as int, z as int),
{
    let main_area = (x >= 2 && x <= 5 && z >= 3 && z <= 5) || (x >= 3 && x <= 4 && z >= 2 && z
        <= 6) || (x >= 1 && x <= 5 && z == 4);
    let extensions = (x == 6 && z >= 3 && z <= 4)
        || (x >= 3 && x <= 4 && z == 1)
        || (x == 1 && z == 5)
        || (x == 5 && z == 6)
        || (x == 2 && z == 6)
        || (x == 5 && z == 2)
        || (x == 0 && z == 4)
        || (x == 2 && z == 2)
        || (x == 6 && z == 5);
    main_area || extensions
}

/// A point or an extent in the world, in tenths of a world unit.
#[derive(Clone, Copy, Debug, PartialEq, Eq, Structural)]
pub struct TenthsVec {
    pub x: i32,
    pub y: i32,
    pub z: i32,
}

/// An axis-aligned box of the world: its material, its center and its full
/// size along each axis.
#[derive(Clone, Copy, Debug, PartialEq, Eq, Structural)]
pub struct BlockPlacement {
    pub material: MaterialType,
    pub center: TenthsVec,
    pub size: TenthsVec,
}

/// The vector of the given coordinates, in tenths.
pub open spec fn tenths(x: int, y: int, z: int) -> TenthsVec {
    TenthsVec { x: x as i32, y: y as i32, z: z as i32 }
}

/// The box of the given material, center and size.
pub open spec fn placed(material: MaterialType, center: TenthsVec, size: TenthsVec) -> BlockPlacement {
    BlockPlacement { material, center, size }
}

/// Builds the box `placed(material, tenths(cx, cy, cz), tenths(sx, sy, sz))`.
fn block(material: MaterialType, cx: i32, cy: i32, cz: i32, sx: i32, sy: i32, sz: i32) -> (b:
    BlockPlacement)
    ensures
        b == placed(material, tenths(cx as int, cy as int, cz as int), tenths(sx as int, sy as int, sz as int)),
{
    BlockPlacement {
        material,
        center: TenthsVec { x: cx, y: cy, z: cz },
        size: TenthsVec { x: sx, y: sy, z: sz },
    }
}

/// The blocks of cells `0 .. n` in order, cell `i` giving `f(i)`.
pub open spec fn concat_cells(f: spec_fn(int) -> Seq<BlockPlacement>, n: nat) -> Seq<
    BlockPlacement,
>
    decreases n,
{
    if n == 0 {
        Seq::empty()
    } else {
        concat_cells(f, (n - 1) as nat) + f(n - 1)
    }
}

/// Appending the blocks of cell `n` to those of the cells before it gives
/// those of the cells up to `n` included.
proof fn lemma_concat_step(
    before: Seq<BlockPlacement>,
    f: spec_fn(int) -> Seq<BlockPlacement>,
    n: nat,
)
    ensures
        before + concat_cells(f, n) + f(n as int) == before + concat_cells(f, n + 1),
{
    assert(concat_cells(f, n + 1) == concat_cells(f, n) + f(n as int));
    assert(before + concat_cells(f, n) + f(n as int) =~= before + (concat_cells(f, n) + f(
        n as int,
    )));
}

/// Cell `i` of the 9 by 9 ground grid, at `x = i / 9 - 4`, `z = i % 9 - 4`;
/// cells are two units on a side. A stone slab, then a grass layer unless the
/// cell is water.
pub open spec fn ground_cell(i: int) -> Seq<BlockPlacement> {
    let x = i / 9 - 4;
    let z = i % 9 - 4;
    let stone = placed(MaterialType::Stone, tenths(20 * x, -10, 20 * z), tenths(20, 4, 20));
    let grass = placed(MaterialType::Grass, tenths(20 * x, -7, 20 * z), tenths(20, 2, 20));
    if water_cell(x, z) {
        seq![stone]
    } else {
        seq![stone, grass]
    }
}

/// The water layer of ground cell `i`, where that cell is water.
pub open spec fn lake_cell(i: int) -> Seq<BlockPlacement> {
    let x = i / 9 - 4;
    let z = i % 9 - 4;
    if water_cell(x, z) {
        seq![placed(MaterialType::Water, tenths(20 * x, -7, 20 * z), tenths(20, 2, 20))]
    } else {
        seq![]
    }
}

pub open spec fn ground_cells() -> spec_fn(int) -> Seq<BlockPlacement> {
    |i: int| ground_cell(i)
}

pub open spec fn lake_cells() -> spec_fn(int) -> Seq<BlockPlacement> {
    |i: int| lake_cell(i)
}

/// The ground: every grid cell in turn, `x` major, `z` minor.
pub open spec fn ground_layer() -> Seq<BlockPlacement> {
    concat_cells(ground_cells(), 81)
}

/// The lake surface, in the same cell order.
pub open spec fn lake_layer() -> Seq<BlockPlacement> {
    concat_cells(lake_cells(), 81)
}

proof fn lemma_grid_cell(x: int, z: int, side: int, half: int)
    requires
        side > 0,
        0 <= z + half < side,
        0 <= x + half,
    ensures
        ((x + half) * side + z + half) / side - half == x,
        ((x + half) * side + z + half) % side - half == z,
{
    vstd::arithmetic::div_mod::lemma_fundamental_div_mod_converse(
        (x + half) * side + z + half,
        side,
        x + half,
        z + half,
    );
    assert((x + half) * side == side * (x + half)) by (nonlinear_arith);
}

/// Appends the ground: stone under every cell, grass over every dry one.
fn push_ground(out: &mut Vec<BlockPlacement>)
    ensures
        final(out)@ == old(out)@ + ground_layer(),
{
    let mut x: i32 = -4;
    while x < 5
        invariant
            -4 <= x <= 5,
            out@ == old(out)@ + concat_cells(ground_cells(), ((x + 4) * 9) as nat),
        decreases 5 - x,
    {
        let mut z: i32 = -4;
        while z < 5
            invariant
                -4 <= x < 5,
                -4 <= z <= 5,
                out@ == old(out)@ + concat_cells(ground_cells(), ((x + 4) * 9 + z + 4) as nat),
            decreases 5 - z,
        {
            let i: Ghost<int> = Ghost((x + 4) * 9 + z + 4);
            proof {
                lemma_grid_cell(x as int, z as int, 9, 4);
                lemma_concat_step(old(out)@, ground_cells(), i@ as nat);
            }
            let is_water_area = is_water_position(x, z);
            out.push(block(MaterialType::Stone, 20 * x, -10, 20 * z, 20, 4, 20));
            if !is_water_area {
                out.push(block(MaterialType::Grass, 20 * x, -7, 20 * z, 20, 2, 20));
            }
            assert(out@ == old(out)@ + concat_cells(ground_cells(), i@ as nat) + ground_cell(i@));
            z = z + 1;
        }
        x = x + 1;
    }
}

/// Appends the lake surface over every water cell.
fn push_lake(out: &mut Vec<BlockPlacement>)
    ensures
        final(out)@ == old(out)@ + lake_layer(),
{
    let mut x: i32 = -4;
    while x < 5
        invariant
            -4 <= x <= 5,
            out@ == old(out)@ + concat_cells(lake_cells(), ((x + 4) * 9) as nat),
        decreases 5 - x,
    {
        let mut z: i32 = -4;
        while z < 5
            invariant
                -4 <= x < 5,
                -4 <= z <= 5,
                out@ == old(out)@ + concat_cells(lake_cells(), ((x + 4) * 9 + z + 4) as nat),
            decreases 5 - z,
        {
            let i: Ghost<int> = Ghost((x + 4) * 9 + z + 4);
            proof {
                lemma_grid_cell(x as int, z as int, 9, 4);
                lemma_concat_step(old(out)@, lake_cells(), i@ as nat);
            }
            if is_water_position(x, z) {
                out.push(block(MaterialType::Water, 20 * x, -7, 20 * z, 20, 2, 20));
            }
            assert(out@ == old(out)@ + concat_cells(lake_cells(), i@ as nat) + lake_cell(i@));
            z = z + 1;
        }
        x = x + 1;
    }
}

/// An obsidian cube of the portal frame, one unit on a side.
pub open spec fn frame_block(x: int, y: int) -> BlockPlacement {
    placed(MaterialType::Obsidian, tenths(x, y, 0), tenths(10, 10, 10))
}

/// Row `i` of the frame's two pillars, at `x = -1` and `x = 1`.
pub open spec fn pillar_row(i: int) -> Seq<BlockPlacement> {
    seq![frame_block(-10, 10 * i), frame_block(10, 10 * i)]
}

/// Column `i` of the frame's bottom and top rails, at `y = -1` and `y = 4`.
pub open spec fn rail_column(i: int) -> Seq<BlockPlacement> {
    seq![frame_block(10 * (i - 1), -10), frame_block(10 * (i - 1), 40)]
}

/// Row `i` of the thin portal pane inside the frame.
pub open spec fn pane_row(i: int) -> Seq<BlockPlacement> {
    seq![placed(MaterialType::Portal, tenths(0, 10 * i, 0), tenths(8, 10, 2))]
}

pub open spec fn pillar_rows() -> spec_fn(int) -> Seq<BlockPlacement> {
    |i: int| pillar_row(i)
}

pub open spec fn rail_columns() -> spec_fn(int) -> Seq<BlockPlacement> {
    |i: int| rail_column(i)
}

pub open spec fn pane_rows() -> spec_fn(int) -> Seq<BlockPlacement> {
    |i: int| pane_row(i)
}

/// The portal at the center: a five-high pair of pillars, the rails across
/// their bottom and top, and the pane between them.
pub open spec fn portal_blocks() -> Seq<BlockPlacement> {
    concat_cells(pillar_rows(), 5) + concat_cells(rail_columns(), 3) + concat_cells(pane_rows(), 4)
}

/// The log along `x` of the campfire cross, piece `i`.
pub open spec fn log_x_piece(i: int) -> Seq<BlockPlacement> {
    seq![placed(MaterialType::Wood, tenths(-60 + 10 * (i - 1), -3, -60), tenths(8, 3, 3))]
}

/// The log along `z` of the campfire cross, piece `i`.
pub open spec fn log_z_piece(i: int) -> Seq<BlockPlacement> {
    seq![placed(MaterialType::Wood, tenths(-60, -3, -60 + 10 * (i - 1)), tenths(3, 3, 8))]
}

pub open spec fn log_x_pieces() -> spec_fn(int) -> Seq<BlockPlacement> {
    |i: int| log_x_piece(i)
}

pub open spec fn log_z_pieces() -> spec_fn(int) -> Seq<BlockPlacement> {
    |i: int| log_z_piece(i)
}

/// The two crossed logs of the campfire in the corner at `(-6, -6)`.
pub open spec fn campfire_blocks() -> Seq<BlockPlacement> {
    concat_cells(log_x_pieces(), 3) + concat_cells(log_z_pieces(), 3)
}

/// A leaf block of the tree standing at `(-6, 6)`, offset by whole units.
pub open spec fn leaf(dx: int, y: int, dz: int) -> BlockPlacement {
    placed(MaterialType::Leaves, tenths(-60 + 10 * dx, y, 60 + 10 * dz), tenths(10, 8, 10))
}

pub open spec fn trunk_piece(i: int) -> Seq<BlockPlacement> {
    seq![placed(MaterialType::Wood, tenths(-60, 10 * i, 60), tenths(8, 10, 8))]
}

/// The lowest leaf layer: a 5 by 5 square without its four corners.
pub open spec fn canopy_low(i: int) -> Seq<BlockPlacement> {
    let dx = i / 5 - 2;
    let dz = i % 5 - 2;
    if (dx == 2 || dx == -2) && (dz == 2 || dz == -2) {
        seq![]
    } else {
        seq![leaf(dx, 25, dz)]
    }
}

/// The middle leaf layer: a full 3 by 3 square.
pub open spec fn canopy_mid(i: int) -> Seq<BlockPlacement> {
    seq![leaf(i / 3 - 1, 35, i % 3 - 1)]
}

/// The upper leaf layer: a plus sign, the 3 by 3 square without its corners.
pub open spec fn canopy_high(i: int) -> Seq<BlockPlacement> {
    let dx = i / 3 - 1;
    let dz = i % 3 - 1;
    if dx != 0 && dz != 0 {
        seq![]
    } else {
        seq![leaf(dx, 45, dz)]
    }
}

pub open spec fn trunk_pieces() -> spec_fn(int) -> Seq<BlockPlacement> {
    |i: int| trunk_piece(i)
}

pub open spec fn canopy_lows() -> spec_fn(int) -> Seq<BlockPlacement> {
    |i: int| canopy_low(i)
}

pub open spec fn canopy_mids() -> spec_fn(int) -> Seq<BlockPlacement> {
    |i: int| canopy_mid(i)
}

pub open spec fn canopy_highs() -> spec_fn(int) -> Seq<BlockPlacement> {
    |i: int| canopy_high(i)
}

/// The tree: a three-block trunk, three leaf layers narrowing upward, and a
/// single leaf block on the peak.
pub open spec fn tree_blocks() -> Seq<BlockPlacement> {
    concat_cells(trunk_pieces(), 3) + concat_cells(canopy_lows(), 25) + concat_cells(
        canopy_mids(),
        9,
    ) + concat_cells(canopy_highs(), 9) + seq![leaf(0, 55, 0)]
}

/// Every box of the world, in the order the scene lists them.
pub open spec fn world_layout() -> Seq<BlockPlacement> {
    ground_layer() + lake_layer() + portal_blocks() + campfire_blocks() + tree_blocks()
}

/// Appends the portal: its obsidian frame, then the pane inside it.
fn push_portal(out: &mut Vec<BlockPlacement>)
    ensures
        final(out)@ == old(out)@ + portal_blocks(),
{
    let ghost start = out@;
    let mut y: i32 = 0;
    while y < 5
        invariant
            0 <= y <= 5,
            out@ == start + concat_cells(pillar_rows(), y as nat),
        decreases 5 - y,
    {
        proof {
            lemma_concat_step(start, pillar_rows(), y as nat);
        }
        out.push(block(MaterialType::Obsidian, -10, 10 * y, 0, 10, 10, 10));
        out.push(block(MaterialType::Obsidian, 10, 10 * y, 0, 10, 10, 10));
        assert(out@ == start + concat_cells(pillar_rows(), y as nat) + pillar_row(y as int));
        y = y + 1;
    }
    let ghost pillars = out@;
    let mut x: i32 = -1;
    while x < 2
        invariant
            -1 <= x <= 2,
            out@ == pillars + concat_cells(rail_columns(), (x + 1) as nat),
        decreases 2 - x,
    {
        proof {
            lemma_concat_step(pillars, rail_columns(), (x + 1) as nat);
        }
        out.push(block(MaterialType::Obsidian, 10 * x, -10, 0, 10, 10, 10));
        out.push(block(MaterialType::Obsidian, 10 * x, 40, 0, 10, 10, 10));
        assert(out@ == pillars + concat_cells(rail_columns(), (x + 1) as nat) + rail_column(
            x + 1,
        ));
        x = x + 1;
    }
    let ghost frame = out@;
    let mut y: i32 = 0;
    while y < 4
        invariant
            0 <= y <= 4,
            out@ == frame + concat_cells(pane_rows(), y as nat),
        decreases 4 - y,
    {
        proof {
            lemma_concat_step(frame, pane_rows(), y as nat);
        }
        out.push(block(MaterialType::Portal, 0, 10 * y, 0, 8, 10, 2));
        assert(out@ == frame + concat_cells(pane_rows(), y as nat) + pane_row(y as int));
        y = y + 1;
    }
    assert(out@ =~= start + portal_blocks());
}

/// Appends the campfire's two crossed logs.
fn push_campfire(out: &mut Vec<BlockPlacement>)
    ensures
        final(out)@ == old(out)@ + campfire_blocks(),
{
    let ghost start = out@;
    let mut i: i32 = -1;
    while i < 2
        invariant
            -1 <= i <= 2,
            out@ == start + concat_cells(log_x_pieces(), (i + 1) as nat),
        decreases 2 - i,
    {
        proof {
            lemma_concat_step(start, log_x_pieces(), (i + 1) as nat);
        }
        out.push(block(MaterialType::Wood, -60 + 10 * i, -3, -60, 8, 3, 3));
        assert(out@ == start + concat_cells(log_x_pieces(), (i + 1) as nat) + log_x_piece(i + 1));
        i = i + 1;
    }
    let ghost first = out@;
    let mut i: i32 = -1;
    while i < 2
        invariant
            -1 <= i <= 2,
            out@ == first + concat_cells(log_z_pieces(), (i + 1) as nat),
        decreases 2 - i,
    {
        proof {
            lemma_concat_step(first, log_z_pieces(), (i + 1) as nat);
        }
        out.push(block(MaterialType::Wood, -60, -3, -60 + 10 * i, 3, 3, 8));
        assert(out@ == first + concat_cells(log_z_pieces(), (i + 1) as nat) + log_z_piece(i + 1));
        i = i + 1;
    }
    assert(out@ =~= start + campfire_blocks());
}

fn abs_offset(d: i32) -> (a: i32)
    requires
        -3 <= d <= 3,
    ensures
        a == if d < 0 { -d } else { d as int },
{
    if d < 0 {
        -d
    } else {
        d
    }
}

/// Appends the tree: trunk, three leaf layers and the peak.
fn push_tree(out: &mut Vec<BlockPlacement>)
    ensures
        final(out)@ == old(out)@ + tree_blocks(),
{
    let ghost start = out@;
    let mut y: i32 = 0;
    while y < 3
        invariant
            0 <= y <= 3,
            out@ == start + concat_cells(trunk_pieces(), y as nat),
        decreases 3 - y,
    {
        proof {
            lemma_concat_step(start, trunk_pieces(), y as nat);
        }
        out.push(block(MaterialType::Wood, -60, 10 * y, 60, 8, 10, 8));
        assert(out@ == start + concat_cells(trunk_pieces(), y as nat) + trunk_piece(y as int));
        y = y + 1;
    }
    let ghost trunk = out@;
    let mut dx: i32 = -2;
    while dx < 3
        invariant
            -2 <= dx <= 3,
            out@ == trunk + concat_cells(canopy_lows(), ((dx + 2) * 5) as nat),
        decreases 3 - dx,
    {
        let mut dz: i32 = -2;
        while dz < 3
            invariant
                -2 <= dx < 3,
                -2 <= dz <= 3,
                out@ == trunk + concat_cells(canopy_lows(), ((dx + 2) * 5 + dz + 2) as nat),
            decreases 3 - dz,
        {
            let ghost i = (dx + 2) * 5 + dz + 2;
            proof {
                lemma_grid_cell(dx as int, dz as int, 5, 2);
                lemma_concat_step(trunk, canopy_lows(), i as nat);
            }
            let ax = abs_offset(dx);
            let az = abs_offset(dz);
            if ax + az <= 3 && !(ax == 2 && az == 2) {
                out.push(block(MaterialType::Leaves, -60 + 10 * dx, 25, 60 + 10 * dz, 10, 8, 10));
            }
            assert(out@ == trunk + concat_cells(canopy_lows(), i as nat) + canopy_low(i));
            dz = dz + 1;
        }
        dx = dx + 1;
    }
    let ghost low = out@;
    let mut dx: i32 = -1;
    while dx < 2
        invariant
            -1 <= dx <= 2,
            out@ == low + concat_cells(canopy_mids(), ((dx + 1) * 3) as nat),
        decreases 2 - dx,
    {
        let mut dz: i32 = -1;
        while dz < 2
            invariant
                -1 <= dx < 2,
                -1 <= dz <= 2,
                out@ == low + concat_cells(canopy_mids(), ((dx + 1) * 3 + dz + 1) as nat),
            decreases 2 - dz,
        {
            let ghost i = (dx + 1) * 3 + dz + 1;
            proof {
                lemma_grid_cell(dx as int, dz as int, 3, 1);
                lemma_concat_step(low, canopy_mids(), i as nat);
            }
            if abs_offset(dx) + abs_offset(dz) <= 2 {
                out.push(block(MaterialType::Leaves, -60 + 10 * dx, 35, 60 + 10 * dz, 10, 8, 10));
            }
            assert(out@ == low + concat_cells(canopy_mids(), i as nat) + canopy_mid(i));
            dz = dz + 1;
        }
        dx = dx + 1;
    }
    let ghost mid = out@;
    let mut dx: i32 = -1;
    while dx < 2
        invariant
            -1 <= dx <= 2,
            out@ == mid + concat_cells(canopy_highs(), ((dx + 1) * 3) as nat),
        decreases 2 - dx,
    {
        let mut dz: i32 = -1;
        while dz < 2
            invariant
                -1 <= dx < 2,
                -1 <= dz <= 2,
                out@ == mid + concat_cells(canopy_highs(), ((dx + 1) * 3 + dz + 1) as nat),
            decreases 2 - dz,
        {
            let ghost i = (dx + 1) * 3 + dz + 1;
            proof {
                lemma_grid_cell(dx as int, dz as int, 3, 1);
                lemma_concat_step(mid, canopy_highs(), i as nat);
            }
            let ax = abs_offset(dx);
            let az = abs_offset(dz);
            if ax <= 1 && az <= 1 && !(ax == 1 && az == 1) {
                out.push(block(MaterialType::Leaves, -60 + 10 * dx, 45, 60 + 10 * dz, 10, 8, 10));
            }
            assert(out@ == mid + concat_cells(canopy_highs(), i as nat) + canopy_high(i));
            dz = dz + 1;
        }
        dx = dx + 1;
    }
    out.push(block(MaterialType::Leaves, -60, 55, 60, 10, 8, 10));
    assert(out@ =~= start + tree_blocks());
}

/// Every box of the sequence has a positive extent along each axis.
pub open spec fn all_solid(blocks: Seq<BlockPlacement>) -> bool {
    forall|i: int|
        0 <= i < blocks.len() ==> #[trigger] blocks[i].size.x > 0 && blocks[i].size.y > 0
            && blocks[i].size.z > 0
}

proof fn lemma_concat_solid(f: spec_fn(int) -> Seq<BlockPlacement>, n: nat)
    requires
        forall|i: int| 0 <= i < n ==> all_solid(#[trigger] f(i)),
    ensures
        all_solid(concat_cells(f, n)),
    decreases n,
{
    if n > 0 {
        lemma_concat_solid(f, (n - 1) as nat);
        let a = concat_cells(f, (n - 1) as nat);
        let b = f(n - 1);
        assert forall|i: int| 0 <= i < (a + b).len() implies #[trigger] (a + b)[i].size.x > 0
            && (a + b)[i].size.y > 0 && (a + b)[i].size.z > 0 by {
            if i >= a.len() {
                assert((a + b)[i] == b[i - a.len()]);
            }
        }
    }
}

proof fn lemma_append_solid(a: Seq<BlockPlacement>, b: Seq<BlockPlacement>)
    requires
        all_solid(a),
        all_solid(b),
    ensures
        all_solid(a + b),
{
    assert forall|i: int| 0 <= i < (a + b).len() implies #[trigger] (a + b)[i].size.x > 0 && (a
        + b)[i].size.y > 0 && (a + b)[i].size.z > 0 by {
        if i >= a.len() {
            assert((a + b)[i] == b[i - a.len()]);
        }
    }
}

/// Every box of the world is solid: the engine may rely on well-formed
/// boxes, with a positive size along each axis.
pub proof fn lemma_world_layout_solid()
    ensures
        all_solid(world_layout()),
{
    lemma_concat_solid(ground_cells(), 81);
    lemma_concat_solid(lake_cells(), 81);
    lemma_concat_solid(pillar_rows(), 5);
    lemma_concat_solid(rail_columns(), 3);
    lemma_concat_solid(pane_rows(), 4);
    lemma_concat_solid(log_x_pieces(), 3);
    lemma_concat_solid(log_z_pieces(), 3);
    lemma_concat_solid(trunk_pieces(), 3);
    lemma_concat_solid(canopy_lows(), 25);
    lemma_concat_solid(canopy_mids(), 9);
    lemma_concat_solid(canopy_highs(), 9);
    lemma_append_solid(concat_cells(pillar_rows(), 5), concat_cells(rail_columns(), 3));
    lemma_append_solid(
        concat_cells(pillar_rows(), 5) + concat_cells(rail_columns(), 3),
        concat_cells(pane_rows(), 4),
    );
    lemma_append_solid(concat_cells(log_x_pieces(), 3), concat_cells(log_z_pieces(), 3));
    lemma_append_solid(concat_cells(trunk_pieces(), 3), concat_cells(canopy_lows(), 25));
    lemma_append_solid(
        concat_cells(trunk_pieces(), 3) + concat_cells(canopy_lows(), 25),
        concat_cells(canopy_mids(), 9),
    );
    lemma_append_solid(
        concat_cells(trunk_pieces(), 3) + concat_cells(canopy_lows(), 25) + concat_cells(
            canopy_mids(),
            9,
        ),
        concat_cells(canopy_highs(), 9),
    );
    lemma_append_solid(
        concat_cells(trunk_pieces(), 3) + concat_cells(canopy_lows(), 25) + concat_cells(
            canopy_mids(),
            9,
        ) + concat_cells(canopy_highs(), 9),
        seq![leaf(0, 55, 0)],
    );
    lemma_append_solid(ground_layer(), lake_layer());
    lemma_append_solid(ground_layer() + lake_layer(), portal_blocks());
    lemma_append_solid(ground_layer() + lake_layer() + portal_blocks(), campfire_blocks());
    lemma_append_solid(
        ground_layer() + lake_layer() + portal_blocks() + campfire_blocks(),
        tree_blocks(),
    );
}

/// The boxes of the world: the ground with its lake, the portal, the campfire
/// logs and the tree, positions and sizes in tenths of a world unit.
pub fn world_blocks() -> (blocks: Vec<BlockPlacement>)
    ensures
        blocks@ == world_layout(),
        all_solid(blocks@),
{
    let mut blocks: Vec<BlockPlacement> = Vec::new();
    push_ground(&mut blocks);
    push_lake(&mut blocks);
    push_portal(&mut blocks);
    push_campfire(&mut blocks);
    push_tree(&mut blocks);
    assert(blocks@ =~= world_layout());
    proof {
        lemma_world_layout_solid();
    }
    blocks
}

} // verus!
