use vstd::prelude::*;
use crate::cube::Cube;
use crate::material::Material;
use crate::shading::Object;
use crate::vector::{Vec3, LIMIT};

verus! {

/// Height, in fixed-point units, of the water and sand layer.
pub const WATER_LEVEL: i64 = 4900;

/// Cells of the sand house along x.
pub const HOUSE_WIDTH: i64 = 5;

/// Wall layers of the sand house.
pub const HOUSE_HEIGHT: i64 = 3;

/// Cells of the sand house along z.
pub const HOUSE_DEPTH: i64 = 5;

/// Bound on a grid's side and on a cube's size, so that every generated
/// position stays within the scene's range.
pub const GRID_LIMIT: i64 = 4096;

pub open spec fn scene_cube(center: Vec3, size: int, material: Material) -> Object {
    Object::Cube(Cube { center, size: size as i64, material }, false)
}

/// Cell `(x, z)` lies on the edge of an `n` by `n` grid.
pub open spec fn on_border(x: int, z: int, n: int) -> bool {
    x == 0 || x == n - 1 || z == 0 || z == n - 1
}

/// The sand cubes of the first `k` cells, in row-major order, of an `n` by
/// `n` grid: one per cell on the border.
pub open spec fn border_cubes(material: Material, n: int, size: int, k: int) -> Seq<Object>
    decreases k,
{
    if k <= 0 {
        Seq::empty()
    } else {
        let prev = border_cubes(material, n, size, k - 1);
        let (x, z) = ((k - 1) / n, (k - 1) % n);
        if on_border(x, z, n) {
            prev.push(scene_cube(Vec3 { x: (x * size) as i64, y: WATER_LEVEL, z: (z * size) as i64 }, size, material))
        } else {
            prev
        }
    }
}

/// The water cubes of the first `k` cells, in row-major order, of an `n` by
/// `n` grid, each raised by its own wave height.
pub open spec fn wave_cubes(material: Material, n: int, size: int, heights: Seq<i64>, k: int) -> Seq<Object>
    decreases k,
{
    if k <= 0 {
        Seq::empty()
    } else {
        let (x, z) = ((k - 1) / n, (k - 1) % n);
        wave_cubes(material, n, size, heights, k - 1).push(scene_cube(
            Vec3 { x: (x * size) as i64, y: (WATER_LEVEL + heights[k - 1]) as i64, z: (z * size) as i64 },
            size,
            material,
        ))
    }
}

/// Cell `(x, y, z)` of the house walls is left open for the door or a window.
pub open spec fn is_opening(x: int, y: int, z: int) -> bool {
    let door = x == 2 && z == 0 && y < 2;
    let window = y == 1 && (x == 1 || x == 3) && (z == 0 || z == HOUSE_DEPTH - 1);
    door || window
}

pub open spec fn house_cell(start: Vec3, size: int, x: int, y: int, z: int, material: Material) -> Object {
    scene_cube(
        Vec3 {
            x: (start.x + x * size) as i64,
            y: (start.y + y * size) as i64,
            z: (start.z + z * size) as i64,
        },
        size,
        material,
    )
}

/// The wall cubes among the first `k` cells of the house, x outermost, then
/// y, then z.
pub open spec fn wall_cubes(material: Material, start: Vec3, size: int, k: int) -> Seq<Object>
    decreases k,
{
    if k <= 0 {
        Seq::empty()
    } else {
        let prev = wall_cubes(material, start, size, k - 1);
        let c = k - 1;
        let (x, y, z) = (c / 15, (c / 5) % 3, c % 5);
        if is_opening(x, y, z) { prev } else { prev.push(house_cell(start, size, x, y, z, material)) }
    }
}

/// The roof cubes among the first `k` cells of the roof layer, x outermost.
pub open spec fn roof_cubes(material: Material, start: Vec3, size: int, k: int) -> Seq<Object>
    decreases k,
{
    if k <= 0 {
        Seq::empty()
    } else {
        let c = k - 1;
        roof_cubes(material, start, size, k - 1).push(house_cell(start, size, c / 5, HOUSE_HEIGHT as int, c % 5, material))
    }
}

/// One sand cube, at the water level, for every cell on the edge of an
/// `grid_size` by `grid_size` grid of cubes of edge `cube_size`.
pub fn generate_sand_border(sand_material: Material, grid_size: usize, cube_size: i64) -> (r: Vec<Object>)
    requires
        grid_size <= GRID_LIMIT,
        0 <= cube_size <= GRID_LIMIT,
    ensures
        r@ == border_cubes(sand_material, grid_size as int, cube_size as int, grid_size * grid_size),
{
    let mut sand_cubes: Vec<Object> = Vec::new();
    let n: usize = grid_size;
    assert(n * n <= GRID_LIMIT * GRID_LIMIT) by (nonlinear_arith) requires n <= GRID_LIMIT;
    let total: usize = n * n;
    let mut k: usize = 0;
    while k < total
        invariant
            n <= GRID_LIMIT,
            0 <= cube_size <= GRID_LIMIT,
            total == n * n,
            k <= total,
            sand_cubes@ == border_cubes(sand_material, n as int, cube_size as int, k as int),
        decreases total - k,
    {
        let x: usize = k / n;
        let z: usize = k % n;
        proof {
            assert(n > 0) by (nonlinear_arith) requires k < n * n;
            lemma_cell_position(k as int, n as int, cube_size as int);
        }
        if x == 0 || x == n - 1 || z == 0 || z == n - 1 {
            let center = Vec3::new(x as i64 * cube_size, WATER_LEVEL, z as i64 * cube_size);
            sand_cubes.push(Object::Cube(Cube::new(center, cube_size, sand_material), false));
        }
        k = k + 1;
    }
    sand_cubes
}

/// One water cube for every cell of a `grid_size` by `grid_size` grid, at
/// the water level raised by the cell's entry of `wave_heights` (row-major).
pub fn generate_wave_grid(
    water_material: Material,
    grid_size: usize,
    cube_size: i64,
    wave_heights: &Vec<i64>,
) -> (r: Vec<Object>)
    requires
        grid_size <= GRID_LIMIT,
        0 <= cube_size <= GRID_LIMIT,
        wave_heights@.len() == grid_size * grid_size,
        forall|i: int| 0 <= i < wave_heights@.len() ==> -LIMIT <= #[trigger] wave_heights@[i] <= LIMIT,
    ensures
        r@ == wave_cubes(water_material, grid_size as int, cube_size as int, wave_heights@, grid_size * grid_size),
{
    let mut water_cubes: Vec<Object> = Vec::new();
    let n: usize = grid_size;
    assert(n * n <= GRID_LIMIT * GRID_LIMIT) by (nonlinear_arith) requires n <= GRID_LIMIT;
    let total: usize = n * n;
    let mut k: usize = 0;
    while k < total
        invariant
            n <= GRID_LIMIT,
            0 <= cube_size <= GRID_LIMIT,
            total == n * n,
            k <= total,
            wave_heights@.len() == total,
            forall|i: int| 0 <= i < wave_heights@.len() ==> -LIMIT <= #[trigger] wave_heights@[i] <= LIMIT,
            water_cubes@ == wave_cubes(water_material, n as int, cube_size as int, wave_heights@, k as int),
        decreases total - k,
    {
        let x: usize = k / n;
        let z: usize = k % n;
        proof {
            assert(n > 0) by (nonlinear_arith) requires k < n * n;
            lemma_cell_position(k as int, n as int, cube_size as int);
        }
        let center = Vec3::new(x as i64 * cube_size, WATER_LEVEL + wave_heights[k], z as i64 * cube_size);
        water_cubes.push(Object::Cube(Cube::new(center, cube_size, water_material), false));
        k = k + 1;
    }
    water_cubes
}

/// The cubes of a sand house whose corner cell is centred at
/// `start_position`: five by three by five wall cells, x outermost, leaving
/// out the door and the four windows, then a full five by five roof on top.
pub fn generate_sand_house(sand_material: Material, start_position: Vec3, cube_size: i64) -> (r: Vec<Object>)
    requires
        crate::vector::bounded(start_position, LIMIT as int),
        0 <= cube_size <= GRID_LIMIT,
    ensures
        r@ == wall_cubes(sand_material, start_position, cube_size as int, 75)
            + roof_cubes(sand_material, start_position, cube_size as int, 25),
{
    let mut house_cubes: Vec<Object> = Vec::new();
    let mut k: i64 = 0;
    while k < HOUSE_WIDTH * HOUSE_HEIGHT * HOUSE_DEPTH
        invariant
            0 <= k <= 75,
            crate::vector::bounded(start_position, LIMIT as int),
            0 <= cube_size <= GRID_LIMIT,
            house_cubes@ == wall_cubes(sand_material, start_position, cube_size as int, k as int),
        decreases 75 - k,
    {
        let x: i64 = k / 15;
        let y: i64 = (k / 5) % 3;
        let z: i64 = k % 5;
        let is_door = x == 2 && z == 0 && y < 2;
        let is_window = y == 1 && (x == 1 || x == 3) && (z == 0 || z == HOUSE_DEPTH - 1);
        if !(is_door || is_window) {
            proof {
                assert(0 <= x * cube_size <= 4 * GRID_LIMIT) by (nonlinear_arith)
                    requires 0 <= x <= 4, 0 <= cube_size <= GRID_LIMIT;
                assert(0 <= y * cube_size <= 4 * GRID_LIMIT) by (nonlinear_arith)
                    requires 0 <= y <= 4, 0 <= cube_size <= GRID_LIMIT;
                assert(0 <= z * cube_size <= 4 * GRID_LIMIT) by (nonlinear_arith)
                    requires 0 <= z <= 4, 0 <= cube_size <= GRID_LIMIT;
            }
            let center = Vec3::new(
                start_position.x + x * cube_size,
                start_position.y + y * cube_size,
                start_position.z + z * cube_size,
            );
            house_cubes.push(Object::Cube(Cube::new(center, cube_size, sand_material), false));
        }
        k = k + 1;
    }
    let walls: Ghost<Seq<Object>> = Ghost(house_cubes@);
    let mut j: i64 = 0;
    while j < HOUSE_WIDTH * HOUSE_DEPTH
        invariant
            0 <= j <= 25,
            crate::vector::bounded(start_position, LIMIT as int),
            0 <= cube_size <= GRID_LIMIT,
            walls@ == wall_cubes(sand_material, start_position, cube_size as int, 75),
            house_cubes@ == walls@ + roof_cubes(sand_material, start_position, cube_size as int, j as int),
        decreases 25 - j,
    {
        let x: i64 = j / 5;
        let z: i64 = j % 5;
        proof {
            assert(0 <= x * cube_size <= 4 * GRID_LIMIT) by (nonlinear_arith)
                requires 0 <= x <= 4, 0 <= cube_size <= GRID_LIMIT;
            assert(0 <= z * cube_size <= 4 * GRID_LIMIT) by (nonlinear_arith)
                requires 0 <= z <= 4, 0 <= cube_size <= GRID_LIMIT;
            assert(0 <= HOUSE_HEIGHT * cube_size <= 4 * GRID_LIMIT) by (nonlinear_arith)
                requires 0 <= cube_size <= GRID_LIMIT;
        }
        let center = Vec3::new(
            start_position.x + x * cube_size,
            start_position.y + HOUSE_HEIGHT * cube_size,
            start_position.z + z * cube_size,
        );
        house_cubes.push(Object::Cube(Cube::new(center, cube_size, sand_material), false));
        proof {
            assert(house_cubes@ =~= walls@ + roof_cubes(sand_material, start_position, cube_size as int, j + 1));
        }
        j = j + 1;
    }
    house_cubes
}

/// Height, in fixed-point units, of the centre of the lowest trunk cube.
pub const TRUNK_BASE: i64 = 5000;

/// Edge of a trunk cube; the trunk cubes are stacked one edge apart.
pub const TRUNK_SIZE: i64 = 400;

/// Number of stacked trunk cubes.
pub const TRUNK_CUBES: i64 = 5;

/// Edge of a leaf cube.
pub const LEAF_SIZE: i64 = 500;

/// The first `k` trunk cubes, from the bottom up.
pub open spec fn trunk_cubes(material: Material, k: int) -> Seq<Object>
    decreases k,
{
    if k <= 0 {
        Seq::empty()
    } else {
        trunk_cubes(material, k - 1).push(
            scene_cube(Vec3 { x: 0, y: (TRUNK_BASE + (k - 1) * TRUNK_SIZE) as i64, z: 0 }, TRUNK_SIZE as int, material),
        )
    }
}

/// The crown: one leaf cube on top of the trunk and four around it, half a
/// unit off along each diagonal.
pub open spec fn crown_cubes(material: Material) -> Seq<Object> {
    let y = (TRUNK_BASE + TRUNK_CUBES * TRUNK_SIZE) as i64;
    let leaf = |x: int, z: int| scene_cube(Vec3 { x: x as i64, y, z: z as i64 }, LEAF_SIZE as int, material);
    seq![leaf(0, 0), leaf(500, 500), leaf(-500, 500), leaf(500, -500), leaf(-500, -500)]
}

/// A palm tree at the origin: the trunk cubes from the bottom up, then the crown.
pub fn generate_palm_tree(trunk_material: Material, leaf_material: Material) -> (r: Vec<Object>)
    ensures
        r@ == trunk_cubes(trunk_material, TRUNK_CUBES as int) + crown_cubes(leaf_material),
{
    let mut cubes: Vec<Object> = Vec::new();
    let mut i: i64 = 0;
    while i < TRUNK_CUBES
        invariant
            0 <= i <= TRUNK_CUBES,
            cubes@ == trunk_cubes(trunk_material, i as int),
        decreases TRUNK_CUBES - i,
    {
        let center = Vec3::new(0, TRUNK_BASE + i * TRUNK_SIZE, 0);
        cubes.push(Object::Cube(Cube::new(center, TRUNK_SIZE, trunk_material), false));
        i = i + 1;
    }
    let y: i64 = TRUNK_BASE + TRUNK_CUBES * TRUNK_SIZE;
    let crown = vec![
        Object::Cube(Cube::new(Vec3::new(0, y, 0), LEAF_SIZE, leaf_material), false),
        Object::Cube(Cube::new(Vec3::new(500, y, 500), LEAF_SIZE, leaf_material), false),
        Object::Cube(Cube::new(Vec3::new(-500, y, 500), LEAF_SIZE, leaf_material), false),
        Object::Cube(Cube::new(Vec3::new(500, y, -500), LEAF_SIZE, leaf_material), false),
        Object::Cube(Cube::new(Vec3::new(-500, y, -500), LEAF_SIZE, leaf_material), false),
    ];
    assert(crown@ =~= crown_cubes(leaf_material));
    let mut crown = crown;
    cubes.append(&mut crown);
    cubes
}

proof fn lemma_cell_position(k: int, n: int, size: int)
    requires
        0 <= k < n * n,
        0 < n <= GRID_LIMIT,
        0 <= size <= GRID_LIMIT,
    ensures
        0 <= k / n < n,
        0 <= k % n < n,
        0 <= (k / n) * size <= GRID_LIMIT * GRID_LIMIT,
        0 <= (k % n) * size <= GRID_LIMIT * GRID_LIMIT,
{
    vstd::arithmetic::div_mod::lemma_div_is_ordered(k, n * n, n);
    vstd::arithmetic::div_mod::lemma_div_by_multiple(n, n);
    vstd::arithmetic::div_mod::lemma_mod_bound(k, n);
    vstd::arithmetic::div_mod::lemma_div_pos_is_pos(k, n);
    if k / n >= n {
        assert(false) by {
            vstd::arithmetic::div_mod::lemma_fundamental_div_mod(k, n);
            assert(k >= n * n) by (nonlinear_arith)
                requires k == n * (k / n) + k % n, k / n >= n, k % n >= 0, n > 0;
        }
    }
    let (x, z) = (k / n, k % n);
    assert(0 <= x * size <= GRID_LIMIT * GRID_LIMIT) by (nonlinear_arith)
        requires 0 <= x < n, n <= GRID_LIMIT, 0 <= size <= GRID_LIMIT;
    assert(0 <= z * size <= GRID_LIMIT * GRID_LIMIT) by (nonlinear_arith)
        requires 0 <= z < n, n <= GRID_LIMIT, 0 <= size <= GRID_LIMIT;
}

} // verus!
