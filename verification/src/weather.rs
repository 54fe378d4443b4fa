use vstd::prelude::*;
use crate::terrain::{X_START, X_STEP, CURVE_LEN, Level, TerrainColumn, level_before, terrain_column};

verus! {

/// The sum of a sequence of sizes.
pub open spec fn total(s: Seq<u32>) -> nat
    decreases s.len(),
{
    if s.len() == 0 {
        0
    } else {
        total(s.drop_last()) + s.last() as nat
    }
}

// ---------------------------------------------------------------------------
// Hour strips

/// How many forecast hours the weather of a canvas `width` columns wide
/// shows: the first hour always, then one more for each further strip that
/// starts inside the canvas, and never more hours than the forecast has.
pub open spec fn shown_hours(width: nat, hours: nat) -> nat {
    let strips: nat = if width / (X_STEP as nat) >= 1 { width / (X_STEP as nat) } else { 1 };
    if hours <= strips { hours } else { strips }
}

/// The column at which the strip of forecast hour `k` starts.
pub open spec fn strip_start(k: nat) -> nat {
    X_START as nat + (X_STEP as nat) * k
}

/// The start columns of the hour strips whose weather is drawn on a canvas
/// `width` columns wide, for a forecast of `hours` hours, in hour order.
pub fn hour_strips(width: u32, hours: usize) -> (starts: Vec<u32>)
    ensures
        starts.len() == shown_hours(width as nat, hours as nat),
        forall|k: int| 0 <= k < starts.len() ==> starts@[k] == strip_start(k as nat),
        starts.len() <= hours,
        hours > 0 ==> starts.len() >= 1,
        forall|k: int| 1 <= k < starts.len() ==> #[trigger] starts@[k] <= width,
        starts.len() < hours ==> strip_start(starts.len() as nat) > width,
{
    let mut starts: Vec<u32> = Vec::new();
    let mut xpos: u64 = X_START as u64;
    let mut k: usize = 0;
    while k < hours
        invariant_except_break
            k == 0 || xpos <= width,
        invariant
            k <= hours,
            starts.len() == k,
            xpos == strip_start(k as nat),
            forall|j: int| 0 <= j < k ==> starts@[j] == strip_start(j as nat),
            k >= 1 ==> strip_start((k - 1) as nat) <= width || k == 1,
        ensures
            k == hours || (k >= 1 && xpos > width),
        decreases hours - k,
    {
        starts.push(xpos as u32);
        xpos = xpos + X_STEP as u64;
        k = k + 1;
        if xpos > width as u64 {
            break;
        }
    }
    proof {
        let w = width as nat;
        if k >= 1 && xpos > width {
            if k == 1 {
                assert(w < 60);
                assert(w / 30 <= 1);
            } else {
                assert(30 * (k as nat) <= w < 30 * (k as nat) + 30);
                assert(w / 30 == k);
            }
        } else if k >= 1 {
            assert(30 * (k as nat) + 30 <= w);
            assert(w / 30 >= k + 1);
        }
        assert forall|j: int| 1 <= j < starts.len() implies #[trigger] starts@[j] <= width by {
            assert(starts@[j] == 30 + 30 * j);
            assert(30 * (j + 1) <= 30 * (k as int));
        }
    }
    starts
}

/// The weather of an hour is drawn over the ground of that hour: the strip
/// that starts at `strip_start(k)` is where the ground curves to hour `k`'s
/// temperature and then holds it.
pub proof fn lemma_strip_over_its_ground(k: nat, hours: nat, d: nat)
    requires
        k < hours,
        d < X_STEP,
        k <= usize::MAX,
    ensures
        terrain_column(strip_start(k) + d, hours) == (if d < CURVE_LEN {
            TerrainColumn::Curve { from: level_before(k), to: Level::Hour(k as usize), step: d as u32 }
        } else {
            TerrainColumn::Hold(Level::Hour(k as usize))
        }),
{
    let y = (X_STEP as nat) * k + d;
    assert(((strip_start(k) + d - X_START) as nat) == y);
    assert(y / 30 == k && y % 30 == d);
}

// ---------------------------------------------------------------------------
// Rain and snow

/// The cells at which a drop may fall in column `x` above ground row
/// `ground`: every second row from the top, `(x, 0), (x, 2), ...`, above the
/// ground.
pub open spec fn column_cells(x: nat, ground: nat) -> Seq<(usize, usize)> {
    Seq::new((ground + 1) / 2, |j: int| (x as usize, (2 * j) as usize))
}

/// The cells of the columns `start .. end`, column by column.
pub open spec fn cells_upto(start: nat, end: nat, ground: Seq<usize>) -> Seq<(usize, usize)>
    decreases end,
{
    if end <= start {
        Seq::<(usize, usize)>::empty()
    } else {
        cells_upto(start, (end - 1) as nat, ground) + column_cells((end - 1) as nat, ground[end - 1] as nat)
    }
}

/// The last column, exclusive, of a strip of `strip` columns from `start`
/// on a canvas `width` columns wide.
pub open spec fn strip_end(start: nat, strip: nat, width: nat) -> nat {
    if start + strip <= width {
        start + strip
    } else if start <= width {
        width
    } else {
        start
    }
}

/// The cells, column by column and top down, at which rain or snow may fall
/// in the strip of `strip` columns from column `start`, where `ground[x]` is
/// the row of the ground in column `x` and the canvas ends after the last
/// entry of `ground`.
pub fn precipitation_cells(start: usize, strip: usize, ground: &Vec<usize>) -> (cells: Vec<(usize, usize)>)
    ensures
        cells@ == cells_upto(start as nat, strip_end(start as nat, strip as nat, ground.len() as nat), ground@),
        forall|i: int|
            0 <= i < cells.len() ==> {
                let (x, y) = #[trigger] cells@[i];
                &&& start <= x && x - start < strip && x < ground.len()
                &&& y < ground@[x as int] && y % 2 == 0
            },
        forall|x: usize, y: usize|
            start <= x && x - start < strip && x < ground.len() && y < ground@[x as int] && y % 2 == 0
                ==> #[trigger] cells@.contains((x, y)),
        in_drawing_order(cells@),
{
    proof {
        let end = strip_end(start as nat, strip as nat, ground.len() as nat);
        if end <= ground.len() {
            lemma_precipitation_above_ground(start as nat, end, ground@);
            lemma_precipitation_reaches_every_cell(start as nat, end, ground@);
            lemma_precipitation_in_drawing_order(start as nat, end, ground@);
        } else {
            assert(end == start);
            assert(cells_upto(start as nat, end, ground@) =~= Seq::<(usize, usize)>::empty());
        }
    }
    let width = ground.len();
    let mut cells: Vec<(usize, usize)> = Vec::new();
    let mut x: usize = start;
    let ghost end = strip_end(start as nat, strip as nat, width as nat);
    if start >= width {
        return cells;
    }
    while x - start < strip && x < width
        invariant
            start <= x <= end,
            start < width,
            end == strip_end(start as nat, strip as nat, width as nat),
            width == ground.len(),
            cells@ == cells_upto(start as nat, x as nat, ground@),
        decreases width - x,
    {
        let rows = ground[x];
        let count = rows / 2 + rows % 2;
        let mut j: usize = 0;
        while j < count
            invariant
                j <= count,
                count == (rows as nat + 1) / 2,
                start <= x < width,
                rows == ground@[x as int],
                cells@ == cells_upto(start as nat, x as nat, ground@) + Seq::new(j as nat, |i: int| (x, (2 * i) as usize)),
            decreases count - j,
        {
            cells.push((x, 2 * j));
            j = j + 1;
            assert(cells@ =~= cells_upto(start as nat, x as nat, ground@) + Seq::new(j as nat, |i: int| (x, (2 * i) as usize)));
        }
        assert(column_cells(x as nat, rows as nat) =~= Seq::new(j as nat, |i: int| (x, (2 * i) as usize)));
        x = x + 1;
    }
    cells
}

/// Rain and snow stay in their strip and above the ground: every cell lies
/// in a column of the strip inside the canvas, on an even row above that
/// column's ground.
pub proof fn lemma_precipitation_above_ground(start: nat, end: nat, ground: Seq<usize>)
    requires
        end <= ground.len(),
        ground.len() <= usize::MAX,
    ensures
        forall|i: int| 0 <= i < cells_upto(start, end, ground).len() ==> {
            let (x, y) = #[trigger] cells_upto(start, end, ground)[i];
            &&& start <= x < end
            &&& y < ground[x as int]
            &&& y % 2 == 0
        },
    decreases end,
{
    if end > start {
        let prev = cells_upto(start, (end - 1) as nat, ground);
        let col = column_cells((end - 1) as nat, ground[end - 1] as nat);
        lemma_precipitation_above_ground(start, (end - 1) as nat, ground);
        assert forall|i: int| 0 <= i < cells_upto(start, end, ground).len() implies {
            let (x, y) = #[trigger] cells_upto(start, end, ground)[i];
            &&& start <= x < end
            &&& y < ground[x as int]
            &&& y % 2 == 0
        } by {
            let c = cells_upto(start, end, ground);
            assert(c == prev + col);
            if i >= prev.len() {
                let j = i - prev.len();
                assert(c[i] == col[j]);
                assert(2 * j < ground[end - 1] as int + 1);
                assert(col[j] == ((end - 1) as usize, (2 * j) as usize));
                assert(((end - 1) as usize) as int == end - 1);
                assert(((2 * j) as usize) as int == 2 * j);
            } else {
                assert(c[i] == prev[i]);
            }
        }
    }
}

/// Whether the cells run column by column, left to right, and top down
/// within a column, with no cell twice.
pub open spec fn in_drawing_order(cells: Seq<(usize, usize)>) -> bool {
    forall|i: int, j: int|
        0 <= i < j < cells.len() ==> #[trigger] cells[i].0 < #[trigger] cells[j].0 || (cells[i].0 == cells[j].0
            && cells[i].1 < cells[j].1)
}

/// Rain and snow reach every cell they may fall in: each even row above
/// the ground of each column from `start` to `end` is a cell.
pub proof fn lemma_precipitation_reaches_every_cell(start: nat, end: nat, ground: Seq<usize>)
    requires
        end <= ground.len(),
        ground.len() <= usize::MAX,
    ensures
        forall|x: usize, y: usize|
            start <= x < end && y < ground[x as int] && y % 2 == 0 ==> #[trigger] cells_upto(start, end, ground).contains((x, y)),
    decreases end,
{
    if end > start {
        let prev = cells_upto(start, (end - 1) as nat, ground);
        let col = column_cells((end - 1) as nat, ground[end - 1] as nat);
        lemma_precipitation_reaches_every_cell(start, (end - 1) as nat, ground);
        let c = cells_upto(start, end, ground);
        assert(c == prev + col);
        assert forall|x: usize, y: usize|
            start <= x < end && y < ground[x as int] && y % 2 == 0 implies #[trigger] c.contains((x, y)) by {
            if x == end - 1 {
                let j = (y / 2) as int;
                assert(2 * j == y);
                assert(j < (ground[end - 1] as nat + 1) / 2);
                assert(col[j] == ((end - 1) as usize, (2 * j) as usize));
                assert(c[prev.len() + j] == (x, y));
            } else {
                assert(prev.contains((x, y)));
                let i = choose|i: int| 0 <= i < prev.len() && prev[i] == (x, y);
                assert(c[i] == (x, y));
            }
        }
    }
}

/// Rain and snow cells come column by column, left to right, each column
/// top down, and no cell comes twice.
pub proof fn lemma_precipitation_in_drawing_order(start: nat, end: nat, ground: Seq<usize>)
    requires
        end <= ground.len(),
        ground.len() <= usize::MAX,
    ensures
        in_drawing_order(cells_upto(start, end, ground)),
    decreases end,
{
    if end > start {
        let prev = cells_upto(start, (end - 1) as nat, ground);
        let col = column_cells((end - 1) as nat, ground[end - 1] as nat);
        lemma_precipitation_in_drawing_order(start, (end - 1) as nat, ground);
        lemma_precipitation_above_ground(start, (end - 1) as nat, ground);
        let c = cells_upto(start, end, ground);
        assert(c == prev + col);
        assert forall|i: int, j: int| 0 <= i < j < c.len() implies #[trigger] c[i].0 < #[trigger] c[j].0 || (c[i].0
            == c[j].0 && c[i].1 < c[j].1) by {
            let p = prev.len() as int;
            if j >= p {
                let jj = j - p;
                assert(c[j] == col[jj]);
                assert(col[jj] == ((end - 1) as usize, (2 * jj) as usize));
                if i >= p {
                    let ii = i - p;
                    assert(c[i] == col[ii]);
                    assert(col[ii] == ((end - 1) as usize, (2 * ii) as usize));
                } else {
                    assert(c[i] == prev[i]);
                    let (x, y) = prev[i];
                    assert(x < end - 1);
                }
            } else {
                assert(c[i] == prev[i]);
                assert(c[j] == prev[j]);
            }
        }
    }
}

// ---------------------------------------------------------------------------
// Clouds

/// The sizes of the clouds drawn over a strip whose cloud cover, in whole
/// percent rounded down, is `cover`.
pub open spec fn cloud_sizes_of(cover: int) -> Seq<u32> {
    if cover < 2 {
        Seq::<u32>::empty()
    } else if cover < 5 {
        seq![2]
    } else if cover < 10 {
        seq![3, 2]
    } else if cover < 20 {
        seq![5, 3, 2]
    } else if cover < 30 {
        seq![10, 5]
    } else if cover < 40 {
        seq![10, 10]
    } else if cover < 50 {
        seq![10, 10, 5]
    } else if cover < 60 {
        seq![30, 5]
    } else if cover < 70 {
        seq![30, 10]
    } else if cover < 80 {
        seq![30, 10, 5, 5]
    } else if cover < 90 {
        seq![30, 10, 10]
    } else {
        seq![50, 30, 10, 10, 5]
    }
}

/// The cloud sprites drawn over a strip whose cloud cover, in whole percent
/// rounded down, is `cover`, in drawing order.
pub fn cloud_sizes(cover: i64) -> (sizes: Vec<u32>)
    ensures
        sizes@ == cloud_sizes_of(cover as int),
{
    let sizes: Vec<u32> = if cover < 2 {
        Vec::new()
    } else if cover < 5 {
        vec![2]
    } else if cover < 10 {
        vec![3, 2]
    } else if cover < 20 {
        vec![5, 3, 2]
    } else if cover < 30 {
        vec![10, 5]
    } else if cover < 40 {
        vec![10, 10]
    } else if cover < 50 {
        vec![10, 10, 5]
    } else if cover < 60 {
        vec![30, 5]
    } else if cover < 70 {
        vec![30, 10]
    } else if cover < 80 {
        vec![30, 10, 5, 5]
    } else if cover < 90 {
        vec![30, 10, 10]
    } else {
        vec![50, 30, 10, 10, 5]
    };
    assert(sizes@ =~= cloud_sizes_of(cover as int));
    sizes
}

/// The band of cloud cover that decides the clouds: none below 2 %, then
/// 2-5 % and 5-10 %, then each tenth of the scale up to 90 %, then 90 % and
/// more.
pub open spec fn cover_band(cover: int) -> int {
    if cover < 2 {
        0
    } else if cover < 5 {
        1
    } else if cover < 10 {
        2
    } else if cover < 90 {
        cover / 10 + 2
    } else {
        11
    }
}

/// The clouds depend on the cover's band alone: two covers in the same band
/// draw the same clouds.
pub proof fn lemma_clouds_constant_on_band(cover1: int, cover2: int)
    requires
        cover_band(cover1) == cover_band(cover2),
    ensures
        cloud_sizes_of(cover1) == cloud_sizes_of(cover2),
{
}

/// What the clouds look like for any cover: sizes drawn biggest first,
/// each one of 2, 3, 5, 10, 30 or 50; the big cloud of size 50 only from
/// 90 % cover on, the size 30 only from 50 %, and none at all below 2 %;
/// from 2 % on at least one cloud and at most five.
pub proof fn lemma_cloud_shapes(cover: int)
    ensures
        forall|i: int, j: int|
            0 <= i < j < cloud_sizes_of(cover).len() ==> #[trigger] cloud_sizes_of(cover)[i] >= #[trigger] cloud_sizes_of(cover)[j],
        forall|i: int|
            0 <= i < cloud_sizes_of(cover).len() ==> {
                let c = #[trigger] cloud_sizes_of(cover)[i];
                &&& c == 2 || c == 3 || c == 5 || c == 10 || c == 30 || c == 50
                &&& c == 50 ==> cover >= 90
                &&& c == 30 ==> cover >= 50
            },
        cloud_sizes_of(cover).len() == 0 <==> cover < 2,
        cloud_sizes_of(cover).len() <= 5,
{
}

/// The total size of the clouds over a strip whose cover is `cover`.
spec fn cloud_area(cover: int) -> nat {
    if cover < 2 {
        0
    } else if cover < 5 {
        2
    } else if cover < 10 {
        5
    } else if cover < 20 {
        10
    } else if cover < 30 {
        15
    } else if cover < 40 {
        20
    } else if cover < 50 {
        25
    } else if cover < 60 {
        35
    } else if cover < 70 {
        40
    } else if cover < 90 {
        50
    } else {
        105
    }
}

proof fn lemma_cloud_total(cover: int)
    ensures
        total(cloud_sizes_of(cover)) == cloud_area(cover),
{
    reveal_with_fuel(total, 6);
}

/// More cloud cover never draws less cloud: the total size of the clouds
/// over a strip grows with its cover.
pub proof fn lemma_clouds_grow_with_cover(cover1: int, cover2: int)
    requires
        cover1 <= cover2,
    ensures
        total(cloud_sizes_of(cover1)) <= total(cloud_sizes_of(cover2)),
{
    lemma_cloud_total(cover1);
    lemma_cloud_total(cover2);
}

// ---------------------------------------------------------------------------
// Wind

/// The number of wind classes: class 0 is calm, class `WIND_CLASSES - 1`
/// the strongest wind drawn.
pub const WIND_CLASSES: usize = 9;

/// The bend of each tree drawn in a strip whose wind speed falls in class
/// `class` (a class past the last counts as the last).
pub open spec fn tree_bends_of(class: nat) -> Seq<u32> {
    if class == 0 {
        Seq::<u32>::empty()
    } else if class == 1 {
        seq![0]
    } else if class == 2 {
        seq![1, 0, 0]
    } else if class == 3 {
        seq![1, 1, 0, 0]
    } else if class == 4 {
        seq![1, 2, 0, 0]
    } else if class == 5 {
        seq![1, 2, 2, 0]
    } else if class == 6 {
        seq![1, 2, 3, 0]
    } else if class == 7 {
        seq![2, 2, 3, 0]
    } else {
        seq![3, 3, 3, 3]
    }
}

/// The sprite index, that is the bend, of each tree drawn in a strip whose
/// wind speed falls in class `class`, in drawing order.
pub fn tree_bends(class: usize) -> (bends: Vec<u32>)
    ensures
        bends@ == tree_bends_of(class as nat),
{
    let bends: Vec<u32> = if class == 0 {
        Vec::new()
    } else if class == 1 {
        vec![0]
    } else if class == 2 {
        vec![1, 0, 0]
    } else if class == 3 {
        vec![1, 1, 0, 0]
    } else if class == 4 {
        vec![1, 2, 0, 0]
    } else if class == 5 {
        vec![1, 2, 2, 0]
    } else if class == 6 {
        vec![1, 2, 3, 0]
    } else if class == 7 {
        vec![2, 2, 3, 0]
    } else {
        vec![3, 3, 3, 3]
    };
    assert(bends@ =~= tree_bends_of(class as nat));
    bends
}

/// The total bend of the trees of a wind class.
spec fn bend_total(class: nat) -> nat {
    if class <= 1 {
        0
    } else if class == 2 {
        1
    } else if class == 3 {
        2
    } else if class == 4 {
        3
    } else if class == 5 {
        5
    } else if class == 6 {
        6
    } else if class == 7 {
        7
    } else {
        12
    }
}

proof fn lemma_bend_total(class: nat)
    ensures
        total(tree_bends_of(class)) == bend_total(class),
{
    reveal_with_fuel(total, 5);
}

/// Stronger wind never draws fewer trees nor bends them less: the number of
/// trees and their total bend grow with the wind class.
pub proof fn lemma_trees_bend_with_wind(class1: nat, class2: nat)
    requires
        class1 <= class2,
    ensures
        tree_bends_of(class1).len() <= tree_bends_of(class2).len(),
        total(tree_bends_of(class1)) <= total(tree_bends_of(class2)),
{
    lemma_bend_total(class1);
    lemma_bend_total(class2);
}

/// What the trees of a wind class look like: calm draws no tree; every
/// other class at least one and at most four; each bend is at most 3; the
/// strongest class bends all four trees fully.
pub proof fn lemma_tree_bend_shapes(class: nat)
    ensures
        tree_bends_of(class).len() == 0 <==> class == 0,
        tree_bends_of(class).len() <= 4,
        forall|i: int| 0 <= i < tree_bends_of(class).len() ==> #[trigger] tree_bends_of(class)[i] <= 3,
        class >= 8 ==> tree_bends_of(class) == seq![3u32, 3, 3, 3],
{
}

/// The kinds of tree; each stands for the wind from one compass point.
#[derive(PartialEq, Eq, Structural, Clone, Copy, Debug)]
pub enum TreeKind {
    /// Wind from the north.
    Pine,
    /// Wind from the east.
    East,
    /// Wind from the south.
    Palm,
    /// Wind from the west.
    Broadleaf,
}

impl TreeKind {
    /// The sprite family of the tree kind.
    pub fn name(&self) -> (name: &'static str)
        ensures
            name@ == tree_name_of(*self),
    {
        match self {
            TreeKind::Pine => "pine",
            TreeKind::East => "east",
            TreeKind::Palm => "palm",
            TreeKind::Broadleaf => "tree",
        }
    }
}

/// The sprite family of a tree kind.
pub open spec fn tree_name_of(kind: TreeKind) -> Seq<char> {
    match kind {
        TreeKind::Pine => "pine"@,
        TreeKind::East => "east"@,
        TreeKind::Palm => "palm"@,
        TreeKind::Broadleaf => "tree"@,
    }
}

/// How many trees of a kind a strip offers when the wind direction lies in
/// distance class `distance` (whole steps of 11.25 degrees) from the kind's
/// compass point: four when the wind blows from that point, fewer further
/// away, none from eight steps on.
pub open spec fn trees_at_distance_of(distance: nat) -> nat {
    if distance == 0 {
        4
    } else if distance <= 2 {
        3
    } else if distance <= 4 {
        2
    } else if distance <= 6 {
        1
    } else {
        0
    }
}

/// The trees a strip offers, in the order pine, east, palm, broadleaf, for
/// wind whose direction lies `north`, `east`, `south` and `west` distance
/// classes from those compass points.
pub open spec fn tree_pool_of(north: nat, east: nat, south: nat, west: nat) -> Seq<TreeKind> {
    Seq::new(trees_at_distance_of(north), |i: int| TreeKind::Pine)
        + Seq::new(trees_at_distance_of(east), |i: int| TreeKind::East)
        + Seq::new(trees_at_distance_of(south), |i: int| TreeKind::Palm)
        + Seq::new(trees_at_distance_of(west), |i: int| TreeKind::Broadleaf)
}

/// How many trees a kind offers, by a formula: four when the wind blows
/// straight from the kind's compass point, one fewer for every two further
/// distance classes, none from seven classes on.
pub open spec fn offered(distance: nat) -> nat {
    if distance < 7 {
        (4 - (distance + 1) / 2) as nat
    } else {
        0
    }
}

/// The number of trees of a kind falls off with the distance of the wind
/// from the kind's compass point as `offered` says: four at distance zero,
/// never more further away, none from seven classes on.
pub proof fn lemma_trees_fall_off_with_distance(d1: nat, d2: nat)
    requires
        d1 <= d2,
    ensures
        trees_at_distance_of(d1) == offered(d1),
        trees_at_distance_of(d1) >= trees_at_distance_of(d2),
        trees_at_distance_of(0) == 4,
        d1 >= 7 ==> trees_at_distance_of(d1) == 0,
        d1 < 7 ==> trees_at_distance_of(d1) >= 1,
{
}

/// Whether `pool` offers, in order, `offered(north)` pines, `offered(east)`
/// east trees, `offered(south)` palms and `offered(west)` broadleaf trees.
pub open spec fn offers(pool: Seq<TreeKind>, north: nat, east: nat, south: nat, west: nat) -> bool {
    let a = offered(north);
    let b = a + offered(east);
    let c = b + offered(south);
    &&& pool.len() == c + offered(west)
    &&& forall|i: int|
        0 <= i < pool.len() ==> #[trigger] pool[i] == (if i < a {
            TreeKind::Pine
        } else if i < b {
            TreeKind::East
        } else if i < c {
            TreeKind::Palm
        } else {
            TreeKind::Broadleaf
        })
}

/// A strip offers each kind of tree as often as `offered` gives for the
/// wind's distance from that kind's compass point, grouped by kind.
pub proof fn lemma_tree_pool_offers(north: nat, east: nat, south: nat, west: nat)
    ensures
        offers(tree_pool_of(north, east, south, west), north, east, south, west),
{
    lemma_trees_fall_off_with_distance(north, north);
    lemma_trees_fall_off_with_distance(east, east);
    lemma_trees_fall_off_with_distance(south, south);
    lemma_trees_fall_off_with_distance(west, west);
}

fn trees_at_distance(distance: usize) -> (n: usize)
    ensures
        n == trees_at_distance_of(distance as nat),
{
    if distance == 0 {
        4
    } else if distance <= 2 {
        3
    } else if distance <= 4 {
        2
    } else if distance <= 6 {
        1
    } else {
        0
    }
}

fn push_trees(pool: &mut Vec<TreeKind>, kind: TreeKind, distance: usize)
    ensures
        final(pool)@ == old(pool)@ + Seq::new(trees_at_distance_of(distance as nat), |i: int| kind),
{
    let n = trees_at_distance(distance);
    let mut i: usize = 0;
    while i < n
        invariant
            i <= n,
            n == trees_at_distance_of(distance as nat),
            pool@ == old(pool)@ + Seq::new(i as nat, |j: int| kind),
        decreases n - i,
    {
        pool.push(kind);
        i = i + 1;
        assert(pool@ =~= old(pool)@ + Seq::new(i as nat, |j: int| kind));
    }
}

/// The trees that a strip offers for wind whose direction lies `north`,
/// `east`, `south` and `west` distance classes from those compass points.
pub fn tree_pool(north: usize, east: usize, south: usize, west: usize) -> (pool: Vec<TreeKind>)
    ensures
        pool@ == tree_pool_of(north as nat, east as nat, south as nat, west as nat),
        offers(pool@, north as nat, east as nat, south as nat, west as nat),
{
    let mut pool: Vec<TreeKind> = Vec::new();
    push_trees(&mut pool, TreeKind::Pine, north);
    push_trees(&mut pool, TreeKind::East, east);
    push_trees(&mut pool, TreeKind::Palm, south);
    push_trees(&mut pool, TreeKind::Broadleaf, west);
    assert(pool@ =~= tree_pool_of(north as nat, east as nat, south as nat, west as nat));
    proof {
        lemma_tree_pool_offers(north as nat, east as nat, south as nat, west as nat);
    }
    pool
}

// ---------------------------------------------------------------------------
// Flowers

/// Seconds in half a day; the flower changes its sprite every half day.
pub const HALF_DAY: u32 = 43200;

/// The flower sprite shown at the time `time`, in seconds.
pub fn flower_frame(time: u32) -> (frame: u32)
    ensures
        frame == (time / HALF_DAY) % 2,
{
    (time / HALF_DAY) % 2
}

/// The flower alternates between its two sprites every half day.
pub proof fn lemma_flower_alternates(time: u32)
    requires
        time + HALF_DAY <= u32::MAX,
    ensures
        ((time / HALF_DAY) % 2) < 2,
        (((time + HALF_DAY) as u32 / HALF_DAY) % 2) != ((time / HALF_DAY) % 2),
{
    assert((time + HALF_DAY) as u32 / HALF_DAY == time / HALF_DAY + 1);
}

} // verus!
