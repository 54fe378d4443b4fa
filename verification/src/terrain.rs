use vstd::prelude::*;

verus! {

/// Columns before the first forecast hour; they show the current weather.
pub const X_START: u32 = 30;

/// Columns that each forecast hour occupies.
pub const X_STEP: u32 = 30;

/// Columns of an hour's strip that hold its temperature flat.
pub const X_FLAT: u32 = 10;

/// Rows of the canvas kept clear below the lowest temperature.
pub const Y_STEP: u32 = 60;

/// Columns at the start of an hour's strip over which the ground curves from
/// the level before to the hour's level.
pub const CURVE_LEN: u32 = (X_STEP - X_FLAT) / 2;

/// A temperature the ground line is drawn at: the current one or that of a
/// forecast hour.
#[derive(PartialEq, Eq, Structural, Clone, Copy, Debug)]
pub enum Level {
    Current,
    Hour(usize),
}

/// Where the ground line stands in one column of the canvas.
#[derive(PartialEq, Eq, Structural, Clone, Copy, Debug)]
pub enum TerrainColumn {
    /// At the height of one temperature.
    Hold(Level),
    /// On the Bezier curve from one temperature to the next, `step` columns
    /// after the start of the curve (`step < CURVE_LEN`).
    Curve { from: Level, to: Level, step: u32 },
}

/// The level that the ground holds before forecast hour `k` begins: the
/// current temperature before the first hour, else that of hour `k - 1`.
pub open spec fn level_before(k: nat) -> Level {
    if k == 0 {
        Level::Current
    } else {
        Level::Hour((k - 1) as usize)
    }
}

/// The ground line in column `x` when the forecast has `hours` hours: the
/// current temperature in the first `X_START` columns; then for each hour a
/// strip of `X_STEP` columns, whose first `CURVE_LEN` columns curve from the
/// level before the hour to the hour's level and whose rest hold it; after
/// the last strip the last level.
pub open spec fn terrain_column(x: nat, hours: nat) -> TerrainColumn {
    if x < X_START {
        TerrainColumn::Hold(Level::Current)
    } else {
        let k = ((x - X_START) as nat) / (X_STEP as nat);
        let r = ((x - X_START) as nat) % (X_STEP as nat);
        if k < hours {
            if r < CURVE_LEN {
                TerrainColumn::Curve { from: level_before(k), to: Level::Hour(k as usize), step: r as u32 }
            } else {
                TerrainColumn::Hold(Level::Hour(k as usize))
            }
        } else {
            TerrainColumn::Hold(level_before(hours))
        }
    }
}

/// Whether column `next` continues column `prev` without a jump: a curve
/// either starts from the level held just before it or follows its own
/// previous step; a held level follows the same level or the last step of
/// the curve that leads to it.
pub open spec fn continues(prev: TerrainColumn, next: TerrainColumn) -> bool {
    match next {
        TerrainColumn::Curve { from, to, step } => if step == 0 {
            prev == TerrainColumn::Hold(from)
        } else {
            prev == TerrainColumn::Curve { from, to, step: (step - 1) as u32 }
        },
        TerrainColumn::Hold(level) => prev == TerrainColumn::Hold(level) || (prev matches TerrainColumn::Curve { to, step, .. } && to == level && step == CURVE_LEN - 1),
    }
}

/// The ground line has no jumps: every column continues the one to its
/// left.
pub proof fn lemma_terrain_continuous(x: nat, hours: nat)
    requires
        x >= 1,
    ensures
        continues(terrain_column((x - 1) as nat, hours), terrain_column(x, hours)),
{
    if x > X_START {
        let y = (x - X_START) as nat;
        let k = y / 30;
        let r = y % 30;
        assert(y == 30 * k + r);
        let k1 = ((y - 1) as nat) / 30;
        let r1 = ((y - 1) as nat) % 30;
        if r > 0 {
            assert(k1 == k && r1 == r - 1);
        } else {
            assert(k >= 1);
            assert(k1 == k - 1 && r1 == 29);
        }
    }
}

/// The ground line of a canvas `width` columns wide for a forecast of
/// `hours` hours: the entry at `x` says where the ground stands in column
/// `x`.
pub fn terrain_plan(width: u32, hours: usize) -> (plan: Vec<TerrainColumn>)
    ensures
        plan.len() == width,
        forall|x: int| 0 <= x < width ==> plan@[x] == terrain_column(x as nat, hours as nat),
{
    let mut plan: Vec<TerrainColumn> = Vec::new();
    let mut x: u32 = 0;
    while x < width
        invariant
            x <= width,
            plan.len() == x,
            forall|i: int| 0 <= i < x ==> plan@[i] == terrain_column(i as nat, hours as nat),
        decreases width - x,
    {
        let column = if x < X_START {
            TerrainColumn::Hold(Level::Current)
        } else {
            let k = ((x - X_START) / X_STEP) as usize;
            let r = (x - X_START) % X_STEP;
            if k < hours {
                let from = if k == 0 {
                    Level::Current
                } else {
                    Level::Hour(k - 1)
                };
                if r < CURVE_LEN {
                    TerrainColumn::Curve { from, to: Level::Hour(k), step: r }
                } else {
                    TerrainColumn::Hold(Level::Hour(k))
                }
            } else if hours == 0 {
                TerrainColumn::Hold(Level::Current)
            } else {
                TerrainColumn::Hold(Level::Hour(hours - 1))
            }
        };
        plan.push(column);
        x = x + 1;
    }
    plan
}

} // verus!
