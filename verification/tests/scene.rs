use rand::Rng;
use rand::SeedableRng;
use rand_pcg::Pcg64;
use weather_landscape::glyphs::{temperature_glyphs, MINUS_GLYPH, PLUS_GLYPH};
use weather_landscape::landscape::{Landscape, RNG_SEED};
use weather_landscape::sprites::sprite_key;
use weather_landscape::terrain::{terrain_plan, Level, TerrainColumn, CURVE_LEN, X_START, X_STEP};
use weather_landscape::weather::{
    cloud_sizes, flower_frame, hour_strips, precipitation_cells, tree_bends, tree_pool, TreeKind,
    HALF_DAY, WIND_CLASSES,
};

#[test]
fn sprite_key_pads_single_digits() {
    assert_eq!(sprite_key("house", 0), "house_00");
    assert_eq!(sprite_key("cloud", 5), "cloud_05");
    assert_eq!(sprite_key("digit", 11), "digit_11");
}

#[test]
fn sprite_key_keeps_wide_indices() {
    assert_eq!(sprite_key("cloud", 50), "cloud_50");
    assert_eq!(sprite_key("x", 123), "x_123");
    assert_eq!(sprite_key("", 4294967295), "_4294967295");
}

#[test]
fn sprite_keys_differ_for_different_sprites() {
    let keys = [
        sprite_key("a", 1),
        sprite_key("a", 10),
        sprite_key("a_0", 1),
        sprite_key("a", 100),
        sprite_key("a_01", 0),
    ];
    for i in 0..keys.len() {
        for j in 0..keys.len() {
            if i != j {
                assert_ne!(keys[i], keys[j]);
            }
        }
    }
}

#[test]
fn temperature_glyphs_positive() {
    assert_eq!(temperature_glyphs(false, 0), vec![PLUS_GLYPH, 0]);
    assert_eq!(temperature_glyphs(false, 7), vec![PLUS_GLYPH, 7]);
    assert_eq!(temperature_glyphs(false, 23), vec![PLUS_GLYPH, 2, 3]);
    assert_eq!(temperature_glyphs(false, 105), vec![PLUS_GLYPH, 1, 0, 5]);
}

#[test]
fn temperature_glyphs_negative() {
    assert_eq!(temperature_glyphs(true, 0), vec![MINUS_GLYPH, 0]);
    assert_eq!(temperature_glyphs(true, 10), vec![MINUS_GLYPH, 1, 0]);
    assert_eq!(temperature_glyphs(true, 40), vec![MINUS_GLYPH, 4, 0]);
}

#[test]
fn temperature_glyphs_large_magnitude_keeps_hundreds_quotient() {
    assert_eq!(temperature_glyphs(false, 1234), vec![PLUS_GLYPH, 12, 3, 4]);
    assert_eq!(MINUS_GLYPH, 11);
    assert_eq!(PLUS_GLYPH, 10);
}

#[test]
fn shown_digits_spell_magnitude() {
    for m in [0u32, 5, 9, 10, 19, 99, 100, 101, 110, 999, 1000, 5432] {
        let g = temperature_glyphs(false, m);
        let value = g[1..].iter().fold(0u64, |acc, d| acc * 10 + *d as u64);
        assert_eq!(value, m as u64);
    }
}

#[test]
fn terrain_plan_layout() {
    let plan = terrain_plan(100, 2);
    assert_eq!(plan.len(), 100);
    assert_eq!(plan[0], TerrainColumn::Hold(Level::Current));
    assert_eq!(plan[29], TerrainColumn::Hold(Level::Current));
    assert_eq!(plan[30], TerrainColumn::Curve { from: Level::Current, to: Level::Hour(0), step: 0 });
    assert_eq!(plan[39], TerrainColumn::Curve { from: Level::Current, to: Level::Hour(0), step: 9 });
    assert_eq!(plan[40], TerrainColumn::Hold(Level::Hour(0)));
    assert_eq!(plan[59], TerrainColumn::Hold(Level::Hour(0)));
    assert_eq!(plan[60], TerrainColumn::Curve { from: Level::Hour(0), to: Level::Hour(1), step: 0 });
    assert_eq!(plan[75], TerrainColumn::Hold(Level::Hour(1)));
    assert_eq!(plan[90], TerrainColumn::Hold(Level::Hour(1)));
    assert_eq!(plan[99], TerrainColumn::Hold(Level::Hour(1)));
}

#[test]
fn terrain_plan_without_forecast_hours() {
    let plan = terrain_plan(45, 0);
    assert_eq!(plan.len(), 45);
    assert!(plan.iter().all(|c| *c == TerrainColumn::Hold(Level::Current)));
    assert!(terrain_plan(0, 3).is_empty());
}

#[test]
fn terrain_plan_narrow_canvas_cuts_curve() {
    let plan = terrain_plan(33, 5);
    assert_eq!(plan.len(), 33);
    assert_eq!(plan[32], TerrainColumn::Curve { from: Level::Current, to: Level::Hour(0), step: 2 });
}

#[test]
fn terrain_columns_continue_each_other() {
    let plan = terrain_plan(200, 3);
    for x in 1..plan.len() {
        let ok = match plan[x] {
            TerrainColumn::Curve { from, to, step } => {
                if step == 0 {
                    plan[x - 1] == TerrainColumn::Hold(from)
                } else {
                    plan[x - 1] == TerrainColumn::Curve { from, to, step: step - 1 }
                }
            }
            TerrainColumn::Hold(level) => {
                plan[x - 1] == TerrainColumn::Hold(level)
                    || matches!(plan[x - 1], TerrainColumn::Curve { to, step, .. } if to == level && step == CURVE_LEN - 1)
            }
        };
        assert!(ok, "column {}", x);
    }
}

#[test]
fn layout_constants() {
    assert_eq!(X_START, 30);
    assert_eq!(X_STEP, 30);
    assert_eq!(CURVE_LEN, 10);
}

#[test]
fn hour_strips_follow_canvas_width() {
    assert_eq!(hour_strips(400, 24), vec![30, 60, 90, 120, 150, 180, 210, 240, 270, 300, 330, 360, 390]);
    assert_eq!(hour_strips(400, 3), vec![30, 60, 90]);
    assert_eq!(hour_strips(60, 5), vec![30, 60]);
    assert_eq!(hour_strips(59, 5), vec![30]);
    assert_eq!(hour_strips(0, 5), vec![30]);
    assert_eq!(hour_strips(400, 0), Vec::<u32>::new());
}

#[test]
fn hour_strip_lies_over_its_ground() {
    let plan = terrain_plan(300, 4);
    for (k, start) in hour_strips(300, 4).iter().enumerate() {
        assert_eq!(
            plan[*start as usize],
            TerrainColumn::Curve {
                from: if k == 0 { Level::Current } else { Level::Hour(k - 1) },
                to: Level::Hour(k),
                step: 0
            }
        );
        assert_eq!(plan[*start as usize + 29], TerrainColumn::Hold(Level::Hour(k)));
    }
}

#[test]
fn cloud_sizes_by_cover() {
    assert_eq!(cloud_sizes(-5), Vec::<u32>::new());
    assert_eq!(cloud_sizes(1), Vec::<u32>::new());
    assert_eq!(cloud_sizes(2), vec![2]);
    assert_eq!(cloud_sizes(9), vec![3, 2]);
    assert_eq!(cloud_sizes(10), vec![5, 3, 2]);
    assert_eq!(cloud_sizes(25), vec![10, 5]);
    assert_eq!(cloud_sizes(30), vec![10, 10]);
    assert_eq!(cloud_sizes(45), vec![10, 10, 5]);
    assert_eq!(cloud_sizes(59), vec![30, 5]);
    assert_eq!(cloud_sizes(60), vec![30, 10]);
    assert_eq!(cloud_sizes(79), vec![30, 10, 5, 5]);
    assert_eq!(cloud_sizes(80), vec![30, 10, 10]);
    assert_eq!(cloud_sizes(90), vec![50, 30, 10, 10, 5]);
    assert_eq!(cloud_sizes(i64::MAX), vec![50, 30, 10, 10, 5]);
}

#[test]
fn clouds_grow_with_cover() {
    let mut last = 0u32;
    for cover in -3i64..120 {
        let area: u32 = cloud_sizes(cover).iter().sum();
        assert!(area >= last, "cover {}", cover);
        last = area;
    }
}

#[test]
fn tree_bends_by_class() {
    assert_eq!(WIND_CLASSES, 9);
    assert_eq!(tree_bends(0), Vec::<u32>::new());
    assert_eq!(tree_bends(1), vec![0]);
    assert_eq!(tree_bends(2), vec![1, 0, 0]);
    assert_eq!(tree_bends(3), vec![1, 1, 0, 0]);
    assert_eq!(tree_bends(4), vec![1, 2, 0, 0]);
    assert_eq!(tree_bends(5), vec![1, 2, 2, 0]);
    assert_eq!(tree_bends(6), vec![1, 2, 3, 0]);
    assert_eq!(tree_bends(7), vec![2, 2, 3, 0]);
    assert_eq!(tree_bends(8), vec![3, 3, 3, 3]);
    assert_eq!(tree_bends(100), vec![3, 3, 3, 3]);
}

#[test]
fn trees_bend_with_wind() {
    for a in 0..12usize {
        for b in a..12usize {
            let (x, y) = (tree_bends(a), tree_bends(b));
            assert!(x.len() <= y.len());
            assert!(x.iter().sum::<u32>() <= y.iter().sum::<u32>());
        }
    }
}

#[test]
fn tree_pool_by_distance() {
    assert_eq!(tree_pool(0, 8, 16, 8), vec![TreeKind::Pine, TreeKind::Pine, TreeKind::Pine, TreeKind::Pine]);
    assert_eq!(tree_pool(4, 4, 12, 12), vec![TreeKind::Pine, TreeKind::Pine, TreeKind::East, TreeKind::East]);
    assert_eq!(tree_pool(7, 1, 9, 100), vec![TreeKind::East, TreeKind::East, TreeKind::East]);
    assert_eq!(tree_pool(6, 5, 2, 3), vec![TreeKind::Pine, TreeKind::East, TreeKind::Palm, TreeKind::Palm, TreeKind::Palm, TreeKind::Broadleaf, TreeKind::Broadleaf]);
    assert!(tree_pool(7, 7, 7, 7).is_empty());
}

#[test]
fn tree_names() {
    assert_eq!(TreeKind::Pine.name(), "pine");
    assert_eq!(TreeKind::East.name(), "east");
    assert_eq!(TreeKind::Palm.name(), "palm");
    assert_eq!(TreeKind::Broadleaf.name(), "tree");
    assert_eq!(sprite_key(TreeKind::Palm.name(), 3), "palm_03");
}

#[test]
fn flower_frames_alternate_every_half_day() {
    assert_eq!(HALF_DAY, 43200);
    assert_eq!(flower_frame(0), 0);
    assert_eq!(flower_frame(43199), 0);
    assert_eq!(flower_frame(43200), 1);
    assert_eq!(flower_frame(86400), 0);
    for t in [0u32, 1000, 50000, 1_700_000_000] {
        assert_ne!(flower_frame(t), flower_frame(t + 43200));
    }
}

#[test]
fn precipitation_cells_stay_in_strip() {
    let ground = vec![3usize, 0, 4, 1, 5];
    assert_eq!(precipitation_cells(0, 3, &ground), vec![(0, 0), (0, 2), (2, 0), (2, 2)]);
    assert_eq!(precipitation_cells(3, 30, &ground), vec![(3, 0), (4, 0), (4, 2), (4, 4)]);
    assert!(precipitation_cells(5, 30, &ground).is_empty());
    assert!(precipitation_cells(9, 30, &ground).is_empty());
    assert!(precipitation_cells(1, 0, &ground).is_empty());
}

#[test]
fn precipitation_cells_above_ground() {
    let ground: Vec<usize> = (0..90).map(|x| (x * 7) % 23).collect();
    for start in [0usize, 30, 60, 80] {
        for (x, y) in precipitation_cells(start, 30, &ground) {
            assert!(start <= x && x < start + 30 && x < ground.len());
            assert!(y < ground[x] && y % 2 == 0);
        }
    }
}

#[test]
fn landscape_is_seeded_with_fixed_seed() {
    let landscape = Landscape::new(400, 300);
    assert_eq!(landscape.width, 400);
    assert_eq!(landscape.height, 300);
    assert_eq!(RNG_SEED, 42);
    assert!(landscape.rng == Pcg64::seed_from_u64(42));
    assert!(landscape.rng != Pcg64::seed_from_u64(43));
}

#[test]
fn pick_tree_picks_from_pool_like_the_generator() {
    let pool = tree_pool(2, 6, 9, 9);
    let mut landscape = Landscape::new(10, 10);
    let mut reference = Pcg64::seed_from_u64(42);
    for _ in 0..50 {
        let tree = landscape.pick_tree(&pool);
        let expected = pool[reference.gen_range(0..pool.len())];
        assert_eq!(tree, expected);
        assert!(pool.contains(&tree));
    }
    assert!(landscape.rng == reference);
}

#[test]
fn pick_tree_single_entry_pool() {
    let mut landscape = Landscape::new(10, 10);
    for _ in 0..10 {
        assert_eq!(landscape.pick_tree(&vec![TreeKind::East]), TreeKind::East);
    }
}
