use matrix_rain::droplet::{
    color_gradient, initial_droplets, Droplet, Rgb, DROPLET_MAX_LENGTH, DROPLET_MAX_SPEED,
    DROPLET_MIN_LENGTH, DROPLET_MIN_SPEED, ROW_STEP,
};
use matrix_rain::render::{
    draw_next_frame, glyph_at, random_char, random_glyphs, Ink, Paint, GLYPH_END, GLYPH_FIRST,
};

fn droplet(row: u32, len: u16, max_len: u16, frame: u32, speed: u32) -> Droplet {
    Droplet::new(row, len, max_len, frame, speed).expect("valid droplet")
}

fn in_block(c: char) -> bool {
    (GLYPH_FIRST..GLYPH_END).contains(&(c as u32))
}

#[test]
fn gradient_head_is_base_color() {
    let d = droplet(0, 10, 10, ROW_STEP, ROW_STEP);
    assert_eq!(color_gradient(&d, 0), Rgb { r: 170, g: 255, b: 170 });
}

#[test]
fn gradient_end_of_trail_is_dark() {
    let d = droplet(0, 10, 10, ROW_STEP, ROW_STEP);
    assert_eq!(color_gradient(&d, 10), Rgb { r: 0, g: 0, b: 0 });
}

#[test]
fn gradient_truncates_each_channel() {
    let d = droplet(0, 10, 10, ROW_STEP, ROW_STEP);
    assert_eq!(color_gradient(&d, 3), Rgb { r: 119, g: 178, b: 119 });
    let d = droplet(0, 2, 2, ROW_STEP, ROW_STEP);
    assert_eq!(color_gradient(&d, 1), Rgb { r: 85, g: 127, b: 85 });
}

#[test]
fn advance_falls_and_grows_to_max_len() {
    let mut d = droplet(0, 1, 3, ROW_STEP, ROW_STEP);
    assert!(d.advance());
    assert_eq!((d.row, d.len), (1, 2));
    assert_eq!(d.frame, ROW_STEP);
    assert!(d.advance());
    assert_eq!((d.row, d.len), (2, 3));
    assert!(d.advance());
    assert_eq!((d.row, d.len), (3, 3));
    assert_eq!(d.max_len, 3);
}

#[test]
fn advance_rests_until_a_whole_row_is_due() {
    let mut d = droplet(4, 2, 5, 0, 400);
    assert!(!d.advance());
    assert_eq!((d.row, d.len, d.frame), (4, 2, 400));
    assert!(!d.advance());
    assert_eq!((d.row, d.len, d.frame), (4, 2, 800));
    assert!(d.advance());
    assert_eq!((d.row, d.len, d.frame), (5, 3, 200));
}

#[test]
fn advance_keeps_bounds_and_never_rises() {
    for speed in [DROPLET_MIN_SPEED, 333, 750, DROPLET_MAX_SPEED] {
        let mut d = droplet(0, 1, 7, ROW_STEP, speed);
        let mut last_row = d.row;
        for _ in 0..200 {
            d.advance();
            assert!(1 <= d.len && d.len <= d.max_len);
            assert!(d.frame <= ROW_STEP);
            assert!(d.row >= last_row);
            last_row = d.row;
        }
        assert_eq!(d.len, 7);
    }
}

#[test]
fn exhaustion_boundary() {
    let d = droplet(7, 3, 3, 0, 500);
    assert!(!d.is_exhausted(5));
    let d = droplet(8, 3, 3, 0, 500);
    assert!(d.is_exhausted(5));
    let d = droplet(9, 3, 3, 0, 500);
    assert!(d.is_exhausted(5));
}

#[test]
fn exhausted_droplet_is_respawned_at_top() {
    let mut ds = vec![droplet(8, 3, 3, ROW_STEP, ROW_STEP)];
    let paints = draw_next_frame(1, 5, &mut ds);
    assert!(paints.is_empty());
    let d = ds[0];
    assert_eq!(d.len, 1);
    assert_eq!(d.row, 0);
    assert_eq!(d.frame, ROW_STEP);
    assert!(DROPLET_MIN_LENGTH <= d.max_len && d.max_len <= DROPLET_MAX_LENGTH);
    assert!(DROPLET_MIN_SPEED <= d.speed && d.speed <= DROPLET_MAX_SPEED);
}

#[test]
fn droplet_exhausted_by_its_step_is_respawned() {
    let mut ds = vec![droplet(7, 3, 3, ROW_STEP, ROW_STEP)];
    assert!(ds[0].will_respawn(5));
    let paints = draw_next_frame(1, 5, &mut ds);
    assert!(paints.is_empty());
    assert_eq!((ds[0].row, ds[0].len, ds[0].frame), (0, 1, ROW_STEP));
}

#[test]
fn will_respawn_only_when_a_row_is_due() {
    assert!(!droplet(7, 3, 3, 0, 500).will_respawn(5));
    assert!(droplet(7, 3, 3, 500, 500).will_respawn(5));
    assert!(!droplet(6, 3, 3, ROW_STEP, ROW_STEP).will_respawn(5));
    assert!(!droplet(6, 2, 3, ROW_STEP, ROW_STEP).will_respawn(5));
    assert!(droplet(7, 2, 2, ROW_STEP, ROW_STEP).will_respawn(5));
}

#[test]
fn tick_paints_from_the_new_head() {
    let mut d = droplet(0, 1, 3, ROW_STEP, ROW_STEP);
    let paints = d.tick(0, 5, droplet(2, 1, 5, ROW_STEP, 300), &vec!['a', 'b', 'c', 'd']);
    assert_eq!(
        paints,
        vec![
            Paint { col: 0, row: 1, ink: Ink::Glyph { glyph: 'a', color: Rgb { r: 170, g: 255, b: 170 } } },
            Paint { col: 0, row: 0, ink: Ink::Glyph { glyph: 'b', color: Rgb { r: 85, g: 127, b: 85 } } },
        ]
    );
    assert_eq!((d.row, d.len, d.max_len, d.frame), (1, 2, 3, ROW_STEP));
}

#[test]
fn tick_replaces_exhausted_droplet_with_given_one() {
    let fresh = Droplet::fresh_at(0, 6, 400);
    let mut d = droplet(7, 3, 3, ROW_STEP, ROW_STEP);
    let paints = d.tick(0, 5, fresh, &vec![]);
    assert!(paints.is_empty());
    assert_eq!(d, fresh);
    let mut resting = droplet(9, 3, 3, 0, 200);
    assert!(resting.tick(0, 5, fresh, &vec![]).is_empty());
    assert_eq!((resting.row, resting.frame), (9, 200));
}

#[test]
fn same_draws_give_same_tick() {
    let fresh = Droplet::fresh_at(1, 4, 600);
    let glyphs = vec![glyph_at(0), glyph_at(5), glyph_at(9), glyph_at(20)];
    let mut a = droplet(3, 2, 3, 500, 700);
    let mut b = a;
    let pa = a.tick(4, 9, fresh, &glyphs);
    let pb = b.tick(4, 9, fresh, &glyphs.clone());
    assert_eq!(pa, pb);
    assert_eq!(a, b);
    assert_eq!(pa.len(), 5);
}

#[test]
fn glyph_at_walks_the_block() {
    assert_eq!(glyph_at(0), '\u{FF66}');
    assert_eq!(glyph_at(1), '\u{FF67}');
    assert_eq!(glyph_at(GLYPH_END - GLYPH_FIRST - 1), '\u{FF9C}');
}

#[test]
fn respawn_lands_in_top_quarter() {
    for _ in 0..50 {
        let d = Droplet::spawn(40);
        assert!(d.row < 10);
        assert_eq!(d.len, 1);
        assert_eq!(d.frame, ROW_STEP);
        assert!(DROPLET_MIN_LENGTH <= d.max_len && d.max_len <= DROPLET_MAX_LENGTH);
        assert!(DROPLET_MIN_SPEED <= d.speed && d.speed <= DROPLET_MAX_SPEED);
    }
}

#[test]
fn resting_droplet_draws_nothing() {
    let mut ds = vec![droplet(2, 2, 4, 0, 200)];
    let paints = draw_next_frame(1, 5, &mut ds);
    assert!(paints.is_empty());
    assert_eq!((ds[0].row, ds[0].len, ds[0].frame), (2, 2, 200));
}

#[test]
fn moving_droplet_redraws_trail_and_erases_past_tail() {
    let mut ds = vec![droplet(0, 1, 4, 0, 200), droplet(2, 2, 4, ROW_STEP, ROW_STEP)];
    let paints = draw_next_frame(2, 5, &mut ds);
    let cells: Vec<(u16, u16, Option<Rgb>)> = paints
        .iter()
        .map(|p| match p.ink {
            Ink::Glyph { color, .. } => (p.col, p.row, Some(color)),
            Ink::Blank => (p.col, p.row, None),
        })
        .collect();
    assert_eq!(
        cells,
        vec![
            (1, 3, Some(Rgb { r: 170, g: 255, b: 170 })),
            (1, 2, Some(Rgb { r: 113, g: 170, b: 113 })),
            (1, 1, Some(Rgb { r: 56, g: 85, b: 56 })),
            (1, 0, Some(Rgb { r: 0, g: 0, b: 0 })),
            (1, 0, None),
        ]
    );
    for p in &paints {
        if let Ink::Glyph { glyph, .. } = p.ink {
            assert!(in_block(glyph));
        }
    }
    assert_eq!((ds[0].row, ds[0].len, ds[0].frame), (0, 1, 200));
    assert_eq!((ds[1].row, ds[1].len, ds[1].frame), (3, 3, ROW_STEP));
}

#[test]
fn trail_clips_cells_below_the_screen() {
    let d = droplet(6, 3, 3, ROW_STEP, ROW_STEP);
    let paints = d.paint_trail(0, 5, &vec!['a', 'b', 'c', 'd']);
    assert_eq!(
        paints,
        vec![
            Paint { col: 0, row: 4, ink: Ink::Glyph { glyph: 'c', color: Rgb { r: 56, g: 85, b: 56 } } },
            Paint { col: 0, row: 3, ink: Ink::Glyph { glyph: 'd', color: Rgb { r: 0, g: 0, b: 0 } } },
            Paint { col: 0, row: 3, ink: Ink::Blank },
        ]
    );
}

#[test]
fn trail_near_top_has_no_erase() {
    let d = droplet(1, 3, 3, ROW_STEP, ROW_STEP);
    let paints = d.paint_trail(7, 10, &vec!['x', 'y', 'z', 'w']);
    assert_eq!(
        paints,
        vec![
            Paint { col: 7, row: 1, ink: Ink::Glyph { glyph: 'x', color: Rgb { r: 170, g: 255, b: 170 } } },
            Paint { col: 7, row: 0, ink: Ink::Glyph { glyph: 'y', color: Rgb { r: 113, g: 170, b: 113 } } },
        ]
    );
}

#[test]
fn same_draws_give_same_droplets_and_paints() {
    let a = Droplet::fresh_at(3, 9, 450);
    let b = Droplet::fresh_at(3, 9, 450);
    assert_eq!(a, b);
    assert_eq!((a.row, a.len, a.max_len, a.frame, a.speed), (3, 1, 9, ROW_STEP, 450));
    let s = Droplet::settled_at(2, 6, 300);
    assert_eq!((s.row, s.len, s.max_len, s.frame, s.speed), (2, 6, 6, ROW_STEP, 300));
    let glyphs = vec!['\u{FF66}', '\u{FF70}', '\u{FF80}', '\u{FF90}'];
    let d = droplet(3, 3, 3, ROW_STEP, ROW_STEP);
    assert_eq!(d.paint_trail(2, 8, &glyphs), d.paint_trail(2, 8, &glyphs.clone()));
}

#[test]
fn random_glyphs_lie_in_block() {
    for _ in 0..200 {
        assert!(in_block(random_char()));
    }
    let gs = random_glyphs(30);
    assert_eq!(gs.len(), 30);
    assert!(gs.iter().all(|&c| in_block(c)));
}

#[test]
fn initial_droplets_fill_every_column_at_full_length() {
    let ds = initial_droplets(12, 6);
    assert_eq!(ds.len(), 12);
    for d in &ds {
        assert!(d.row < 6);
        assert_eq!(d.len, d.max_len);
        assert!(DROPLET_MIN_LENGTH <= d.len && d.len <= DROPLET_MAX_LENGTH);
        assert_eq!(d.frame, ROW_STEP);
        assert!(DROPLET_MIN_SPEED <= d.speed && d.speed <= DROPLET_MAX_SPEED);
    }
}

#[test]
fn new_rejects_broken_droplets() {
    assert!(Droplet::new(0, 0, 3, 0, 500).is_none());
    assert!(Droplet::new(0, 4, 3, 0, 500).is_none());
    assert!(Droplet::new(0, 1, 3, 0, 0).is_none());
    assert!(Droplet::new(0, 1, 3, 0, ROW_STEP + 1).is_none());
    assert!(Droplet::new(0, 1, 3, ROW_STEP + 1, 500).is_none());
    assert!(Droplet::new(0, 1, 3, ROW_STEP, ROW_STEP).is_some());
}
