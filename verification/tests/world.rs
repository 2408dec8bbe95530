use conway_rs::conway::World;
use conway_rs::error::WorldError;
use conway_rs::pixel::{BLACK, WHITE};

/// A world drawn row by row: `+` is a live cell, anything else a dead one.
fn world_from(rows: &[&str]) -> World {
    let h = rows.len();
    let w = rows[0].chars().count();
    let mut world = World::new(w, h).unwrap();
    for (j, row) in rows.iter().enumerate() {
        for (i, c) in row.chars().enumerate() {
            world.set_cell(i, j, c == '+');
        }
    }
    world
}

fn text_of(rows: &[&str]) -> String {
    let mut text = String::new();
    for row in rows {
        text.push_str(row);
        text.push('\n');
    }
    text
}

#[test]
fn new_world_is_dead() {
    let world = World::new(4, 3).unwrap();
    assert_eq!(world.as_string(), "    \n    \n    \n");
    for j in 0..3 {
        for i in 0..4 {
            assert!(!world.cell(i, j));
            assert_eq!(world.alive_neighbors(i, j), 0);
        }
    }
}

#[test]
fn new_refuses_an_empty_grid() {
    assert_eq!(World::new(0, 5).err(), Some(WorldError::EmptyGrid));
    assert_eq!(World::new(5, 0).err(), Some(WorldError::EmptyGrid));
    assert_eq!(World::new(0, 0).err(), Some(WorldError::EmptyGrid));
    assert_eq!(World::new(0, usize::MAX).err(), Some(WorldError::EmptyGrid));
}

#[test]
fn new_refuses_a_grid_beyond_the_address_range() {
    assert_eq!(World::new(usize::MAX, 2).err(), Some(WorldError::TooLarge));
    assert_eq!(World::new(2, usize::MAX).err(), Some(WorldError::TooLarge));
    assert_eq!(World::new(usize::MAX, usize::MAX).err(), Some(WorldError::TooLarge));
}

#[test]
fn new_accepts_a_single_cell() {
    let mut world = World::new(1, 1).unwrap();
    assert_eq!(world.as_string(), " \n");
    assert_eq!(world.alive_neighbors(0, 0), 0);
    world.set_cell(0, 0, true);
    assert_eq!(world.alive_neighbors(0, 0), 0);
    assert!(world.update());
    assert_eq!(world.as_string(), " \n");
    assert!(!world.update());
}

#[test]
fn index_is_row_major() {
    let world = World::new(5, 3).unwrap();
    assert_eq!(world.index(0, 0), 0);
    assert_eq!(world.index(4, 0), 4);
    assert_eq!(world.index(0, 1), 5);
    assert_eq!(world.index(2, 1), 7);
    assert_eq!(world.index(4, 2), 14);
}

#[test]
fn set_cell_changes_one_cell() {
    let mut world = World::new(3, 2).unwrap();
    world.set_cell(2, 1, true);
    assert!(world.cell(2, 1));
    assert_eq!(world.as_string(), "   \n  +\n");
    world.set_cell(0, 0, true);
    assert_eq!(world.as_string(), "+  \n  +\n");
    world.set_cell(2, 1, false);
    assert!(!world.cell(2, 1));
    assert_eq!(world.as_string(), "+  \n   \n");
}

#[test]
fn text_has_height_lines_of_width_glyphs() {
    let world = world_from(&["+ + +", " + + ", "+++++", "     "]);
    let text = world.as_string();
    assert_eq!(text, "+ + +\n + + \n+++++\n     \n");
    let lines: Vec<&str> = text.split('\n').collect();
    assert_eq!(lines.len(), 5);
    assert_eq!(lines[4], "");
    for line in &lines[..4] {
        assert_eq!(line.chars().count(), 5);
        assert!(line.chars().all(|c| c == '+' || c == ' '));
    }
}

#[test]
fn text_keeps_its_shape_over_generations() {
    let mut world = world_from(&[" +     ", "  +    ", "+++    ", "       ", "       "]);
    for _ in 0..12 {
        let text = world.as_string();
        assert_eq!(text.len(), 5 * 8);
        assert_eq!(text.split('\n').count(), 6);
        assert!(text.split('\n').take(5).all(|line| line.len() == 7));
        world.update();
    }
}

#[test]
fn interior_cell_counts_its_eight_neighbors() {
    let full = world_from(&["+++", "+++", "+++"]);
    assert_eq!(full.alive_neighbors(1, 1), 8);

    let ring = world_from(&["+++", "+ +", "+++"]);
    assert_eq!(ring.alive_neighbors(1, 1), 8);

    let lone = world_from(&["   ", " + ", "   "]);
    assert_eq!(lone.alive_neighbors(1, 1), 0);

    let some = world_from(&["+ +  ", "  +  ", " +   ", "     "]);
    assert_eq!(some.alive_neighbors(1, 1), 4);
    assert_eq!(some.alive_neighbors(2, 1), 2);
    assert_eq!(some.alive_neighbors(3, 2), 1);
    assert_eq!(some.alive_neighbors(3, 1), 2);
}

#[test]
fn each_neighbor_counts_once() {
    for dj in 0..3usize {
        for di in 0..3usize {
            let mut world = World::new(3, 3).unwrap();
            world.set_cell(di, dj, true);
            let expected = if di == 1 && dj == 1 { 0 } else { 1 };
            assert_eq!(world.alive_neighbors(1, 1), expected);
        }
    }
}

#[test]
fn corner_counts_only_what_lies_on_the_grid() {
    let full = world_from(&["++++", "++++", "++++"]);
    assert_eq!(full.alive_neighbors(0, 0), 3);
    assert_eq!(full.alive_neighbors(3, 0), 3);
    assert_eq!(full.alive_neighbors(0, 2), 3);
    assert_eq!(full.alive_neighbors(3, 2), 3);
    assert_eq!(full.alive_neighbors(1, 0), 5);
    assert_eq!(full.alive_neighbors(0, 1), 5);
    assert_eq!(full.alive_neighbors(3, 1), 5);
    assert_eq!(full.alive_neighbors(2, 2), 5);
}

#[test]
fn edges_do_not_wrap_around() {
    let world = world_from(&["   +", "    ", "+  +"]);
    assert_eq!(world.alive_neighbors(0, 0), 0);
    assert_eq!(world.alive_neighbors(0, 1), 1);
    assert_eq!(world.alive_neighbors(3, 1), 2);
    assert_eq!(world.alive_neighbors(1, 1), 1);

    let two = world_from(&["++", "++"]);
    assert_eq!(two.alive_neighbors(0, 0), 3);
    assert_eq!(two.alive_neighbors(1, 1), 3);
}

#[test]
fn positions_off_the_grid_have_the_neighbors_that_lie_on_it() {
    let full = world_from(&["+++", "+++"]);
    assert_eq!(full.alive_neighbors(3, 0), 2);
    assert_eq!(full.alive_neighbors(3, 2), 1);
    assert_eq!(full.alive_neighbors(1, 2), 3);
    assert_eq!(full.alive_neighbors(4, 0), 0);
    assert_eq!(full.alive_neighbors(usize::MAX, usize::MAX), 0);
    assert_eq!(full.alive_neighbors(usize::MAX, 0), 0);
    assert_eq!(full.alive_neighbors(0, usize::MAX), 0);
}

#[test]
fn center_of_a_full_ring_stays_dead() {
    let mut world = world_from(&["+++", "+ +", "+++"]);
    assert_eq!(world.alive_neighbors(1, 1), 8);
    let changed = world.update();
    assert!(!world.cell(1, 1));
    assert!(changed);
    assert_eq!(world.as_string(), text_of(&["+ +", "   ", "+ +"]));
}

#[test]
fn rule_on_a_live_cell() {
    // The middle cell is alive and has 0, 1, 2, 3, 4 live neighbours in turn.
    let cases: [(&[&str], bool); 5] = [
        (&["   ", " + ", "   "], false),
        (&["+  ", " + ", "   "], false),
        (&["+  ", " + ", "  +"], true),
        (&["+ +", " + ", "  +"], true),
        (&["+ +", " + ", "+ +"], false),
    ];
    for (rows, alive) in cases {
        let mut world = world_from(rows);
        world.update();
        assert_eq!(world.cell(1, 1), alive);
    }
}

#[test]
fn rule_on_a_dead_cell() {
    // The middle cell is dead and has 2, 3, 4 live neighbours in turn.
    let cases: [(&[&str], bool); 3] = [
        (&["+  ", "   ", "  +"], false),
        (&["+ +", "   ", "  +"], true),
        (&["+ +", "   ", "+ +"], false),
    ];
    for (rows, alive) in cases {
        let mut world = world_from(rows);
        world.update();
        assert_eq!(world.cell(1, 1), alive);
    }
}

#[test]
fn block_is_a_still_life() {
    let rows = ["      ", "      ", "  ++  ", "  ++  ", "      ", "      "];
    let mut world = world_from(&rows);
    for _ in 0..3 {
        assert!(!world.update());
        assert_eq!(world.as_string(), text_of(&rows));
    }
}

#[test]
fn block_in_a_corner_is_a_still_life() {
    let rows = ["++ ", "++ ", "   "];
    let mut world = world_from(&rows);
    assert!(!world.update());
    assert_eq!(world.as_string(), text_of(&rows));
}

#[test]
fn blinker_oscillates() {
    let across = ["     ", "     ", " +++ ", "     ", "     "];
    let upright = ["     ", "  +  ", "  +  ", "  +  ", "     "];
    let mut world = world_from(&across);
    assert!(world.update());
    assert_eq!(world.as_string(), text_of(&upright));
    assert!(world.update());
    assert_eq!(world.as_string(), text_of(&across));
    assert!(world.update());
    assert_eq!(world.as_string(), text_of(&upright));
}

#[test]
fn blinker_in_the_smallest_grid_that_holds_it() {
    let mut world = world_from(&["   ", "+++", "   "]);
    assert!(world.update());
    assert_eq!(world.as_string(), " + \n + \n + \n");
    assert!(world.update());
    assert_eq!(world.as_string(), "   \n+++\n   \n");
}

#[test]
fn dead_world_has_converged_at_once() {
    let mut world = World::new(7, 4).unwrap();
    assert!(!world.update());
    assert!(!world.update());
    assert_eq!(world.as_string(), "       \n".repeat(4));
}

#[test]
fn update_reads_only_the_generation_before() {
    // A glider's next generation, which an update in place would get wrong.
    let mut world = world_from(&[" +   ", "  +  ", "+++  ", "     ", "     "]);
    assert!(world.update());
    assert_eq!(
        world.as_string(),
        text_of(&["     ", "+ +  ", " ++  ", " +   ", "     "])
    );
    assert!(world.update());
    assert_eq!(
        world.as_string(),
        text_of(&["     ", "  +  ", "+ +  ", " ++  ", "     "])
    );
}

#[test]
fn update_reports_a_change_in_the_last_cell_alone() {
    // Only the last cell stored changes: it is born from its three neighbours.
    let mut world = world_from(&["   ", "  +", " + "]);
    world.set_cell(1, 1, true);
    assert!(world.update());
    assert_eq!(world.as_string(), "   \n ++\n ++\n");
    assert!(!world.update());
}

#[test]
fn pixels_follow_the_cells() {
    let world = world_from(&["+  +", " ++ ", "+   "]);
    let mut buff: Vec<u32> = vec![7; 12];
    assert_eq!(world.to_buff(&mut buff), Ok(()));
    for j in 0..3 {
        for i in 0..4 {
            let expected = if world.cell(i, j) { 0x00FF_FFFF } else { 0 };
            assert_eq!(buff[j * 4 + i], expected);
        }
    }
    assert_eq!(
        buff,
        vec![
            0xFFFFFF, 0, 0, 0xFFFFFF, 0, 0xFFFFFF, 0xFFFFFF, 0, 0xFFFFFF, 0, 0, 0
        ]
    );
}

#[test]
fn pixels_are_white_and_black() {
    assert_eq!(WHITE, (255 << 16) + (255 << 8) + 255);
    assert_eq!(WHITE, 16_777_215);
    assert_eq!(BLACK, 0);
}

#[test]
fn pixels_refuse_a_buffer_of_another_length() {
    let world = world_from(&["++", "++"]);
    let mut short: Vec<u32> = vec![9; 3];
    assert_eq!(world.to_buff(&mut short), Err(WorldError::BufferSize));
    assert_eq!(short, vec![9, 9, 9]);
    let mut long: Vec<u32> = vec![9; 5];
    assert_eq!(world.to_buff(&mut long), Err(WorldError::BufferSize));
    assert_eq!(long, vec![9, 9, 9, 9, 9]);
    let mut empty: Vec<u32> = Vec::new();
    assert_eq!(world.to_buff(&mut empty), Err(WorldError::BufferSize));
    assert!(empty.is_empty());
}

#[test]
fn pixels_leave_the_world_as_it_is() {
    let mut world = world_from(&["+ ", " +"]);
    let mut buff: Vec<u32> = vec![0; 4];
    assert_eq!(world.to_buff(&mut buff), Ok(()));
    assert_eq!(world.as_string(), "+ \n +\n");
    world.update();
    assert_eq!(world.to_buff(&mut buff), Ok(()));
    assert_eq!(buff, vec![0, 0, 0, 0]);
}

#[test]
fn fill_keeps_the_size() {
    let mut world = World::new(9, 6).unwrap();
    world.fill();
    let text = world.as_string();
    assert_eq!(text.len(), 6 * 10);
    assert!(text.split('\n').take(6).all(|line| line.len() == 9));
    let mut buff: Vec<u32> = vec![1; 54];
    assert_eq!(world.to_buff(&mut buff), Ok(()));
    assert!(buff.iter().all(|p| *p == WHITE || *p == BLACK));
    for j in 0..6 {
        for i in 0..9 {
            assert_eq!(buff[world.index(i, j)] == WHITE, world.cell(i, j));
        }
    }
}

#[test]
fn fill_draws_both_states() {
    // 4096 fair coins all landing on one side has a chance of 2 in 2^4096.
    let mut world = World::new(64, 64).unwrap();
    world.fill();
    let text = world.as_string();
    assert!(text.contains('+'));
    assert!(text.contains(' '));
}
