use minesweeper::{fields_from_draws, random_fields, Position};

fn assert_distinct_cells(fields: &[Position], width: usize, height: usize) {
    for (i, &(x, y)) in fields.iter().enumerate() {
        assert!(x < width && y < height);
        for other in &fields[i + 1..] {
            assert_ne!(*other, (x, y));
        }
    }
}

#[test]
fn random_fields_are_distinct_cells_of_the_grid() {
    let cases = [(9, 9, 10), (16, 16, 40), (30, 16, 99), (3, 5, 15), (7, 1, 0)];
    for &(width, height, count) in &cases {
        let fields = random_fields(width, height, count);
        assert_eq!(fields.len(), count);
        assert_distinct_cells(&fields, width, height);
    }
}

#[test]
fn random_fields_can_fill_the_grid() {
    let mut fields = random_fields(4, 3, 12);
    fields.sort();
    let mut all = Vec::new();
    for x in 0..4 {
        for y in 0..3 {
            all.push((x, y));
        }
    }
    assert_eq!(fields, all);
}

#[test]
fn random_fields_on_an_empty_grid() {
    assert!(random_fields(0, 5, 0).is_empty());
    assert!(random_fields(5, 0, 0).is_empty());
}

#[test]
fn random_fields_vary() {
    let first = random_fields(10, 10, 1);
    let mut varied = false;
    for _ in 0..200 {
        if random_fields(10, 10, 1) != first {
            varied = true;
        }
    }
    assert!(varied);
}

#[test]
fn random_fields_reach_every_cell() {
    let mut seen = [false; 6];
    for _ in 0..2000 {
        let fields = random_fields(3, 2, 1);
        let (x, y) = fields[0];
        seen[y * 3 + x] = true;
    }
    assert_eq!(seen, [true; 6]);
}

#[test]
fn draws_select_their_own_cell_while_it_is_free() {
    assert_eq!(
        fields_from_draws(3, 2, &vec![3, 1, 5]),
        Some(vec![(0, 1), (1, 0), (2, 1)])
    );
}

#[test]
fn a_draw_of_a_taken_cell_selects_the_newest_cell() {
    assert_eq!(
        fields_from_draws(3, 2, &vec![0, 0, 5]),
        Some(vec![(0, 0), (1, 1), (2, 1)])
    );
    assert_eq!(
        fields_from_draws(3, 2, &vec![0, 0, 0]),
        Some(vec![(0, 0), (1, 1), (2, 1)])
    );
    assert_eq!(
        fields_from_draws(3, 2, &vec![3, 3, 3]),
        Some(vec![(0, 1), (1, 1), (2, 1)])
    );
}

#[test]
fn draws_for_the_whole_grid() {
    assert_eq!(
        fields_from_draws(2, 2, &vec![0, 0, 0, 0]),
        Some(vec![(0, 0), (1, 0), (0, 1), (1, 1)])
    );
    assert_eq!(
        fields_from_draws(2, 2, &vec![0, 1, 2, 3]),
        Some(vec![(0, 0), (1, 0), (0, 1), (1, 1)])
    );
}

#[test]
fn no_draws_select_no_cell() {
    assert_eq!(fields_from_draws(3, 2, &vec![]), Some(vec![]));
    assert_eq!(fields_from_draws(0, 0, &vec![]), Some(vec![]));
}

#[test]
fn draws_beyond_their_limit_are_refused() {
    assert_eq!(fields_from_draws(3, 2, &vec![4, 0, 0]), None);
    assert_eq!(fields_from_draws(3, 2, &vec![0, 5, 0]), None);
    assert_eq!(fields_from_draws(3, 2, &vec![0, 0, 6]), None);
    assert_eq!(fields_from_draws(3, 2, &vec![6]), None);
    assert_eq!(fields_from_draws(3, 2, &vec![5]), Some(vec![(2, 1)]));
}

#[test]
fn more_draws_than_cells_are_refused() {
    assert_eq!(fields_from_draws(2, 1, &vec![0, 0, 0]), None);
    assert_eq!(fields_from_draws(0, 3, &vec![0]), None);
}

#[test]
fn draws_for_a_grid_too_large_are_refused() {
    assert_eq!(fields_from_draws(usize::MAX, 2, &vec![]), None);
}
