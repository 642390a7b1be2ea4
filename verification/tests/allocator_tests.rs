use gas_station::allocator::{
    allocate, allocate_capacity, apply_draws, apply_fills, InsufficientSpace, InsufficientStock,
};
use gas_station::models::Tank;

fn tanks() -> Vec<Tank> {
    vec![
        Tank { id: 1, fuelid: 1, stored: 300, capacity: 1000 },
        Tank { id: 2, fuelid: 9, stored: 800, capacity: 900 },
        Tank { id: 3, fuelid: 1, stored: 0, capacity: 100 },
        Tank { id: 4, fuelid: 1, stored: 200, capacity: 500 },
    ]
}

#[test]
fn draw_plan_takes_from_each_tank_in_turn() {
    assert_eq!(allocate(&tanks(), 1, 450, false), Ok(vec![300, 0, 0, 150]));
    assert_eq!(allocate(&tanks(), 1, 300, false), Ok(vec![300, 0, 0, 0]));
    assert_eq!(allocate(&tanks(), 1, 10, false), Ok(vec![10, 0, 0, 0]));
    assert_eq!(allocate(&tanks(), 1, 500, false), Ok(vec![300, 0, 0, 200]));
    assert_eq!(allocate(&tanks(), 9, 1, false), Ok(vec![0, 1, 0, 0]));
}

#[test]
fn draw_plan_is_refused_beyond_stock() {
    assert_eq!(allocate(&tanks(), 1, 501, false), Err(InsufficientStock));
    assert_eq!(allocate(&tanks(), 2, 1, false), Err(InsufficientStock));
    assert_eq!(allocate(&Vec::new(), 1, 1, false), Err(InsufficientStock));
}

#[test]
fn draw_plan_for_nothing_is_idle() {
    assert_eq!(allocate(&tanks(), 1, 0, false), Ok(vec![0, 0, 0, 0]));
    assert_eq!(allocate(&tanks(), 1, -7, false), Ok(vec![0, 0, 0, 0]));
    assert_eq!(allocate(&Vec::new(), 1, 0, false), Ok(Vec::new()));
}

#[test]
fn unmetered_plan_draws_nothing() {
    assert_eq!(allocate(&tanks(), 1, 100_000, true), Ok(vec![0, 0, 0, 0]));
    let dead = vec![Tank { id: 1, fuelid: 1, stored: 0, capacity: 1 }];
    assert_eq!(allocate(&dead, 1, 1, true), Err(InsufficientStock));
    assert_eq!(allocate(&tanks(), 2, 1, true), Err(InsufficientStock));
}

#[test]
fn fill_plan_fills_each_tank_in_turn() {
    assert_eq!(allocate_capacity(&tanks(), 1, 750), Ok(vec![700, 0, 50, 0]));
    assert_eq!(allocate_capacity(&tanks(), 1, 1100), Ok(vec![700, 0, 100, 300]));
    assert_eq!(allocate_capacity(&tanks(), 1, 0), Ok(vec![0, 0, 0, 0]));
    assert_eq!(allocate_capacity(&tanks(), 1, 1101), Err(InsufficientSpace));
    assert_eq!(allocate_capacity(&tanks(), 9, 101), Err(InsufficientSpace));
}

#[test]
fn plans_work_at_the_edges_of_the_range() {
    let wide = vec![
        Tank { id: 1, fuelid: 1, stored: i32::MIN, capacity: i32::MAX },
        Tank { id: 2, fuelid: 1, stored: i32::MAX, capacity: i32::MAX },
    ];
    assert_eq!(allocate(&wide, 1, 0, false), Err(InsufficientStock));
    assert_eq!(allocate(&wide, 1, -1, false), Ok(vec![0, 0]));
    assert_eq!(allocate_capacity(&wide, 1, i32::MAX), Ok(vec![i32::MAX, 0]));
}

#[test]
fn applying_plans_moves_stock() {
    let mut drawn = tanks();
    let plan = allocate(&drawn, 1, 450, false).unwrap();
    apply_draws(&mut drawn, &plan);
    let levels: Vec<i32> = drawn.iter().map(|t| t.stored).collect();
    assert_eq!(levels, vec![0, 800, 0, 50]);

    let mut filled = tanks();
    let plan = allocate_capacity(&filled, 1, 750).unwrap();
    apply_fills(&mut filled, &plan);
    let levels: Vec<i32> = filled.iter().map(|t| t.stored).collect();
    assert_eq!(levels, vec![1000, 800, 50, 200]);
    assert_eq!(filled[0].capacity, 1000);
    assert_eq!(filled[0].id, 1);
}
