use hlcup::dto::Area;
use hlcup::dto::Explore;

fn hash(area: &Area) -> String {
    format!(
        "[{}, {}; {}, {}]",
        area.pos_x, area.pos_y, area.size_x, area.size_y
    )
}

#[test]
fn test_area_divide() {
    let a = Area {
        pos_x: 0,
        pos_y: 0,
        size_x: 10,
        size_y: 10,
    };

    let division = a.divide();

    let items = division.iter().map(|a| hash(a)).collect::<Vec<String>>();

    assert_eq!(
        vec![
            "[0, 0; 5, 5]",
            "[0, 5; 5, 5]",
            "[5, 0; 5, 5]",
            "[5, 5; 5, 5]"
        ],
        items
    );

    let division2 = division[0].divide();

    let items2 = division2.iter().map(|a| hash(a)).collect::<Vec<String>>();

    assert_eq!(
        vec![
            "[0, 0; 2, 2]",
            "[0, 2; 2, 3]",
            "[2, 0; 3, 2]",
            "[2, 2; 3, 3]",
        ],
        items2
    );

    let b = Area {
        pos_x: 0,
        pos_y: 0,
        size_x: 1,
        size_y: 2,
    };

    let items3 = b.divide().iter().map(|a| hash(a)).collect::<Vec<String>>();

    assert_eq!(vec!["[0, 0; 1, 1]", "[0, 1; 1, 1]",], items3);

    let c = Area {
        pos_x: 0,
        pos_y: 0,
        size_x: 1,
        size_y: 1,
    };
    assert_eq!(c.divide(), vec![c])
}

#[test]
fn dto_tests_test_area_divide() {
    let a = Area {
        pos_x: 0,
        pos_y: 0,
        size_x: 10,
        size_y: 10,
    };

    let division = a.divide();

    let items = division.iter().map(|a| hash(a)).collect::<Vec<String>>();

    assert_eq!(
        vec![
            "[0, 0; 5, 5]",
            "[0, 5; 5, 5]",
            "[5, 0; 5, 5]",
            "[5, 5; 5, 5]"
        ],
        items
    );

    let division2 = division[0].divide();

    let items2 = division2.iter().map(|a| hash(a)).collect::<Vec<String>>();

    assert_eq!(
        vec![
            "[0, 0; 2, 2]",
            "[0, 2; 2, 3]",
            "[2, 0; 3, 2]",
            "[2, 2; 3, 3]",
        ],
        items2
    );

    let b = Area {
        pos_x: 0,
        pos_y: 0,
        size_x: 1,
        size_y: 2,
    };

    let items3 = b.divide().iter().map(|a| hash(a)).collect::<Vec<String>>();

    assert_eq!(vec!["[0, 0; 1, 1]", "[0, 1; 1, 1]",], items3);

    let c = Area {
        pos_x: 0,
        pos_y: 0,
        size_x: 1,
        size_y: 1,
    };
    assert_eq!(c.divide(), vec![c])
}

// Partition: the sizes of divide's parts add up to the whole, the parts stay
// inside the whole, and no two parts overlap.
#[test]
fn test_partition_sizes() {
    let a = Area {
        pos_x: 3,
        pos_y: 7,
        size_x: 9,
        size_y: 5,
    };
    let parts = a.divide();
    assert_eq!(parts.len(), 4);
    let total: u64 = parts.iter().map(|p| p.size()).sum();
    assert_eq!(total, a.size());
    for p in parts.iter() {
        assert!(p.pos_x >= a.pos_x && p.pos_x + p.size_x <= a.pos_x + a.size_x);
        assert!(p.pos_y >= a.pos_y && p.pos_y + p.size_y <= a.pos_y + a.size_y);
    }
    for (i, p) in parts.iter().enumerate() {
        for (j, q) in parts.iter().enumerate() {
            if i != j {
                let overlap_x = p.pos_x < q.pos_x + q.size_x && q.pos_x < p.pos_x + p.size_x;
                let overlap_y = p.pos_y < q.pos_y + q.size_y && q.pos_y < p.pos_y + p.size_y;
                assert!(!(overlap_x && overlap_y));
            }
        }
    }
}

// Fully subdividing a small square yields exactly its unit cells, and
// rejoining them (bounding box) reconstructs the original area.
#[test]
fn test_unit_cells_rejoin() {
    let a = Area {
        pos_x: 4,
        pos_y: 2,
        size_x: 2,
        size_y: 2,
    };
    let cells = a.divide();
    assert_eq!(cells.len(), 4);
    let mut coords: Vec<(u64, u64)> = cells.iter().map(|c| (c.pos_x, c.pos_y)).collect();
    coords.sort();
    assert_eq!(coords, vec![(4, 2), (4, 3), (5, 2), (5, 3)]);
    for c in cells.iter() {
        assert_eq!(c.size(), 1);
    }
    let min_x = cells.iter().map(|c| c.pos_x).min().unwrap();
    let min_y = cells.iter().map(|c| c.pos_y).min().unwrap();
    let max_x = cells.iter().map(|c| c.pos_x + c.size_x).max().unwrap();
    let max_y = cells.iter().map(|c| c.pos_y + c.size_y).max().unwrap();
    let rejoined = Area {
        pos_x: min_x,
        pos_y: min_y,
        size_x: max_x - min_x,
        size_y: max_y - min_y,
    };
    assert_eq!(rejoined, a);
}

#[test]
fn test_initial_stripe() {
    let s = Area::initial_stripe(500, 3500, 3);
    assert_eq!(
        s,
        Area {
            pos_x: 1500,
            pos_y: 0,
            size_x: 500,
            size_y: 3500
        }
    );
}

#[test]
fn test_split_in_8() {
    let a = Area {
        pos_x: 0,
        pos_y: 0,
        size_x: 8,
        size_y: 8,
    };
    let tiles = a.split_in_8();
    assert_eq!(tiles.len(), 16);
    let total: u64 = tiles.iter().map(|t| t.size()).sum();
    assert_eq!(total, 64);
}

#[test]
fn test_cost_formula() {
    let e = Explore {
        area: Area {
            pos_x: 0,
            pos_y: 0,
            size_x: 10,
            size_y: 10,
        },
        amount: 1,
    };
    // size * (max_depth / 3) * AVG_DIG_MS = 100 * 3 * 2
    assert_eq!(e.cost(10), 600);
    // integer division: max_depth 2 gives a zero factor
    assert_eq!(e.cost(2), 0);
    let big = Explore {
        area: Area {
            pos_x: 0,
            pos_y: 0,
            size_x: u64::MAX,
            size_y: 1,
        },
        amount: 0,
    };
    assert_eq!(big.cost(10), (u64::MAX as u128) * 3 * 2);
}

#[test]
fn test_is_managable() {
    let e = Explore {
        area: Area {
            pos_x: 0,
            pos_y: 0,
            size_x: 10,
            size_y: 10,
        },
        amount: 1,
    };
    // cost 600 against a 600_000 ms budget
    assert!(e.is_managable(0, 10));
    assert!(e.is_managable(599_399, 10));
    // at 599_400 the remaining budget is exactly the cost: not manageable
    assert!(!e.is_managable(599_400, 10));
}
