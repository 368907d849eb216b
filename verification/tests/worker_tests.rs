use hlcup::dto::{Area, Dig, Explore, License};
use hlcup::heap::PriorityVec;
use hlcup::model::PendingDig;
use hlcup::rules::Rules;
use hlcup::worker::{InitExplorer, Worker};

fn worker_with(explores: Vec<Explore>) -> Worker {
    let mut heap: PriorityVec<Explore> = PriorityVec::new();
    for e in explores {
        heap.push(e);
    }
    Worker::new(Rules::new(1), heap)
}

// The trivial end-to-end path: one unit cell holding one treasure, dug out
// with the first dig; nothing is re-enqueued and the license survives.
#[test]
fn test_trivial_path() {
    let mut w = worker_with(vec![Explore {
        area: Area {
            pos_x: 0,
            pos_y: 0,
            size_x: 1,
            size_y: 1,
        },
        amount: 1,
    }]);
    // unit cell goes straight onto the dig queue
    assert!(w.explore_step().is_none());
    assert_eq!(w.dig_heap.len(), 1);

    let lic = License {
        id: 7,
        dig_allowed: 3,
        dig_used: 0,
    };
    w.add_licenses(vec![lic]);
    let pd = w.dig_pop().unwrap();
    assert_eq!(
        pd,
        PendingDig {
            x: 0,
            y: 0,
            depth: 1,
            remaining: 1
        }
    );
    let lic = w.license_pop().unwrap();
    assert_eq!(
        pd.to_dig(lic.id),
        Dig {
            license_id: 7,
            pos_x: 0,
            pos_y: 0,
            depth: 1
        }
    );
    // the judge returns one treasure: depth 1, remaining 1, found 1
    let expired = w.apply_dig_result(pd, lic, 1);
    assert!(expired.is_none());
    assert_eq!(w.dig_heap.len(), 0);
    assert_eq!(w.licenses.len(), 1);
    assert_eq!(w.licenses[0].dig_used, 1);
}

// Subdivision with conservation: no queried part reports anything, so the
// whole parent amount flows to the last part as a synthetic entry.
#[test]
fn test_subdivision_conservation() {
    let mut w = worker_with(vec![Explore {
        area: Area {
            pos_x: 0,
            pos_y: 0,
            size_x: 2,
            size_y: 2,
        },
        amount: 4,
    }]);
    let mut sub = w.explore_step().unwrap();
    assert_eq!(sub.areas.len(), 4);
    assert_eq!(sub.parent_amount, 4);
    let mut queried = 0;
    while let Some(_a) = sub.next_query() {
        let pushed = sub.record(0);
        assert!(pushed.is_none());
        queried += 1;
    }
    assert_eq!(queried, 3);
    let residual = sub.residual().unwrap();
    assert_eq!(residual.amount, 4);
    assert_eq!(residual.area, sub.areas[3]);
    w.explore_enqueue(residual);
    assert_eq!(w.explore_heap.len(), 1);
}

// Full drill-down of a 2x2 area: after subdividing and enqueueing every
// part, the four unit cells reach the dig queue carrying amounts that sum to
// the parent's amount.
#[test]
fn test_full_drilldown_conservation() {
    let mut w = worker_with(vec![Explore {
        area: Area {
            pos_x: 0,
            pos_y: 0,
            size_x: 2,
            size_y: 2,
        },
        amount: 4,
    }]);
    let mut sub = w.explore_step().unwrap();
    // the judge reports one treasure in each of the three queried cells
    while sub.next_query().is_some() {
        if let Some(e) = sub.record(1) {
            w.explore_enqueue(e);
        }
    }
    if let Some(e) = sub.residual() {
        assert_eq!(e.amount, 1);
        w.explore_enqueue(e);
    }
    assert_eq!(w.explore_heap.len(), 4);
    for _ in 0..4 {
        assert!(w.explore_step().is_none());
    }
    assert_eq!(w.explore_heap.len(), 0);
    assert_eq!(w.dig_heap.len(), 4);
    let mut total = 0;
    for i in 0..w.dig_heap.len() {
        total += w.dig_heap.get(i).remaining;
    }
    assert_eq!(total, 4);
}

// Early stop: once the amounts seen account for the parent, no further part
// is queried and no residual remains.
#[test]
fn test_subdivision_early_stop() {
    let mut w = worker_with(vec![Explore {
        area: Area {
            pos_x: 0,
            pos_y: 0,
            size_x: 2,
            size_y: 2,
        },
        amount: 4,
    }]);
    let mut sub = w.explore_step().unwrap();
    assert!(sub.next_query().is_some());
    let pushed = sub.record(4).unwrap();
    assert_eq!(pushed.amount, 4);
    assert!(sub.next_query().is_none());
    assert!(sub.residual().is_none());
}

// Dig progression over one cell with remaining 3: found 1, then 0 (the 404
// case), then 2; after the third dig nothing is left to re-enqueue.
#[test]
fn test_dig_progression() {
    let mut w = worker_with(vec![]);
    w.dig_defer(PendingDig::new(0, 0, 3));
    let lic = License {
        id: 1,
        dig_allowed: 10,
        dig_used: 0,
    };

    let pd1 = w.dig_pop().unwrap();
    assert_eq!(pd1.depth, 1);
    assert!(w.apply_dig_result(pd1, lic, 1).is_none());
    let pd2 = w.dig_pop().unwrap();
    assert_eq!(pd2.depth, 2);
    assert_eq!(pd2.remaining, 2);
    let lic = w.license_pop().unwrap();
    assert!(w.apply_dig_result(pd2, lic, 0).is_none());
    let pd3 = w.dig_pop().unwrap();
    assert_eq!(pd3.depth, 3);
    assert_eq!(pd3.remaining, 2);
    let lic = w.license_pop().unwrap();
    assert!(w.apply_dig_result(pd3, lic, 2).is_none());
    assert!(w.dig_pop().is_none());
}

// License exhaustion: a license allowing three digs expires on the third;
// the expiry carries the backlog hint over the remaining dig queue.
#[test]
fn test_license_exhaustion() {
    let mut w = worker_with(vec![]);
    w.dig_defer(PendingDig::new(0, 0, 100));
    w.dig_defer(PendingDig::new(1, 0, 100));
    w.dig_defer(PendingDig::new(2, 0, 100));
    w.dig_defer(PendingDig::new(3, 0, 100));
    let lic = License {
        id: 5,
        dig_allowed: 3,
        dig_used: 0,
    };
    w.add_licenses(vec![lic]);

    let pd = w.dig_pop().unwrap();
    let lic = w.license_pop().unwrap();
    assert!(w.apply_dig_result(pd, lic, 100).is_none());
    let pd = w.dig_pop().unwrap();
    let lic = w.license_pop().unwrap();
    assert!(w.apply_dig_result(pd, lic, 100).is_none());
    let pd = w.dig_pop().unwrap();
    let lic = w.license_pop().unwrap();
    assert_eq!(lic.dig_used, 2);
    let expired = w.apply_dig_result(pd, lic, 100);
    // one cell of depth 1 is left queued: hint = max_depth + 1 - 1 = 10
    assert_eq!(expired, Some(10));
    assert!(w.licenses.is_empty());
}

// A cell is re-enqueued one level deeper with the yield deducted.
#[test]
fn test_next_level_progression() {
    let pd = PendingDig {
        x: 0,
        y: 0,
        depth: 4,
        remaining: 10,
    };
    let next = pd.next_level(10, 3).unwrap();
    assert_eq!(next.depth, 5);
    assert_eq!(next.remaining, 7);
    // yield equal to what remains: nothing left to chase
    assert!(pd.next_level(10, 10).is_none());
    assert!(pd.next_level(10, 11).is_none());
}

// A dig that found nothing keeps the remaining estimate and still descends.
#[test]
fn test_next_level_zero_found() {
    let pd = PendingDig {
        x: 0,
        y: 0,
        depth: 1,
        remaining: 5,
    };
    let next = pd.next_level(10, 0).unwrap();
    assert_eq!(next.depth, 2);
    assert_eq!(next.remaining, 5);
}

// A cell at the depth limit is never re-enqueued, whatever remains.
#[test]
fn test_max_depth_not_requeued() {
    let pd = PendingDig {
        x: 0,
        y: 0,
        depth: 10,
        remaining: 1_000_000,
    };
    assert!(pd.next_level(10, 0).is_none());
    assert!(pd.next_level(10, 1).is_none());
}

// Descending from depth 1 takes at most max_depth - 1 steps.
#[test]
fn test_drill_terminates() {
    let max_depth = 10;
    let mut pd = PendingDig::new(0, 0, 1000);
    let mut steps = 0;
    while let Some(next) = pd.next_level(max_depth, 0) {
        pd = next;
        steps += 1;
        assert!(steps <= 9);
    }
    assert_eq!(steps, 9);
    assert_eq!(pd.depth, 10);
}

// With no license at hand the cell goes back onto the queue, to be retried
// once accounting answers.
#[test]
fn test_no_license_defers() {
    let mut w = worker_with(vec![]);
    w.dig_defer(PendingDig::new(0, 0, 5));
    let pd = w.dig_pop().unwrap();
    assert!(w.license_pop().is_none());
    w.dig_defer(pd);
    assert_eq!(w.dig_heap.len(), 1);
    // accounting answered with nothing: ask again later
    w.add_licenses(vec![]);
    assert!(w.license_pop().is_none());
    assert_eq!(w.dig_heap.len(), 1);
}

#[test]
fn test_pending_digs_hint() {
    let mut w = worker_with(vec![]);
    w.dig_defer(PendingDig {
        x: 0,
        y: 0,
        depth: 1,
        remaining: 4,
    });
    w.dig_defer(PendingDig {
        x: 1,
        y: 0,
        depth: 7,
        remaining: 4,
    });
    w.dig_defer(PendingDig {
        x: 2,
        y: 0,
        depth: 10,
        remaining: 4,
    });
    // (10+1-1) + (10+1-7) + (10+1-10) = 10 + 4 + 1
    assert_eq!(w.pending_digs(), 15);
    // far below the numeric bound the hint must respect
    assert!(w.hint_fits());
}

// An answer reporting nothing is discarded outright: neither kept nor
// subdivided, however large or small the area.
#[test]
fn test_init_zero_amount_discarded() {
    let small = Area {
        pos_x: 0,
        pos_y: 0,
        size_x: 10,
        size_y: 10,
    };
    let mut init = InitExplorer::new(&vec![small]);
    let q = init.next_unknown().unwrap();
    init.on_explored(
        q.area,
        Some(Explore {
            area: small,
            amount: 0,
        }),
        0,
        10,
    );
    assert_eq!(init.selected.len(), 0);
    assert_eq!(init.frontier.len(), 0);

    let big = Area {
        pos_x: 0,
        pos_y: 0,
        size_x: 100_000,
        size_y: 100_000,
    };
    let mut init2 = InitExplorer::new(&vec![big]);
    let q2 = init2.next_unknown().unwrap();
    init2.on_explored(
        q2.area,
        Some(Explore {
            area: big,
            amount: 0,
        }),
        0,
        10,
    );
    assert_eq!(init2.selected.len(), 0);
    assert_eq!(init2.frontier.len(), 0);
}

// The start-up sweep: an affordable answer is kept, an unaffordable one is
// subdivided, and the budget cut keeps entries until the cost cap.
#[test]
fn test_init_explorer_budget() {
    let big = Area {
        pos_x: 0,
        pos_y: 0,
        size_x: 100_000,
        size_y: 100_000,
    };
    let small = Area {
        pos_x: 0,
        pos_y: 0,
        size_x: 10,
        size_y: 10,
    };
    let mut init = InitExplorer::new(&vec![big, small]);

    let first = init.next_unknown().unwrap();
    // unknown amounts count as the largest possible; the smaller area is
    // denser and was pushed later, so it comes out first
    assert_eq!(first.area, small);
    init.on_explored(
        small,
        Some(Explore {
            area: small,
            amount: 17,
        }),
        0,
        10,
    );
    assert_eq!(init.selected.len(), 1);

    let second = init.next_unknown().unwrap();
    assert_eq!(second.area, big);
    // 100_000 x 100_000 costs far beyond the budget: subdivided, not kept
    init.on_explored(
        big,
        Some(Explore {
            area: big,
            amount: 1,
        }),
        0,
        10,
    );
    assert_eq!(init.selected.len(), 1);
    assert_eq!(init.frontier.len(), 4);

    // a failed query is re-enqueued subdivided with the amount unknown
    let third = init.next_unknown().unwrap();
    init.on_explored(third.area, None, 0, 10);
    assert_eq!(init.frontier.len(), 7);

    assert!(!init.budget_step(0, 10));
    assert_eq!(init.picked.len(), 1);
    assert_eq!(init.cum_cost, 600);
    assert!(init.budget_step(0, 10));
    assert_eq!(init.picked.len(), 1);
}
