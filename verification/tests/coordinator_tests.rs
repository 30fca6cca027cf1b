use pathtracer::cli::RenderStrategy;
use pathtracer::coordinator::{
    framebuffer_index, plan_render, plan_render_here, sequential_job, worker_count,
    worker_for_job, workers_for, Coordinator, CoordinatorAction, Pixel, PlanError, RenderJob,
    RenderPlan, WorkerEvent,
};

fn samples_at(plan: &RenderPlan, x: u32, y: u32) -> u64 {
    let mut total = 0u64;
    for job in plan.jobs.iter() {
        if job.bottom_left.x <= x
            && x < job.top_right.x
            && job.bottom_left.y <= y
            && y < job.top_right.y
        {
            total += job.samples_per_pixel as u64;
        }
    }
    total
}

fn jobs_at(plan: &RenderPlan, x: u32, y: u32) -> u32 {
    let mut count = 0;
    for job in plan.jobs.iter() {
        if job.bottom_left.x <= x
            && x < job.top_right.x
            && job.bottom_left.y <= y
            && y < job.top_right.y
        {
            count += 1;
        }
    }
    count
}

fn job(x0: u32, y0: u32, x1: u32, y1: u32, samples: u32) -> RenderJob {
    RenderJob {
        top_right: Pixel { x: x1, y: y1 },
        bottom_left: Pixel { x: x0, y: y0 },
        samples_per_pixel: samples,
    }
}

#[test]
fn tile_full_splits_image_into_tiles() {
    let plan = plan_render(RenderStrategy::TileFull, 16, 16, 8, 16, 4).unwrap();
    assert_eq!(plan.horizontal_tiles, 2);
    assert_eq!(plan.vertical_tiles, 2);
    assert_eq!(plan.jobs_per_tile, 1);
    assert_eq!(plan.samples_per_job, 16);
    assert_eq!(
        plan.jobs,
        vec![
            job(0, 8, 8, 16, 16),
            job(8, 8, 16, 16, 16),
            job(0, 0, 8, 8, 16),
            job(8, 0, 16, 8, 16),
        ]
    );
}

#[test]
fn tile_average_repeats_each_tile_per_worker() {
    let plan = plan_render(RenderStrategy::TileAverage, 16, 16, 8, 16, 3).unwrap();
    assert_eq!(plan.jobs_per_tile, 3);
    assert_eq!(plan.samples_per_job, 6);
    assert_eq!(plan.jobs.len(), 12);
    assert_eq!(plan.jobs[0], job(0, 8, 8, 16, 6));
    assert_eq!(plan.jobs[1], plan.jobs[0]);
    assert_eq!(plan.jobs[2], plan.jobs[0]);
    assert_eq!(plan.jobs[3], job(8, 8, 16, 16, 6));
    assert_eq!(plan.jobs[11], job(8, 0, 16, 8, 6));
}

#[test]
fn progressive_average_uses_one_tile_for_the_image() {
    let plan = plan_render(RenderStrategy::ProgressiveAverage, 400, 225, 64, 10, 4).unwrap();
    assert_eq!(plan.horizontal_tiles, 1);
    assert_eq!(plan.vertical_tiles, 1);
    assert_eq!(plan.jobs_per_tile, 4);
    assert_eq!(plan.samples_per_job, 3);
    assert_eq!(plan.jobs, vec![job(0, 0, 400, 225, 3); 4]);
}

#[test]
fn progressive_average_ignores_tile_size_zero() {
    let plan = plan_render(RenderStrategy::ProgressiveAverage, 4, 3, 0, 8, 2).unwrap();
    assert_eq!(plan.jobs, vec![job(0, 0, 4, 3, 4); 2]);
}

#[test]
fn edge_tiles_are_cut_at_the_image_border() {
    let plan = plan_render(RenderStrategy::TileFull, 10, 7, 4, 5, 1).unwrap();
    assert_eq!(plan.horizontal_tiles, 3);
    assert_eq!(plan.vertical_tiles, 2);
    assert_eq!(plan.jobs[0], job(0, 4, 4, 7, 5));
    assert_eq!(plan.jobs[2], job(8, 4, 10, 7, 5));
    assert_eq!(plan.jobs[5], job(8, 0, 10, 4, 5));
}

#[test]
fn exact_multiple_adds_no_extra_tile() {
    let plan = plan_render(RenderStrategy::TileFull, 128, 64, 64, 1, 1).unwrap();
    assert_eq!(plan.horizontal_tiles, 2);
    assert_eq!(plan.vertical_tiles, 1);
}

#[test]
fn tile_larger_than_image_gives_one_tile() {
    let plan = plan_render(RenderStrategy::TileFull, 4, 3, 64, 2, 8).unwrap();
    assert_eq!(plan.jobs, vec![job(0, 0, 4, 3, 2)]);
}

#[test]
fn empty_image_has_no_tiled_jobs() {
    let plan = plan_render(RenderStrategy::TileAverage, 0, 10, 4, 2, 2).unwrap();
    assert_eq!(plan.horizontal_tiles, 0);
    assert!(plan.jobs.is_empty());
}

#[test]
fn huge_image_does_not_overflow_tile_corners() {
    let plan = plan_render(RenderStrategy::TileFull, u32::MAX, 1, u32::MAX - 1, 1, 1).unwrap();
    assert_eq!(plan.horizontal_tiles, 2);
    assert_eq!(plan.jobs[0], job(0, 0, u32::MAX - 1, 1, 1));
    assert_eq!(plan.jobs[1], job(u32::MAX - 1, 0, u32::MAX, 1, 1));
}

#[test]
fn zero_tile_size_is_refused() {
    assert_eq!(
        plan_render(RenderStrategy::TileFull, 16, 16, 0, 16, 4).unwrap_err(),
        PlanError::ZeroTileSize
    );
    assert_eq!(
        plan_render(RenderStrategy::TileAverage, 16, 16, 0, 16, 0).unwrap_err(),
        PlanError::ZeroTileSize
    );
}

#[test]
fn averaging_without_workers_is_refused() {
    assert_eq!(
        plan_render(RenderStrategy::TileAverage, 16, 16, 8, 16, 0).unwrap_err(),
        PlanError::NoWorkers
    );
    assert_eq!(
        plan_render(RenderStrategy::ProgressiveAverage, 16, 16, 8, 16, 0).unwrap_err(),
        PlanError::NoWorkers
    );
}

#[test]
fn tile_full_needs_no_workers() {
    let plan = plan_render(RenderStrategy::TileFull, 8, 8, 8, 3, 0).unwrap();
    assert_eq!(plan.jobs, vec![job(0, 0, 8, 8, 3)]);
}

#[test]
fn every_pixel_gets_fan_out_times_job_samples() {
    let strategies = [
        RenderStrategy::ProgressiveAverage,
        RenderStrategy::TileFull,
        RenderStrategy::TileAverage,
    ];
    for strategy in strategies {
        for tile in [1u32, 2, 3, 5, 8, 13, 64] {
            for workers in [1u32, 2, 3, 7] {
                let (w, h, s): (u32, u32, u32) = (13, 9, 10);
                let plan = plan_render(strategy, w, h, tile, s, workers).unwrap();
                let expected = plan.jobs_per_tile as u64 * plan.samples_per_job as u64;
                for y in 0..h {
                    for x in 0..w {
                        assert_eq!(samples_at(&plan, x, y), expected);
                        assert_eq!(jobs_at(&plan, x, y), plan.jobs_per_tile);
                    }
                }
                assert!(expected >= s as u64);
                assert!(expected <= (s + plan.jobs_per_tile - 1) as u64);
            }
        }
    }
}

#[test]
fn samples_never_fall_short_of_the_request() {
    let plan = plan_render(RenderStrategy::TileAverage, 8, 8, 4, 17, 4).unwrap();
    assert_eq!(plan.samples_per_job, 5);
    assert_eq!(samples_at(&plan, 3, 3), 20);
    let exact = plan_render(RenderStrategy::TileAverage, 8, 8, 4, 16, 4).unwrap();
    assert_eq!(exact.samples_per_job, 4);
    assert_eq!(samples_at(&exact, 3, 3), 16);
}

#[test]
fn single_worker_matches_sequential_render() {
    let strategies = [
        RenderStrategy::ProgressiveAverage,
        RenderStrategy::TileFull,
        RenderStrategy::TileAverage,
    ];
    for strategy in strategies {
        let plan = plan_render(strategy, 6, 4, 64, 9, 1).unwrap();
        assert_eq!(plan.jobs, vec![sequential_job(6, 4, 9)]);
        assert_eq!(plan.jobs_per_tile, 1);
    }
}

#[test]
fn tile_average_and_tile_full_cover_the_same_tiles() {
    let full = plan_render(RenderStrategy::TileFull, 16, 16, 8, 16, 4).unwrap();
    let average = plan_render(RenderStrategy::TileAverage, 16, 16, 8, 16, 4).unwrap();
    assert_eq!(full.jobs.len(), 4);
    assert_eq!(average.jobs.len(), 16);
    for y in 0..16 {
        for x in 0..16 {
            assert_eq!(samples_at(&full, x, y), 16);
            assert_eq!(samples_at(&average, x, y), 16);
        }
    }
}

#[test]
fn scanlines_run_top_to_bottom_and_left_to_right() {
    let j = job(2, 1, 5, 4, 1);
    assert_eq!(j.row_count(), 3);
    assert_eq!(
        j.scanline(0),
        vec![Pixel { x: 2, y: 3 }, Pixel { x: 3, y: 3 }, Pixel { x: 4, y: 3 }]
    );
    assert_eq!(
        j.scanline(2),
        vec![Pixel { x: 2, y: 1 }, Pixel { x: 3, y: 1 }, Pixel { x: 4, y: 1 }]
    );
}

#[test]
fn empty_job_has_no_rows() {
    assert_eq!(job(3, 3, 3, 3, 1).row_count(), 0);
    assert_eq!(job(0, 0, 0, 2, 1).scanline(0), vec![]);
}

#[test]
fn framebuffer_stores_top_row_first() {
    assert_eq!(framebuffer_index(4, 3, Pixel { x: 0, y: 2 }), 0);
    assert_eq!(framebuffer_index(4, 3, Pixel { x: 3, y: 2 }), 3);
    assert_eq!(framebuffer_index(4, 3, Pixel { x: 0, y: 0 }), 8);
    assert_eq!(framebuffer_index(4, 3, Pixel { x: 3, y: 0 }), 11);
    assert_eq!(framebuffer_index(400, 225, Pixel { x: 17, y: 100 }), 124 * 400 + 17);
}

#[test]
fn framebuffer_index_fits_for_the_largest_image() {
    let m = u32::MAX;
    assert_eq!(
        framebuffer_index(m, m, Pixel { x: m - 1, y: 0 }),
        (m as u64 - 1) * m as u64 + (m as u64 - 1)
    );
}

#[test]
fn sequential_scan_order_is_framebuffer_order() {
    let (w, h) = (5u32, 4u32);
    let j = sequential_job(w, h, 1);
    let mut next = 0u64;
    for k in 0..j.row_count() {
        for p in j.scanline(k) {
            assert_eq!(framebuffer_index(w, h, p), next);
            next += 1;
        }
    }
    assert_eq!(next, 20);
}

#[test]
fn framebuffer_places_are_distinct() {
    let (w, h) = (7u32, 5u32);
    let mut seen = vec![false; 35];
    for y in 0..h {
        for x in 0..w {
            let i = framebuffer_index(w, h, Pixel { x, y }) as usize;
            assert!(!seen[i]);
            seen[i] = true;
        }
    }
    assert!(seen.iter().all(|s| *s));
}

#[test]
fn jobs_are_dealt_to_workers_in_turn() {
    assert_eq!(worker_for_job(0, 4), 0);
    assert_eq!(worker_for_job(5, 4), 1);
    assert_eq!(worker_for_job(7, 4), 3);
    assert_eq!(worker_for_job(9, 1), 0);
}

#[test]
fn coordinator_finishes_after_every_worker_is_done() {
    let mut c = Coordinator::new(4, 3, 2);
    assert!(!c.finished());
    assert!(matches!(c.step(WorkerEvent::Idle), CoordinatorAction::Continue));
    assert!(matches!(c.step(WorkerEvent::Done), CoordinatorAction::Continue));
    assert_eq!(c.completed, 1);
    assert!(!c.finished());
    assert!(matches!(c.step(WorkerEvent::Done), CoordinatorAction::Finish));
    assert!(c.finished());
}

#[test]
fn coordinator_without_workers_is_finished_at_once() {
    assert!(Coordinator::new(4, 3, 0).finished());
}

#[test]
fn coordinator_maps_scanline_to_framebuffer_places() {
    let mut c = Coordinator::new(4, 3, 1);
    let row = job(1, 0, 4, 2, 1).scanline(0);
    match c.step(WorkerEvent::Scanline(row)) {
        CoordinatorAction::Accumulate(places) => assert_eq!(places, vec![5, 6, 7]),
        other => panic!("{:?}", other),
    }
    assert_eq!(c.completed, 0);
}

#[test]
fn every_job_of_a_plan_lies_inside_the_image() {
    let plan = plan_render(RenderStrategy::TileAverage, 21, 13, 8, 5, 3).unwrap();
    assert_eq!(plan.jobs.len(), 3 * 2 * 3);
    for job in plan.jobs.iter() {
        assert!(job.bottom_left.x < job.top_right.x && job.top_right.x <= 21);
        assert!(job.bottom_left.y < job.top_right.y && job.top_right.y <= 13);
        assert_eq!(job.samples_per_pixel, 2);
        for k in 0..job.row_count() {
            for p in job.scanline(k) {
                assert!(p.x < 21 && p.y < 13);
            }
        }
    }
}

#[test]
fn accumulating_a_whole_plan_reaches_every_place_fan_out_times() {
    let (w, h) = (10u32, 6u32);
    let plan = plan_render(RenderStrategy::TileAverage, w, h, 4, 7, 2).unwrap();
    let mut contributions = vec![0u32; 60];
    let mut coordinator = Coordinator::new(w, h, 1);
    for job in plan.jobs.iter() {
        for k in 0..job.row_count() {
            match coordinator.step(WorkerEvent::Scanline(job.scanline(k))) {
                CoordinatorAction::Accumulate(places) => {
                    for place in places {
                        contributions[place as usize] += 1;
                    }
                }
                other => panic!("{:?}", other),
            }
        }
    }
    assert!(contributions.iter().all(|n| *n == plan.jobs_per_tile));
    assert!(matches!(coordinator.step(WorkerEvent::Done), CoordinatorAction::Finish));
}

#[test]
fn this_machine_has_at_least_one_worker() {
    assert!(worker_count() >= 1);
}

#[test]
fn planning_here_is_planning_for_the_workers_found() {
    let (workers, plan) = plan_render_here(RenderStrategy::TileAverage, 20, 10, 8, 16);
    let plan = plan.unwrap();
    assert!(workers >= 1);
    let expected = plan_render(RenderStrategy::TileAverage, 20, 10, 8, 16, workers).unwrap();
    assert_eq!(plan.jobs, expected.jobs);
    assert_eq!(plan.jobs_per_tile, workers);
    assert_eq!(plan.samples_per_job, (16 + workers - 1) / workers);
    assert_eq!(samples_at(&plan, 19, 9), workers as u64 * plan.samples_per_job as u64);
}

#[test]
fn planning_here_refuses_only_a_zero_tile_size() {
    let (_, refused) = plan_render_here(RenderStrategy::TileFull, 20, 10, 0, 16);
    assert_eq!(refused.unwrap_err(), PlanError::ZeroTileSize);
    let (_, plan) = plan_render_here(RenderStrategy::ProgressiveAverage, 20, 10, 0, 16);
    assert!(plan.is_ok());
}

#[test]
fn one_worker_for_each_processor() {
    assert_eq!(workers_for(1), 1);
    assert_eq!(workers_for(8), 8);
    assert_eq!(workers_for(0), 0);
    assert_eq!(workers_for(u32::MAX as usize), u32::MAX);
}

#[test]
fn more_processors_than_fit_give_the_greatest_count() {
    if usize::BITS > 32 {
        assert_eq!(workers_for(usize::MAX), u32::MAX);
        assert_eq!(workers_for((u32::MAX as usize).saturating_add(1)), u32::MAX);
    }
}
