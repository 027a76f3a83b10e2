use mandelbrot::config::RenderConfig;
use mandelbrot::scheduler::Scheduler;

/// Drives a scheduler to the end, letting rows come back in the order that
/// `pick` chooses among those in flight, and returns how often each row was
/// handed out together with the largest number of rows seen in flight.
fn drive(height: u32, limit: u32, pick: fn(usize, usize) -> usize) -> (Vec<u32>, u32) {
    let mut scheduler = Scheduler::new(height, limit);
    let mut dispatches = vec![0u32; height as usize];
    let mut in_flight: Vec<u32> = Vec::new();
    let mut peak = 0;
    while let Some(row) = scheduler.launch_next() {
        dispatches[row as usize] += 1;
        in_flight.push(row);
    }
    peak = peak.max(scheduler.rows_in_flight());
    let mut step = 0;
    while !scheduler.is_finished() {
        assert!(scheduler.rows_in_flight() > 0);
        assert_eq!(scheduler.rows_in_flight() as usize, in_flight.len());
        let index = pick(step, in_flight.len());
        in_flight.swap_remove(index);
        if let Some(row) = scheduler.on_completion() {
            dispatches[row as usize] += 1;
            in_flight.push(row);
        }
        peak = peak.max(scheduler.rows_in_flight());
        step += 1;
    }
    assert!(in_flight.is_empty());
    (dispatches, peak)
}

fn oldest(_step: usize, _len: usize) -> usize {
    0
}

fn newest(_step: usize, len: usize) -> usize {
    len - 1
}

fn scattered(step: usize, len: usize) -> usize {
    (step * 7 + 3) % len
}

#[test]
fn every_row_is_dispatched_exactly_once() {
    for (height, limit) in [(1u32, 1u32), (1, 5), (7, 1), (7, 3), (7, 7), (7, 20), (100, 3), (64, 63)] {
        for pick in [oldest as fn(usize, usize) -> usize, newest, scattered] {
            let (dispatches, peak) = drive(height, limit, pick);
            assert_eq!(dispatches.len(), height as usize);
            assert!(dispatches.iter().all(|&count| count == 1));
            assert_eq!(dispatches.iter().sum::<u32>(), height);
            assert_eq!(peak, limit.min(height));
        }
    }
}

#[test]
fn rows_are_handed_out_in_order() {
    let mut scheduler = Scheduler::new(6, 2);
    assert_eq!(scheduler.launch_next(), Some(0));
    assert_eq!(scheduler.launch_next(), Some(1));
    assert_eq!(scheduler.launch_next(), None);
    assert_eq!(scheduler.on_completion(), Some(2));
    assert_eq!(scheduler.on_completion(), Some(3));
    assert_eq!(scheduler.on_completion(), Some(4));
    assert_eq!(scheduler.on_completion(), Some(5));
    assert_eq!(scheduler.rows_dispatched(), 6);
    assert_eq!(scheduler.on_completion(), None);
    assert!(!scheduler.is_finished());
    assert_eq!(scheduler.rows_in_flight(), 1);
    assert_eq!(scheduler.on_completion(), None);
    assert!(scheduler.is_finished());
    assert_eq!(scheduler.rows_completed(), 6);
    assert_eq!(scheduler.rows_in_flight(), 0);
    assert_eq!(scheduler.launch_next(), None);
}

#[test]
fn four_threads_keep_three_rows_in_flight() {
    let config = RenderConfig { width: 8, height: 1000, samples_per_pixel: 1, threads: 4 };
    assert_eq!(config.validate(), Ok(()));
    let limit = config.worker_limit();
    assert_eq!(limit, 3);
    let mut scheduler = Scheduler::new(config.height, limit);
    assert_eq!(scheduler.limit(), 3);
    while scheduler.launch_next().is_some() {
        assert!(scheduler.rows_in_flight() <= 3);
    }
    assert_eq!(scheduler.rows_in_flight(), 3);
    assert_eq!(scheduler.rows_dispatched(), 3);
    let mut completed = 0;
    while !scheduler.is_finished() {
        let undispatched = 1000 - scheduler.rows_dispatched();
        let next = scheduler.on_completion();
        completed += 1;
        assert!(scheduler.rows_in_flight() <= 3);
        if undispatched > 0 {
            assert_eq!(next, Some(1000 - undispatched));
            assert_eq!(scheduler.rows_in_flight(), 3);
        } else {
            assert_eq!(next, None);
            assert_eq!(scheduler.rows_in_flight(), 1000 - completed);
        }
    }
    assert_eq!(completed, 1000);
    assert_eq!(scheduler.rows_dispatched(), 1000);
}

#[test]
fn limit_is_capped_by_the_number_of_rows() {
    let mut scheduler = Scheduler::new(2, 8);
    assert_eq!(scheduler.limit(), 2);
    assert_eq!(scheduler.launch_next(), Some(0));
    assert_eq!(scheduler.launch_next(), Some(1));
    assert_eq!(scheduler.launch_next(), None);
    assert_eq!(scheduler.on_completion(), None);
    assert_eq!(scheduler.on_completion(), None);
    assert!(scheduler.is_finished());
}

#[test]
fn nothing_to_render_is_finished_at_once() {
    let mut scheduler = Scheduler::new(0, 3);
    assert!(scheduler.is_finished());
    assert_eq!(scheduler.limit(), 0);
    assert_eq!(scheduler.launch_next(), None);
    assert_eq!(scheduler.rows_in_flight(), 0);
}

#[test]
fn completion_before_the_pool_is_full_still_backfills() {
    let mut scheduler = Scheduler::new(5, 3);
    assert_eq!(scheduler.launch_next(), Some(0));
    assert_eq!(scheduler.on_completion(), Some(1));
    assert_eq!(scheduler.rows_in_flight(), 1);
    assert_eq!(scheduler.launch_next(), Some(2));
    assert_eq!(scheduler.launch_next(), Some(3));
    assert_eq!(scheduler.launch_next(), None);
    assert_eq!(scheduler.rows_in_flight(), 3);
}

#[test]
fn largest_height_starts_at_row_zero() {
    let mut scheduler = Scheduler::new(u32::MAX, u32::MAX);
    assert_eq!(scheduler.limit(), u32::MAX);
    assert_eq!(scheduler.launch_next(), Some(0));
    assert_eq!(scheduler.launch_next(), Some(1));
    assert_eq!(scheduler.rows_in_flight(), 2);
}
