use twitchmotes::download::{download_tasks, DownloadScheduler, DownloadTask};
use twitchmotes::records::{EmoteOrigin, EmoteRecord};

fn task(asset_id: &str, identifier: u32) -> DownloadTask {
    DownloadTask {
        asset_id: asset_id.to_string(),
        identifier,
    }
}

#[test]
fn download_tasks_pair_asset_ids_with_identifiers() {
    let records = vec![
        EmoteRecord {
            name: "Kappa".to_string(),
            identifier: 0x100,
            origin: EmoteOrigin::GlobalRemote,
            remote_asset_id: Some("g1".to_string()),
        },
        EmoteRecord {
            name: "Chan".to_string(),
            identifier: 0x101,
            origin: EmoteOrigin::ChannelRemote,
            remote_asset_id: Some("c1".to_string()),
        },
    ];
    let tasks = download_tasks(&records);
    assert_eq!(tasks.len(), 2);
    assert_eq!(tasks[0].asset_id, "g1");
    assert_eq!(tasks[0].identifier, 0x100);
    assert_eq!(tasks[1].asset_id, "c1");
    assert_eq!(tasks[1].identifier, 0x101);
}

#[test]
fn scheduler_hands_out_tasks_in_order_up_to_the_bound() {
    let tasks = vec![task("a", 1), task("b", 2), task("c", 3)];
    let mut scheduler = DownloadScheduler::new(tasks, 2);
    let first = scheduler.start_next().unwrap();
    assert_eq!(first.asset_id, "a");
    let second = scheduler.start_next().unwrap();
    assert_eq!(second.asset_id, "b");
    // both slots taken: nothing more is handed out
    assert!(scheduler.start_next().is_none());
    assert_eq!(scheduler.in_flight_now(), 2);
    assert_eq!(scheduler.pending_now(), 1);
    // a completion frees a slot
    scheduler.finish_one();
    let third = scheduler.start_next().unwrap();
    assert_eq!(third.asset_id, "c");
    assert_eq!(scheduler.pending_now(), 0);
    assert!(!scheduler.is_done());
    scheduler.finish_one();
    scheduler.finish_one();
    assert!(scheduler.is_done());
}

#[test]
fn scheduler_never_exceeds_the_bound_while_draining() {
    let limit: usize = 3;
    let tasks: Vec<DownloadTask> = (0..10u32).map(|i| task(&format!("t{}", i), i)).collect();
    let mut scheduler = DownloadScheduler::new(tasks, limit);
    let mut handed_out: Vec<String> = Vec::new();
    while !scheduler.is_done() {
        // fill every free slot, checking the bound at each step
        while let Some(t) = scheduler.start_next() {
            handed_out.push(t.asset_id);
            assert!(scheduler.in_flight_now() <= limit);
        }
        assert!(scheduler.in_flight_now() <= limit);
        assert!(scheduler.in_flight_now() > 0);
        // one fetch finishes
        scheduler.finish_one();
    }
    // every task was handed out exactly once, in order
    let expected: Vec<String> = (0..10u32).map(|i| format!("t{}", i)).collect();
    assert_eq!(handed_out, expected);
}

#[test]
fn scheduler_with_bound_one_serializes_downloads() {
    let tasks = vec![task("a", 1), task("b", 2)];
    let mut scheduler = DownloadScheduler::new(tasks, 1);
    let first = scheduler.start_next().unwrap();
    assert_eq!(first.asset_id, "a");
    assert!(scheduler.start_next().is_none());
    scheduler.finish_one();
    let second = scheduler.start_next().unwrap();
    assert_eq!(second.asset_id, "b");
    assert!(scheduler.start_next().is_none());
    scheduler.finish_one();
    assert!(scheduler.is_done());
}

#[test]
fn scheduler_over_no_tasks_is_immediately_done() {
    let mut scheduler = DownloadScheduler::new(Vec::new(), 4);
    assert!(scheduler.is_done());
    assert!(scheduler.start_next().is_none());
    assert_eq!(scheduler.in_flight_now(), 0);
}
