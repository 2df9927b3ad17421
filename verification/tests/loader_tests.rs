use bevy_asset_preview::process_load_queue;
use bevy_asset_preview::AssetLoader;
use bevy_asset_preview::LoadPriority;
use bevy_asset_preview::LoadTask;

#[test]
fn test_submit_and_queue() {
    let mut loader = AssetLoader::new(4);
    assert_eq!(loader.queue_len(), 0);

    loader.submit("test1.png", LoadPriority::Preload);
    assert_eq!(loader.queue_len(), 1);

    loader.submit("test2.png", LoadPriority::CurrentAccess);
    assert_eq!(loader.queue_len(), 2);
}

#[test]
fn loader_test_priority_ordering() {
    let mut loader = AssetLoader::new(4);

    let id1 = loader.submit("preload.png", LoadPriority::Preload);
    let id2 = loader.submit("current.png", LoadPriority::CurrentAccess);
    let id3 = loader.submit("hotreload.png", LoadPriority::HotReload);

    let task1 = loader.pop_next().unwrap();
    assert_eq!(task1.priority, LoadPriority::CurrentAccess);
    assert_eq!(task1.task_id, id2);

    let task2 = loader.pop_next().unwrap();
    assert_eq!(task2.priority, LoadPriority::HotReload);
    assert_eq!(task2.task_id, id3);

    let task3 = loader.pop_next().unwrap();
    assert_eq!(task3.priority, LoadPriority::Preload);
    assert_eq!(task3.task_id, id1);
}

#[test]
fn test_concurrent_limit() {
    let mut loader = AssetLoader::new(2);
    assert!(loader.can_start_task());

    loader.start_task();
    assert_eq!(loader.active_tasks(), 1);
    assert!(loader.can_start_task());

    loader.start_task();
    assert_eq!(loader.active_tasks(), 2);
    assert!(!loader.can_start_task());

    loader.finish_task();
    assert_eq!(loader.active_tasks(), 1);
    assert!(loader.can_start_task());
}

#[test]
fn test_task_registration_and_cleanup() {
    let mut loader = AssetLoader::new(4);
    let task_id = loader.submit("test.png", LoadPriority::CurrentAccess);

    assert_eq!(loader.get_task_path(task_id), Some(&String::from("test.png")));

    let handle_id: u64 = 0;
    let entity: u64 = u64::MAX;
    let handle: u64 = 0;
    loader.register_task(task_id, entity, handle);

    assert_eq!(loader.get_entity_by_handle(handle_id), Some(entity));
    assert_eq!(loader.get_handle_id_by_task(task_id), Some(handle_id));

    loader.cleanup_task(task_id, handle_id);

    assert_eq!(loader.get_entity_by_handle(handle_id), None);
    assert_eq!(loader.get_handle_id_by_task(task_id), None);
    assert_eq!(loader.get_task_path(task_id), None);
}

#[test]
fn test_get_task_path() {
    let mut loader = AssetLoader::new(4);

    assert_eq!(loader.get_task_path(999), None);

    let task_id = loader.submit("test.png", LoadPriority::Preload);
    assert_eq!(loader.get_task_path(task_id), Some(&String::from("test.png")));

    let task_id2 = loader.submit("test2.png", LoadPriority::CurrentAccess);
    assert_eq!(loader.get_task_path(task_id2), Some(&String::from("test2.png")));

    assert_eq!(loader.get_task_path(task_id), Some(&String::from("test.png")));
}

#[test]
fn test_task_ordering_by_priority() {
    let task1 = LoadTask::new("test1.png", LoadPriority::Preload, 1);
    let task2 = LoadTask::new("test2.png", LoadPriority::CurrentAccess, 2);
    assert!(task2 > task1);
}

#[test]
fn test_task_ordering_by_id_when_same_priority() {
    let task1 = LoadTask::new("test1.png", LoadPriority::Preload, 1);
    let task2 = LoadTask::new("test2.png", LoadPriority::Preload, 2);
    assert!(task1 > task2);
}

#[test]
fn test_asset_loader_priority_queue() {
    let mut loader = AssetLoader::default();

    loader.submit("preload1.png", LoadPriority::Preload);
    loader.submit("current1.png", LoadPriority::CurrentAccess);
    loader.submit("hotreload1.png", LoadPriority::HotReload);
    loader.submit("preload2.png", LoadPriority::Preload);
    loader.submit("current2.png", LoadPriority::CurrentAccess);

    assert_eq!(loader.queue_len(), 5);

    let task1 = loader.pop_next().unwrap();
    assert_eq!(task1.priority, LoadPriority::CurrentAccess);
    assert_eq!(task1.path, "current1.png");

    let task2 = loader.pop_next().unwrap();
    assert_eq!(task2.priority, LoadPriority::CurrentAccess);
    assert_eq!(task2.path, "current2.png");

    let task3 = loader.pop_next().unwrap();
    assert_eq!(task3.priority, LoadPriority::HotReload);
    assert_eq!(task3.path, "hotreload1.png");

    let task4 = loader.pop_next().unwrap();
    assert_eq!(task4.priority, LoadPriority::Preload);
    assert_eq!(task4.path, "preload1.png");

    let task5 = loader.pop_next().unwrap();
    assert_eq!(task5.priority, LoadPriority::Preload);
    assert_eq!(task5.path, "preload2.png");

    assert_eq!(loader.queue_len(), 0);
}

#[test]
fn test_asset_loader_concurrent_control() {
    let mut loader = AssetLoader::default();

    assert_eq!(loader.active_tasks(), 0);
    assert!(loader.can_start_task());

    loader.start_task();
    loader.start_task();
    loader.start_task();
    assert_eq!(loader.active_tasks(), 3);
    assert!(loader.can_start_task());

    loader.start_task();
    assert_eq!(loader.active_tasks(), 4);
    assert!(!loader.can_start_task());

    loader.finish_task();
    assert_eq!(loader.active_tasks(), 3);
    assert!(loader.can_start_task());
}

#[test]
fn pop_order_follows_priority_then_submission() {
    let mut loader = AssetLoader::new(4);
    let a = loader.submit("a.png", LoadPriority::Preload);
    let b = loader.submit("b.png", LoadPriority::CurrentAccess);
    let c = loader.submit("c.png", LoadPriority::HotReload);
    let d = loader.submit("d.png", LoadPriority::Preload);
    let e = loader.submit("e.png", LoadPriority::CurrentAccess);
    assert_eq!(loader.peek_next().map(|task| task.task_id), Some(b));
    let mut order = Vec::new();
    while let Some(task) = loader.pop_next() {
        order.push(task.task_id);
    }
    assert_eq!(order, vec![b, e, c, a, d]);
    assert!(loader.pop_next().is_none());
    assert!(loader.peek_next().is_none());
}

#[test]
fn task_identifiers_rise_by_one() {
    let mut loader = AssetLoader::new(1);
    assert_eq!(loader.submit("a.png", LoadPriority::Preload), 0);
    assert_eq!(loader.submit("b.png", LoadPriority::CurrentAccess), 1);
    loader.pop_next();
    assert_eq!(loader.submit("c.png", LoadPriority::HotReload), 2);
}

#[test]
fn admission_pass_fills_the_cap() {
    let mut loader = AssetLoader::new(4);
    for i in 0..5 {
        loader.submit(&format!("asset{i}.png"), LoadPriority::Preload);
    }
    let admitted = process_load_queue(&mut loader);
    let ids: Vec<u64> = admitted.iter().map(|task| task.task_id).collect();
    assert_eq!(ids, vec![0, 1, 2, 3]);
    assert_eq!(loader.active_tasks(), 4);
    assert_eq!(loader.queue_len(), 1);
    assert!(process_load_queue(&mut loader).is_empty());

    loader.finish_task();
    let admitted = process_load_queue(&mut loader);
    assert_eq!(admitted.len(), 1);
    assert_eq!(admitted[0].task_id, 4);
    assert_eq!(loader.active_tasks(), 4);
    assert_eq!(loader.queue_len(), 0);
}

#[test]
fn admission_pass_with_no_room_or_no_task() {
    let mut loader = AssetLoader::new(0);
    loader.submit("a.png", LoadPriority::CurrentAccess);
    assert!(process_load_queue(&mut loader).is_empty());
    assert_eq!(loader.queue_len(), 1);
    assert_eq!(loader.active_tasks(), 0);

    let mut idle = AssetLoader::new(3);
    assert!(process_load_queue(&mut idle).is_empty());
    assert_eq!(idle.active_tasks(), 0);
}

#[test]
fn running_count_stays_between_zero_and_the_cap() {
    let mut loader = AssetLoader::new(2);
    loader.finish_task();
    loader.finish_task();
    assert_eq!(loader.active_tasks(), 0);
    loader.start_task();
    loader.start_task();
    loader.start_task();
    assert_eq!(loader.active_tasks(), 2);
    assert_eq!(loader.max_concurrent(), 2);
    loader.finish_task();
    loader.finish_task();
    loader.finish_task();
    assert_eq!(loader.active_tasks(), 0);
}

#[test]
fn remove_task_path_forgets_only_that_task() {
    let mut loader = AssetLoader::new(4);
    let a = loader.submit("a.png", LoadPriority::Preload);
    let b = loader.submit("b.png", LoadPriority::Preload);
    loader.remove_task_path(a);
    assert_eq!(loader.get_task_path(a), None);
    assert_eq!(loader.get_task_path(b), Some(&String::from("b.png")));
    assert_eq!(loader.queue_len(), 2);
}

#[test]
fn spawn_load_task_carries_the_task_over() {
    let loader = AssetLoader::new(4);
    let task = LoadTask::new("models/ship.png", LoadPriority::HotReload, 7);
    let copy = task.clone();
    assert_eq!(copy.path, "models/ship.png");
    assert!(copy == task);
    let active = loader.spawn_load_task(task, 42);
    assert_eq!(active.task_id, 7);
    assert_eq!(active.path, "models/ship.png");
    assert_eq!(active.handle, 42);
    assert_eq!(active.priority, LoadPriority::HotReload);
}

#[test]
fn tasks_compare_by_priority_then_by_identifier() {
    let early = LoadTask::new("a.png", LoadPriority::HotReload, 1);
    let late = LoadTask::new("b.png", LoadPriority::HotReload, 2);
    let urgent = LoadTask::new("c.png", LoadPriority::CurrentAccess, 3);
    assert_eq!(early.cmp(&late), std::cmp::Ordering::Greater);
    assert_eq!(late.cmp(&early), std::cmp::Ordering::Less);
    assert_eq!(early.cmp(&early), std::cmp::Ordering::Equal);
    assert_eq!(urgent.cmp(&early), std::cmp::Ordering::Greater);
    assert!(early.served_before(&late));
    assert!(!late.served_before(&early));
    assert!(urgent.served_before(&early));
    assert!(!early.served_before(&early));
}
