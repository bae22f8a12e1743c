use uengine::application::RunState;
use uengine::ecs::archetype::{ArchetypeId, Archetypes};
use uengine::ecs::commands::CommandQueue;
use uengine::ecs::component::ComponentId;
use uengine::ecs::storage::TableId;

#[test]
fn root_archetype_is_never_reused() {
    let mut archetypes = Archetypes::new();
    let a = archetypes.get_or_insert_archetype(TableId::new(0), Vec::new(), Vec::new());
    assert_eq!(a, ArchetypeId::new(1));
    let b = archetypes.get_or_insert_archetype(TableId::new(0), Vec::new(), Vec::new());
    assert_eq!(b, a);
    assert_eq!(archetypes.len(), 2);
    let c = archetypes.get_or_insert_archetype(TableId::new(0), vec![ComponentId::new(3)], vec![ComponentId::new(3)]);
    assert_eq!(c, ArchetypeId::new(2));
    assert_eq!(archetypes.get_archetype(c).component_ids(), &[ComponentId::new(3)][..]);
}

#[test]
fn command_queue_applies_in_order() {
    let mut queue = CommandQueue::new();
    queue.push(1);
    queue.push(2);
    queue.push(3);
    let (start, batch) = queue.begin_apply();
    assert_eq!(start, 0);
    assert_eq!(batch, vec![1, 2, 3]);
    queue.end_apply(start);
    let (_, again) = queue.begin_apply();
    assert!(again.is_empty());
}

#[test]
fn command_queue_keeps_the_rest_after_a_failure() {
    let mut queue = CommandQueue::new();
    queue.push(1);
    queue.push(2);
    queue.push(3);
    let (start, batch) = queue.begin_apply();
    // the first command fails
    queue.on_panic(start, batch[1..].to_vec());
    let (_, rest) = queue.begin_apply();
    assert_eq!(rest, vec![2, 3]);
}

#[test]
fn command_queue_nested_application() {
    let mut queue = CommandQueue::new();
    queue.push(10);
    let (outer, batch) = queue.begin_apply();
    assert_eq!(batch, vec![10]);
    // while 10 runs it queues 20 and 30 and applies them
    queue.push(20);
    queue.push(30);
    let (inner, nested) = queue.begin_apply();
    assert_eq!(inner, 0);
    assert_eq!(nested, vec![20, 30]);
    queue.end_apply(inner);
    queue.end_apply(outer);
    let (_, left) = queue.begin_apply();
    assert!(left.is_empty());
}

#[test]
fn command_queue_keeps_commands_queued_during_a_failed_run() {
    let mut queue = CommandQueue::new();
    queue.push(1);
    queue.push(2);
    let (start, batch) = queue.begin_apply();
    // command 1 queues 5, then fails
    queue.push(5);
    queue.on_panic(start, batch[1..].to_vec());
    let (_, kept) = queue.begin_apply();
    assert_eq!(kept, vec![2, 5]);
}

#[test]
fn run_state_starts_and_stops() {
    let mut state = RunState::new();
    assert!(!state.is_running());
    state.start();
    assert!(state.is_running());
    state.stop();
    assert!(!state.is_running());
}
