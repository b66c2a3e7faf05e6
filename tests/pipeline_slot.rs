use std::cell::Cell;

use furry_render::tracker::{PipelineSlot, RebuildOutcome};
use furry_render::watched_shaders::{ShaderPoll, WatchedShaders};

fn fresh(words: Vec<u32>) -> ShaderPoll {
    ShaderPoll { loaded: true, changed: true, failed: false, content: Some(words) }
}

#[test]
fn new_slot_is_not_ready() {
    let slot: PipelineSlot<u32> = PipelineSlot::new();
    assert!(!slot.is_ready());
    assert_eq!(slot.object(), &None);
}

#[test]
fn clean_signal_builds_nothing() {
    let mut slot: PipelineSlot<u32> = PipelineSlot::new();
    let calls = Cell::new(0);
    let r: RebuildOutcome<String> = slot.maybe_rebuild(false, || {
        calls.set(calls.get() + 1);
        Ok(1)
    });
    assert_eq!(r, RebuildOutcome::Skipped);
    assert_eq!(calls.get(), 0);
    assert!(!slot.is_ready());
}

#[test]
fn dirty_signal_builds_and_replaces() {
    let mut slot: PipelineSlot<u32> = PipelineSlot::new();
    let r: RebuildOutcome<String> = slot.maybe_rebuild(true, || Ok(1));
    assert_eq!(r, RebuildOutcome::Rebuilt);
    assert!(slot.is_ready());
    let r: RebuildOutcome<String> = slot.maybe_rebuild(true, || Ok(2));
    assert_eq!(r, RebuildOutcome::Rebuilt);
    assert_eq!(slot.object(), &Some(2));
}

#[test]
fn failed_build_keeps_previous_object() {
    let mut slot: PipelineSlot<u32> = PipelineSlot::new();
    let _: RebuildOutcome<String> = slot.maybe_rebuild(true, || Ok(5));
    let before = slot.is_ready();
    let r = slot.maybe_rebuild(true, || Err("bad layout".to_string()));
    assert_eq!(r, RebuildOutcome::Failed("bad layout".to_string()));
    assert_eq!(slot.is_ready(), before);
    assert_eq!(slot.object(), &Some(5));
    let drawn = slot.render(|p| vec![*p * 10]);
    assert_eq!(drawn, vec![50]);
}

#[test]
fn failed_first_build_stays_absent() {
    let mut slot: PipelineSlot<u32> = PipelineSlot::new();
    let r = slot.maybe_rebuild(true, || Err(3u8));
    assert_eq!(r, RebuildOutcome::Failed(3u8));
    assert!(!slot.is_ready());
    assert_eq!(slot.object(), &None);
}

#[test]
fn render_before_ready_is_a_no_op() {
    let slot: PipelineSlot<u32> = PipelineSlot::new();
    let calls = Cell::new(0);
    let used: Vec<u32> = slot.render(|_| {
        calls.set(calls.get() + 1);
        vec![1, 2, 3]
    });
    assert!(used.is_empty());
    assert_eq!(calls.get(), 0);
}

#[test]
fn three_changes_in_one_tick_rebuild_once() {
    let mut reg = WatchedShaders::new();
    let s = reg.create_dependency_signal();
    reg.load_shader("vert", &s);
    reg.load_shader("frag", &s);
    reg.load_shader("comp", &s);
    reg.update_system(vec![fresh(vec![1]), fresh(vec![2]), fresh(vec![3])]);

    let mut slot: PipelineSlot<u32> = PipelineSlot::new();
    let builds = Cell::new(0);
    let r: RebuildOutcome<()> = slot.update_system(&reg, &s, || {
        builds.set(builds.get() + 1);
        Ok(builds.get())
    });
    assert_eq!(r, RebuildOutcome::Rebuilt);
    assert_eq!(builds.get(), 1);
    assert_eq!(slot.object(), &Some(1));
}

#[test]
fn update_without_signal_keeps_object() {
    let mut reg = WatchedShaders::new();
    let s = reg.create_dependency_signal();
    reg.load_shader("a", &s);
    let mut slot: PipelineSlot<u32> = PipelineSlot::new();
    let r: RebuildOutcome<()> = slot.update_system(&reg, &s, || Ok(9));
    assert_eq!(r, RebuildOutcome::Skipped);
    assert!(!slot.is_ready());
}
