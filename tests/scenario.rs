use std::cell::Cell;

use furry_render::frames::FrameScheduler;
use furry_render::tracker::{PipelineSlot, RebuildOutcome};
use furry_render::watched_shaders::{ShaderPoll, WatchedShaders};

#[test]
fn reload_cycle_with_two_frames_in_flight() {
    let mut reg = WatchedShaders::new();
    let sig = reg.create_dependency_signal();
    assert!(reg.load_shader("a.shader", &sig));
    let mut slot: PipelineSlot<String> = PipelineSlot::new();
    let mut ring: FrameScheduler<(), String> = FrameScheduler::new(vec![(), ()]);
    let builds = Cell::new(0);

    // Tick 1: the asset loads.
    assert!(ring.begin_frame().is_empty());
    reg.update_system(vec![ShaderPoll {
        loaded: true,
        changed: false,
        failed: false,
        content: Some(vec![1]),
    }]);
    assert!(reg.is_dependency_signaled(&sig));
    let r: RebuildOutcome<()> = slot.update_system(&reg, &sig, || {
        builds.set(builds.get() + 1);
        Ok("pipeline-1".to_string())
    });
    assert_eq!(r, RebuildOutcome::Rebuilt);
    assert!(slot.is_ready());
    ring.submit_frame(slot.render(|p| vec![p.clone()]));

    // Tick 2: nothing changes.
    assert!(ring.begin_frame().is_empty());
    reg.update_system(vec![ShaderPoll {
        loaded: true,
        changed: false,
        failed: false,
        content: Some(vec![1]),
    }]);
    assert!(!reg.is_dependency_signaled(&sig));
    let r: RebuildOutcome<()> = slot.update_system(&reg, &sig, || {
        builds.set(builds.get() + 1);
        Ok("never".to_string())
    });
    assert_eq!(r, RebuildOutcome::Skipped);
    assert_eq!(builds.get(), 1);
    ring.submit_frame(slot.render(|p| vec![p.clone()]));

    // Tick 3: the file is edited and recompiles.
    let released = ring.begin_frame();
    assert_eq!(released, vec!["pipeline-1".to_string()]);
    reg.update_system(vec![ShaderPoll {
        loaded: true,
        changed: true,
        failed: false,
        content: Some(vec![2]),
    }]);
    assert!(reg.is_dependency_signaled(&sig));
    let r: RebuildOutcome<()> = slot.update_system(&reg, &sig, || {
        builds.set(builds.get() + 1);
        Ok("pipeline-2".to_string())
    });
    assert_eq!(r, RebuildOutcome::Rebuilt);
    assert_eq!(builds.get(), 2);
    assert_eq!(slot.object(), &Some("pipeline-2".to_string()));
    assert_eq!(reg.get_shader("a.shader"), Some(vec![2]));
}
