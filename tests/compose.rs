use std::cell::Cell;

use furry_render::render::{
    adjust_resolution, dispatch_groups, post_used_objects, render_frame, shell_used_objects, BackbufferLayout,
    FrameConfig, UsedObject,
};
use furry_render::tracker::{PipelineSlot, RebuildOutcome};

#[test]
fn dispatch_covers_whole_tiles() {
    assert_eq!(dispatch_groups(2560, 1440), (160, 90, 1));
    assert_eq!(dispatch_groups(15, 33), (0, 2, 1));
    assert_eq!(dispatch_groups(0, 0), (0, 0, 1));
}

#[test]
fn shell_pass_lists_what_it_reads() {
    assert_eq!(
        shell_used_objects(0, 1, 2, 3, 4, 5),
        vec![
            UsedObject::Pipeline(0),
            UsedObject::Buffer(1),
            UsedObject::Buffer(2),
            UsedObject::Image(3),
            UsedObject::Image(4),
            UsedObject::Image(5),
        ]
    );
}

#[test]
fn post_pass_lists_what_it_reads() {
    assert_eq!(
        post_used_objects(1, 2, 3, 4, 5),
        vec![
            UsedObject::Pipeline(1),
            UsedObject::DescriptorSet(2),
            UsedObject::Image(3),
            UsedObject::Image(4),
            UsedObject::Image(5),
        ]
    );
}

#[test]
fn blank_frame_until_both_passes_are_ready() {
    let mut shell: PipelineSlot<u32> = PipelineSlot::new();
    let post: PipelineSlot<u32> = PipelineSlot::new();
    let calls = Cell::new(0);
    let _: RebuildOutcome<()> = shell.maybe_rebuild(true, || Ok(1));
    let frame = render_frame(
        &shell,
        &post,
        100,
        101,
        |_| {
            calls.set(calls.get() + 1);
            vec![UsedObject::Buffer(1)]
        },
        |_| {
            calls.set(calls.get() + 1);
            vec![UsedObject::Pipeline(2)]
        },
    );
    assert_eq!(frame, FrameConfig::Blank);
    assert_eq!(frame.layout(), BackbufferLayout::Undefined);
    assert!(frame.used_objects().is_empty());
    assert_eq!(calls.get(), 0);
}

#[test]
fn only_shell_ready_records_nothing() {
    let mut shell: PipelineSlot<u32> = PipelineSlot::new();
    let post: PipelineSlot<u32> = PipelineSlot::new();
    let _: RebuildOutcome<()> = shell.maybe_rebuild(true, || Ok(1));
    let calls = Cell::new(0);
    let frame = render_frame(
        &shell,
        &post,
        100,
        101,
        |p| {
            calls.set(calls.get() + 1);
            shell_used_objects(*p, 1, 2, 3, 4, 5)
        },
        |_| {
            calls.set(calls.get() + 1);
            Vec::new()
        },
    );
    assert_eq!(frame, FrameConfig::Blank);
    assert_eq!(calls.get(), 0);
}

#[test]
fn ready_frame_holds_both_pipelines() {
    let mut shell: PipelineSlot<u32> = PipelineSlot::new();
    let mut post: PipelineSlot<u32> = PipelineSlot::new();
    let _: RebuildOutcome<()> = shell.maybe_rebuild(true, || Ok(7));
    let _: RebuildOutcome<()> = post.maybe_rebuild(true, || Ok(8));
    let frame = render_frame(
        &shell,
        &post,
        100,
        101,
        |p| shell_used_objects(*p, 1, 2, 3, 4, 101),
        |p| post_used_objects(*p, 9, 3, 101, 10),
    );
    let used = frame.used_objects();
    assert_eq!(used.len(), 2 + 6 + 5);
    assert!(used.contains(&UsedObject::Pipeline(7)));
    assert!(used.contains(&UsedObject::Pipeline(8)));
    assert_eq!(used[2], UsedObject::Pipeline(7));
}

#[test]
fn ready_frame_keeps_every_pass_objects() {
    let mut shell: PipelineSlot<u32> = PipelineSlot::new();
    let mut post: PipelineSlot<u32> = PipelineSlot::new();
    let _: RebuildOutcome<()> = shell.maybe_rebuild(true, || Ok(7));
    let _: RebuildOutcome<()> = post.maybe_rebuild(true, || Ok(8));
    let frame = render_frame(
        &shell,
        &post,
        100,
        101,
        |p| vec![UsedObject::Pipeline(*p), UsedObject::Buffer(1)],
        |p| vec![UsedObject::Pipeline(*p)],
    );
    assert_eq!(frame.layout(), BackbufferLayout::General);
    assert_eq!(
        frame.used_objects(),
        &[
            UsedObject::DescriptorSet(100),
            UsedObject::Image(101),
            UsedObject::Pipeline(7),
            UsedObject::Buffer(1),
            UsedObject::Pipeline(8),
        ]
    );
}

#[test]
fn resolution_moves_by_one_and_stays_positive() {
    assert_eq!(adjust_resolution(128, true, false), 127);
    assert_eq!(adjust_resolution(128, false, true), 129);
    assert_eq!(adjust_resolution(1, true, false), 1);
    assert_eq!(adjust_resolution(1, true, true), 2);
    assert_eq!(adjust_resolution(5, false, false), 5);
}
