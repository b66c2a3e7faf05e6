use vstd::prelude::*;
use crate::tracker::PipelineSlot;

verus! {

/// One GPU object that a frame's work reads, kept alive until the frame has finished.
#[derive(Debug, PartialEq, Eq)]
pub enum UsedObject<H> {
    Buffer(H),
    Image(H),
    DescriptorSet(H),
    Pipeline(H),
}

/// Layout that the presented image is left in at the end of a frame.
#[derive(Debug, Clone, Copy, PartialEq, Eq, Structural)]
pub enum BackbufferLayout {
    /// Nothing was drawn: contents are undefined.
    Undefined,
    /// Written by the post-processing compute pass.
    General,
}

/// What a frame hands to presentation.
#[derive(Debug, PartialEq, Eq)]
pub enum FrameConfig<H> {
    /// Every subsystem is ready: present the post-processing output, keeping these
    /// objects alive until the frame has finished.
    Present(Vec<UsedObject<H>>),
    /// Some subsystem is not ready: present the plain backbuffer, untouched.
    Blank,
}

impl<H> FrameConfig<H> {
    /// The layout the presented image is in.
    pub fn layout(&self) -> (r: BackbufferLayout)
        ensures
            r == (if self is Present {
                BackbufferLayout::General
            } else {
                BackbufferLayout::Undefined
            }),
    {
        match self {
            FrameConfig::Present(_) => BackbufferLayout::General,
            FrameConfig::Blank => BackbufferLayout::Undefined,
        }
    }

    /// The objects this frame keeps alive.
    pub fn used_objects(&self) -> (r: &[UsedObject<H>])
        ensures
            r@ == match self {
                FrameConfig::Present(v) => v@,
                FrameConfig::Blank => Seq::<UsedObject<H>>::empty(),
            },
    {
        match self {
            FrameConfig::Present(v) => v.as_slice(),
            FrameConfig::Blank => &[],
        }
    }
}

/// What the shell pass reads: its graphics pipeline, the mesh's two buffers, the resolve
/// target, and the multisampled color and depth targets.
pub fn shell_used_objects<H>(
    pipeline: H,
    vertex_buffer: H,
    index_buffer: H,
    resolve_image: H,
    backbuffer_image: H,
    depth_image: H,
) -> (r: Vec<UsedObject<H>>)
    ensures
        r@ == seq![
            UsedObject::Pipeline(pipeline),
            UsedObject::Buffer(vertex_buffer),
            UsedObject::Buffer(index_buffer),
            UsedObject::Image(resolve_image),
            UsedObject::Image(backbuffer_image),
            UsedObject::Image(depth_image),
        ],
{
    let mut r: Vec<UsedObject<H>> = Vec::new();
    r.push(UsedObject::Pipeline(pipeline));
    r.push(UsedObject::Buffer(vertex_buffer));
    r.push(UsedObject::Buffer(index_buffer));
    r.push(UsedObject::Image(resolve_image));
    r.push(UsedObject::Image(backbuffer_image));
    r.push(UsedObject::Image(depth_image));
    proof {
        assert(r@ =~= seq![
            UsedObject::Pipeline(pipeline),
            UsedObject::Buffer(vertex_buffer),
            UsedObject::Buffer(index_buffer),
            UsedObject::Image(resolve_image),
            UsedObject::Image(backbuffer_image),
            UsedObject::Image(depth_image),
        ]);
    }
    r
}

/// What the post-processing pass reads and writes: its pipeline and descriptor set, the
/// shell pass's resolved color image and the depth image it samples, and its output.
pub fn post_used_objects<H>(
    pipeline: H,
    descriptor_set: H,
    in_image: H,
    in_depth_image: H,
    out_image: H,
) -> (r: Vec<UsedObject<H>>)
    ensures
        r@ == seq![
            UsedObject::Pipeline(pipeline),
            UsedObject::DescriptorSet(descriptor_set),
            UsedObject::Image(in_image),
            UsedObject::Image(in_depth_image),
            UsedObject::Image(out_image),
        ],
{
    let mut r: Vec<UsedObject<H>> = Vec::new();
    r.push(UsedObject::Pipeline(pipeline));
    r.push(UsedObject::DescriptorSet(descriptor_set));
    r.push(UsedObject::Image(in_image));
    r.push(UsedObject::Image(in_depth_image));
    r.push(UsedObject::Image(out_image));
    proof {
        assert(r@ =~= seq![
            UsedObject::Pipeline(pipeline),
            UsedObject::DescriptorSet(descriptor_set),
            UsedObject::Image(in_image),
            UsedObject::Image(in_depth_image),
            UsedObject::Image(out_image),
        ]);
    }
    r
}

/// Workgroups of the post-processing dispatch: one per 16 x 16 pixel tile, whole tiles only.
pub fn dispatch_groups(width: u32, height: u32) -> (r: (u32, u32, u32))
    ensures
        r == (width / 16, height / 16, 1u32),
{
    (width / 16, height / 16, 1)
}

/// The shell resolution (planes per centimetre) after this tick's key presses: one less,
/// but never below one, when lowering; one more when raising; lowering first when both.
pub fn adjust_resolution(resolution: u32, lower: bool, raise: bool) -> (r: u32)
    requires
        raise ==> resolution < u32::MAX,
    ensures
        r == (if lower {
            if resolution > 1 {
                resolution - 1
            } else {
                1
            }
        } else {
            resolution as int
        }) + (if raise {
            1int
        } else {
            0int
        }),
{
    let mut r = resolution;
    if lower {
        r = if r > 1 {
            r - 1
        } else {
            1
        };
    }
    if raise {
        r = r + 1;
    }
    r
}

/// Composes one frame from the shell pass and the post-processing pass.
///
/// Only when both passes have their pipeline does anything get recorded: then the frame's
/// own descriptor set and depth image come first, then what the shell pass uses, then what
/// post-processing uses, and the post-processing output is presented. Otherwise neither
/// `record` closure is called and a blank frame is presented; a frame is produced either way.
pub fn render_frame<H, S, P, FS: FnOnce(&S) -> Vec<UsedObject<H>>, FP: FnOnce(
    &P,
) -> Vec<UsedObject<H>>>(
    shell: &PipelineSlot<S>,
    post: &PipelineSlot<P>,
    frame_descriptor_set: H,
    depth_image: H,
    record_shell: FS,
    record_post: FP,
) -> (r: FrameConfig<H>)
    requires
        match (shell.current(), post.current()) {
            (Some(s), Some(p)) => record_shell.requires((&s,)) && record_post.requires((&p,)),
            _ => true,
        },
    ensures
        match (shell.current(), post.current()) {
            (Some(s), Some(p)) => exists|us: Vec<UsedObject<H>>, up: Vec<UsedObject<H>>|
                record_shell.ensures((&s,), us) && record_post.ensures((&p,), up) && (r matches FrameConfig::Present(v) && v@ == seq![
                    UsedObject::DescriptorSet(frame_descriptor_set),
                    UsedObject::Image(depth_image),
                ] + us@ + up@),
            _ => r is Blank,
        },
{
    if !(shell.is_ready() && post.is_ready()) {
        return FrameConfig::Blank;
    }
    let mut used: Vec<UsedObject<H>> = Vec::new();
    used.push(UsedObject::DescriptorSet(frame_descriptor_set));
    used.push(UsedObject::Image(depth_image));
    let mut shell_used = shell.render(record_shell);
    let mut post_used = post.render(record_post);
    let ghost us = shell_used;
    let ghost up = post_used;
    used.append(&mut shell_used);
    used.append(&mut post_used);
    proof {
        assert(used@ =~= seq![
            UsedObject::DescriptorSet(frame_descriptor_set),
            UsedObject::Image(depth_image),
        ] + us@ + up@);
    }
    FrameConfig::Present(used)
}

} // verus!
