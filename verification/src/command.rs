//! What the device is asked to do.
//!
//! The resource manager never touches the device. Each of its operations
//! returns commands; whoever owns the device carries them out in the order
//! given.

use crate::device_buffer::{BufferClass, Upload, UploadView};
use vstd::prelude::*;

verus! {

/// The groups of bindings through which the shader reaches buffers.
#[derive(Clone, Copy, Debug, PartialEq, Eq, Structural)]
pub enum BindGroupKind {
    /// The colour palette.
    Color,
    /// The camera's uniform.
    Camera,
    /// Palette and camera together: the group a draw call binds.
    Combined,
}

/// Formats of a vertex attribute: one binary32 number, or two.
#[derive(Clone, Copy, Debug, PartialEq, Eq, Structural)]
pub enum VertexFormat {
    Float32,
    Float32x2,
}

impl VertexFormat {
    /// Bytes that an attribute of this format takes.
    pub open spec fn spec_size(self) -> nat {
        match self {
            VertexFormat::Float32 => 4,
            VertexFormat::Float32x2 => 8,
        }
    }
}

/// One attribute of a rectangle instance as the vertex stage reads it.
#[derive(Clone, Copy, Debug, PartialEq, Eq, Structural)]
pub struct VertexAttribute {
    pub format: VertexFormat,
    /// Byte offset inside the instance.
    pub offset: u64,
    pub shader_location: u32,
}

/// One request to the device.
#[derive(Clone, Debug, PartialEq, Eq)]
pub enum Command {
    /// Compile the rectangle shader.
    LoadShader,
    /// Create the camera's uniform buffer, 16 bytes, holding `data`.
    CreateCameraBuffer { data: Vec<u8> },
    /// Create the index buffer, holding `indices`.
    CreateIndexBuffer { indices: Vec<u16> },
    /// Create, write or regrow the buffer of `class`.
    Upload { class: BufferClass, upload: Upload },
    /// Build the layout and the bind group of `kind` over the buffers as they
    /// are now, replacing an earlier group of that kind.
    BuildBindGroup { kind: BindGroupKind },
    /// Build the pipeline layout over the combined bind group's layout.
    BuildPipelineLayout,
    /// Build the render pipeline, whose one vertex buffer steps per instance,
    /// `array_stride` bytes at a time, with the given attributes.
    BuildPipeline { array_stride: u64, attributes: Vec<VertexAttribute> },
    /// Overwrite the camera's uniform buffer with `data`.
    WriteCamera { data: Vec<u8> },
    /// Draw `instance_count` rectangles of `index_count` indices each.
    Draw { index_count: u32, instance_count: u32 },
}

/// A [`Command`] as a mathematical value.
pub enum CommandView {
    LoadShader,
    CreateCameraBuffer { data: Seq<u8> },
    CreateIndexBuffer { indices: Seq<u16> },
    Upload { class: BufferClass, upload: UploadView },
    BuildBindGroup { kind: BindGroupKind },
    BuildPipelineLayout,
    BuildPipeline { array_stride: nat, attributes: Seq<VertexAttribute> },
    WriteCamera { data: Seq<u8> },
    Draw { index_count: nat, instance_count: nat },
}

impl View for Command {
    type V = CommandView;

    open spec fn view(&self) -> CommandView {
        match self {
            Command::LoadShader => CommandView::LoadShader,
            Command::CreateCameraBuffer { data } => CommandView::CreateCameraBuffer { data: data@ },
            Command::CreateIndexBuffer { indices } => CommandView::CreateIndexBuffer {
                indices: indices@,
            },
            Command::Upload { class, upload } => CommandView::Upload {
                class: *class,
                upload: upload@,
            },
            Command::BuildBindGroup { kind } => CommandView::BuildBindGroup { kind: *kind },
            Command::BuildPipelineLayout => CommandView::BuildPipelineLayout,
            Command::BuildPipeline { array_stride, attributes } => CommandView::BuildPipeline {
                array_stride: *array_stride as nat,
                attributes: attributes@,
            },
            Command::WriteCamera { data } => CommandView::WriteCamera { data: data@ },
            Command::Draw { index_count, instance_count } => CommandView::Draw {
                index_count: *index_count as nat,
                instance_count: *instance_count as nat,
            },
        }
    }
}

/// A list of commands as a sequence of mathematical values.
pub open spec fn views(commands: Seq<Command>) -> Seq<CommandView> {
    Seq::new(commands.len(), |i: int| commands[i]@)
}

/// Adds one command to the end of a list.
pub fn push_command(commands: &mut Vec<Command>, command: Command)
    ensures
        views(final(commands)@) == views(old(commands)@).push(command@),
{
    commands.push(command);
    assert(views(commands@) =~= views(old(commands)@).push(command@));
}

/// Moves the commands of `more` to the end of `commands`.
pub fn append_commands(commands: &mut Vec<Command>, more: Vec<Command>)
    ensures
        views(final(commands)@) == views(old(commands)@) + views(more@),
{
    let mut more = more;
    let ghost tail = more@;
    commands.append(&mut more);
    assert(views(commands@) =~= views(old(commands)@) + views(tail));
}

} // verus!
