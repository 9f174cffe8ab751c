//! The resource manager: which device resources exist, in which stage of
//! their lifecycle, and what the device must do next.
//!
//! Resources come into being in a fixed order: the shader, then the buffers
//! (camera, rectangles, colours), then the bind groups over them, then the
//! pipeline. An operation attempted out of turn is refused with an error and
//! changes nothing.

use crate::bytes::{cast_words, is_image};
use crate::camera::Camera;
use crate::command::{
    append_commands, push_command, views, BindGroupKind, Command, CommandView, VertexAttribute,
    VertexFormat,
};
use crate::device_buffer::{
    BufferClass, BufferError, BufferState, DeviceBuffer, Upload, UploadView,
};
use crate::gpu_data::{
    class_count, class_words, drain_all, lemma_class_words_len, split_by_class, GPU_Data,
};
use std::collections::VecDeque;
use vstd::prelude::*;

verus! {

/// Stages of the lifecycle, in the order in which they are reached.
#[derive(Clone, Copy, Debug, PartialEq, Eq, Structural)]
pub enum Stage {
    /// Nothing exists yet.
    Uninitialized,
    /// The shader is compiled; buffers may be created.
    ShaderLoaded,
    /// The camera, rectangle and colour buffers exist.
    BuffersInitialized,
    /// The combined bind group is built over the buffers.
    BindGroupsBuilt,
    /// The pipeline is built; frames can be drawn.
    PipelineReady,
}

/// Why an operation was refused.
#[derive(Clone, Copy, Debug, PartialEq, Eq, Structural)]
pub enum ResourceError {
    /// The operation has no place in the state the resources are in, which
    /// is of stage `found`.
    OutOfOrder { found: Stage },
    /// A buffer would hold more entries than one draw call can address.
    TooManyEntries,
}

impl From<BufferError> for ResourceError {
    fn from(e: BufferError) -> (r: ResourceError) {
        match e {
            BufferError::TooManyEntries => ResourceError::TooManyEntries,
        }
    }
}

impl vstd::std_specs::convert::FromSpecImpl<BufferError> for ResourceError {
    open spec fn obeys_from_spec() -> bool {
        true
    }

    open spec fn from_spec(e: BufferError) -> ResourceError {
        match e {
            BufferError::TooManyEntries => ResourceError::TooManyEntries,
        }
    }
}

/// Number of indices that draw one rectangle as two triangles.
pub const INDEX_COUNT: u32 = 6;

/// The mathematical state of the resources.
pub struct ResourcesView {
    /// The shader is compiled.
    pub shader: bool,
    /// The rectangle buffer, once created.
    pub rects: Option<BufferState>,
    /// The colour buffer, once created.
    pub colors: Option<BufferState>,
    /// The camera's uniform buffer exists.
    pub camera: bool,
    /// Number of indices in the index buffer, once created.
    pub index_count: Option<nat>,
    /// The combined bind group is built.
    pub bind_groups: bool,
    /// The pipeline layout is built.
    pub pipeline_layout: bool,
    /// The pipeline is built.
    pub pipeline: bool,
}

impl ResourcesView {
    /// Nothing exists.
    pub open spec fn empty() -> ResourcesView {
        ResourcesView {
            shader: false,
            rects: None,
            colors: None,
            camera: false,
            index_count: None,
            bind_groups: false,
            pipeline_layout: false,
            pipeline: false,
        }
    }

    /// The three buffers that bind groups and draw calls rest on exist.
    pub open spec fn buffers_ready(self) -> bool {
        self.camera && self.rects is Some && self.colors is Some
    }

    /// The stage that the resources have reached.
    pub open spec fn stage(self) -> Stage {
        if !self.shader {
            Stage::Uninitialized
        } else if !self.buffers_ready() {
            Stage::ShaderLoaded
        } else if !self.bind_groups {
            Stage::BuffersInitialized
        } else if !self.pipeline {
            Stage::BindGroupsBuilt
        } else {
            Stage::PipelineReady
        }
    }

    /// Every resource rests on the ones before it, and each buffer's
    /// allocation covers its entries.
    pub open spec fn valid(self) -> bool {
        &&& self.rects matches Some(s) ==> s.valid() && s.class == BufferClass::Rect
        &&& self.colors matches Some(s) ==> s.valid() && s.class == BufferClass::Color
        &&& self.index_count matches Some(n) ==> n == INDEX_COUNT
        &&& (self.rects is Some || self.colors is Some || self.camera || self.index_count is Some)
            ==> self.shader
        &&& self.bind_groups ==> self.buffers_ready()
        &&& self.pipeline_layout ==> self.bind_groups
        &&& self.pipeline ==> self.pipeline_layout && self.index_count is Some
    }

    /// The buffer of `class`, if it exists.
    pub open spec fn buffer(self, class: BufferClass) -> Option<BufferState> {
        match class {
            BufferClass::Rect => self.rects,
            BufferClass::Color => self.colors,
        }
    }

    /// Number of entries in the buffer of `class`; none while it does not
    /// exist.
    pub open spec fn count(self, class: BufferClass) -> nat {
        match self.buffer(class) {
            Some(s) => s.count,
            None => 0,
        }
    }

    /// The state with `entries` more entries in the buffer of `class`, which
    /// is created for them if it does not exist.
    pub open spec fn with_batch(self, class: BufferClass, entries: nat) -> ResourcesView {
        let after = match self.buffer(class) {
            Some(s) => s.append(entries),
            None => BufferState::created(class, entries),
        };
        match class {
            BufferClass::Rect => ResourcesView { rects: Some(after), ..self },
            BufferClass::Color => ResourcesView { colors: Some(after), ..self },
        }
    }

    /// The state after the primitives of a drained queue were appended: each
    /// class that occurs among them has its batch appended, the other is left
    /// alone.
    pub open spec fn with_queue(self, primitives: Seq<GPU_Data>) -> ResourcesView {
        let rects = class_count(primitives, BufferClass::Rect);
        let colors = class_count(primitives, BufferClass::Color);
        let first = if rects > 0 {
            self.with_batch(BufferClass::Rect, rects)
        } else {
            self
        };
        if colors > 0 {
            first.with_batch(BufferClass::Color, colors)
        } else {
            first
        }
    }

    /// Both buffers have room, in their count of entries, for the primitives
    /// of a queue.
    pub open spec fn has_room(self, primitives: Seq<GPU_Data>) -> bool {
        &&& self.count(BufferClass::Rect) + class_count(primitives, BufferClass::Rect) <= u32::MAX
        &&& self.count(BufferClass::Color) + class_count(primitives, BufferClass::Color)
            <= u32::MAX
    }
}

/// The commands that put a batch, whose bytes are `data`, into the buffer of
/// `class` in state `before`: the upload itself and, where it moves the
/// colours into a new allocation, the rebuilding of every bind group that
/// refers to them, `combined` saying whether the combined group exists.
pub open spec fn upload_commands(
    class: BufferClass,
    before: Option<BufferState>,
    data: Seq<u8>,
    combined: bool,
) -> Seq<CommandView> {
    let upload = match before {
        Some(s) => s.upload(data),
        None => UploadView::Create { size: data.len(), data },
    };
    let head = seq![CommandView::Upload { class, upload }];
    if class == BufferClass::Color && upload.replaces_storage() {
        if combined {
            head + seq![
                CommandView::BuildBindGroup { kind: BindGroupKind::Color },
                CommandView::BuildBindGroup { kind: BindGroupKind::Combined },
            ]
        } else {
            head + seq![CommandView::BuildBindGroup { kind: BindGroupKind::Color }]
        }
    } else {
        head
    }
}

/// `commands` upload `batch` to the buffer of `class` in state `before`: they
/// are the commands of [`upload_commands`] for bytes that are the batch's
/// memory image.
pub open spec fn uploads_batch(
    commands: Seq<CommandView>,
    class: BufferClass,
    before: Option<BufferState>,
    batch: Seq<u32>,
    combined: bool,
) -> bool {
    &&& commands.len() > 0
    &&& commands[0] matches CommandView::Upload { upload, .. }
    &&& is_image(upload.data(), batch)
    &&& commands == upload_commands(class, before, upload.data(), combined)
}

/// `commands` upload what a queue holds for `class`: its batch where the
/// queue has primitives of that class, nothing where it has none.
pub open spec fn uploads_class(
    commands: Seq<CommandView>,
    class: BufferClass,
    before: ResourcesView,
    primitives: Seq<GPU_Data>,
) -> bool {
    if class_count(primitives, class) > 0 {
        uploads_batch(
            commands,
            class,
            before.buffer(class),
            class_words(primitives, class),
            before.bind_groups,
        )
    } else {
        commands.len() == 0
    }
}

/// `commands` upload a drained queue: first the rectangles, which take one
/// command if there are any, then the colours.
pub open spec fn uploads_queue(
    commands: Seq<CommandView>,
    before: ResourcesView,
    primitives: Seq<GPU_Data>,
) -> bool {
    let split: int = if class_count(primitives, BufferClass::Rect) > 0 {
        1
    } else {
        0
    };
    &&& split <= commands.len()
    &&& uploads_class(commands.subrange(0, split), BufferClass::Rect, before, primitives)
    &&& uploads_class(
        commands.subrange(split, commands.len() as int),
        BufferClass::Color,
        before,
        primitives,
    )
}

/// No bind group outlives the allocation it refers to. Where the upload of
/// a batch of colours puts them into a new allocation, the very next
/// commands rebuild the colours' bind group and, where it exists, the
/// combined one; rectangles, which no bind group refers to, need none.
pub proof fn lemma_moved_colors_are_rebound(
    class: BufferClass,
    before: Option<BufferState>,
    data: Seq<u8>,
    combined: bool,
)
    ensures
        ({
            let commands = upload_commands(class, before, data, combined);
            &&& commands[0] matches CommandView::Upload { upload, .. }
            &&& if class == BufferClass::Color && upload.replaces_storage() {
                &&& commands.len() == if combined {
                    3int
                } else {
                    2int
                }
                &&& commands[1] == (CommandView::BuildBindGroup { kind: BindGroupKind::Color })
                &&& combined ==> commands[2] == (CommandView::BuildBindGroup {
                    kind: BindGroupKind::Combined,
                })
            } else {
                commands.len() == 1
            }
        }),
{
}

/// The attributes of a rectangle instance: position, size, colour index and
/// fixed flag, in the order of the instance's words.
pub open spec fn spec_rect_attributes() -> Seq<VertexAttribute> {
    seq![
        VertexAttribute { format: VertexFormat::Float32x2, offset: 0, shader_location: 0 },
        VertexAttribute { format: VertexFormat::Float32x2, offset: 8, shader_location: 1 },
        VertexAttribute { format: VertexFormat::Float32, offset: 16, shader_location: 2 },
        VertexAttribute { format: VertexFormat::Float32, offset: 20, shader_location: 3 },
    ]
}

/// The attributes of a rectangle instance follow one another without gap or
/// overlap, from the first byte of the instance to its last, at shader
/// locations counted from zero.
pub proof fn lemma_rect_attributes_tile()
    ensures
        spec_rect_attributes()[0].offset == 0,
        forall|i: int|
            0 <= i < 3 ==> #[trigger] spec_rect_attributes()[i].offset
                + spec_rect_attributes()[i].format.spec_size() == spec_rect_attributes()[i
                + 1].offset,
        spec_rect_attributes()[3].offset + spec_rect_attributes()[3].format.spec_size()
            == BufferClass::Rect.spec_stride(),
        forall|i: int| 0 <= i < 4 ==> #[trigger] spec_rect_attributes()[i].shader_location == i,
{
}

/// The indices of a rectangle's two triangles over its four corners.
pub open spec fn spec_rect_indices() -> Seq<u16> {
    seq![0u16, 1u16, 2u16, 2u16, 3u16, 0u16]
}

/// The rectangles' commands followed by the colours' are the commands of the
/// queue.
proof fn lemma_uploads_queue(
    before: ResourcesView,
    primitives: Seq<GPU_Data>,
    rect_part: Seq<CommandView>,
    color_part: Seq<CommandView>,
)
    requires
        uploads_class(rect_part, BufferClass::Rect, before, primitives),
        class_count(primitives, BufferClass::Rect) > 0 ==> rect_part.len() == 1,
        uploads_class(color_part, BufferClass::Color, before, primitives),
    ensures
        uploads_queue(rect_part + color_part, before, primitives),
{
    let all = rect_part + color_part;
    let split = rect_part.len() as int;
    assert(all.subrange(0, split) =~= rect_part);
    assert(all.subrange(split, all.len() as int) =~= color_part);
}

/// Bookkeeping for every resource on the device.
#[allow(non_camel_case_types)]
#[derive(Clone, Copy, Debug, PartialEq, Eq)]
pub struct GPU_Resources {
    rect_shader: bool,
    rect_buffer: Option<DeviceBuffer>,
    index_count: Option<u32>,
    color_buffer: Option<DeviceBuffer>,
    camera_buffer: bool,
    combined_bind_group: bool,
    rect_pipeline_layout: bool,
    rect_pipeline: bool,
}

impl View for GPU_Resources {
    type V = ResourcesView;

    closed spec fn view(&self) -> ResourcesView {
        ResourcesView {
            shader: self.rect_shader,
            rects: match self.rect_buffer {
                Some(b) => Some(b@),
                None => None,
            },
            colors: match self.color_buffer {
                Some(b) => Some(b@),
                None => None,
            },
            camera: self.camera_buffer,
            index_count: match self.index_count {
                Some(n) => Some(n as nat),
                None => None,
            },
            bind_groups: self.combined_bind_group,
            pipeline_layout: self.rect_pipeline_layout,
            pipeline: self.rect_pipeline,
        }
    }
}

impl GPU_Resources {
    /// Resources of which none exists yet.
    pub fn new() -> (resources: GPU_Resources)
        ensures
            resources@ == ResourcesView::empty(),
            resources@.valid(),
            resources@.stage() == Stage::Uninitialized,
    {
        GPU_Resources {
            rect_shader: false,
            rect_buffer: None,
            index_count: None,
            color_buffer: None,
            camera_buffer: false,
            combined_bind_group: false,
            rect_pipeline_layout: false,
            rect_pipeline: false,
        }
    }

    /// The stage that the resources have reached.
    pub fn stage(&self) -> (stage: Stage)
        ensures
            stage == self@.stage(),
    {
        if !self.rect_shader {
            Stage::Uninitialized
        } else if !(self.camera_buffer && self.rect_buffer.is_some() && self.color_buffer.is_some()) {
            Stage::ShaderLoaded
        } else if !self.combined_bind_group {
            Stage::BuffersInitialized
        } else if !self.rect_pipeline {
            Stage::BindGroupsBuilt
        } else {
            Stage::PipelineReady
        }
    }

    /// The rectangle buffer, once created.
    pub fn rect_buffer(&self) -> (buffer: Option<DeviceBuffer>)
        ensures
            buffer is Some <==> self@.rects is Some,
            buffer matches Some(b) ==> self@.rects == Some(b@),
    {
        self.rect_buffer
    }

    /// The colour buffer, once created.
    pub fn color_buffer(&self) -> (buffer: Option<DeviceBuffer>)
        ensures
            buffer is Some <==> self@.colors is Some,
            buffer matches Some(b) ==> self@.colors == Some(b@),
    {
        self.color_buffer
    }

    /// Number of rectangles on the device, once their buffer exists.
    pub fn rect_count(&self) -> (count: Option<u32>)
        ensures
            count is Some <==> self@.rects is Some,
            count matches Some(n) ==> n == self@.count(BufferClass::Rect),
    {
        match &self.rect_buffer {
            Some(buffer) => Some(buffer.logical_count()),
            None => None,
        }
    }

    /// Number of indices in the index buffer, once it exists.
    pub fn index_count(&self) -> (count: Option<u32>)
        ensures
            count is Some <==> self@.index_count is Some,
            count matches Some(n) ==> self@.index_count == Some(n as nat),
    {
        self.index_count
    }

    /// Compiles the rectangle shader: the first step of all.
    ///
    /// Refused once the shader exists.
    pub fn init_rect_shader(&mut self) -> (r: Result<Vec<Command>, ResourceError>)
        requires
            old(self)@.valid(),
        ensures
            final(self)@.valid(),
            r is Ok <==> old(self)@.stage() == Stage::Uninitialized,
            r matches Ok(commands) ==> {
                &&& views(commands@) == seq![CommandView::LoadShader]
                &&& final(self)@ == (ResourcesView { shader: true, ..old(self)@ })
                &&& final(self)@.stage() == Stage::ShaderLoaded
            },
            r matches Err(e) ==> {
                &&& e == (ResourceError::OutOfOrder { found: old(self)@.stage() })
                &&& *final(self) == *old(self)
            },
    {
        if self.rect_shader {
            return Err(ResourceError::OutOfOrder { found: self.stage() });
        }
        self.rect_shader = true;
        let mut commands: Vec<Command> = Vec::new();
        push_command(&mut commands, Command::LoadShader);
        assert(views(commands@) =~= seq![CommandView::LoadShader]);
        Ok(commands)
    }

    /// Creates the index buffer, which holds the two triangles of a
    /// rectangle.
    ///
    /// Refused before the shader is loaded and once the buffer exists.
    pub fn init_index_buffer(&mut self) -> (r: Result<Vec<Command>, ResourceError>)
        requires
            old(self)@.valid(),
        ensures
            final(self)@.valid(),
            r is Ok <==> old(self)@.shader && old(self)@.index_count is None,
            r matches Ok(commands) ==> {
                &&& views(commands@) == seq![
                    CommandView::CreateIndexBuffer { indices: spec_rect_indices() },
                ]
                &&& final(self)@ == (ResourcesView {
                    index_count: Some(INDEX_COUNT as nat),
                    ..old(self)@
                })
            },
            r matches Err(e) ==> {
                &&& e == (ResourceError::OutOfOrder { found: old(self)@.stage() })
                &&& *final(self) == *old(self)
            },
    {
        if !self.rect_shader || self.index_count.is_some() {
            return Err(ResourceError::OutOfOrder { found: self.stage() });
        }
        let mut indices: Vec<u16> = Vec::new();
        indices.push(0);
        indices.push(1);
        indices.push(2);
        indices.push(2);
        indices.push(3);
        indices.push(0);
        assert(indices@ =~= spec_rect_indices());
        self.index_count = Some(INDEX_COUNT);
        let mut commands: Vec<Command> = Vec::new();
        push_command(&mut commands, Command::CreateIndexBuffer { indices });
        assert(views(commands@) =~= seq![
            CommandView::CreateIndexBuffer { indices: spec_rect_indices() },
        ]);
        Ok(commands)
    }

    /// Creates the camera's uniform buffer, holding the camera's four words
    /// for a view centred on `pos_ms` and as wide as the pattern `scale`
    /// says, and the bind group over it.
    ///
    /// Refused before the shader is loaded and once the buffer exists.
    pub fn init_camera_buffer(&mut self, camera: &Camera, pos_ms: i64, scale: u32) -> (r: Result<
        Vec<Command>,
        ResourceError,
    >)
        requires
            old(self)@.valid(),
        ensures
            final(self)@.valid(),
            r is Ok <==> old(self)@.shader && !old(self)@.camera,
            r matches Ok(commands) ==> {
                &&& views(commands@).len() == 2
                &&& views(commands@)[0] matches CommandView::CreateCameraBuffer { data }
                &&& is_image(data, camera.spec_to_slice(pos_ms, scale))
                &&& views(commands@)[1] == (CommandView::BuildBindGroup {
                    kind: BindGroupKind::Camera,
                })
                &&& final(self)@ == (ResourcesView { camera: true, ..old(self)@ })
            },
            r matches Err(e) ==> {
                &&& e == (ResourceError::OutOfOrder { found: old(self)@.stage() })
                &&& *final(self) == *old(self)
            },
    {
        if !self.rect_shader || self.camera_buffer {
            return Err(ResourceError::OutOfOrder { found: self.stage() });
        }
        let words: [u32; 4] = camera.to_slice(pos_ms, scale);
        let data: Vec<u8> = cast_words(words.as_slice());
        self.camera_buffer = true;
        let mut commands: Vec<Command> = Vec::new();
        push_command(&mut commands, Command::CreateCameraBuffer { data });
        push_command(&mut commands, Command::BuildBindGroup { kind: BindGroupKind::Camera });
        Ok(commands)
    }

    /// Overwrites the camera's uniform buffer with the camera's four words
    /// for a view centred on `pos_ms` and as wide as the pattern `scale`
    /// says. While the buffer does not exist there is nothing to do.
    pub fn update_camera_buffer(&self, camera: &Camera, pos_ms: i64, scale: u32) -> (commands: Vec<
        Command,
    >)
        ensures
            !self@.camera ==> views(commands@).len() == 0,
            self@.camera ==> {
                &&& views(commands@).len() == 1
                &&& views(commands@)[0] matches CommandView::WriteCamera { data }
                &&& is_image(data, camera.spec_to_slice(pos_ms, scale))
            },
    {
        let mut commands: Vec<Command> = Vec::new();
        if self.camera_buffer {
            let words: [u32; 4] = camera.to_slice(pos_ms, scale);
            let data: Vec<u8> = cast_words(words.as_slice());
            push_command(&mut commands, Command::WriteCamera { data });
        }
        commands
    }

    /// Builds the bind group that holds palette and camera together.
    ///
    /// Refused unless the buffers are initialised and the group is not built
    /// yet.
    pub fn init_combined_bind_group(&mut self) -> (r: Result<Vec<Command>, ResourceError>)
        requires
            old(self)@.valid(),
        ensures
            final(self)@.valid(),
            r is Ok <==> old(self)@.stage() == Stage::BuffersInitialized,
            r matches Ok(commands) ==> {
                &&& views(commands@) == seq![
                    CommandView::BuildBindGroup { kind: BindGroupKind::Combined },
                ]
                &&& final(self)@ == (ResourcesView { bind_groups: true, ..old(self)@ })
                &&& final(self)@.stage() == Stage::BindGroupsBuilt
            },
            r matches Err(e) ==> {
                &&& e == (ResourceError::OutOfOrder { found: old(self)@.stage() })
                &&& *final(self) == *old(self)
            },
    {
        let found: Stage = self.stage();
        if found != Stage::BuffersInitialized {
            return Err(ResourceError::OutOfOrder { found });
        }
        self.combined_bind_group = true;
        let mut commands: Vec<Command> = Vec::new();
        push_command(&mut commands, Command::BuildBindGroup { kind: BindGroupKind::Combined });
        assert(views(commands@) =~= seq![
            CommandView::BuildBindGroup { kind: BindGroupKind::Combined },
        ]);
        Ok(commands)
    }

    /// Builds the pipeline layout over the combined bind group's layout.
    ///
    /// Refused unless the bind groups are built and the layout is not.
    pub fn init_rect_pipeline_layout(&mut self) -> (r: Result<Vec<Command>, ResourceError>)
        requires
            old(self)@.valid(),
        ensures
            final(self)@.valid(),
            r is Ok <==> old(self)@.stage() == Stage::BindGroupsBuilt
                && !old(self)@.pipeline_layout,
            r matches Ok(commands) ==> {
                &&& views(commands@) == seq![CommandView::BuildPipelineLayout]
                &&& final(self)@ == (ResourcesView { pipeline_layout: true, ..old(self)@ })
            },
            r matches Err(e) ==> {
                &&& e == (ResourceError::OutOfOrder { found: old(self)@.stage() })
                &&& *final(self) == *old(self)
            },
    {
        let found: Stage = self.stage();
        if found != Stage::BindGroupsBuilt || self.rect_pipeline_layout {
            return Err(ResourceError::OutOfOrder { found });
        }
        self.rect_pipeline_layout = true;
        let mut commands: Vec<Command> = Vec::new();
        push_command(&mut commands, Command::BuildPipelineLayout);
        assert(views(commands@) =~= seq![CommandView::BuildPipelineLayout]);
        Ok(commands)
    }

    /// Builds the render pipeline, which reads rectangle instances one
    /// stride apart with the attributes of [`spec_rect_attributes`].
    ///
    /// Refused unless the bind groups are built, the pipeline layout and the
    /// index buffer exist, and the pipeline is not built yet.
    pub fn init_rect_pipeline(&mut self) -> (r: Result<Vec<Command>, ResourceError>)
        requires
            old(self)@.valid(),
        ensures
            final(self)@.valid(),
            r is Ok <==> old(self)@.stage() == Stage::BindGroupsBuilt
                && old(self)@.pipeline_layout && old(self)@.index_count is Some,
            r matches Ok(commands) ==> {
                &&& views(commands@) == seq![
                    CommandView::BuildPipeline {
                        array_stride: BufferClass::Rect.spec_stride(),
                        attributes: spec_rect_attributes(),
                    },
                ]
                &&& final(self)@ == (ResourcesView { pipeline: true, ..old(self)@ })
                &&& final(self)@.stage() == Stage::PipelineReady
            },
            r matches Err(e) ==> {
                &&& e == (ResourceError::OutOfOrder { found: old(self)@.stage() })
                &&& *final(self) == *old(self)
            },
    {
        let found: Stage = self.stage();
        if found != Stage::BindGroupsBuilt || !self.rect_pipeline_layout
            || self.index_count.is_none() {
            return Err(ResourceError::OutOfOrder { found });
        }
        let mut attributes: Vec<VertexAttribute> = Vec::new();
        attributes.push(
            VertexAttribute { format: VertexFormat::Float32x2, offset: 0, shader_location: 0 },
        );
        attributes.push(
            VertexAttribute { format: VertexFormat::Float32x2, offset: 8, shader_location: 1 },
        );
        attributes.push(
            VertexAttribute { format: VertexFormat::Float32, offset: 16, shader_location: 2 },
        );
        attributes.push(
            VertexAttribute { format: VertexFormat::Float32, offset: 20, shader_location: 3 },
        );
        assert(attributes@ =~= spec_rect_attributes());
        let array_stride: u64 = BufferClass::Rect.stride_bytes();
        self.rect_pipeline = true;
        let mut commands: Vec<Command> = Vec::new();
        push_command(&mut commands, Command::BuildPipeline { array_stride, attributes });
        assert(views(commands@) =~= seq![
            CommandView::BuildPipeline {
                array_stride: BufferClass::Rect.spec_stride(),
                attributes: spec_rect_attributes(),
            },
        ]);
        Ok(commands)
    }

    /// The draw call of a frame: every rectangle on the device, six indices
    /// each.
    ///
    /// Refused until the pipeline is ready.
    pub fn draw(&self) -> (r: Result<Vec<Command>, ResourceError>)
        requires
            self@.valid(),
        ensures
            r is Ok <==> self@.stage() == Stage::PipelineReady,
            r matches Ok(commands) ==> views(commands@) == seq![
                CommandView::Draw {
                    index_count: INDEX_COUNT as nat,
                    instance_count: self@.count(BufferClass::Rect),
                },
            ],
            r matches Err(e) ==> e == (ResourceError::OutOfOrder { found: self@.stage() }),
    {
        let found: Stage = self.stage();
        if found != Stage::PipelineReady {
            return Err(ResourceError::OutOfOrder { found });
        }
        match (&self.index_count, &self.rect_buffer) {
            (Some(index_count), Some(buffer)) => {
                let mut commands: Vec<Command> = Vec::new();
                push_command(
                    &mut commands,
                    Command::Draw {
                        index_count: *index_count,
                        instance_count: buffer.logical_count(),
                    },
                );
                assert(views(commands@) =~= seq![
                    CommandView::Draw {
                        index_count: INDEX_COUNT as nat,
                        instance_count: self@.count(BufferClass::Rect),
                    },
                ]);
                Ok(commands)
            },
            _ => Err(ResourceError::OutOfOrder { found }),
        }
    }

    /// Creates the rectangle buffer, sized exactly for `rect_data`, a whole
    /// number of rectangles given word by word.
    ///
    /// Refused as out of order before the shader is loaded and once the
    /// buffer exists; refused for more rectangles than a buffer may hold.
    pub fn init_rect_buffer(&mut self, rect_data: Vec<u32>) -> (r: Result<
        Vec<Command>,
        ResourceError,
    >)
        requires
            old(self)@.valid(),
            BufferClass::Rect.spec_whole(rect_data@.len()),
        ensures
            final(self)@.valid(),
            r is Ok <==> old(self)@.shader && old(self)@.rects is None
                && BufferClass::Rect.spec_batch(rect_data@.len()) <= u32::MAX,
            r matches Ok(commands) ==> {
                &&& uploads_batch(
                    views(commands@),
                    BufferClass::Rect,
                    None,
                    rect_data@,
                    old(self)@.bind_groups,
                )
                &&& final(self)@ == old(self)@.with_batch(
                    BufferClass::Rect,
                    BufferClass::Rect.spec_batch(rect_data@.len()),
                )
            },
            r matches Err(e) ==> {
                &&& *final(self) == *old(self)
                &&& e == if old(self)@.shader && old(self)@.rects is None {
                    ResourceError::TooManyEntries
                } else {
                    ResourceError::OutOfOrder { found: old(self)@.stage() }
                }
            },
    {
        if !self.rect_shader || self.rect_buffer.is_some() {
            return Err(ResourceError::OutOfOrder { found: self.stage() });
        }
        match DeviceBuffer::create(BufferClass::Rect, &rect_data) {
            Ok((buffer, upload)) => {
                self.rect_buffer = Some(buffer);
                let mut commands: Vec<Command> = Vec::new();
                push_command(&mut commands, Command::Upload { class: BufferClass::Rect, upload });
                assert(views(commands@) =~= upload_commands(
                    BufferClass::Rect,
                    None,
                    upload@.data(),
                    old(self)@.bind_groups,
                ));
                Ok(commands)
            },
            Err(e) => Err(ResourceError::from(e)),
        }
    }

    /// Creates the colour buffer, sized exactly for `color_data`, a whole
    /// number of colours given word by word, and the bind group over it.
    ///
    /// Refused as out of order before the shader is loaded and once the
    /// buffer exists; refused for more colours than a buffer may hold.
    pub fn init_color_buffer(&mut self, color_data: Vec<u32>) -> (r: Result<
        Vec<Command>,
        ResourceError,
    >)
        requires
            old(self)@.valid(),
            BufferClass::Color.spec_whole(color_data@.len()),
        ensures
            final(self)@.valid(),
            r is Ok <==> old(self)@.shader && old(self)@.colors is None
                && BufferClass::Color.spec_batch(color_data@.len()) <= u32::MAX,
            r matches Ok(commands) ==> {
                &&& uploads_batch(
                    views(commands@),
                    BufferClass::Color,
                    None,
                    color_data@,
                    old(self)@.bind_groups,
                )
                &&& final(self)@ == old(self)@.with_batch(
                    BufferClass::Color,
                    BufferClass::Color.spec_batch(color_data@.len()),
                )
            },
            r matches Err(e) ==> {
                &&& *final(self) == *old(self)
                &&& e == if old(self)@.shader && old(self)@.colors is None {
                    ResourceError::TooManyEntries
                } else {
                    ResourceError::OutOfOrder { found: old(self)@.stage() }
                }
            },
    {
        if !self.rect_shader || self.color_buffer.is_some() {
            return Err(ResourceError::OutOfOrder { found: self.stage() });
        }
        match DeviceBuffer::create(BufferClass::Color, &color_data) {
            Ok((buffer, upload)) => {
                self.color_buffer = Some(buffer);
                let mut commands: Vec<Command> = Vec::new();
                push_command(&mut commands, Command::Upload { class: BufferClass::Color, upload });
                push_command(
                    &mut commands,
                    Command::BuildBindGroup { kind: BindGroupKind::Color },
                );
                assert(views(commands@) =~= upload_commands(
                    BufferClass::Color,
                    None,
                    upload@.data(),
                    old(self)@.bind_groups,
                ));
                Ok(commands)
            },
            Err(e) => Err(ResourceError::from(e)),
        }
    }

    /// Appends a batch of rectangles: to the rectangle buffer where it
    /// exists, else by creating it.
    fn append_rects(&mut self, rects: Vec<u32>) -> (r: Result<Vec<Command>, ResourceError>)
        requires
            old(self)@.valid(),
            old(self)@.shader,
            BufferClass::Rect.spec_whole(rects@.len()),
        ensures
            final(self)@.valid(),
            r is Ok <==> old(self)@.count(BufferClass::Rect) + BufferClass::Rect.spec_batch(
                rects@.len(),
            ) <= u32::MAX,
            r matches Ok(commands) ==> {
                &&& uploads_batch(
                    views(commands@),
                    BufferClass::Rect,
                    old(self)@.rects,
                    rects@,
                    old(self)@.bind_groups,
                )
                &&& views(commands@).len() == 1
                &&& final(self)@ == old(self)@.with_batch(
                    BufferClass::Rect,
                    BufferClass::Rect.spec_batch(rects@.len()),
                )
            },
            r matches Err(e) ==> *final(self) == *old(self) && e == ResourceError::TooManyEntries,
    {
        match self.rect_buffer {
            None => self.init_rect_buffer(rects),
            Some(mut buffer) => {
                match buffer.append(&rects) {
                    Ok(upload) => {
                        self.rect_buffer = Some(buffer);
                        let mut commands: Vec<Command> = Vec::new();
                        push_command(
                            &mut commands,
                            Command::Upload { class: BufferClass::Rect, upload },
                        );
                        assert(views(commands@) =~= upload_commands(
                            BufferClass::Rect,
                            old(self)@.rects,
                            upload@.data(),
                            old(self)@.bind_groups,
                        ));
                        Ok(commands)
                    },
                    Err(e) => Err(ResourceError::from(e)),
                }
            },
        }
    }

    /// Appends a batch of colours: to the colour buffer where it exists,
    /// else by creating it. Where the colours move into a new allocation,
    /// every bind group over them is rebuilt.
    fn append_colors(&mut self, colors: Vec<u32>) -> (r: Result<Vec<Command>, ResourceError>)
        requires
            old(self)@.valid(),
            old(self)@.shader,
            BufferClass::Color.spec_whole(colors@.len()),
        ensures
            final(self)@.valid(),
            r is Ok <==> old(self)@.count(BufferClass::Color) + BufferClass::Color.spec_batch(
                colors@.len(),
            ) <= u32::MAX,
            r matches Ok(commands) ==> {
                &&& uploads_batch(
                    views(commands@),
                    BufferClass::Color,
                    old(self)@.colors,
                    colors@,
                    old(self)@.bind_groups,
                )
                &&& final(self)@ == old(self)@.with_batch(
                    BufferClass::Color,
                    BufferClass::Color.spec_batch(colors@.len()),
                )
            },
            r matches Err(e) ==> *final(self) == *old(self) && e == ResourceError::TooManyEntries,
    {
        match self.color_buffer {
            None => self.init_color_buffer(colors),
            Some(mut buffer) => {
                match buffer.append(&colors) {
                    Ok(upload) => {
                        self.color_buffer = Some(buffer);
                        let ghost data = upload@.data();
                        let moved: bool = match &upload {
                            Upload::Write { .. } => false,
                            _ => true,
                        };
                        let mut commands: Vec<Command> = Vec::new();
                        push_command(
                            &mut commands,
                            Command::Upload { class: BufferClass::Color, upload },
                        );
                        if moved {
                            push_command(
                                &mut commands,
                                Command::BuildBindGroup { kind: BindGroupKind::Color },
                            );
                            if self.combined_bind_group {
                                push_command(
                                    &mut commands,
                                    Command::BuildBindGroup { kind: BindGroupKind::Combined },
                                );
                            }
                        }
                        assert(views(commands@) =~= upload_commands(
                            BufferClass::Color,
                            old(self)@.colors,
                            data,
                            old(self)@.bind_groups,
                        ));
                        Ok(commands)
                    },
                    Err(e) => Err(ResourceError::from(e)),
                }
            },
        }
    }

    /// Drains the queue and appends what it held: the rectangles as one
    /// batch, then the colours as one batch, each in the order in which its
    /// primitives were queued. A class without primitives is left alone, and
    /// an empty queue changes nothing and asks nothing of the device.
    ///
    /// A queue that holds primitives is refused as out of order before the
    /// shader is loaded, and is then left as it is. It is refused, and lost
    /// with the frame, where a buffer would hold more entries than it may.
    /// Either way the resources do not change.
    pub fn process_queue(&mut self, queue: &mut VecDeque<GPU_Data>) -> (r: Result<
        Vec<Command>,
        ResourceError,
    >)
        requires
            old(self)@.valid(),
        ensures
            final(self)@.valid(),
            r is Ok <==> old(queue)@.len() == 0 || (old(self)@.shader && old(self)@.has_room(
                old(queue)@,
            )),
            r matches Ok(commands) ==> {
                &&& final(queue)@.len() == 0
                &&& final(self)@ == old(self)@.with_queue(old(queue)@)
                &&& uploads_queue(views(commands@), old(self)@, old(queue)@)
            },
            old(queue)@.len() == 0 ==> {
                &&& r matches Ok(commands)
                &&& commands@.len() == 0
                &&& *final(self) == *old(self)
            },
            r matches Err(e) ==> {
                &&& *final(self) == *old(self)
                &&& if old(self)@.shader {
                    e == ResourceError::TooManyEntries && final(queue)@.len() == 0
                } else {
                    &&& e == (ResourceError::OutOfOrder { found: old(self)@.stage() })
                    &&& final(queue)@ == old(queue)@
                }
            },
    {
        let mut commands: Vec<Command> = Vec::new();
        if queue.len() == 0 {
            proof {
                lemma_class_words_len(queue@, BufferClass::Rect);
                lemma_class_words_len(queue@, BufferClass::Color);
                assert(views(commands@).subrange(0, 0) =~= views(commands@));
            }
            return Ok(commands);
        }
        if !self.rect_shader {
            return Err(ResourceError::OutOfOrder { found: self.stage() });
        }
        let primitives: Vec<GPU_Data> = drain_all(queue);
        let (rects, colors) = split_by_class(&primitives);
        proof {
            lemma_class_words_len(primitives@, BufferClass::Rect);
            lemma_class_words_len(primitives@, BufferClass::Color);
        }
        let rect_entries: usize = BufferClass::Rect.batch_entries(rects.len());
        let color_entries: usize = BufferClass::Color.batch_entries(colors.len());
        let rect_count: u32 = match &self.rect_buffer {
            Some(buffer) => buffer.logical_count(),
            None => 0,
        };
        let color_count: u32 = match &self.color_buffer {
            Some(buffer) => buffer.logical_count(),
            None => 0,
        };
        if rect_entries > (u32::MAX - rect_count) as usize || color_entries > (u32::MAX
            - color_count) as usize {
            return Err(ResourceError::TooManyEntries);
        }
        let ghost before = self@;
        let ghost rect_total = class_count(primitives@, BufferClass::Rect);
        let ghost color_total = class_count(primitives@, BufferClass::Color);
        assert(rects@.len() > 0 <==> rect_total > 0);
        assert(colors@.len() > 0 <==> color_total > 0);
        assert(before.has_room(primitives@));
        if rects.len() > 0 {
            match self.append_rects(rects) {
                Ok(more) => {
                    append_commands(&mut commands, more);
                    assert(views(commands@) =~= views(more@));
                },
                Err(e) => {
                    return Err(e);
                },
            }
        }
        let ghost rect_part = views(commands@);
        let ghost middle = self@;
        assert(uploads_class(rect_part, BufferClass::Rect, before, primitives@));
        assert(middle == if rect_total > 0 {
            before.with_batch(BufferClass::Rect, rect_total)
        } else {
            before
        });
        assert(middle.colors == before.colors && middle.bind_groups == before.bind_groups);
        let ghost color_part: Seq<CommandView> = Seq::empty();
        if colors.len() > 0 {
            match self.append_colors(colors) {
                Ok(more) => {
                    proof {
                        color_part = views(more@);
                    }
                    append_commands(&mut commands, more);
                },
                Err(e) => {
                    return Err(e);
                },
            }
        }
        assert(uploads_class(color_part, BufferClass::Color, before, primitives@));
        assert(views(commands@) =~= rect_part + color_part);
        proof {
            lemma_uploads_queue(before, primitives@, rect_part, color_part);
        }
        Ok(commands)
    }
}

} // verus!
