//! The application: data, device resources, camera frame and input state,
//! and the two sequences that the host drives, start-up and frame.

use crate::bytes::is_image;
use crate::camera::{Camera, Dimensions};
use crate::command::{append_commands, views, BindGroupKind, Command, CommandView};
use crate::data::Data;
use crate::device_buffer::BufferClass;
use crate::event::{event_views, Event, EventView};
use crate::gpu_data::{
    class_count, lemma_class_words_concat, GPU_Data, BAR_HEIGHT, BAR_Y, FULL_WIDTH, GREY,
    LEFT_EDGE, ONE, ZERO,
};
use crate::gpu_resources::{
    spec_rect_attributes, spec_rect_indices, uploads_queue, GPU_Resources, ResourceError,
    ResourcesView, Stage, INDEX_COUNT,
};
use crate::ingest::{body_text, lines, read_events, records, spec_body_text};
use crate::input_manager::{Input_State, MouseButton};
use vstd::prelude::*;

verus! {

/// The primitives that every timeline starts with: the grey of palette slot
/// 0, the white of slot 1 in which events are drawn, and the bar of the
/// timeline itself, a rectangle across the screen that does not scroll.
pub open spec fn seed_primitives() -> Seq<GPU_Data> {
    seq![
        GPU_Data::Color { r: GREY, g: GREY, b: GREY, a: ONE },
        GPU_Data::Color { r: ONE, g: ONE, b: ONE, a: ONE },
        GPU_Data::Rect {
            x: LEFT_EDGE,
            y: BAR_Y,
            w: FULL_WIDTH,
            h: BAR_HEIGHT,
            color_index: ZERO,
            fixed: ONE,
        },
    ]
}

/// The rectangles of `events`, one per event in the order given, as a camera
/// with origin `origin` sees them.
pub open spec fn event_rects(events: Seq<EventView>, origin: i64) -> Seq<GPU_Data> {
    Seq::new(events.len(), |i: int| GPU_Data::spec_from_log(events[i].timestamp as i64, origin))
}

/// The resources once shader and camera buffer exist and nothing else.
pub open spec fn started() -> ResourcesView {
    ResourcesView { shader: true, camera: true, ..ResourcesView::empty() }
}

/// `commands` bring the pipeline up from nothing: the shader; the camera's
/// buffer with `uniform` in it and its bind group; the uploads of
/// `primitives`; the combined bind group; the index buffer; the pipeline
/// layout and the pipeline.
pub open spec fn pipeline_commands(
    commands: Seq<CommandView>,
    primitives: Seq<GPU_Data>,
    uniform: Seq<u32>,
) -> bool {
    let n = commands.len() as int;
    &&& n >= 7
    &&& commands[0] == CommandView::LoadShader
    &&& commands[1] matches CommandView::CreateCameraBuffer { data }
    &&& is_image(data, uniform)
    &&& commands[2] == (CommandView::BuildBindGroup { kind: BindGroupKind::Camera })
    &&& uploads_queue(commands.subrange(3, n - 4), started(), primitives)
    &&& commands.subrange(n - 4, n) == seq![
        CommandView::BuildBindGroup { kind: BindGroupKind::Combined },
        CommandView::CreateIndexBuffer { indices: spec_rect_indices() },
        CommandView::BuildPipelineLayout,
        CommandView::BuildPipeline {
            array_stride: BufferClass::Rect.spec_stride(),
            attributes: spec_rect_attributes(),
        },
    ]
}

/// `commands` are one frame over resources in state `before`: the uploads of
/// `primitives`, then the camera's uniform overwritten with `uniform`, then
/// the draw call over every rectangle then on the device.
pub open spec fn frame_commands(
    commands: Seq<CommandView>,
    before: ResourcesView,
    primitives: Seq<GPU_Data>,
    uniform: Seq<u32>,
) -> bool {
    let n = commands.len() as int;
    &&& n >= 2
    &&& uploads_queue(commands.subrange(0, n - 2), before, primitives)
    &&& commands[n - 2] matches CommandView::WriteCamera { data }
    &&& is_image(data, uniform)
    &&& commands[n - 1] == (CommandView::Draw {
        index_count: INDEX_COUNT as nat,
        instance_count: before.with_queue(primitives).count(BufferClass::Rect),
    })
}

/// Everything the application owns.
pub struct MyApp {
    pub data: Data,
    pub gpu_resources: GPU_Resources,
    pub camera: Camera,
    pub input_state: Input_State,
}

impl MyApp {
    /// The resources are in a state that their own operations can reach.
    pub open spec fn wf(&self) -> bool {
        self.gpu_resources@.valid()
    }

    /// An application without events or resources, whose camera looks at
    /// the day that ends at `now_ms`.
    pub fn new(now_ms: i64) -> (app: MyApp)
        requires
            now_ms - crate::camera::MS_PER_DAY / 2 >= i64::MIN,
        ensures
            app.wf(),
            app.data.logs@.len() == 0,
            app.data.queue@.len() == 0,
            app.gpu_resources@ == ResourcesView::empty(),
            app.camera.init_pos == now_ms - crate::camera::MS_PER_DAY / 2,
            app.camera.dimensions.width == 0 && app.camera.dimensions.height == 0,
            app.input_state == (Input_State { left: false, right: false }),
    {
        MyApp {
            data: Data::new(),
            gpu_resources: GPU_Resources::new(),
            camera: Camera::new(now_ms),
            input_state: Input_State::new(),
        }
    }

    /// Records that a mouse button went down (`pressed`) or up. Only the
    /// left and the right button are followed; nothing else changes.
    pub fn click(&mut self, button: MouseButton, pressed: bool)
        ensures
            final(self).input_state == match button {
                MouseButton::Left => Input_State { left: pressed, ..old(self).input_state },
                MouseButton::Right => Input_State { right: pressed, ..old(self).input_state },
                _ => old(self).input_state,
            },
            final(self).data == old(self).data,
            final(self).gpu_resources == old(self).gpu_resources,
            final(self).camera == old(self).camera,
    {
        self.input_state.click(button, pressed);
    }

    /// Takes on a new size of the viewport. The camera's origin stays, and
    /// so does everything else.
    pub fn resize(&mut self, width: u32, height: u32)
        ensures
            final(self).camera == (Camera {
                dimensions: Dimensions { width, height },
                ..old(self).camera
            }),
            final(self).data == old(self).data,
            final(self).gpu_resources == old(self).gpu_resources,
            final(self).input_state == old(self).input_state,
    {
        self.camera.resize(width, height);
    }

    /// Takes in events: each is stored, and for each one rectangle is
    /// queued, in the order of the events.
    pub fn receive_events(&mut self, events: Vec<Event>)
        ensures
            final(self).data.logs@ == old(self).data.logs@ + events@,
            final(self).data.queue@ == old(self).data.queue@ + event_rects(
                event_views(events@),
                old(self).camera.init_pos,
            ),
            final(self).gpu_resources == old(self).gpu_resources,
            final(self).camera == old(self).camera,
            final(self).input_state == old(self).input_state,
    {
        let mut events = events;
        let ghost all = events@;
        let mut i: usize = 0;
        while i < events.len()
            invariant
                i <= events.len(),
                events@ == all,
                self.data.logs@ == old(self).data.logs@,
                self.data.queue@ == old(self).data.queue@ + event_rects(
                    event_views(all.take(i as int)),
                    old(self).camera.init_pos,
                ),
                self.gpu_resources == old(self).gpu_resources,
                self.camera == old(self).camera,
                self.input_state == old(self).input_state,
            decreases events.len() - i,
        {
            let primitive = GPU_Data::from_log(&events[i], &self.camera);
            self.data.push(primitive);
            i = i + 1;
            assert(self.data.queue@ =~= old(self).data.queue@ + event_rects(
                event_views(all.take(i as int)),
                old(self).camera.init_pos,
            ));
        }
        assert(all.take(i as int) =~= all);
        self.data.logs.append(&mut events);
    }

    /// Takes in a body of text, one event to a line: the events of the lines
    /// that are records are stored, and for each one rectangle is queued, in
    /// the order of the lines. Lines that are no records are passed over,
    /// and their number is returned for whoever wants to warn of them.
    pub fn receive_logs(&mut self, body: String) -> (skipped: usize)
        ensures
            skipped == lines(body@).len() - records(lines(body@)).len(),
            event_views(final(self).data.logs@) == event_views(old(self).data.logs@) + records(
                lines(body@),
            ),
            final(self).data.queue@ == old(self).data.queue@ + event_rects(
                records(lines(body@)),
                old(self).camera.init_pos,
            ),
            final(self).gpu_resources == old(self).gpu_resources,
            final(self).camera == old(self).camera,
            final(self).input_state == old(self).input_state,
    {
        let (events, skipped) = read_events(body.as_str());
        let ghost stored = events@;
        self.receive_events(events);
        assert(event_views(self.data.logs@) =~= event_views(old(self).data.logs@) + event_views(
            stored,
        ));
        skipped
    }

    /// Takes in a body as it came over the wire: its text is read as
    /// [`MyApp::receive_logs`] reads it. Bytes that are not valid UTF-8
    /// carry no text and so no events.
    pub fn receive_body(&mut self, body_bytes: Vec<u8>) -> (skipped: usize)
        ensures
            skipped == lines(spec_body_text(body_bytes@)).len() - records(
                lines(spec_body_text(body_bytes@)),
            ).len(),
            event_views(final(self).data.logs@) == event_views(old(self).data.logs@) + records(
                lines(spec_body_text(body_bytes@)),
            ),
            final(self).data.queue@ == old(self).data.queue@ + event_rects(
                records(lines(spec_body_text(body_bytes@))),
                old(self).camera.init_pos,
            ),
            final(self).gpu_resources == old(self).gpu_resources,
            final(self).camera == old(self).camera,
            final(self).input_state == old(self).input_state,
    {
        let body: String = body_text(body_bytes);
        self.receive_logs(body)
    }

    /// Brings the pipeline up. Queues the seed primitives behind whatever
    /// waits already, then loads the shader, creates the camera's buffer for
    /// a view centred on `pos_ms` and as wide as the pattern `scale` says,
    /// uploads the queue, and builds bind group, index buffer, pipeline
    /// layout and pipeline.
    ///
    /// Refused as out of order, with nothing changed, unless no resource
    /// exists yet. Refused for a queue with more primitives of one class
    /// than a buffer may hold; shader and camera buffer then exist and the
    /// queue is lost.
    pub fn create_pipeline(&mut self, pos_ms: i64, scale: u32) -> (r: Result<
        Vec<Command>,
        ResourceError,
    >)
        requires
            old(self).wf(),
        ensures
            final(self).wf(),
            final(self).data.logs@ == old(self).data.logs@,
            final(self).camera == old(self).camera,
            final(self).input_state == old(self).input_state,
            r is Ok <==> old(self).gpu_resources@.stage() == Stage::Uninitialized && started().has_room(
                old(self).data.queue@ + seed_primitives(),
            ),
            r matches Ok(commands) ==> {
                &&& pipeline_commands(
                    views(commands@),
                    old(self).data.queue@ + seed_primitives(),
                    old(self).camera.spec_to_slice(pos_ms, scale),
                )
                &&& final(self).data.queue@.len() == 0
                &&& final(self).gpu_resources@ == (ResourcesView {
                    bind_groups: true,
                    index_count: Some(INDEX_COUNT as nat),
                    pipeline_layout: true,
                    pipeline: true,
                    ..started().with_queue(old(self).data.queue@ + seed_primitives())
                })
                &&& final(self).gpu_resources@.stage() == Stage::PipelineReady
            },
            r matches Err(e) ==> {
                if old(self).gpu_resources@.stage() == Stage::Uninitialized {
                    &&& e == ResourceError::TooManyEntries
                    &&& final(self).gpu_resources@ == started()
                    &&& final(self).data.queue@.len() == 0
                } else {
                    &&& e == (ResourceError::OutOfOrder { found: old(self).gpu_resources@.stage() })
                    &&& final(self).gpu_resources == old(self).gpu_resources
                    &&& final(self).data.queue@ == old(self).data.queue@
                }
            },
    {
        let found: Stage = self.gpu_resources.stage();
        if found != Stage::Uninitialized {
            return Err(ResourceError::OutOfOrder { found });
        }
        self.data.push(GPU_Data::Color { r: GREY, g: GREY, b: GREY, a: ONE });
        self.data.push(GPU_Data::Color { r: ONE, g: ONE, b: ONE, a: ONE });
        self.data.push(
            GPU_Data::Rect {
                x: LEFT_EDGE,
                y: BAR_Y,
                w: FULL_WIDTH,
                h: BAR_HEIGHT,
                color_index: ZERO,
                fixed: ONE,
            },
        );
        let ghost primitives = old(self).data.queue@ + seed_primitives();
        assert(self.data.queue@ =~= primitives);
        proof {
            lemma_seeds_counted(old(self).data.queue@);
        }
        let mut commands: Vec<Command> = Vec::new();
        match self.gpu_resources.init_rect_shader() {
            Ok(more) => append_commands(&mut commands, more),
            Err(e) => {
                return Err(e);
            },
        }
        match self.gpu_resources.init_camera_buffer(&self.camera, pos_ms, scale) {
            Ok(more) => append_commands(&mut commands, more),
            Err(e) => {
                return Err(e);
            },
        }
        let ghost head = views(commands@);
        assert(self.gpu_resources@ == started());
        let ghost uploads: Seq<CommandView>;
        match self.gpu_resources.process_queue(&mut self.data.queue) {
            Ok(more) => {
                proof {
                    uploads = views(more@);
                }
                append_commands(&mut commands, more)
            },
            Err(e) => {
                return Err(e);
            },
        }
        let ghost loaded = self.gpu_resources@;
        assert(loaded == started().with_queue(primitives));
        assert(loaded.stage() == Stage::BuffersInitialized);
        let ghost tail: Seq<CommandView> = Seq::empty();
        match self.gpu_resources.init_combined_bind_group() {
            Ok(more) => {
                proof {
                    tail = tail + views(more@);
                }
                append_commands(&mut commands, more)
            },
            Err(e) => {
                return Err(e);
            },
        }
        match self.gpu_resources.init_index_buffer() {
            Ok(more) => {
                proof {
                    tail = tail + views(more@);
                }
                append_commands(&mut commands, more)
            },
            Err(e) => {
                return Err(e);
            },
        }
        match self.gpu_resources.init_rect_pipeline_layout() {
            Ok(more) => {
                proof {
                    tail = tail + views(more@);
                }
                append_commands(&mut commands, more)
            },
            Err(e) => {
                return Err(e);
            },
        }
        match self.gpu_resources.init_rect_pipeline() {
            Ok(more) => {
                proof {
                    tail = tail + views(more@);
                }
                append_commands(&mut commands, more)
            },
            Err(e) => {
                return Err(e);
            },
        }
        proof {
            let all = views(commands@);
            let n = all.len() as int;
            assert(all =~= head + uploads + tail);
            assert(head.len() == 3);
            assert(tail.len() == 4);
            assert(all.subrange(3, n - 4) =~= uploads);
            assert(all.subrange(n - 4, n) =~= tail);
            assert(tail =~= seq![
                CommandView::BuildBindGroup { kind: BindGroupKind::Combined },
                CommandView::CreateIndexBuffer { indices: spec_rect_indices() },
                CommandView::BuildPipelineLayout,
                CommandView::BuildPipeline {
                    array_stride: BufferClass::Rect.spec_stride(),
                    attributes: spec_rect_attributes(),
                },
            ]);
            assert(all[0] == head[0]);
            assert(all[1] == head[1]);
            assert(all[2] == head[2]);
        }
        Ok(commands)
    }

    /// One frame: uploads what is queued, overwrites the camera's uniform
    /// for a view centred on `pos_ms` and as wide as the pattern `scale`
    /// says, and draws every rectangle.
    ///
    /// Refused as out of order, with nothing changed, until the pipeline is
    /// ready. Refused for a queue with more primitives of one class than
    /// its buffer has room for; the queue is then lost and the resources
    /// stay as they were.
    pub fn render(&mut self, pos_ms: i64, scale: u32) -> (r: Result<Vec<Command>, ResourceError>)
        requires
            old(self).wf(),
        ensures
            final(self).wf(),
            final(self).data.logs@ == old(self).data.logs@,
            final(self).camera == old(self).camera,
            final(self).input_state == old(self).input_state,
            r is Ok <==> old(self).gpu_resources@.stage() == Stage::PipelineReady && old(
                self,
            ).gpu_resources@.has_room(old(self).data.queue@),
            r matches Ok(commands) ==> {
                &&& frame_commands(
                    views(commands@),
                    old(self).gpu_resources@,
                    old(self).data.queue@,
                    old(self).camera.spec_to_slice(pos_ms, scale),
                )
                &&& final(self).data.queue@.len() == 0
                &&& final(self).gpu_resources@ == old(self).gpu_resources@.with_queue(
                    old(self).data.queue@,
                )
                &&& final(self).gpu_resources@.stage() == Stage::PipelineReady
            },
            r matches Err(e) ==> {
                &&& final(self).gpu_resources == old(self).gpu_resources
                &&& if old(self).gpu_resources@.stage() == Stage::PipelineReady {
                    e == ResourceError::TooManyEntries && final(self).data.queue@.len() == 0
                } else {
                    &&& e == (ResourceError::OutOfOrder { found: old(self).gpu_resources@.stage() })
                    &&& final(self).data.queue@ == old(self).data.queue@
                }
            },
    {
        let found: Stage = self.gpu_resources.stage();
        if found != Stage::PipelineReady {
            return Err(ResourceError::OutOfOrder { found });
        }
        let mut commands: Vec<Command> = Vec::new();
        match self.gpu_resources.process_queue(&mut self.data.queue) {
            Ok(more) => append_commands(&mut commands, more),
            Err(e) => {
                return Err(e);
            },
        }
        let ghost uploads = views(commands@);
        let camera_commands = self.gpu_resources.update_camera_buffer(&self.camera, pos_ms, scale);
        let ghost write = views(camera_commands@);
        append_commands(&mut commands, camera_commands);
        match self.gpu_resources.draw() {
            Ok(more) => {
                proof {
                    let all = views(commands@) + views(more@);
                    let n = all.len() as int;
                    assert(all =~= uploads + write + views(more@));
                    assert(all.subrange(0, n - 2) =~= uploads);
                    assert(all[n - 2] == write[0]);
                    assert(all[n - 1] == views(more@)[0]);
                }
                append_commands(&mut commands, more);
                Ok(commands)
            },
            Err(e) => Err(e),
        }
    }
}

/// With the seeds queued, the queue holds a rectangle and a colour, so that
/// uploading it creates both buffers; and the seeds add one rectangle and two
/// colours to what was queued.
proof fn lemma_seeds_counted(queued: Seq<GPU_Data>)
    ensures
        class_count(queued + seed_primitives(), BufferClass::Rect) == class_count(
            queued,
            BufferClass::Rect,
        ) + 1,
        class_count(queued + seed_primitives(), BufferClass::Color) == class_count(
            queued,
            BufferClass::Color,
        ) + 2,
{
    let seeds = seed_primitives();
    lemma_class_words_concat(queued, seeds, BufferClass::Rect);
    lemma_class_words_concat(queued, seeds, BufferClass::Color);
    reveal_with_fuel(class_count, 4);
    assert(seeds.drop_last() =~= seq![seeds[0], seeds[1]]);
    assert(seeds.drop_last().drop_last() =~= seq![seeds[0]]);
    assert(seeds.drop_last().drop_last().drop_last() =~= Seq::<GPU_Data>::empty());
}

} // verus!
