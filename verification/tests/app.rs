use timeline::command::{BindGroupKind, Command};
use timeline::device_buffer::{BufferClass, Upload};
use timeline::event::Event;
use timeline::gpu_data::GPU_Data;
use timeline::gpu_resources::{GPU_Resources, ResourceError, Stage};
use timeline::camera::Dimensions;
use timeline::input_manager::{Input_State, MouseButton};
use timeline::my_app::MyApp;

const NOW: i64 = 1_700_000_000_000;
const ORIGIN: i64 = NOW - 43_200_000;

fn memory_of(words: &[u32]) -> Vec<u8> {
    words.iter().flat_map(|w| w.to_ne_bytes()).collect()
}

fn event(label: &str, timestamp: i64) -> Event {
    Event { timestamp, label: label.to_string() }
}

fn event_rect(timestamp: i64) -> GPU_Data {
    GPU_Data::Rect {
        x: ((timestamp - ORIGIN) as f32).to_bits(),
        y: 0.0f32.to_bits(),
        w: 0.001f32.to_bits(),
        h: 0.04f32.to_bits(),
        color_index: 1.0f32.to_bits(),
        fixed: 0.0f32.to_bits(),
    }
}

fn rect_words_of(timestamp: i64) -> Vec<u32> {
    vec![
        ((timestamp - ORIGIN) as f32).to_bits(),
        0.0f32.to_bits(),
        0.001f32.to_bits(),
        0.04f32.to_bits(),
        1.0f32.to_bits(),
        0.0f32.to_bits(),
    ]
}

fn seed_colors() -> Vec<u32> {
    let grey = 0.4f32.to_bits();
    let one = 1.0f32.to_bits();
    vec![grey, grey, grey, one, one, one, one, one]
}

fn seed_rect() -> Vec<u32> {
    vec![
        (-1.0f32).to_bits(),
        0.002f32.to_bits(),
        2.0f32.to_bits(),
        0.004f32.to_bits(),
        0.0f32.to_bits(),
        1.0f32.to_bits(),
    ]
}

#[test]
fn new_app_is_empty_and_looks_at_the_last_day() {
    let app = MyApp::new(NOW);
    assert!(app.data.logs.is_empty());
    assert!(app.data.queue.is_empty());
    assert_eq!(app.gpu_resources, GPU_Resources::new());
    assert_eq!(app.camera.init_pos, ORIGIN);
    assert_eq!(app.input_state, Input_State::new());
}

#[test]
fn three_events_make_three_rects_in_order_and_a_buffer_for_three() {
    let (t0, t1, t2) = (NOW - 3000, NOW - 2000, NOW - 1000);
    let mut app = MyApp::new(NOW);
    app.receive_events(vec![event("a", t0), event("b", t1), event("c", t2)]);
    assert_eq!(app.data.logs, vec![event("a", t0), event("b", t1), event("c", t2)]);
    let queued: Vec<GPU_Data> = app.data.queue.iter().copied().collect();
    assert_eq!(queued, vec![event_rect(t0), event_rect(t1), event_rect(t2)]);

    app.gpu_resources.init_rect_shader().unwrap();
    let commands = app.gpu_resources.process_queue(&mut app.data.queue).unwrap();
    assert!(app.data.queue.is_empty());
    let mut words = rect_words_of(t0);
    words.extend(rect_words_of(t1));
    words.extend(rect_words_of(t2));
    assert_eq!(
        commands,
        vec![Command::Upload {
            class: BufferClass::Rect,
            upload: Upload::Create { size: 3 * 24, data: memory_of(&words) },
        }]
    );
    let buffer = app.gpu_resources.rect_buffer().unwrap();
    assert_eq!(buffer.logical_count(), 3);
    assert_eq!(buffer.capacity_bytes(), 3 * 24);
    assert_eq!(app.gpu_resources.color_buffer(), None);
}

#[test]
fn receive_events_queues_only_the_new_events() {
    let mut app = MyApp::new(NOW);
    app.receive_events(vec![event("a", NOW - 10)]);
    app.receive_events(vec![event("b", NOW - 5), event("c", NOW - 1)]);
    assert_eq!(app.data.logs.len(), 3);
    let queued: Vec<GPU_Data> = app.data.queue.iter().copied().collect();
    assert_eq!(queued, vec![event_rect(NOW - 10), event_rect(NOW - 5), event_rect(NOW - 1)]);
    app.receive_events(Vec::new());
    assert_eq!(app.data.logs.len(), 3);
    assert_eq!(app.data.queue.len(), 3);
}

#[test]
fn create_pipeline_brings_everything_up_in_order() {
    let mut app = MyApp::new(NOW);
    app.receive_events(vec![event("early", NOW - 500)]);
    let scale = 86_400_000.0f32.to_bits();
    let commands = app.create_pipeline(ORIGIN, scale).unwrap();
    let mut rects = rect_words_of(NOW - 500);
    rects.extend(seed_rect());
    assert_eq!(commands.len(), 10);
    assert_eq!(commands[0], Command::LoadShader);
    assert_eq!(
        commands[1],
        Command::CreateCameraBuffer { data: memory_of(&[0, scale, 0, 0]) }
    );
    assert_eq!(commands[2], Command::BuildBindGroup { kind: BindGroupKind::Camera });
    assert_eq!(
        commands[3],
        Command::Upload {
            class: BufferClass::Rect,
            upload: Upload::Create { size: 48, data: memory_of(&rects) },
        }
    );
    assert_eq!(
        commands[4],
        Command::Upload {
            class: BufferClass::Color,
            upload: Upload::Create { size: 32, data: memory_of(&seed_colors()) },
        }
    );
    assert_eq!(commands[5], Command::BuildBindGroup { kind: BindGroupKind::Color });
    assert_eq!(commands[6], Command::BuildBindGroup { kind: BindGroupKind::Combined });
    assert_eq!(commands[7], Command::CreateIndexBuffer { indices: vec![0, 1, 2, 2, 3, 0] });
    assert_eq!(commands[8], Command::BuildPipelineLayout);
    assert!(matches!(commands[9], Command::BuildPipeline { array_stride: 24, .. }));
    assert_eq!(app.gpu_resources.stage(), Stage::PipelineReady);
    assert_eq!(app.gpu_resources.rect_count(), Some(2));
    assert_eq!(app.gpu_resources.color_buffer().unwrap().logical_count(), 2);
    assert!(app.data.queue.is_empty());
    assert_eq!(app.data.logs.len(), 1);
}

#[test]
fn create_pipeline_can_run_once_only() {
    let mut app = MyApp::new(NOW);
    app.create_pipeline(ORIGIN, 0).unwrap();
    app.receive_events(vec![event("late", NOW)]);
    let before = app.gpu_resources;
    assert_eq!(
        app.create_pipeline(ORIGIN, 0).unwrap_err(),
        ResourceError::OutOfOrder { found: Stage::PipelineReady }
    );
    assert_eq!(app.gpu_resources, before);
    assert_eq!(app.data.queue.len(), 1);
}

#[test]
fn render_waits_for_the_pipeline() {
    let mut app = MyApp::new(NOW);
    app.receive_events(vec![event("a", NOW)]);
    assert_eq!(
        app.render(ORIGIN, 0).unwrap_err(),
        ResourceError::OutOfOrder { found: Stage::Uninitialized }
    );
    assert_eq!(app.data.queue.len(), 1);
    assert_eq!(app.gpu_resources, GPU_Resources::new());
}

#[test]
fn render_uploads_the_queue_then_writes_the_camera_then_draws() {
    let mut app = MyApp::new(NOW);
    app.create_pipeline(ORIGIN, 0).unwrap();
    let scale = 1000.0f32.to_bits();

    let quiet = app.render(ORIGIN + 250, scale).unwrap();
    assert_eq!(
        quiet,
        vec![
            Command::WriteCamera { data: memory_of(&[(-250.0f32).to_bits(), scale, 0, 0]) },
            Command::Draw { index_count: 6, instance_count: 1 },
        ]
    );

    app.receive_events(vec![event("a", NOW - 20), event("b", NOW - 10)]);
    let busy = app.render(ORIGIN, scale).unwrap();
    let mut words = rect_words_of(NOW - 20);
    words.extend(rect_words_of(NOW - 10));
    assert_eq!(
        busy,
        vec![
            Command::Upload {
                class: BufferClass::Rect,
                upload: Upload::Grow {
                    size: 2 * 3 * 24,
                    copy_size: 24,
                    offset: 24,
                    data: memory_of(&words),
                },
            },
            Command::WriteCamera { data: memory_of(&[0, scale, 0, 0]) },
            Command::Draw { index_count: 6, instance_count: 3 },
        ]
    );
    assert!(app.data.queue.is_empty());

    app.receive_events(vec![event("c", NOW)]);
    let next = app.render(ORIGIN, scale).unwrap();
    assert!(matches!(
        &next[0],
        Command::Upload { class: BufferClass::Rect, upload: Upload::Write { offset: 72, .. } }
    ));
    assert_eq!(next[2], Command::Draw { index_count: 6, instance_count: 4 });
}

#[test]
fn click_and_resize_touch_their_own_part_only() {
    let mut app = MyApp::new(NOW);
    app.receive_events(vec![event("a", NOW)]);
    app.click(MouseButton::Left, true);
    assert_eq!(app.input_state, Input_State { left: true, right: false });
    app.click(MouseButton::Middle, true);
    assert_eq!(app.input_state, Input_State { left: true, right: false });
    app.resize(1000, 500);
    assert_eq!(app.camera.dimensions, Dimensions { width: 1000, height: 500 });
    assert_eq!(app.camera.init_pos, ORIGIN);
    assert_eq!(app.data.logs.len(), 1);
    assert_eq!(app.data.queue.len(), 1);
    assert_eq!(app.gpu_resources, GPU_Resources::new());
    app.click(MouseButton::Left, false);
    assert_eq!(app.input_state, Input_State::new());
}
