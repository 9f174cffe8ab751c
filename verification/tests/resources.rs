use std::collections::VecDeque;
use timeline::camera::{Camera, Dimensions};
use timeline::command::{BindGroupKind, Command, VertexAttribute, VertexFormat};
use timeline::device_buffer::{BufferClass, BufferError, DeviceBuffer, Upload};
use timeline::gpu_data::GPU_Data;
use timeline::gpu_resources::{GPU_Resources, ResourceError, Stage, INDEX_COUNT};

fn camera() -> Camera {
    Camera { init_pos: 1_000_000, dimensions: Dimensions { width: 800, height: 600 } }
}

fn rect(k: u32) -> GPU_Data {
    GPU_Data::Rect { x: k, y: k + 1, w: k + 2, h: k + 3, color_index: k + 4, fixed: k + 5 }
}

fn color(k: u32) -> GPU_Data {
    GPU_Data::Color { r: k, g: k + 1, b: k + 2, a: k + 3 }
}

fn memory_of(words: &[u32]) -> Vec<u8> {
    words.iter().flat_map(|w| w.to_ne_bytes()).collect()
}

fn queue_of(primitives: &[GPU_Data]) -> VecDeque<GPU_Data> {
    primitives.iter().copied().collect()
}

fn build(kind: BindGroupKind) -> Command {
    Command::BuildBindGroup { kind }
}

/// Resources brought up to the ready pipeline, with one rectangle and one
/// colour on the device.
fn ready() -> GPU_Resources {
    let mut resources = GPU_Resources::new();
    resources.init_rect_shader().unwrap();
    resources.init_camera_buffer(&camera(), 0, 0).unwrap();
    resources.process_queue(&mut queue_of(&[color(0), rect(0)])).unwrap();
    resources.init_combined_bind_group().unwrap();
    resources.init_index_buffer().unwrap();
    resources.init_rect_pipeline_layout().unwrap();
    resources.init_rect_pipeline().unwrap();
    resources
}

#[test]
fn new_resources_hold_nothing() {
    let resources = GPU_Resources::new();
    assert_eq!(resources.stage(), Stage::Uninitialized);
    assert_eq!(resources.rect_buffer(), None);
    assert_eq!(resources.color_buffer(), None);
    assert_eq!(resources.rect_count(), None);
    assert_eq!(resources.index_count(), None);
}

#[test]
fn lifecycle_in_order_reaches_the_ready_pipeline() {
    let mut resources = GPU_Resources::new();
    assert_eq!(resources.init_rect_shader().unwrap(), vec![Command::LoadShader]);
    assert_eq!(resources.stage(), Stage::ShaderLoaded);

    let commands = resources.init_camera_buffer(&camera(), 1_000_250, 99).unwrap();
    let uniform = [(-250.0f32).to_bits(), 99, 0, 0];
    assert_eq!(
        commands,
        vec![
            Command::CreateCameraBuffer { data: memory_of(&uniform) },
            build(BindGroupKind::Camera),
        ]
    );
    assert_eq!(resources.stage(), Stage::ShaderLoaded);

    let commands = resources.init_rect_buffer(vec![1, 2, 3, 4, 5, 6]).unwrap();
    assert_eq!(
        commands,
        vec![Command::Upload {
            class: BufferClass::Rect,
            upload: Upload::Create { size: 24, data: memory_of(&[1, 2, 3, 4, 5, 6]) },
        }]
    );
    assert_eq!(resources.stage(), Stage::ShaderLoaded);
    assert_eq!(resources.rect_count(), Some(1));

    let commands = resources.init_color_buffer(vec![7, 8, 9, 10, 11, 12, 13, 14]).unwrap();
    assert_eq!(
        commands,
        vec![
            Command::Upload {
                class: BufferClass::Color,
                upload: Upload::Create {
                    size: 32,
                    data: memory_of(&[7, 8, 9, 10, 11, 12, 13, 14]),
                },
            },
            build(BindGroupKind::Color),
        ]
    );
    assert_eq!(resources.stage(), Stage::BuffersInitialized);
    assert_eq!(resources.color_buffer().unwrap().logical_count(), 2);

    assert_eq!(
        resources.init_combined_bind_group().unwrap(),
        vec![build(BindGroupKind::Combined)]
    );
    assert_eq!(resources.stage(), Stage::BindGroupsBuilt);

    assert_eq!(
        resources.init_index_buffer().unwrap(),
        vec![Command::CreateIndexBuffer { indices: vec![0, 1, 2, 2, 3, 0] }]
    );
    assert_eq!(resources.index_count(), Some(6));
    assert_eq!(INDEX_COUNT, 6);

    assert_eq!(
        resources.init_rect_pipeline_layout().unwrap(),
        vec![Command::BuildPipelineLayout]
    );
    assert_eq!(resources.stage(), Stage::BindGroupsBuilt);

    let attribute = |format, offset, shader_location| VertexAttribute {
        format,
        offset,
        shader_location,
    };
    assert_eq!(
        resources.init_rect_pipeline().unwrap(),
        vec![Command::BuildPipeline {
            array_stride: 24,
            attributes: vec![
                attribute(VertexFormat::Float32x2, 0, 0),
                attribute(VertexFormat::Float32x2, 8, 1),
                attribute(VertexFormat::Float32, 16, 2),
                attribute(VertexFormat::Float32, 20, 3),
            ],
        }]
    );
    assert_eq!(resources.stage(), Stage::PipelineReady);
    assert_eq!(
        resources.draw().unwrap(),
        vec![Command::Draw { index_count: 6, instance_count: 1 }]
    );
}

#[test]
fn nothing_but_the_shader_can_come_first() {
    let out_of_order = ResourceError::OutOfOrder { found: Stage::Uninitialized };
    let mut resources = GPU_Resources::new();
    assert_eq!(resources.init_camera_buffer(&camera(), 0, 0).unwrap_err(), out_of_order);
    assert_eq!(resources.init_rect_buffer(vec![0; 6]).unwrap_err(), out_of_order);
    assert_eq!(resources.init_color_buffer(vec![0; 4]).unwrap_err(), out_of_order);
    assert_eq!(resources.init_index_buffer().unwrap_err(), out_of_order);
    assert_eq!(resources.init_combined_bind_group().unwrap_err(), out_of_order);
    assert_eq!(resources.init_rect_pipeline_layout().unwrap_err(), out_of_order);
    assert_eq!(resources.init_rect_pipeline().unwrap_err(), out_of_order);
    assert_eq!(resources.draw().unwrap_err(), out_of_order);
    let mut queue = queue_of(&[rect(0)]);
    assert_eq!(resources.process_queue(&mut queue).unwrap_err(), out_of_order);
    assert_eq!(queue, queue_of(&[rect(0)]));
    assert_eq!(resources, GPU_Resources::new());
    assert!(resources.update_camera_buffer(&camera(), 0, 0).is_empty());
}

#[test]
fn no_step_can_be_taken_twice() {
    let mut resources = GPU_Resources::new();
    resources.init_rect_shader().unwrap();
    let found = ResourceError::OutOfOrder { found: Stage::ShaderLoaded };
    assert_eq!(resources.init_rect_shader().unwrap_err(), found);
    resources.init_camera_buffer(&camera(), 0, 0).unwrap();
    assert_eq!(resources.init_camera_buffer(&camera(), 0, 0).unwrap_err(), found);
    resources.init_rect_buffer(vec![0; 6]).unwrap();
    assert_eq!(resources.init_rect_buffer(vec![0; 6]).unwrap_err(), found);
    resources.init_index_buffer().unwrap();
    assert_eq!(resources.init_index_buffer().unwrap_err(), found);
    resources.init_color_buffer(vec![0; 4]).unwrap();
    let found = ResourceError::OutOfOrder { found: Stage::BuffersInitialized };
    assert_eq!(resources.init_color_buffer(vec![0; 4]).unwrap_err(), found);
    resources.init_combined_bind_group().unwrap();
    let found = ResourceError::OutOfOrder { found: Stage::BindGroupsBuilt };
    assert_eq!(resources.init_combined_bind_group().unwrap_err(), found);
    resources.init_rect_pipeline_layout().unwrap();
    assert_eq!(resources.init_rect_pipeline_layout().unwrap_err(), found);
    resources.init_rect_pipeline().unwrap();
    let found = ResourceError::OutOfOrder { found: Stage::PipelineReady };
    assert_eq!(resources.init_rect_pipeline().unwrap_err(), found);
    assert_eq!(resources.init_rect_shader().unwrap_err(), found);
}

#[test]
fn bind_groups_wait_for_all_three_buffers() {
    let mut resources = GPU_Resources::new();
    resources.init_rect_shader().unwrap();
    let found = ResourceError::OutOfOrder { found: Stage::ShaderLoaded };
    assert_eq!(resources.init_combined_bind_group().unwrap_err(), found);
    resources.init_camera_buffer(&camera(), 0, 0).unwrap();
    resources.init_color_buffer(vec![0; 4]).unwrap();
    assert_eq!(resources.init_combined_bind_group().unwrap_err(), found);
    assert_eq!(resources.init_rect_pipeline_layout().unwrap_err(), found);
    resources.init_rect_buffer(vec![0; 6]).unwrap();
    assert!(resources.init_combined_bind_group().is_ok());
}

#[test]
fn pipeline_waits_for_its_layout_and_the_index_buffer() {
    let mut resources = GPU_Resources::new();
    resources.init_rect_shader().unwrap();
    resources.init_camera_buffer(&camera(), 0, 0).unwrap();
    resources.process_queue(&mut queue_of(&[color(0), rect(0)])).unwrap();
    let found = ResourceError::OutOfOrder { found: Stage::BuffersInitialized };
    assert_eq!(resources.init_rect_pipeline_layout().unwrap_err(), found);
    assert_eq!(resources.init_rect_pipeline().unwrap_err(), found);
    resources.init_combined_bind_group().unwrap();
    let found = ResourceError::OutOfOrder { found: Stage::BindGroupsBuilt };
    assert_eq!(resources.init_rect_pipeline().unwrap_err(), found);
    resources.init_rect_pipeline_layout().unwrap();
    assert_eq!(resources.init_rect_pipeline().unwrap_err(), found);
    assert_eq!(resources.draw().unwrap_err(), found);
    resources.init_index_buffer().unwrap();
    assert!(resources.init_rect_pipeline().is_ok());
    assert!(resources.draw().is_ok());
}

#[test]
fn draining_an_empty_queue_changes_nothing_and_asks_nothing() {
    let mut fresh = GPU_Resources::new();
    assert_eq!(fresh.process_queue(&mut VecDeque::new()).unwrap(), Vec::new());
    assert_eq!(fresh, GPU_Resources::new());

    let mut resources = ready();
    let before = resources;
    let mut queue = VecDeque::new();
    assert_eq!(resources.process_queue(&mut queue).unwrap(), Vec::new());
    assert_eq!(resources, before);
    assert!(queue.is_empty());
}

#[test]
fn queue_is_uploaded_rects_first_then_colors_each_in_order() {
    let mut resources = GPU_Resources::new();
    resources.init_rect_shader().unwrap();
    let mut queue = queue_of(&[color(100), rect(10), color(200), rect(20), rect(30)]);
    let commands = resources.process_queue(&mut queue).unwrap();
    assert!(queue.is_empty());
    let rect_words = [10, 11, 12, 13, 14, 15, 20, 21, 22, 23, 24, 25, 30, 31, 32, 33, 34, 35];
    let color_words = [100, 101, 102, 103, 200, 201, 202, 203];
    assert_eq!(
        commands,
        vec![
            Command::Upload {
                class: BufferClass::Rect,
                upload: Upload::Create { size: 72, data: memory_of(&rect_words) },
            },
            Command::Upload {
                class: BufferClass::Color,
                upload: Upload::Create { size: 32, data: memory_of(&color_words) },
            },
            build(BindGroupKind::Color),
        ]
    );
    assert_eq!(resources.rect_count(), Some(3));
    assert_eq!(resources.color_buffer().unwrap().logical_count(), 2);
}

#[test]
fn queue_of_one_class_leaves_the_other_buffer_alone() {
    let mut resources = ready();
    let colors_before = resources.color_buffer();
    let commands = resources.process_queue(&mut queue_of(&[rect(7)])).unwrap();
    assert_eq!(commands.len(), 1);
    assert!(matches!(
        &commands[0],
        Command::Upload { class: BufferClass::Rect, upload: Upload::Grow { .. } }
    ));
    assert_eq!(resources.color_buffer(), colors_before);
    assert_eq!(resources.rect_count(), Some(2));

    let rects_before = resources.rect_buffer();
    let mut only_colors = GPU_Resources::new();
    only_colors.init_rect_shader().unwrap();
    only_colors.process_queue(&mut queue_of(&[color(1)])).unwrap();
    assert_eq!(only_colors.rect_buffer(), None);
    assert_eq!(only_colors.stage(), Stage::ShaderLoaded);
    assert_eq!(resources.rect_buffer(), rects_before);
}

#[test]
fn regrown_colors_have_every_bind_group_over_them_rebuilt() {
    let mut resources = ready();
    let commands = resources.process_queue(&mut queue_of(&[color(50)])).unwrap();
    assert_eq!(
        commands,
        vec![
            Command::Upload {
                class: BufferClass::Color,
                upload: Upload::Grow {
                    size: 64,
                    copy_size: 16,
                    offset: 16,
                    data: memory_of(&[50, 51, 52, 53]),
                },
            },
            build(BindGroupKind::Color),
            build(BindGroupKind::Combined),
        ]
    );
    let commands = resources.process_queue(&mut queue_of(&[color(60)])).unwrap();
    assert_eq!(
        commands,
        vec![Command::Upload {
            class: BufferClass::Color,
            upload: Upload::Write { offset: 32, data: memory_of(&[60, 61, 62, 63]) },
        }]
    );
    assert_eq!(resources.stage(), Stage::PipelineReady);
}

#[test]
fn regrown_colors_before_the_combined_group_rebuild_their_own_group_only() {
    let mut resources = GPU_Resources::new();
    resources.init_rect_shader().unwrap();
    resources.process_queue(&mut queue_of(&[color(1)])).unwrap();
    let commands = resources.process_queue(&mut queue_of(&[color(2)])).unwrap();
    assert_eq!(commands.len(), 2);
    assert!(matches!(
        &commands[0],
        Command::Upload { class: BufferClass::Color, upload: Upload::Grow { .. } }
    ));
    assert_eq!(commands[1], build(BindGroupKind::Color));
}

#[test]
fn regrown_rects_need_no_bind_group() {
    let mut resources = ready();
    let commands = resources.process_queue(&mut queue_of(&[rect(1), rect(2)])).unwrap();
    assert_eq!(
        commands,
        vec![Command::Upload {
            class: BufferClass::Rect,
            upload: Upload::Grow {
                size: 144,
                copy_size: 24,
                offset: 24,
                data: memory_of(&[1, 2, 3, 4, 5, 6, 2, 3, 4, 5, 6, 7]),
            },
        }]
    );
    assert_eq!(
        resources.draw().unwrap(),
        vec![Command::Draw { index_count: 6, instance_count: 3 }]
    );
}

#[test]
fn camera_uniform_is_overwritten_once_its_buffer_exists() {
    let mut resources = GPU_Resources::new();
    resources.init_rect_shader().unwrap();
    assert!(resources.update_camera_buffer(&camera(), 5, 6).is_empty());
    resources.init_camera_buffer(&camera(), 5, 6).unwrap();
    let scale = 86_400_000.0f32.to_bits();
    assert_eq!(
        resources.update_camera_buffer(&camera(), 0, scale),
        vec![Command::WriteCamera {
            data: memory_of(&[1_000_000.0f32.to_bits(), scale, 0, 0]),
        }]
    );
}

#[test]
fn rect_attributes_tile_the_instance() {
    let mut resources = ready();
    let _ = &mut resources;
    let mut fresh = GPU_Resources::new();
    fresh.init_rect_shader().unwrap();
    fresh.init_camera_buffer(&camera(), 0, 0).unwrap();
    fresh.process_queue(&mut queue_of(&[color(0), rect(0)])).unwrap();
    fresh.init_combined_bind_group().unwrap();
    fresh.init_index_buffer().unwrap();
    fresh.init_rect_pipeline_layout().unwrap();
    match &fresh.init_rect_pipeline().unwrap()[0] {
        Command::BuildPipeline { array_stride, attributes } => {
            let mut at = 0u64;
            for (k, attribute) in attributes.iter().enumerate() {
                assert_eq!(attribute.offset, at);
                assert_eq!(attribute.shader_location as usize, k);
                at += match attribute.format {
                    VertexFormat::Float32 => 4,
                    VertexFormat::Float32x2 => 8,
                };
            }
            assert_eq!(at, *array_stride);
            assert_eq!(*array_stride, BufferClass::Rect.stride_bytes());
        }
        other => panic!("expected the pipeline, got {:?}", other),
    }
}

#[test]
fn a_full_buffer_is_reported_as_too_many_entries() {
    let mut full =
        DeviceBuffer::from_parts(BufferClass::Color, u32::MAX as u64 * 16, u32::MAX).unwrap();
    let refused = full.append(&vec![0, 0, 0, 0]).unwrap_err();
    assert_eq!(refused, BufferError::TooManyEntries);
    assert_eq!(ResourceError::from(refused), ResourceError::TooManyEntries);
}
