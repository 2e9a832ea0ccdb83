use dust_renderer::{
    accepts_size, derive_buffers_from_node, insert_render_element, workgroup_count, GPUVec, Node,
    RenderCommand, RenderElement, RenderElementTree, RenderQueue, Transform, BLEND_COMMAND,
    CIRCLE_COMMAND,
};

fn transform_from(values: [f32; 9]) -> Transform {
    let mut cols = [0u32; 9];
    for i in 0..9 {
        cols[i] = values[i].to_bits();
    }
    Transform { cols }
}

fn circle(radius: f32, x: f32) -> Node {
    Node::Circle {
        radius_bits: radius.to_bits(),
        transform: transform_from([1.0, 0.0, x, 0.0, 1.0, x, 0.0, 0.0, 1.0]),
    }
}

fn cmd(command: u32) -> RenderCommand {
    RenderCommand { id: 0, command }
}

#[test]
fn render_queue_new_is_empty() {
    let q = RenderQueue::new("main queue");
    assert_eq!(q.label, "main queue");
    assert!(q.commands.is_empty());
}

#[test]
fn circle_flattens_to_one_command_and_its_transform() {
    let node = circle(10.0, -100.0);
    let (commands, transforms) = derive_buffers_from_node(&node);
    assert_eq!(commands, vec![cmd(CIRCLE_COMMAND)]);
    assert_eq!(transforms, vec![transform_from([1.0, 0.0, -100.0, 0.0, 1.0, -100.0, 0.0, 0.0, 1.0])]);
}

#[test]
fn blend_of_two_circles_closes_with_blend_command() {
    let node = Node::Blend { layers: vec![circle(10.0, -100.0), circle(10.0, -200.0)] };
    let (commands, transforms) = derive_buffers_from_node(&node);
    assert_eq!(commands, vec![cmd(2), cmd(2), cmd(1)]);
    assert_eq!(
        transforms,
        vec![
            transform_from([1.0, 0.0, -100.0, 0.0, 1.0, -100.0, 0.0, 0.0, 1.0]),
            transform_from([1.0, 0.0, -200.0, 0.0, 1.0, -200.0, 0.0, 0.0, 1.0]),
        ]
    );
}

#[test]
fn empty_blend_is_a_lone_blend_command() {
    let node = Node::Blend { layers: vec![] };
    let (commands, transforms) = derive_buffers_from_node(&node);
    assert_eq!(commands, vec![cmd(BLEND_COMMAND)]);
    assert!(transforms.is_empty());
}

#[test]
fn overwrite_passes_its_children_through() {
    let node = Node::Overwrite {
        commands: vec![circle(1.0, 1.0), Node::Blend { layers: vec![circle(2.0, 2.0)] }],
    };
    let (commands, transforms) = derive_buffers_from_node(&node);
    assert_eq!(commands, vec![cmd(2), cmd(2), cmd(1)]);
    assert_eq!(transforms.len(), 2);
    assert_eq!(transforms[0], transform_from([1.0, 0.0, 1.0, 0.0, 1.0, 1.0, 0.0, 0.0, 1.0]));
    assert_eq!(transforms[1], transform_from([1.0, 0.0, 2.0, 0.0, 1.0, 2.0, 0.0, 0.0, 1.0]));
}

#[test]
fn nested_blends_flatten_in_post_order() {
    let node = Node::Blend {
        layers: vec![
            Node::Blend { layers: vec![circle(1.0, 1.0), circle(2.0, 2.0)] },
            circle(3.0, 3.0),
            Node::Overwrite { commands: vec![] },
        ],
    };
    let (commands, transforms) = derive_buffers_from_node(&node);
    assert_eq!(commands, vec![cmd(2), cmd(2), cmd(1), cmd(2), cmd(1)]);
    let circles = commands.iter().filter(|c| c.command == CIRCLE_COMMAND).count();
    assert_eq!(circles, transforms.len());
    assert_eq!(transforms[2], transform_from([1.0, 0.0, 3.0, 0.0, 1.0, 3.0, 0.0, 0.0, 1.0]));
}

#[test]
fn command_vector_encodes_little_endian_pairs() {
    let (v, bytes) = GPUVec::new_from(
        "rq",
        vec![RenderCommand { id: 0, command: 0 }, RenderCommand { id: 1, command: 0x0403_0201 }],
    );
    assert_eq!(bytes, vec![0, 0, 0, 0, 0, 0, 0, 0, 1, 0, 0, 0, 1, 2, 3, 4]);
    assert_eq!(v.capacity(), 16);
    assert_eq!(v.len(), 2);
    assert_eq!(v.label(), "rq");
    assert_eq!(v.index(1), RenderCommand { id: 1, command: 0x0403_0201 });
}

#[test]
fn empty_command_vector_occupies_one_stride() {
    let (v, bytes) = GPUVec::<RenderCommand>::new_from("empty", vec![]);
    assert_eq!(bytes, vec![0u8; 8]);
    assert_eq!(v.capacity(), 8);
    assert_eq!(v.len(), 0);
}

#[test]
fn transform_vector_encodes_padded_columns() {
    let t = Transform { cols: [1, 2, 3, 4, 5, 6, 7, 8, 0x0a0b_0c0d] };
    let (v, bytes) = GPUVec::new_from("transforms", vec![t]);
    let expected: Vec<u8> = vec![
        1, 0, 0, 0, 2, 0, 0, 0, 3, 0, 0, 0, 0, 0, 0, 0, //
        4, 0, 0, 0, 5, 0, 0, 0, 6, 0, 0, 0, 0, 0, 0, 0, //
        7, 0, 0, 0, 8, 0, 0, 0, 0x0d, 0x0c, 0x0b, 0x0a, 0, 0, 0, 0,
    ];
    assert_eq!(bytes, expected);
    assert_eq!(v.capacity(), 48);
}

#[test]
fn transform_vector_matches_float_matrix_layout() {
    let t = transform_from([1.0, 1.0, 1.0, 0.0, 1.0, 0.0, 0.0, 0.0, 1.0]);
    let (_, bytes) = GPUVec::new_from("transforms", vec![t, t]);
    assert_eq!(bytes.len(), 96);
    assert_eq!(&bytes[0..4], &1.0f32.to_le_bytes());
    assert_eq!(&bytes[12..16], &[0, 0, 0, 0]);
    assert_eq!(&bytes[16..20], &0.0f32.to_le_bytes());
    assert_eq!(&bytes[20..24], &1.0f32.to_le_bytes());
    assert_eq!(&bytes[32..36], &0.0f32.to_le_bytes());
    assert_eq!(&bytes[40..44], &1.0f32.to_le_bytes());
    assert_eq!(&bytes[48..96], &bytes[0..48]);
}

#[test]
fn update_reallocates_only_when_data_outgrows_buffer() {
    let (mut v, _) = GPUVec::new_from("rq", vec![cmd(0), cmd(0)]);
    assert_eq!(v.capacity(), 16);

    let (bytes, realloc) = v.update();
    assert!(!realloc);
    assert_eq!(bytes.len(), 16);

    v.push(cmd(2));
    let (bytes, realloc) = v.update();
    assert!(realloc);
    assert_eq!(bytes.len(), 24);
    assert_eq!(v.capacity(), 24);

    let (_, realloc) = v.update();
    assert!(!realloc);

    v.replace(vec![cmd(1)]);
    let (bytes, realloc) = v.update();
    assert!(!realloc);
    assert_eq!(bytes, vec![0, 0, 0, 0, 1, 0, 0, 0]);
    assert_eq!(v.capacity(), 24);

    v.clear();
    assert_eq!(v.len(), 0);
    let (bytes, realloc) = v.update();
    assert!(!realloc);
    assert_eq!(bytes, vec![0u8; 8]);
    assert_eq!(v.capacity(), 24);
    assert_eq!(v.label(), "rq");
}

#[test]
fn update_keeps_data() {
    let (mut v, _) = GPUVec::new_from("rq", vec![cmd(5)]);
    v.push(cmd(6));
    let _ = v.update();
    assert_eq!(v.data, vec![cmd(5), cmd(6)]);
}

#[test]
fn tree_hands_out_least_free_keys() {
    let mut tree = RenderElementTree::new("tree");
    assert_eq!(tree.insert(RenderElement {}), Ok(0));
    assert_eq!(tree.insert(RenderElement {}), Ok(1));
    assert_eq!(tree.insert(RenderElement {}), Ok(2));
    assert_eq!(tree.render_elements.len(), 3);
}

#[test]
fn tree_fills_gaps_first() {
    let mut tree = RenderElementTree::new("tree");
    tree.render_elements.insert(0, RenderElement {});
    tree.render_elements.insert(2, RenderElement {});
    assert_eq!(insert_render_element(&mut tree, RenderElement {}), 1);
    assert_eq!(insert_render_element(&mut tree, RenderElement {}), 3);
    assert!(tree.render_elements.contains_key(&1));
    assert!(tree.render_elements.contains_key(&3));
    assert_eq!(tree.label, "tree");
}

#[test]
fn workgroups_cover_window() {
    assert_eq!(workgroup_count(300, 300), (19, 19, 1));
    assert_eq!(workgroup_count(0, 16), (1, 2, 1));
    assert_eq!(workgroup_count(u32::MAX, 15), (268_435_456, 1, 1));
}

#[test]
fn zero_sides_are_not_taken() {
    assert!(accepts_size(300, 200));
    assert!(!accepts_size(0, 200));
    assert!(!accepts_size(300, 0));
}
