//! Scene encoding for a 2D signed-distance-field renderer: a render tree is
//! flattened into a stream of render commands and a stream of transforms,
//! each kept in the host-side shadow of a GPU storage buffer whose bytes
//! follow the WGSL storage layout.
pub mod element_tree;
pub mod gpu_vec;
pub mod render_element;
pub mod render_queue;
pub mod shader_layout;
pub mod surface;

pub use element_tree::{insert_render_element, RenderElement, RenderElementTree};
pub use gpu_vec::GPUVec;
pub use render_element::{derive_buffers_from_node, Node, Transform, BLEND_COMMAND, CIRCLE_COMMAND};
pub use render_queue::{RenderCommand, RenderQueue};
pub use shader_layout::{storage_fits, ShaderItem};
pub use surface::{accepts_size, workgroup_count, WORKGROUP_EDGE};
