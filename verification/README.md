# dust_renderer

A 2D renderer built on signed distance fields. Shapes are described as a
render tree (`Node`); each frame the tree is flattened into two streams that
a compute shader reads from storage buffers: render commands and 3x3
transforms.

- `src/` is the verified library:
  - `render_element`: the render tree and its flattening
    (`derive_buffers_from_node`), specified by `node_commands` /
    `node_transforms`, with the proof that circle commands and transforms
    always pair up.
  - `shader_layout`: the WGSL storage layout of both streams and the
    encoders that produce it with `encase`.
  - `gpu_vec`: the host side of a storage-buffer vector: its elements, the
    size of the device buffer, and when an upload needs a new buffer.
  - `element_tree`: render elements stored under the least free integer key.
  - `render_queue`, `surface`: command queues, workgroup counts and accepted
    surface sizes.
- `app/` opens a window, creates the `wgpu` device, pipelines, textures and
  bind groups, and uploads what the library computes. The compute and blit
  shaders are read at start-up from `src/dust.wgsl` and
  `src/paint_image.wgsl` under the working directory.
- `tests/` runs the library on concrete scenes and byte layouts.
