# mini_zinc

A small inference engine for neural networks exported in the PNNX format,
with its core written in Verus and proved against its contracts.

## Layout

- `src/` — the verified library:
  - `text.rs`, `value_parser.rs`: reading numbers, tuples and type names.
  - `pnnx_reader.rs`: the model text (header, layer lines, `key=value`
    pairs) and the tensor names, shapes and types it declares.
  - `node.rs`: what each layer line asks for (`LayerDesc`).
  - `graph.rs`, `schedule.rs`: the computation graph and the order of a
    forward pass — which node runs next, which blobs it reads, and when a
    blob can be let go.
  - `tensor.rs` and `op/`: dense row-major tensors and the layers that
    move, select or copy elements (view, flatten, transpose, expand, cat,
    split, unsqueeze, embedding, masked fill, nearest upsampling, type
    conversion decisions), and the grammar of element-wise expressions.
  - `weights.rs`: decoding little-endian tensor data from the weight archive.
  - `server.rs`: choosing the model, accepting one request at a time, and the
    element type names used on the wire.
- `app/` — the program around it: file and archive reading, the
  floating-point layers, the HTTP server.
- `tests/` — tests of the library.
