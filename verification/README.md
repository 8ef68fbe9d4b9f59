# llama_serve

The decisions of a service for language models, verified with Verus.

- `src/service_`, `src/service`: conversations, their caches, and chat requests over the network.
- `src/engine.rs`, `src/group.rs`, `src/output_head.rs`: rounds of requests on one or more devices.
- `src/tensor.rs`, `src/kv_cache.rs`, `src/exec.rs`: layouts of arrays, paged key-value caches, and
  what a compiled model needs in a round.
- `src/model.rs`, `src/mono.rs`: models read from GGUF files, and generating on one device.
- `src/chat`: chats line by line and on a screen.
- `src/text.rs`, `src/session.rs`: what the others share.

`app` is the program around the library: arguments, the terminal, the network, and what is left to
the devices. A device backend is linked in by adding it to the lists in `app/backend.rs` and
`app/generate.rs`.
