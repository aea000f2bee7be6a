[package]
name = "thos"
version = "0.1.0"
edition = "2021"
publish = false

[dependencies]
sha2 = "=0.10.9"
libm = "=0.2.16"
libc = "=0.2.191"
anyhow = "=1.0.104"
log = "=0.4.35"
env_logger = "=0.11.11"
serde_json = "=1.0.154"
fontdue = "=0.9.5"
tokio = { version = "=1.54.1", features = ["rt", "net", "macros"] }
aya = "=0.13.1"
aya-log = "=0.2.1"
uefi = { version = "=0.41.0", features = ["alloc"] }
x86_64 = { version = "=0.15.5", default-features = false, features = ["instructions"] }
spin = "=0.12.3"
smithay = { version = "=0.7.0", default-features = false, features = ["backend_winit", "renderer_gl", "wayland_frontend"] }
linked_list_allocator = "=0.10.6"
aya-ebpf = "0.1"
