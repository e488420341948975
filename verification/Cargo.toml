[package]
name = "kpte"
version = "0.1.0"
edition = "2021"
publish = false

[dependencies]
memory_addr = "=0.4.1"
heapless = "=0.9.3"
aarch64-cpu = "=11.2.0"
aarch64-cpu-ext = "=0.1.4"
riscv = "=0.16.1"
x86_64 = { version = "=0.15.5", default-features = false, features = ["instructions"] }
