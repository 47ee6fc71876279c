[package]
name = "cjs_bundle"
version = "0.1.0"
edition = "2021"
publish = false

[dependencies]
oxc_allocator = "=0.141.0"
oxc_ast = "=0.141.0"
oxc_codegen = "=0.141.0"
oxc_parser = "=0.141.0"
oxc_resolver = "=11.24.3"
oxc_span = "=0.141.0"
pico-args = "=0.5.0"
