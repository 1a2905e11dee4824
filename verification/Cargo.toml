[package]
name = "render_graph"
version = "0.1.0"
edition = "2021"
publish = false

[dependencies]
nalgebra-glm = "=0.4.2"
rand = "=0.7.3"
tobj = "=0.1.12"
vulkano = "=0.14.0"
winit = "=0.19.5"
