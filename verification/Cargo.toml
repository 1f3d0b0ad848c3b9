[package]
name = "mandelbrot"
version = "0.1.0"
edition = "2021"
publish = false

[dependencies]
threadpool = "=1.8.1"
glium = "0.29"
imgui = "=0.7.0"
imgui-glium-renderer = "=0.7.0"
imgui-winit-support = "=0.7.0"
