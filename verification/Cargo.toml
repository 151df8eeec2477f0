[package]
name = "sim_engine"
version = "0.1.0"
edition = "2021"
publish = false

[dependencies]
rand = "0.8"
glam = "0.29"
wasm-bindgen = "0.2"
js-sys = "0.3"
console_error_panic_hook = "0.1"
web-sys = { version = "0.3", features = ["console", "CssStyleDeclaration", "Document", "Element", "Event", "EventTarget", "HtmlCanvasElement", "HtmlElement", "HtmlInputElement", "MouseEvent", "Node", "WebGl2RenderingContext", "WebGlBuffer", "WebGlFramebuffer", "WebGlProgram", "WebGlShader", "WebGlTexture", "WebGlUniformLocation", "WebGlVertexArrayObject", "WheelEvent", "Window"] }
