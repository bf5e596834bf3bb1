[package]
name = "graph_canvas"
version = "0.1.0"
edition = "2021"
publish = false

[dependencies]
uuid = { version = "=1.29.0", features = ["v4", "js"] }
serde = { version = "=1.0.229", features = ["derive"] }
tsify = { version = "=0.5.8", default-features = false, features = ["js"] }
wasm-bindgen = "=0.2.130"
js-sys = "=0.3.107"
console_error_panic_hook = "=0.1.7"
web-sys = { version = "=0.3.107", features = ["Window", "Document", "Element", "HtmlElement", "HtmlCanvasElement", "HtmlDivElement", "HtmlInputElement", "CanvasRenderingContext2d", "MouseEvent", "WheelEvent", "Event", "EventTarget", "Node", "DomRect", "CssStyleDeclaration", "ResizeObserver", "console"] }
