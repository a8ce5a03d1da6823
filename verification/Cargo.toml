[package]
name = "pensieve"
version = "0.1.0"
edition = "2021"
publish = false

[dependencies]
pulldown-cmark = "*"
wasm-bindgen = "*"
js-sys = "*"
web-sys = { version = "*", features = ["Window", "Document", "Element", "HtmlElement", "HtmlCanvasElement", "CanvasRenderingContext2d", "CssStyleDeclaration", "KeyboardEvent", "MouseEvent", "WheelEvent", "Event", "EventTarget", "AddEventListenerOptions", "Node"] }
console_error_panic_hook = "*"
