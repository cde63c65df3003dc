[package]
name = "mozkit"
version = "0.1.0"
edition = "2021"
publish = false

[dependencies]
slab = "0.4"
futures-lite = "2"
pin-project-lite = "0.2"
log = "0.4"
wasm-bindgen = "0.2"
wasm-bindgen-futures = "0.4"
wasm-logger = "0.2"
js-sys = "0.3"
web-sys = { version = "0.3", features = ["AddEventListenerOptions", "AnimationEvent", "Document", "DocumentFragment", "DomTokenList", "Element", "Event", "EventTarget", "Headers", "History", "HtmlButtonElement", "HtmlCollection", "HtmlDialogElement", "HtmlDivElement", "HtmlElement", "HtmlHeadElement", "HtmlInputElement", "HtmlLinkElement", "HtmlOptGroupElement", "HtmlOptionElement", "HtmlParagraphElement", "HtmlSelectElement", "HtmlStyleElement", "KeyboardEvent", "MediaQueryList", "MediaQueryListEvent", "MouseEvent", "Node", "NodeList", "PopStateEvent", "Request", "RequestInit", "Response", "Storage", "SvgElement", "SvgsvgElement", "Text", "UiEvent", "Window"] }
