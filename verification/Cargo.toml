[package]
name = "voxweb"
version = "0.1.0"
edition = "2021"
publish = false

[dependencies]
bincode = { version = "=2.0.1", features = ["serde"] }
console_error_panic_hook = "=0.1.7"
egui = { version = "=0.37.0", default-features = false, features = ["default_fonts"] }
egui-wgpu = { version = "=0.37.0", default-features = false }
futures-channel = "=0.3.34"
getrandom = { version = "=0.2.17", features = ["js"] }
glam = { version = "=0.34.2", features = ["serde"] }
js-sys = "=0.3.107"
log = "=0.4.35"
serde = { version = "=1.0.229", features = ["derive"] }
serde_json = "=1.0.154"
tracing-wasm = "=0.2.1"
wasm-bindgen = "=0.2.130"
wasm-bindgen-futures = "=0.4.80"
web-sys = { version = "=0.3.107", features = ["Window", "Document", "Element", "EventTarget", "Event", "HtmlElement", "HtmlCanvasElement", "HtmlMetaElement", "KeyboardEvent", "MouseEvent", "WheelEvent", "Storage", "Performance", "Location", "History", "UrlSearchParams", "Navigator", "StorageManager", "FileSystemDirectoryHandle", "FileSystemFileHandle", "FileSystemGetDirectoryOptions", "FileSystemGetFileOptions", "FileSystemHandle", "FileSystemHandleKind", "FileSystemRemoveOptions", "FileSystemWritableFileStream", "File", "Blob", "WebSocket", "MessageEvent", "CloseEvent", "ErrorEvent", "BinaryType", "RtcConfiguration", "RtcIceServer", "RtcPeerConnection", "RtcPeerConnectionIceEvent", "RtcIceCandidate", "RtcIceCandidateInit", "RtcIceConnectionState", "RtcSdpType", "RtcSessionDescriptionInit", "RtcSessionDescription", "RtcDataChannel", "RtcDataChannelEvent", "RtcDataChannelInit", "RtcDataChannelState", "RtcDataChannelType", "RtcSignalingState"] }
