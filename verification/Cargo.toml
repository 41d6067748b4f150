[package]
name = "wasm_zip"
version = "0.0.2"
edition = "2021"
publish = false

[dependencies]
crc32fast = "1"
flate2 = "1"
wasm-bindgen = "0.2"
wasm-bindgen-futures = "0.4"
js-sys = "0.3"
console_error_panic_hook = "0.1"

[dependencies.web-sys]
version = "0.3"
features = ["Window", "Document", "Element", "HtmlElement", "HtmlDivElement", "HtmlButtonElement", "Node", "EventTarget", "Event", "DragEvent", "MouseEvent", "PointerEvent", "DataTransfer", "DataTransferItem", "DataTransferItemList", "FileSystem", "FileSystemEntry", "FileSystemDirectoryEntry", "FileSystemDirectoryReader", "FileSystemFileEntry", "FileSystemFlags", "File", "Blob", "ReadableStream", "ReadableStreamGetReaderOptions", "ReadableStreamReaderMode", "ReadableStreamByobReader", "WritableStreamDefaultWriter", "DomException", "Performance", "console"]
