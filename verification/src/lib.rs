//! Decision logic of the desktop client's launcher, child-process registry,
//! script handlers, OCR bridge and zoom-gesture handling.
pub mod text;
pub mod launch;
pub mod children;
pub mod ocr;
pub mod zoom;
pub mod encoding;
pub mod handlers;
