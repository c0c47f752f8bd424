pub mod binary_message;
pub mod codec_laws;
pub mod discovery_stub;
pub mod format;
pub mod frame;
pub mod hex;
pub mod ports;
pub mod protocol;
pub mod service;
pub mod subscription;
pub mod session;
pub mod json_session;
pub mod text;
