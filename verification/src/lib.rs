pub mod audience;
pub mod client;
pub mod control;
pub mod encoding;
pub mod feed;
pub mod go2rtc;
pub mod gst_pipeline;
pub mod http;
pub mod json;
pub mod mjpeg_streams;
pub mod multipart;
pub mod muxer;
pub mod request;
pub mod server;
pub mod source;
pub mod startup;
pub mod text;
