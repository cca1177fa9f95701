pub mod text;
pub mod tools;
pub mod proxy;
pub mod progress;
pub mod formats;
pub mod ffmpeg;
pub mod sites;
pub mod media;
pub mod history;
pub mod downloads;
pub mod laws;
