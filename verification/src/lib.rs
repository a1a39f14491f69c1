pub mod text;
pub mod url;
pub mod pattern;
pub mod playlist;
pub mod downloader;
pub mod ffmpeg;
pub mod proxy;
pub mod desktop;
pub mod cli;
