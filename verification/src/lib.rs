pub mod audio;
pub mod audio_dir;
pub mod ffmpeg;
pub mod keyboard;
pub mod playlist;
pub mod pls;
pub mod screen;
pub mod transport;
pub mod user;
