//! Batch conversion of photos to WebP that keeps their EXIF metadata: the verified core.
//!
//! The library decides; a runner performs the file-system work and the WebP encoding that
//! each decision asks for.
pub mod batch;
pub mod converter;
pub mod exif;
pub mod job;
pub mod paths;
pub mod picture;
pub mod text;
pub mod watcher;
pub mod webp_exif;

pub use batch::{
    collect_sources, concurrency_limit, order_by_index, select_images, DirEntryInfo, InputKind,
    InputPath,
};
pub use converter::{
    containing_dir_of, is_supported_image, output_path_for, ConversionConfig, ConversionResult,
};
pub use exif::{find_jpeg_exif_bytes, scan_jpeg_exif, ExifScan};
pub use job::{
    conversion_report, convert_image, finish_webp, ConversionAction, ConversionEvent,
    ConversionJob, Stage, WriteFailure,
};
pub use picture::{load_picture, resize_if_needed, Picture, UndecodableImage};
pub use watcher::{
    batch_for_event, decimal_string, idle_status, sweep_period, watch_sources, watch_status,
    FsEventKind, RunKind, SweepClock, WatchConfig, WatchEvent, WatchStatus,
};
pub use webp_exif::{inject_exif_into_webp, NotWebp};
