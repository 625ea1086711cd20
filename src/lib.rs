//! Image diffing for visual regression testing: pixel images, background-aware
//! comparison, difference visualisations and the pairing of two image directories.

pub mod background;
pub mod dirdiff;
pub mod error;
pub mod files;
pub mod image;
pub mod imgdiff;
pub mod names;
pub mod pixel;
pub mod report;
pub mod review;
pub mod task;

pub use crate::background::detect_background;
pub use crate::image::{try_detect_lfs, MinImage};
pub use crate::pixel::{pixel_distance, pixel_min_max_distance, Rgba8};
pub use crate::imgdiff::{compare_images, DiffImage, DiffImageMethod, ImageDifference};
pub use crate::error::Error;
pub use crate::names::{dead_snapshot_names, pair_names};
pub use crate::dirdiff::{
    compute_pair_diff, order_by_index, DiffBuilder, DirDiff, DirDiffConfig, LeftRightError, PairResult,
};
pub use crate::review::{is_acceptable, validate_accepted_names};
pub use crate::report::{
    embed_png_url, html_size, image_to_png, optimize_png, zoom_pixelated, ReportConfig,
    SizeOptimizationLevel, IMAGE_PIXELIZE_LIMIT, IMAGE_SIZE_LIMIT,
};
pub use crate::task::{Actions, Task};
pub use crate::files::{exceeds_size_limit, is_png_file_name, is_reported_by_size_check};
