//! A small meme service: which files of a directory are served as images, how
//! they are picked, encoded, searched and summarised, and the favourites list.
//!
//! Reading the directory and the files, the clock and the HTTP layer stay
//! with the caller; everything decided from what was read is here.
use vstd::prelude::*;

pub mod catalog;
pub mod errors;
pub mod favorites;
pub mod media;
pub mod names;
pub mod stats;

pub use catalog::{
    list_templates, matches_folded, search_memes, FileEntry, MemeTemplate, SearchQuery,
    SearchResponse, TemplatesResponse,
};
pub use errors::{error_response, health_check, ErrorResponse, HealthResponse, MemeError};
pub use favorites::{
    get_favorites, load_favorites, store_favorites, toggle_favorite, FavoriteRequest,
    FavoriteResponse, FavoritesResponse,
};
pub use media::{
    build_meme, build_specific_meme, check_count, choose_template, choose_templates,
    collect_memes, pick_templates, template_at, MultipleMemeResponse, RandomMemeResponse, SpecificMemeResponse,
};
pub use names::{check_meme_name, check_meme_path, check_resolved, content_type_for, ImageType};
pub use stats::{get_meme_stats, stats_fit, MemeStats};

verus! {

/// Largest number of memes that one bulk request may ask for.
pub const MAX_BATCH: u32 = 50;

} // verus!
