mod blur;
mod cell;
mod matcher;
mod raster;
mod recover;

pub use blur::blur_once_v;
pub use blur::blur_rounds_v;
pub use blur::blurred_pix;
pub use blur::box_size_spec;
pub use blur::lemma_uniform_blur_identity;
pub use blur::normalize_box_size;
pub use blur::normalize_box_spec;
pub use blur::rounds_spec;
pub use blur::ImageBlur;
pub use cell::blank_col;
pub use cell::cell_cols;
pub use cell::col_seq;
pub use cell::lemma_trim_idempotent;
pub use cell::lemma_trimmed_cell_is_flatten;
pub use cell::trim_cols;
pub use cell::trimmed_cell;
pub use matcher::alphabet;
pub use matcher::alphabet_spec;
pub use matcher::best_guess;
pub use matcher::find_char_spec;
pub use matcher::find_character;
pub use matcher::glyph_cells;
pub use matcher::is_candidate;
pub use matcher::lemma_empty_resolves_space;
pub use matcher::lemma_percent_bounds;
pub use matcher::lemma_self_glyph_accepted;
pub use matcher::lemma_self_match;
pub use matcher::lemma_tie_break_last;
pub use matcher::match_percent;
pub use raster::is_sentinel;
pub use raster::Image;
pub use raster::ImageV;
pub use raster::Pixel;
pub use raster::CHAR_HEIGHT;
pub use raster::CHAR_WIDTH;
pub use recover::calib_search;
pub use recover::lemma_calibration_terminal;
pub use recover::lemma_strength_in_bounds;
pub use recover::process;
pub use recover::recover_spec;
pub use recover::SIGMA_STEPS;
