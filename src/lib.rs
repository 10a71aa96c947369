mod glider;
mod laws;
mod timer;
mod universe;

pub use glider::lemma_glider_moves;
pub use laws::{
    lemma_blinker_period_two, lemma_block_still_life, lemma_tick_deterministic, lemma_wrap_seamless,
    rectangle,
};
pub use timer::Timer;
pub use universe::{
    as_coords, cell_at, dead_grid, glider_offsets, glyph, live_at, live_neighbors, next_generation,
    next_state, placed, pulsar_offsets, rendered, with_alive, wrap, Cell, Universe,
};
