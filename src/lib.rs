//! Word generation for constructed languages: syllables built from
//! structure templates, stress placement, affixation with tie-bar
//! diphthongs, and romanized rendering.

pub mod random;
pub mod text;
pub mod phonology;
pub mod syllable;
pub mod affix;
pub mod word;
pub mod render;
