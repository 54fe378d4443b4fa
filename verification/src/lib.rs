//! Layout and glyph logic of a weather landscape: the sprite names that a
//! scene asks for, the ground line that follows the forecast temperatures,
//! the columns that each forecast hour occupies, the clouds and trees chosen
//! for the weather, and the glyphs of the temperature read-out.

pub mod sprites;
pub mod glyphs;
pub mod terrain;
pub mod weather;
pub mod landscape;
