//! Level data for a Doom-style engine, and the integer core of a column
//! raycaster that draws it.
//!
//! The data comes out of a WAD container ([`wad`]): a directory of named
//! lumps. A map is a marker lump followed by its record lumps at fixed
//! places ([`format`]); they decode to the map's geometry ([`map`]) and to
//! its BSP index ([`bsp`], [`bsp_paths`]). Textures and the palette have
//! lumps of their own ([`texture`]), and so have sounds ([`audio`]).
//!
//! A frame ([`renderer`]) is drawn in three passes: floor and ceiling, one
//! wall slice per screen column where the column's ray meets a wall
//! ([`raycast`], [`projection`]), and the sprites from the farthest to the
//! nearest ([`sprites`]).
//!
//! The library holds no floating-point number. Places of the viewer and of
//! sprites are 16.16 fixed-point map units, and angles are binary angles with
//! `2^32` to the full circle. Whoever calls the library turns angles into
//! directions: the cosine and the sine of an angle are all it is asked for.

pub mod audio;
pub mod bsp;
pub mod bsp_paths;
pub mod bytes;
pub mod color;
pub mod format;
pub mod grid;
pub mod map;
pub mod numbers;
pub mod projection;
pub mod raycast;
pub mod renderer;
pub mod sprites;
pub mod texture;
pub mod wad;
