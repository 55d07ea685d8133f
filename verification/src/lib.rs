//! A 2-D polygon geometry core: polygons as closed integer vertex loops,
//! algebraic edge functions, exact intersection queries against horizontal
//! and vertical scan positions, and scanline span computation for filling.

pub mod error;
pub mod math;
pub mod polygon;
