//! Pixmaps of premultiplied RGBA pixels, and what draws on them.
pub mod bytes;
pub mod codec;
pub mod color;
pub mod geom;
pub mod mask;
pub mod pipeline;
pub mod pixmap;
pub mod raster;

pub use crate::color::ColorU8;
pub use crate::color::PremultipliedColorU8;
pub use crate::geom::IntRect;
pub use crate::geom::IntSize;
pub use crate::pipeline::BlendMode;
pub use crate::pipeline::ColorSpace;
pub use crate::pipeline::Paint;
pub use crate::pipeline::Shader;
pub use crate::pixmap::AlignedMemory;
pub use crate::pixmap::PixelType;
pub use crate::pixmap::Pixmap;
pub use crate::pixmap::PixmapMut;
pub use crate::pixmap::PixmapRef;
