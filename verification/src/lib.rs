//! A verified codec for the X Window System core wire protocol: the
//! connection handshake (client greeting and server capability
//! announcement), generic request framing with a small set of concrete
//! request encoders, fixed-size event decoding, and a resource id
//! allocator for the server-assigned base/mask pair.
//!
//! The codec works on plain byte buffers; moving those bytes over a
//! socket is the caller's business.

pub mod error;
pub mod events;
pub mod handshake;
pub mod idalloc;
pub mod requests;
pub mod roundtrip;
pub mod stream;
pub mod wire;

pub use error::X11Error;
pub use events::Event;
pub use handshake::{ClientInit, Depth, PixmapFormat, Screen, ServerInit, Visual};
pub use idalloc::IdAllocator;
pub use requests::{ChangeWmName, CreateGc, CreateWindow, MapWindow, PolyFillRectangle, Rectangle};
pub use stream::ByteStream;
