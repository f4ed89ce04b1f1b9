//! Client-side logic for the Pulse Box LED controller: the TLV frame codec
//! and STATUS decoder of its TCP command protocol, the UDP audio packet
//! builder, the image and GIF down-sampling used for pixel uploads, and the
//! bookkeeping of mDNS discovery.

pub mod frame;
pub mod text;
pub mod status;
pub mod session;
pub mod audio;
pub mod discovery;
pub mod imaging;
pub mod codec;
pub mod upload;
