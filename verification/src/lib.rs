pub mod block;
pub mod ringbuf;
pub mod streambuf;
pub mod traits;
pub mod util;
