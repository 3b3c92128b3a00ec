//! Vault format v1: keyslots around a random 256-bit file key, body encrypted in chunks so files
//! of any size stream through.
//!
//! ```text
//! MAGIC(8) | nslots(1) | slot x nslots | body
//! slot = kind(1) dongles(1) nkeys(1) bind(1) kid(8) salt(16) m_kib(4) t(4) p(4)   40 B, AAD of the wrap
//!        nonce(24) wrapped(32 + 16 tag)                                           72 B
//! body = prefix(19) | chunk*      chunk = XChaCha20-Poly1305(file key, <= 1 MiB, aad = MAGIC)
//!        nonce of chunk i = prefix || i (u32 BE) || last (0 or 1)
//! ```

pub mod body;
pub mod crypto;
pub mod error;
pub mod header;
pub mod kind;
pub mod label;
pub mod rng;
pub mod seal;
pub mod secret;
pub mod slot;
pub mod stream;
pub mod unlock;

pub use body::CHUNK;
pub use error::{Error, ErrorView};
pub use header::{Header, MAX_SLOTS};
pub use kind::{Argon, Dongle, DongleView, Kind, SlotSpec, SpecView, argon_default, argon_none};
pub use label::{bind_label, dongles_label, DONGLE_NANO, DONGLE_TI};
pub use rng::os_rng;
pub use seal::{open_body, open_bytes, seal, seal_bytes};
pub use secret::{Key, Secret};
pub use slot::{kid, DongleSource, Slot, SlotView, MAGIC};
pub use stream::SliceSource;
pub use crate::text::hex;
