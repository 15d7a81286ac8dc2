//! Reader for IPF game-client archives and the IES tables packed inside them.
//!
//! An archive keeps its directory in a footer at its end. Each entry's stored bytes go
//! through a position-keyed byte cipher and, unless the entry's extension marks it as not
//! worth compressing, through raw-deflate decompression; table entries are then decoded
//! into columns and rows.
pub mod crypto;
pub mod entry;
pub mod error;
pub mod ies;
pub mod inflate;
pub mod ipf;
pub mod wire;

pub use crypto::{CipherMode, IpfCrypto};
pub use entry::{EntryContent, IpfEntry, IpfEntryHeader};
pub use error::{InvalidReason, IoKind, IpfError};
pub use ies::{decrypt, order_columns, IesCell, IesColumn, IesHeader, IesReader, IesRow, IesTable};
pub use ipf::{IpfArchive, IpfArchiveHeader};
