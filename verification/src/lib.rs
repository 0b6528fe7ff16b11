//! Verified decoding of ESE / JET Blue on-disk structures: page checksums,
//! page tag arrays, B-tree entry keys and data-definition records.

pub mod bytes;
pub mod checksum;
pub mod coltyp;
pub mod error;
pub mod ese_record;
pub mod page;
pub mod record;
pub mod text;
pub mod value;

pub use checksum::{verify_page_checksum, ChecksumResult};
pub use error::EseError;
pub use value::{fixed_col_size, ColumnDef, EseValue};
pub use record::{decode_record, leaf_entry_data};
pub use ese_record::decode_ese_record;
pub use page::EsePage;
