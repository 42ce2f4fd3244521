//! Reading and writing records of the DTA data-transfer format of the
//! ERPSuite (formerly BüroWARE) business software.
//!
//! A record is one line: `þVARTþ0þSKZþADRþUEBERþNþSTAMMKALKþJþaaþ809460 \n`,
//! that is a header naming the record type (SKZ), parameters, and data
//! fields whose values end with a space.

pub mod error;
pub mod format;
pub mod identifiers;
pub mod orders;
pub mod params;
pub mod parser;
pub mod roundtrip;
pub mod row;
pub mod serde_support;
pub mod sorting;
pub mod text;

pub use error::DtaError;
pub use identifiers::{
    DEFAULT_OPTIONAL_PARAMS, DEFAULT_PARAM_ORDER, DEFAULT_REQUIRED_PARAMS, DynamicRecordIdentifier,
    RecordIdentifier,
};
pub use parser::{parse_dta_rows, parse_dta_string, parse_dta_string_with_identifier};
pub use row::{DtaRow, DtaRowBuilder};
pub use serde_support::{
    DtaFieldResult, DtaFieldSequenceSerializer, DtaFieldSerializer, DtaSequenceSerializer,
    DtaSerializer, DtaStructSerializer,
};
