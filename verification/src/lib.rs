//! Parsing, evaluation and formatting of monitoring performance data.
//!
//! Performance data ("perfdata") is the compact text notation used by
//! monitoring check commands to report named numeric measurements, each
//! optionally annotated with a unit, warning/critical alert ranges and
//! minimum/maximum display bounds.
//!
//! Numeric values are held as exact decimals (a sign, an integer mantissa
//! and a power-of-ten scale), so parsing, comparison and formatting are
//! exact and fully specified.

mod dataset;
mod digits;
mod error;
mod monitoring_status;
mod num;
mod num_text;
mod parser;
mod perfdata;
mod range_text;
mod text;
mod thresholds;
mod token_text;

pub use dataset::PerfdataSet;
pub use error::NumError;
pub use error::ParseErr;
pub use error::PerfdataParseError;
pub use monitoring_status::MonitoringStatus;
pub use num::Dec;
pub use num::Num;
pub use perfdata::Perfdata;
pub use perfdata::PerfdataView;
pub use perfdata::Unit;
pub use thresholds::lemma_outside_inside_complement;
pub use thresholds::lemma_outside_swap_equivalent;
pub use thresholds::ThresholdRange;
pub use token_text::lemma_token_roundtrip;
