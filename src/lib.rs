//! Record processing: a three-stage pipeline with a feedback path, the
//! audits run over its output, and the parsers for the input documents.

pub mod audit;
pub mod channel;
pub mod document;
pub mod pipeline;
pub mod record;
pub mod supervisor;
pub mod text;

pub use pipeline::{PipelineConfig, Stage, StageState, run_pipeline};

pub use document::{Format, ParsedData, detect_format, parse, parse_csv, parse_json, parse_key_value_config};

