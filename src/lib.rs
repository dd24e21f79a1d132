//! Chat-log statistics: tokenizing messages, normalizing export dates,
//! loading export tables and aggregating word counts per author and month.
use vstd::prelude::*;

pub mod cli;
pub mod date;
pub mod laws;
pub mod lookup;
pub mod record;
pub mod report;
pub mod tally;
pub mod text;

pub use cli::{parse_args, parse_usize, ArgError, Command, Options};
pub use date::{parse_export_date, CalendarDate};
pub use record::{load_collection, records_from_table, LoadError, Record};
pub use report::{month_label, ranked, series_max, sorted_source, word_report_title};
pub use tally::{aggregate, Aggregate};
pub use text::tokenize;

verus! {

} // verus!
