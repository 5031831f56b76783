//! A minimal single-stage batch pipeline: delimited-text records are decoded
//! from a file's text into typed in-memory objects, an optional in-place
//! transformation pass runs over the whole batch, and a status state machine
//! tracks the stage's progress.
//!
//! Reading the file itself (I/O) is the caller's concern: the library works on
//! the file's content handed in as a string.

use vstd::prelude::*;

mod item_processor;
mod item_reader;
mod step;
mod text;
mod user;

pub use item_processor::Process;
pub use item_reader::ItemReader;
pub use item_reader::Reader;
pub use step::Status;
pub use step::Step;
pub use step::StepExecutor;
pub use text::is_blank;
pub use text::parse_u8;
pub use text::split_lines;
pub use text::split_str;
pub use text::str_eq;
pub use text::to_upper;
pub use user::User;
pub use user::UserView;

verus! {

/// The record-decoding capability: given a header row and a value row (both as
/// ordered field sequences), produce an instance of the type or report that
/// the row is unusable. Each record type supplies this once.
pub trait Read: View + Sized {
    /// What `read_file` returns, stated over the rows' views: `None` when the
    /// row cannot be decoded, otherwise the view of the decoded record.
    spec fn decode_spec(headers: Seq<Seq<char>>, values: Seq<Seq<char>>) -> Option<Self::V>;

    /// Decode one data row against the header row.
    fn read_file(headers: &[&str], values: &[&str]) -> (r: Option<Self>)
        ensures
            match (r, Self::decode_spec(text::rows_view(headers@), text::rows_view(values@))) {
                (Some(t), Some(v)) => t@ == v,
                (None, None) => true,
                _ => false,
            },
    ;
}

} // verus!
