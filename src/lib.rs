//! Conversion of bank account statements between MT940, camt.053 and CSV
//! through one canonical statement model.
pub mod adapter;
pub mod format;
pub mod parser;
pub mod text;

use crate::adapter::adapter::Adapter;
use crate::adapter::errors::AdapterError;
use crate::adapter::statement::StatementView;
use crate::format::camt::{camt_events, camt_read, xml_document_of, CAMT};
use crate::format::csv::{csv_read, csv_rows, csv_text_of, CSV};
use crate::format::mt940::{mt940_read, mt940_writable, mt940_write, FormatMt940};
use crate::parser::errors::IoError;
use crate::text::chars_eq;
use crate::text::chars_of;
use vstd::prelude::*;

verus! {

/// The formats that statements are converted between.
#[derive(Debug, Clone, Copy, PartialEq, Eq, Structural)]
pub enum FormatType {
    CSV,
    MT940,
    CAMT053,
}

impl FormatType {
    /// The format named by a tag: `csv`, `mt940` or `camt053`.
    pub fn from_tag(tag: &str) -> (r: Result<FormatType, IoError>)
        ensures
            tag@ == "csv"@ ==> r == Ok::<FormatType, IoError>(FormatType::CSV),
            tag@ == "mt940"@ ==> r == Ok::<FormatType, IoError>(FormatType::MT940),
            tag@ == "camt053"@ ==> r == Ok::<FormatType, IoError>(FormatType::CAMT053),
            tag@ != "csv"@ && tag@ != "mt940"@ && tag@ != "camt053"@ ==> r matches Err(
                IoError::UnknownFormat,
            ),
    {
        proof {
            reveal_strlit("csv");
            reveal_strlit("mt940");
            reveal_strlit("camt053");
            assert("csv"@.len() == 3);
            assert("mt940"@.len() == 5);
            assert("camt053"@.len() == 7);
        }
        let t = chars_of(tag);
        if chars_eq(&t, "csv") {
            Ok(FormatType::CSV)
        } else if chars_eq(&t, "mt940") {
            Ok(FormatType::MT940)
        } else if chars_eq(&t, "camt053") {
            Ok(FormatType::CAMT053)
        } else {
            Err(IoError::UnknownFormat)
        }
    }
}

/// The statement that a document of a format holds, or the reason it holds none.
pub open spec fn read_spec(format: FormatType, text: Seq<char>) -> Result<StatementView, Seq<char>> {
    match format {
        FormatType::CSV => csv_read(text),
        FormatType::MT940 => mt940_read(text),
        FormatType::CAMT053 => camt_read(text),
    }
}

/// The document of a format for a statement, or `None` where the format
/// cannot hold it (an MT940 balance amount with more than two decimals).
pub open spec fn write_spec(format: FormatType, st: StatementView) -> Option<Seq<char>> {
    match format {
        FormatType::CSV => Some(csv_text_of(csv_rows(st))),
        FormatType::MT940 => if mt940_writable(st) {
            Some(mt940_write(st))
        } else {
            None
        },
        FormatType::CAMT053 => Some(xml_document_of(camt_events(st))),
    }
}

/// Reads a document in one format and writes its statement in another. Any
/// codec error ends the conversion.
pub fn convert(input: &str, input_format: FormatType, output_format: FormatType) -> (r: Result<
    String,
    AdapterError,
>)
    ensures
        match read_spec(input_format, input@) {
            Err(m) => r matches Err(AdapterError::ParseError(x)) && x@ == m,
            Ok(st) => match write_spec(output_format, st) {
                Some(out) => r matches Ok(x) && x@ == out,
                None => r matches Err(e) && e is WriteError,
            },
        },
{
    let read = match input_format {
        FormatType::CSV => CSV::read_from(input),
        FormatType::MT940 => FormatMt940::read_from(input),
        FormatType::CAMT053 => CAMT::read_from(input),
    };
    let statement = match read {
        Ok(st) => st,
        Err(e) => {
            return Err(e);
        },
    };
    match output_format {
        FormatType::CSV => CSV::write_to(&statement),
        FormatType::MT940 => FormatMt940::write_to(&statement),
        FormatType::CAMT053 => CAMT::write_to(&statement),
    }
}

} // verus!
