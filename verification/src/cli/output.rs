use vstd::prelude::*;
use crate::text::{decimal, push_decimal};

verus! {

/// How query results and lists are written.
#[derive(Debug, Clone, Copy, PartialEq, Eq, Structural)]
pub enum OutputFormat {
    Table,
    Csv,
    Tsv,
    Jsonl,
}

/// The output options of a command.
#[derive(Debug, Clone)]
pub struct OutputArgs {
    pub output: Option<OutputFormat>,
    pub out: Option<String>,
    pub no_headers: bool,
    pub no_pager: bool,
}

/// The format asked for, tables when none was.
pub fn chosen_format(args: &OutputArgs) -> (r: OutputFormat)
    ensures
        r == match args.output {
            Some(f) => f,
            None => OutputFormat::Table,
        },
{
    match args.output {
        Some(f) => f,
        None => OutputFormat::Table,
    }
}

/// How a query result is written: the format, the file if not standard
/// output, and the header and pager options.
#[derive(Debug, Clone)]
pub struct OutputWriter {
    pub output: OutputFormat,
    pub out: Option<String>,
    pub no_headers: bool,
    pub no_pager: bool,
}

impl OutputWriter {
    /// A writer with the given options.
    pub fn new(output: OutputFormat, out: Option<String>, no_headers: bool, no_pager: bool) -> (r: Self)
        ensures
            r.output == output,
            r.out == out,
            r.no_headers == no_headers,
            r.no_pager == no_pager,
    {
        OutputWriter { output, out, no_headers, no_pager }
    }

    /// Whether a table goes through a pager: it is written to a terminal
    /// and the pager was not switched off.
    pub fn use_pager(&self, stdout_tty: bool) -> (r: bool)
        ensures
            r == (self.out is None && stdout_tty && !self.no_pager),
    {
        self.out.is_none() && stdout_tty && !self.no_pager
    }

    /// Whether a table is laid out for a pager or a file, without being
    /// fitted to the terminal's width.
    pub fn unbounded_table(&self, paged: bool) -> (r: bool)
        ensures
            r == (paged || self.out is Some),
    {
        paged || self.out.is_some()
    }

    /// The field separator of the delimited formats.
    pub fn delimiter(&self) -> (r: Option<u8>)
        ensures
            r == match self.output {
                OutputFormat::Csv => Some(44u8),
                OutputFormat::Tsv => Some(9u8),
                _ => None::<u8>,
            },
    {
        match self.output {
            OutputFormat::Csv => Some(44u8),
            OutputFormat::Tsv => Some(9u8),
            _ => None,
        }
    }

    /// Whether delimited output starts with the column names.
    pub fn writes_headers(&self) -> (r: bool)
        ensures
            r == !self.no_headers,
    {
        !self.no_headers
    }
}

/// How a missing value is shown.
pub fn null_cell_text() -> (r: &'static str)
    ensures
        r@ == "NULL"@,
{
    "NULL"
}

/// How a truth value is shown: a checked or an empty box.
pub fn bool_cell_text(b: bool) -> (r: &'static str)
    ensures
        r@ == if b { "\u{2611}"@ } else { "\u{2610}"@ },
{
    if b { "\u{2611}" } else { "\u{2610}" }
}

/// How binary data is shown: its length in bytes.
pub fn bytes_cell_text(len: usize) -> (r: String)
    ensures
        r@ == "<"@ + decimal(len as nat) + " bytes>"@,
{
    let mut s = "<".to_owned();
    push_decimal(&mut s, len as u64);
    s.append(" bytes>");
    s
}

} // verus!
