use vstd::prelude::*;
use vstd::string::StringExecFns;
use crate::display::{dash_line, dashes, join_texts, joined, row_line, row_text, utf8_length};
use crate::error::{error_text, owned, QueryResult};
use crate::firmql::{text_answers, FirmQl};
use crate::graph::EntityGraph;
use crate::like::utf8_len;
use crate::result::{names_view, QueryResultSet};
use crate::text::{digits, usize_to_text};

verus! {

/// How the results of a query are shown.
#[derive(Debug, Clone, Copy, PartialEq, Eq)]
pub enum OutputFormat {
    /// A table of text.
    Pretty,
    /// The result set as JSON.
    Json,
}

/// What showing the results of a query gives: the lines of a table, the result set to
/// write as JSON, or the details of the error.
#[derive(Debug)]
pub enum QueryOutput {
    Table(Vec<String>),
    Json(QueryResultSet),
    Failed(String),
}

/// The line that counts the rows: `(1 row)` or `(n rows)`.
pub open spec fn count_line(n: nat) -> Seq<char> {
    "("@ + digits(n) + (if n == 1 {
        " row)"@
    } else {
        " rows)"@
    })
}

/// The lines of the table of a result set: the column names, a line of dashes as long as
/// they are in bytes, each row, an empty line, the count of rows, and the execution time
/// and the number of entities scanned where they are known; or a notice that there is
/// no row.
pub open spec fn table_lines(set: QueryResultSet) -> Seq<Seq<char>> {
    if set.rows@.len() == 0 {
        seq!["No results found."@]
    } else {
        let header = joined(set.column_names(), " | "@);
        seq![header, dashes(utf8_len(header))] + set.row_values().map_values(
            |v: Seq<crate::value::ValueModel>| row_line(v),
        ) + seq![Seq::empty(), count_line(set.rows@.len())] + match set.metadata.execution_time_ms {
            Some(t) => seq!["Execution time: "@ + digits(t as nat) + "ms"@],
            None => Seq::empty(),
        } + match set.metadata.entities_scanned {
            Some(n) => seq!["Entities scanned: "@ + digits(n as nat)],
            None => Seq::empty(),
        }
    }
}

/// What showing a query's outcome in a format gives.
pub open spec fn outputs(out: QueryOutput, res: QueryResult<QueryResultSet>, format: OutputFormat) -> bool {
    match res {
        Ok(set) => match format {
            OutputFormat::Pretty => out matches QueryOutput::Table(lines) && names_view(lines@) == table_lines(set),
            OutputFormat::Json => out matches QueryOutput::Json(s) && s == set,
        },
        Err(e) => out matches QueryOutput::Failed(m) && m@ == error_text(e@),
    }
}

/// The text of an unsigned number.
fn u64_to_text(n: u64) -> (r: String)
    ensures
        r@ == digits(n as nat),
{
    crate::text::string_of(&crate::text::nat_digits(n))
}

/// The lines of the table of a result set.
pub fn table_format(set: &QueryResultSet) -> (r: Vec<String>)
    ensures
        names_view(r@) == table_lines(*set),
{
    let mut lines: Vec<String> = Vec::new();
    if set.rows.len() == 0 {
        lines.push(owned("No results found."));
        assert(names_view(lines@) =~= table_lines(*set));
        return lines;
    }
    let header = join_texts(&set.columns, " | ");
    let width = utf8_length(header.as_str());
    lines.push(header);
    lines.push(dash_line(width));
    let ghost rv = set.row_values();
    let ghost head = names_view(lines@);
    let mut i: usize = 0;
    while i < set.rows.len()
        invariant
            i <= set.rows.len(),
            rv == set.row_values(),
            names_view(lines@) == head + rv.take(i as int).map_values(
                |v: Seq<crate::value::ValueModel>| row_line(v),
            ),
        decreases set.rows.len() - i,
    {
        let ghost before = names_view(lines@);
        lines.push(row_text(&set.rows[i].values));
        assert(rv.take(i + 1).map_values(|v: Seq<crate::value::ValueModel>| row_line(v)) =~= rv.take(
            i as int,
        ).map_values(|v: Seq<crate::value::ValueModel>| row_line(v)).push(row_line(rv[i as int])));
        assert(names_view(lines@) =~= before.push(row_line(rv[i as int])));
        i = i + 1;
    }
    assert(rv.take(set.rows.len() as int) == rv);
    let ghost body = names_view(lines@);
    lines.push(String::new());
    let mut count = owned("(");
    count.append(usize_to_text(set.rows.len()).as_str());
    if set.rows.len() == 1 {
        count.append(" row)");
    } else {
        count.append(" rows)");
    }
    assert(count@ == count_line(set.rows@.len()));
    lines.push(count);
    let ghost counted = names_view(lines@);
    assert(counted =~= body + seq![Seq::<char>::empty(), count_line(set.rows@.len())]);
    let ghost time_part: Seq<Seq<char>> = match set.metadata.execution_time_ms {
        Some(t) => seq!["Execution time: "@ + digits(t as nat) + "ms"@],
        None => Seq::empty(),
    };
    if let Some(t) = set.metadata.execution_time_ms {
        let mut l = owned("Execution time: ");
        l.append(u64_to_text(t).as_str());
        l.append("ms");
        lines.push(l);
    }
    assert(names_view(lines@) =~= counted + time_part);
    let ghost timed = names_view(lines@);
    let ghost scan_part: Seq<Seq<char>> = match set.metadata.entities_scanned {
        Some(n) => seq!["Entities scanned: "@ + digits(n as nat)],
        None => Seq::empty(),
    };
    if let Some(n) = set.metadata.entities_scanned {
        let mut l = owned("Entities scanned: ");
        l.append(usize_to_text(n).as_str());
        lines.push(l);
    }
    assert(names_view(lines@) =~= timed + scan_part);
    assert(names_view(lines@) =~= table_lines(*set));
    lines
}

/// What showing a query's outcome in a format gives.
pub fn query_output(res: QueryResult<QueryResultSet>, format: OutputFormat) -> (r: QueryOutput)
    ensures
        outputs(r, res, format),
{
    match res {
        Ok(set) => match format {
            OutputFormat::Pretty => QueryOutput::Table(table_format(&set)),
            OutputFormat::Json => QueryOutput::Json(set),
        },
        Err(e) => QueryOutput::Failed(e.to_message()),
    }
}

/// Runs a query against a graph and shows its outcome in a format.
pub fn execute_query(graph: EntityGraph, query: &str, output_format: OutputFormat) -> (r: QueryOutput)
    ensures
        exists|res: QueryResult<QueryResultSet>|
            #![trigger text_answers(res, query@, graph.entities@)]
            text_answers(res, query@, graph.entities@) && outputs(r, res, output_format),
{
    let ghost g = graph.entities@;
    let firm_ql = FirmQl::new(graph);
    let res = firm_ql.query(query);
    let ghost kept = res;
    let r = query_output(res, output_format);
    assert(text_answers(kept, query@, g) && outputs(r, kept, output_format));
    r
}

} // verus!
