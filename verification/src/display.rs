use vstd::prelude::*;
use vstd::string::StringExecFns;
use crate::like::{utf8_len, utf8_width};
use crate::result::{names_view, rows_view, values_view, QueryResultSet};
use crate::text::{chars_of, digits, usize_to_text};
use crate::value::{list_model, scalar_text, FieldValue, ValueModel};

verus! {

broadcast use {
    vstd::std_specs::vec::axiom_vec_decreases_to_view,
    vstd::std_specs::vec::axiom_vec_index_decreases,
};

/// Texts joined by a separator.
pub open spec fn joined(parts: Seq<Seq<char>>, sep: Seq<char>) -> Seq<char>
    decreases parts.len(),
{
    if parts.len() == 0 {
        Seq::empty()
    } else if parts.len() == 1 {
        parts[0]
    } else {
        joined(parts.drop_last(), sep) + sep + parts.last()
    }
}

/// The text of a value, as it is displayed: a list shows its items' texts between
/// brackets, separated by commas.
pub open spec fn value_text(v: ValueModel) -> Seq<char>
    decreases v, 1int,
{
    match v {
        ValueModel::List(items) => "["@ + items_text(items) + "]"@,
        _ => scalar_text(v),
    }
}

/// The texts of a list's items separated by commas.
pub open spec fn items_text(items: Seq<ValueModel>) -> Seq<char>
    decreases items, 0int,
{
    if items.len() == 0 {
        Seq::empty()
    } else if items.len() == 1 {
        value_text(items[0])
    } else {
        proof {
            assert(decreases_to!(items => items.drop_last()));
        }
        items_text(items.drop_last()) + ", "@ + value_text(items.last())
    }
}

/// The models of a list's items, position by position.
pub proof fn lemma_list_model_index(items: Seq<FieldValue>)
    ensures
        list_model(items).len() == items.len(),
        forall|i: int| 0 <= i < items.len() ==> #[trigger] list_model(items)[i] == items[i]@,
    decreases items.len(),
{
    if items.len() > 0 {
        let rest = items.subrange(1, items.len() as int);
        lemma_list_model_index(rest);
        assert forall|i: int| 0 <= i < items.len() implies #[trigger] list_model(items)[i] == items[i]@ by {
            if i > 0 {
                assert(rest[i - 1] == items[i]);
            }
        }
    }
}

/// A line of a table: the texts of a row's values separated by ` | `.
pub open spec fn row_line(values: Seq<ValueModel>) -> Seq<char> {
    joined(values.map_values(|v: ValueModel| value_text(v)), " | "@)
}

/// A text of `n` dashes.
pub open spec fn dashes(n: nat) -> Seq<char> {
    Seq::new(n, |i: int| '-')
}

/// The text of a result set, as it is displayed: the column names, a line of dashes as
/// long as they are in bytes, each row, and the number of rows.
pub open spec fn result_text(columns: Seq<Seq<char>>, rows: Seq<Seq<ValueModel>>) -> Seq<char> {
    let header = joined(columns, " | "@);
    header + "\n"@ + dashes(utf8_len(header)) + "\n"@ + rows_text(rows) + "\n("@ + digits(rows.len())
        + " rows)\n"@
}

/// Each row's line, each followed by a line break.
pub open spec fn rows_text(rows: Seq<Seq<ValueModel>>) -> Seq<char>
    decreases rows.len(),
{
    if rows.len() == 0 {
        Seq::empty()
    } else {
        rows_text(rows.drop_last()) + row_line(rows.last()) + "\n"@
    }
}

/// Texts joined by a separator.
pub fn join_texts(parts: &Vec<String>, sep: &str) -> (r: String)
    ensures
        r@ == joined(names_view(parts@), sep@),
{
    let ghost ps = names_view(parts@);
    let mut s = String::new();
    let mut i: usize = 0;
    while i < parts.len()
        invariant
            i <= parts.len(),
            ps == names_view(parts@),
            s@ == joined(ps.take(i as int), sep@),
        decreases parts.len() - i,
    {
        assert(ps.take(i + 1).drop_last() == ps.take(i as int));
        assert(ps.take(i + 1).last() == parts@[i as int]@);
        if i > 0 {
            s.append(sep);
        } else {
            assert(ps.take(0).len() == 0);
        }
        s.append(parts[i].as_str());
        i = i + 1;
    }
    assert(ps.take(parts.len() as int) == ps);
    s
}

/// The number of bytes of a text in UTF-8.
pub fn utf8_length(s: &str) -> (r: u128)
    ensures
        r == utf8_len(s@),
{
    let cs = chars_of(s);
    let mut n: u128 = 0;
    let mut i: usize = 0;
    while i < cs.len()
        invariant
            i <= cs.len(),
            cs@ == s@,
            n == utf8_len(cs@.take(i as int)),
            n <= 4 * i,
        decreases cs.len() - i,
    {
        assert(cs@.take(i + 1).drop_last() == cs@.take(i as int));
        n = n + crate::like::char_width(cs[i]) as u128;
        i = i + 1;
    }
    assert(cs@.take(cs.len() as int) == cs@);
    n
}

/// A text of `n` dashes.
pub fn dash_line(n: u128) -> (r: String)
    ensures
        r@ == dashes(n as nat),
{
    let mut s = String::new();
    let mut i: u128 = 0;
    while i < n
        invariant
            i <= n,
            s@ == dashes(i as nat),
        decreases n - i,
    {
        crate::text::push_char(&mut s, '-');
        assert(s@ =~= dashes((i + 1) as nat));
        i = i + 1;
    }
    s
}

impl FieldValue {
    /// The text of the value, as it is displayed.
    pub fn to_text(&self) -> (r: String)
        ensures
            r@ == value_text(self@),
        decreases self,
    {
        match self {
            FieldValue::List(items) => {
                let ghost ms = list_model(items@);
                proof {
                    lemma_list_model_index(items@);
                }
                let mut s = String::new();
                let mut i: usize = 0;
                while i < items.len()
                    invariant
                        i <= items.len(),
                        *self == FieldValue::List(*items),
                        ms == list_model(items@),
                        ms.len() == items.len(),
                        forall|j: int| 0 <= j < items.len() ==> #[trigger] ms[j] == items@[j]@,
                        s@ == items_text(ms.take(i as int)),
                    decreases items.len() - i,
                {
                    assert(decreases_to!(*self => (*self)->List_0));
                    assert(decreases_to!(*items => items@[i as int]));
                    assert(ms.take(i + 1).drop_last() == ms.take(i as int));
                    assert(ms.take(i + 1).last() == items@[i as int]@);
                    if i > 0 {
                        s.append(", ");
                    } else {
                        assert(ms.take(1) == seq![ms[0]]);
                    }
                    let t = items[i].to_text();
                    s.append(t.as_str());
                    i = i + 1;
                }
                assert(ms.take(items.len() as int) == ms);
                let mut r = String::from_str("[");
                r.append(s.as_str());
                r.append("]");
                r
            },
            _ => self.scalar_to_text(),
        }
    }
}

/// A line of a table for a row's values.
pub fn row_text(values: &Vec<FieldValue>) -> (r: String)
    ensures
        r@ == row_line(values_view(values@)),
{
    let ghost vs = values_view(values@);
    let mut texts: Vec<String> = Vec::new();
    let mut i: usize = 0;
    while i < values.len()
        invariant
            i <= values.len(),
            vs == values_view(values@),
            names_view(texts@) == vs.take(i as int).map_values(|v: ValueModel| value_text(v)),
        decreases values.len() - i,
    {
        let ghost before = names_view(texts@);
        texts.push(values[i].to_text());
        assert(names_view(texts@) =~= vs.take(i + 1).map_values(|v: ValueModel| value_text(v))) by {
            assert(names_view(texts@) =~= before.push(value_text(values@[i as int]@)));
        }
        i = i + 1;
    }
    assert(vs.take(values.len() as int) == vs);
    join_texts(&texts, " | ")
}

impl QueryResultSet {
    /// The text of the result set, as it is displayed.
    pub fn to_text(&self) -> (r: String)
        ensures
            r@ == result_text(self.column_names(), self.row_values()),
    {
        let header = join_texts(&self.columns, " | ");
        let width = utf8_length(header.as_str());
        let mut s = header.clone();
        s.append("\n");
        s.append(dash_line(width).as_str());
        s.append("\n");
        let ghost rv = self.row_values();
        let mut body = String::new();
        let mut i: usize = 0;
        while i < self.rows.len()
            invariant
                i <= self.rows.len(),
                rv == self.row_values(),
                body@ == rows_text(rv.take(i as int)),
            decreases self.rows.len() - i,
        {
            assert(rv.take(i + 1).drop_last() == rv.take(i as int));
            assert(rv.take(i + 1).last() == self.rows@[i as int]@);
            body.append(row_text(&self.rows[i].values).as_str());
            body.append("\n");
            i = i + 1;
        }
        assert(rv.take(self.rows.len() as int) == rv);
        s.append(body.as_str());
        s.append("\n(");
        s.append(usize_to_text(self.rows.len()).as_str());
        s.append(" rows)\n");
        s
    }
}

} // verus!
