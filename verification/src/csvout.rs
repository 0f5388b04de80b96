//! Rendering the sorted values as single-field CSV records.
//!
//! The encoding is the `csv` crate's default dialect: comma delimiter, double
//! quote, quoting only where needed, line-feed record terminator. Each value
//! becomes one record of one field.

use vstd::prelude::*;

verus! {

use vstd::string::StringExecFns;
use crate::order::views_of;

/// Characters that force a field into quotes under the default dialect.
pub open spec fn csv_special(c: char) -> bool {
    c == ',' || c == '"' || c == '\n' || c == '\r'
}

/// Whether a field must be quoted.
pub open spec fn csv_needs_quoting(s: Seq<char>) -> bool {
    exists|i: int| 0 <= i < s.len() && csv_special(#[trigger] s[i])
}

/// The field with every double quote doubled.
pub open spec fn csv_escaped(s: Seq<char>) -> Seq<char>
    decreases s.len(),
{
    if s.len() == 0 {
        Seq::empty()
    } else if s[0] == '"' {
        seq!['"', '"'] + csv_escaped(s.drop_first())
    } else {
        seq![s[0]] + csv_escaped(s.drop_first())
    }
}

/// One record holding one field: the field itself when nothing in it needs
/// quoting, otherwise the field quoted and escaped; an empty field is written
/// as a pair of quotes so that the record is not an empty line. A line feed
/// ends the record.
pub open spec fn csv_record_line(s: Seq<char>) -> Seq<char> {
    if s.len() == 0 {
        seq!['"', '"', '\n']
    } else if csv_needs_quoting(s) {
        seq!['"'] + csv_escaped(s) + seq!['"', '\n']
    } else {
        s + seq!['\n']
    }
}

/// The whole output text: one record per value, in the values' order.
pub open spec fn csv_text(values: Seq<Seq<char>>) -> Seq<char>
    decreases values.len(),
{
    if values.len() == 0 {
        Seq::empty()
    } else {
        csv_record_line(values[0]) + csv_text(values.drop_first())
    }
}

proof fn lemma_csv_text_push(values: Seq<Seq<char>>, v: Seq<char>)
    ensures
        csv_text(values.push(v)) == csv_text(values) + csv_record_line(v),
    decreases values.len(),
{
    if values.len() == 0 {
        assert(values.push(v)[0] == v);
        assert(values.push(v).drop_first() =~= Seq::<Seq<char>>::empty());
        assert(csv_text(Seq::<Seq<char>>::empty()) == Seq::<char>::empty());
        assert(csv_record_line(v) + Seq::<char>::empty() =~= csv_record_line(v));
        assert(csv_text(values.push(v)) =~= csv_record_line(v));
        assert(csv_text(values) + csv_record_line(v) =~= csv_record_line(v));
    } else {
        assert(values.push(v)[0] == values[0]);
        assert(values.push(v).drop_first() =~= values.drop_first().push(v));
        lemma_csv_text_push(values.drop_first(), v);
        assert(csv_record_line(values[0]) + (csv_text(values.drop_first()) + csv_record_line(v))
            =~= (csv_record_line(values[0]) + csv_text(values.drop_first())) + csv_record_line(
            v,
        ));
    }
}

/// Relies on `csv::Writer` under its default configuration (comma delimiter,
/// double quote, `QuoteStyle::Necessary`, line-feed terminator): a record of
/// one field is the field unchanged when the field is non-empty and holds
/// none of comma, double quote, carriage return, line feed; otherwise the
/// field wrapped in double quotes with each inner double quote doubled, an
/// empty field becoming a bare pair of quotes. A line feed ends the record.
/// Writing into an in-memory buffer cannot fail, and the encoder inserts only
/// ASCII around the field's bytes, so the buffer is valid UTF-8 throughout.
#[verifier::external_body]
fn csv_record(value: &str) -> (r: String)
    ensures
        r@ == csv_record_line(value@),
{
    let mut w = csv::Writer::from_writer(Vec::new());
    w.write_record([value]).unwrap();
    String::from_utf8(w.into_inner().unwrap()).unwrap()
}

/// Renders the values as CSV records, one value per record, in order.
pub fn to_csv_text(values: &Vec<String>) -> (r: String)
    ensures
        r@ == csv_text(views_of(values@)),
{
    let mut out = String::new();
    let mut i: usize = 0;
    assert(out@ =~= csv_text(views_of(values@).take(0))) by {
        assert(views_of(values@).take(0) =~= Seq::<Seq<char>>::empty());
    }
    while i < values.len()
        invariant
            i <= values@.len(),
            out@ == csv_text(views_of(values@).take(i as int)),
        decreases values@.len() - i,
    {
        let line = csv_record(values[i].as_str());
        out.append(line.as_str());
        proof {
            lemma_csv_text_push(views_of(values@).take(i as int), values@[i as int]@);
            assert(views_of(values@).take(i + 1) =~= views_of(values@).take(i as int).push(
                views_of(values@)[i as int],
            ));
        }
        i = i + 1;
    }
    proof {
        assert(views_of(values@).take(values@.len() as int) =~= views_of(values@));
    }
    out
}

} // verus!
