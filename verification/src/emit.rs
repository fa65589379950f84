//! CSV rendering of output rows.
//!
//! A row holds the three columns `name`, `billing_code`, `avg_rate`, in that
//! order. A field is quoted exactly when it contains a comma, a double quote,
//! a line feed or a carriage return; inside quotes every double quote is
//! doubled. Fields are joined by commas and the row ends in one line feed.
//! A header row naming the columns stands before the first data row, and an
//! output with no data rows stays empty.
use vstd::prelude::*;

verus! {

pub open spec fn comma() -> u8 {
    ',' as u8
}

pub open spec fn dquote() -> u8 {
    '"' as u8
}

pub open spec fn lf() -> u8 {
    '\n' as u8
}

pub open spec fn cr() -> u8 {
    '\r' as u8
}

/// Whether a field must be quoted: it contains the delimiter, the quote, or a
/// byte that could be read as a record end.
pub open spec fn needs_quote(f: Seq<u8>) -> bool {
    f.contains(comma()) || f.contains(dquote()) || f.contains(lf()) || f.contains(cr())
}

/// A field's bytes with every double quote doubled.
pub open spec fn doubled(f: Seq<u8>) -> Seq<u8>
    decreases f.len(),
{
    if f.len() == 0 {
        Seq::empty()
    } else if f.last() == dquote() {
        doubled(f.drop_last()) + seq![dquote(), dquote()]
    } else {
        doubled(f.drop_last()) + seq![f.last()]
    }
}

/// One field as written: bare, or quoted with its quotes doubled.
pub open spec fn field_text(f: Seq<u8>) -> Seq<u8> {
    if needs_quote(f) {
        seq![dquote()] + doubled(f) + seq![dquote()]
    } else {
        f
    }
}

/// One data row as written: the three fields joined by commas, then one line
/// feed.
pub open spec fn row_text(name: Seq<u8>, code: Seq<u8>, avg: Seq<u8>) -> Seq<u8> {
    field_text(name) + seq![comma()] + field_text(code) + seq![comma()] + field_text(avg) + seq![
        lf(),
    ]
}

/// The header row: the three column names, bare, then one line feed.
pub open spec fn header_text() -> Seq<u8> {
    seq!['n' as u8, 'a' as u8, 'm' as u8, 'e' as u8, ',' as u8, 'b' as u8, 'i' as u8, 'l' as u8, 'l' as u8, 'i' as u8, 'n' as u8, 'g' as u8, '_' as u8, 'c' as u8, 'o' as u8, 'd' as u8, 'e' as u8, ',' as u8, 'a' as u8, 'v' as u8, 'g' as u8, '_' as u8, 'r' as u8, 'a' as u8, 't' as u8, 'e' as u8, '\n' as u8]
}

/// The data rows' text, in the rows' order.
pub open spec fn rows_text(rows: Seq<(Seq<u8>, Seq<u8>, Seq<u8>)>) -> Seq<u8>
    decreases rows.len(),
{
    if rows.len() == 0 {
        Seq::empty()
    } else {
        rows_text(rows.drop_last()) + row_text(rows.last().0, rows.last().1, rows.last().2)
    }
}

/// The whole output for a sequence of rows: empty when no row survives, else
/// the header followed by the rows in order.
pub open spec fn output_text(rows: Seq<(Seq<u8>, Seq<u8>, Seq<u8>)>) -> Seq<u8> {
    if rows.len() == 0 {
        Seq::empty()
    } else {
        header_text() + rows_text(rows)
    }
}

/// Rows already written are never touched again: pushing further rows only
/// appends their text. With at least one row emitted, the output for
/// `rows + more` is the output for `rows` followed by the text of `more`, so
/// rows keep their input order and an output, once written, is stable.
pub proof fn lemma_output_extends(rows: Seq<(Seq<u8>, Seq<u8>, Seq<u8>)>, more: Seq<(Seq<u8>, Seq<u8>, Seq<u8>)>)
    requires
        rows.len() > 0,
    ensures
        output_text(rows + more) == output_text(rows) + rows_text(more),
    decreases more.len(),
{
    if more.len() == 0 {
        assert(rows + more =~= rows);
        assert(output_text(rows) + rows_text(more) =~= output_text(rows));
    } else {
        lemma_output_extends(rows, more.drop_last());
        let last = row_text(more.last().0, more.last().1, more.last().2);
        assert((rows + more).drop_last() =~= rows + more.drop_last());
        assert((rows + more).last() == more.last());
        assert(rows_text(rows + more) == rows_text(rows + more.drop_last()) + last);
        assert(output_text(rows + more) == header_text() + (rows_text(rows + more.drop_last())
            + last));
        assert(output_text(rows + more.drop_last()) == header_text() + rows_text(
            rows + more.drop_last(),
        ));
        assert(header_text() + (rows_text(rows + more.drop_last()) + last) =~= (header_text()
            + rows_text(rows + more.drop_last())) + last);
        assert(output_text(rows + more) == output_text(rows + more.drop_last()) + last);
        assert(output_text(rows + more) == (output_text(rows) + rows_text(more.drop_last()))
            + last);
        assert((output_text(rows) + rows_text(more.drop_last())) + last =~= output_text(rows) + (
        rows_text(more.drop_last()) + last));
        assert(rows_text(more) == rows_text(more.drop_last()) + last);
    }
}

fn byte_needs_quote(b: u8) -> (r: bool)
    ensures
        r == (b == comma() || b == dquote() || b == lf() || b == cr()),
{
    b == ',' as u8 || b == '"' as u8 || b == '\n' as u8 || b == '\r' as u8
}

fn field_needs_quote(f: &Vec<u8>) -> (r: bool)
    ensures
        r == needs_quote(f@),
{
    let n = f.len();
    for i in 0..n
        invariant
            n == f.len(),
            forall|k: int| 0 <= k < i ==> !(f@[k] == comma() || f@[k] == dquote() || f@[k] == lf()
                || f@[k] == cr()),
    {
        if byte_needs_quote(f[i]) {
            return true;
        }
    }
    proof {
        assert(!needs_quote(f@)) by {
            if needs_quote(f@) {
                if f@.contains(comma()) {
                    let k = choose|k: int| 0 <= k < f@.len() && f@[k] == comma();
                    assert(f@[k] == comma());
                } else if f@.contains(dquote()) {
                    let k = choose|k: int| 0 <= k < f@.len() && f@[k] == dquote();
                    assert(f@[k] == dquote());
                } else if f@.contains(lf()) {
                    let k = choose|k: int| 0 <= k < f@.len() && f@[k] == lf();
                    assert(f@[k] == lf());
                } else {
                    let k = choose|k: int| 0 <= k < f@.len() && f@[k] == cr();
                    assert(f@[k] == cr());
                }
            }
        }
    }
    false
}

/// Appends one field to `out` as [`field_text`] says.
fn push_field(out: &mut Vec<u8>, f: &Vec<u8>)
    ensures
        final(out)@ == old(out)@ + field_text(f@),
{
    let n = f.len();
    if !field_needs_quote(f) {
        for i in 0..n
            invariant
                n == f.len(),
                !needs_quote(f@),
                out@ == old(out)@ + f@.take(i as int),
        {
            out.push(f[i]);
            proof {
                assert(out@ =~= old(out)@ + f@.take(i + 1));
            }
        }
        proof {
            assert(old(out)@ + f@.take(n as int) =~= old(out)@ + field_text(f@));
        }
    } else {
        out.push('"' as u8);
        proof {
            assert(doubled(f@.take(0)) =~= Seq::<u8>::empty());
            assert(out@ =~= old(out)@ + seq![dquote()] + doubled(f@.take(0)));
        }
        for i in 0..n
            invariant
                n == f.len(),
                needs_quote(f@),
                out@ == old(out)@ + seq![dquote()] + doubled(f@.take(i as int)),
        {
            let b = f[i];
            out.push(b);
            if b == '"' as u8 {
                out.push('"' as u8);
            }
            proof {
                assert(f@.take(i + 1).drop_last() =~= f@.take(i as int));
                assert(f@.take(i + 1).last() == f@[i as int]);
                if f@[i as int] == dquote() {
                    assert(out@ =~= old(out)@ + seq![dquote()] + (doubled(f@.take(i as int))
                        + seq![dquote(), dquote()]));
                } else {
                    assert(out@ =~= old(out)@ + seq![dquote()] + (doubled(f@.take(i as int))
                        + seq![f@[i as int]]));
                }
                assert(out@ =~= old(out)@ + seq![dquote()] + doubled(f@.take(i + 1)));
            }
        }
        out.push('"' as u8);
        proof {
            assert(f@.take(n as int) =~= f@);
            assert(out@ =~= old(out)@ + field_text(f@));
        }
    }
}

/// The header row's bytes.
pub fn header_row() -> (r: Vec<u8>)
    ensures
        r@ == header_text(),
{
    let r = vec!['n' as u8, 'a' as u8, 'm' as u8, 'e' as u8, ',' as u8, 'b' as u8, 'i' as u8, 'l' as u8, 'l' as u8, 'i' as u8, 'n' as u8, 'g' as u8, '_' as u8, 'c' as u8, 'o' as u8, 'd' as u8, 'e' as u8, ',' as u8, 'a' as u8, 'v' as u8, 'g' as u8, '_' as u8, 'r' as u8, 'a' as u8, 't' as u8, 'e' as u8, '\n' as u8];
    proof {
        assert(r@ =~= header_text());
    }
    r
}

/// Renders one data row.
pub fn render_row(name: &Vec<u8>, code: &Vec<u8>, avg: &Vec<u8>) -> (r: Vec<u8>)
    ensures
        r@ == row_text(name@, code@, avg@),
{
    let mut r: Vec<u8> = Vec::new();
    push_field(&mut r, name);
    r.push(',' as u8);
    push_field(&mut r, code);
    r.push(',' as u8);
    push_field(&mut r, avg);
    r.push('\n' as u8);
    proof {
        assert(r@ =~= row_text(name@, code@, avg@));
    }
    r
}

/// Writes the output row by row, putting the header before the first row and
/// nothing at all when no row ever comes. Its view is the sequence of rows
/// pushed so far; the bytes handed out so far always concatenate to
/// [`output_text`] of that view.
pub struct RowEmitter {
    started: bool,
    hist: Ghost<Seq<(Seq<u8>, Seq<u8>, Seq<u8>)>>,
}

impl View for RowEmitter {
    type V = Seq<(Seq<u8>, Seq<u8>, Seq<u8>)>;

    closed spec fn view(&self) -> Seq<(Seq<u8>, Seq<u8>, Seq<u8>)> {
        self.hist@
    }
}

impl RowEmitter {
    /// The header has been written exactly when some row has been pushed.
    pub closed spec fn wf(&self) -> bool {
        self.started <==> self@.len() > 0
    }

    pub fn new() -> (r: RowEmitter)
        ensures
            r.wf(),
            r@ == Seq::<(Seq<u8>, Seq<u8>, Seq<u8>)>::empty(),
            output_text(r@) == Seq::<u8>::empty(),
    {
        RowEmitter { started: false, hist: Ghost(Seq::empty()) }
    }

    /// Appends one row. The returned bytes are what the output grows by: the
    /// row's text, preceded by the header when this row is the first.
    pub fn push_row(&mut self, name: &Vec<u8>, code: &Vec<u8>, avg: &Vec<u8>) -> (chunk: Vec<u8>)
        requires
            old(self).wf(),
        ensures
            final(self).wf(),
            final(self)@ == old(self)@.push((name@, code@, avg@)),
            chunk@ == if old(self)@.len() == 0 {
                header_text() + row_text(name@, code@, avg@)
            } else {
                row_text(name@, code@, avg@)
            },
            output_text(old(self)@) + chunk@ == output_text(final(self)@),
    {
        let row = render_row(name, code, avg);
        let ghost newhist = self.hist@.push((name@, code@, avg@));
        let chunk: Vec<u8>;
        if !self.started {
            let mut c = header_row();
            let mut row = row;
            c.append(&mut row);
            chunk = c;
        } else {
            chunk = row;
        }
        self.started = true;
        proof {
            self.hist@ = newhist;
            assert(newhist.drop_last() =~= old(self)@);
            assert(newhist.last() == (name@, code@, avg@));
            assert(rows_text(newhist) == rows_text(old(self)@) + row_text(name@, code@, avg@));
            if old(self)@.len() == 0 {
                assert(rows_text(old(self)@) == Seq::<u8>::empty());
                assert(rows_text(newhist) =~= row_text(name@, code@, avg@));
                assert(output_text(old(self)@) + chunk@ =~= output_text(newhist));
            } else {
                assert(rows_text(newhist) == rows_text(old(self)@) + row_text(
                    name@,
                    code@,
                    avg@,
                ));
                assert(output_text(old(self)@) + chunk@ =~= output_text(newhist));
            }
        }
        chunk
    }
}

} // verus!
