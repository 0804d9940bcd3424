//! Append-only logs. A log is a list of rows, and a row is a fixed number of
//! framed fields. Bytes behind the last whole row are a torn row, and count for
//! nothing.

use vstd::prelude::*;

use crate::framing::{
    field, field_at, lemma_field_at_frame, lemma_field_at_longer, lemma_field_at_torn, read_field,
    MAX_FIELD,
};

verus! {

/// The bytes of a row.
pub open spec fn row(fields: Seq<Seq<u8>>) -> Seq<u8>
    decreases fields.len(),
{
    if fields.len() == 0 {
        Seq::empty()
    } else {
        field(fields[0]) + row(fields.drop_first())
    }
}

/// Whether every field of a row can be framed.
pub open spec fn row_fits(fields: Seq<Seq<u8>>) -> bool {
    forall|i: int| 0 <= i < fields.len() ==> (#[trigger] fields[i]).len() <= MAX_FIELD
}

/// The row of `n` fields at `off`, and the offset behind it; `None` where less
/// than a whole row remains.
pub open spec fn row_at(log: Seq<u8>, off: int, n: nat) -> Option<(Seq<Seq<u8>>, int)>
    decreases n,
{
    if n == 0 {
        Some((Seq::empty(), off))
    } else {
        match field_at(log, off) {
            Some((data, next)) => match row_at(log, next, (n - 1) as nat) {
                Some((rest, end)) => Some((seq![data] + rest, end)),
                None => None,
            },
            None => None,
        }
    }
}

/// The whole rows of `n` fields from `off` on.
pub open spec fn rows_from(log: Seq<u8>, off: int, n: nat) -> Seq<Seq<Seq<u8>>>
    decreases log.len() - off,
{
    match row_at(log, off, n) {
        Some((fields, end)) => if off < end <= log.len() {
            seq![fields] + rows_from(log, end, n)
        } else {
            Seq::empty()
        },
        None => Seq::empty(),
    }
}

/// Where the last whole row from `off` on ends.
pub open spec fn rows_end(log: Seq<u8>, off: int, n: nat) -> int
    decreases log.len() - off,
{
    match row_at(log, off, n) {
        Some((_, end)) => if off < end <= log.len() {
            rows_end(log, end, n)
        } else {
            off
        },
        None => off,
    }
}

pub proof fn lemma_row_at_bounds(log: Seq<u8>, off: int, n: nat)
    requires
        0 <= off <= log.len(),
    ensures
        row_at(log, off, n) matches Some((fields, end)) ==> off + 4 * n <= end <= log.len() && fields.len() == n,
    decreases n,
{
    if n > 0 {
        if let Some((_, next)) = field_at(log, off) {
            lemma_row_at_bounds(log, next, (n - 1) as nat);
        }
    }
}

/// A row is read back as its fields, wherever it stands.
pub proof fn lemma_row_at_row(head: Seq<u8>, fields: Seq<Seq<u8>>, tail: Seq<u8>)
    requires
        row_fits(fields),
    ensures
        row_at(head + row(fields) + tail, head.len() as int, fields.len()) == Some(
            (fields, (head.len() + row(fields).len()) as int),
        ),
    decreases fields.len(),
{
    let log = head + row(fields) + tail;
    if fields.len() == 0 {
        assert(fields =~= Seq::empty());
    } else {
        let rest = fields.drop_first();
        assert(row_fits(rest)) by {
            assert forall|i: int| 0 <= i < rest.len() implies (#[trigger] rest[i]).len() <= MAX_FIELD by {
                assert(rest[i] == fields[i + 1]);
            }
        }
        lemma_field_at_frame(head, fields[0], row(rest) + tail);
        assert(head + field(fields[0]) + (row(rest) + tail) =~= log);
        lemma_row_at_row(head + field(fields[0]), rest, tail);
        assert(head + field(fields[0]) + row(rest) + tail =~= log);
        assert(seq![fields[0]] + rest =~= fields);
    }
}

/// What a row reads does not depend on what stands behind it.
pub proof fn lemma_row_at_longer(log: Seq<u8>, tail: Seq<u8>, off: int, n: nat)
    requires
        row_at(log, off, n) is Some,
    ensures
        row_at(log + tail, off, n) == row_at(log, off, n),
    decreases n,
{
    if n > 0 {
        lemma_field_at_longer(log, tail, off);
        lemma_row_at_longer(log, tail, (field_at(log, off)->0).1, (n - 1) as nat);
    }
}

/// A row that was cut short reads as no row.
pub proof fn lemma_row_at_torn(head: Seq<u8>, fields: Seq<Seq<u8>>, cut: int)
    requires
        row_fits(fields),
        0 <= cut < row(fields).len(),
    ensures
        row_at(head + row(fields).take(cut), head.len() as int, fields.len()) is None,
    decreases fields.len(),
{
    let log = head + row(fields).take(cut);
    let rest = fields.drop_first();
    let first = field(fields[0]);
    if cut < first.len() {
        assert(row(fields).take(cut) =~= first.take(cut));
        lemma_field_at_torn(head, fields[0], cut);
    } else {
        assert(row_fits(rest)) by {
            assert forall|i: int| 0 <= i < rest.len() implies (#[trigger] rest[i]).len() <= MAX_FIELD by {
                assert(rest[i] == fields[i + 1]);
            }
        }
        let more = cut - first.len();
        assert(row(fields).take(cut) =~= first + row(rest).take(more));
        lemma_field_at_frame(head, fields[0], row(rest).take(more));
        assert(head + first + row(rest).take(more) =~= log);
        lemma_row_at_torn(head + first, rest, more);
    }
}

proof fn lemma_rows_append(log: Seq<u8>, tail: Seq<u8>, off: int, n: nat)
    requires
        0 <= off <= log.len(),
        rows_end(log, off, n) == log.len(),
    ensures
        rows_from(log + tail, off, n) == rows_from(log, off, n) + rows_from(
            log + tail,
            log.len() as int,
            n,
        ),
        rows_end(log + tail, off, n) == rows_end(log + tail, log.len() as int, n),
    decreases log.len() - off,
{
    let whole = log + tail;
    let at = log.len() as int;
    let is_row = match row_at(log, off, n) {
        Some((_, end)) => off < end <= log.len(),
        None => false,
    };
    if is_row {
        let (fields, end) = row_at(log, off, n)->0;
        lemma_row_at_longer(log, tail, off, n);
        lemma_rows_append(log, tail, end, n);
        assert(seq![fields] + (rows_from(log, end, n) + rows_from(whole, at, n)) =~= (seq![fields]
            + rows_from(log, end, n)) + rows_from(whole, at, n));
    } else {
        assert(rows_from(log, off, n) =~= Seq::empty());
        assert(rows_from(whole, off, n) =~= Seq::empty() + rows_from(whole, off, n));
    }
}

/// A log of whole rows with one more row behind it is a log of whole rows that
/// holds that row last.
pub proof fn lemma_log_append(log: Seq<u8>, fields: Seq<Seq<u8>>)
    requires
        rows_end(log, 0, fields.len()) == log.len(),
        row_fits(fields),
        fields.len() > 0,
    ensures
        rows_from(log + row(fields), 0, fields.len()) == rows_from(log, 0, fields.len()).push(fields),
        rows_end(log + row(fields), 0, fields.len()) == (log + row(fields)).len(),
{
    let n = fields.len();
    let whole = log + row(fields);
    let at = log.len() as int;
    let end = whole.len() as int;
    lemma_rows_append(log, row(fields), 0, n);
    lemma_row_at_row(log, fields, Seq::empty());
    assert(log + row(fields) + Seq::<u8>::empty() =~= whole);
    lemma_row_at_bounds(whole, at, n);
    assert(row_at(whole, end, n) is None);
    assert(rows_from(whole, end, n) =~= Seq::empty());
    assert(rows_end(whole, end, n) == end);
    assert(rows_from(whole, at, n) =~= seq![fields]);
    assert(rows_from(log, 0, n) + seq![fields] =~= rows_from(log, 0, n).push(fields));
}

/// The bytes of a list of rows, one behind the other.
pub open spec fn framed_rows(rows: Seq<Seq<Seq<u8>>>) -> Seq<u8>
    decreases rows.len(),
{
    if rows.len() == 0 {
        Seq::empty()
    } else {
        framed_rows(rows.drop_last()) + row(rows.last())
    }
}

/// A log of whole rows is read back as these rows, and to its end.
pub proof fn lemma_framed_rows(rows: Seq<Seq<Seq<u8>>>, n: nat)
    requires
        n > 0,
        forall|i: int| 0 <= i < rows.len() ==> (#[trigger] rows[i]).len() == n && row_fits(rows[i]),
    ensures
        rows_from(framed_rows(rows), 0, n) == rows,
        rows_end(framed_rows(rows), 0, n) == framed_rows(rows).len(),
    decreases rows.len(),
{
    if rows.len() == 0 {
        lemma_row_at_bounds(framed_rows(rows), 0, n);
        assert(rows_from(framed_rows(rows), 0, n) =~= rows);
    } else {
        let front = rows.drop_last();
        assert forall|i: int| 0 <= i < front.len() implies (#[trigger] front[i]).len() == n && row_fits(
            front[i],
        ) by {
            assert(front[i] == rows[i]);
        }
        lemma_framed_rows(front, n);
        lemma_log_append(framed_rows(front), rows.last());
        assert(front.push(rows.last()) =~= rows);
    }
}

/// A log of whole rows with a part of one more row behind it reads as without
/// that part.
pub proof fn lemma_log_torn(log: Seq<u8>, fields: Seq<Seq<u8>>, cut: int)
    requires
        rows_end(log, 0, fields.len()) == log.len(),
        row_fits(fields),
        0 <= cut < row(fields).len(),
    ensures
        rows_from(log + row(fields).take(cut), 0, fields.len()) == rows_from(log, 0, fields.len()),
        rows_end(log + row(fields).take(cut), 0, fields.len()) == log.len(),
{
    let n = fields.len();
    let part = row(fields).take(cut);
    let at = log.len() as int;
    lemma_rows_append(log, part, 0, n);
    lemma_row_at_torn(log, fields, cut);
    assert(rows_from(log + part, at, n) =~= Seq::empty());
    assert(rows_from(log, 0, n) + Seq::<Seq<Seq<u8>>>::empty() =~= rows_from(log, 0, n));
}

proof fn lemma_row_at_cut(log: Seq<u8>, end: int, off: int, n: nat)
    requires
        0 <= off <= end <= log.len(),
        row_at(log, off, n) matches Some((_, next)) ==> next <= end || next > log.len(),
    ensures
        row_at(log, off, n) matches Some((_, next)) && next <= end ==> row_at(log.take(end), off, n) == row_at(
            log,
            off,
            n,
        ),
    decreases n,
{
    if n > 0 {
        if let Some((data, next)) = field_at(log, off) {
            lemma_row_at_bounds(log, next, (n - 1) as nat);
            if next <= end {
                let cut = log.take(end);
                assert(cut.subrange(off, off + 4) =~= log.subrange(off, off + 4));
                assert(cut.subrange(off + 4, next) =~= log.subrange(off + 4, next));
                lemma_row_at_cut(log, end, next, (n - 1) as nat);
            }
        }
    }
}

proof fn lemma_rows_cut(log: Seq<u8>, off: int, n: nat)
    requires
        0 <= off <= log.len(),
        n > 0,
    ensures
        off <= rows_end(log, off, n) <= log.len(),
        rows_from(log.take(rows_end(log, off, n)), off, n) == rows_from(log, off, n),
        rows_end(log.take(rows_end(log, off, n)), off, n) == rows_end(log, off, n),
    decreases log.len() - off,
{
    let end = rows_end(log, off, n);
    lemma_row_at_bounds(log, off, n);
    match row_at(log, off, n) {
        Some((fields, next)) => {
            lemma_rows_cut(log, next, n);
            lemma_row_at_cut(log, end, off, n);
        },
        None => {
            assert(row_at(log.take(end), off, n) is None) by {
                assert(field_at(log.take(end), off) is None);
            }
        },
    }
}

/// A log cut back to its whole rows reads as before.
pub proof fn lemma_log_cut(log: Seq<u8>, n: nat)
    requires
        n > 0,
    ensures
        0 <= rows_end(log, 0, n) <= log.len(),
        rows_from(log.take(rows_end(log, 0, n)), 0, n) == rows_from(log, 0, n),
        rows_end(log.take(rows_end(log, 0, n)), 0, n) == rows_end(log, 0, n),
{
    lemma_rows_cut(log, 0, n);
}

/// The contents of a list of byte strings.
pub open spec fn fields_view(fields: Seq<Vec<u8>>) -> Seq<Seq<u8>> {
    fields.map_values(|f: Vec<u8>| f@)
}

/// The contents of a list of rows.
pub open spec fn rows_view(rows: Seq<Vec<Vec<u8>>>) -> Seq<Seq<Seq<u8>>> {
    rows.map_values(|r: Vec<Vec<u8>>| fields_view(r@))
}

fn read_row(log: &[u8], off: &mut usize, n: usize) -> (r: Option<Vec<Vec<u8>>>)
    requires
        *old(off) <= log@.len(),
    ensures
        *final(off) <= log@.len(),
        match row_at(log@, *old(off) as int, n as nat) {
            Some((fields, end)) => r matches Some(v) && fields_view(v@) == fields && *final(off) == end,
            None => r is None,
        },
{
    let mut out: Vec<Vec<u8>> = Vec::new();
    let mut i: usize = 0;
    assert(fields_view(out@) =~= Seq::empty());
    while i < n
        invariant
            i <= n,
            *old(off) <= log@.len(),
            *off <= log@.len(),
            match row_at(log@, *off as int, (n - i) as nat) {
                Some((rest, end)) => row_at(log@, *old(off) as int, n as nat) == Some((fields_view(out@) + rest, end)),
                None => row_at(log@, *old(off) as int, n as nat) is None,
            },
        decreases n - i,
    {
        let ghost before: Seq<Vec<u8>> = out@;
        let ghost at: int = *off as int;
        let data: Vec<u8> = match read_field(log, off) {
            Some(data) => data,
            None => return None,
        };
        out.push(data);
        proof {
            assert(fields_view(out@) =~= fields_view(before).push(data@));
            if let Some((rest, end)) = row_at(log@, *off as int, (n - i - 1) as nat) {
                assert(row_at(log@, at, (n - i) as nat) == Some((seq![data@] + rest, end)));
                assert(fields_view(before) + (seq![data@] + rest) =~= fields_view(out@) + rest);
            }
        }
        i = i + 1;
    }
    proof {
        assert(fields_view(out@) + Seq::<Seq<u8>>::empty() =~= fields_view(out@));
    }
    Some(out)
}

/// The whole rows of `n` fields of a log, and where they end.
pub fn read_rows(log: &[u8], n: usize) -> (r: (Vec<Vec<Vec<u8>>>, usize))
    requires
        n > 0,
    ensures
        rows_view(r.0@) == rows_from(log@, 0, n as nat),
        r.1 == rows_end(log@, 0, n as nat),
        r.1 <= log@.len(),
        forall|i: int| 0 <= i < r.0@.len() ==> (#[trigger] r.0@[i])@.len() == n,
{
    let mut out: Vec<Vec<Vec<u8>>> = Vec::new();
    let mut valid: usize = 0;
    assert(rows_view(out@) + rows_from(log@, 0, n as nat) =~= rows_from(log@, 0, n as nat));
    loop
        invariant
            n > 0,
            valid <= log@.len(),
            rows_view(out@) + rows_from(log@, valid as int, n as nat) == rows_from(log@, 0, n as nat),
            rows_end(log@, valid as int, n as nat) == rows_end(log@, 0, n as nat),
            forall|i: int| 0 <= i < out@.len() ==> (#[trigger] out@[i])@.len() == n,
        ensures
            rows_view(out@) == rows_from(log@, 0, n as nat),
            valid == rows_end(log@, 0, n as nat),
        decreases log@.len() - valid,
    {
        let mut off: usize = valid;
        proof {
            lemma_row_at_bounds(log@, valid as int, n as nat);
        }
        let fields: Vec<Vec<u8>> = match read_row(log, &mut off, n) {
            Some(fields) => fields,
            None => {
                assert(rows_view(out@) + Seq::<Seq<Seq<u8>>>::empty() =~= rows_view(out@));
                break;
            },
        };
        let ghost before: Seq<Vec<Vec<u8>>> = out@;
        out.push(fields);
        proof {
            let rest = rows_from(log@, off as int, n as nat);
            assert(rows_view(out@) =~= rows_view(before).push(fields_view(fields@)));
            assert(rows_view(before) + (seq![fields_view(fields@)] + rest) =~= rows_view(out@) + rest);
        }
        valid = off;
    }
    (out, valid)
}

} // verus!
