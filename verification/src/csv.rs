//! Comma-separated lines of the report.

use vstd::prelude::*;
use crate::decimal::push_char;

verus! {

/// The fields joined with commas.
pub open spec fn join_fields(fields: Seq<Seq<char>>) -> Seq<char>
    decreases fields.len(),
{
    if fields.len() == 0 {
        seq![]
    } else if fields.len() == 1 {
        fields[0]
    } else {
        join_fields(fields.drop_last()) + seq![','] + fields.last()
    }
}

/// One line of comma-separated fields, ended by a newline.
pub open spec fn csv_line(fields: Seq<Seq<char>>) -> Seq<char> {
    join_fields(fields).push('\n')
}

/// The text of string slices.
pub open spec fn str_views(items: Seq<&str>) -> Seq<Seq<char>> {
    items.map_values(|h: &str| h@)
}

/// The text of strings.
pub open spec fn string_views(items: Seq<String>) -> Seq<Seq<char>> {
    items.map_values(|v: String| v@)
}

/// Appends the header line: the names joined with commas, then a newline.
pub fn write_csv_header(out: &mut String, headers: &[&str])
    ensures
        final(out)@ == old(out)@ + csv_line(str_views(headers@)),
{
    let ghost start = out@;
    let ghost fields = str_views(headers@);
    let n = headers.len();
    let mut i: usize = 0;
    while i < n
        invariant
            i <= n,
            n == headers@.len(),
            fields == str_views(headers@),
            out@ == start + join_fields(fields.take(i as int)),
        decreases n - i,
    {
        proof {
            assert(fields.take(i + 1).drop_last() =~= fields.take(i as int));
            assert(fields.take(i + 1).last() == headers@[i as int]@);
        }
        if i > 0 {
            push_char(out, ',');
        }
        out.append(headers[i]);
        proof {
            if i == 0 {
                assert(fields.take(1)[0] == headers@[0]@);
                assert(join_fields(fields.take(0)) =~= seq![]);
            }
            assert(out@ =~= start + join_fields(fields.take(i + 1)));
        }
        i = i + 1;
    }
    assert(fields.take(n as int) =~= fields);
    push_char(out, '\n');
}

/// Appends a row: the values joined with commas, then a newline.
pub fn write_csv_row(out: &mut String, values: &[String])
    ensures
        final(out)@ == old(out)@ + csv_line(string_views(values@)),
{
    let ghost start = out@;
    let ghost fields = string_views(values@);
    let n = values.len();
    let mut i: usize = 0;
    while i < n
        invariant
            i <= n,
            n == values@.len(),
            fields == string_views(values@),
            out@ == start + join_fields(fields.take(i as int)),
        decreases n - i,
    {
        proof {
            assert(fields.take(i + 1).drop_last() =~= fields.take(i as int));
            assert(fields.take(i + 1).last() == values@[i as int]@);
        }
        if i > 0 {
            push_char(out, ',');
        }
        out.append(values[i].as_str());
        proof {
            if i == 0 {
                assert(fields.take(1)[0] == values@[0]@);
                assert(join_fields(fields.take(0)) =~= seq![]);
            }
            assert(out@ =~= start + join_fields(fields.take(i + 1)));
        }
        i = i + 1;
    }
    assert(fields.take(n as int) =~= fields);
    push_char(out, '\n');
}

/// The fields of a line split at each comma, as `str::split(',')` gives
/// them: a line without commas is one field, and an empty line is one empty
/// field.
pub open spec fn split_fields(line: Seq<char>) -> Seq<Seq<char>>
    decreases line.len(),
{
    if line.len() == 0 {
        seq![seq![]]
    } else {
        let prev = split_fields(line.drop_last());
        if line.last() == ',' {
            prev.push(seq![])
        } else {
            prev.update(prev.len() - 1, prev.last().push(line.last()))
        }
    }
}

proof fn lemma_split_fields_nonempty(line: Seq<char>)
    ensures
        split_fields(line).len() >= 1,
    decreases line.len(),
{
    if line.len() > 0 {
        lemma_split_fields_nonempty(line.drop_last());
    }
}

/// Text without commas continues the last field.
proof fn lemma_split_fields_extend(a: Seq<char>, b: Seq<char>)
    requires
        !b.contains(','),
    ensures
        ({
            let q = split_fields(a);
            split_fields(a + b) == q.update(q.len() - 1, q.last() + b)
        }),
    decreases b.len(),
{
    let q = split_fields(a);
    lemma_split_fields_nonempty(a);
    if b.len() == 0 {
        assert(a + b =~= a);
        assert(q.last() + b =~= q.last());
        assert(q.update(q.len() - 1, q.last() + b) =~= q);
    } else {
        let bd = b.drop_last();
        assert(!bd.contains(',')) by {
            if bd.contains(',') {
                let k = choose|k: int| 0 <= k < bd.len() && bd[k] == ',';
                assert(b[k] == ',');
            }
        }
        lemma_split_fields_extend(a, bd);
        assert((a + b).drop_last() =~= a + bd);
        assert((a + b).last() == b.last());
        assert(b.last() != ',') by {
            assert(b[b.len() - 1] == b.last());
        }
        let p = split_fields(a + bd);
        assert(p.len() == q.len());
        assert(p.last() == q.last() + bd);
        assert((q.last() + bd).push(b.last()) =~= q.last() + b);
        assert(split_fields(a + b) =~= q.update(q.len() - 1, q.last() + b));
    }
}

proof fn lemma_join_fields_chars(fields: Seq<Seq<char>>, c: char)
    requires
        c != ',',
        forall|i: int| 0 <= i < fields.len() ==> !(#[trigger] fields[i]).contains(c),
    ensures
        !join_fields(fields).contains(c),
    decreases fields.len(),
{
    if fields.len() >= 2 {
        let d = fields.drop_last();
        assert forall|i: int| 0 <= i < d.len() implies !(#[trigger] d[i]).contains(c) by {
            assert(d[i] == fields[i]);
        }
        lemma_join_fields_chars(d, c);
        let j = join_fields(fields);
        let l = fields.last();
        assert(fields[fields.len() - 1] == l);
        if j.contains(c) {
            let k = choose|k: int| 0 <= k < j.len() && j[k] == c;
            let jd = join_fields(d);
            if k < jd.len() {
                assert(jd[k] == c);
            } else if k > jd.len() {
                assert(l[k - jd.len() - 1] == c);
            }
        }
    } else if fields.len() == 1 {
        assert(!fields[0].contains(c));
    }
}

/// A line of fields without commas or newlines reads back as those fields:
/// it ends with its only newline, and splitting the rest at its commas
/// gives the fields again. This holds of the header line of
/// `write_csv_header` and of the rows of `write_csv_row`.
pub proof fn lemma_csv_line_round_trip(fields: Seq<Seq<char>>)
    requires
        fields.len() >= 1,
        forall|i: int| 0 <= i < fields.len() ==> !(#[trigger] fields[i]).contains(','),
        forall|i: int| 0 <= i < fields.len() ==> !(#[trigger] fields[i]).contains('\n'),
    ensures
        csv_line(fields).last() == '\n',
        !csv_line(fields).drop_last().contains('\n'),
        split_fields(csv_line(fields).drop_last()) == fields,
{
    lemma_join_fields_chars(fields, '\n');
    assert(csv_line(fields).drop_last() =~= join_fields(fields));
    lemma_split_join(fields);
}

/// Splitting joined fields without commas gives the fields back.
proof fn lemma_split_join(fields: Seq<Seq<char>>)
    requires
        fields.len() >= 1,
        forall|i: int| 0 <= i < fields.len() ==> !(#[trigger] fields[i]).contains(','),
    ensures
        split_fields(join_fields(fields)) == fields,
    decreases fields.len(),
{
    let empty = Seq::<char>::empty();
    if fields.len() == 1 {
        assert(!fields[0].contains(','));
        lemma_split_fields_extend(empty, fields[0]);
        assert(empty + fields[0] =~= fields[0]);
        assert(split_fields(empty) == seq![empty]);
        assert(seq![empty].update(0, empty + fields[0]) =~= fields);
    } else {
        let d = fields.drop_last();
        let l = fields.last();
        assert forall|i: int| 0 <= i < d.len() implies !(#[trigger] d[i]).contains(',') by {
            assert(d[i] == fields[i]);
        }
        lemma_split_join(d);
        assert(!l.contains(',')) by {
            assert(fields[fields.len() - 1] == l);
        }
        let a = join_fields(d) + seq![','];
        assert(a.drop_last() =~= join_fields(d));
        assert(a.last() == ',');
        assert(split_fields(a) == d.push(empty));
        lemma_split_fields_extend(a, l);
        assert(join_fields(fields) == a + l);
        assert(empty + l =~= l);
        assert(d.push(empty).update(d.len() as int, empty + l) =~= fields);
    }
}

} // verus!
