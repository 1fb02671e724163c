//! Comma-separated text records.

use vstd::prelude::*;

use crate::fixed::{num_result, ParseError};

verus! {

/// The fields of a record: the text split on every comma.
/// Splitting the empty text gives one empty field, as `str::split` does.
pub open spec fn field_seq(s: Seq<char>) -> Seq<Seq<char>>
    decreases s.len(),
{
    if s.len() == 0 {
        seq![Seq::<char>::empty()]
    } else if s[0] == ',' {
        seq![Seq::<char>::empty()] + field_seq(s.drop_first())
    } else {
        let rest = field_seq(s.drop_first());
        seq![seq![s[0]] + rest[0]] + rest.drop_first()
    }
}

/// Every text has at least one field.
pub proof fn lemma_field_seq_nonempty(s: Seq<char>)
    ensures
        field_seq(s).len() >= 1,
    decreases s.len(),
{
    if s.len() == 0 {
    } else if s[0] == ',' {
    } else {
        lemma_field_seq_nonempty(s.drop_first());
    }
}

/// What the numeric field at position `i` yields: a field that is not
/// there at all defaults to zero, as the record format fills missing
/// trailing fields.
pub open spec fn field_num(fs: Seq<Seq<char>>, i: int) -> Result<i64, ParseError> {
    if i < fs.len() {
        num_result(fs[i])
    } else {
        Ok(0)
    }
}

/// The views of a sequence of borrowed fields.
pub open spec fn views_of(fields: Seq<&str>) -> Seq<Seq<char>> {
    fields.map_values(|t: &str| t@)
}

/// The fields with the first one extended by `pre` on its left.
pub open spec fn prepend_first(pre: Seq<char>, fs: Seq<Seq<char>>) -> Seq<Seq<char>>
    recommends
        fs.len() >= 1,
{
    seq![pre + fs[0]] + fs.drop_first()
}

proof fn lemma_prepend_empty(fs: Seq<Seq<char>>)
    requires
        fs.len() >= 1,
    ensures
        prepend_first(Seq::empty(), fs) == fs,
{
    assert(prepend_first(Seq::empty(), fs) =~~= fs);
}

proof fn lemma_prepend_assoc(a: Seq<char>, c: char, fs: Seq<Seq<char>>)
    requires
        fs.len() >= 1,
    ensures
        prepend_first(a, prepend_first(seq![c], fs)) == prepend_first(a.push(c), fs),
{
    assert(prepend_first(a, prepend_first(seq![c], fs)) =~~= prepend_first(a.push(c), fs));
}

/// Split a record into its comma-separated fields, in order.
pub fn split_fields<'a>(s: &'a str) -> (r: Vec<&'a str>)
    ensures
        views_of(r@) == field_seq(s@),
        r@.len() >= 1,
{
    let n: usize = s.unicode_len();
    let mut fields: Vec<&'a str> = Vec::new();
    let mut start: usize = 0;
    let mut i: usize = 0;
    proof {
        assert(s@.subrange(0, n as int) =~= s@);
        lemma_prepend_empty(field_seq(s@));
        lemma_field_seq_nonempty(s@);
        assert(views_of(fields@) =~= Seq::<Seq<char>>::empty());
    }
    while i < n
        invariant
            start <= i <= n,
            n == s@.len(),
            field_seq(s@) == views_of(fields@) + prepend_first(
                s@.subrange(start as int, i as int),
                field_seq(s@.subrange(i as int, n as int)),
            ),
        decreases n - i,
    {
        let ghost tail = s@.subrange(i as int, n as int);
        let ghost rest = field_seq(s@.subrange(i as int + 1, n as int));
        proof {
            lemma_field_seq_nonempty(s@.subrange(i as int + 1, n as int));
            assert(tail.drop_first() =~= s@.subrange(i as int + 1, n as int));
        }
        let c = s.get_char(i);
        if c == ',' {
            let piece = s.substring_char(start, i);
            fields.push(piece);
            proof {
                assert(field_seq(tail) == seq![Seq::<char>::empty()] + rest);
                assert(prepend_first(s@.subrange(start as int, i as int), field_seq(tail))
                    =~~= seq![s@.subrange(start as int, i as int)] + rest);
                assert(views_of(fields@) =~= views_of(fields@.drop_last()) + seq![
                    s@.subrange(start as int, i as int),
                ]);
                lemma_prepend_empty(rest);
                assert(s@.subrange(i as int + 1, i as int + 1) =~= Seq::<char>::empty());
            }
            start = i + 1;
        } else {
            proof {
                assert(field_seq(tail) == prepend_first(seq![s@[i as int]], rest));
                lemma_prepend_assoc(s@.subrange(start as int, i as int), s@[i as int], rest);
                assert(s@.subrange(start as int, i as int).push(s@[i as int]) =~= s@.subrange(
                    start as int,
                    i as int + 1,
                ));
            }
        }
        i = i + 1;
    }
    let piece = s.substring_char(start, n);
    fields.push(piece);
    proof {
        assert(s@.subrange(n as int, n as int) =~= Seq::<char>::empty());
        assert(prepend_first(s@.subrange(start as int, n as int), field_seq(Seq::<char>::empty()))
            =~~= seq![s@.subrange(start as int, n as int)]);
        assert(views_of(fields@) =~= views_of(fields@.drop_last()) + seq![
            s@.subrange(start as int, n as int),
        ]);
        assert(views_of(fields@) =~= field_seq(s@));
    }
    fields
}

} // verus!
