//! The results store: a plain-text file, one header line and then one
//! `datetime, score` line per recorded run, only ever appended to.

use vstd::prelude::*;
use crate::score::{Score, is_number_text};
use crate::text::is_digit;

verus! {

/// One run's entry in the results store.
#[derive(Debug)]
pub struct ScoreRecord {
    pub datetime: String,
    pub score: Score,
}

pub open spec fn header_line() -> Seq<char> {
    seq!['d', 'a', 't', 'e', 't', 'i', 'm', 'e', ',', ' ', 's', 'c', 'o', 'r', 'e']
}

pub open spec fn record_line(datetime: Seq<char>, score: Seq<char>) -> Seq<char> {
    datetime + seq![',', ' '] + score
}

/// The lines that one record adds to a store: the header first where the
/// store is empty.
pub open spec fn lines_added(store_is_empty: bool, datetime: Seq<char>, score: Seq<char>) -> Seq<
    Seq<char>,
> {
    if store_is_empty {
        seq![header_line(), record_line(datetime, score)]
    } else {
        seq![record_line(datetime, score)]
    }
}

/// The lines of a store that did not exist, after the records were added
/// one by one, each as `(datetime, score)`.
pub open spec fn store_after(records: Seq<(Seq<char>, Seq<char>)>) -> Seq<Seq<char>>
    decreases records.len(),
{
    if records.len() == 0 {
        Seq::empty()
    } else {
        let before = store_after(records.drop_last());
        before + lines_added(before.len() == 0, records.last().0, records.last().1)
    }
}

pub open spec fn text_lines(lines: Seq<String>) -> Seq<Seq<char>> {
    lines.map_values(|l: String| l@)
}

/// The lines to append to the results store for `record`, with the header
/// first where the store is empty.
pub fn lines_to_append(store_is_empty: bool, record: &ScoreRecord) -> (r: Vec<String>)
    ensures
        text_lines(r@) == lines_added(store_is_empty, record.datetime@, record.score@),
{
    let mut line = record.datetime.clone();
    line.append(", ");
    line.append(record.score.as_text().as_str());
    proof {
        reveal_strlit(", ");
    }
    assert(line@ =~= record_line(record.datetime@, record.score@));
    let mut r: Vec<String> = Vec::new();
    if store_is_empty {
        let header = String::from_str("datetime, score");
        proof {
            reveal_strlit("datetime, score");
        }
        assert(header@ =~= header_line());
        r.push(header);
    }
    r.push(line);
    assert(text_lines(r@) =~= lines_added(store_is_empty, record.datetime@, record.score@));
    r
}

proof fn lemma_store_shape(records: Seq<(Seq<char>, Seq<char>)>)
    requires
        records.len() > 0,
    ensures
        store_after(records).len() == records.len() + 1,
        store_after(records)[0] == header_line(),
        forall|i: int|
            1 <= i < store_after(records).len() ==> #[trigger] store_after(records)[i]
                == record_line(records[i - 1].0, records[i - 1].1),
    decreases records.len(),
{
    let rest = records.drop_last();
    if rest.len() == 0 {
        assert(store_after(rest) =~= Seq::<Seq<char>>::empty());
    } else {
        lemma_store_shape(rest);
        let s = store_after(records);
        assert forall|i: int| 1 <= i < s.len() implies #[trigger] s[i] == record_line(
            records[i - 1].0,
            records[i - 1].1,
        ) by {
            if i < s.len() - 1 {
                assert(s[i] == store_after(rest)[i]);
                assert(rest[i - 1] == records[i - 1]);
            }
        }
    }
}

/// Adding N records, one at a time, to a store that did not exist leaves
/// exactly one header line, first, followed by exactly N record lines,
/// none of which reads as a header; with no record the store stays empty.
pub proof fn lemma_header_once(records: Seq<(Seq<char>, Seq<char>)>)
    requires
        forall|i: int| 0 <= i < records.len() ==> is_number_text(#[trigger] records[i].1),
    ensures
        records.len() == 0 ==> store_after(records).len() == 0,
        records.len() > 0 ==> {
            let s = store_after(records);
            &&& s.len() == records.len() + 1
            &&& s[0] == header_line()
            &&& forall|i: int|
                1 <= i < s.len() ==> #[trigger] s[i] == record_line(
                    records[i - 1].0,
                    records[i - 1].1,
                ) && s[i] != header_line()
        },
{
    if records.len() > 0 {
        lemma_store_shape(records);
        let s = store_after(records);
        assert forall|i: int| 1 <= i < s.len() implies #[trigger] s[i] != header_line() by {
            let sc = records[i - 1].1;
            assert(is_number_text(sc));
            assert(s[i].last() == sc.last());
            assert(!is_digit(header_line().last()));
        }
    }
}

} // verus!
