//! The item reader: splits a file's text into a header line and data lines,
//! decodes each data line into a typed record, skips blank lines and drops
//! rows that fail to decode.

use crate::text;
use crate::Read;
use vstd::prelude::*;

verus! {

/// A batch result with each record replaced by its view.
pub open spec fn batch_view<T: View>(r: Option<Vec<T>>) -> Option<Seq<T::V>> {
    match r {
        Some(v) => Some(v@.map_values(|t: T| t@)),
        None => None,
    }
}

/// The records one data line contributes to the batch: none for a blank line
/// or a line that fails to decode, otherwise the one decoded record.
pub open spec fn row_records<T: Read>(
    line: Seq<char>,
    headers: Seq<Seq<char>>,
    d: Seq<char>,
) -> Seq<T::V> {
    if text::is_blank_spec(line) {
        Seq::empty()
    } else {
        match T::decode_spec(headers, text::split_spec(line, d)) {
            Some(v) => seq![v],
            None => Seq::empty(),
        }
    }
}

/// The batch decoded from the data lines, in line order.
pub open spec fn decode_rows_spec<T: Read>(
    rows: Seq<Seq<char>>,
    headers: Seq<Seq<char>>,
    d: Seq<char>,
) -> Seq<T::V>
    decreases rows.len(),
{
    if rows.len() == 0 {
        Seq::empty()
    } else {
        decode_rows_spec::<T>(rows.drop_last(), headers, d) + row_records::<T>(
            rows.last(),
            headers,
            d,
        )
    }
}

/// What reading a file's text returns: nothing when the text has no lines at
/// all (no header row), otherwise the batch decoded from the data lines
/// against the header row.
pub open spec fn read_spec<T: Read>(content: Seq<char>, d: Seq<char>) -> Option<Seq<T::V>> {
    let ls = text::lines_spec(content);
    if ls.len() == 0 {
        None
    } else {
        Some(decode_rows_spec::<T>(ls.skip(1), text::split_spec(ls[0], d), d))
    }
}

/// A data line that contributes a record: not blank, and it decodes.
pub open spec fn is_valid_row<T: Read>(
    line: Seq<char>,
    headers: Seq<Seq<char>>,
    d: Seq<char>,
) -> bool {
    !text::is_blank_spec(line) && T::decode_spec(headers, text::split_spec(line, d)) is Some
}

/// How many data lines contribute a record.
pub open spec fn count_valid_rows<T: Read>(
    rows: Seq<Seq<char>>,
    headers: Seq<Seq<char>>,
    d: Seq<char>,
) -> int
    decreases rows.len(),
{
    if rows.len() == 0 {
        0
    } else {
        count_valid_rows::<T>(rows.drop_last(), headers, d) + (if is_valid_row::<T>(
            rows.last(),
            headers,
            d,
        ) {
            1int
        } else {
            0int
        })
    }
}

/// How many data lines are not blank.
pub open spec fn count_nonblank(rows: Seq<Seq<char>>) -> int
    decreases rows.len(),
{
    if rows.len() == 0 {
        0
    } else {
        count_nonblank(rows.drop_last()) + (if text::is_blank_spec(rows.last()) {
            0int
        } else {
            1int
        })
    }
}

/// A row that fails to decode is excluded from the batch: the batch holds
/// exactly one record per valid data line, never a partial record.
pub proof fn lemma_batch_len_counts_valid_rows<T: Read>(
    rows: Seq<Seq<char>>,
    headers: Seq<Seq<char>>,
    d: Seq<char>,
)
    ensures
        decode_rows_spec::<T>(rows, headers, d).len() == count_valid_rows::<T>(rows, headers, d),
    decreases rows.len(),
{
    if rows.len() > 0 {
        lemma_batch_len_counts_valid_rows::<T>(rows.drop_last(), headers, d);
    }
}

/// Blank or whitespace-only lines are skipped entirely: when every non-blank
/// data line decodes, the batch holds exactly one record per non-blank line.
pub proof fn lemma_blank_lines_skipped<T: Read>(
    rows: Seq<Seq<char>>,
    headers: Seq<Seq<char>>,
    d: Seq<char>,
)
    requires
        forall|i: int|
            0 <= i < rows.len() && !text::is_blank_spec(rows[i]) ==> T::decode_spec(
                headers,
                text::split_spec(rows[i], d),
            ) is Some,
    ensures
        decode_rows_spec::<T>(rows, headers, d).len() == count_nonblank(rows),
    decreases rows.len(),
{
    if rows.len() > 0 {
        assert(forall|i: int|
            0 <= i < rows.drop_last().len() ==> rows.drop_last()[i] == rows[i]);
        lemma_blank_lines_skipped::<T>(rows.drop_last(), headers, d);
        assert(rows.last() == rows[rows.len() - 1]);
    }
}

/// The reader capability: decode a file's text into a batch of records.
pub trait Reader {
    type Item;

    /// Decode the text of one delimited file into a batch. Reading the file
    /// itself is the caller's concern.
    fn read(&self, content: &str, delimiter: &str) -> Option<Vec<Self::Item>>;
}

/// A reader of delimited text, decoding each data line into a `T`.
pub struct ItemReader<T> {
    items: Vec<T>,
}

impl<T> ItemReader<T> {
    /// The reader's own item store, as a sequence.
    pub closed spec fn spec_items(self) -> Seq<T> {
        self.items@
    }

    /// A fresh reader with an empty item store.
    pub fn new() -> (r: Self)
        ensures
            r.spec_items() == Seq::<T>::empty(),
    {
        let items: Vec<T> = Vec::new();
        proof {
            assert(items@ =~= Seq::<T>::empty());
        }
        ItemReader { items }
    }

    /// Mutable access to the reader's item store.
    pub fn items_mut(&mut self) -> (r: &mut Vec<T>)
        ensures
            r@ == old(self).spec_items(),
            final(self).spec_items() == final(r)@,
    {
        &mut self.items
    }
}

impl<T: Read> Reader for ItemReader<T> {
    type Item = T;

    /// Split the text into lines, take the first as the header row, split
    /// every further line on the delimiter and decode it; blank lines are
    /// skipped and rows that fail to decode are dropped.
    fn read(&self, content: &str, delimiter: &str) -> (r: Option<Vec<T>>)
        ensures
            batch_view(r) == read_spec::<T>(content@, delimiter@),
    {
        let lines = text::split_lines(content);
        if lines.len() == 0 {
            return None;
        }
        let headers = text::split_str(lines[0], delimiter);
        let mut items: Vec<T> = Vec::new();
        proof {
            assert(text::rows_view(lines@)[0] == text::lines_spec(content@)[0]);
            let rows = text::lines_spec(content@).skip(1);
            assert(rows.take(0) =~= Seq::<Seq<char>>::empty());
            assert(items@.map_values(|t: T| t@) =~= Seq::<T::V>::empty());
        }
        let mut li: usize = 1;
        while li < lines.len()
            invariant
                text::rows_view(lines@) == text::lines_spec(content@),
                lines@.len() >= 1,
                1 <= li <= lines@.len(),
                text::rows_view(headers@) == text::split_spec(
                    text::lines_spec(content@)[0],
                    delimiter@,
                ),
                items@.map_values(|t: T| t@) == decode_rows_spec::<T>(
                    text::lines_spec(content@).skip(1).take(li - 1),
                    text::rows_view(headers@),
                    delimiter@,
                ),
            decreases lines@.len() - li,
        {
            let ghost rows = text::lines_spec(content@).skip(1);
            let ghost hs = text::rows_view(headers@);
            proof {
                assert(rows.take(li as int).drop_last() =~= rows.take(li - 1));
                assert(rows.take(li as int).last() == rows[li - 1]);
                assert(rows[li - 1] == text::rows_view(lines@)[li as int]);
            }
            let line = lines[li];
            if !text::is_blank(line) {
                let values = text::split_str(line, delimiter);
                match T::read_file(headers.as_slice(), values.as_slice()) {
                    Some(item) => {
                        proof {
                            assert(row_records::<T>(line@, hs, delimiter@) =~= seq![item@]);
                            assert(items@.push(item).map_values(|t: T| t@) =~= items@.map_values(
                                |t: T| t@,
                            ).push(item@));
                            assert(decode_rows_spec::<T>(rows.take(li as int), hs, delimiter@)
                                =~= items@.map_values(|t: T| t@).push(item@));
                        }
                        items.push(item);
                    },
                    None => {
                        proof {
                            assert(row_records::<T>(line@, hs, delimiter@) =~= Seq::<T::V>::empty());
                            assert(decode_rows_spec::<T>(rows.take(li as int), hs, delimiter@)
                                =~= items@.map_values(|t: T| t@));
                        }
                    },
                }
            } else {
                proof {
                    assert(row_records::<T>(line@, hs, delimiter@) =~= Seq::<T::V>::empty());
                    assert(decode_rows_spec::<T>(rows.take(li as int), hs, delimiter@)
                        =~= items@.map_values(|t: T| t@));
                }
            }
            li += 1;
        }
        proof {
            let rows = text::lines_spec(content@).skip(1);
            assert(rows.take(lines@.len() - 1) =~= rows);
        }
        Some(items)
    }
}

} // verus!
