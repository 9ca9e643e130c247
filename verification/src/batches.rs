//! Splitting a dataset into batch files: which records go into which batch,
//! and the row that a record becomes under the file's header.
use vstd::prelude::*;

verus! {

/// Records per batch file.
pub const BATCH_SIZE: usize = 10;

/// The end of the batch that starts at `start`.
pub open spec fn batch_end(start: int, count: int, size: int) -> int {
    if count - start > size {
        start + size
    } else {
        count
    }
}

/// The half-open ranges of record positions of the batches of `count`
/// records, `size` per batch, the last batch holding the rest: batch `k`
/// covers `k * size` up to `(k + 1) * size` or `count`, and there are just
/// enough batches to cover every record.
pub fn batch_ranges(count: usize, size: usize) -> (r: Vec<(usize, usize)>)
    requires
        size > 0,
    ensures
        r@.len() * size >= count,
        r@.len() >= 1 ==> (r@.len() - 1) * size < count,
        forall|k: int| 0 <= k < r@.len() ==> (#[trigger] r@[k]).0 == k * size && r@[k].1 == batch_end(k * size, count as int, size as int),
{
    let mut r: Vec<(usize, usize)> = Vec::new();
    let mut start: usize = 0;
    while start < count
        invariant
            size > 0,
            start <= count,
            r@.len() >= 1 ==> (r@.len() - 1) * size < count,
            start == r@.len() * size || (start == count && count <= r@.len() * size),
            forall|k: int| 0 <= k < r@.len() ==> (#[trigger] r@[k]).0 == k * size && r@[k].1 == batch_end(k * size, count as int, size as int),
        decreases count - start,
    {
        let ghost n = r@.len();
        assert((n + 1) * size == n * size + size) by (nonlinear_arith);
        let end = if count - start > size { start + size } else { count };
        r.push((start, end));
        assert(r@[n as int] == (start, end));
        start = end;
    }
    r
}

/// Consecutive batches meet, the first starts at record 0 and the last ends
/// at the last record: the batches cover every record exactly once, in order.
pub proof fn lemma_batches_partition(count: int, size: int, n: int)
    requires
        size > 0,
        count >= 0,
        n >= 0,
        n * size >= count,
        n >= 1 ==> (n - 1) * size < count,
    ensures
        forall|k: int| 0 <= k < n - 1 ==> #[trigger] batch_end(k * size, count, size) == (k + 1) * size,
        n >= 1 ==> batch_end((n - 1) * size, count, size) == count,
        n == 0 <==> count == 0,
{
    assert forall|k: int| 0 <= k < n - 1 implies #[trigger] batch_end(k * size, count, size) == (k + 1) * size by {
        assert((k + 1) * size <= (n - 1) * size) by (nonlinear_arith)
            requires
                k + 1 <= n - 1,
                size > 0,
        ;
        assert((k + 1) * size == k * size + size) by (nonlinear_arith);
    }
    if n >= 1 {
        assert(n * size == (n - 1) * size + size) by (nonlinear_arith);
        assert((n - 1) * size >= 0) by (nonlinear_arith)
            requires
                n >= 1,
                size > 0,
        ;
    }
    if n == 0 {
        assert(n * size == 0) by (nonlinear_arith)
            requires
                n == 0,
        ;
    }
}

/// No key occurs twice in `record`: it holds what a map from header to value
/// holds.
pub open spec fn keys_unique(record: Seq<(String, String)>) -> bool {
    forall|i: int, j: int| 0 <= i < j < record.len() ==> (#[trigger] record[i]).0@ != (#[trigger] record[j]).0@
}

/// Whether no key occurs twice in `record`.
pub fn has_unique_keys(record: &Vec<(String, String)>) -> (r: bool)
    ensures
        r == keys_unique(record@),
{
    let n = record.len();
    let mut j: usize = 0;
    while j < n
        invariant
            n == record@.len(),
            j <= n,
            forall|a: int, b: int| 0 <= a < b < j ==> (#[trigger] record@[a]).0@ != (#[trigger] record@[b]).0@,
        decreases n - j,
    {
        let mut i: usize = 0;
        while i < j
            invariant
                n == record@.len(),
                i <= j < n,
                forall|a: int| 0 <= a < i ==> (#[trigger] record@[a]).0@ != record@[j as int].0@,
            decreases j - i,
        {
            if record[i].0 == record[j].0 {
                assert(record@[i as int].0@ == record@[j as int].0@);
                return false;
            }
            i = i + 1;
        }
        j = j + 1;
    }
    true
}

/// The value stored under `key` in `record`: the first pair with that key.
pub open spec fn record_get(record: Seq<(String, String)>, key: Seq<char>) -> Option<Seq<char>>
    decreases record.len(),
{
    if record.len() == 0 {
        None
    } else if record[0].0@ == key {
        Some(record[0].1@)
    } else {
        record_get(record.drop_first(), key)
    }
}

/// In a record whose keys are unique, looking up the key of a pair gives
/// that pair's value.
pub proof fn lemma_record_get_unique(record: Seq<(String, String)>, j: int)
    requires
        keys_unique(record),
        0 <= j < record.len(),
    ensures
        record_get(record, record[j].0@) == Some(record[j].1@),
    decreases record.len(),
{
    if j > 0 {
        let rest = record.drop_first();
        assert(record[0].0@ != record[j].0@);
        assert(keys_unique(rest)) by {
            assert forall|a: int, b: int| 0 <= a < b < rest.len() implies (#[trigger] rest[a]).0@ != (#[trigger] rest[b]).0@ by {
                assert(rest[a] == record[a + 1] && rest[b] == record[b + 1]);
            }
        }
        assert(rest[j - 1] == record[j]);
        lemma_record_get_unique(rest, j - 1);
    }
}

fn record_lookup<'a>(record: &'a Vec<(String, String)>, key: &String) -> (r: Option<&'a String>)
    ensures
        match r {
            Some(v) => record_get(record@, key@) == Some(v@),
            None => record_get(record@, key@) is None,
        },
{
    let mut k: usize = 0;
    assert(record@.skip(0) == record@);
    while k < record.len()
        invariant
            k <= record@.len(),
            record_get(record@, key@) == record_get(record@.skip(k as int), key@),
        decreases record@.len() - k,
    {
        assert(record@.skip(k as int).drop_first() == record@.skip(k + 1));
        if record[k].0 == *key {
            assert(record@.skip(k as int)[0] == record@[k as int]);
            return Some(&record[k].1);
        }
        k = k + 1;
    }
    None
}

/// The cells of a record under the header line: for each header, the record's
/// value for it, or an empty cell.
pub fn batch_row(headers: &Vec<String>, record: &Vec<(String, String)>) -> (row: Vec<String>)
    requires
        keys_unique(record@),
    ensures
        row@.len() == headers@.len(),
        forall|i: int| 0 <= i < headers@.len() ==> (#[trigger] row@[i])@ == match record_get(record@, headers@[i]@) {
            Some(v) => v,
            None => Seq::<char>::empty(),
        },
{
    let mut row: Vec<String> = Vec::new();
    let mut i: usize = 0;
    while i < headers.len()
        invariant
            i <= headers@.len(),
            row@.len() == i,
            forall|j: int| 0 <= j < i ==> (#[trigger] row@[j])@ == match record_get(record@, headers@[j]@) {
                Some(v) => v,
                None => Seq::<char>::empty(),
            },
        decreases headers@.len() - i,
    {
        let cell = match record_lookup(record, &headers[i]) {
            Some(v) => v.clone(),
            None => String::new(),
        };
        row.push(cell);
        i = i + 1;
    }
    row
}

} // verus!
