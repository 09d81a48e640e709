//! The kernel's TCP connection table: from its text to a map from socket
//! inode to the established connection it belongs to.
use vstd::prelude::*;
use std::collections::HashMap;
use crate::endpoint::{Endpoint, parse_endpoint, parse_endpoint_spec};
use vstd::slice::slice_subrange;

verus! {

broadcast use vstd::std_specs::hash::group_hash_axioms;

/// One established TCP connection.
#[derive(Clone, Copy, Debug, PartialEq, Eq, Structural)]
pub struct Stream {
    pub local: Endpoint,
    pub remote: Endpoint,
}

/// Lines before the first row: the table opens with two header lines.
pub const HEADER_LINES: usize = 2;

/// Position of the local endpoint among a row's fields.
pub const LOCAL_FIELD: usize = 1;

/// Position of the remote endpoint.
pub const REMOTE_FIELD: usize = 2;

/// Position of the connection state.
pub const STATE_FIELD: usize = 3;

/// Position of the socket inode.
pub const INODE_FIELD: usize = 9;

pub open spec fn is_space(c: u8) -> bool {
    c == 0x20 || c == 0x09 || c == 0x0a || c == 0x0c || c == 0x0d
}

/// Index of the first newline at or after `i`, or the length.
pub open spec fn line_end(s: Seq<u8>, i: int) -> int
    decreases s.len() - i,
{
    if i >= s.len() {
        s.len() as int
    } else if s[i] == 0x0a {
        i
    } else {
        line_end(s, i + 1)
    }
}

/// The lines of `s` from position `i` on; a final newline ends the last line
/// and opens none.
pub open spec fn lines_from(s: Seq<u8>, i: int) -> Seq<Seq<u8>>
    decreases s.len() + 1 - i,
{
    if i >= s.len() {
        seq![]
    } else {
        let e = line_end(s, i);
        if e < i || e > s.len() {
            seq![]
        } else {
            seq![s.subrange(i, e)] + lines_from(s, e + 1)
        }
    }
}

pub(crate) proof fn lemma_line_end(s: Seq<u8>, i: int)
    requires
        0 <= i <= s.len(),
    ensures
        i <= line_end(s, i) <= s.len(),
        forall|j: int| i <= j < line_end(s, i) ==> s[j] != 0x0a,
        line_end(s, i) < s.len() ==> s[line_end(s, i)] == 0x0a,
    decreases s.len() - i,
{
    if i < s.len() && s[i] != 0x0a {
        lemma_line_end(s, i + 1);
    }
}

pub open spec fn lines(s: Seq<u8>) -> Seq<Seq<u8>> {
    lines_from(s, 0)
}

/// Index of the first white space at or after `i`, or the length.
pub open spec fn word_end(s: Seq<u8>, i: int) -> int
    decreases s.len() - i,
{
    if i >= s.len() {
        s.len() as int
    } else if is_space(s[i]) {
        i
    } else {
        word_end(s, i + 1)
    }
}

/// The fields of `s` from position `i` on: the maximal runs without white
/// space.
pub open spec fn fields_from(s: Seq<u8>, i: int) -> Seq<Seq<u8>>
    decreases s.len() - i,
{
    if i >= s.len() {
        seq![]
    } else if is_space(s[i]) {
        fields_from(s, i + 1)
    } else {
        let e = word_end(s, i);
        if e <= i || e > s.len() {
            seq![]
        } else {
            seq![s.subrange(i, e)] + fields_from(s, e)
        }
    }
}

proof fn lemma_word_end(s: Seq<u8>, i: int)
    requires
        0 <= i <= s.len(),
    ensures
        i <= word_end(s, i) <= s.len(),
        forall|j: int| i <= j < word_end(s, i) ==> !is_space(#[trigger] s[j]),
        word_end(s, i) < s.len() ==> is_space(s[word_end(s, i)]),
    decreases s.len() - i,
{
    if i < s.len() && !is_space(s[i]) {
        lemma_word_end(s, i + 1);
    }
}

pub open spec fn fields(s: Seq<u8>) -> Seq<Seq<u8>> {
    fields_from(s, 0)
}

pub open spec fn is_digit(c: u8) -> bool {
    0x30 <= c <= 0x39
}

/// Value of a run of decimal digits.
pub open spec fn dec_value(s: Seq<u8>) -> int
    decreases s.len(),
{
    if s.len() == 0 {
        0
    } else {
        10 * dec_value(s.drop_last()) + (s.last() - 0x30)
    }
}

/// What reading an inode field yields: one or more digits whose value fits
/// in 64 bits.
pub open spec fn parse_inode_spec(s: Seq<u8>) -> Option<u64> {
    if s.len() > 0 && (forall|i: int| 0 <= i < s.len() ==> is_digit(#[trigger] s[i]))
        && dec_value(s) <= u64::MAX {
        Some(dec_value(s) as u64)
    } else {
        None
    }
}

/// The state code of an established connection, `01`.
pub open spec fn is_established(f: Seq<u8>) -> bool {
    f == seq![0x30u8, 0x31u8]
}

/// The entry a row contributes: the row must have an inode field, be in the
/// established state and have well-formed endpoints and inode.
#[verifier::opaque]
pub open spec fn row_entry(row: Seq<u8>) -> Option<(u64, Stream)> {
    let f = fields(row);
    if f.len() <= INODE_FIELD || !is_established(f[STATE_FIELD as int]) {
        None
    } else {
        match (
            parse_endpoint_spec(f[LOCAL_FIELD as int]),
            parse_endpoint_spec(f[REMOTE_FIELD as int]),
            parse_inode_spec(f[INODE_FIELD as int]),
        ) {
            (Some(local), Some(remote), Some(inode)) => Some((inode, Stream { local, remote })),
            _ => None,
        }
    }
}

/// The map built from rows in order; a later row with the same inode
/// replaces an earlier one.
pub open spec fn rows_map(rows: Seq<Seq<u8>>) -> Map<u64, Stream>
    decreases rows.len(),
{
    if rows.len() == 0 {
        Map::empty()
    } else {
        let m = rows_map(rows.drop_last());
        match row_entry(rows.last()) {
            Some((k, v)) => m.insert(k, v),
            None => m,
        }
    }
}

/// The map a whole table denotes.
pub open spec fn table_map(text: Seq<u8>) -> Map<u64, Stream> {
    let ls = lines(text);
    if ls.len() <= HEADER_LINES {
        Map::empty()
    } else {
        rows_map(ls.skip(HEADER_LINES as int))
    }
}

proof fn lemma_dec_prefix(s: Seq<u8>, k: int)
    requires
        0 <= k < s.len(),
    ensures
        dec_value(s.take(k + 1)) == 10 * dec_value(s.take(k)) + (s[k] - 0x30),
{
    assert(s.take(k + 1).drop_last() =~= s.take(k));
}

proof fn lemma_dec_monotone(s: Seq<u8>, k: int)
    requires
        0 <= k <= s.len(),
        forall|i: int| 0 <= i < s.len() ==> is_digit(#[trigger] s[i]),
    ensures
        0 <= dec_value(s.take(k)) <= dec_value(s),
    decreases s.len(),
{
    if k == s.len() {
        assert(s.take(k) =~= s);
        lemma_dec_nonneg(s);
    } else {
        let t = s.drop_last();
        assert forall|i: int| 0 <= i < t.len() implies is_digit(#[trigger] t[i]) by {
            assert(t[i] == s[i]);
        }
        lemma_dec_monotone(t, k);
        assert(t.take(k) =~= s.take(k));
    }
}

proof fn lemma_dec_nonneg(s: Seq<u8>)
    requires
        forall|i: int| 0 <= i < s.len() ==> is_digit(#[trigger] s[i]),
    ensures
        0 <= dec_value(s),
    decreases s.len(),
{
    if s.len() > 0 {
        let t = s.drop_last();
        assert forall|i: int| 0 <= i < t.len() implies is_digit(#[trigger] t[i]) by {
            assert(t[i] == s[i]);
        }
        lemma_dec_nonneg(t);
        assert(is_digit(s[s.len() - 1]));
    }
}

/// Reads an inode field: decimal digits only, at least one, within 64 bits.
pub fn parse_inode(s: &[u8]) -> (r: Option<u64>)
    ensures
        r == parse_inode_spec(s@),
{
    if s.len() == 0 {
        return None;
    }
    let mut acc: u64 = 0;
    let mut i: usize = 0;
    while i < s.len()
        invariant
            0 <= i <= s@.len(),
            forall|j: int| 0 <= j < i ==> is_digit(#[trigger] s@[j]),
            acc == dec_value(s@.take(i as int)),
        decreases s@.len() - i,
    {
        let c = s[i];
        if c < 0x30 || c > 0x39 {
            assert(!is_digit(s@[i as int]));
            return None;
        }
        let d: u64 = (c - 0x30) as u64;
        proof {
            lemma_dec_prefix(s@, i as int);
        }
        if acc > (u64::MAX - d) / 10 {
            proof {
                if forall|j: int| 0 <= j < s@.len() ==> is_digit(#[trigger] s@[j]) {
                    lemma_dec_monotone(s@, i + 1);
                }
            }
            return None;
        }
        acc = acc * 10 + d;
        i = i + 1;
    }
    assert(s@.take(s@.len() as int) =~= s@);
    Some(acc)
}

pub(crate) fn find_line_end(s: &[u8], i: usize) -> (e: usize)
    requires
        i <= s@.len(),
    ensures
        e == line_end(s@, i as int),
{
    let mut j: usize = i;
    while j < s.len() && s[j] != 0x0a
        invariant
            i <= j <= s@.len(),
            line_end(s@, i as int) == line_end(s@, j as int),
        decreases s@.len() - j,
    {
        j = j + 1;
    }
    j
}

fn find_word_end(s: &[u8], i: usize) -> (e: usize)
    requires
        i <= s@.len(),
    ensures
        e == word_end(s@, i as int),
{
    let mut j: usize = i;
    while j < s.len() && !(s[j] == 0x20 || s[j] == 0x09 || s[j] == 0x0a || s[j] == 0x0c || s[j] == 0x0d)
        invariant
            i <= j <= s@.len(),
            word_end(s@, i as int) == word_end(s@, j as int),
        decreases s@.len() - j,
    {
        j = j + 1;
    }
    j
}

/// Bounds of each field of `s`, in order.
fn split_fields(s: &[u8]) -> (r: Vec<(usize, usize)>)
    ensures
        r@.len() == fields(s@).len(),
        forall|k: int| 0 <= k < r@.len() ==> #[trigger] r@[k].0 <= r@[k].1 <= s@.len(),
        forall|k: int|
            0 <= k < r@.len() ==> s@.subrange(r@[k].0 as int, r@[k].1 as int) == #[trigger] fields(
                s@,
            )[k],
{
    let mut r: Vec<(usize, usize)> = Vec::new();
    let ghost done: Seq<Seq<u8>> = seq![];
    let mut i: usize = 0;
    while i < s.len()
        invariant
            i <= s@.len(),
            done + fields_from(s@, i as int) == fields(s@),
            done.len() == r@.len(),
            forall|k: int| 0 <= k < r@.len() ==> #[trigger] r@[k].0 <= r@[k].1 <= s@.len(),
            forall|k: int|
                0 <= k < r@.len() ==> s@.subrange(r@[k].0 as int, r@[k].1 as int) == #[trigger] done[k],
        decreases s@.len() - i,
    {
        if s[i] == 0x20 || s[i] == 0x09 || s[i] == 0x0a || s[i] == 0x0c || s[i] == 0x0d {
            i = i + 1;
        } else {
            let e = find_word_end(s, i);
            let ghost old_done = done;
            let ghost old_r = r@;
            proof {
                lemma_word_end(s@, i as int);
                let w = s@.subrange(i as int, e as int);
                assert(fields_from(s@, i as int) == seq![w] + fields_from(s@, e as int));
                assert(done.push(w) + fields_from(s@, e as int) =~= done + fields_from(s@, i as int));
                done = done.push(w);
            }
            r.push((i, e));
            assert forall|k: int| 0 <= k < r@.len() implies s@.subrange(
                r@[k].0 as int,
                r@[k].1 as int,
            ) == #[trigger] done[k] && r@[k].0 <= r@[k].1 <= s@.len() by {
                if k < old_r.len() {
                    assert(r@[k] == old_r[k]);
                    assert(done[k] == old_done[k]);
                }
            }
            i = e;
        }
    }
    assert(done + fields_from(s@, i as int) =~= done);
    assert(done =~= fields(s@));
    r
}

/// The entry one row contributes, if any.
fn parse_row(row: &[u8]) -> (r: Option<(u64, Stream)>)
    ensures
        r == row_entry(row@),
{
    proof {
        reveal(row_entry);
    }
    let f = split_fields(row);
    if f.len() <= INODE_FIELD {
        return None;
    }
    let ghost fs = fields(row@);
    assert forall|k: int| 0 <= k <= INODE_FIELD implies f@[k].0 <= f@[k].1 <= row@.len()
        && row@.subrange(f@[k].0 as int, f@[k].1 as int) == fs[k] by {
        assert(row@.subrange(f@[k].0 as int, f@[k].1 as int) == fields(row@)[k]);
    }
    let st = slice_subrange(row, f[STATE_FIELD].0, f[STATE_FIELD].1);
    if !(st.len() == 2 && st[0] == 0x30 && st[1] == 0x31) {
        assert(!is_established(fs[STATE_FIELD as int])) by {
            if is_established(fs[STATE_FIELD as int]) {
                assert(st@ == fs[STATE_FIELD as int]);
                assert(st@[0] == 0x30 && st@[1] == 0x31);
            }
        }
        return None;
    }
    assert(st@ =~= seq![0x30u8, 0x31u8]);
    let local = parse_endpoint(slice_subrange(row, f[LOCAL_FIELD].0, f[LOCAL_FIELD].1));
    let remote = parse_endpoint(slice_subrange(row, f[REMOTE_FIELD].0, f[REMOTE_FIELD].1));
    let inode = parse_inode(slice_subrange(row, f[INODE_FIELD].0, f[INODE_FIELD].1));
    match (local, remote, inode) {
        (Some(local), Some(remote), Some(inode)) => Some((inode, Stream { local, remote })),
        _ => None,
    }
}

proof fn lemma_lines_step(text: Seq<u8>, seen: Seq<Seq<u8>>, i: int, e: int)
    requires
        0 <= i < text.len(),
        e == line_end(text, i),
        seen + lines_from(text, i) == lines(text),
    ensures
        i <= e <= text.len(),
        seen.push(text.subrange(i, e)) + lines_from(text, e + 1) == lines(text),
        e == text.len() ==> lines_from(text, e + 1) == Seq::<Seq<u8>>::empty(),
{
    lemma_line_end(text, i);
    assert(lines_from(text, i) == seq![text.subrange(i, e)] + lines_from(text, e + 1));
    assert(seen.push(text.subrange(i, e)) + lines_from(text, e + 1) =~= seen + lines_from(text, i));
}

/// Builds the map from socket inode to connection out of the text of the
/// kernel's TCP table. Rows that are not established, or whose endpoint or
/// inode fields are malformed, are skipped; a later row with the same inode
/// replaces an earlier one.
pub fn streams(text: &[u8]) -> (r: HashMap<u64, Stream>)
    ensures
        r@ == table_map(text@),
{
    let mut m: HashMap<u64, Stream> = HashMap::new();
    let ghost seen: Seq<Seq<u8>> = seq![];
    let ghost rows: Seq<Seq<u8>> = seq![];
    let mut n: usize = 0;
    let mut i: usize = 0;
    while i < text.len()
        invariant
            i <= text@.len(),
            seen + lines_from(text@, i as int) == lines(text@),
            n <= HEADER_LINES,
            n < HEADER_LINES ==> seen.len() == n && rows.len() == 0,
            n == HEADER_LINES ==> seen.len() >= HEADER_LINES && rows == seen.skip(
                HEADER_LINES as int,
            ),
            m@ == rows_map(rows),
        decreases text@.len() - i,
    {
        let e = find_line_end(text, i);
        proof {
            lemma_lines_step(text@, seen, i as int, e as int);
        }
        let line = slice_subrange(text, i, e);
        if n >= HEADER_LINES {
            match parse_row(line) {
                Some((k, v)) => {
                    m.insert(k, v);
                },
                None => {},
            }
            proof {
                assert(rows.push(line@).drop_last() =~= rows);
                assert(seen.push(line@).skip(HEADER_LINES as int) =~= rows.push(line@));
                rows = rows.push(line@);
            }
        } else {
            n = n + 1;
            proof {
                assert(seen.push(line@).skip(n as int) =~= Seq::<Seq<u8>>::empty());
            }
        }
        proof {
            seen = seen.push(line@);
        }
        if e < text.len() {
            i = e + 1;
        } else {
            i = e;
        }
    }
    proof {
        assert(lines_from(text@, i as int) =~= Seq::<Seq<u8>>::empty());
        assert(seen =~= lines(text@));
        if n == HEADER_LINES && seen.len() == HEADER_LINES {
            assert(rows =~= Seq::<Seq<u8>>::empty());
        }
    }
    m
}

/// A row that is not in the established state, or whose endpoint or inode
/// field is malformed, contributes nothing: the rows around it read as if it
/// were not there.
pub proof fn lemma_rejected_row_skipped(before: Seq<Seq<u8>>, row: Seq<u8>, after: Seq<Seq<u8>>)
    requires
        fields(row).len() <= INODE_FIELD || !is_established(fields(row)[STATE_FIELD as int])
            || parse_endpoint_spec(fields(row)[LOCAL_FIELD as int]) is None || parse_endpoint_spec(
            fields(row)[REMOTE_FIELD as int],
        ) is None || parse_inode_spec(fields(row)[INODE_FIELD as int]) is None,
    ensures
        rows_map(before + seq![row] + after) == rows_map(before + after),
    decreases after.len(),
{
    reveal(row_entry);
    assert(row_entry(row) is None);
    if after.len() == 0 {
        assert(before + seq![row] + after =~= before.push(row));
        assert(before + after =~= before);
        assert(before.push(row).drop_last() =~= before);
    } else {
        let a = after.drop_last();
        lemma_rejected_row_skipped(before, row, a);
        assert((before + seq![row] + after).drop_last() =~= before + seq![row] + a);
        assert((before + after).drop_last() =~= before + a);
        assert((before + seq![row] + after).last() == after.last());
        assert((before + after).last() == after.last());
    }
}

/// A row yields an entry only when it is in the established state.
pub proof fn lemma_entry_established(row: Seq<u8>)
    ensures
        row_entry(row) is Some ==> fields(row).len() > INODE_FIELD && is_established(
            fields(row)[STATE_FIELD as int],
        ),
{
    reveal(row_entry);
}

/// Every entry of the map comes from a row whose fields give that inode and
/// that connection (and so, by `lemma_entry_established`, from a row in the
/// established state).
pub proof fn lemma_entries_from_rows(rows: Seq<Seq<u8>>)
    ensures
        forall|k: u64|
            #[trigger] rows_map(rows).contains_key(k) ==> exists|i: int|
                0 <= i < rows.len() && row_entry(#[trigger] rows[i]) == Some((k, rows_map(rows)[k])),
    decreases rows.len(),
{
    if rows.len() > 0 {
        let t = rows.drop_last();
        lemma_entries_from_rows(t);
        assert forall|k: u64| #[trigger] rows_map(rows).contains_key(k) implies exists|i: int|
            0 <= i < rows.len() && row_entry(#[trigger] rows[i]) == Some((k, rows_map(rows)[k])) by {
            let last = rows[rows.len() - 1];
            assert(last == rows.last());
            if row_entry(last) is Some && row_entry(last).unwrap().0 == k {
            } else {
                let i = choose|i: int|
                    0 <= i < t.len() && row_entry(#[trigger] t[i]) == Some((k, rows_map(t)[k]));
                assert(rows[i] == t[i]);
            }
        }
    }
}

/// Every inode in the map of a table comes from a row below the header that
/// is in the established state and gives that inode and that connection.
pub proof fn lemma_table_only_established(text: Seq<u8>)
    ensures
        forall|k: u64|
            #[trigger] table_map(text).contains_key(k) ==> exists|i: int|
                HEADER_LINES <= i < lines(text).len() && is_established(
                    fields(#[trigger] lines(text)[i])[STATE_FIELD as int],
                ) && row_entry(lines(text)[i]) == Some((k, table_map(text)[k])),
{
    let ls = lines(text);
    if ls.len() > HEADER_LINES {
        let rows = ls.skip(HEADER_LINES as int);
        lemma_entries_from_rows(rows);
        assert forall|k: u64| #[trigger] table_map(text).contains_key(k) implies exists|i: int|
            HEADER_LINES <= i < lines(text).len() && is_established(
                fields(#[trigger] lines(text)[i])[STATE_FIELD as int],
            ) && row_entry(lines(text)[i]) == Some((k, table_map(text)[k])) by {
            assert(rows_map(rows).contains_key(k));
            let j = choose|j: int|
                0 <= j < rows.len() && row_entry(#[trigger] rows[j]) == Some((k, rows_map(rows)[k]));
            lemma_entry_established(rows[j]);
            assert(rows[j] == ls[j + HEADER_LINES]);
        }
    }
}

} // verus!
