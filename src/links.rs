//! Network interfaces: their names from the kernel's device table, and the
//! order in which they are taken down and brought back up.
use vstd::prelude::*;
use vstd::slice::{slice_subrange, slice_to_vec};
use crate::table::{find_line_end, lemma_line_end, lines, lines_from};

verus! {

/// Lines before the first interface: the device table opens with two lines
/// of column titles.
pub const DEVICE_HEADER_LINES: usize = 2;

/// White space trimmed from a name: tab, line feed, vertical tab, form
/// feed, carriage return and space.
pub open spec fn is_space(c: u8) -> bool {
    (0x09 <= c <= 0x0d) || c == 0x20
}

/// Index of the first colon at or after `i`, or the length.
pub open spec fn name_end(s: Seq<u8>, i: int) -> int
    decreases s.len() - i,
{
    if i >= s.len() {
        s.len() as int
    } else if s[i] == 0x3a {
        i
    } else {
        name_end(s, i + 1)
    }
}

/// A three-byte UTF-8 white-space character: U+1680, U+2000 to U+200A,
/// U+2028, U+2029, U+202F, U+205F or U+3000.
pub open spec fn is_wide_space(a: u8, b: u8, c: u8) -> bool {
    ||| (a == 0xe1 && b == 0x9a && c == 0x80)
    ||| (a == 0xe2 && b == 0x80 && ((0x80 <= c <= 0x8a) || c == 0xa8 || c == 0xa9 || c == 0xaf))
    ||| (a == 0xe2 && b == 0x81 && c == 0x9f)
    ||| (a == 0xe3 && b == 0x80 && c == 0x80)
}

/// Length in bytes of the white-space character that starts at `i` and ends
/// by `e`, or 0: ASCII white space, U+0085, U+00A0, or a three-byte one.
pub open spec fn space_len_at(s: Seq<u8>, i: int, e: int) -> int {
    if i < e && is_space(s[i]) {
        1
    } else if i + 1 < e && s[i] == 0xc2 && (s[i + 1] == 0x85 || s[i + 1] == 0xa0) {
        2
    } else if i + 2 < e && is_wide_space(s[i], s[i + 1], s[i + 2]) {
        3
    } else {
        0
    }
}

/// Length in bytes of the white-space character that ends at `j` and starts
/// at or after `a`, or 0.
pub open spec fn space_len_before(s: Seq<u8>, a: int, j: int) -> int {
    if j > a && is_space(s[j - 1]) {
        1
    } else if j - 2 >= a && s[j - 2] == 0xc2 && (s[j - 1] == 0x85 || s[j - 1] == 0xa0) {
        2
    } else if j - 3 >= a && is_wide_space(s[j - 3], s[j - 2], s[j - 1]) {
        3
    } else {
        0
    }
}

/// First index at or after `i`, below `e`, where no white space starts.
pub open spec fn skip_spaces(s: Seq<u8>, i: int, e: int) -> int
    decreases e - i,
{
    let k = space_len_at(s, i, e);
    if k > 0 {
        skip_spaces(s, i + k, e)
    } else {
        i
    }
}

/// End of `s[a..j]` once trailing white space is dropped.
pub open spec fn drop_spaces(s: Seq<u8>, a: int, j: int) -> int
    decreases j - a,
{
    let k = space_len_before(s, a, j);
    if k > 0 {
        drop_spaces(s, a, j - k)
    } else {
        j
    }
}

/// The interface a line names: what stands before its first colon, without
/// surrounding white space (as `str::trim` removes it from UTF-8 text).
pub open spec fn interface_name(line: Seq<u8>) -> Seq<u8> {
    let e = name_end(line, 0);
    let a = skip_spaces(line, 0, e);
    line.subrange(a, drop_spaces(line, a, e))
}

/// The loopback interface, `lo`.
pub open spec fn is_loopback(name: Seq<u8>) -> bool {
    name == seq![0x6cu8, 0x6fu8]
}

/// The names of the rows in order, the loopback interface left out.
pub open spec fn names_of(rows: Seq<Seq<u8>>) -> Seq<Seq<u8>>
    decreases rows.len(),
{
    if rows.len() == 0 {
        seq![]
    } else {
        let n = names_of(rows.drop_last());
        let x = interface_name(rows.last());
        if is_loopback(x) {
            n
        } else {
            n.push(x)
        }
    }
}

/// The interfaces a device table lists.
pub open spec fn interface_list(text: Seq<u8>) -> Seq<Seq<u8>> {
    let ls = lines(text);
    if ls.len() <= DEVICE_HEADER_LINES {
        seq![]
    } else {
        names_of(ls.skip(DEVICE_HEADER_LINES as int))
    }
}

fn is_space_byte(c: u8) -> (r: bool)
    ensures
        r == is_space(c),
{
    (0x09 <= c && c <= 0x0d) || c == 0x20
}

fn is_wide_space_bytes(a: u8, b: u8, c: u8) -> (r: bool)
    ensures
        r == is_wide_space(a, b, c),
{
    (a == 0xe1 && b == 0x9a && c == 0x80) || (a == 0xe2 && b == 0x80 && ((0x80 <= c && c
        <= 0x8a) || c == 0xa8 || c == 0xa9 || c == 0xaf)) || (a == 0xe2 && b == 0x81 && c
        == 0x9f) || (a == 0xe3 && b == 0x80 && c == 0x80)
}

fn space_len_at_exec(s: &[u8], i: usize, e: usize) -> (r: usize)
    requires
        e <= s@.len(),
    ensures
        r == space_len_at(s@, i as int, e as int),
{
    if i < e && is_space_byte(s[i]) {
        1
    } else if i < e && e - i > 1 && s[i] == 0xc2 && (s[i + 1] == 0x85 || s[i + 1] == 0xa0) {
        2
    } else if i < e && e - i > 2 && is_wide_space_bytes(s[i], s[i + 1], s[i + 2]) {
        3
    } else {
        0
    }
}

fn space_len_before_exec(s: &[u8], a: usize, j: usize) -> (r: usize)
    requires
        a <= j <= s@.len(),
    ensures
        r == space_len_before(s@, a as int, j as int),
{
    if j > a && is_space_byte(s[j - 1]) {
        1
    } else if j - a >= 2 && s[j - 2] == 0xc2 && (s[j - 1] == 0x85 || s[j - 1] == 0xa0) {
        2
    } else if j - a >= 3 && is_wide_space_bytes(s[j - 3], s[j - 2], s[j - 1]) {
        3
    } else {
        0
    }
}

/// Bounds of the interface name in one line.
fn name_bounds(line: &[u8]) -> (r: (usize, usize))
    ensures
        r.0 <= r.1 <= line@.len(),
        line@.subrange(r.0 as int, r.1 as int) == interface_name(line@),
{
    let mut e: usize = 0;
    while e < line.len() && line[e] != 0x3a
        invariant
            e <= line@.len(),
            name_end(line@, 0) == name_end(line@, e as int),
        decreases line@.len() - e,
    {
        e = e + 1;
    }
    let mut a: usize = 0;
    loop
        invariant
            a <= e <= line@.len(),
            skip_spaces(line@, 0, e as int) == skip_spaces(line@, a as int, e as int),
        ensures
            a <= e,
            skip_spaces(line@, 0, e as int) == a,
        decreases e - a,
    {
        let k = space_len_at_exec(line, a, e);
        if k == 0 {
            assert(skip_spaces(line@, a as int, e as int) == a);
            break;
        }
        a = a + k;
    }
    let mut b: usize = e;
    loop
        invariant
            a <= b <= e,
            e <= line@.len(),
            drop_spaces(line@, a as int, e as int) == drop_spaces(line@, a as int, b as int),
        ensures
            a <= b <= e,
            drop_spaces(line@, a as int, e as int) == b,
        decreases b - a,
    {
        let k = space_len_before_exec(line, a, b);
        if k == 0 {
            assert(drop_spaces(line@, a as int, b as int) == b);
            break;
        }
        b = b - k;
    }
    (a, b)
}

/// The contents of each buffer.
pub open spec fn views(r: Seq<Vec<u8>>) -> Seq<Seq<u8>> {
    r.map_values(|v: Vec<u8>| v@)
}

/// The interfaces the kernel's device table lists, in order, the loopback
/// interface left out.
pub fn interface_names(text: &[u8]) -> (r: Vec<Vec<u8>>)
    ensures
        views(r@) == interface_list(text@),
{
    let mut r: Vec<Vec<u8>> = Vec::new();
    let ghost seen: Seq<Seq<u8>> = seq![];
    let mut n: usize = 0;
    let mut i: usize = 0;
    while i < text.len()
        invariant
            i <= text@.len(),
            seen + lines_from(text@, i as int) == lines(text@),
            n == (if seen.len() < DEVICE_HEADER_LINES { seen.len() } else { DEVICE_HEADER_LINES as nat }),
            seen.len() >= DEVICE_HEADER_LINES ==> views(r@) == names_of(
                seen.skip(DEVICE_HEADER_LINES as int),
            ),
            seen.len() < DEVICE_HEADER_LINES ==> views(r@) == Seq::<Seq<u8>>::empty(),
        decreases text@.len() - i,
    {
        let e = find_line_end(text, i);
        proof {
            lemma_line_end(text@, i as int);
        }
        let line = slice_subrange(text, i, e);
        proof {
            assert(lines_from(text@, i as int) == seq![line@] + lines_from(text@, e + 1));
        }
        if n >= DEVICE_HEADER_LINES {
            let (a, b) = name_bounds(line);
            let name = slice_subrange(line, a, b);
            let ghost before = views(r@);
            if !(name.len() == 2 && name[0] == 0x6c && name[1] == 0x6f) {
                assert(!is_loopback(name@)) by {
                    if is_loopback(name@) {
                        assert(name@[0] == 0x6c && name@[1] == 0x6f);
                    }
                }
                r.push(slice_to_vec(name));
                assert(views(r@) =~= before.push(name@));
            } else {
                assert(name@ =~= seq![0x6cu8, 0x6fu8]);
            }
            proof {
                let rows = seen.push(line@).skip(DEVICE_HEADER_LINES as int);
                assert(rows.drop_last() =~= seen.skip(DEVICE_HEADER_LINES as int));
                assert(rows.last() == line@);
            }
        } else {
            n = n + 1;
            proof {
                if seen.len() + 1 == DEVICE_HEADER_LINES {
                    assert(seen.push(line@).skip(DEVICE_HEADER_LINES as int) =~= Seq::<Seq<u8>>::empty());
                }
            }
        }
        proof {
            assert(seen.push(line@) + lines_from(text@, e + 1) =~= seen + lines_from(text@, i as int));
            seen = seen.push(line@);
        }
        if e < text.len() {
            i = e + 1;
        } else {
            i = e;
            assert(lines_from(text@, e + 1) =~= Seq::<Seq<u8>>::empty());
        }
    }
    assert(seen =~= lines(text@));
    r
}

/// One step of cycling the interfaces.
#[derive(Clone, Copy, Debug, PartialEq, Eq, Structural)]
pub enum LinkOp {
    /// Set interface number `i` of the list down.
    Down(usize),
    /// Wait this many seconds.
    Sleep(u32),
    /// Set interface number `i` of the list up.
    Up(usize),
}

/// The steps that cycle `count` interfaces for `seconds`: every interface
/// down in list order, one wait, every interface up in list order. Each
/// step is taken whatever the previous ones gave.
pub fn cycle_plan(count: usize, seconds: u32) -> (r: Vec<LinkOp>)
    requires
        2 * count + 1 <= usize::MAX,
    ensures
        r@.len() == 2 * count + 1,
        forall|i: int| 0 <= i < count ==> r@[i] == LinkOp::Down(i as usize),
        r@[count as int] == LinkOp::Sleep(seconds),
        forall|i: int| count < i <= 2 * count ==> r@[i] == LinkOp::Up((i - count - 1) as usize),
{
    let mut r: Vec<LinkOp> = Vec::new();
    let mut i: usize = 0;
    while i < count
        invariant
            i <= count,
            r@.len() == i,
            forall|j: int| 0 <= j < i ==> r@[j] == LinkOp::Down(j as usize),
        decreases count - i,
    {
        r.push(LinkOp::Down(i));
        i = i + 1;
    }
    r.push(LinkOp::Sleep(seconds));
    let mut k: usize = 0;
    while k < count
        invariant
            k <= count,
            r@.len() == count + 1 + k,
            forall|j: int| 0 <= j < count ==> r@[j] == LinkOp::Down(j as usize),
            r@[count as int] == LinkOp::Sleep(seconds),
            forall|j: int| count < j <= count + k ==> r@[j] == LinkOp::Up((j - count - 1) as usize),
        decreases count - k,
    {
        r.push(LinkOp::Up(k));
        k = k + 1;
    }
    r
}

} // verus!
