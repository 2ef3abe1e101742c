use vstd::prelude::*;

use crate::bytes::{append_bytes, bytes_eq, SPACE};
use crate::registry::RegistryTable;

verus! {

/// The marker of the active registry's line.
pub const STAR: u8 = 42;
/// The filler between a registry's name and its URL.
pub const DASH: u8 = 45;

/// `n` dashes.
pub open spec fn dashes(n: nat) -> Seq<u8>
    decreases n,
{
    if n == 0 {
        Seq::empty()
    } else {
        dashes((n - 1) as nat).push(DASH)
    }
}

/// How many dashes follow a name: the table column is 13 bytes wide, and a
/// name of 13 bytes or more leaves no room rather than breaking the line.
pub open spec fn pad_width(name_len: nat) -> nat {
    if name_len < 13 {
        (13 - name_len) as nat
    } else {
        0
    }
}

/// One line of the listing: the marker (a star for the active registry, a
/// space otherwise), the name, the dashes that align the column, the URL,
/// each parted by one space.
pub open spec fn render_line(name: Seq<u8>, url: Seq<u8>, active: bool) -> Seq<u8> {
    seq![if active { STAR } else { SPACE }, SPACE] + name + seq![SPACE] + dashes(
        pad_width(name.len()),
    ) + seq![SPACE] + url
}

/// The listing: one line per table entry, in table order, and a line is
/// marked with a star exactly when its entry's URL is the active one.
pub fn ls_lines(table: &RegistryTable, current: &[u8]) -> (r: Vec<Vec<u8>>)
    ensures
        r@.len() == table.entries@.len(),
        forall|i: int|
            0 <= i < r@.len() ==> r@[i]@ == render_line(
                table.entries@[i].name@,
                table.entries@[i].url@,
                table.entries@[i].url@ == current@,
            ),
        forall|i: int|
            0 <= i < r@.len() ==> ((r@[i]@[0] == STAR) <==> table.entries@[i].url@ == current@),
{
    let n = table.entries.len();
    let mut r: Vec<Vec<u8>> = Vec::new();
    let mut i: usize = 0;
    while i < n
        invariant
            i <= n == table.entries@.len(),
            r@.len() == i,
            forall|k: int|
                0 <= k < i ==> r@[k]@ == render_line(
                    table.entries@[k].name@,
                    table.entries@[k].url@,
                    table.entries@[k].url@ == current@,
                ),
        decreases n - i,
    {
        let active = bytes_eq(table.entries[i].url.as_slice(), current);
        let mut line: Vec<u8> = Vec::new();
        if active {
            line.push(STAR);
        } else {
            line.push(SPACE);
        }
        line.push(SPACE);
        append_bytes(&mut line, table.entries[i].name.as_slice());
        line.push(SPACE);
        let name_len = table.entries[i].name.len();
        let width: usize = if name_len < 13 {
            13 - name_len
        } else {
            0
        };
        let ghost head = line@;
        let mut d: usize = 0;
        proof {
            assert(head + dashes(0) =~= head);
        }
        while d < width
            invariant
                d <= width,
                line@ == head + dashes(d as nat),
            decreases width - d,
        {
            line.push(DASH);
            assert(line@ =~= head + dashes((d + 1) as nat));
            d = d + 1;
        }
        line.push(SPACE);
        append_bytes(&mut line, table.entries[i].url.as_slice());
        proof {
            assert(width == pad_width(table.entries@[i as int].name@.len()));
            assert(line@ =~= render_line(
                table.entries@[i as int].name@,
                table.entries@[i as int].url@,
                active,
            ));
        }
        r.push(line);
        i = i + 1;
    }
    proof {
        assert forall|k: int|
            0 <= k < r@.len() implies ((r@[k]@[0] == STAR) <==> table.entries@[k].url@
            == current@) by {
            let active = table.entries@[k].url@ == current@;
            assert(r@[k]@ == render_line(
                table.entries@[k].name@,
                table.entries@[k].url@,
                active,
            ));
            assert(r@[k]@[0] == (if active {
                STAR
            } else {
                SPACE
            }));
        }
    }
    r
}

} // verus!
