//! The texts that a front end shows: the entries of the process list and of
//! the region list, and the bytes of a region in hexadecimal.

use crate::model::{Candidate, CandidateModel, MemoryRegion, ProcessRef, RegionLabel};
use vstd::prelude::*;

verus! {

/// The number of characters of an executable's path that an entry of the
/// process list shows.
pub const EXE_COLUMNS: usize = 32;

/// The number of bytes of a loaded region that the main screen shows.
pub const SCREEN_BYTES: usize = 4000;

/// The character for a digit below sixteen, in lower case.
pub open spec fn digit_char(digit: int) -> char {
    if digit == 0 {
        '0'
    } else if digit == 1 {
        '1'
    } else if digit == 2 {
        '2'
    } else if digit == 3 {
        '3'
    } else if digit == 4 {
        '4'
    } else if digit == 5 {
        '5'
    } else if digit == 6 {
        '6'
    } else if digit == 7 {
        '7'
    } else if digit == 8 {
        '8'
    } else if digit == 9 {
        '9'
    } else if digit == 10 {
        'a'
    } else if digit == 11 {
        'b'
    } else if digit == 12 {
        'c'
    } else if digit == 13 {
        'd'
    } else if digit == 14 {
        'e'
    } else {
        'f'
    }
}

/// A number written to the given base, without leading zeros; zero is `0`.
pub open spec fn numeral(n: nat, base: nat) -> Seq<char>
    decreases n,
{
    if base < 2 || n < base {
        seq![digit_char(n as int)]
    } else {
        proof {
            assert(n / base < n) by (nonlinear_arith)
                requires
                    base >= 2,
                    n >= base,
            ;
        }
        numeral(n / base, base).push(digit_char((n % base) as int))
    }
}

/// A number written in decimal, with a minus sign where it is negative.
pub open spec fn decimal(value: int) -> Seq<char> {
    if value < 0 {
        seq!['-'] + numeral((-value) as nat, 10)
    } else {
        numeral(value as nat, 10)
    }
}

/// An address written as the front end shows it: `0x` and the hexadecimal
/// digits.
pub open spec fn address_text(address: u64) -> Seq<char> {
    seq!['0', 'x'] + numeral(address as nat, 16)
}

/// A byte written as two hexadecimal digits.
pub open spec fn byte_text(byte: u8) -> Seq<char> {
    seq![digit_char(byte as int / 16), digit_char(byte as int % 16)]
}

/// Bytes written as two hexadecimal digits each, with one space between
/// two bytes.
pub open spec fn hex_text(bytes: Seq<u8>) -> Seq<char>
    decreases bytes.len(),
{
    if bytes.len() == 0 {
        Seq::empty()
    } else if bytes.len() == 1 {
        byte_text(bytes[0])
    } else {
        hex_text(bytes.drop_last()) + seq![' '] + byte_text(bytes.last())
    }
}

/// The first `columns` characters of a text, or all of it where it is
/// shorter.
pub open spec fn clipped(text: Seq<char>, columns: int) -> Seq<char> {
    if text.len() <= columns {
        text
    } else {
        text.subrange(0, columns)
    }
}

/// Whether a process appears in the process list: it has a command line and
/// an executable.
pub open spec fn is_listed(process: ProcessRef) -> bool {
    process.command@.len() > 0 && process.exe@.len() > 0
}

/// The entry of a process in the process list: its pid, four spaces, and the
/// start of its executable's path.
pub open spec fn process_text(process: ProcessRef) -> Seq<char> {
    decimal(process.pid as int) + seq![' ', ' ', ' ', ' '] + clipped(
        process.exe@,
        EXE_COLUMNS as int,
    )
}

/// The name of what a region is used for.
pub open spec fn label_text(label: RegionLabel) -> Seq<char> {
    match label {
        RegionLabel::Heap => "Heap"@,
        RegionLabel::Stack => "Stack"@,
        RegionLabel::Anonymous => "Anonymous"@,
        RegionLabel::FileBacked => "FileBacked"@,
        RegionLabel::Other => "Other"@,
    }
}

/// The entry of a region in the region list: its address range in
/// parentheses, four spaces, and the path that backs it or, where there is
/// none, the name of its use.
pub open spec fn region_text(region: MemoryRegion) -> Seq<char> {
    seq!['('] + address_text(region.start_address) + seq!['-'] + address_text(region.end_address)
        + seq![')', ' ', ' ', ' ', ' '] + match region.backing_path {
        Some(path) => path@,
        None => label_text(region.label),
    }
}

/// The entry of a candidate in a search result: its address, four spaces,
/// and the bytes last read there.
pub open spec fn candidate_text(candidate: CandidateModel) -> Seq<char> {
    address_text(candidate.address) + seq![' ', ' ', ' ', ' '] + hex_text(candidate.value)
}

/// The text of one digit.
fn digit_text(digit: u8) -> (r: &'static str)
    requires
        digit < 16,
    ensures
        r@ == seq![digit_char(digit as int)],
{
    proof {
        reveal_strlit("0");
        reveal_strlit("1");
        reveal_strlit("2");
        reveal_strlit("3");
        reveal_strlit("4");
        reveal_strlit("5");
        reveal_strlit("6");
        reveal_strlit("7");
        reveal_strlit("8");
        reveal_strlit("9");
        reveal_strlit("a");
        reveal_strlit("b");
        reveal_strlit("c");
        reveal_strlit("d");
        reveal_strlit("e");
        reveal_strlit("f");
    }
    match digit {
        0 => "0",
        1 => "1",
        2 => "2",
        3 => "3",
        4 => "4",
        5 => "5",
        6 => "6",
        7 => "7",
        8 => "8",
        9 => "9",
        10 => "a",
        11 => "b",
        12 => "c",
        13 => "d",
        14 => "e",
        _ => "f",
    }
}

/// Writes a number to the base ten or sixteen at the end of `out`.
fn append_numeral(out: &mut String, n: u64, base: u64)
    requires
        base == 10 || base == 16,
    ensures
        final(out)@ == old(out)@ + numeral(n as nat, base as nat),
    decreases n,
{
    if n >= base {
        append_numeral(out, n / base, base);
    }
    out.append(digit_text((n % base) as u8));
    proof {
        if n >= base {
            assert(out@ =~= old(out)@ + numeral((n / base) as nat, base as nat).push(
                digit_char((n % base) as int),
            ));
        } else {
            assert(n % base == n);
            assert(out@ =~= old(out)@ + seq![digit_char(n as int)]);
        }
    }
}

/// Writes a number in decimal.
pub fn decimal_text(value: i64) -> (r: String)
    ensures
        r@ == decimal(value as int),
{
    let mut out = String::new();
    if value < 0 {
        proof {
            reveal_strlit("-");
        }
        out.append("-");
        let magnitude: u64 = if value == i64::MIN {
            0x8000_0000_0000_0000
        } else {
            (-value) as u64
        };
        append_numeral(&mut out, magnitude, 10);
    } else {
        append_numeral(&mut out, value as u64, 10);
    }
    out
}

/// Writes bytes as two hexadecimal digits each, with one space between two
/// bytes. Only the first `limit` bytes are written where there are more.
pub fn hex_dump(bytes: &[u8], limit: usize) -> (r: String)
    ensures
        r@ == hex_text(
            if bytes@.len() <= limit {
                bytes@
            } else {
                bytes@.subrange(0, limit as int)
            },
        ),
{
    let n: usize = if bytes.len() <= limit {
        bytes.len()
    } else {
        limit
    };
    let mut out = String::new();
    let mut i: usize = 0;
    proof {
        reveal_strlit(" ");
    }
    while i < n
        invariant
            i <= n,
            n <= bytes@.len(),
            out@ == hex_text(bytes@.subrange(0, i as int)),
            " "@ == seq![' '],
        decreases n - i,
    {
        let ghost shown = bytes@.subrange(0, i as int);
        let ghost next = bytes@.subrange(0, i + 1);
        proof {
            assert(next.drop_last() =~= shown);
            assert(next.last() == bytes@[i as int]);
        }
        if i > 0 {
            out.append(" ");
        }
        let byte: u8 = bytes[i];
        out.append(digit_text(byte / 16));
        out.append(digit_text(byte % 16));
        proof {
            if i == 0 {
                assert(out@ =~= byte_text(byte));
                assert(next[0] == byte);
            } else {
                assert(out@ =~= hex_text(shown) + seq![' '] + byte_text(byte));
            }
        }
        i += 1;
    }
    proof {
        if bytes@.len() <= limit {
            assert(bytes@.subrange(0, n as int) =~= bytes@);
        }
    }
    out
}

/// Writes the start of a loaded region as the main screen shows it.
pub fn screen_text(bytes: &[u8]) -> (r: String)
    ensures
        r@ == hex_text(
            if bytes@.len() <= SCREEN_BYTES {
                bytes@
            } else {
                bytes@.subrange(0, SCREEN_BYTES as int)
            },
        ),
{
    hex_dump(bytes, SCREEN_BYTES)
}

/// Lists the places of the processes that appear in the process list, in
/// ascending order.
pub fn selectable(processes: &[ProcessRef]) -> (r: Vec<usize>)
    ensures
        forall|k: int| 0 <= k < r@.len() ==> (#[trigger] r@[k]) < processes@.len() && is_listed(
            processes@[r@[k] as int],
        ),
        forall|k: int, l: int| 0 <= k < l < r@.len() ==> r@[k] < r@[l],
        forall|i: int|
            0 <= i < processes@.len() && is_listed(#[trigger] processes@[i]) ==> r@.contains(
                i as usize,
            ),
{
    let mut places: Vec<usize> = Vec::new();
    let mut i: usize = 0;
    while i < processes.len()
        invariant
            i <= processes@.len(),
            forall|k: int| 0 <= k < places@.len() ==> (#[trigger] places@[k]) < i && is_listed(
                processes@[places@[k] as int],
            ),
            forall|k: int, l: int| 0 <= k < l < places@.len() ==> places@[k] < places@[l],
            forall|j: int|
                0 <= j < i && is_listed(#[trigger] processes@[j]) ==> places@.contains(j as usize),
        decreases processes@.len() - i,
    {
        let process = &processes[i];
        if !process.command.as_str().is_empty() && !process.exe.as_str().is_empty() {
            let ghost before = places@;
            places.push(i);
            proof {
                assert(places@[before.len() as int] == i);
                assert forall|j: int|
                    0 <= j < i + 1 && is_listed(#[trigger] processes@[j]) implies places@.contains(
                    j as usize,
                ) by {
                    if j < i {
                        let k = choose|k: int| 0 <= k < before.len() && before[k] == j as usize;
                        assert(places@[k] == j as usize);
                    }
                }
            }
        }
        i += 1;
    }
    places
}

/// Writes the entry of a process in the process list.
pub fn process_label(process: &ProcessRef) -> (r: String)
    ensures
        r@ == process_text(*process),
{
    let mut out = decimal_text(process.pid as i64);
    proof {
        reveal_strlit("    ");
    }
    out.append("    ");
    let exe = process.exe.as_str();
    let length: usize = exe.unicode_len();
    let shown: usize = if length <= EXE_COLUMNS {
        length
    } else {
        EXE_COLUMNS
    };
    out.append(exe.substring_char(0, shown));
    proof {
        assert(exe@.subrange(0, shown as int) =~= clipped(exe@, EXE_COLUMNS as int));
        assert(out@ =~= process_text(*process));
    }
    out
}

/// Writes the entry of a region in the region list.
pub fn region_label(region: &MemoryRegion) -> (r: String)
    ensures
        r@ == region_text(*region),
{
    proof {
        reveal_strlit("(0x");
        reveal_strlit("-0x");
        reveal_strlit(")    ");
    }
    let mut out = String::new();
    out.append("(0x");
    append_numeral(&mut out, region.start_address, 16);
    out.append("-0x");
    append_numeral(&mut out, region.end_address, 16);
    out.append(")    ");
    match &region.backing_path {
        Some(path) => out.append(path.as_str()),
        None => out.append(
            match region.label {
                RegionLabel::Heap => "Heap",
                RegionLabel::Stack => "Stack",
                RegionLabel::Anonymous => "Anonymous",
                RegionLabel::FileBacked => "FileBacked",
                RegionLabel::Other => "Other",
            },
        ),
    }
    proof {
        assert(out@ =~= region_text(*region));
    }
    out
}

/// Writes the entry of a candidate in a search result.
pub fn candidate_label(candidate: &Candidate) -> (r: String)
    ensures
        r@ == candidate_text(candidate@),
{
    proof {
        reveal_strlit("0x");
        reveal_strlit("    ");
    }
    let mut out = String::new();
    out.append("0x");
    append_numeral(&mut out, candidate.address, 16);
    out.append("    ");
    let bytes = hex_dump(candidate.last_known_value.as_slice(), candidate.last_known_value.len());
    out.append(bytes.as_str());
    proof {
        assert(out@ =~= candidate_text(candidate@));
    }
    out
}

} // verus!
