//! Parsing of user input: board coordinates typed as two integers, and the
//! mapping from terminal mouse positions to board squares. The parser's
//! behaviour is pinned exactly: which inputs succeed, and with what square.

use vstd::prelude::*;
use vstd::string::StringSliceAdditionalSpecFns;

verus! {

pub open spec fn is_space_spec(b: u8) -> bool {
    b == 32 || b == 9 || b == 10 || b == 13
}

pub open spec fn is_digit_spec(b: u8) -> bool {
    48 <= b <= 57
}

/// The first index at or after `i` that does not hold whitespace.
pub open spec fn skip_spaces_spec(bs: Seq<u8>, i: int) -> int
    decreases bs.len() - i,
{
    if 0 <= i < bs.len() && is_space_spec(bs[i]) {
        skip_spaces_spec(bs, i + 1)
    } else {
        i
    }
}

/// The first index at or after `i` that does not hold a digit.
pub open spec fn number_end_spec(bs: Seq<u8>, i: int) -> int
    decreases bs.len() - i,
{
    if 0 <= i < bs.len() && is_digit_spec(bs[i]) {
        number_end_spec(bs, i + 1)
    } else {
        i
    }
}

/// The decimal value of the digits in `[i, end)`, accumulated onto `acc`
/// and saturated far above the board range.
pub open spec fn number_value_spec(bs: Seq<u8>, i: int, end: int, acc: int) -> int
    decreases end - i,
{
    if i < end {
        number_value_spec(
            bs,
            i + 1,
            end,
            if acc <= 100 {
                acc * 10 + (bs[i] - 48)
            } else {
                acc
            },
        )
    } else {
        acc
    }
}

/// What reading a number at `i` yields: its saturated value and the index
/// after its digits, or nothing when no digit starts there.
pub open spec fn read_number_spec(bs: Seq<u8>, i: int) -> Option<(int, int)> {
    if 0 <= i < bs.len() && is_digit_spec(bs[i]) {
        Some((number_value_spec(bs, i, number_end_spec(bs, i), 0), number_end_spec(bs, i)))
    } else {
        None
    }
}

/// What parsing an input line yields: two whitespace-separated decimal
/// numbers, both on the board, give that square; everything else gives
/// nothing.
pub open spec fn parse_input_spec(bs: Seq<u8>) -> Option<(i8, i8)> {
    match read_number_spec(bs, skip_spaces_spec(bs, 0)) {
        None => None,
        Some(first) => match read_number_spec(bs, skip_spaces_spec(bs, first.1)) {
            None => None,
            Some(second) => if 0 <= first.0 < 8 && 0 <= second.0 < 8 {
                Some((first.0 as i8, second.0 as i8))
            } else {
                None
            },
        },
    }
}

/// Accumulating one more digit onto a read number.
proof fn lemma_number_value_extend(bs: Seq<u8>, i: int, j: int, acc: int)
    requires
        i <= j,
    ensures
        number_value_spec(bs, i, j + 1, acc) == (if number_value_spec(bs, i, j, acc) <= 100 {
            number_value_spec(bs, i, j, acc) * 10 + (bs[j] - 48)
        } else {
            number_value_spec(bs, i, j, acc)
        }),
    decreases j - i,
{
    if i < j {
        lemma_number_value_extend(
            bs,
            i + 1,
            j,
            if acc <= 100 {
                acc * 10 + (bs[i] - 48)
            } else {
                acc
            },
        );
    } else {
        assert(number_value_spec(bs, i, j, acc) == acc);
        assert(number_value_spec(bs, i, j + 1, acc) == number_value_spec(
            bs,
            i + 1,
            j + 1,
            if acc <= 100 {
                acc * 10 + (bs[i] - 48)
            } else {
                acc
            },
        ));
    }
}

/// Whether a byte is ASCII whitespace.
fn is_space(b: u8) -> (r: bool)
    ensures
        r == is_space_spec(b),
{
    b == 32 || b == 9 || b == 10 || b == 13
}

/// Reads one unsigned decimal number starting at `i`, per
/// `read_number_spec`.
fn read_number(bytes: &[u8], i: usize) -> (r: Option<(u32, usize)>)
    requires
        i <= bytes@.len(),
    ensures
        match r {
            Some(p) => read_number_spec(bytes@, i as int) == Some((p.0 as int, p.1 as int)) && i
                < p.1 <= bytes@.len(),
            None => read_number_spec(bytes@, i as int) is None,
        },
{
    let n = bytes.len();
    if i >= n || bytes[i] < 48 || bytes[i] > 57 {
        return None;
    }
    let mut value: u32 = 0;
    let mut j = i;
    while j < n && bytes[j] >= 48 && bytes[j] <= 57
        invariant
            i <= j <= n,
            n == bytes@.len(),
            value <= 1009,
            number_end_spec(bytes@, i as int) == number_end_spec(bytes@, j as int),
            value == number_value_spec(bytes@, i as int, j as int, 0),
        decreases n - j,
    {
        let d = (bytes[j] - 48) as u32;
        proof {
            lemma_number_value_extend(bytes@, i as int, j as int, 0);
        }
        value = if value <= 100 {
            value * 10 + d
        } else {
            value
        };
        j += 1;
    }
    Some((value, j))
}

/// Parses a square typed as two whitespace-separated integers, per
/// `parse_input_spec`: a square comes back exactly when the line holds
/// two numbers and both lie on the board.
pub fn parse_input(input: &str) -> (r: Option<(i8, i8)>)
    ensures
        r == parse_input_spec(input.spec_bytes()),
        r matches Some(p) ==> 0 <= p.0 < 8 && 0 <= p.1 < 8,
{
    let bytes = input.as_bytes();
    let n = bytes.len();
    let mut i: usize = 0;
    while i < n && is_space(bytes[i])
        invariant
            i <= n,
            n == bytes@.len(),
            skip_spaces_spec(bytes@, 0) == skip_spaces_spec(bytes@, i as int),
        decreases n - i,
    {
        i += 1;
    }
    let first = match read_number(bytes, i) {
        Some(p) => p,
        None => { return None; },
    };
    let mut j = first.1;
    while j < n && is_space(bytes[j])
        invariant
            j <= n,
            n == bytes@.len(),
            skip_spaces_spec(bytes@, first.1 as int) == skip_spaces_spec(bytes@, j as int),
        decreases n - j,
    {
        j += 1;
    }
    let second = match read_number(bytes, j) {
        Some(p) => p,
        None => { return None; },
    };
    if first.0 >= 8 || second.0 >= 8 {
        return None;
    }
    Some((first.0 as i8, second.0 as i8))
}

/// Maps a terminal mouse position to board coordinates: each square is
/// three columns wide with a two-column margin, and one row high with a
/// one-row margin.
pub fn mouse_pos_to_coord(x: u16, y: u16) -> (r: (i8, i8))
    ensures
        2 <= x < 128 ==> r.0 == ((x - 2) as int) / 3,
        1 <= y < 128 ==> r.1 == (y - 1) as int,
{
    let xi: i16 = (#[verifier::truncate] (x as i8)) as i16;
    let yi: i16 = (#[verifier::truncate] (y as i8)) as i16;
    let rx = (xi - 2) / 3;
    let ry = yi - 1;
    (#[verifier::truncate] (rx as i8), #[verifier::truncate] (ry as i8))
}

} // verus!
