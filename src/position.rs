//! Squares of the board.
//!
//! A square is written either as a pair `(column, row)`, both counted from 1,
//! or as its index in a 64-bit mask: `(row - 1) * 8 + (column - 1)`.
use vstd::prelude::*;

use crate::error::GameError;

verus! {

/// A square given as `(column, row)`, both counted from 1.
pub type Position = (u64, u64);

/// Index of a square in a 64-bit mask.
pub open spec fn normal_of(pos: Position) -> int {
    (pos.1 - 1) * 8 + (pos.0 - 1)
}

/// A square that lies on the board.
pub open spec fn on_board(pos: Position) -> bool {
    1 <= pos.0 <= 8 && 1 <= pos.1 <= 8
}

/// The square whose index is `i`.
pub open spec fn pos_of(i: int) -> Position {
    ((i % 8 + 1) as u64, (i / 8 + 1) as u64)
}

/// The letter that names a row: `a` for row 1 up to `h` for row 8.
pub open spec fn row_letter(row: int) -> char {
    if row == 1 {
        'a'
    } else if row == 2 {
        'b'
    } else if row == 3 {
        'c'
    } else if row == 4 {
        'd'
    } else if row == 5 {
        'e'
    } else if row == 6 {
        'f'
    } else if row == 7 {
        'g'
    } else {
        'h'
    }
}

/// The row that a letter names, or 0 for a letter that names none.
pub open spec fn letter_row(c: char) -> int {
    if c == 'a' {
        1
    } else if c == 'b' {
        2
    } else if c == 'c' {
        3
    } else if c == 'd' {
        4
    } else if c == 'e' {
        5
    } else if c == 'f' {
        6
    } else if c == 'g' {
        7
    } else if c == 'h' {
        8
    } else {
        0
    }
}

/// The ASCII digit for `d` in `0..10`.
pub open spec fn digit_char(d: int) -> char {
    ((d + '0' as int) as u32) as char
}

/// Decimal digits of `n`, most significant first.
pub open spec fn decimal(n: nat) -> Seq<char>
    decreases n,
{
    if n < 10 {
        seq![digit_char(n as int)]
    } else {
        decimal(n / 10).push(digit_char((n % 10) as int))
    }
}

/// Square notation: the row letter followed by the column in decimal.
pub open spec fn square_code(pos: Position) -> Seq<char> {
    seq![row_letter(pos.1 as int)] + decimal(pos.0 as nat)
}

/// What decoding square notation gives.
pub open spec fn decode_position_spec(s: Seq<char>) -> Result<Position, GameError> {
    if s.len() == 2 && letter_row(s[0]) != 0 && '1' <= s[1] <= '8' {
        Ok(((s[1] as u32 - '0' as u32) as u64, letter_row(s[0]) as u64))
    } else {
        Err(GameError::InvalidPosition)
    }
}

/// A value that names a square.
pub trait Normalizable {
    /// The value names a square of the board.
    spec fn spec_valid(&self) -> bool;

    /// Index of the square in a 64-bit mask.
    fn normal(&self) -> (r: usize)
        requires
            self.spec_valid(),
        ensures
            r < 64,
    ;

    /// Square notation of the value.
    fn encode(&self) -> Result<String, GameError>;

    /// Whether both coordinates are at least 1.
    fn is_valid(&self) -> bool;
}

impl Normalizable for Position {
    open spec fn spec_valid(&self) -> bool {
        on_board(*self)
    }

    fn normal(&self) -> (r: usize)
        ensures
            r as int == normal_of(*self),
    {
        let (x, y) = *self;
        ((y - 1) * 8 + (x - 1)) as usize
    }

    fn encode(&self) -> (r: Result<String, GameError>)
        ensures
            1 <= self.1 <= 8 ==> (r matches Ok(s) && s@ == square_code(*self)),
            !(1 <= self.1 <= 8) ==> r == Err::<String, GameError>(GameError::InvalidPosition),
    {
        if self.1 < 1 || self.1 > 8 {
            return Err(GameError::InvalidPosition);
        }
        let mut s = String::new();
        push_char(&mut s, row_letter_exec(self.1));
        push_decimal(&mut s, self.0);
        Ok(s)
    }

    fn is_valid(&self) -> (r: bool)
        ensures
            r == (self.0 >= 1 && self.1 >= 1),
    {
        if self.1 < 1 {
            return false;
        }
        if self.0 < 1 {
            return false;
        }
        true
    }
}

fn row_letter_exec(row: u64) -> (c: char)
    requires
        1 <= row <= 8,
    ensures
        c == row_letter(row as int),
{
    match row {
        1 => 'a',
        2 => 'b',
        3 => 'c',
        4 => 'd',
        5 => 'e',
        6 => 'f',
        7 => 'g',
        _ => 'h',
    }
}

/// Relies on `String::push`: the character is appended.
#[verifier::external_body]
pub(crate) fn push_char(s: &mut String, c: char)
    ensures
        final(s)@ == old(s)@.push(c),
{
    s.push(c);
}

/// Appends the decimal digits of `n`.
pub(crate) fn push_decimal(s: &mut String, n: u64)
    ensures
        final(s)@ == old(s)@ + decimal(n as nat),
    decreases n,
{
    if n >= 10 {
        push_decimal(s, n / 10);
    }
    let d = (n % 10) as u32;
    let c = char_from_digit(d);
    push_char(s, c);
    proof {
        if n >= 10 {
            assert(old(s)@ + decimal(n as nat) =~= old(s)@ + decimal((n / 10) as nat) + seq![c]);
        } else {
            assert(old(s)@ + decimal(n as nat) =~= old(s)@.push(c));
        }
    }
}

/// The ASCII digit for `d`.
pub(crate) fn char_from_digit(d: u32) -> (c: char)
    requires
        d < 10,
    ensures
        c == digit_char(d as int),
{
    match d {
        0 => '0',
        1 => '1',
        2 => '2',
        3 => '3',
        4 => '4',
        5 => '5',
        6 => '6',
        7 => '7',
        8 => '8',
        _ => '9',
    }
}

/// Decodes square notation: a row letter `a`..`h` followed by a column digit `1`..`8`.
pub fn decode_position(p: String) -> (r: Result<Position, GameError>)
    ensures
        r == decode_position_spec(p@),
        r matches Ok(pos) ==> on_board(pos),
{
    let n = p.as_str().unicode_len();
    if n != 2 {
        return Err(GameError::InvalidPosition);
    }
    let row = p.as_str().get_char(0);
    let column = p.as_str().get_char(1);
    if column < '1' || column > '8' {
        return Err(GameError::InvalidPosition);
    }
    let y: u64 = match row {
        'a' => 1,
        'b' => 2,
        'c' => 3,
        'd' => 4,
        'e' => 5,
        'f' => 6,
        'g' => 7,
        'h' => 8,
        _ => 0,
    };
    if y == 0 {
        return Err(GameError::InvalidPosition);
    }
    let x = (column as u32 - '0' as u32) as u64;
    Ok((x, y))
}

/// An index survives the trip to a square and back.
pub proof fn lemma_normal_pos_of(i: int)
    requires
        0 <= i < 64,
    ensures
        on_board(pos_of(i)),
        normal_of(pos_of(i)) == i,
{
}

/// Every square of the board survives the trip to its index and back.
pub proof fn lemma_pos_normal_round_trip(pos: Position)
    requires
        on_board(pos),
    ensures
        0 <= normal_of(pos) < 64,
        pos_of(normal_of(pos)) == pos,
{
    let i = normal_of(pos);
    assert(i % 8 == pos.0 - 1 && i / 8 == pos.1 - 1) by {
        vstd::arithmetic::div_mod::lemma_fundamental_div_mod_converse(i, 8, pos.1 - 1, pos.0 - 1);
    }
}

} // verus!
