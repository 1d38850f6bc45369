//! Sides, pieces and the one-character piece notation.
use vstd::prelude::*;

use crate::error::GameError;

verus! {

/// One of the two players.
#[derive(Clone, Copy, Debug, PartialEq, Eq, Hash, Structural)]
pub enum Side {
    Orange,
    White,
}

/// A piece kind together with the side that owns it, or `Empty` for an empty square.
#[derive(Clone, Copy, Debug, PartialEq, Eq, Hash, Structural)]
pub enum Piece {
    Empty,
    Goat(Side),
    Horse(Side),
    Sloth(Side),
    Bird(Side),
    Tiger(Side),
    Otter(Side),
    Snake(Side),
    MantisShrimp(Side),
}

/// A piece kind without its side.
#[derive(Clone, Copy, Debug, PartialEq, Eq, Hash, Structural)]
pub enum PieceType {
    Empty,
    Goat,
    Horse,
    Sloth,
    Bird,
    Tiger,
    Otter,
    Snake,
    MantisShrimp,
}

/// How a kind moves and whether it counts as passive.
///
/// Goats, horses and sloths never capture. Birds move like goats and capture like
/// the aggressive kinds, and count as passive. Tigers, otters, snakes and mantis
/// shrimps move on diagonals and capture.
#[derive(Clone, Copy, Debug, PartialEq, Eq, Hash, Structural)]
pub enum PieceStatus {
    Both,
    Aggressive,
    Passive,
}

/// The other side.
pub open spec fn opponent(s: Side) -> Side {
    match s {
        Side::Orange => Side::White,
        Side::White => Side::Orange,
    }
}

impl Side {
    /// The other side.
    pub fn not(self) -> (r: Side)
        ensures
            r == opponent(self),
            r != self,
    {
        match self {
            Side::Orange => Side::White,
            Side::White => Side::Orange,
        }
    }

    /// The side's name, `Orange` or `White`.
    pub fn name(self) -> (r: &'static str)
        ensures
            r@ == side_name(self),
    {
        match self {
            Side::Orange => "Orange",
            Side::White => "White",
        }
    }

    /// The side that a name names.
    pub fn from_name(s: &str) -> (r: Result<Side, GameError>)
        ensures
            s@ == side_name(Side::Orange) ==> r == Ok::<Side, GameError>(Side::Orange),
            s@ == side_name(Side::White) ==> r == Ok::<Side, GameError>(Side::White),
            s@ != side_name(Side::Orange) && s@ != side_name(Side::White) ==> r
                == Err::<Side, GameError>(GameError::InvalidPieceCode),
    {
        let o = "Orange";
        let w = "White";
        proof {
            reveal_strlit("Orange");
            reveal_strlit("White");
            assert(o@.len() != w@.len());
        }
        if str_eq(s, o) {
            Ok(Side::Orange)
        } else if str_eq(s, w) {
            Ok(Side::White)
        } else {
            Err(GameError::InvalidPieceCode)
        }
    }
}

/// The name of a side.
pub open spec fn side_name(s: Side) -> Seq<char> {
    match s {
        Side::Orange => "Orange"@,
        Side::White => "White"@,
    }
}

/// Whether two strings hold the same characters.
fn str_eq(a: &str, b: &str) -> (r: bool)
    ensures
        r == (a@ == b@),
{
    let n = a.unicode_len();
    if n != b.unicode_len() {
        return false;
    }
    let mut i: usize = 0;
    while i < n
        invariant
            n == a@.len(),
            n == b@.len(),
            i <= n,
            a@.subrange(0, i as int) == b@.subrange(0, i as int),
        decreases n - i,
    {
        if a.get_char(i) != b.get_char(i) {
            return false;
        }
        assert(a@.subrange(0, i + 1) =~= a@.subrange(0, i as int).push(a@[i as int]));
        assert(b@.subrange(0, i + 1) =~= b@.subrange(0, i as int).push(b@[i as int]));
        i = i + 1;
    }
    assert(a@ =~= a@.subrange(0, n as int));
    assert(b@ =~= b@.subrange(0, n as int));
    true
}

/// The side that owns a piece; `None` for an empty square.
pub open spec fn side_of(p: Piece) -> Option<Side> {
    match p {
        Piece::Empty => Option::None,
        Piece::Goat(s) | Piece::Horse(s) | Piece::Sloth(s) | Piece::Bird(s) | Piece::Tiger(s)
        | Piece::Otter(s) | Piece::Snake(s) | Piece::MantisShrimp(s) => Option::Some(s),
    }
}

/// The kind of a piece.
pub open spec fn kind_of(p: Piece) -> PieceType {
    match p {
        Piece::Empty => PieceType::Empty,
        Piece::Goat(_) => PieceType::Goat,
        Piece::Horse(_) => PieceType::Horse,
        Piece::Sloth(_) => PieceType::Sloth,
        Piece::Bird(_) => PieceType::Bird,
        Piece::Tiger(_) => PieceType::Tiger,
        Piece::Otter(_) => PieceType::Otter,
        Piece::Snake(_) => PieceType::Snake,
        Piece::MantisShrimp(_) => PieceType::MantisShrimp,
    }
}

/// The piece of a kind and a side.
pub open spec fn make_piece(k: PieceType, s: Side) -> Piece {
    match k {
        PieceType::Empty => Piece::Empty,
        PieceType::Goat => Piece::Goat(s),
        PieceType::Horse => Piece::Horse(s),
        PieceType::Sloth => Piece::Sloth(s),
        PieceType::Bird => Piece::Bird(s),
        PieceType::Tiger => Piece::Tiger(s),
        PieceType::Otter => Piece::Otter(s),
        PieceType::Snake => Piece::Snake(s),
        PieceType::MantisShrimp => Piece::MantisShrimp(s),
    }
}

/// Goats, horses, sloths and birds.
pub open spec fn is_passive_kind(k: PieceType) -> bool {
    k == PieceType::Goat || k == PieceType::Horse || k == PieceType::Sloth || k == PieceType::Bird
}

/// Tigers, otters, snakes and mantis shrimps.
pub open spec fn is_aggressive_kind(k: PieceType) -> bool {
    k == PieceType::Tiger || k == PieceType::Otter || k == PieceType::Snake || k
        == PieceType::MantisShrimp
}

/// The lower-case letter of a kind; `#` for `Empty`.
pub open spec fn kind_letter(k: PieceType) -> char {
    match k {
        PieceType::Empty => '#',
        PieceType::Goat => 'g',
        PieceType::Horse => 'h',
        PieceType::Sloth => 's',
        PieceType::Bird => 'i',
        PieceType::Tiger => 't',
        PieceType::Otter => 'o',
        PieceType::Snake => 'l',
        PieceType::MantisShrimp => 'm',
    }
}

/// The upper-case form of an ASCII lower-case letter.
pub open spec fn ascii_upper(c: char) -> char {
    if 'a' <= c <= 'z' {
        ((c as u32) - 32) as char
    } else {
        c
    }
}

/// The one-character code of a piece: its kind's letter, upper case for Orange.
pub open spec fn piece_char(p: Piece) -> char {
    match side_of(p) {
        Option::None => '#',
        Option::Some(Side::Orange) => ascii_upper(kind_letter(kind_of(p))),
        Option::Some(Side::White) => kind_letter(kind_of(p)),
    }
}

/// The kind that a lower-case letter names; `Empty` for any other character.
pub open spec fn letter_kind(c: char) -> PieceType {
    if c == 'g' {
        PieceType::Goat
    } else if c == 'h' {
        PieceType::Horse
    } else if c == 's' {
        PieceType::Sloth
    } else if c == 'i' {
        PieceType::Bird
    } else if c == 't' {
        PieceType::Tiger
    } else if c == 'o' {
        PieceType::Otter
    } else if c == 'l' {
        PieceType::Snake
    } else if c == 'm' {
        PieceType::MantisShrimp
    } else {
        PieceType::Empty
    }
}

/// What decoding one character of piece notation gives.
pub open spec fn decode_char(c: char) -> Result<(Piece, Side), GameError> {
    if letter_kind(c) != PieceType::Empty {
        Ok((make_piece(letter_kind(c), Side::White), Side::White))
    } else if 'A' <= c <= 'Z' && letter_kind(((c as u32) + 32) as char) != PieceType::Empty {
        Ok((make_piece(letter_kind(((c as u32) + 32) as char), Side::Orange), Side::Orange))
    } else {
        Err(GameError::InvalidPieceCode)
    }
}

/// What `char::to_uppercase` gives for a character.
pub uninterp spec fn upper_of(c: char) -> Seq<char>;

/// Relies on `char::to_uppercase`, collected into a `String`: the upper-case
/// mapping of the character, which for an ASCII lower-case letter is the
/// matching ASCII upper-case letter.
#[verifier::external_body]
fn to_upper(c: char) -> (r: String)
    ensures
        r@ == upper_of(c),
        'a' <= c <= 'z' ==> r@ == seq![ascii_upper(c)],
{
    c.to_uppercase().to_string()
}

/// Relies on `char::to_string`: a string of that one character.
#[verifier::external_body]
fn char_string(c: char) -> (r: String)
    ensures
        r@ == seq![c],
{
    c.to_string()
}

impl Piece {
    /// The letter `p` as a string, upper-cased for Orange.
    pub fn side_encode(self, p: char, s: Side) -> (r: String)
        ensures
            s == Side::Orange ==> r@ == upper_of(p),
            s == Side::Orange && 'a' <= p <= 'z' ==> r@ == seq![ascii_upper(p)],
            s == Side::White ==> r@ == seq![p],
    {
        match s {
            Side::Orange => to_upper(p),
            Side::White => char_string(p),
        }
    }

    /// The piece's one-character code: `g h s i t o l m` for the kinds, upper case
    /// for Orange, `#` for `Empty`.
    pub fn encode(self) -> (r: String)
        ensures
            r@ == seq![piece_char(self)],
    {
        match self {
            Piece::Empty => char_string('#'),
            Piece::Goat(side) => self.side_encode('g', side),
            Piece::Horse(side) => self.side_encode('h', side),
            Piece::Sloth(side) => self.side_encode('s', side),
            Piece::Bird(side) => self.side_encode('i', side),
            Piece::Tiger(side) => self.side_encode('t', side),
            Piece::Otter(side) => self.side_encode('o', side),
            Piece::Snake(side) => self.side_encode('l', side),
            Piece::MantisShrimp(side) => self.side_encode('m', side),
        }
    }

    /// The piece that a one-character code names, with its side.
    pub fn decode(code: String) -> (r: Result<(Piece, Side), GameError>)
        ensures
            code@.len() == 1 ==> r == decode_char(code@[0]),
            code@.len() != 1 ==> r == Err::<(Piece, Side), GameError>(GameError::InvalidPieceCode),
    {
        if code.as_str().unicode_len() != 1 {
            return Err(GameError::InvalidPieceCode);
        }
        decode_code(code.as_str().get_char(0))
    }

    /// The piece's kind.
    pub fn kind(self) -> (r: PieceType)
        ensures
            r == kind_of(self),
    {
        match self {
            Piece::Empty => PieceType::Empty,
            Piece::Goat(_) => PieceType::Goat,
            Piece::Horse(_) => PieceType::Horse,
            Piece::Sloth(_) => PieceType::Sloth,
            Piece::Bird(_) => PieceType::Bird,
            Piece::Tiger(_) => PieceType::Tiger,
            Piece::Otter(_) => PieceType::Otter,
            Piece::Snake(_) => PieceType::Snake,
            Piece::MantisShrimp(_) => PieceType::MantisShrimp,
        }
    }

    /// The side that owns the piece; `None` for an empty square.
    pub fn side(self) -> (r: Option<Side>)
        ensures
            r == side_of(self),
    {
        match self {
            Piece::Empty => Option::None,
            Piece::Goat(s) | Piece::Horse(s) | Piece::Sloth(s) | Piece::Bird(s) | Piece::Tiger(s)
            | Piece::Otter(s) | Piece::Snake(s) | Piece::MantisShrimp(s) => Option::Some(s),
        }
    }
}

impl PieceType {
    /// How the kind moves; `None` for the empty kind.
    pub fn status(self) -> (r: Option<PieceStatus>)
        ensures
            self == PieceType::Empty <==> r is None,
            r == Some(PieceStatus::Passive) <==> (self == PieceType::Goat || self == PieceType::Horse
                || self == PieceType::Sloth),
            r == Some(PieceStatus::Both) <==> self == PieceType::Bird,
            r == Some(PieceStatus::Aggressive) <==> is_aggressive_kind(self),
    {
        match self {
            PieceType::Empty => Option::None,
            PieceType::Goat | PieceType::Horse | PieceType::Sloth => Some(PieceStatus::Passive),
            PieceType::Bird => Some(PieceStatus::Both),
            _ => Some(PieceStatus::Aggressive),
        }
    }
}

/// Decodes one character of piece notation.
pub fn decode_code(c: char) -> (r: Result<(Piece, Side), GameError>)
    ensures
        r == decode_char(c),
{
    let (k, s) = match c {
        'g' => (PieceType::Goat, Side::White),
        'h' => (PieceType::Horse, Side::White),
        's' => (PieceType::Sloth, Side::White),
        'i' => (PieceType::Bird, Side::White),
        't' => (PieceType::Tiger, Side::White),
        'o' => (PieceType::Otter, Side::White),
        'l' => (PieceType::Snake, Side::White),
        'm' => (PieceType::MantisShrimp, Side::White),
        'G' => (PieceType::Goat, Side::Orange),
        'H' => (PieceType::Horse, Side::Orange),
        'S' => (PieceType::Sloth, Side::Orange),
        'I' => (PieceType::Bird, Side::Orange),
        'T' => (PieceType::Tiger, Side::Orange),
        'O' => (PieceType::Otter, Side::Orange),
        'L' => (PieceType::Snake, Side::Orange),
        'M' => (PieceType::MantisShrimp, Side::Orange),
        _ => {
            return Err(GameError::InvalidPieceCode);
        },
    };
    Ok((piece_of(k, s), s))
}

/// The piece of a kind and a side.
pub fn piece_of(k: PieceType, s: Side) -> (r: Piece)
    ensures
        r == make_piece(k, s),
{
    match k {
        PieceType::Empty => Piece::Empty,
        PieceType::Goat => Piece::Goat(s),
        PieceType::Horse => Piece::Horse(s),
        PieceType::Sloth => Piece::Sloth(s),
        PieceType::Bird => Piece::Bird(s),
        PieceType::Tiger => Piece::Tiger(s),
        PieceType::Otter => Piece::Otter(s),
        PieceType::Snake => Piece::Snake(s),
        PieceType::MantisShrimp => Piece::MantisShrimp(s),
    }
}

/// Decoding the code of a piece gives the piece back.
pub proof fn lemma_piece_code_round_trip(p: Piece)
    requires
        p != Piece::Empty,
    ensures
        decode_char(piece_char(p)) == Ok::<(Piece, Side), GameError>((p, side_of(p).unwrap())),
{
}

} // verus!
