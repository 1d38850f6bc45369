//! The move log: a header line `<board notation> <side>`, then a line of
//! comma-separated entries `<piece code> <square>`, replayed through the
//! ordinary validated move path.
use vstd::prelude::*;

use crate::board::{move_in, squares_of, Board};
use crate::error::GameError;
use crate::game::Instance;
use crate::notation::decode_board;
use crate::piece::{decode_char, side_name, Piece, Side};
use crate::position::{decode_position, decode_position_spec, Position};

verus! {

/// The first index at or after `from` where `s` holds `c`, or the length of `s`.
pub open spec fn find(s: Seq<char>, c: char, from: int) -> int
    decreases s.len() - from,
{
    if from >= s.len() {
        s.len() as int
    } else if s[from] == c {
        from
    } else {
        find(s, c, from + 1)
    }
}

/// `find` stays within `from..=len` and skips no match.
pub proof fn lemma_find(s: Seq<char>, c: char, from: int)
    requires
        0 <= from <= s.len(),
    ensures
        from <= find(s, c, from) <= s.len(),
        find(s, c, from) < s.len() ==> s[find(s, c, from)] == c,
        forall|j: int| from <= j < find(s, c, from) ==> #[trigger] s[j] != c,
    decreases s.len() - from,
{
    if from < s.len() && s[from] != c {
        lemma_find(s, c, from + 1);
    }
}

/// The first index at or after `from` where `s` holds `c`, or the length of `s`.
fn find_char(s: &str, c: char, from: usize) -> (r: usize)
    requires
        from <= s@.len(),
    ensures
        r == find(s@, c, from as int),
{
    let n = s.unicode_len();
    let mut i = from;
    while i < n
        invariant
            n == s@.len(),
            from <= i <= n,
            find(s@, c, from as int) == find(s@, c, i as int),
        decreases n - i,
    {
        if s.get_char(i) == c {
            return i;
        }
        i = i + 1;
    }
    i
}

/// The side that a name gives, as `Side::from_name` reads it.
pub open spec fn side_from_name(s: Seq<char>) -> Result<Side, GameError> {
    if s == side_name(Side::Orange) {
        Ok(Side::Orange)
    } else if s == side_name(Side::White) {
        Ok(Side::White)
    } else {
        Err(GameError::InvalidPieceCode)
    }
}

/// What a header line gives: the pieces of the board and the side to move.
pub open spec fn header_spec(s: Seq<char>) -> Result<(Seq<Piece>, Side), GameError> {
    let sp = find(s, ' ', 0);
    if sp >= s.len() {
        Err(GameError::InvalidPosition)
    } else {
        match decode_board(s.take(sp)) {
            Err(e) => Err(e),
            Ok(m) => match side_from_name(s.skip(sp + 1)) {
                Err(e) => Err(e),
                Ok(side) => Ok((m, side)),
            },
        }
    }
}

/// Whether an entry holds only blanks.
pub open spec fn is_blank(s: Seq<char>) -> bool {
    forall|i: int| 0 <= i < s.len() ==> #[trigger] s[i] == ' ' || s[i] == '\t' || s[i] == '\r'
}

/// What one entry gives: nothing for a blank entry, else the piece and the square.
pub open spec fn entry_spec(s: Seq<char>) -> Result<Option<(Piece, Position)>, GameError> {
    let sp = find(s, ' ', 0);
    if is_blank(s) {
        Ok(None)
    } else if sp >= s.len() || sp != 1 {
        Err(GameError::InvalidPieceCode)
    } else {
        match decode_char(s[0]) {
            Err(e) => Err(e),
            Ok((p, _)) => match decode_position_spec(s.skip(2)) {
                Err(e) => Err(e),
                Ok(pos) => Ok(Some((p, pos))),
            },
        }
    }
}

/// The squares `m` after replaying the entries of `line` from index `start`:
/// entries are separated by commas, a blank entry is passed over, and each
/// other entry is a validated move, which leaves the squares as they were when
/// it is refused. An entry that cannot be read is an error.
pub open spec fn replay_from(m: Seq<Piece>, line: Seq<char>, start: int) -> Result<
    Seq<Piece>,
    GameError,
>
    decreases line.len() - start,
{
    let stop = find(line, ',', start);
    match entry_spec(line.subrange(start, stop)) {
        Err(e) => Err(e),
        Ok(x) => {
            let m2 = match x {
                Option::None => m,
                Option::Some((p, pos)) => move_in(m, p, pos),
            };
            if stop >= line.len() || stop < start {
                Ok(m2)
            } else {
                replay_from(m2, line, stop + 1)
            }
        },
    }
}

/// The first line of a text.
pub open spec fn first_line(s: Seq<char>) -> Seq<char> {
    s.take(find(s, '\n', 0))
}

/// The second line of a text, empty when there is none.
pub open spec fn second_line(s: Seq<char>) -> Seq<char> {
    let nl = find(s, '\n', 0);
    if nl < s.len() {
        first_line(s.skip(nl + 1))
    } else {
        Seq::empty()
    }
}

/// What replaying a move log gives: the squares and the side to move.
pub open spec fn replay_spec(text: Seq<char>) -> Result<(Seq<Piece>, Side), GameError> {
    match header_spec(first_line(text)) {
        Err(e) => Err(e),
        Ok((m, side)) => match replay_from(m, second_line(text), 0) {
            Err(e) => Err(e),
            Ok(m2) => Ok((m2, side)),
        },
    }
}

/// Reads a header line `<board notation> <side>`.
pub fn parse_state_header(line: &str) -> (r: Result<(Board, Side), GameError>)
    ensures
        header_spec(line@) is Err ==> r == Err::<(Board, Side), GameError>(
            header_spec(line@)->Err_0,
        ),
        header_spec(line@) matches Ok((m, s)) ==> (r matches Ok((b, side)) && b.wf() && squares_of(b)
            == m && side == s),
{
    let n = line.unicode_len();
    let sp = find_char(line, ' ', 0);
    proof {
        lemma_find(line@, ' ', 0);
    }
    if sp >= n {
        return Err(GameError::InvalidPosition);
    }
    let code = String::from_str(line.substring_char(0, sp));
    let name = line.substring_char(sp + 1, n);
    assert(code@ =~= line@.take(sp as int));
    assert(name@ =~= line@.skip(sp + 1));
    let b = match Board::decode(code) {
        Ok(b) => b,
        Err(e) => {
            return Err(e);
        },
    };
    let side = match Side::from_name(name) {
        Ok(s) => s,
        Err(e) => {
            return Err(e);
        },
    };
    Ok((b, side))
}

/// Whether `s` holds only blanks.
fn blank(s: &str) -> (r: bool)
    ensures
        r == is_blank(s@),
{
    let n = s.unicode_len();
    let mut i: usize = 0;
    while i < n
        invariant
            n == s@.len(),
            i <= n,
            forall|j: int| 0 <= j < i ==> #[trigger] s@[j] == ' ' || s@[j] == '\t' || s@[j] == '\r',
        decreases n - i,
    {
        let c = s.get_char(i);
        if c != ' ' && c != '\t' && c != '\r' {
            return false;
        }
        i = i + 1;
    }
    true
}

/// Reads one entry `<piece code> <square>`; a blank entry gives nothing.
pub fn parse_state_entry(entry: &str) -> (r: Result<Option<(Piece, Position)>, GameError>)
    ensures
        r == entry_spec(entry@),
{
    if blank(entry) {
        return Ok(None);
    }
    let n = entry.unicode_len();
    let sp = find_char(entry, ' ', 0);
    proof {
        lemma_find(entry@, ' ', 0);
    }
    if sp >= n || sp != 1 {
        return Err(GameError::InvalidPieceCode);
    }
    let code = String::from_str(entry.substring_char(0, 1));
    assert(code@ =~= seq![entry@[0]]);
    let p = match Piece::decode(code) {
        Ok((p, _)) => p,
        Err(e) => {
            return Err(e);
        },
    };
    let square = String::from_str(entry.substring_char(2, n));
    assert(square@ =~= entry@.skip(2));
    match decode_position(square) {
        Ok(pos) => Ok(Some((p, pos))),
        Err(e) => Err(e),
    }
}

impl Instance {
    /// Replaces the game with the one a move log describes: the header line gives
    /// the board and the side to move, and each entry of the next line is played
    /// on the board through `Board::new_position`, a refused move being passed
    /// over. The log becomes the game's move log. A header or an entry that
    /// cannot be read is an error, and leaves the game as it was.
    pub fn read_state(&mut self, text: &str) -> (r: Result<(), GameError>)
        requires
            old(self).wf(),
        ensures
            final(self).wf(),
            r is Err ==> *final(self) == *old(self),
            replay_spec(text@) matches Err(e) ==> r == Err::<(), GameError>(e),
            replay_spec(text@) matches Ok((m, s)) ==> r is Ok && squares_of(final(self).board) == m
                && final(self).side == s,
            r is Ok ==> final(self).states@ == text@,
            r is Ok ==> final(self).call == old(self).call && final(self).miss_call
                == old(self).miss_call && final(self).last_move == old(self).last_move,
    {
        let n = text.unicode_len();
        let nl = find_char(text, '\n', 0);
        proof {
            lemma_find(text@, '\n', 0);
        }
        let head = text.substring_char(0, nl);
        assert(head@ =~= first_line(text@));
        let (mut b, side) = match parse_state_header(head) {
            Ok(x) => x,
            Err(e) => {
                return Err(e);
            },
        };
        let rest = if nl < n {
            text.substring_char(nl + 1, n)
        } else {
            text.substring_char(n, n)
        };
        let m = rest.unicode_len();
        let end = find_char(rest, '\n', 0);
        proof {
            lemma_find(rest@, '\n', 0);
        }
        let line = rest.substring_char(0, end);
        proof {
            if nl < n {
                assert(rest@ =~= text@.skip(nl + 1));
            } else {
                assert(rest@ =~= Seq::<char>::empty());
            }
            assert(line@ =~= second_line(text@));
        }
        let len = line.unicode_len();
        let mut start: usize = 0;
        let ghost m0 = squares_of(b);
        let ghost total = replay_from(m0, line@, 0);
        proof {
            assert(header_spec(first_line(text@)) matches Ok((m, s)) && m == m0 && s == side);
            assert(replay_spec(text@) == match total {
                Err(e) => Err(e),
                Ok(m2) => Ok::<(Seq<Piece>, Side), GameError>((m2, side)),
            });
        }
        loop
            invariant
                len == line@.len(),
                start <= len,
                b.wf(),
                old(self).wf(),
                *self == *old(self),
                total == replay_from(m0, line@, 0),
                total == replay_from(squares_of(b), line@, start as int),
                replay_spec(text@) == match total {
                    Err(e) => Err(e),
                    Ok(m2) => Ok::<(Seq<Piece>, Side), GameError>((m2, side)),
                },
            ensures
                total == Ok::<Seq<Piece>, GameError>(squares_of(b)),
            decreases len - start,
        {
            let stop = find_char(line, ',', start);
            proof {
                lemma_find(line@, ',', start as int);
            }
            let entry = line.substring_char(start, stop);
            let ghost before = squares_of(b);
            assert(entry@ == line@.subrange(start as int, stop as int));
            match parse_state_entry(entry) {
                Err(e) => {
                    assert(total == Err::<Seq<Piece>, GameError>(e));
                    return Err(e);
                },
                Ok(None) => {},
                Ok(Some((p, pos))) => {
                    let _ = b.new_position(p, pos);
                },
            }
            if stop >= len {
                break;
            }
            start = stop + 1;
        }
        self.board = b;
        self.side = side;
        self.states = String::from_str(text);
        Ok(())
    }
}

} // verus!
