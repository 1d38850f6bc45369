//! Board notation: eight rows separated by `/`, each row listing its squares
//! from column 1 to column 8, a run of empty squares written as one digit and a
//! piece as its one-character code.
use vstd::prelude::*;

use crate::board::{squares_of, Board};
use crate::error::GameError;
use crate::piece::{decode_char, decode_code, piece_char, Piece};
use crate::position::{char_from_digit, digit_char, push_char};

verus! {

/// The digit for a run of empty squares; nothing for an empty run.
pub open spec fn flush(run: int) -> Seq<char> {
    if run <= 0 {
        Seq::empty()
    } else {
        seq![digit_char(run)]
    }
}

/// The notation for squares `i..64`, where the `run` squares just before `i`
/// are empty and not yet written.
pub open spec fn enc_from(b: Board, i: int, run: int) -> Seq<char>
    decreases 64 - i,
{
    if i >= 64 {
        flush(run)
    } else {
        let p = b.square(i);
        let e = if p == Piece::Empty {
            Seq::empty()
        } else {
            flush(run).push(piece_char(p))
        };
        let run2 = if p == Piece::Empty {
            run + 1
        } else {
            0
        };
        if i % 8 == 7 && i != 63 {
            e + flush(run2).push('/') + enc_from(b, i + 1, 0)
        } else {
            e + enc_from(b, i + 1, run2)
        }
    }
}

/// The notation of a board.
pub open spec fn board_code(b: Board) -> Seq<char> {
    enc_from(b, 0, 0)
}

/// What a decoder holds between characters: the squares so far, the row, and
/// the column of the next square (0 to 8), or the error met.
pub type DecodeState = Result<(Seq<Piece>, int, int), GameError>;

/// A board with no pieces, at row 0, column 0.
pub open spec fn decode_start() -> DecodeState {
    Ok((Seq::new(64, |i: int| Piece::Empty), 0, 0))
}

/// What one character does to the decoder: `/` starts the next row, a digit
/// skips that many squares, a piece code places the piece. Running past the
/// last row or column is an error, as is a character that names no piece.
pub open spec fn decode_step(st: DecodeState, c: char) -> DecodeState {
    match st {
        Err(e) => Err(e),
        Ok((m, row, col)) => if c == '/' {
            if row + 1 < 8 {
                Ok((m, row + 1, 0))
            } else {
                Err(GameError::InvalidPosition)
            }
        } else if '0' <= c <= '9' {
            let d = c as int - '0' as int;
            if col + d <= 8 {
                Ok((m, row, col + d))
            } else {
                Err(GameError::InvalidPosition)
            }
        } else {
            match decode_char(c) {
                Err(e) => Err(e),
                Ok((p, _)) => if col < 8 {
                    Ok((m.update(row * 8 + col, p), row, col + 1))
                } else {
                    Err(GameError::InvalidPosition)
                },
            }
        },
    }
}

/// The decoder after reading all of `s` from `st`.
pub open spec fn decode_from(st: DecodeState, s: Seq<char>) -> DecodeState
    decreases s.len(),
{
    if s.len() == 0 {
        st
    } else {
        decode_step(decode_from(st, s.drop_last()), s.last())
    }
}

/// What decoding board notation gives: the piece on each square, or the error met.
pub open spec fn decode_board(s: Seq<char>) -> Result<Seq<Piece>, GameError> {
    match decode_from(decode_start(), s) {
        Ok((m, _, _)) => Ok(m),
        Err(e) => Err(e),
    }
}

/// Reading two pieces of text in turn is reading them joined.
pub proof fn lemma_decode_concat(st: DecodeState, a: Seq<char>, c: Seq<char>)
    ensures
        decode_from(st, a + c) == decode_from(decode_from(st, a), c),
    decreases c.len(),
{
    if c.len() == 0 {
        assert(a + c =~= a);
    } else {
        assert((a + c).drop_last() =~= a + c.drop_last());
        lemma_decode_concat(st, a, c.drop_last());
    }
}

/// An error stays.
pub proof fn lemma_decode_err(e: GameError, s: Seq<char>)
    ensures
        decode_from(Err(e), s) == Err::<(Seq<Piece>, int, int), GameError>(e),
    decreases s.len(),
{
    if s.len() > 0 {
        lemma_decode_err(e, s.drop_last());
    }
}

/// Reading one character is one step.
proof fn lemma_decode_one(st: DecodeState, c: char)
    ensures
        decode_from(st, seq![c]) == decode_step(st, c),
{
    let s = seq![c];
    assert(s.drop_last() =~= Seq::<char>::empty());
    assert(s.last() == c);
    assert(decode_from(st, Seq::<char>::empty()) == st);
    assert(decode_from(st, s) == decode_step(decode_from(st, s.drop_last()), s.last()));
}

/// The pieces on squares below `i`, and nothing from `i` on.
pub open spec fn prefix_model(b: Board, i: int) -> Seq<Piece> {
    Seq::new(64, |j: int| if j < i { b.square(j) } else { Piece::Empty })
}

/// Where the decoder stands when the encoder is at square `i` with `run`
/// empty squares not yet written.
pub open spec fn state_at(b: Board, i: int, run: int) -> DecodeState {
    if i < 64 {
        Ok((prefix_model(b, i), i / 8, i % 8 - run))
    } else {
        Ok((prefix_model(b, i), 7, 8 - run))
    }
}

/// Reading a run's digit advances the column by the run.
proof fn lemma_decode_flush(m: Seq<Piece>, row: int, col: int, run: int)
    requires
        0 <= run <= 8,
        0 <= col,
        col + run <= 8,
    ensures
        decode_from(Ok((m, row, col)), flush(run)) == Ok::<(Seq<Piece>, int, int), GameError>(
            (m, row, col + run),
        ),
{
    if run > 0 {
        lemma_decode_one(Ok((m, row, col)), digit_char(run));
    } else {
        assert(decode_from(Ok((m, row, col)), flush(run)) == Ok::<
            (Seq<Piece>, int, int),
            GameError,
        >((m, row, col)));
    }
}

/// Decoding the notation from square `i` on finishes the board.
proof fn lemma_enc_from_decodes(b: Board, i: int, run: int)
    requires
        b.wf(),
        0 <= i <= 64,
        0 <= run,
        i < 64 ==> run <= i % 8,
        i == 64 ==> run <= 8,
        forall|j: int| i - run <= j < i ==> #[trigger] b.square(j) == Piece::Empty,
    ensures
        decode_from(state_at(b, i, run), enc_from(b, i, run)) == Ok::<
            (Seq<Piece>, int, int),
            GameError,
        >((squares_of(b), 7, 8)),
    decreases 64 - i,
{
    let m = prefix_model(b, i);
    if i >= 64 {
        lemma_decode_flush(m, 7, 8 - run, run);
        assert(m =~= squares_of(b));
    } else {
        let p = b.square(i);
        let c = i % 8;
        let row = i / 8;
        let e = if p == Piece::Empty {
            Seq::empty()
        } else {
            flush(run).push(piece_char(p))
        };
        let run2 = if p == Piece::Empty {
            run + 1
        } else {
            0
        };
        let m2 = prefix_model(b, i + 1);
        // After `e`, the decoder has square `i` in place.
        let after_e: DecodeState = Ok((m2, row, c - run + if p == Piece::Empty {
            0int
        } else {
            run + 1
        }));
        if p == Piece::Empty {
            assert(m =~= m2);
            assert(decode_from(state_at(b, i, run), e) == after_e);
        } else {
            lemma_decode_concat(state_at(b, i, run), flush(run), seq![piece_char(p)]);
            assert(flush(run) + seq![piece_char(p)] =~= e);
            lemma_decode_flush(m, row, c - run, run);
            lemma_decode_one(Ok((m, row, c)), piece_char(p));
            crate::piece::lemma_piece_code_round_trip(p);
            assert(row * 8 + c == i);
            assert(m.update(i, p) =~= m2);
            assert(decode_from(state_at(b, i, run), e) == after_e);
        }
        let col2 = c - run + if p == Piece::Empty {
            0int
        } else {
            run + 1
        };
        assert(col2 + run2 == c + 1);
        if c == 7 && i != 63 {
            let tail = flush(run2).push('/');
            lemma_decode_concat(state_at(b, i, run), e + tail, enc_from(b, i + 1, 0));
            lemma_decode_concat(state_at(b, i, run), e, tail);
            lemma_decode_concat(after_e, flush(run2), seq!['/']);
            assert(flush(run2) + seq!['/'] =~= tail);
            lemma_decode_flush(m2, row, col2, run2);
            lemma_decode_one(Ok((m2, row, 8)), '/');
            assert(state_at(b, i + 1, 0) == decode_from(after_e, tail));
            lemma_enc_from_decodes(b, i + 1, 0);
            assert(enc_from(b, i, run) == e + tail + enc_from(b, i + 1, 0));
        } else {
            lemma_decode_concat(state_at(b, i, run), e, enc_from(b, i + 1, run2));
            assert(state_at(b, i + 1, run2) == after_e);
            lemma_enc_from_decodes(b, i + 1, run2);
        }
    }
}

/// Decoding a board's notation gives back the piece on every square.
pub proof fn lemma_board_code_round_trip(b: Board)
    requires
        b.wf(),
    ensures
        decode_board(board_code(b)) == Ok::<Seq<Piece>, GameError>(squares_of(b)),
{
    lemma_enc_from_decodes(b, 0, 0);
    assert(prefix_model(b, 0) =~= Seq::new(64, |i: int| Piece::Empty));
    assert(state_at(b, 0, 0) == decode_start());
}

impl Board {
    /// The board's notation.
    pub fn encode(self) -> (r: String)
        requires
            self.wf(),
        ensures
            r@ == board_code(self),
    {
        let mut out = String::new();
        let mut run: u64 = 0;
        let mut i: u64 = 0;
        while i < 64
            invariant
                i <= 64,
                self.wf(),
                run <= 8,
                i < 64 ==> run <= i % 8,
                out@ + enc_from(self, i as int, run as int) == board_code(self),
            decreases 64 - i,
        {
            proof {
                self.lemma_holds_square(Piece::Empty, i as int);
            }
            let p = match self.piece_from_norm(i) {
                Ok(p) => p,
                Err(_) => Piece::Empty,
            };
            let ghost before = out@;
            let ghost r0 = run as int;
            let ghost e: Seq<char> = if p == Piece::Empty {
                Seq::empty()
            } else {
                flush(r0).push(piece_char(p))
            };
            if let Piece::Empty = p {
                run = run + 1;
            } else {
                if run > 0 {
                    push_char(&mut out, char_from_digit(run as u32));
                }
                let code = p.encode();
                out.append(code.as_str());
                run = 0;
            }
            assert(out@ =~= before + e);
            let ghost run2 = run as int;
            if i % 8 == 7 && i != 63 {
                if run > 0 {
                    push_char(&mut out, char_from_digit(run as u32));
                }
                push_char(&mut out, '/');
                run = 0;
                assert(out@ =~= before + e + flush(run2).push('/'));
                assert(enc_from(self, i as int, r0) == e + flush(run2).push('/') + enc_from(
                    self,
                    i + 1,
                    0,
                ));
                assert(out@ + enc_from(self, i + 1, 0) =~= before + enc_from(self, i as int, r0));
            } else {
                assert(enc_from(self, i as int, r0) == e + enc_from(self, i + 1, run2));
                assert(out@ + enc_from(self, i + 1, run2) =~= before + enc_from(
                    self,
                    i as int,
                    r0,
                ));
            }
            i = i + 1;
        }
        let ghost before = out@;
        if run > 0 {
            push_char(&mut out, char_from_digit(run as u32));
        }
        assert(out@ =~= before + flush(run as int));
        out
    }

    /// Reads board notation. Rows are separated by `/`; within a row a digit
    /// skips that many squares and a piece code places a piece. More than eight
    /// rows, a row longer than eight squares, or a character that is neither
    /// is an error.
    pub fn decode(code: String) -> (r: Result<Board, GameError>)
        ensures
            r matches Ok(b) ==> b.wf() && decode_board(code@) == Ok::<Seq<Piece>, GameError>(
                squares_of(b),
            ),
            r matches Err(e) ==> decode_board(code@) == Err::<Seq<Piece>, GameError>(e),
    {
        let ghost s = code@;
        let n = code.as_str().unicode_len();
        let mut g = Board::blank();
        let mut row: u64 = 0;
        let mut col: u64 = 0;
        let mut k: usize = 0;
        proof {
            assert(s.take(0) =~= Seq::<char>::empty());
            assert(squares_of(g) =~= Seq::new(64, |i: int| Piece::Empty));
        }
        while k < n
            invariant
                n == s.len(),
                s == code@,
                k <= n,
                g.wf(),
                row < 8,
                col <= 8,
                decode_from(decode_start(), s.take(k as int)) == Ok::<
                    (Seq<Piece>, int, int),
                    GameError,
                >((squares_of(g), row as int, col as int)),
                forall|j: int| row * 8 + col <= j < 64 ==> #[trigger] g.square(j) == Piece::Empty,
            decreases n - k,
        {
            let c = code.as_str().get_char(k);
            let ghost st = decode_from(decode_start(), s.take(k as int));
            proof {
                assert(s.take(k + 1).drop_last() =~= s.take(k as int));
                assert(s.take(k + 1).last() == c);
                assert(decode_from(decode_start(), s.take(k + 1)) == decode_step(st, c));
                assert(s =~= s.take(k + 1) + s.skip(k + 1));
                lemma_decode_concat(decode_start(), s.take(k + 1), s.skip(k + 1));
            }
            if c == '/' {
                if row + 1 < 8 {
                    row = row + 1;
                    col = 0;
                } else {
                    proof {
                        lemma_decode_err(GameError::InvalidPosition, s.skip(k + 1));
                    }
                    return Err(GameError::InvalidPosition);
                }
            } else if '0' <= c && c <= '9' {
                let d = (c as u32 - '0' as u32) as u64;
                if col + d <= 8 {
                    col = col + d;
                } else {
                    proof {
                        lemma_decode_err(GameError::InvalidPosition, s.skip(k + 1));
                    }
                    return Err(GameError::InvalidPosition);
                }
            } else {
                match decode_code(c) {
                    Err(e) => {
                        proof {
                            lemma_decode_err(e, s.skip(k + 1));
                        }
                        return Err(e);
                    },
                    Ok((p, _)) => {
                        if col < 8 {
                            let ghost m = squares_of(g);
                            let idx = row * 8 + col;
                            g.put(p, idx);
                            col = col + 1;
                            assert(squares_of(g) =~= m.update(idx as int, p));
                        } else {
                            proof {
                                lemma_decode_err(GameError::InvalidPosition, s.skip(k + 1));
                            }
                            return Err(GameError::InvalidPosition);
                        }
                    },
                }
            }
            k = k + 1;
        }
        proof {
            assert(s.take(n as int) =~= s);
        }
        Ok(g)
    }
}

} // verus!
