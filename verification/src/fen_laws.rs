//! The FEN round-trip law: parsing what the serializer emitted gives the
//! position back, field by field.

use vstd::prelude::*;

use crate::chess_raw::grid_at;
use crate::chess_raw::spec_on_board;
use crate::chess_raw::wf_grid;
use crate::chess_raw::CastlingAvailability;
use crate::chess_raw::Color;
use crate::chess_raw::ColoredPiece;
use crate::chess_raw::Coord;
use crate::chess_raw::StateModel;
use crate::errors::digit_char;
use crate::errors::ChessError;
use crate::parser::board_step;
use crate::parser::fields_from;
use crate::parser::spec_fields;
use crate::parser::spec_parse_fen;
use crate::serializer::spec_fen_chars;
use crate::parser::digit_val;
use crate::parser::empty_grid;
use crate::parser::grid_write;
use crate::parser::is_digit_char;
use crate::parser::lemma_grid_write_wf;
use crate::parser::spec_parse_board;
use crate::parser::spec_parse_castling;
use crate::parser::spec_parse_color;
use crate::parser::spec_parse_optional_coord;
use crate::parser::spec_parse_piece;
use crate::serializer::placement_from;
use crate::serializer::row_chars;
use crate::serializer::spec_castling_chars;
use crate::serializer::spec_charify_color;
use crate::serializer::spec_charify_piece;
use crate::serializer::spec_coord_chars;
use crate::serializer::spec_file_char;
use crate::serializer::spec_placement_chars;

verus! {

/// The grid cell at row-major index `k` (row 0 is rank 8).
pub open spec fn cell(g: Seq<Seq<Option<ColoredPiece>>>, k: int) -> Option<ColoredPiece> {
    g[k / 8][k % 8]
}

pub open spec fn agree_below(
    acc: Seq<Seq<Option<ColoredPiece>>>,
    g: Seq<Seq<Option<ColoredPiece>>>,
    n: int,
) -> bool {
    forall|k: int| 0 <= k < n ==> cell(acc, k) == cell(g, k)
}

pub open spec fn none_from(acc: Seq<Seq<Option<ColoredPiece>>>, n: int) -> bool {
    forall|k: int| n <= k < 64 ==> cell(acc, k) is None
}

/// The row-major cell index of square `(x, y)`.
pub open spec fn cell_index(x: int, y: int) -> int {
    (8 - y) * 8 + (x - 1)
}

proof fn lemma_cell_index(g: Seq<Seq<Option<ColoredPiece>>>, x: int, y: int)
    requires
        1 <= x <= 8,
        1 <= y <= 8,
    ensures
        0 <= cell_index(x, y) < 64,
        cell_index(x, y) / 8 == 8 - y,
        cell_index(x, y) % 8 == x - 1,
        cell(g, cell_index(x, y)) == grid_at(g, Coord(x as i32, y as i32)),
{
    let k = cell_index(x, y);
    assert(k == 8 * (8 - y) + (x - 1));
    assert(k == 8 * (k / 8) + k % 8);
    assert(0 <= k % 8 < 8);
    assert(k / 8 == 8 - y && k % 8 == x - 1) by {
        let d = (k / 8) - (8 - y);
        assert(8 * d == (x - 1) - k % 8);
        assert(-8 < 8 * d < 8);
        assert(d == 0);
    }
}

/// The side-to-move letter parses back to the color it was written from.
pub proof fn lemma_color_round_trip(c: Color)
    ensures
        spec_parse_color(seq![spec_charify_color(c)]) == Ok::<Color, crate::errors::ChessError>(c),
{
    match c {
        Color::White => {
            assert(seq![spec_charify_color(c)] =~= seq!['w']);
        },
        Color::Black => {
            assert(seq![spec_charify_color(c)] =~= seq!['b']);
            assert(seq!['b'] != seq!['w']) by {
                assert(seq!['b'][0] == 'b');
            }
        },
    }
}

/// An algebraic square name parses back to the square it was written from.
pub proof fn lemma_coord_round_trip(c: Coord)
    requires
        spec_on_board(c),
    ensures
        spec_parse_optional_coord(spec_coord_chars(c)) == Ok::<
            Option<Coord>,
            crate::errors::ChessError,
        >(Some(c)),
{
    let s = spec_coord_chars(c);
    assert(s.len() == 2);
    assert(s != seq!['-']) by {
        assert(seq!['-'].len() == 1);
    }
    assert(s[0] == spec_file_char(c.0 as int));
    assert(s[1] == digit_char(c.1 as nat));
    assert((s[0] as int) - 96 == c.0 as int);
    assert((s[1] as int) - 48 == c.1 as int);
}

/// The castling field parses back to the rights it was written from.
pub proof fn lemma_castling_round_trip(cs: Seq<CastlingAvailability>)
    requires
        cs.len() == 2,
    ensures
        spec_parse_castling(spec_castling_chars(cs)) == Ok::<
            Seq<CastlingAvailability>,
            crate::errors::ChessError,
        >(cs),
{
    broadcast use vstd::seq_lib::lemma_seq_concat_contains_all_elements;

    let s = spec_castling_chars(cs);
    let white = cs[0];
    let black = cs[1];
    if !white.king_side && !white.queen_side && !black.king_side && !black.queen_side {
        assert(s == seq!['-']);
        assert(s.len() == 1);
        assert(spec_parse_castling(s) == Ok::<Seq<CastlingAvailability>, crate::errors::ChessError>(
            seq![
                CastlingAvailability { king_side: false, queen_side: false },
                CastlingAvailability { king_side: false, queen_side: false },
            ],
        ));
        assert(seq![
            CastlingAvailability { king_side: false, queen_side: false },
            CastlingAvailability { king_side: false, queen_side: false },
        ] =~= cs);
    } else {
        let pk = if white.king_side {
            seq!['K']
        } else {
            Seq::<char>::empty()
        };
        let pq = if white.queen_side {
            seq!['Q']
        } else {
            Seq::<char>::empty()
        };
        let pbk = if black.king_side {
            seq!['k']
        } else {
            Seq::<char>::empty()
        };
        let pbq = if black.queen_side {
            seq!['q']
        } else {
            Seq::<char>::empty()
        };
        assert(s == pk + pq + pbk + pbq);
        assert(s.len() <= 4);
        assert(s.len() >= 1);
        assert(s != seq!['-']) by {
            if s.len() == 1 {
                assert(s[0] == 'K' || s[0] == 'Q' || s[0] == 'k' || s[0] == 'q') by {
                    assert(s.contains(s[0]));
                    if pk.contains(s[0]) {
                        assert(s[0] == 'K');
                    } else if pq.contains(s[0]) {
                        assert(s[0] == 'Q');
                    } else if pbk.contains(s[0]) {
                        assert(s[0] == 'k');
                    } else {
                        assert(pbq.contains(s[0]));
                    }
                }
                assert(seq!['-'][0] == '-');
            }
        }
        assert(s.contains('K') == white.king_side) by {
            if white.king_side {
                assert(pk[0] == 'K');
                assert(pk.contains('K'));
            }
            if s.contains('K') && !white.king_side {
                assert(pk.contains('K') || pq.contains('K') || pbk.contains('K') || pbq.contains(
                    'K',
                ));
            }
        }
        assert(s.contains('Q') == white.queen_side) by {
            if white.queen_side {
                assert(pq[0] == 'Q');
                assert(pq.contains('Q'));
            }
            if s.contains('Q') && !white.queen_side {
                assert(pk.contains('Q') || pq.contains('Q') || pbk.contains('Q') || pbq.contains(
                    'Q',
                ));
            }
        }
        assert(s.contains('k') == black.king_side) by {
            if black.king_side {
                assert(pbk[0] == 'k');
                assert(pbk.contains('k'));
            }
            if s.contains('k') && !black.king_side {
                assert(pk.contains('k') || pq.contains('k') || pbk.contains('k') || pbq.contains(
                    'k',
                ));
            }
        }
        assert(s.contains('q') == black.queen_side) by {
            if black.queen_side {
                assert(pbq[0] == 'q');
                assert(pbq.contains('q'));
            }
            if s.contains('q') && !black.queen_side {
                assert(pk.contains('q') || pq.contains('q') || pbk.contains('q') || pbq.contains(
                    'q',
                ));
            }
        }
        let amount = (if s.contains('K') {
            1int
        } else {
            0int
        }) + (if s.contains('Q') {
            1int
        } else {
            0int
        }) + (if s.contains('k') {
            1int
        } else {
            0int
        }) + (if s.contains('q') {
            1int
        } else {
            0int
        });
        assert(amount == s.len());
        assert(spec_parse_castling(s) matches Ok(r) && r =~= cs) by {
            assert(CastlingAvailability {
                king_side: s.contains('K'),
                queen_side: s.contains('Q'),
            } == white);
            assert(CastlingAvailability {
                king_side: s.contains('k'),
                queen_side: s.contains('q'),
            } == black);
        }
    }
}

// ------------------------------------------------------------------
// The placement field round trip
// ------------------------------------------------------------------
proof fn lemma_piece_char_class(p: ColoredPiece)
    ensures
        !is_digit_char(spec_charify_piece(Some(p))),
        spec_charify_piece(Some(p)) != '/',
        spec_charify_piece(Some(p)) != ' ',
        spec_parse_piece(spec_charify_piece(Some(p))) == Some(p),
{
}

proof fn lemma_digit_char_class(k: int)
    requires
        1 <= k <= 8,
    ensures
        is_digit_char(digit_char(k as nat)),
        digit_val(digit_char(k as nat)) == k,
        digit_char(k as nat) != '/',
        digit_char(k as nat) != ' ',
{
}

/// Parsing the text of one serialized rank advances the cell index to the
/// end of that rank and reconstructs exactly its squares.
proof fn lemma_row_parse(
    s: Seq<char>,
    i: int,
    g: Seq<Seq<Option<ColoredPiece>>>,
    y: int,
    x: int,
    counter: int,
    acc: Seq<Seq<Option<ColoredPiece>>>,
)
    requires
        wf_grid(g),
        wf_grid(acc),
        1 <= y <= 8,
        1 <= x <= 9,
        0 <= counter <= x - 1,
        agree_below(acc, g, cell_index(x, y) - counter),
        none_from(acc, cell_index(x, y) - counter),
        forall|f: int|
            x - counter <= f < x ==> #[trigger] grid_at(g, Coord(f as i32, y as i32)) is None,
        0 <= i,
        i + row_chars(g, y, x, counter).len() <= s.len(),
        s.subrange(i, i + row_chars(g, y, x, counter).len()) == row_chars(g, y, x, counter),
    ensures
        exists|acc2: Seq<Seq<Option<ColoredPiece>>>|
            {
                &&& #[trigger] board_step(
                    s,
                    i + row_chars(g, y, x, counter).len(),
                    (9 - y) * 8,
                    8 - y,
                    acc2,
                ) == board_step(s, i, cell_index(x, y) - counter, 8 - y, acc)
                &&& wf_grid(acc2)
                &&& agree_below(acc2, g, (9 - y) * 8)
                &&& none_from(acc2, (9 - y) * 8)
            },
    decreases 9 - x,
{
    let text = row_chars(g, y, x, counter);
    let it0 = cell_index(x, y) - counter;
    let lss = 8 - y;
    if x == 9 {
        if counter == 0 {
            assert(text.len() == 0);
            assert(it0 == (9 - y) * 8);
            assert(board_step(s, i + text.len(), (9 - y) * 8, lss, acc) == board_step(
                s,
                i,
                it0,
                lss,
                acc,
            ));
        } else {
            lemma_digit_char_class(counter);
            assert(text == seq![digit_char(counter as nat)]);
            assert(s[i] == digit_char(counter as nat)) by {
                assert(s.subrange(i, i + 1)[0] == s[i]);
            }
            assert(it0 == (9 - y) * 8 - counter);
            // the rank-boundary guard does not fire mid-rank
            assert(!(it0 % 8 == 0 && lss < it0 / 8)) by {
                if counter < 8 {
                    assert(it0 % 8 == 8 - counter);
                } else {
                    assert(it0 == (8 - y) * 8);
                    assert(it0 / 8 == 8 - y);
                }
            }
            assert(!(8 - it0 % 8 < counter)) by {
                if counter < 8 {
                    assert(it0 % 8 == 8 - counter);
                } else {
                    assert(it0 % 8 == 0);
                }
            }
            assert(board_step(s, i, it0, lss, acc) == board_step(s, i + 1, it0 + counter, lss, acc));
            assert(it0 + counter == (9 - y) * 8);
            // the pending cells were empty in `g` and are empty in `acc`
            assert(agree_below(acc, g, (9 - y) * 8)) by {
                assert forall|k: int| 0 <= k < (9 - y) * 8 implies cell(acc, k) == cell(g, k) by {
                    if it0 <= k {
                        let f = k % 8 + 1;
                        assert(k / 8 == 8 - y && 8 - counter <= k % 8 < 8) by {
                            assert((8 - y) * 8 <= k < (9 - y) * 8);
                        }
                        lemma_cell_index(g, f, y);
                        assert(cell_index(f, y) == k);
                        assert(grid_at(g, Coord(f as i32, y as i32)) is None);
                        assert(cell(g, k) is None);
                        assert(cell(acc, k) is None);
                    }
                }
            }
        }
    } else {
        match grid_at(g, Coord(x as i32, y as i32)) {
            None => {
                assert(text == row_chars(g, y, x + 1, counter + 1));
                assert(cell_index(x + 1, y) - (counter + 1) == it0);
                lemma_row_parse(s, i, g, y, x + 1, counter + 1, acc);
            },
            Some(p) => {
                lemma_piece_char_class(p);
                let flush: Seq<char> = if counter > 0 {
                    seq![digit_char(counter as nat)]
                } else {
                    Seq::<char>::empty()
                };
                let rest = row_chars(g, y, x + 1, 0);
                assert(text == flush + seq![spec_charify_piece(Some(p))] + rest);
                let n = cell_index(x, y);
                let i1 = i + flush.len();
                // flush the pending digit, if any
                if counter > 0 {
                    lemma_digit_char_class(counter);
                    assert(s[i] == digit_char(counter as nat)) by {
                        assert(s.subrange(i, i + text.len())[0] == s[i]);
                        assert(text[0] == digit_char(counter as nat));
                    }
                    assert(!(it0 % 8 == 0 && lss < it0 / 8)) by {
                        assert(it0 % 8 == x - 1 - counter) by {
                            lemma_cell_index(g, x, y);
                            assert(n % 8 == x - 1);
                            assert((8 - y) * 8 <= it0);
                        }
                        if x - 1 - counter == 0 {
                            assert(it0 == (8 - y) * 8);
                            assert(it0 / 8 == 8 - y);
                        }
                    }
                    assert(!(8 - it0 % 8 < counter)) by {
                        assert(it0 % 8 == x - 1 - counter) by {
                            lemma_cell_index(g, x, y);
                            assert((8 - y) * 8 <= it0);
                        }
                    }
                    assert(board_step(s, i, it0, lss, acc) == board_step(
                        s,
                        i + 1,
                        it0 + counter,
                        lss,
                        acc,
                    ));
                    // the flushed cells agree: both sides hold nothing there
                    assert(agree_below(acc, g, n)) by {
                        assert forall|k: int| 0 <= k < n implies cell(acc, k) == cell(g, k) by {
                            if it0 <= k {
                                let f = k % 8 + 1;
                                assert(k / 8 == 8 - y && x - 1 - counter <= k % 8 < x - 1) by {
                                    assert((8 - y) * 8 <= it0 <= k < n);
                                    lemma_cell_index(g, x, y);
                                }
                                lemma_cell_index(g, f, y);
                                assert(cell_index(f, y) == k);
                                assert(grid_at(g, Coord(f as i32, y as i32)) is None);
                                assert(cell(acc, k) is None);
                            }
                        }
                    }
                }
                // now the piece letter itself
                let c = spec_charify_piece(Some(p));
                assert(s[i1] == c) by {
                    assert(s.subrange(i, i + text.len())[i1 - i] == s[i1]);
                    assert(text[i1 - i] == c);
                }
                lemma_cell_index(g, x, y);
                assert(!(n % 8 == 0 && lss < n / 8)) by {
                    if n % 8 == 0 {
                        assert(n / 8 == 8 - y);
                    }
                }
                assert(0 <= n < 64);
                let acc1 = grid_write(acc, n, p);
                lemma_grid_write_wf(acc, n, p);
                assert(board_step(s, i1, n, lss, acc) == board_step(s, i1 + 1, n + 1, lss, acc1));
                // the written cell now matches `g`
                assert(agree_below(acc1, g, n + 1)) by {
                    assert forall|k: int| 0 <= k < n + 1 implies cell(acc1, k) == cell(g, k) by {
                        if k == n {
                            assert(cell(acc1, n) == Some(p));
                            assert(cell(g, n) == Some(p));
                        } else {
                            assert(cell(acc1, k) == cell(acc, k)) by {
                                assert(k / 8 != n / 8 || k % 8 != n % 8);
                            }
                            assert(agree_below(acc, g, n));
                        }
                    }
                }
                assert(none_from(acc1, n + 1)) by {
                    assert forall|k: int| n + 1 <= k < 64 implies cell(acc1, k) is None by {
                        assert(cell(acc1, k) == cell(acc, k)) by {
                            assert(k / 8 != n / 8 || k % 8 != n % 8);
                        }
                        assert(none_from(acc, it0));
                    }
                }
                assert(cell_index(x + 1, y) - 0 == n + 1);
                let i2 = i1 + 1;
                assert(s.subrange(i2, i2 + rest.len()) =~= rest) by {
                    assert forall|k: int|
                        0 <= k < rest.len() implies s.subrange(i2, i2 + rest.len())[k] == rest[k] by {
                        assert(s.subrange(i2, i2 + rest.len())[k] == s[i2 + k]);
                        assert(s.subrange(i, i + text.len())[i2 - i + k] == s[i2 + k]);
                        assert(text[i2 - i + k] == rest[k]);
                    }
                }
                lemma_row_parse(s, i2, g, y, x + 1, 0, acc1);
                let acc2 = choose|acc2: Seq<Seq<Option<ColoredPiece>>>|
                    {
                        &&& #[trigger] board_step(
                            s,
                            i2 + rest.len(),
                            (9 - y) * 8,
                            8 - y,
                            acc2,
                        ) == board_step(s, i2, n + 1, 8 - y, acc1)
                        &&& wf_grid(acc2)
                        &&& agree_below(acc2, g, (9 - y) * 8)
                        &&& none_from(acc2, (9 - y) * 8)
                    };
                assert(i2 + rest.len() == i + text.len());
                assert(board_step(s, i + text.len(), (9 - y) * 8, 8 - y, acc2) == board_step(
                    s,
                    i,
                    it0,
                    lss,
                    acc,
                ));
            },
        }
    }
}

/// Parsing the serialized placement from rank `y` down reconstructs those
/// ranks and leaves the parser at the end of the board.
proof fn lemma_placement_parse(
    s: Seq<char>,
    i: int,
    g: Seq<Seq<Option<ColoredPiece>>>,
    y: int,
    acc: Seq<Seq<Option<ColoredPiece>>>,
)
    requires
        wf_grid(g),
        wf_grid(acc),
        1 <= y <= 8,
        agree_below(acc, g, (8 - y) * 8),
        none_from(acc, (8 - y) * 8),
        0 <= i,
        i + placement_from(g, y).len() <= s.len(),
        s.subrange(i, i + placement_from(g, y).len()) == placement_from(g, y),
    ensures
        exists|acc2: Seq<Seq<Option<ColoredPiece>>>|
            {
                &&& #[trigger] board_step(s, i + placement_from(g, y).len(), 64, 7, acc2)
                    == board_step(s, i, (8 - y) * 8, 8 - y, acc)
                &&& wf_grid(acc2)
                &&& agree_below(acc2, g, 64)
            },
    decreases y,
{
    let text = placement_from(g, y);
    let row = row_chars(g, y, 1, 0);
    assert(cell_index(1, y) - 0 == (8 - y) * 8);
    assert(s.subrange(i, i + row.len()) =~= row) by {
        assert forall|k: int| 0 <= k < row.len() implies s.subrange(i, i + row.len())[k]
            == row[k] by {
            assert(s.subrange(i, i + text.len())[k] == s[i + k]);
            assert(text[k] == row[k]);
        }
    }
    lemma_row_parse(s, i, g, y, 1, 0, acc);
    let accr = choose|accr: Seq<Seq<Option<ColoredPiece>>>|
        {
            &&& #[trigger] board_step(s, i + row.len(), (9 - y) * 8, 8 - y, accr) == board_step(
                s,
                i,
                (8 - y) * 8,
                8 - y,
                acc,
            )
            &&& wf_grid(accr)
            &&& agree_below(accr, g, (9 - y) * 8)
            &&& none_from(accr, (9 - y) * 8)
        };
    if y == 1 {
        assert(text == row);
        assert((9 - y) * 8 == 64);
        assert(8 - y == 7);
    } else {
        assert(text == row + seq!['/'] + placement_from(g, y - 1));
        let isl = i + row.len();
        assert(s[isl] == '/') by {
            assert(s.subrange(i, i + text.len())[isl - i] == s[isl]);
            assert(text[isl - i] == '/');
        }
        let it = (9 - y) * 8;
        assert(it % 8 == 0 && (8 - y) < it / 8);
        assert(board_step(s, isl, it, 8 - y, accr) == board_step(s, isl + 1, it, it / 8, accr));
        assert(it / 8 == 9 - y);
        assert(it == (8 - (y - 1)) * 8);
        let rest = placement_from(g, y - 1);
        let i2 = isl + 1;
        assert(s.subrange(i2, i2 + rest.len()) =~= rest) by {
            assert forall|k: int|
                0 <= k < rest.len() implies s.subrange(i2, i2 + rest.len())[k] == rest[k] by {
                assert(s.subrange(i2, i2 + rest.len())[k] == s[i2 + k]);
                assert(s.subrange(i, i + text.len())[i2 - i + k] == s[i2 + k]);
                assert(text[i2 - i + k] == rest[k]);
            }
        }
        lemma_placement_parse(s, i2, g, y - 1, accr);
        let acc2 = choose|acc2: Seq<Seq<Option<ColoredPiece>>>|
            {
                &&& #[trigger] board_step(s, i2 + rest.len(), 64, 7, acc2) == board_step(
                    s,
                    i2,
                    (8 - (y - 1)) * 8,
                    8 - (y - 1),
                    accr,
                )
                &&& wf_grid(acc2)
                &&& agree_below(acc2, g, 64)
            };
        assert(i2 + rest.len() == i + text.len());
        assert(board_step(s, i + text.len(), 64, 7, acc2) == board_step(
            s,
            i,
            (8 - y) * 8,
            8 - y,
            acc,
        ));
    }
}

/// The serialized placement parses back to the board it was written from.
pub proof fn lemma_board_round_trip(g: Seq<Seq<Option<ColoredPiece>>>)
    requires
        wf_grid(g),
    ensures
        spec_parse_board(spec_placement_chars(g)) == Ok::<
            Seq<Seq<Option<ColoredPiece>>>,
            ChessError,
        >(g),
{
    let s = spec_placement_chars(g);
    let e = empty_grid();
    assert(wf_grid(e));
    assert(none_from(e, 0)) by {
        assert forall|k: int| 0 <= k < 64 implies cell(e, k) is None by {
            assert(0 <= k / 8 < 8 && 0 <= k % 8 < 8);
            assert(e[k / 8][k % 8] is None);
        }
    }
    assert(s.subrange(0, s.len() as int) =~= s);
    lemma_placement_parse(s, 0, g, 8, e);
    let acc2 = choose|acc2: Seq<Seq<Option<ColoredPiece>>>|
        {
            &&& #[trigger] board_step(s, s.len() as int, 64, 7, acc2) == board_step(s, 0, 0, 0, e)
            &&& wf_grid(acc2)
            &&& agree_below(acc2, g, 64)
        };
    assert(board_step(s, s.len() as int, 64, 7, acc2) == Ok::<
        Seq<Seq<Option<ColoredPiece>>>,
        ChessError,
    >(acc2));
    assert(acc2 =~~= g) by {
        assert forall|r: int| 0 <= r < 8 implies acc2[r] =~= g[r] by {
            assert(acc2[r].len() == 8 && g[r].len() == 8);
            assert forall|cidx: int| 0 <= cidx < 8 implies acc2[r][cidx] == g[r][cidx] by {
                let k = 8 * r + cidx;
                assert(k / 8 == r && k % 8 == cidx) by {
                    let d = (k / 8) - r;
                    assert(8 * d == cidx - k % 8);
                    assert(-8 < 8 * d < 8);
                    assert(d == 0);
                }
                assert(cell(acc2, k) == cell(g, k));
            }
        }
    }
}

// ------------------------------------------------------------------
// Splitting the six fields back apart
// ------------------------------------------------------------------
pub open spec fn no_space(t: Seq<char>) -> bool {
    forall|k: int| 0 <= k < t.len() ==> t[k] != ' '
}

proof fn lemma_row_no_space(g: Seq<Seq<Option<ColoredPiece>>>, y: int, x: int, counter: int)
    requires
        1 <= y <= 8,
        1 <= x <= 9,
        0 <= counter <= x - 1,
    ensures
        no_space(row_chars(g, y, x, counter)),
    decreases 9 - x,
{
    let text = row_chars(g, y, x, counter);
    if x == 9 {
        if counter > 0 {
            lemma_digit_char_class(counter);
        }
    } else {
        match grid_at(g, Coord(x as i32, y as i32)) {
            None => {
                lemma_row_no_space(g, y, x + 1, counter + 1);
            },
            Some(p) => {
                lemma_piece_char_class(p);
                if counter > 0 {
                    lemma_digit_char_class(counter);
                }
                lemma_row_no_space(g, y, x + 1, 0);
                let flush: Seq<char> = if counter > 0 {
                    seq![digit_char(counter as nat)]
                } else {
                    Seq::<char>::empty()
                };
                let rest = row_chars(g, y, x + 1, 0);
                assert(text == flush + seq![spec_charify_piece(Some(p))] + rest);
                assert forall|k: int| 0 <= k < text.len() implies text[k] != ' ' by {
                    if k < flush.len() {
                        assert(text[k] == flush[0]);
                    } else if k == flush.len() {
                        assert(text[k] == spec_charify_piece(Some(p)));
                    } else {
                        assert(text[k] == rest[k - flush.len() - 1]);
                    }
                }
            },
        }
    }
}

proof fn lemma_placement_no_space(g: Seq<Seq<Option<ColoredPiece>>>, y: int)
    requires
        1 <= y <= 8,
    ensures
        no_space(placement_from(g, y)),
    decreases y,
{
    let text = placement_from(g, y);
    let row = row_chars(g, y, 1, 0);
    lemma_row_no_space(g, y, 1, 0);
    if y > 1 {
        lemma_placement_no_space(g, y - 1);
        let rest = placement_from(g, y - 1);
        assert(text == row + seq!['/'] + rest);
        assert forall|k: int| 0 <= k < text.len() implies text[k] != ' ' by {
            if k < row.len() {
                assert(text[k] == row[k]);
            } else if k == row.len() {
                assert(text[k] == '/');
            } else {
                assert(text[k] == rest[k - row.len() - 1]);
            }
        }
    }
}

proof fn lemma_castling_no_space(cs: Seq<CastlingAvailability>)
    requires
        cs.len() == 2,
    ensures
        no_space(spec_castling_chars(cs)),
{
    broadcast use vstd::seq_lib::lemma_seq_concat_contains_all_elements;

    let s = spec_castling_chars(cs);
    assert forall|k: int| 0 <= k < s.len() implies s[k] != ' ' by {
        assert(s.contains(s[k]));
        let white = cs[0];
        let black = cs[1];
        if !white.king_side && !white.queen_side && !black.king_side && !black.queen_side {
            assert(s == seq!['-']);
        } else {
            let pk = if white.king_side {
                seq!['K']
            } else {
                Seq::<char>::empty()
            };
            let pq = if white.queen_side {
                seq!['Q']
            } else {
                Seq::<char>::empty()
            };
            let pbk = if black.king_side {
                seq!['k']
            } else {
                Seq::<char>::empty()
            };
            let pbq = if black.queen_side {
                seq!['q']
            } else {
                Seq::<char>::empty()
            };
            assert(s == pk + pq + pbk + pbq);
            if pk.contains(s[k]) {
                assert(s[k] == 'K');
            } else if pq.contains(s[k]) {
                assert(s[k] == 'Q');
            } else if pbk.contains(s[k]) {
                assert(s[k] == 'k');
            } else {
                assert(pbq.contains(s[k]));
                assert(s[k] == 'q');
            }
        }
    }
}

proof fn lemma_coord_no_space(c: Coord)
    requires
        spec_on_board(c),
    ensures
        no_space(spec_coord_chars(c)),
{
    let s = spec_coord_chars(c);
    assert(s.len() == 2);
    assert(s[0] == spec_file_char(c.0 as int) && s[1] == digit_char(c.1 as nat));
    lemma_digit_char_class(c.1 as int);
}

/// Walking over non-space characters does not change the split.
proof fn lemma_fields_skip(s: Seq<char>, start: int, i: int, j: int)
    requires
        0 <= start <= i <= j <= s.len(),
        forall|k: int| i <= k < j ==> s[k] != ' ',
    ensures
        fields_from(s, start, i) == fields_from(s, start, j),
    decreases j - i,
{
    if i < j {
        assert(s[i] != ' ');
        lemma_fields_skip(s, start, i + 1, j);
    }
}

/// The split of a suffix does not depend on how the suffix is embedded.
proof fn lemma_fields_shift(s: Seq<char>, b: int, t: Seq<char>, u: int, v: int)
    requires
        0 <= b <= s.len(),
        t == s.subrange(b, s.len() as int),
        0 <= u <= v <= t.len(),
    ensures
        fields_from(s, b + u, b + v) == fields_from(t, u, v),
    decreases t.len() - v,
{
    if v >= t.len() {
        assert(s.subrange(b + u, s.len() as int) =~= t.subrange(u, t.len() as int));
    } else {
        assert(s[b + v] == t[v]) by {
            assert(t[v] == s.subrange(b, s.len() as int)[v]);
        }
        if t[v] == ' ' {
            assert(s.subrange(b + u, b + v) =~= t.subrange(u, v));
            lemma_fields_shift(s, b, t, v + 1, v + 1);
        } else {
            lemma_fields_shift(s, b, t, u, v + 1);
        }
    }
}

/// The given parts joined by single spaces.
pub open spec fn join_spaces(parts: Seq<Seq<char>>) -> Seq<char>
    decreases parts.len(),
{
    if parts.len() == 0 {
        Seq::<char>::empty()
    } else if parts.len() == 1 {
        parts[0]
    } else {
        parts[0] + seq![' '] + join_spaces(parts.drop_first())
    }
}

/// Splitting a space-joined string of space-free parts gives the parts.
proof fn lemma_fields_join(parts: Seq<Seq<char>>)
    requires
        parts.len() >= 1,
        forall|p: int| 0 <= p < parts.len() ==> no_space(#[trigger] parts[p]),
    ensures
        spec_fields(join_spaces(parts)) == parts,
    decreases parts.len(),
{
    let s = join_spaces(parts);
    let p0 = parts[0];
    if parts.len() == 1 {
        assert(s == p0);
        lemma_fields_skip(s, 0, 0, s.len() as int);
        assert(fields_from(s, 0, s.len() as int) == seq![s.subrange(0, s.len() as int)]);
        assert(s.subrange(0, s.len() as int) =~= p0);
        assert(spec_fields(s) =~= parts);
    } else {
        let rest = join_spaces(parts.drop_first());
        assert(s == p0 + seq![' '] + rest);
        assert forall|k: int| 0 <= k < p0.len() implies s[k] != ' ' by {
            assert(s[k] == p0[k]);
        }
        lemma_fields_skip(s, 0, 0, p0.len() as int);
        assert(s[p0.len() as int] == ' ');
        assert(fields_from(s, 0, p0.len() as int) == seq![s.subrange(0, p0.len() as int)]
            + fields_from(s, p0.len() + 1 as int, p0.len() + 1 as int));
        assert(s.subrange(0, p0.len() as int) =~= p0);
        assert(s.subrange(p0.len() + 1 as int, s.len() as int) =~= rest);
        lemma_fields_shift(s, p0.len() + 1 as int, rest, 0, 0);
        assert(forall|p: int|
            0 <= p < parts.drop_first().len() ==> parts.drop_first()[p] == parts[p + 1]);
        lemma_fields_join(parts.drop_first());
        assert(spec_fields(s) == seq![p0] + parts.drop_first());
        assert(seq![p0] + parts.drop_first() =~= parts);
    }
}

// ------------------------------------------------------------------
// The whole round trip
// ------------------------------------------------------------------
/// Law: parsing a serialized position gives the position back. In text
/// terms: `serialize(parse(s)) == s` for every string `s` the serializer
/// can produce — the halfmove and fullmove fields of such a string read
/// `0 1`, which is exactly the stated normalization.
pub proof fn lemma_fen_round_trip(m: StateModel)
    requires
        m.wf(),
        match m.en_passant {
            Some(c) => spec_on_board(c),
            None => true,
        },
    ensures
        spec_parse_fen(spec_fen_chars(m)) == Ok::<StateModel, ChessError>(m),
{
    let p0 = spec_placement_chars(m.board);
    let p1 = seq![spec_charify_color(m.current)];
    let p2 = spec_castling_chars(m.castling);
    let p3: Seq<char> = match m.en_passant {
        None => seq!['-'],
        Some(c) => spec_coord_chars(c),
    };
    let p4 = seq!['0'];
    let p5 = seq!['1'];
    let parts = seq![p0, p1, p2, p3, p4, p5];
    let s = spec_fen_chars(m);

    assert(s =~= join_spaces(parts)) by {
        assert(parts.drop_first() =~= seq![p1, p2, p3, p4, p5]);
        assert(seq![p1, p2, p3, p4, p5].drop_first() =~= seq![p2, p3, p4, p5]);
        assert(seq![p2, p3, p4, p5].drop_first() =~= seq![p3, p4, p5]);
        assert(seq![p3, p4, p5].drop_first() =~= seq![p4, p5]);
        assert(seq![p4, p5].drop_first() =~= seq![p5]);
        assert(join_spaces(seq![p5]) == p5);
        assert(join_spaces(seq![p4, p5]) == p4 + seq![' '] + p5);
        assert(join_spaces(seq![p3, p4, p5]) == p3 + seq![' '] + (p4 + seq![' '] + p5));
        assert(join_spaces(seq![p2, p3, p4, p5]) == p2 + seq![' '] + (p3 + seq![' '] + (p4
            + seq![' '] + p5)));
        assert(join_spaces(seq![p1, p2, p3, p4, p5]) == p1 + seq![' '] + (p2 + seq![' '] + (p3
            + seq![' '] + (p4 + seq![' '] + p5))));
        assert(join_spaces(parts) == p0 + seq![' '] + (p1 + seq![' '] + (p2 + seq![' '] + (p3
            + seq![' '] + (p4 + seq![' '] + p5)))));
    }

    assert forall|p: int| 0 <= p < parts.len() implies no_space(#[trigger] parts[p]) by {
        lemma_placement_no_space(m.board, 8);
        lemma_castling_no_space(m.castling);
        match m.en_passant {
            Some(c) => {
                lemma_coord_no_space(c);
            },
            None => {},
        }
        if p == 0 {
            assert(parts[p] == p0);
        } else if p == 1 {
            assert(parts[p] == p1);
        } else if p == 2 {
            assert(parts[p] == p2);
        } else if p == 3 {
            assert(parts[p] == p3);
        } else if p == 4 {
            assert(parts[p] == p4);
        } else {
            assert(parts[p] == p5);
        }
    }
    lemma_fields_join(parts);
    assert(spec_fields(s) == parts);
    assert(parts[0] == p0 && parts[1] == p1 && parts[2] == p2 && parts[3] == p3);

    lemma_board_round_trip(m.board);
    lemma_color_round_trip(m.current);
    lemma_castling_round_trip(m.castling);
    match m.en_passant {
        Some(c) => {
            lemma_coord_round_trip(c);
        },
        None => {
            assert(spec_parse_optional_coord(p3) == Ok::<Option<Coord>, ChessError>(None)) by {
                assert(p3 == seq!['-']);
            }
        },
    }
    assert(spec_parse_fen(s) == Ok::<StateModel, ChessError>(
        StateModel {
            board: m.board,
            current: m.current,
            castling: m.castling,
            en_passant: m.en_passant,
        },
    ));
    assert(StateModel {
        board: m.board,
        current: m.current,
        castling: m.castling,
        en_passant: m.en_passant,
    } == m);
}

} // verus!
