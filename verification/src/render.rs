//! Verified text rendering of the board: a fixed-width 4x4 grid, one border
//! of underscores above and one of dashes below, and a trailing score line.

use vstd::prelude::*;

verus! {

/// The decimal digit `d` as a character.
pub open spec fn digit_char(d: int) -> char {
    if d == 0 {
        '0'
    } else if d == 1 {
        '1'
    } else if d == 2 {
        '2'
    } else if d == 3 {
        '3'
    } else if d == 4 {
        '4'
    } else if d == 5 {
        '5'
    } else if d == 6 {
        '6'
    } else if d == 7 {
        '7'
    } else if d == 8 {
        '8'
    } else {
        '9'
    }
}

/// Decimal notation of `n`, most significant digit first.
pub open spec fn dec_str(n: int) -> Seq<char>
    decreases n,
{
    if n < 10 {
        seq![digit_char(n)]
    } else {
        dec_str(n / 10).push(digit_char(n % 10))
    }
}

/// `n` spaces (none when `n <= 0`).
pub open spec fn spaces(n: int) -> Seq<char>
    decreases n,
{
    if n <= 0 {
        Seq::empty()
    } else {
        spaces(n - 1).push(' ')
    }
}

/// One cell, right-aligned in a field of four characters: blank when empty,
/// else the decimal value (wider values overflow the field unpadded).
pub open spec fn cell_str(v: int) -> Seq<char> {
    if v == 0 {
        spaces(4)
    } else {
        spaces(4 - dec_str(v).len()) + dec_str(v)
    }
}

/// One rendered row: four cells between five bars, then a line break.
pub open spec fn row_str(cells: Seq<u32>, r: int) -> Seq<char> {
    "|"@ + cell_str(cells[4 * r] as int) + "|"@ + cell_str(cells[4 * r + 1] as int) + "|"@
        + cell_str(cells[4 * r + 2] as int) + "|"@ + cell_str(cells[4 * r + 3] as int) + "|\n"@
}

/// The whole rendered board: top border, four rows, bottom border, score.
pub open spec fn render_spec(cells: Seq<u32>, score: int) -> Seq<char> {
    "_____________________\n"@ + row_str(cells, 0) + row_str(cells, 1) + row_str(cells, 2)
        + row_str(cells, 3) + "---------------------\n"@ + "Points: "@ + dec_str(score) + "\n"@
}

/// Length of the decimal notation by magnitude.
proof fn lemma_dec_len(n: int)
    requires
        n >= 0,
    ensures
        n < 10 ==> dec_str(n).len() == 1,
        10 <= n < 100 ==> dec_str(n).len() == 2,
        100 <= n < 1000 ==> dec_str(n).len() == 3,
        1000 <= n ==> dec_str(n).len() >= 4,
    decreases n,
{
    if n >= 10 {
        lemma_dec_len(n / 10);
    }
}

/// The spaces sequence has length `n` and holds only spaces.
proof fn lemma_spaces(n: int)
    requires
        n >= 0,
    ensures
        spaces(n).len() == n,
        forall|i: int| 0 <= i < n ==> spaces(n)[i] == ' ',
    decreases n,
{
    if n > 0 {
        lemma_spaces(n - 1);
    }
}

/// Appends the single decimal digit `d`.
fn append_digit(s: &mut String, d: u32)
    requires
        d < 10,
    ensures
        final(s)@ == old(s)@ + seq![digit_char(d as int)],
{
    if d == 0 {
        s.append("0");
        proof {
            reveal_strlit("0");
            assert("0"@ =~= seq![digit_char(0int)]);
        }
    } else if d == 1 {
        s.append("1");
        proof {
            reveal_strlit("1");
            assert("1"@ =~= seq![digit_char(1int)]);
        }
    } else if d == 2 {
        s.append("2");
        proof {
            reveal_strlit("2");
            assert("2"@ =~= seq![digit_char(2int)]);
        }
    } else if d == 3 {
        s.append("3");
        proof {
            reveal_strlit("3");
            assert("3"@ =~= seq![digit_char(3int)]);
        }
    } else if d == 4 {
        s.append("4");
        proof {
            reveal_strlit("4");
            assert("4"@ =~= seq![digit_char(4int)]);
        }
    } else if d == 5 {
        s.append("5");
        proof {
            reveal_strlit("5");
            assert("5"@ =~= seq![digit_char(5int)]);
        }
    } else if d == 6 {
        s.append("6");
        proof {
            reveal_strlit("6");
            assert("6"@ =~= seq![digit_char(6int)]);
        }
    } else if d == 7 {
        s.append("7");
        proof {
            reveal_strlit("7");
            assert("7"@ =~= seq![digit_char(7int)]);
        }
    } else if d == 8 {
        s.append("8");
        proof {
            reveal_strlit("8");
            assert("8"@ =~= seq![digit_char(8int)]);
        }
    } else {
        s.append("9");
        proof {
            reveal_strlit("9");
            assert("9"@ =~= seq![digit_char(9int)]);
        }
    }
}

/// Appends the decimal notation of `v`.
fn append_dec(s: &mut String, v: u32)
    ensures
        final(s)@ == old(s)@ + dec_str(v as int),
    decreases v,
{
    if v < 10 {
        append_digit(s, v);
    } else {
        let ghost pre = s@;
        append_dec(s, v / 10);
        append_digit(s, v % 10);
        proof {
            assert(dec_str(v as int) =~= dec_str((v / 10) as int) + seq![
                digit_char((v % 10) as int),
            ]);
            assert((pre + dec_str((v / 10) as int)) + seq![digit_char((v % 10) as int)] =~= pre
                + dec_str(v as int));
        }
    }
}

/// Appends one cell, right-aligned in a field of four characters.
fn append_cell(s: &mut String, v: u32)
    ensures
        final(s)@ == old(s)@ + cell_str(v as int),
{
    let ghost pre = s@;
    if v == 0 {
        s.append("    ");
        proof {
            reveal_strlit("    ");
            lemma_spaces(4);
            assert("    "@ =~= spaces(4));
        }
        return ;
    }
    proof {
        lemma_dec_len(v as int);
    }
    if v < 10 {
        s.append("   ");
        proof {
            reveal_strlit("   ");
            lemma_spaces(3);
            assert("   "@ =~= spaces(3));
        }
    } else if v < 100 {
        s.append("  ");
        proof {
            reveal_strlit("  ");
            lemma_spaces(2);
            assert("  "@ =~= spaces(2));
        }
    } else if v < 1000 {
        s.append(" ");
        proof {
            reveal_strlit(" ");
            lemma_spaces(1);
            assert(" "@ =~= spaces(1));
        }
    } else {
        proof {
            assert(spaces(4 - dec_str(v as int).len()) =~= Seq::<char>::empty());
            assert(pre + spaces(4 - dec_str(v as int).len()) =~= pre);
        }
    }
    let ghost padded = s@;
    proof {
        assert(padded == pre + spaces(4 - dec_str(v as int).len()));
    }
    append_dec(s, v);
    proof {
        assert((pre + spaces(4 - dec_str(v as int).len())) + dec_str(v as int) =~= pre + cell_str(
            v as int,
        ));
    }
}

/// Appends one rendered row of the board.
fn append_row(s: &mut String, board: &Vec<u32>, r: usize)
    requires
        board@.len() == 16,
        r < 4,
    ensures
        final(s)@ == old(s)@ + row_str(board@, r as int),
{
    let ghost pre = s@;
    let base = 4 * r;
    s.append("|");
    append_cell(s, board[base]);
    s.append("|");
    append_cell(s, board[base + 1]);
    s.append("|");
    append_cell(s, board[base + 2]);
    s.append("|");
    append_cell(s, board[base + 3]);
    s.append("|\n");
    proof {
        assert(s@ =~= pre + row_str(board@, r as int));
    }
}

/// Renders the board and score as the fixed-width text grid.
pub(crate) fn render_board(board: &Vec<u32>, points: u32) -> (out: String)
    requires
        board@.len() == 16,
    ensures
        out@ == render_spec(board@, points as int),
{
    let mut s = String::new();
    s.append("_____________________\n");
    append_row(&mut s, board, 0);
    append_row(&mut s, board, 1);
    append_row(&mut s, board, 2);
    append_row(&mut s, board, 3);
    s.append("---------------------\n");
    s.append("Points: ");
    append_dec(&mut s, points);
    s.append("\n");
    proof {
        assert(s@ =~= render_spec(board@, points as int));
    }
    s
}

} // verus!
