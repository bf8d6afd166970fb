//! The textual view of a grid: a bordered table of box-drawing
//! characters, every cell seven columns wide, each value centered and
//! color-coded by magnitude with ANSI escapes.

use vstd::prelude::*;
use vstd::string::StringExecFns;

verus! {

/// The decimal digit `d` as a character.
pub open spec fn digit_char(d: int) -> char {
    if d == 0 {
        '0'
    } else if d == 1 {
        '1'
    } else if d == 2 {
        '2'
    } else if d == 3 {
        '3'
    } else if d == 4 {
        '4'
    } else if d == 5 {
        '5'
    } else if d == 6 {
        '6'
    } else if d == 7 {
        '7'
    } else if d == 8 {
        '8'
    } else {
        '9'
    }
}

/// The decimal numeral of `n`, most significant digit first.
pub open spec fn dec_str(n: int) -> Seq<char>
    decreases n,
{
    if n <= 9 {
        seq![digit_char(n)]
    } else {
        dec_str(n / 10).push(digit_char(n % 10))
    }
}

/// `n` spaces.
pub open spec fn spaces(n: int) -> Seq<char> {
    Seq::new(n as nat, |i: int| ' ')
}

/// `s` centered in a field of width 7; when the fit is uneven the extra
/// space goes to the right.
pub open spec fn centered7(s: Seq<char>) -> Seq<char> {
    spaces((7 - s.len()) / 2) + s + spaces(7 - s.len() - (7 - s.len()) / 2)
}

/// The ANSI color for a tile value: red for 1-4, yellow for 8-32,
/// magenta for 64-128, green for 256, cyan for 512-1024, bright for
/// 2048, black background for anything else.
pub open spec fn color_code(v: int) -> Seq<char> {
    if 1 <= v <= 4 {
        "\x1b[31;1m"@
    } else if 8 <= v <= 32 {
        "\x1b[33;1m"@
    } else if 64 <= v <= 128 {
        "\x1b[35;1m"@
    } else if v == 256 {
        "\x1b[32;1m"@
    } else if 512 <= v <= 1024 {
        "\x1b[36;1m"@
    } else if v == 2048 {
        "\x1b[38;1m"@
    } else {
        "\x1b[40;1m"@
    }
}

/// The escape that restores the default colors.
pub open spec fn color_reset() -> Seq<char> {
    "\x1b[0m"@
}

/// The text of one cell: the value in its color — a blank for an empty
/// cell — centered in seven columns.
pub open spec fn cell_text(v: int) -> Seq<char> {
    color_code(v) + centered7(
        if v > 0 {
            dec_str(v)
        } else {
            seq![' ']
        },
    ) + color_reset()
}

/// One row of cells between vertical borders, ending in a line break.
pub open spec fn row_text(g: Seq<int>, r: int) -> Seq<char> {
    "   \u{2551}"@ + cell_text(g[4 * r]) + "\u{2551}"@ + cell_text(g[4 * r + 1]) + "\u{2551}"@
        + cell_text(g[4 * r + 2]) + "\u{2551}"@ + cell_text(g[4 * r + 3]) + "\u{2551}\n\r"@
}

/// The top border of the frame.
pub open spec fn top_border() -> Seq<char> {
    "   \u{2554}\u{2550}\u{2550}\u{2550}\u{2550}\u{2550}\u{2550}\u{2550}\u{2566}\u{2550}\u{2550}\u{2550}\u{2550}\u{2550}\u{2550}\u{2550}\u{2566}\u{2550}\u{2550}\u{2550}\u{2550}\u{2550}\u{2550}\u{2550}\u{2566}\u{2550}\u{2550}\u{2550}\u{2550}\u{2550}\u{2550}\u{2550}\u{2557}\n\r"@
}

/// The separator between two cell rows.
pub open spec fn separator() -> Seq<char> {
    "   \u{2560}\u{2550}\u{2550}\u{2550}\u{2550}\u{2550}\u{2550}\u{2550}\u{256c}\u{2550}\u{2550}\u{2550}\u{2550}\u{2550}\u{2550}\u{2550}\u{256c}\u{2550}\u{2550}\u{2550}\u{2550}\u{2550}\u{2550}\u{2550}\u{256c}\u{2550}\u{2550}\u{2550}\u{2550}\u{2550}\u{2550}\u{2550}\u{2563}\n\r"@
}

/// The bottom border of the frame.
pub open spec fn bottom_border() -> Seq<char> {
    "   \u{255a}\u{2550}\u{2550}\u{2550}\u{2550}\u{2550}\u{2550}\u{2550}\u{2569}\u{2550}\u{2550}\u{2550}\u{2550}\u{2550}\u{2550}\u{2550}\u{2569}\u{2550}\u{2550}\u{2550}\u{2550}\u{2550}\u{2550}\u{2550}\u{2569}\u{2550}\u{2550}\u{2550}\u{2550}\u{2550}\u{2550}\u{2550}\u{255d}\n\r"@
}

/// The framed grid: four cell rows with separators between them and a
/// border above and below.
pub open spec fn board_text(g: Seq<int>) -> Seq<char> {
    top_border() + row_text(g, 0) + separator() + row_text(g, 1) + separator() + row_text(g, 2)
        + separator() + row_text(g, 3) + bottom_border()
}

/// The single decimal digit `d` as text.
fn digit_str(d: u32) -> (s: &'static str)
    requires
        d <= 9,
    ensures
        s@ == seq![digit_char(d as int)],
{
    let s: &'static str = if d == 0 {
        "0"
    } else if d == 1 {
        "1"
    } else if d == 2 {
        "2"
    } else if d == 3 {
        "3"
    } else if d == 4 {
        "4"
    } else if d == 5 {
        "5"
    } else if d == 6 {
        "6"
    } else if d == 7 {
        "7"
    } else if d == 8 {
        "8"
    } else {
        "9"
    };
    proof {
        reveal_strlit("0");
        reveal_strlit("1");
        reveal_strlit("2");
        reveal_strlit("3");
        reveal_strlit("4");
        reveal_strlit("5");
        reveal_strlit("6");
        reveal_strlit("7");
        reveal_strlit("8");
        reveal_strlit("9");
        assert(s@ =~= seq![digit_char(d as int)]);
    }
    s
}

/// Append the decimal numeral of `n`.
pub(crate) fn push_decimal(out: &mut String, n: u32)
    ensures
        final(out)@ == old(out)@ + dec_str(n as int),
    decreases n,
{
    if n <= 9 {
        out.append(digit_str(n));
        proof {
            assert(out@ =~= old(out)@ + dec_str(n as int));
        }
    } else {
        push_decimal(out, n / 10);
        out.append(digit_str(n % 10));
        proof {
            assert(out@ =~= old(out)@ + dec_str(n as int));
        }
    }
}

proof fn lemma_dec_str_len(n: int)
    requires
        0 <= n <= 99999,
    ensures
        n <= 9 ==> dec_str(n).len() == 1,
        10 <= n <= 99 ==> dec_str(n).len() == 2,
        100 <= n <= 999 ==> dec_str(n).len() == 3,
        1000 <= n <= 9999 ==> dec_str(n).len() == 4,
        10000 <= n ==> dec_str(n).len() == 5,
    decreases n,
{
    if n >= 10 {
        lemma_dec_str_len(n / 10);
    }
}

fn push_spaces(out: &mut String, n: usize)
    ensures
        final(out)@ == old(out)@ + spaces(n as int),
{
    let mut k: usize = 0;
    proof {
        assert(out@ =~= old(out)@ + spaces(0));
    }
    while k < n
        invariant
            k <= n,
            out@ == old(out)@ + spaces(k as int),
        decreases n - k,
    {
        out.append(" ");
        proof {
            reveal_strlit(" ");
            assert(out@ =~= old(out)@ + spaces(k + 1));
        }
        k += 1;
    }
}

fn color_str(v: u16) -> (s: &'static str)
    ensures
        s@ == color_code(v as int),
{
    if 1 <= v && v <= 4 {
        "\x1b[31;1m"
    } else if 8 <= v && v <= 32 {
        "\x1b[33;1m"
    } else if 64 <= v && v <= 128 {
        "\x1b[35;1m"
    } else if v == 256 {
        "\x1b[32;1m"
    } else if 512 <= v && v <= 1024 {
        "\x1b[36;1m"
    } else if v == 2048 {
        "\x1b[38;1m"
    } else {
        "\x1b[40;1m"
    }
}

/// Append the seven-column text of one cell.
pub(crate) fn push_cell(out: &mut String, v: u16)
    ensures
        final(out)@ == old(out)@ + cell_text(v as int),
{
    out.append(color_str(v));
    let left: usize = if v == 0 || v <= 9 {
        3
    } else if v <= 999 {
        2
    } else {
        1
    };
    let right: usize = if v == 0 || v <= 99 {
        3
    } else if v <= 9999 {
        2
    } else {
        1
    };
    proof {
        lemma_dec_str_len(v as int);
    }
    push_spaces(out, left);
    if v > 0 {
        push_decimal(out, v as u32);
    } else {
        out.append(" ");
        proof {
            reveal_strlit(" ");
        }
    }
    push_spaces(out, right);
    out.append("\x1b[0m");
    proof {
        assert(out@ =~= old(out)@ + cell_text(v as int));
    }
}

} // verus!
