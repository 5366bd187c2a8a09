//! The text of a captured comment: every line of the region, prefixed with
//! two tabs, its 1-based line number and a space, the lines joined by `\n`.

use vstd::prelude::*;

verus! {

/// The character that writes the digit `d`.
pub open spec fn digit_char(d: int) -> char {
    if d == 0 {
        '0'
    } else if d == 1 {
        '1'
    } else if d == 2 {
        '2'
    } else if d == 3 {
        '3'
    } else if d == 4 {
        '4'
    } else if d == 5 {
        '5'
    } else if d == 6 {
        '6'
    } else if d == 7 {
        '7'
    } else if d == 8 {
        '8'
    } else {
        '9'
    }
}

/// `n` written in base ten, without sign or leading zeros.
pub open spec fn decimal(n: nat) -> Seq<char>
    decreases n,
{
    if n < 10 {
        seq![digit_char(n as int)]
    } else {
        decimal(n / 10).push(digit_char((n % 10) as int))
    }
}

/// One line of a captured comment: two tabs, the line's number, a space,
/// the line itself.
pub open spec fn render_line(number: nat, text: Seq<char>) -> Seq<char> {
    seq!['\t', '\t'] + decimal(number) + seq![' '] + text
}

/// The lines with index `first` up to, not including, `end`, each rendered
/// with its 1-based number, joined by `\n`.
pub open spec fn render_span(lines: Seq<Seq<char>>, first: int, end: int) -> Seq<char>
    decreases end - first,
{
    if end <= first {
        Seq::empty()
    } else if end == first + 1 {
        render_line(end as nat, lines[first])
    } else {
        render_span(lines, first, end - 1) + seq!['\n'] + render_line(end as nat, lines[end - 1])
    }
}

/// The one-character string that writes the digit `d`.
fn digit_str(d: usize) -> (s: &'static str)
    requires
        d < 10,
    ensures
        s@ == seq![digit_char(d as int)],
{
    proof {
        reveal_strlit("0");
        reveal_strlit("1");
        reveal_strlit("2");
        reveal_strlit("3");
        reveal_strlit("4");
        reveal_strlit("5");
        reveal_strlit("6");
        reveal_strlit("7");
        reveal_strlit("8");
        reveal_strlit("9");
    }
    let s = match d {
        0 => "0",
        1 => "1",
        2 => "2",
        3 => "3",
        4 => "4",
        5 => "5",
        6 => "6",
        7 => "7",
        8 => "8",
        _ => "9",
    };
    assert(s@ =~= seq![digit_char(d as int)]);
    s
}

/// Appends `n`, written in base ten, to `out`.
pub fn append_decimal(out: &mut String, n: usize)
    ensures
        final(out)@ == old(out)@ + decimal(n as nat),
    decreases n,
{
    if n >= 10 {
        append_decimal(out, n / 10);
    }
    out.append(digit_str(n % 10));
    assert(out@ =~= old(out)@ + decimal(n as nat));
}

/// Appends one rendered line to `out`.
pub fn append_line(out: &mut String, number: usize, text: &str)
    ensures
        final(out)@ == old(out)@ + render_line(number as nat, text@),
{
    proof {
        reveal_strlit("\t\t");
        reveal_strlit(" ");
    }
    out.append("\t\t");
    append_decimal(out, number);
    out.append(" ");
    out.append(text);
    assert("\t\t"@ =~= seq!['\t', '\t']);
    assert(" "@ =~= seq![' ']);
    assert(out@ =~= old(out)@ + render_line(number as nat, text@));
}

/// The rendering of one line under its 1-based number.
pub fn render_line_text(number: usize, text: &str) -> (rendered: String)
    ensures
        rendered@ == render_line(number as nat, text@),
{
    let mut rendered = String::new();
    append_line(&mut rendered, number, text);
    assert(rendered@ =~= render_line(number as nat, text@));
    rendered
}

/// The rendering of the lines with index `first` up to, not including,
/// `end`. An `end` beyond the last line stands for the number of lines.
pub fn render_lines(lines: &Vec<&str>, first: usize, end: usize) -> (rendered: String)
    ensures
        end <= lines.len() ==> rendered@ == render_span(
            lines.deep_view(),
            first as int,
            end as int,
        ),
        end > lines.len() ==> rendered@ == render_span(
            lines.deep_view(),
            first as int,
            lines.len() as int,
        ),
{
    let stop = if end <= lines.len() {
        end
    } else {
        lines.len()
    };
    let mut rendered = String::new();
    let mut j: usize = first;
    while j < stop
        invariant
            stop <= lines.len(),
            first <= j,
            first < stop ==> j <= stop,
            stop <= first ==> j == first,
            rendered@ == render_span(lines.deep_view(), first as int, j as int),
        decreases stop - j,
    {
        proof {
            reveal_strlit("\n");
            assert(lines.deep_view()[j as int] == lines[j as int]@);
        }
        if j > first {
            rendered.append("\n");
        }
        append_line(&mut rendered, j + 1, lines[j]);
        j += 1;
        assert(rendered@ =~= render_span(lines.deep_view(), first as int, j as int));
    }
    rendered
}

} // verus!
