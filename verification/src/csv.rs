//! The grid as text: one line for each row, the counts of a row in decimal
//! writing with commas between them.
use vstd::prelude::*;
use vstd::string::StringExecFns;
use crate::cli::{all_digits, digits_value, is_digit, number_written};
use crate::grid::Grid;
use crate::pile::{lemma_offset_in_range, Pile};

verus! {

/// The character that writes the digit `d`.
pub open spec fn digit_char(d: int) -> char {
    if d == 0 {
        '0'
    } else if d == 1 {
        '1'
    } else if d == 2 {
        '2'
    } else if d == 3 {
        '3'
    } else if d == 4 {
        '4'
    } else if d == 5 {
        '5'
    } else if d == 6 {
        '6'
    } else if d == 7 {
        '7'
    } else if d == 8 {
        '8'
    } else {
        '9'
    }
}

/// The decimal writing of `n`, without sign and without leading zeros.
pub open spec fn decimal(n: nat) -> Seq<char>
    decreases n,
{
    if n < 10 {
        seq![digit_char(n as int)]
    } else {
        decimal(n / 10).push(digit_char((n % 10) as int))
    }
}

/// The counts of `row` in decimal writing, with a comma between each two.
pub open spec fn csv_line(row: Seq<int>) -> Seq<char>
    decreases row.len(),
{
    if row.len() == 0 {
        Seq::empty()
    } else if row.len() == 1 {
        decimal(row[0] as nat)
    } else {
        csv_line(row.drop_last()) + seq![','] + decimal(row.last() as nat)
    }
}

impl Pile {
    /// The counts of the row `x`, from its first cell to its last.
    pub open spec fn row(self, x: int) -> Seq<int> {
        self.cells.subrange(x * self.width, x * self.width + self.width)
    }

    /// The first `rows` rows as text, with a line feed between each two.
    pub open spec fn csv_lines(self, rows: int) -> Seq<char>
        decreases rows,
    {
        if rows <= 0 {
            Seq::empty()
        } else if rows == 1 {
            csv_line(self.row(0))
        } else {
            self.csv_lines(rows - 1) + seq!['\n'] + csv_line(self.row(rows - 1))
        }
    }

    /// The pile as text: its rows, with a line feed between each two and none
    /// at the end.
    pub open spec fn csv(self) -> Seq<char> {
        self.csv_lines(self.height as int)
    }
}

/// The decimal writing of a number is read back as that number: it has at
/// least one character, all of them digits, and their value is the number.
pub proof fn lemma_decimal_reads_back(n: nat)
    ensures
        decimal(n).len() > 0,
        all_digits(decimal(n)),
        digits_value(decimal(n)) == n,
        number_written(decimal(n)) == Some(n),
    decreases n,
{
    let text = decimal(n);
    if n < 10 {
        assert(text.drop_last() =~= Seq::<char>::empty());
        assert(digits_value(text.drop_last()) == 0);
    } else {
        lemma_decimal_reads_back(n / 10);
        assert(text.drop_last() =~= decimal(n / 10));
        assert forall|i: int| 0 <= i < text.len() implies is_digit(#[trigger] text[i]) by {
            if i < text.len() - 1 {
                assert(text[i] == decimal(n / 10)[i]);
            }
        }
    }
    assert(text[0] != '+');
}

/// Writes one decimal digit at the end of `text`.
fn push_digit(text: &mut String, d: u32)
    requires
        d < 10,
    ensures
        final(text)@ == old(text)@.push(digit_char(d as int)),
{
    proof {
        reveal_strlit("0");
        reveal_strlit("1");
        reveal_strlit("2");
        reveal_strlit("3");
        reveal_strlit("4");
        reveal_strlit("5");
        reveal_strlit("6");
        reveal_strlit("7");
        reveal_strlit("8");
        reveal_strlit("9");
    }
    let digit = match d {
        0 => "0",
        1 => "1",
        2 => "2",
        3 => "3",
        4 => "4",
        5 => "5",
        6 => "6",
        7 => "7",
        8 => "8",
        _ => "9",
    };
    text.append(digit);
    assert(text@ =~= old(text)@.push(digit_char(d as int)));
}

/// Writes `n` in decimal at the end of `text`.
fn push_decimal(text: &mut String, n: u32)
    ensures
        final(text)@ == old(text)@ + decimal(n as nat),
    decreases n,
{
    if n >= 10 {
        push_decimal(text, n / 10);
    }
    push_digit(text, n % 10);
    assert(text@ =~= old(text)@ + decimal(n as nat));
}

impl Grid {
    /// The grid as text: one line for each row, the counts of a row in
    /// decimal writing with commas between them.
    pub fn to_string(&self) -> (text: String)
        requires
            self.wf(),
        ensures
            text@ == self@.csv(),
    {
        let ghost pile = self@;
        let len = self.array.len();
        let mut text = String::new();
        let mut i: usize = 0;
        while i < self.height
            invariant
                self.wf(),
                pile == self@,
                len == self.array@.len(),
                i <= self.height,
                text@ == pile.csv_lines(i as int),
            decreases self.height - i,
        {
            if i > 0 {
                proof {
                    reveal_strlit("\n");
                }
                text.append("\n");
            }
            let ghost head = text@;
            let ghost row = pile.row(i as int);
            proof {
                assert(0 <= i * self.width && i * self.width + self.width <= self.width
                    * self.height) by (nonlinear_arith)
                    requires
                        0 <= i < self.height,
                        0 <= self.width,
                ;
                assert(row.take(0) =~= Seq::<int>::empty());
            }
            let mut j: usize = 0;
            while j < self.width
                invariant
                    self.wf(),
                    pile == self@,
                    len == self.array@.len(),
                    i < self.height,
                    j <= self.width,
                    row == pile.row(i as int),
                    row.len() == self.width,
                    0 <= i * self.width,
                    i * self.width + self.width <= len,
                    text@ == head + csv_line(row.take(j as int)),
                decreases self.width - j,
            {
                proof {
                    lemma_offset_in_range(self.width as nat, self.height as nat, i as int, j as int);
                    assert(row.take(j + 1).drop_last() =~= row.take(j as int));
                    assert(row[j as int] == pile.cells[i * self.width + j]);
                    assert(row.take(j + 1).last() == self.array@[i * self.width + j]);
                }
                if j > 0 {
                    proof {
                        reveal_strlit(",");
                    }
                    text.append(",");
                }
                push_decimal(&mut text, self.array[i * self.width + j]);
                proof {
                    assert(text@ =~= head + csv_line(row.take(j + 1)));
                }
                j += 1;
            }
            proof {
                assert(row.take(j as int) =~= row);
                assert(text@ =~= pile.csv_lines(i + 1));
            }
            i += 1;
        }
        text
    }
}

} // verus!
