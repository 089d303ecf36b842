//! What the command line asks for.
//!
//! The arguments come as the strings that the process was started with, the
//! name of the program first. The two numbers are read out of their strings
//! by the standard library; which texts write a number, which arguments are
//! needed, what is missing and what the rest means is stated here.
use vstd::prelude::*;

verus! {

/// Why the arguments cannot be used.
#[derive(Clone, Copy, Debug, PartialEq, Eq, Structural)]
pub enum ArgsError {
    /// There is no argument for the side of the grid.
    MissingSize,
    /// The argument for the side of the grid is no number that fits.
    BadSize,
    /// There is no argument for the number of grains.
    MissingGrains,
    /// The argument for the number of grains is no number that fits.
    BadGrains,
}

/// The files that a run writes.
#[derive(Clone, Copy, Debug, PartialEq, Eq, Structural)]
pub enum OutputFormat {
    Csv,
    Html,
    Png,
    All,
}

/// `c` is one of the ten decimal digits.
pub open spec fn is_digit(c: char) -> bool {
    '0' <= c <= '9'
}

/// The number that a row of decimal digits writes, the last digit counting
/// once, the one before it ten times, and so on.
pub open spec fn digits_value(digits: Seq<char>) -> nat
    decreases digits.len(),
{
    if digits.len() == 0 {
        0
    } else {
        (digits_value(digits.drop_last()) * 10 + (digits.last() as int - '0' as int)) as nat
    }
}

/// Every character of `digits` is a decimal digit.
pub open spec fn all_digits(digits: Seq<char>) -> bool {
    forall|i: int| 0 <= i < digits.len() ==> is_digit(#[trigger] digits[i])
}

/// `text` without the `+` that it may begin with.
pub open spec fn without_plus(text: Seq<char>) -> Seq<char> {
    if text.len() > 0 && text[0] == '+' {
        text.subrange(1, text.len() as int)
    } else {
        text
    }
}

/// The number that `text` writes: an optional `+`, then one decimal digit or
/// more, and nothing else. Any other text writes no number.
pub open spec fn number_written(text: Seq<char>) -> Option<nat> {
    if without_plus(text).len() > 0 && all_digits(without_plus(text)) {
        Some(digits_value(without_plus(text)))
    } else {
        None
    }
}

/// The side of the grid that `text` writes, if it writes a number and the
/// number fits into a `usize`.
pub open spec fn size_written(text: Seq<char>) -> Option<usize> {
    match number_written(text) {
        Some(n) => if n <= usize::MAX {
            Some(n as usize)
        } else {
            None
        },
        None => None,
    }
}

/// The grains that `text` writes, if it writes a number and the number fits
/// into a `u32`.
pub open spec fn grains_written(text: Seq<char>) -> Option<u32> {
    match number_written(text) {
        Some(n) => if n <= u32::MAX {
            Some(n as u32)
        } else {
            None
        },
        None => None,
    }
}

/// Calls `str::parse` for a `usize`.
///
/// Believed of it, as the standard library documents the parsing of
/// unsigned integers: a text gives a number if and only if it is an
/// optional `+` followed by decimal digits alone, at least one, and the
/// number they write fits into a `usize`; the number is then the result.
#[verifier::external_body]
fn parse_size(text: &str) -> (size: Option<usize>)
    ensures
        size == size_written(text@),
{
    text.parse::<usize>().ok()
}

/// Calls `str::parse` for a `u32`.
///
/// Believed of it what is believed of the parsing of a `usize`, with the
/// range of a `u32`.
#[verifier::external_body]
fn parse_grains(text: &str) -> (grains: Option<u32>)
    ensures
        grains == grains_written(text@),
{
    text.parse::<u32>().ok()
}

/// What the arguments ask for, given what reading the size and the grains
/// gave: the side of the grid, the grains to deposit, and the two optional
/// words for mirroring and for the output.
///
/// The size is looked at first: where it is missing or unreadable, the grains
/// are not looked at.
pub open spec fn arguments(args: Seq<String>, size: Option<usize>, grains: Option<u32>) -> Result<
    (usize, u32, Option<String>, Option<String>),
    ArgsError,
> {
    if args.len() < 2 {
        Err(ArgsError::MissingSize)
    } else if size is None {
        Err(ArgsError::BadSize)
    } else if args.len() < 3 {
        Err(ArgsError::MissingGrains)
    } else if grains is None {
        Err(ArgsError::BadGrains)
    } else {
        Ok(
            (
                size->0,
                grains->0,
                if args.len() > 3 {
                    Some(args[3])
                } else {
                    None
                },
                if args.len() > 4 {
                    Some(args[4])
                } else {
                    None
                },
            ),
        )
    }
}

/// The side of the grid that the second string writes, if there is a second
/// string and it writes one.
pub open spec fn size_asked(args: Seq<String>) -> Option<usize> {
    if args.len() > 1 {
        size_written(args[1]@)
    } else {
        None
    }
}

/// The number of grains that the third string writes, if there is a third
/// string and it writes one.
pub open spec fn grains_asked(args: Seq<String>) -> Option<u32> {
    if args.len() > 2 {
        grains_written(args[2]@)
    } else {
        None
    }
}

/// Puts the arguments together from the strings and from what reading the
/// two numbers gave.
pub fn settle_args(args: Vec<String>, size: Option<usize>, grains: Option<u32>) -> (settled: Result<
    (usize, u32, Option<String>, Option<String>),
    ArgsError,
>)
    ensures
        settled == arguments(args@, size, grains),
{
    if args.len() < 2 {
        return Err(ArgsError::MissingSize);
    }
    let m = match size {
        Some(m) => m,
        None => {
            return Err(ArgsError::BadSize);
        },
    };
    if args.len() < 3 {
        return Err(ArgsError::MissingGrains);
    }
    let number_of_sands = match grains {
        Some(n) => n,
        None => {
            return Err(ArgsError::BadGrains);
        },
    };
    let mirror_option = if args.len() > 3 {
        Some(args[3].clone())
    } else {
        None
    };
    let format_option = if args.len() > 4 {
        Some(args[4].clone())
    } else {
        None
    };
    Ok((m, number_of_sands, mirror_option, format_option))
}

/// Reads the arguments of a run: the side of the grid from the second
/// string, the grains to deposit from the third, and the two optional words
/// for mirroring and for the output from the fourth and the fifth.
pub fn parse_args(args: Vec<String>) -> (parsed: Result<
    (usize, u32, Option<String>, Option<String>),
    ArgsError,
>)
    ensures
        parsed == arguments(args@, size_asked(args@), grains_asked(args@)),
{
    let size = if args.len() > 1 {
        parse_size(args[1].as_str())
    } else {
        None
    };
    let grains = if args.len() > 2 {
        parse_grains(args[2].as_str())
    } else {
        None
    };
    settle_args(args, size, grains)
}

/// The output that the optional last word asks for: `csv`, `html` or `png`
/// for one kind of file, and all three for `all`, for any other word and for
/// none.
pub open spec fn chosen_format(choice: Option<String>) -> OutputFormat {
    match choice {
        Some(word) => if word@ == "csv"@ {
            OutputFormat::Csv
        } else if word@ == "html"@ {
            OutputFormat::Html
        } else if word@ == "png"@ {
            OutputFormat::Png
        } else {
            OutputFormat::All
        },
        None => OutputFormat::All,
    }
}

/// The output that the optional last word asks for.
pub fn output_format(choice: &Option<String>) -> (format: OutputFormat)
    ensures
        format == chosen_format(*choice),
{
    match choice {
        Some(word) => {
            if *word == "csv".to_owned() {
                OutputFormat::Csv
            } else if *word == "html".to_owned() {
                OutputFormat::Html
            } else if *word == "png".to_owned() {
                OutputFormat::Png
            } else {
                OutputFormat::All
            }
        },
        None => OutputFormat::All,
    }
}

} // verus!
