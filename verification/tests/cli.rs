use sandpile::cli::{output_format, parse_args, settle_args, ArgsError, OutputFormat};
use sandpile::palette::{bucket, Bucket};

fn strings(words: &[&str]) -> Vec<String> {
    words.iter().map(|word| word.to_string()).collect()
}

#[test]
fn size_and_grains_are_read() {
    assert_eq!(parse_args(strings(&["program", "200", "1000"])), Ok((200, 1000, None, None)));
}

#[test]
fn the_optional_words_are_handed_on() {
    assert_eq!(
        parse_args(strings(&["program", "8", "64", "mirror"])),
        Ok((8, 64, Some("mirror".to_string()), None))
    );
    assert_eq!(
        parse_args(strings(&["program", "8", "64", "mirror", "png", "more"])),
        Ok((8, 64, Some("mirror".to_string()), Some("png".to_string())))
    );
}

#[test]
fn missing_arguments_are_told_apart() {
    assert_eq!(parse_args(strings(&[])), Err(ArgsError::MissingSize));
    assert_eq!(parse_args(strings(&["program"])), Err(ArgsError::MissingSize));
    assert_eq!(parse_args(strings(&["program", "200"])), Err(ArgsError::MissingGrains));
}

#[test]
fn unreadable_numbers_are_told_apart() {
    assert_eq!(parse_args(strings(&["program", "two", "1000"])), Err(ArgsError::BadSize));
    assert_eq!(parse_args(strings(&["program", "-2", "1000"])), Err(ArgsError::BadSize));
    assert_eq!(parse_args(strings(&["program", "200", "many"])), Err(ArgsError::BadGrains));
    assert_eq!(parse_args(strings(&["program", "200", "4294967296"])), Err(ArgsError::BadGrains));
    assert_eq!(
        parse_args(strings(&["program", "200", "4294967295"])),
        Ok((200, 4294967295, None, None))
    );
}

#[test]
fn an_unreadable_size_comes_before_missing_grains() {
    assert_eq!(parse_args(strings(&["program", "x"])), Err(ArgsError::BadSize));
}

#[test]
fn arguments_are_settled_from_what_was_read() {
    let args = strings(&["program", "ignored", "ignored", "m", "csv"]);
    assert_eq!(
        settle_args(args.clone(), Some(5), Some(6)),
        Ok((5, 6, Some("m".to_string()), Some("csv".to_string())))
    );
    assert_eq!(settle_args(args.clone(), None, Some(6)), Err(ArgsError::BadSize));
    assert_eq!(settle_args(args.clone(), Some(5), None), Err(ArgsError::BadGrains));
    assert_eq!(settle_args(args, None, None), Err(ArgsError::BadSize));
    assert_eq!(settle_args(strings(&["program"]), Some(5), Some(6)), Err(ArgsError::MissingSize));
    assert_eq!(
        settle_args(strings(&["program", "5"]), Some(5), Some(6)),
        Err(ArgsError::MissingGrains)
    );
}

#[test]
fn the_last_word_chooses_the_output() {
    assert_eq!(output_format(&Some("csv".to_string())), OutputFormat::Csv);
    assert_eq!(output_format(&Some("html".to_string())), OutputFormat::Html);
    assert_eq!(output_format(&Some("png".to_string())), OutputFormat::Png);
    assert_eq!(output_format(&Some("all".to_string())), OutputFormat::All);
}

#[test]
fn any_other_word_and_no_word_choose_all() {
    assert_eq!(output_format(&None), OutputFormat::All);
    assert_eq!(output_format(&Some("CSV".to_string())), OutputFormat::All);
    assert_eq!(output_format(&Some("".to_string())), OutputFormat::All);
    assert_eq!(output_format(&Some("tiff".to_string())), OutputFormat::All);
}

#[test]
fn the_four_counts_have_their_colours() {
    assert_eq!(bucket(0), Some(Bucket::Red));
    assert_eq!(bucket(1), Some(Bucket::Green));
    assert_eq!(bucket(2), Some(Bucket::Blue));
    assert_eq!(bucket(3), Some(Bucket::Black));
}

#[test]
fn an_unstable_count_has_no_colour() {
    assert_eq!(bucket(4), None);
    assert_eq!(bucket(u32::MAX), None);
}

#[test]
fn a_plus_and_leading_zeros_are_read() {
    assert_eq!(parse_args(strings(&["program", "+16", "007"])), Ok((16, 7, None, None)));
    assert_eq!(parse_args(strings(&["program", "0", "0"])), Ok((0, 0, None, None)));
}

#[test]
fn signs_alone_blanks_and_other_marks_are_not_read() {
    assert_eq!(parse_args(strings(&["program", "+", "1"])), Err(ArgsError::BadSize));
    assert_eq!(parse_args(strings(&["program", "", "1"])), Err(ArgsError::BadSize));
    assert_eq!(parse_args(strings(&["program", " 5", "1"])), Err(ArgsError::BadSize));
    assert_eq!(parse_args(strings(&["program", "5", "1_000"])), Err(ArgsError::BadGrains));
    assert_eq!(parse_args(strings(&["program", "5", "++1"])), Err(ArgsError::BadGrains));
    assert_eq!(parse_args(strings(&["program", "5", "1.0"])), Err(ArgsError::BadGrains));
}

#[test]
fn the_size_is_read_from_the_second_string() {
    assert_eq!(parse_args(strings(&["program", "3", "9"])), Ok((3, 9, None, None)));
    assert_eq!(parse_args(strings(&["program", "x", "9"])), Err(ArgsError::BadSize));
    assert_eq!(parse_args(strings(&["program", "99999999999999999999999", "9"])), Err(ArgsError::BadSize));
}
