use connect_four::human::Human;

const OUT_OF_RANGE: &str = "Please input a number from 1 to 7";
const NOT_A_NUMBER: &str = "Please input a valid number bigger than 0";

/// What the standard library makes of the line: trimmed, then parsed.
fn by_the_standard_library(line: &str) -> Result<usize, &'static str> {
    match line.trim().parse::<usize>() {
        Ok(x) => {
            if (1..=7).contains(&x) {
                Ok(x - 1)
            } else {
                Err(OUT_OF_RANGE)
            }
        }
        Err(_) => Err(NOT_A_NUMBER),
    }
}

#[test]
fn numbers_one_to_seven_name_the_columns() {
    for (line, col) in [("1", 0), ("2", 1), ("3", 2), ("4", 3), ("5", 4), ("6", 5), ("7", 6)] {
        assert_eq!(Human::column_of(line), Ok(col));
    }
}

#[test]
fn white_space_around_the_number_is_passed_over() {
    assert_eq!(Human::column_of("3\n"), Ok(2));
    assert_eq!(Human::column_of("  7 \r\n"), Ok(6));
    assert_eq!(Human::column_of("\t\u{a0}\u{2003}4\u{3000}\u{85}"), Ok(3));
    assert_eq!(Human::column_of("4 4"), Err(NOT_A_NUMBER));
}

#[test]
fn a_plus_and_leading_zeros_are_accepted() {
    assert_eq!(Human::column_of("+5"), Ok(4));
    assert_eq!(Human::column_of("007"), Ok(6));
    assert_eq!(Human::column_of("+0001\n"), Ok(0));
}

#[test]
fn other_numbers_are_out_of_range() {
    for line in ["0", "8", "10", "000", "+0", "18446744073709551615", " 42\n"] {
        assert_eq!(Human::column_of(line), Err(OUT_OF_RANGE));
    }
}

#[test]
fn what_is_no_number_is_refused() {
    for line in [
        "", "\n", "   ", "+", "-", "-1", "-0", "++1", "+-1", "1+", "3.0", "three", "0x3", "1_0", "٣",
        "３", "1 2", "+ 1", "18446744073709551616", "99999999999999999999999999999", "2a",
    ] {
        assert_eq!(Human::column_of(line), Err(NOT_A_NUMBER));
    }
}

#[test]
fn lines_mean_what_the_standard_library_makes_of_them() {
    let pieces = [
        "", " ", "\n", "\t", "\u{b}", "\u{c}", "\r", "\u{85}", "\u{a0}", "\u{1680}", "\u{2000}",
        "\u{200a}", "\u{200b}", "\u{2028}", "\u{2029}", "\u{202f}", "\u{205f}", "\u{3000}",
        "\u{feff}", "+", "-", "0", "1", "7", "8", "9", "a", ".", "/", ":", "١",
        "18446744073709551615", "18446744073709551616", "1844674407370955161",
    ];
    for a in pieces {
        for b in pieces {
            for c in pieces {
                let line = format!("{a}{b}{c}");
                assert_eq!(Human::column_of(&line), by_the_standard_library(&line));
            }
        }
    }
}

#[test]
fn number_in_reads_a_part_of_the_text() {
    assert_eq!(Human::number_in("ab+12cd", 2, 5), Some(12));
    assert_eq!(Human::number_in("ab+12cd", 3, 5), Some(12));
    assert_eq!(Human::number_in("ab+12cd", 2, 6), None);
    assert_eq!(Human::number_in("ab+12cd", 2, 3), None);
    assert_eq!(Human::number_in("ab+12cd", 4, 4), None);
    assert_eq!(Human::number_in("é7", 1, 2), Some(7));
    assert_eq!(
        Human::number_in("18446744073709551615", 0, 20),
        Some(usize::MAX)
    );
    assert_eq!(Human::number_in("18446744073709551616", 0, 20), None);
}

#[test]
fn column_for_tells_the_refusals_apart() {
    assert_eq!(Human::column_for(Some(1)), Ok(0));
    assert_eq!(Human::column_for(Some(7)), Ok(6));
    assert_eq!(Human::column_for(Some(0)), Err(OUT_OF_RANGE));
    assert_eq!(Human::column_for(Some(8)), Err(OUT_OF_RANGE));
    assert_eq!(Human::column_for(Some(usize::MAX)), Err(OUT_OF_RANGE));
    assert_eq!(Human::column_for(None), Err(NOT_A_NUMBER));
}
