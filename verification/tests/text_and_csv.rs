use no_eagles::csv::{parse_csv_lines, parse_record, CsvError};
use no_eagles::text::{
    chars_of, contains_chars, contains_string, lowercase_chars, split_str, str_equals, trimmed,
};

fn strings(items: &[&str]) -> Vec<String> {
    items.iter().map(|s| s.to_string()).collect()
}

#[test]
fn trimmed_removes_ascii_white_space() {
    assert_eq!(trimmed("  a b \t\n"), "a b");
    assert_eq!(trimmed("abc"), "abc");
    assert_eq!(trimmed(""), "");
    assert_eq!(trimmed(" \t "), "");
}

#[test]
fn trimmed_removes_unicode_white_space() {
    assert_eq!(trimmed("\u{3000}x\u{00A0}"), "x");
    assert_eq!(trimmed("\u{2009}y z\u{85}"), "y z");
}

#[test]
fn trimmed_agrees_with_std_on_every_white_space_char() {
    let spaces = [
        '\u{9}', '\u{a}', '\u{b}', '\u{c}', '\u{d}', ' ', '\u{85}', '\u{a0}', '\u{1680}',
        '\u{2000}', '\u{2001}', '\u{2002}', '\u{2003}', '\u{2004}', '\u{2005}', '\u{2006}',
        '\u{2007}', '\u{2008}', '\u{2009}', '\u{200a}', '\u{2028}', '\u{2029}', '\u{202f}',
        '\u{205f}', '\u{3000}',
    ];
    for c in spaces {
        assert!(c.is_whitespace());
        let s = format!("{}k{}", c, c);
        assert_eq!(trimmed(&s), "k");
    }
    assert!(!'\u{200b}'.is_whitespace());
    assert_eq!(trimmed("\u{200b}k"), "\u{200b}k");
}

#[test]
fn split_keeps_empty_pieces() {
    assert_eq!(split_str("a,,b", ','), strings(&["a", "", "b"]));
    assert_eq!(split_str("", ','), strings(&[""]));
    assert_eq!(split_str(",", ','), strings(&["", ""]));
    assert_eq!(split_str("abc", ','), strings(&["abc"]));
    assert_eq!(split_str("é,ü", ','), strings(&["é", "ü"]));
}

#[test]
fn split_agrees_with_std() {
    for s in ["x,y,z", ",lead", "trail,", "a,,,b", "no separator", "ñ,日本,"] {
        let expected: Vec<String> = s.split(',').map(|p| p.to_string()).collect();
        assert_eq!(split_str(s, ','), expected);
    }
}

#[test]
fn contains_finds_substrings() {
    let hay = chars_of("bloemhof 1 jo.csv");
    assert!(contains_chars(&hay, &chars_of("hof")));
    assert!(contains_chars(&hay, &chars_of("")));
    assert!(contains_chars(&hay, &chars_of("bloemhof 1 jo.csv")));
    assert!(!contains_chars(&hay, &chars_of("xyz")));
    assert!(!contains_chars(&hay, &chars_of("bloemhof 1 jo.csv!")));
    assert!(!contains_chars(&chars_of(""), &chars_of("a")));
}

#[test]
fn lowercase_maps_each_character() {
    assert_eq!(lowercase_chars("ÄBC"), vec!['ä', 'b', 'c']);
    assert_eq!(lowercase_chars("Race.CSV"), chars_of("race.csv"));
    assert_eq!(lowercase_chars(""), Vec::<char>::new());
}

#[test]
fn string_equality_and_membership() {
    assert!(str_equals("ArrowUp", "ArrowUp"));
    assert!(!str_equals("ArrowUp", "ArrowUP"));
    assert!(!str_equals("ArrowUp", "Arrow"));
    let v = strings(&["a.csv", "b.csv"]);
    assert!(contains_string(&v, &"b.csv".to_string()));
    assert!(!contains_string(&v, &"c.csv".to_string()));
}

#[test]
fn csv_without_lines_is_empty_error() {
    let r = parse_csv_lines(&Vec::new());
    assert_eq!(r, Err(CsvError::Empty));
    assert_eq!(CsvError::Empty.message(), "CSV file is empty");
}

#[test]
fn csv_header_only_has_no_records() {
    let r = parse_csv_lines(&strings(&["name,time"]));
    assert_eq!(r, Ok(Vec::new()));
}

#[test]
fn csv_records_are_split_and_trimmed() {
    let lines = strings(&["name, time", "  Ann , 12:01 ,3 ", "Bob,,", "", "solo"]);
    let r = parse_csv_lines(&lines).unwrap();
    assert_eq!(r.len(), 4);
    assert_eq!(r[0], strings(&["Ann", "12:01", "3"]));
    assert_eq!(r[1], strings(&["Bob", "", ""]));
    assert_eq!(r[2], strings(&[""]));
    assert_eq!(r[3], strings(&["solo"]));
}

#[test]
fn record_field_count_is_commas_plus_one() {
    for line in [" a , b ,c ", "x", "", ",,", "\t1,2\t"] {
        let fields = parse_record(line);
        let commas = line.trim().chars().filter(|c| *c == ',').count();
        assert_eq!(fields.len(), commas + 1);
        for f in &fields {
            assert_eq!(f.trim(), f.as_str());
        }
    }
}

#[test]
fn trimming_twice_is_trimming_once() {
    for s in ["  a ", "\u{3000}\u{3000}", "b", "", " c d \n"] {
        let once = trimmed(s);
        assert_eq!(trimmed(&once), once);
        assert_eq!(once, s.trim());
    }
}
