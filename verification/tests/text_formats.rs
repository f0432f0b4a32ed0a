use sprd::gz::{gzip_data, GzReadError};
use sprd::rapid::parsing::{
    parse_repos_from_file, parse_repos_from_str, read_rapid_from_file, read_rapid_from_str,
    FormatError,
};
use sprd::rapid::types::{Repo, Sdp};
use sprd::text::{chars_of, find_from, split_fields, split_lines};

fn repo_entry(name: &str, url: &str) -> Repo {
    Repo { name: name.to_owned(), url: url.to_owned() }
}

fn sdp_entry(rapid_name: &str, md5: &str, depends: &str, archive_name: &str) -> Sdp {
    Sdp {
        rapid_name: rapid_name.to_owned(),
        md5: md5.to_owned(),
        depends: depends.to_owned(),
        archive_name: archive_name.to_owned(),
    }
}

fn as_strings(lines: Vec<Vec<char>>) -> Vec<String> {
    lines.into_iter().map(|l| l.into_iter().collect()).collect()
}

#[test]
fn chars_are_read_in_order() {
    assert_eq!(chars_of("aüb"), vec!['a', 'ü', 'b']);
    assert_eq!(chars_of(""), Vec::<char>::new());
}

#[test]
fn find_from_gives_the_first_place_or_the_length() {
    let text = chars_of("a,b,,c");
    assert_eq!(find_from(&text, 0, ','), 1);
    assert_eq!(find_from(&text, 1, ','), 1);
    assert_eq!(find_from(&text, 2, ','), 3);
    assert_eq!(find_from(&text, 5, ','), 6);
    assert_eq!(find_from(&text, 6, ','), 6);
    assert_eq!(find_from(&text, 0, ';'), 6);
}

#[test]
fn fields_are_cut_at_every_comma() {
    assert_eq!(split_fields(&chars_of("a,b,,c"), ','), vec!["a", "b", "", "c"]);
    assert_eq!(split_fields(&chars_of(""), ','), vec![""]);
    assert_eq!(split_fields(&chars_of(","), ','), vec!["", ""]);
    assert_eq!(split_fields(&chars_of("abc"), ','), vec!["abc"]);
    assert_eq!(split_fields(&chars_of("abc,"), ','), vec!["abc", ""]);
}

#[test]
fn lines_end_with_lf_or_crlf() {
    assert_eq!(as_strings(split_lines(&chars_of("a\nb\r\nc"))), vec!["a", "b", "c"]);
    assert_eq!(as_strings(split_lines(&chars_of("a\nb\n"))), vec!["a", "b"]);
    assert_eq!(as_strings(split_lines(&chars_of("a\n\nb"))), vec!["a", "", "b"]);
    assert_eq!(as_strings(split_lines(&chars_of(""))), Vec::<String>::new());
    assert_eq!(as_strings(split_lines(&chars_of("\n"))), vec![""]);
    assert_eq!(as_strings(split_lines(&chars_of("a\r"))), vec!["a\r"]);
    assert_eq!(as_strings(split_lines(&chars_of("a\rb\n"))), vec!["a\rb"]);
    assert_eq!(as_strings(split_lines(&chars_of("\r\n"))), vec![""]);
}

#[test]
fn lines_agree_with_std() {
    for text in ["", "\n", "a", "a\n", "a\r\n", "a\r", "\r", "\r\r\n", "x\n\ny\r\n\r\nz", "ü\nö"] {
        let expected: Vec<String> = text.lines().map(|l| l.to_owned()).collect();
        assert_eq!(as_strings(split_lines(&chars_of(text))), expected, "{:?}", text);
    }
}

#[test]
fn registry_lists_name_and_url() {
    let text = "byar,https://repos.springrts.com/byar,,Beyond All Reason\nsbc,https://repos.springrts.com/sbc\n";
    assert_eq!(
        parse_repos_from_str(text),
        Ok(vec![
            repo_entry("byar", "https://repos.springrts.com/byar"),
            repo_entry("sbc", "https://repos.springrts.com/sbc"),
        ])
    );
    assert_eq!(parse_repos_from_str(""), Ok(vec![]));
}

#[test]
fn registry_line_with_one_field_is_malformed() {
    assert_eq!(parse_repos_from_str("byar\n"), Err(FormatError::MalformedLine));
    assert_eq!(parse_repos_from_str("a,b\n\nc,d\n"), Err(FormatError::MalformedLine));
    assert_eq!(parse_repos_from_str("a,b\nc"), Err(FormatError::MalformedLine));
}

#[test]
fn registry_file_is_gzip_text() {
    let file = gzip_data(b"sbc,https://repos.springrts.com/sbc\n").unwrap();
    assert_eq!(
        parse_repos_from_file(&file),
        Ok(vec![repo_entry("sbc", "https://repos.springrts.com/sbc")])
    );
    assert_eq!(parse_repos_from_file(b"sbc,url\n"), Err(FormatError::Unreadable));
    let not_text = gzip_data(&[0xc3, 0x28]).unwrap();
    assert_eq!(parse_repos_from_file(&not_text), Err(FormatError::Unreadable));
    let malformed = gzip_data(b"sbc\n").unwrap();
    assert_eq!(parse_repos_from_file(&malformed), Err(FormatError::MalformedLine));
}

#[test]
fn version_list_has_four_fields_a_line() {
    let text = "sbc:test,d80d786597510d1358be3b04a7e9146e,,SpringBoard Core 0.5.2\r\nsbc:old,0123,sbc:base,Old\n";
    assert_eq!(
        read_rapid_from_str(text),
        Ok(vec![
            sdp_entry("sbc:test", "d80d786597510d1358be3b04a7e9146e", "", "SpringBoard Core 0.5.2"),
            sdp_entry("sbc:old", "0123", "sbc:base", "Old"),
        ])
    );
}

#[test]
fn version_list_passes_over_lines_with_a_wrong_field_count() {
    let text = "a,b,c\nn,h,d,a\n\nx,y,z,w,v\nn2,h2,d2,a2";
    assert_eq!(
        read_rapid_from_str(text),
        Ok(vec![sdp_entry("n", "h", "d", "a"), sdp_entry("n2", "h2", "d2", "a2")])
    );
    assert_eq!(read_rapid_from_str(""), Ok(vec![]));
    assert_eq!(read_rapid_from_str("just one field"), Ok(vec![]));
}

#[test]
fn version_file_is_gzip_text() {
    let file = gzip_data(b"n,h,d,a\n").unwrap();
    assert_eq!(read_rapid_from_file(&file), Ok(vec![sdp_entry("n", "h", "d", "a")]));
    assert_eq!(read_rapid_from_file(b"n,h,d,a\n"), Err(GzReadError {}));
}
