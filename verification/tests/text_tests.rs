use duckdns_updater::domains::{join_strings, parse_domain_list};
use duckdns_updater::numbers::{decimal2_text, decimal_text, parse_u32_text};
use duckdns_updater::text::{is_whitespace, text_contains, trim_text};

fn strings(v: &[&str]) -> Vec<String> {
    v.iter().map(|s| s.to_string()).collect()
}

#[test]
fn trim_matches_std_trim() {
    let samples = [
        "",
        "   ",
        "abc",
        "  abc  ",
        "\t\n a b \r\n",
        "\u{3000}meu-servidor\u{85}",
        "\u{a0}\u{2009}x\u{202f}",
        "a\u{200b}",
        "\u{1680}\u{2028}\u{2029}\u{205f}",
    ];
    for s in samples.iter() {
        assert_eq!(trim_text(s), s.trim(), "sample {:?}", s);
    }
}

#[test]
fn whitespace_matches_std() {
    for u in 0u32..0x3100 {
        if let Some(c) = char::from_u32(u) {
            assert_eq!(is_whitespace(c), c.is_whitespace(), "char {:#x}", u);
        }
    }
}

#[test]
fn domain_list_is_split_trimmed_and_filtered() {
    assert_eq!(parse_domain_list(" a , b,,  c "), strings(&["a", "b", "c"]));
    assert_eq!(parse_domain_list("meu-servidor, outro-dominio"), strings(&["meu-servidor", "outro-dominio"]));
    assert_eq!(parse_domain_list(""), Vec::<String>::new());
    assert_eq!(parse_domain_list(" , ,"), Vec::<String>::new());
    assert_eq!(parse_domain_list("solo"), strings(&["solo"]));
}

#[test]
fn domain_list_agrees_with_std_split() {
    let samples = ["x,y", ",x,", " a b , c", "\tq\t,\nr\n", "", ",,,", "a,,b, ,c"];
    for s in samples.iter() {
        let expected: Vec<String> = s
            .split(',')
            .map(|p| p.trim().to_string())
            .filter(|p| !p.is_empty())
            .collect();
        assert_eq!(parse_domain_list(s), expected, "sample {:?}", s);
    }
}

#[test]
fn joined_domain_list_reads_back_the_same() {
    for s in [" a , b,,  c ", "", "x", " , y ,"].iter() {
        let ds = parse_domain_list(s);
        let joined = join_strings(&ds, ",");
        assert_eq!(parse_domain_list(&joined), ds);
    }
}

#[test]
fn any_trimmed_comma_free_list_reads_back() {
    let lists: [&[&str]; 4] = [&["meu-servidor"], &["a", "b c", "d-e"], &[], &["x.y", "z"]];
    for names in lists.iter() {
        let ds = strings(names);
        let joined = join_strings(&ds, ",");
        assert_eq!(parse_domain_list(&joined), ds);
    }
}

#[test]
fn join_places_separator_between_parts() {
    assert_eq!(join_strings(&strings(&["a", "b", "c"]), ","), "a,b,c");
    assert_eq!(join_strings(&strings(&["a"]), ", "), "a");
    assert_eq!(join_strings(&Vec::new(), ","), "");
}

#[test]
fn contains_finds_substrings() {
    assert!(text_contains("Falha: x", "Falha"));
    assert!(text_contains("abc", ""));
    assert!(!text_contains("ab", "abc"));
    assert!(text_contains("xxOK", "OK"));
    assert!(!text_contains("O K", "OK"));
}

#[test]
fn decimal_text_matches_to_string() {
    for n in [0u64, 1, 9, 10, 42, 1234, 4294967295, u64::MAX].iter() {
        assert_eq!(decimal_text(*n), n.to_string());
    }
    assert_eq!(decimal2_text(5), "05");
    assert_eq!(decimal2_text(0), "00");
    assert_eq!(decimal2_text(59), "59");
    assert_eq!(decimal2_text(123), "123");
}

#[test]
fn parse_u32_matches_std() {
    let samples = [
        "", "+", "-", "0", "+12", "-1", "-0", "007", "4294967295", "4294967296", " 1", "1 ",
        "12a", "99999999999999999999", "30",
    ];
    for s in samples.iter() {
        assert_eq!(parse_u32_text(s), s.parse::<u32>().ok(), "sample {:?}", s);
    }
}

#[test]
fn interval_text_reads_back() {
    for n in [0u32, 1, 30, 1440, u32::MAX].iter() {
        assert_eq!(parse_u32_text(&decimal_text(*n as u64)), Some(*n));
    }
}
