use sparql_data_preparation::text::{
    begins_with, chars_of, clone_texts, holds_text, parse_count, render_qualified, space_out,
    split_at_each, strip_ends, trim, unwrap_text, Strip,
};

#[test]
fn split_cuts_at_each_separator() {
    assert_eq!(split_at_each("a\tb\tc", '\t'), vec!["a", "b", "c"]);
    assert_eq!(split_at_each("a\tb\t", '\t'), vec!["a", "b"]);
    assert_eq!(split_at_each("a\t\t", '\t'), vec!["a", ""]);
    assert_eq!(split_at_each("\ta", '\t'), vec!["", "a"]);
    assert_eq!(split_at_each("\t", '\t'), vec![""]);
    assert_eq!(split_at_each("", '\t'), Vec::<&str>::new());
    assert_eq!(split_at_each("abc", '\t'), vec!["abc"]);
    assert_eq!(split_at_each("é;ü;", ';'), vec!["é", "ü"]);
}

#[test]
fn split_agrees_with_std() {
    for s in ["", ";", ";;", "a;", ";a", "a;;b", "a;b;c;", "ab;cd", ";;a;;"] {
        assert_eq!(split_at_each(s, ';'), s.split_terminator(';').collect::<Vec<_>>());
    }
}

#[test]
fn trim_strips_white_space() {
    assert_eq!(trim("  a b \t\n"), "a b");
    assert_eq!(trim("\u{a0}x\u{2003}"), "x");
    assert_eq!(trim("   "), "");
    assert_eq!(trim(""), "");
    assert_eq!(trim("x"), "x");
}

#[test]
fn unwrap_strips_every_mark() {
    assert_eq!(unwrap_text("<<http://x>>", '<', '>'), "http://x");
    assert_eq!(unwrap_text("http://x>", '<', '>'), "http://x");
    assert_eq!(unwrap_text("\"a; b\"", '"', '"'), "a; b");
    assert_eq!(unwrap_text("\"\"", '"', '"'), "");
    assert_eq!(unwrap_text(">a<", '<', '>'), ">a<");
    assert_eq!(strip_ends("xxayy", Strip::Char('x'), Strip::Char('y')), "a");
    assert_eq!(strip_ends(" a ", Strip::Whitespace, Strip::Char('y')), "a ");
}

#[test]
fn counts_are_read_as_std_reads_them() {
    assert_eq!(parse_count("0"), Some(0));
    assert_eq!(parse_count("120"), Some(120));
    assert_eq!(parse_count("+7"), Some(7));
    assert_eq!(parse_count("007"), Some(7));
    assert_eq!(parse_count(""), None);
    assert_eq!(parse_count("+"), None);
    assert_eq!(parse_count("-1"), None);
    assert_eq!(parse_count("1 "), None);
    assert_eq!(parse_count("1.5"), None);
    assert_eq!(parse_count("++1"), None);
    assert_eq!(parse_count("١٢"), None);
    let max = usize::MAX.to_string();
    assert_eq!(parse_count(&max), Some(usize::MAX));
    let too_large = format!("{}0", max);
    assert_eq!(parse_count(&too_large), None);
    for s in ["18446744073709551616", "4294967296", "99999999999999999999999"] {
        assert_eq!(parse_count(s), s.parse::<usize>().ok());
    }
}

#[test]
fn underscores_become_spaces() {
    assert_eq!(space_out("deceased_person", '_'), "deceased person");
    assert_eq!(space_out("__a_", '_'), "  a ");
    assert_eq!(space_out("", '_'), "");
    assert_eq!(space_out("abc", '_'), "abc");
}

#[test]
fn prefix_is_recognised() {
    assert!(begins_with("ontology/birthPlace", "ontology"));
    assert!(begins_with("ontology", "ontology"));
    assert!(!begins_with("ontolog", "ontology"));
    assert!(!begins_with("property/ontology", "ontology"));
    assert!(begins_with("abc", ""));
}

#[test]
fn qualifier_stands_in_parentheses() {
    assert_eq!(render_qualified("Apple", "fruit"), "Apple (fruit)");
    assert_eq!(render_qualified("", ""), " ()");
}

#[test]
fn small_helpers() {
    assert_eq!(chars_of("aé"), vec!['a', 'é']);
    let items = vec!["a".to_string(), "b".to_string()];
    assert!(holds_text(&items, "b"));
    assert!(!holds_text(&items, "c"));
    assert_eq!(clone_texts(&items), items);
}

#[test]
fn pieces_joined_give_the_text_back() {
    for s in ["a;b;;c", ";", "", "abc", ";a;"] {
        let pieces = split_at_each(s, ';');
        let joined = pieces.join(";");
        let expected = s.strip_suffix(';').unwrap_or(s);
        assert_eq!(joined, expected);
        assert!(pieces.iter().all(|p| !p.contains(';')));
    }
}
