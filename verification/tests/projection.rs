use sparql_data_preparation::builder::build_index;
use sparql_data_preparation::output::{format_row, id_number, qualifier_rows};
use sparql_data_preparation::projection::{
    all_row_parts, assemble_row, order_by_distance, row_parts, RowParts,
};
use sparql_data_preparation::record::{Config, Record};

fn record(id: &str, label: &str, qualifier: &str, aliases: &[&str], frequency: usize) -> Record {
    Record {
        id: id.to_string(),
        label: label.to_string(),
        qualifier: qualifier.to_string(),
        aliases: aliases.iter().map(|a| a.to_string()).collect(),
        frequency,
        redirects: None,
    }
}

fn config(keep: bool) -> Config {
    Config {
        ignore_types: false,
        keep_most_common_non_unique: keep,
        check_for_popular_aliases: false,
        no_aliases: false,
        full_ids: false,
        short_properties: false,
    }
}

fn strings(items: &[&str]) -> Vec<String> {
    items.iter().map(|s| s.to_string()).collect()
}

#[test]
fn row_begins_with_the_own_label() {
    let records = vec![
        record("Q1", "New York", "city", &["NYC", "Big Apple", "New York City"], 10),
        record("Q2", "NYC", "", &["New York"], 2),
    ];
    let (index, _) = build_index(&records, &config(false));
    let parts = row_parts(&index, &records, 0);
    assert_eq!(parts.canonical, "New York");
    assert_eq!(parts.own, Some("New York".to_string()));
    assert_eq!(parts.aliases, strings(&["Big Apple", "New York City"]));
    assert_eq!(parts.qualified_aliases, strings(&["NYC (city)"]));
    assert!(parts.has_row());
    let row = assemble_row(&parts, &vec![8, 5], &vec![7]);
    assert_eq!(row, strings(&["New York", "New York City", "Big Apple", "NYC (city)"]));
    let other = row_parts(&index, &records, 1);
    assert_eq!(other.own, Some("NYC".to_string()));
    assert_eq!(other.aliases, Vec::<String>::new());
    assert_eq!(assemble_row(&other, &vec![], &vec![]), strings(&["NYC"]));
}

#[test]
fn qualified_own_label_is_rendered_with_parentheses() {
    let records = vec![
        record("Q1", "Apple", "fruit", &["Malus"], 10),
        record("Q2", "Apple", "company", &[], 90),
    ];
    let (index, _) = build_index(&records, &config(true));
    let parts = row_parts(&index, &records, 0);
    assert_eq!(parts.canonical, "Apple (fruit)");
    assert_eq!(parts.own, Some("Apple (fruit)".to_string()));
    assert_eq!(assemble_row(&parts, &vec![9], &vec![]), strings(&["Apple (fruit)", "Malus"]));
}

#[test]
fn canonical_label_without_own_key() {
    let records = vec![
        record("Q1", "Smith", "", &["Smithy"], 1),
        record("Q2", "Smith", "surname", &["Smyth"], 2),
        record("Q3", "Smith", "surname", &[], 3),
        record("Q4", "Smith", "", &[], 3),
    ];
    let (index, _) = build_index(&records, &config(false));
    let first = row_parts(&index, &records, 0);
    assert_eq!(first.own, None);
    assert_eq!(first.canonical, "Smith");
    assert_eq!(first.aliases, strings(&["Smithy"]));
    let second = row_parts(&index, &records, 1);
    assert_eq!(second.canonical, "Smith");
    let third = row_parts(&index, &records, 2);
    assert_eq!(third.canonical, "Smith (surname)");
    assert!(!third.has_row());
    let fourth = row_parts(&index, &records, 3);
    assert_eq!(fourth.canonical, "Smith");
    assert!(!fourth.has_row());
}

#[test]
fn forms_at_one_distance_keep_their_order() {
    let forms = strings(&["d", "a", "c", "b", "e"]);
    assert_eq!(order_by_distance(&forms, &vec![2, 0, 2, 1, 0]), strings(&["a", "e", "b", "d", "c"]));
    assert_eq!(order_by_distance(&Vec::new(), &Vec::new()), Vec::<String>::new());
}

#[test]
fn row_without_own_label_lists_aliases_then_qualified_aliases() {
    let parts = RowParts {
        canonical: "x".to_string(),
        own: None,
        aliases: strings(&["far", "near"]),
        qualified_aliases: strings(&["b (q)", "a (q)"]),
    };
    assert_eq!(
        assemble_row(&parts, &vec![3, 1], &vec![2, 2]),
        strings(&["near", "far", "b (q)", "a (q)"])
    );
}

#[test]
fn row_is_written_with_tabs() {
    assert_eq!(format_row("wd:Q1", &strings(&["New York", "NYC", "Big Apple"])), "wd:Q1\tNew York\tNYC\tBig Apple");
    assert_eq!(format_row("wd:Q1", &strings(&["New York"])), "wd:Q1\tNew York");
    assert_eq!(format_row("wd:Q1", &Vec::new()), "wd:Q1\t");
}

#[test]
fn number_of_an_identifier() {
    assert_eq!(id_number("Q42"), Some(42));
    assert_eq!(id_number("P0031"), Some(31));
    assert_eq!(id_number("Q"), None);
    assert_eq!(id_number(""), None);
    assert_eq!(id_number("Qx1"), None);
}

#[test]
fn qualifier_rows_group_forms_by_prefix() {
    let rows = qualifier_rows(&strings(&["instance of", "is a"]));
    assert_eq!(
        rows,
        vec![
            ("p".to_string(), strings(&["instance of (statement)", "is a (statement)"])),
            ("pq".to_string(), strings(&["instance of (qualifier)", "is a (qualifier)"])),
            (
                "pqn".to_string(),
                strings(&["instance of (normalized qualifier)", "is a (normalized qualifier)"])
            ),
            ("ps".to_string(), strings(&["instance of (value)", "is a (value)"])),
            ("psn".to_string(), strings(&["instance of (normalized value)", "is a (normalized value)"])),
        ]
    );
}

#[test]
fn all_rows_in_one_pass_agree_with_each_row() {
    let records = vec![
        record("Q1", "New York", "city", &["NYC", "Big Apple", "New York City"], 10),
        record("Q2", "NYC", "", &["New York"], 2),
        record("Q3", "York", "city", &["Eboracum", "NYC"], 1),
        record("Q4", "York", "", &[], 1),
    ];
    let (index, _) = build_index(&records, &config(false));
    let all = all_row_parts(&index, &records);
    assert_eq!(all.len(), records.len());
    for (p, parts) in all.iter().enumerate() {
        let single = row_parts(&index, &records, p);
        assert_eq!(parts.canonical, single.canonical);
        assert_eq!(parts.own, single.own);
        assert_eq!(parts.aliases, single.aliases);
        assert_eq!(parts.qualified_aliases, single.qualified_aliases);
    }
    assert_eq!(all[2].own, Some("York (city)".to_string()));
    assert_eq!(all[2].aliases, strings(&["Eboracum"]));
    assert_eq!(all[2].qualified_aliases, Vec::<String>::new());
    assert_eq!(all[0].qualified_aliases, strings(&["NYC (city)"]));
    assert!(!all[3].has_row());
}
