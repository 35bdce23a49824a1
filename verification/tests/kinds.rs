use std::cmp::Ordering;
use sparql_data_preparation::error::{Fault, Problem};
use sparql_data_preparation::index::Assignment;
use sparql_data_preparation::info::{locate_ids, resolve_records, EntityInfo, PropInfo};
use sparql_data_preparation::kinds::{Ent, KnowledgeGraph, Prop};
use sparql_data_preparation::qualifiers::{qualifiers, wikidata_qualifiers};

fn strings(items: &[&str]) -> Vec<String> {
    items.iter().map(|s| s.to_string()).collect()
}

fn info(label: &str, desc: &str, types: &[&str], count: usize) -> EntityInfo {
    EntityInfo {
        label: label.to_string(),
        desc: desc.to_string(),
        aliases: vec![],
        types: strings(types),
        count,
        redirects: None,
    }
}

#[test]
fn ent_gives_its_identifier() {
    assert_eq!(Ent::Label("Q1").as_str(), "Q1");
    assert_eq!(Ent::LabelInfo("Q2").as_str(), "Q2");
    assert_eq!(Ent::Alias("Q3").as_str(), "Q3");
    assert_eq!(Ent::AliasInfo("Q4").as_str(), "Q4");
    assert_eq!(Ent::tagged("Q5", Assignment::Alias), Ent::Alias("Q5"));
    assert_eq!(Ent::AliasInfo("Q4").kind(), Assignment::AliasQualified);
}

#[test]
fn ent_is_ordered_by_its_tag() {
    let all = [Ent::Label("z"), Ent::LabelInfo("y"), Ent::Alias("x"), Ent::AliasInfo("w")];
    for (i, a) in all.iter().enumerate() {
        for (j, b) in all.iter().enumerate() {
            assert_eq!(a.cmp(b), i.cmp(&j));
        }
    }
    assert_eq!(Ent::Label("a").cmp(&Ent::Label("b")), Ordering::Equal);
    assert_eq!(Assignment::OwnLabel.rank(), 0);
    assert_eq!(Assignment::AliasQualified.rank(), 3);
}

#[test]
fn prop_gives_its_identifier_and_order() {
    assert_eq!(Prop::Label("P1").as_str(), "P1");
    assert_eq!(Prop::Alias("P2").as_str(), "P2");
    assert_eq!(Prop::Label("b").cmp(&Prop::Alias("a")), Ordering::Less);
    assert_eq!(Prop::Alias("a").cmp(&Prop::Label("b")), Ordering::Greater);
    assert_eq!(Prop::Alias("a").cmp(&Prop::Alias("b")), Ordering::Equal);
    assert_eq!(Prop::Label("a").cmp(&Prop::Label("b")), Ordering::Equal);
}

#[test]
fn knowledge_base_by_name() {
    assert_eq!(KnowledgeGraph::try_from("wikidata").unwrap(), KnowledgeGraph::Wikidata);
    assert_eq!(KnowledgeGraph::try_from("freebase").unwrap(), KnowledgeGraph::Freebase);
    assert_eq!(KnowledgeGraph::try_from("dbpedia").unwrap(), KnowledgeGraph::DBPedia);
    let fault = KnowledgeGraph::try_from("Wikidata").unwrap_err();
    assert_eq!(fault.problem, Problem::InvalidKnowledgeBase);
    assert_eq!(fault.text, "Wikidata");
    assert_eq!(fault.message(), "invalid knowledge base Wikidata");
}

#[test]
fn fault_in_words() {
    assert_eq!(Fault::new(Problem::InvalidEntityLine, "x\ty").message(), "invalid entity line: x\ty");
    assert_eq!(Fault::new(Problem::LabelNotCaptured, "x").message(), "failed to capture label in x");
    assert_eq!(Fault::new(Problem::InvalidFreebaseProperty, "x").message(), "invalid freebase property: x");
    assert_eq!(Fault::new(Problem::PropertyNotCaptured, "x").message(), "failed to capture property in x");
    assert_eq!(Fault::new(Problem::EntityNotCaptured, "x").message(), "failed to capture entity in x");
    assert_eq!(Fault::new(Problem::InvalidDbpediaProperty, "x").message(), "invalid dbpedia property: x");
}

#[test]
fn wikidata_qualifiers_of_a_label() {
    let expected: Vec<(String, String)> = [
        ("member of (statement)", "p"),
        ("member of (qualifier)", "pq"),
        ("member of (normalized qualifier)", "pqn"),
        ("member of (value)", "ps"),
        ("member of (normalized value)", "psn"),
    ]
    .iter()
    .map(|(a, b)| (a.to_string(), b.to_string()))
    .collect();
    assert_eq!(wikidata_qualifiers("member of"), expected);
}

#[test]
fn plain_qualifiers_of_a_label() {
    let expected: Vec<(String, String)> =
        [("x (statement)", "p"), ("x (qualifier)", "pq"), ("x (value)", "ps")]
            .iter()
            .map(|(a, b)| (a.to_string(), b.to_string()))
            .collect();
    assert_eq!(qualifiers("x"), expected);
}

#[test]
fn info_is_the_last_type_or_the_description() {
    assert_eq!(info("Berlin", "capital of Germany", &["city", "capital"], 1).info(), "capital");
    assert_eq!(info("Berlin", "capital of Germany", &[], 1).info(), "capital of Germany");
    assert_eq!(info("Berlin", "", &[], 1).info(), "");
}

#[test]
fn qualifier_is_the_label_of_the_most_frequent_type() {
    let ids = strings(&["Q1", "Q2", "Q3", "Q4", "Q5"]);
    let infos = vec![
        info("Berlin", "capital of Germany", &["Q2", "Q9", "Q3"], 10),
        info("city", "", &[], 50),
        info("capital", "", &[], 20),
        info("Bonn", "former capital", &["Q9"], 5),
        info("Hamburg", "port", &["Q3", "Q5", "Q3"], 5),
    ];
    let records = resolve_records(&ids, &infos).unwrap();
    assert_eq!(records.len(), 5);
    assert_eq!(records[0].id, "Q1");
    assert_eq!(records[0].label, "Berlin");
    assert_eq!(records[0].qualifier, "city");
    assert_eq!(records[0].frequency, 10);
    assert_eq!(records[1].qualifier, "");
    assert_eq!(records[3].qualifier, "former capital");
    assert_eq!(records[4].qualifier, "capital");
}

#[test]
fn among_types_of_one_frequency_the_last_counts() {
    let ids = strings(&["Q1", "Q2", "Q3"]);
    let infos = vec![
        info("x", "d", &["Q2", "Q3"], 1),
        info("first", "", &[], 7),
        info("second", "", &[], 7),
    ];
    let records = resolve_records(&ids, &infos).unwrap();
    assert_eq!(records[0].qualifier, "second");
}

#[test]
fn repeated_identifier_is_a_fault() {
    let ids = strings(&["Q1", "Q2", "Q3", "Q2", "Q1"]);
    let infos = vec![
        info("a", "", &[], 1),
        info("b", "", &[], 1),
        info("c", "", &[], 1),
        info("d", "", &[], 1),
        info("e", "", &[], 1),
    ];
    let fault = resolve_records(&ids, &infos).unwrap_err();
    assert_eq!(fault.problem, Problem::DuplicateId);
    assert_eq!(fault.text, "Q2");
    assert_eq!(fault.message(), "entities should be unique: Q2");
    assert!(locate_ids(&ids).is_err());
    assert!(locate_ids(&strings(&["Q1", "Q2"])).is_ok());
}

#[test]
fn property_becomes_a_record() {
    let prop = PropInfo {
        label: "member of".to_string(),
        aliases: strings(&["belongs to"]),
        inverses: strings(&["P2"]),
        count: 4,
    };
    let record = prop.to_record("P1");
    assert_eq!(record.id, "P1");
    assert_eq!(record.label, "member of");
    assert_eq!(record.qualifier, "");
    assert_eq!(record.aliases, strings(&["belongs to"]));
    assert_eq!(record.frequency, 4);
    assert_eq!(record.redirects, None);
}
