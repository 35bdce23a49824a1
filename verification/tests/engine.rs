use sparql_data_preparation::aliases::{backfill_aliases, backfill_one};
use sparql_data_preparation::builder::{build_index, count_covered};
use sparql_data_preparation::index::{Assignment, Entry, Index};
use sparql_data_preparation::kinds::Ent;
use sparql_data_preparation::groups::TextGroups;
use sparql_data_preparation::labels::{commit_labels, commit_qualified_labels, label_claims};
use sparql_data_preparation::oracle::AliasPool;
use sparql_data_preparation::pool::Pools;
use sparql_data_preparation::oracle::more_popular_alias_holder;
use sparql_data_preparation::order::{records_by_frequency, sort_pairs};
use sparql_data_preparation::output::lookup;
use sparql_data_preparation::record::{Config, Record};

fn rec(id: &str, label: &str, qualifier: &str, aliases: &[&str], frequency: usize) -> Record {
    Record {
        id: id.to_string(),
        label: label.to_string(),
        qualifier: qualifier.to_string(),
        aliases: aliases.iter().map(|a| a.to_string()).collect(),
        frequency,
        redirects: None,
    }
}

fn cfg(keep: bool, check: bool) -> Config {
    Config {
        ignore_types: false,
        keep_most_common_non_unique: keep,
        check_for_popular_aliases: check,
        no_aliases: false,
        full_ids: false,
        short_properties: false,
    }
}

fn keys(index: &Index) -> Vec<(String, Option<String>, usize, Assignment)> {
    index
        .entries
        .iter()
        .map(|e| (e.text.clone(), e.qualifier.clone(), e.record, e.kind))
        .collect()
}

fn key(text: &str, q: Option<&str>, record: usize, kind: Assignment) -> (String, Option<String>, usize, Assignment) {
    (text.to_string(), q.map(|s| s.to_string()), record, kind)
}

#[test]
fn unique_labels_take_their_bare_keys() {
    let records = vec![rec("Q1", "Berlin", "city", &[], 10), rec("Q2", "Paris", "", &[], 3)];
    let (index, coverage) = build_index(&records, &cfg(false, false));
    assert_eq!(
        keys(&index),
        vec![
            key("Berlin", None, 0, Assignment::OwnLabel),
            key("Paris", None, 1, Assignment::OwnLabel)
        ]
    );
    assert_eq!(coverage.records, 2);
    assert_eq!(coverage.by_label, 2);
    assert_eq!(coverage.by_qualified_label, 0);
    assert_eq!(coverage.leftover, 0);
    assert_eq!(coverage.alias_keys, 0);
    assert_eq!(coverage.index_size, 2);
    assert_eq!(coverage.covered, 2);
}

#[test]
fn apple_escalates_to_the_qualifier() {
    let records = vec![rec("Q10", "Apple", "fruit", &[], 10), rec("Q20", "Apple", "company", &[], 90)];
    let (index, coverage) = build_index(&records, &cfg(true, false));
    assert_eq!(index.owner("Apple", None), Some(1));
    assert_eq!(index.owner("Apple", Some("fruit")), Some(0));
    assert_eq!(index.owner("Apple", Some("company")), None);
    assert!(!index.contains_key("Apple", Some("company")));
    assert_eq!(
        keys(&index),
        vec![
            key("Apple", None, 1, Assignment::OwnLabel),
            key("Apple", Some("fruit"), 0, Assignment::OwnLabelQualified)
        ]
    );
    assert_eq!(coverage.by_label, 1);
    assert_eq!(coverage.by_qualified_label, 1);
    assert_eq!(coverage.leftover, 0);
}

#[test]
fn contested_label_stays_free_without_keep_most_common() {
    let records = vec![rec("Q10", "Apple", "fruit", &[], 10), rec("Q20", "Apple", "company", &[], 90)];
    let (index, coverage) = build_index(&records, &cfg(false, false));
    assert_eq!(index.owner("Apple", None), None);
    assert_eq!(index.owner("Apple", Some("fruit")), Some(0));
    assert_eq!(index.owner("Apple", Some("company")), Some(1));
    assert_eq!(coverage.by_label, 0);
    assert_eq!(coverage.by_qualified_label, 2);
}

#[test]
fn equal_frequency_goes_to_the_earlier_record() {
    let records = vec![rec("Q1", "Lima", "city", &[], 7), rec("Q2", "Lima", "bean", &[], 7)];
    let (index, _) = build_index(&records, &cfg(true, false));
    assert_eq!(index.owner("Lima", None), Some(0));
    assert_eq!(index.owner("Lima", Some("bean")), Some(1));
}

#[test]
fn shared_label_and_qualifier_leaves_the_rest_over() {
    let records = vec![
        rec("Q1", "John Smith", "politician", &[], 5),
        rec("Q2", "John Smith", "politician", &[], 9),
        rec("Q3", "John Smith", "", &[], 50),
        rec("Q4", "John Smith", "politician", &[], 2),
    ];
    let (with_keep, coverage) = build_index(&records, &cfg(true, false));
    assert_eq!(
        keys(&with_keep),
        vec![
            key("John Smith", None, 2, Assignment::OwnLabel),
            key("John Smith", Some("politician"), 1, Assignment::OwnLabelQualified)
        ]
    );
    assert_eq!(coverage.leftover, 2);
    assert_eq!(coverage.covered, 2);
    let (without, coverage) = build_index(&records, &cfg(false, false));
    assert_eq!(keys(&without), vec![]);
    assert_eq!(coverage.leftover, 4);
    assert_eq!(coverage.covered, 0);
}

#[test]
fn record_without_qualifier_is_left_over() {
    let records = vec![rec("Q1", "Mars", "", &[], 5), rec("Q2", "Mars", "planet", &[], 9)];
    let (index, coverage) = build_index(&records, &cfg(false, false));
    assert_eq!(keys(&index), vec![key("Mars", Some("planet"), 1, Assignment::OwnLabelQualified)]);
    assert_eq!(coverage.leftover, 1);
}

#[test]
fn oracle_mercury_scenario() {
    let records = vec![
        rec("A", "Mercury", "planet", &[], 100),
        rec("B", "Mercury", "element", &[], 5),
        rec("C", "Freddie Mercury", "singer", &["Mercury"], 50),
    ];
    assert_eq!(more_popular_alias_holder(&records, "Mercury", 0), None);
    assert_eq!(more_popular_alias_holder(&records, "Mercury", 1), Some(2));
    assert_eq!(more_popular_alias_holder(&records, "Mercury", 2), None);
    assert_eq!(more_popular_alias_holder(&records, "Venus", 0), None);
    let (index, _) = build_index(&records, &cfg(true, true));
    assert_eq!(index.owner("Mercury", None), Some(0));
    assert_eq!(index.owner("Mercury", Some("element")), Some(1));
    assert_eq!(index.owner("Mercury", Some("singer")), Some(2));
}

#[test]
fn oracle_defers_the_sole_claimant() {
    let records = vec![
        rec("B", "Mercury", "element", &[], 5),
        rec("C", "Freddie Mercury", "singer", &["Mercury"], 50),
    ];
    let pools = Pools::build(&records);
    assert_eq!(label_claims(&records, &cfg(false, true), &pools), vec![false, true]);
    assert_eq!(label_claims(&records, &cfg(false, false), &pools), vec![true, true]);
    let (index, coverage) = build_index(&records, &cfg(false, true));
    assert_eq!(
        keys(&index),
        vec![
            key("Freddie Mercury", None, 1, Assignment::OwnLabel),
            key("Mercury", Some("element"), 0, Assignment::OwnLabelQualified),
            key("Mercury", None, 1, Assignment::Alias),
        ]
    );
    assert_eq!(coverage.by_label, 1);
    assert_eq!(coverage.by_qualified_label, 1);
    assert_eq!(coverage.alias_keys, 1);
}

#[test]
fn oracle_ignores_equal_frequency() {
    let records = vec![
        rec("B", "Mercury", "element", &[], 50),
        rec("C", "Freddie Mercury", "singer", &["Mercury"], 50),
    ];
    assert_eq!(more_popular_alias_holder(&records, "Mercury", 0), None);
    let (index, _) = build_index(&records, &cfg(false, true));
    assert_eq!(index.owner("Mercury", None), Some(0));
}

#[test]
fn oracle_ignores_a_shared_alias() {
    let records = vec![
        rec("B", "Mercury", "element", &[], 5),
        rec("C", "Freddie Mercury", "singer", &["Mercury"], 50),
        rec("D", "Mercury Records", "label", &["Mercury"], 70),
    ];
    assert_eq!(more_popular_alias_holder(&records, "Mercury", 0), None);
    let (index, _) = build_index(&records, &cfg(false, true));
    assert_eq!(index.owner("Mercury", None), Some(0));
    assert_eq!(index.owner("Mercury", Some("label")), Some(2));
    assert_eq!(index.owner("Mercury", Some("singer")), Some(1));
}

#[test]
fn shared_alias_goes_to_the_most_frequent_record() {
    let records = vec![
        rec("Q1", "United States", "country", &["USA", "America"], 10),
        rec("Q2", "Americas", "", &["America"], 4),
        rec("Q3", "United States of America", "film", &["USA"], 80),
    ];
    let (index, coverage) = build_index(&records, &cfg(false, true));
    assert_eq!(
        keys(&index),
        vec![
            key("United States", None, 0, Assignment::OwnLabel),
            key("Americas", None, 1, Assignment::OwnLabel),
            key("United States of America", None, 2, Assignment::OwnLabel),
            key("USA", None, 2, Assignment::Alias),
            key("USA", Some("country"), 0, Assignment::AliasQualified),
            key("America", None, 0, Assignment::Alias),
        ]
    );
    assert_eq!(coverage.alias_keys, 3);
    assert_eq!(coverage.index_size, 6);
    assert_eq!(coverage.covered, 3);
}

#[test]
fn alias_never_displaces_a_label() {
    let records = vec![
        rec("Q1", "Jaguar", "animal", &[], 1),
        rec("Q2", "Jaguar Cars", "company", &["Jaguar"], 500),
        rec("Q3", "Panthera onca", "", &["Jaguar"], 900),
    ];
    let (index, _) = build_index(&records, &cfg(false, false));
    assert_eq!(index.owner("Jaguar", None), Some(0));
    assert_eq!(index.owner("Jaguar", Some("company")), Some(1));
    assert_eq!(index.entries.len(), 4);
}

#[test]
fn no_aliases_skips_the_alias_pass() {
    let records = vec![rec("P1", "member of", "", &["belongs to"], 10)];
    let mut config = cfg(false, false);
    config.no_aliases = true;
    let (index, coverage) = build_index(&records, &config);
    assert_eq!(keys(&index), vec![key("member of", None, 0, Assignment::OwnLabel)]);
    assert_eq!(coverage.alias_keys, 0);
    config.no_aliases = false;
    let (index, coverage) = build_index(&records, &config);
    assert_eq!(index.entries.len(), 2);
    assert_eq!(coverage.alias_keys, 1);
}

#[test]
fn qualified_text_that_is_a_label_is_not_taken_again() {
    let records = vec![
        rec("Q1", "Apple (fruit)", "", &[], 1),
        rec("Q2", "Apple", "fruit", &[], 10),
        rec("Q3", "Apple", "company", &[], 90),
    ];
    let (index, coverage) = build_index(&records, &cfg(false, false));
    assert_eq!(
        keys(&index),
        vec![
            key("Apple (fruit)", None, 0, Assignment::OwnLabel),
            key("Apple", Some("company"), 2, Assignment::OwnLabelQualified),
        ]
    );
    assert_eq!(coverage.leftover, 1);
}

#[test]
fn no_key_stands_twice() {
    let records = vec![
        rec("Q1", "A", "x", &["B", "C", "B"], 3),
        rec("Q2", "A", "x", &["B", "A"], 8),
        rec("Q3", "B", "y", &["A", "C"], 8),
        rec("Q4", "C", "", &["A", "B", "C"], 1),
    ];
    for keep in [false, true] {
        for check in [false, true] {
            let (index, coverage) = build_index(&records, &cfg(keep, check));
            let all = keys(&index);
            for (i, a) in all.iter().enumerate() {
                for b in all.iter().skip(i + 1) {
                    assert!(!(a.0 == b.0 && a.1 == b.1));
                }
            }
            for (i, a) in all.iter().enumerate() {
                for b in all.iter().skip(i + 1) {
                    let own = |k: Assignment| k == Assignment::OwnLabel || k == Assignment::OwnLabelQualified;
                    assert!(!(own(a.3) && own(b.3) && a.2 == b.2));
                }
            }
            assert_eq!(coverage.index_size, all.len());
        }
    }
}

#[test]
fn coverage_does_not_fall_from_pass_to_pass() {
    let records = vec![
        rec("Q1", "A", "x", &["B", "C"], 3),
        rec("Q2", "A", "x", &["D"], 8),
        rec("Q3", "B", "y", &["A"], 8),
        rec("Q4", "A", "", &["E"], 1),
        rec("Q5", "A", "", &[], 1),
    ];
    let config = cfg(true, false);
    let pools = Pools::build(&records);
    let (labels, claimed) = commit_labels(&records, &config, &pools);
    assert_eq!(claimed, vec![false, true, true, false, false]);
    let after_labels = count_covered(&labels, records.len());
    let own = commit_qualified_labels(&records, &config, &pools, labels, &claimed);
    let after_qualified = count_covered(&own, records.len());
    let order = records_by_frequency(&records);
    let all = backfill_aliases(&records, &order, own);
    let after_aliases = count_covered(&all, records.len());
    assert_eq!(after_labels, 2);
    assert_eq!(after_qualified, 3);
    assert_eq!(after_aliases, 4);
    let (_, coverage) = build_index(&records, &config);
    assert_eq!(coverage.covered, 4);
    assert_eq!(coverage.by_label, 2);
    assert_eq!(coverage.by_qualified_label, 1);
    assert_eq!(coverage.leftover, 2);
}

#[test]
fn same_input_gives_the_same_index() {
    let records = vec![
        rec("Q1", "A", "x", &["B", "C"], 3),
        rec("Q2", "A", "y", &["B"], 3),
        rec("Q3", "B", "y", &["A"], 3),
    ];
    let (first, one) = build_index(&records, &cfg(true, true));
    let (second, two) = build_index(&records, &cfg(true, true));
    assert_eq!(keys(&first), keys(&second));
    assert_eq!(one.index_size, two.index_size);
    assert_eq!(one.covered, two.covered);
}

#[test]
fn records_are_ordered_by_falling_frequency() {
    let records = vec![
        rec("Q1", "a", "", &[], 3),
        rec("Q2", "b", "", &[], 9),
        rec("Q3", "c", "", &[], 3),
        rec("Q4", "d", "", &[], 0),
        rec("Q5", "e", "", &[], 9),
    ];
    assert_eq!(records_by_frequency(&records), vec![1, 4, 0, 2, 3]);
    assert_eq!(records_by_frequency(&Vec::new()), Vec::<usize>::new());
}

#[test]
fn pairs_are_sorted_by_first_then_second() {
    assert_eq!(
        sort_pairs(vec![(3, 1), (1, 9), (3, 0), (0, 5), (1, 2)]),
        vec![(0, 5), (1, 2), (1, 9), (3, 0), (3, 1)]
    );
    assert_eq!(sort_pairs(vec![]), vec![]);
}

#[test]
fn one_turn_takes_free_aliases_only() {
    let records = vec![rec("Q1", "Rome", "city", &["Roma", "Rome", "Urbs", "Roma"], 3)];
    let mut index = Index::new();
    index.commit(Entry {
        text: "Rome".to_string(),
        qualifier: None,
        record: 0,
        kind: Assignment::OwnLabel,
    });
    backfill_one(&records, 0, &mut index);
    assert_eq!(
        keys(&index),
        vec![
            key("Rome", None, 0, Assignment::OwnLabel),
            key("Roma", None, 0, Assignment::Alias),
            key("Rome", Some("city"), 0, Assignment::AliasQualified),
            key("Urbs", None, 0, Assignment::Alias),
            key("Roma", Some("city"), 0, Assignment::AliasQualified),
        ]
    );
    assert_eq!(index.len(), 5);
    assert_eq!(index.find("Urbs", None), Some(3));
    assert_eq!(index.find("Urbs", Some("city")), None);
}

#[test]
fn lookup_gives_the_identifier_and_the_tag() {
    let records = vec![
        rec("Q10", "Apple", "fruit", &["Malus"], 10),
        rec("Q20", "Apple", "company", &["Malus"], 90),
    ];
    let (index, _) = build_index(&records, &cfg(true, false));
    assert_eq!(lookup(&index, &records, "Apple", None), Some(Ent::Label("Q20")));
    assert_eq!(lookup(&index, &records, "Apple", Some("fruit")), Some(Ent::LabelInfo("Q10")));
    assert_eq!(lookup(&index, &records, "Malus", None), Some(Ent::Alias("Q20")));
    assert_eq!(lookup(&index, &records, "Malus", Some("fruit")), Some(Ent::AliasInfo("Q10")));
    assert_eq!(lookup(&index, &records, "Pear", None), None);
}

#[test]
fn empty_input_gives_an_empty_index() {
    let (index, coverage) = build_index(&Vec::new(), &cfg(true, true));
    assert_eq!(index.len(), 0);
    assert_eq!(coverage.records, 0);
    assert_eq!(coverage.covered, 0);
    assert_eq!(coverage.leftover, 0);
}

#[test]
fn records_are_grouped_by_label() {
    let records = vec![
        rec("Q1", "A", "", &[], 1),
        rec("Q2", "B", "", &[], 1),
        rec("Q3", "A", "", &[], 1),
        rec("Q4", "C", "", &[], 1),
        rec("Q5", "B", "", &[], 1),
        rec("Q6", "A", "", &[], 1),
    ];
    let groups = sparql_data_preparation::pool::group_by_label(&records);
    assert_eq!(groups, vec![vec![0, 2, 5], vec![1, 4], vec![3]]);
    assert_eq!(groups.iter().map(|g| g.len()).sum::<usize>(), records.len());
    assert_eq!(sparql_data_preparation::pool::group_by_label(&Vec::new()), Vec::<Vec<usize>>::new());
}

#[test]
fn alias_of_two_records_has_no_sole_holder() {
    let records = vec![
        rec("Q1", "A", "", &["x", "y", "y"], 1),
        rec("Q2", "B", "", &["x"], 1),
        rec("Q3", "C", "", &["z"], 1),
    ];
    assert_eq!(sparql_data_preparation::oracle::sole_holder(&records, "x"), None);
    assert_eq!(sparql_data_preparation::oracle::sole_holder(&records, "y"), Some(0));
    assert_eq!(sparql_data_preparation::oracle::sole_holder(&records, "z"), Some(2));
    assert_eq!(sparql_data_preparation::oracle::sole_holder(&records, "A"), None);
}

#[test]
fn texts_are_filed_under_what_they_say() {
    let mut filed = TextGroups::new();
    for text in ["a", "b", "a", "c", "a", "b"] {
        filed.add(text);
    }
    assert_eq!(filed.count(), 6);
    assert_eq!(filed.group("a"), Some(&vec![0, 2, 4]));
    assert_eq!(filed.group("b"), Some(&vec![1, 5]));
    assert_eq!(filed.group("c"), Some(&vec![3]));
    assert_eq!(filed.group("d"), None);
    assert_eq!(filed.lists(), &vec![vec![0, 2, 4], vec![1, 5], vec![3]]);
    assert_eq!(filed.into_lists(), vec![vec![0, 2, 4], vec![1, 5], vec![3]]);
}

#[test]
fn alias_pool_answers_as_the_oracle() {
    let records = vec![
        rec("A", "Mercury", "planet", &[], 100),
        rec("B", "Mercury", "element", &["Hg", "quicksilver", "Hg"], 5),
        rec("C", "Freddie Mercury", "singer", &["Mercury"], 50),
        rec("D", "Quicksilver", "film", &["quicksilver"], 9),
    ];
    let pool = AliasPool::build(&records);
    assert_eq!(pool.owners, vec![1, 1, 1, 2, 3]);
    assert_eq!(pool.sole_holder(&records, "Hg"), Some(1));
    assert_eq!(pool.sole_holder(&records, "quicksilver"), None);
    assert_eq!(pool.sole_holder(&records, "Mercury"), Some(2));
    assert_eq!(pool.sole_holder(&records, "planet"), None);
    assert_eq!(pool.more_popular(&records, "Mercury", 1), Some(2));
    assert_eq!(pool.more_popular(&records, "Mercury", 0), None);
    assert_eq!(pool.more_popular(&records, "Hg", 1), None);
    assert_eq!(pool.more_popular(&records, "Hg", 0), None);
    assert_eq!(pool.more_popular(&records, "Hg", 3), None);
}

#[test]
fn most_frequent_of_many_takes_the_label() {
    let records = vec![
        rec("Q1", "X", "a", &[], 3),
        rec("Q2", "Y", "a", &[], 1),
        rec("Q3", "X", "b", &[], 9),
        rec("Q4", "X", "c", &[], 9),
        rec("Q5", "Y", "b", &[], 1),
        rec("Q6", "X", "d", &[], 4),
    ];
    let pools = Pools::build(&records);
    assert_eq!(
        label_claims(&records, &cfg(true, false), &pools),
        vec![false, true, true, false, false, false]
    );
    assert_eq!(label_claims(&records, &cfg(false, false), &pools), vec![false; 6]);
}
