use sparql_data_preparation::dump::{read_entities, read_properties, read_redirects};
use sparql_data_preparation::error::Problem;
use sparql_data_preparation::kinds::{Ent, KnowledgeGraph, Prop};
use sparql_data_preparation::pattern::Pattern;
use sparql_data_preparation::processor::{
    assemble_entity, assemble_property, capture_each, label_property, read_aliases,
    settle_redirect, short_entity, short_property, KnowledgeGraphProcessor,
};

fn strings(items: &[&str]) -> Vec<String> {
    items.iter().map(|s| s.to_string()).collect()
}

fn some(s: &str) -> Option<String> {
    Some(s.to_string())
}

fn wikidata() -> KnowledgeGraphProcessor {
    KnowledgeGraphProcessor::new(KnowledgeGraph::Wikidata).unwrap()
}

#[test]
fn pattern_captures_the_first_group() {
    let pattern = Pattern::new(r"(\d+)-(\w+)").unwrap();
    assert_eq!(pattern.capture("abc 12-x 34-y"), some("12"));
    assert_eq!(pattern.capture_group("abc 12-x 34-y", 2), some("x"));
    assert_eq!(pattern.capture_group("abc 12-x 34-y", 0), some("12-x"));
    assert_eq!(pattern.capture_group("abc 12-x", 3), None);
    assert_eq!(pattern.capture("abc"), None);
}

#[test]
fn pattern_that_does_not_compile_is_a_fault() {
    let fault = match Pattern::new("a(b") {
        Ok(_) => panic!("compiled"),
        Err(fault) => fault,
    };
    assert_eq!(fault.problem, Problem::InvalidPattern);
    assert_eq!(fault.text, "a(b");
    assert_eq!(fault.message(), "invalid pattern: a(b");
}

#[test]
fn processor_is_made_for_each_knowledge_base() {
    for kg in [KnowledgeGraph::Wikidata, KnowledgeGraph::Freebase, KnowledgeGraph::DBPedia] {
        let processor = KnowledgeGraphProcessor::new(kg).unwrap();
        assert_eq!(processor.kg, kg);
    }
}

#[test]
fn entity_row_is_read() {
    let line = "<http://www.wikidata.org/entity/Q42>\t\" Douglas Adams \"@en\t\"English writer\"@en\t120\t<http://www.wikidata.org/entity/Q5>;nothing; http://www.wikidata.org/entity/Q36180\t\"Douglas Noel Adams; DNA\"";
    let (ent, info) = wikidata().parse_entity(line, false).unwrap();
    assert_eq!(ent, Ent::Label("http://www.wikidata.org/entity/Q42"));
    assert_eq!(info.label, "Douglas Adams");
    assert_eq!(info.desc, "English writer");
    assert_eq!(info.count, 120);
    assert_eq!(info.types, strings(&["Q5", "Q36180"]));
    assert_eq!(info.aliases, strings(&["Douglas Noel Adams", "DNA"]));
    assert_eq!(info.redirects, None);
    let (_, info) = wikidata().parse_entity(line, true).unwrap();
    assert_eq!(info.types, Vec::<String>::new());
    assert_eq!(info.info(), "English writer");
}

#[test]
fn entity_row_without_optional_columns() {
    let (ent, info) = wikidata().parse_entity("Q1\t\"Berlin\"@en\t\t7", false).unwrap();
    assert_eq!(ent, Ent::Label("Q1"));
    assert_eq!(info.label, "Berlin");
    assert_eq!(info.desc, "");
    assert_eq!(info.count, 7);
    assert_eq!(info.types, Vec::<String>::new());
    assert_eq!(info.aliases, Vec::<String>::new());
    let (_, info) = wikidata().parse_entity("Q1\t\"Berlin\"@en\tcity\t7\t\t", false).unwrap();
    assert_eq!(info.desc, "");
    assert_eq!(info.aliases, Vec::<String>::new());
}

#[test]
fn entity_row_faults() {
    let processor = wikidata();
    let fault = processor.parse_entity("Q1\t\"Berlin\"@en\t\"x\"@en", false).unwrap_err();
    assert_eq!(fault.problem, Problem::InvalidEntityLine);
    assert_eq!(fault.text, "Q1\t\"Berlin\"@en\t\"x\"@en");
    let fault = processor.parse_entity("a\tb\tc\t1\te\tf\tg", false).unwrap_err();
    assert_eq!(fault.problem, Problem::InvalidEntityLine);
    let fault = processor.parse_entity("Q1\t\"Berlin\"@de\t\"x\"@en\t5", false).unwrap_err();
    assert_eq!(fault.problem, Problem::LabelNotCaptured);
    assert_eq!(fault.text, "\"Berlin\"@de");
    let fault = processor.parse_entity("Q1\t\"Berlin\"@en\t\"x\"@en\tmany", false).unwrap_err();
    assert_eq!(fault.problem, Problem::InvalidCount);
    assert_eq!(fault.text, "many");
    assert_eq!(fault.message(), "invalid count: many");
}

#[test]
fn entity_is_made_from_what_was_captured() {
    let fields = vec!["<Q1>", "ignored", "ignored", "+12", "ignored", "\"a;b ; c\""];
    let (ent, info) =
        assemble_entity(&fields, "line", some(" Berlin "), None, strings(&["Q5"])).unwrap();
    assert_eq!(ent, Ent::Label("Q1"));
    assert_eq!(info.label, "Berlin");
    assert_eq!(info.desc, "");
    assert_eq!(info.count, 12);
    assert_eq!(info.types, strings(&["Q5"]));
    assert_eq!(info.aliases, strings(&["a", "b", "c"]));
    let fault = assemble_entity(&fields, "line", None, None, vec![]).unwrap_err();
    assert_eq!(fault.problem, Problem::LabelNotCaptured);
    assert_eq!(fault.text, "ignored");
    let fault = assemble_entity(&vec!["a", "b"], "line", some("x"), None, vec![]).unwrap_err();
    assert_eq!(fault.problem, Problem::InvalidEntityLine);
    assert_eq!(fault.text, "line");
}

#[test]
fn property_row_is_read() {
    let line = "<http://www.wikidata.org/entity/P31>\t\"instance of\"@en\t500\t\"is a; type\"\t<http://www.wikidata.org/entity/P279>; x ;http://www.wikidata.org/entity/P361";
    let (prop, info) = wikidata().parse_property(line).unwrap();
    assert_eq!(prop, Prop::Label("http://www.wikidata.org/entity/P31"));
    assert_eq!(info.label, "instance of");
    assert_eq!(info.count, 500);
    assert_eq!(info.aliases, strings(&["is a", "type"]));
    assert_eq!(info.inverses, strings(&["P279", "P361"]));
    let (_, info) = wikidata().parse_property("P1\t\"x\"@en\t2").unwrap();
    assert_eq!(info.aliases, Vec::<String>::new());
    assert_eq!(info.inverses, Vec::<String>::new());
}

#[test]
fn property_row_faults() {
    let processor = wikidata();
    let fault = processor.parse_property("P1\t\"x\"@en").unwrap_err();
    assert_eq!(fault.problem, Problem::InvalidPropertyLine);
    assert_eq!(fault.message(), "invalid property line: P1\t\"x\"@en");
    assert_eq!(processor.parse_property("a\tb\tc\td\te\tf").unwrap_err().problem, Problem::InvalidPropertyLine);
    assert_eq!(processor.parse_property("P1\tx\t3").unwrap_err().problem, Problem::LabelNotCaptured);
    assert_eq!(processor.parse_property("P1\t\"x\"@en\t-3").unwrap_err().problem, Problem::InvalidCount);
    let freebase = KnowledgeGraphProcessor::new(KnowledgeGraph::Freebase).unwrap();
    let fault = freebase.parse_property("name\t\"x\"@en\t3").unwrap_err();
    assert_eq!(fault.problem, Problem::InvalidFreebaseProperty);
    assert_eq!(fault.text, "name");
}

#[test]
fn property_label_by_knowledge_base() {
    assert_eq!(label_property(KnowledgeGraph::Wikidata, "P1", "name").unwrap(), "name");
    assert_eq!(
        label_property(KnowledgeGraph::Freebase, "people.deceased_person.place_of_death", "place of death").unwrap(),
        "place of death (deceased person)"
    );
    assert_eq!(label_property(KnowledgeGraph::Freebase, "a.b", "x").unwrap(), "x (a)");
    assert_eq!(
        label_property(KnowledgeGraph::DBPedia, "ontology/birthPlace", "birth place").unwrap(),
        "birth place (ontology)"
    );
    assert_eq!(
        label_property(KnowledgeGraph::DBPedia, "property/birthPlace", "birth place").unwrap(),
        "birth place"
    );
    let freebase = KnowledgeGraphProcessor::new(KnowledgeGraph::Freebase).unwrap();
    let (_, info) = freebase
        .parse_property("<http://rdf.freebase.com/ns/people.person.date_of_birth>\t\"date of birth\"@en\t9\t")
        .unwrap();
    assert_eq!(info.label, "date of birth (person)");
}

#[test]
fn property_is_made_from_what_was_captured() {
    let fields = vec!["<P1>", "l", "3", "a;b"];
    let (prop, info) =
        assemble_property(KnowledgeGraph::Wikidata, &fields, "line", some("x "), strings(&["P2"])).unwrap();
    assert_eq!(prop, Prop::Label("P1"));
    assert_eq!(info.label, "x");
    assert_eq!(info.aliases, strings(&["a", "b"]));
    assert_eq!(info.inverses, strings(&["P2"]));
    assert_eq!(info.count, 3);
}

#[test]
fn property_is_written_short() {
    let processor = wikidata();
    assert_eq!(processor.format_property("<http://www.wikidata.org/entity/P31>", true, None).unwrap(), "wdt:P31");
    assert_eq!(processor.format_property("http://www.wikidata.org/entity/P31", true, Some("pq")).unwrap(), "pq:P31");
    assert_eq!(
        processor.format_property("http://www.wikidata.org/entity/P31", false, Some("pq")).unwrap(),
        "http://www.wikidata.org/entity/P31"
    );
    let fault = processor.format_property("http://www.wikidata.org/entity/Q31", true, None).unwrap_err();
    assert_eq!(fault.problem, Problem::PropertyNotCaptured);
    assert_eq!(fault.text, "http://www.wikidata.org/entity/Q31");
    let freebase = KnowledgeGraphProcessor::new(KnowledgeGraph::Freebase).unwrap();
    assert_eq!(
        freebase.format_property("http://rdf.freebase.com/ns/people.person.name", true, None).unwrap(),
        "fb:people.person.name"
    );
    let dbpedia = KnowledgeGraphProcessor::new(KnowledgeGraph::DBPedia).unwrap();
    assert_eq!(
        dbpedia.format_property("<http://dbpedia.org/ontology/birthPlace>", true, None).unwrap(),
        "dbo:birthPlace"
    );
    assert_eq!(
        dbpedia.format_property("http://dbpedia.org/property/birthPlace", true, Some("x")).unwrap(),
        "dbp:birthPlace"
    );
}

#[test]
fn short_property_from_what_was_captured() {
    assert_eq!(short_property(KnowledgeGraph::Wikidata, "p", some("P1"), None, None, None).unwrap(), "wdt:P1");
    assert_eq!(short_property(KnowledgeGraph::Freebase, "p", some("a.b"), None, None, Some("z")).unwrap(), "z:a.b");
    assert_eq!(
        short_property(KnowledgeGraph::DBPedia, "p", some("id"), some("ontology"), some("n"), None).unwrap(),
        "dbo:n"
    );
    assert_eq!(
        short_property(KnowledgeGraph::DBPedia, "p", some("id"), some("property"), some("n"), None).unwrap(),
        "dbp:n"
    );
    let fault = short_property(KnowledgeGraph::DBPedia, "p", some("id"), None, None, None).unwrap_err();
    assert_eq!(fault.problem, Problem::InvalidDbpediaProperty);
    assert_eq!(fault.text, "id");
    let fault = short_property(KnowledgeGraph::Wikidata, "p", None, None, None, None).unwrap_err();
    assert_eq!(fault.problem, Problem::PropertyNotCaptured);
    assert_eq!(fault.text, "p");
}

#[test]
fn entity_is_written_short() {
    let processor = wikidata();
    assert_eq!(processor.format_entity("<http://www.wikidata.org/entity/Q42>", true).unwrap(), "wd:Q42");
    assert_eq!(processor.format_entity("anything", false).unwrap(), "anything");
    let fault = processor.format_entity("Q42", true).unwrap_err();
    assert_eq!(fault.problem, Problem::EntityNotCaptured);
    assert_eq!(fault.text, "Q42");
    let freebase = KnowledgeGraphProcessor::new(KnowledgeGraph::Freebase).unwrap();
    assert_eq!(freebase.format_entity("http://rdf.freebase.com/ns/m.02mjmr", true).unwrap(), "fb:m.02mjmr");
    let dbpedia = KnowledgeGraphProcessor::new(KnowledgeGraph::DBPedia).unwrap();
    assert_eq!(dbpedia.format_entity("http://dbpedia.org/resource/Berlin", true).unwrap(), "dbr:Berlin");
    assert_eq!(short_entity(KnowledgeGraph::DBPedia, "e", some("Berlin")).unwrap(), "dbr:Berlin");
    assert_eq!(short_entity(KnowledgeGraph::Wikidata, "e", None).unwrap_err().text, "e");
}

#[test]
fn prefixes_by_knowledge_base() {
    assert_eq!(wikidata().entity_prefixes(), vec![("wd:", "http://www.wikidata.org/entity/")]);
    assert_eq!(
        wikidata().property_prefixes(),
        vec![
            ("wdt:", "http://www.wikidata.org/prop/direct/"),
            ("p:", "http://www.wikidata.org/prop/"),
            ("pq:", "http://www.wikidata.org/prop/qualifier/"),
            ("pqn:", "http://www.wikidata.org/prop/qualifier/value-normalized/"),
            ("ps:", "http://www.wikidata.org/prop/statement/"),
            ("psn:", "http://www.wikidata.org/prop/statement/value-normalized/"),
        ]
    );
    let freebase = KnowledgeGraphProcessor::new(KnowledgeGraph::Freebase).unwrap();
    assert_eq!(freebase.entity_prefixes(), vec![("fb:", "http://rdf.freebase.com/ns/")]);
    assert_eq!(freebase.property_prefixes(), vec![("fbp:", "http://rdf.freebase.com/ns/property.")]);
    let dbpedia = KnowledgeGraphProcessor::new(KnowledgeGraph::DBPedia).unwrap();
    assert_eq!(dbpedia.entity_prefixes(), vec![("dbr:", "http://dbpedia.org/resource/")]);
    assert_eq!(
        dbpedia.property_prefixes(),
        vec![("dbp:", "http://dbpedia.org/property/"), ("dbo:", "http://dbpedia.org/ontology/")]
    );
}

#[test]
fn redirect_row_is_read() {
    let processor = wikidata();
    assert_eq!(
        processor.parse_redirect("<http://www.wikidata.org/entity/Q1>\t<http://www.wikidata.org/entity/Q2>; <http://www.wikidata.org/entity/Q3>"),
        Some(("Q1".to_string(), strings(&["Q2", "Q3"])))
    );
    assert_eq!(processor.parse_redirect("<http://www.wikidata.org/entity/Q1>\tnothing"), None);
    assert_eq!(processor.parse_redirect("nothing\t<http://www.wikidata.org/entity/Q2>"), None);
    assert_eq!(processor.parse_redirect("<http://www.wikidata.org/entity/Q1>"), None);
    assert_eq!(processor.parse_redirect("<http://www.wikidata.org/entity/Q1>\t"), None);
    assert_eq!(
        processor.parse_redirect("<http://www.wikidata.org/entity/Q1>\t<http://www.wikidata.org/entity/Q2>;x"),
        None
    );
}

#[test]
fn redirect_is_settled_from_what_was_captured() {
    assert_eq!(
        settle_redirect(some("Q1"), vec![some("Q2"), some("Q3")]),
        Some(("Q1".to_string(), strings(&["Q2", "Q3"])))
    );
    assert_eq!(settle_redirect(None, vec![some("Q2")]), None);
    assert_eq!(settle_redirect(some("Q1"), vec![]), None);
    assert_eq!(settle_redirect(some("Q1"), vec![some("Q2"), None]), None);
}

#[test]
fn aliases_and_captures_are_collected() {
    assert_eq!(read_aliases("\"a;  b ;c\""), strings(&["a", "b", "c"]));
    assert_eq!(read_aliases("a;;b;"), strings(&["a", "", "b"]));
    assert_eq!(read_aliases(""), Vec::<String>::new());
    let pattern = Pattern::new(r"id:(\s*\w+\s*)$").unwrap();
    assert_eq!(capture_each(&pattern, &vec!["id: a ", "x", " id:b"], false), strings(&["a", "b"]));
    assert_eq!(capture_each(&pattern, &vec!["id: a ", "x", " id:b"], true), strings(&[" a", "b"]));
}

#[test]
fn whole_redirect_dump_is_read() {
    let rows = strings(&[
        "<http://www.wikidata.org/entity/Q1>\t<http://www.wikidata.org/entity/Q2>",
        "garbage",
        "<http://www.wikidata.org/entity/Q3>\t<http://www.wikidata.org/entity/Q4>;<http://www.wikidata.org/entity/Q5>",
        "<http://www.wikidata.org/entity/Q6>\tnothing",
    ]);
    assert_eq!(
        read_redirects(&wikidata(), &rows),
        vec![
            ("Q1".to_string(), strings(&["Q2"])),
            ("Q3".to_string(), strings(&["Q4", "Q5"])),
        ]
    );
}

#[test]
fn whole_entity_dump_is_read() {
    let rows = strings(&[
        "Q1\t\"Berlin\"@en\t\"city\"@en\t7",
        "Q2\t\"Bonn\"@en\t\"town\"@en\t3",
        "Q3\t\"Ulm\"@en\t\t1",
    ]);
    let redirects = vec![
        ("Q2".to_string(), strings(&["Q20"])),
        ("Q9".to_string(), strings(&["Q90"])),
        ("Q2".to_string(), strings(&["Q21", "Q22"])),
        ("Q3".to_string(), strings(&["Q30"])),
    ];
    let (ids, infos) = read_entities(&wikidata(), &rows, false, &redirects).unwrap();
    assert_eq!(ids, strings(&["Q1", "Q2", "Q3"]));
    assert_eq!(infos.len(), 3);
    assert_eq!(infos[0].label, "Berlin");
    assert_eq!(infos[0].redirects, None);
    assert_eq!(infos[1].count, 3);
    assert_eq!(infos[1].redirects, Some(strings(&["Q21", "Q22"])));
    assert_eq!(infos[2].redirects, Some(strings(&["Q30"])));
    let (ids, infos) = read_entities(&wikidata(), &Vec::new(), false, &redirects).unwrap();
    assert_eq!(ids.len(), 0);
    assert_eq!(infos.len(), 0);
}

#[test]
fn first_unreadable_row_ends_the_run() {
    let rows = strings(&[
        "Q1\t\"Berlin\"@en\t\"city\"@en\t7",
        "Q2\tBonn\t\"town\"@en\t3",
        "Q3\t\"Ulm\"@en\t\tmany",
    ]);
    let fault = read_entities(&wikidata(), &rows, false, &Vec::new()).unwrap_err();
    assert_eq!(fault.problem, Problem::LabelNotCaptured);
    assert_eq!(fault.text, "Bonn");
    let rows = strings(&["P1\t\"a\"@en\t1", "P2\t\"b\"@en\tx", "P3"]);
    let fault = read_properties(&wikidata(), &rows).unwrap_err();
    assert_eq!(fault.problem, Problem::InvalidCount);
    assert_eq!(fault.text, "x");
}

#[test]
fn whole_property_dump_is_read() {
    let rows = strings(&["P1\t\"member of\"@en\t4\tbelongs to", "<P2>\t\"has part\"@en\t9"]);
    let (ids, infos) = read_properties(&wikidata(), &rows).unwrap();
    assert_eq!(ids, strings(&["P1", "P2"]));
    assert_eq!(infos[0].label, "member of");
    assert_eq!(infos[0].aliases, strings(&["belongs to"]));
    assert_eq!(infos[1].count, 9);
}
