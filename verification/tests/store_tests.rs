use flash::card::Flashcard;
use flash::store::{append_card, empty_store, load_cards, StoreError};

fn card(question: &str, answers: &[&str], correct: usize, image: Option<&str>) -> Flashcard {
    let answers: Vec<String> = answers.iter().map(|a| String::from(*a)).collect();
    Flashcard::new(
        String::from(question),
        answers,
        correct,
        image.map(String::from),
    )
    .unwrap()
}

#[test]
fn fresh_store_is_an_empty_array() {
    let s = empty_store();
    assert_eq!(s, "[]");
    let loaded = load_cards(&s).unwrap();
    assert!(loaded.is_empty());
}

#[test]
fn first_submit_writes_the_documented_shape() {
    let s = empty_store();
    let out = append_card(&s, card("2+2?", &["3", "4"], 1, None)).unwrap();
    let expected = "[\n  {\n    \"question\": \"2+2?\",\n    \"answers\": [\n      \"3\",\n      \"4\"\n    ],\n    \"correct_question\": 1,\n    \"image\": null\n  }\n]";
    assert_eq!(out, expected);
}

#[test]
fn second_submit_appends_in_order() {
    let s = empty_store();
    let s = append_card(&s, card("2+2?", &["3", "4"], 1, None)).unwrap();
    let s = append_card(&s, card("capital?", &["Rome", "Paris", "Lyon", "Nice"], 1, Some("map.png"))).unwrap();
    let loaded = load_cards(&s).unwrap();
    assert_eq!(loaded.len(), 2);
    assert_eq!(loaded[0].question(), "2+2?");
    assert_eq!(loaded[1].question(), "capital?");
    assert_eq!(loaded[1].answers().len(), 4);
    assert_eq!(loaded[1].correct_index(), 1);
    assert_eq!(loaded[1].image(), &Some(String::from("map.png")));
}

#[test]
fn cards_round_trip_exactly() {
    let s = empty_store();
    let q = "what is \"\\escape\u{8}\u{1f}\ttest\"?";
    let a1 = "line\none";
    let a2 = "tab\tand \u{0} nul";
    let s = append_card(&s, card(q, &[a1, a2], 0, Some("dir/img \"x\".png"))).unwrap();
    let loaded = load_cards(&s).unwrap();
    assert_eq!(loaded.len(), 1);
    assert_eq!(loaded[0].question(), q);
    assert_eq!(loaded[0].answers(), &vec![String::from(a1), String::from(a2)]);
    assert_eq!(loaded[0].correct_index(), 0);
    assert_eq!(loaded[0].image(), &Some(String::from("dir/img \"x\".png")));
}

#[test]
fn many_appends_keep_length_and_order() {
    let mut s = empty_store();
    for i in 0..7 {
        s = append_card(&s, card(&format!("q{i}"), &["a", "b", "c"], i % 3, None)).unwrap();
    }
    let loaded = load_cards(&s).unwrap();
    assert_eq!(loaded.len(), 7);
    for (i, c) in loaded.iter().enumerate() {
        assert_eq!(c.question(), &format!("q{i}"));
        assert_eq!(c.correct_index(), i % 3);
    }
}

#[test]
fn out_of_range_correct_index_is_corrupt() {
    let text = "[\n  {\n    \"question\": \"2+2?\",\n    \"answers\": [\n      \"3\",\n      \"4\"\n    ],\n    \"correct_question\": 2,\n    \"image\": null\n  }\n]";
    assert_eq!(load_cards(text), Err(StoreError::CorruptStore));
    let far = text.replace("\"correct_question\": 2", "\"correct_question\": 91");
    assert_eq!(load_cards(&far), Err(StoreError::CorruptStore));
    let huge = text.replace("\"correct_question\": 2", "\"correct_question\": 999999999999999999999");
    assert_eq!(load_cards(&huge), Err(StoreError::CorruptStore));
}

#[test]
fn wrong_answer_counts_are_corrupt() {
    let one = "[\n  {\n    \"question\": \"q\",\n    \"answers\": [\n      \"a\"\n    ],\n    \"correct_question\": 0,\n    \"image\": null\n  }\n]";
    assert_eq!(load_cards(one), Err(StoreError::CorruptStore));
    let five = "[ { \"question\": \"q\", \"answers\": [\"a\",\"b\",\"c\",\"d\",\"e\"], \"correct_question\": 0, \"image\": null } ]";
    assert_eq!(load_cards(five), Err(StoreError::CorruptStore));
}

#[test]
fn malformed_documents_are_corrupt() {
    for text in [
        "",
        "   ",
        "{}",
        "[",
        "[]x",
        "not json",
        "[ { \"question\": \"q\" } ]",
        "[ { \"question\": \"q\", \"answers\": [\"a\",\"b\"], \"correct_question\": 0, \"image\": null }, ]",
        "[ { \"question\": \"q\", \"answers\": [\"a\",\"b\"], \"correct_question\": 00, \"image\": null } ]",
        "[ { \"question\": \"q\", \"answers\": [\"a\",\"b\"], \"correct_question\": -1, \"image\": null } ]",
        "[ { \"question\": \"q\", \"answers\": [\"a\",\"b\"], \"correct_question\": 0, \"image\": null } ",
    ] {
        assert_eq!(load_cards(text), Err(StoreError::CorruptStore), "accepted: {text}");
    }
}

#[test]
fn blanks_between_tokens_are_tolerated() {
    let text = "  [ {\n\t\"question\" : \"q\" ,\n \"answers\" : [ \"a\" , \"b\" ] , \"correct_question\" : 1 , \"image\" : \"p\" } ]  ";
    let loaded = load_cards(text).unwrap();
    assert_eq!(loaded.len(), 1);
    assert_eq!(loaded[0].question(), "q");
    assert_eq!(loaded[0].correct_index(), 1);
    assert_eq!(loaded[0].image(), &Some(String::from("p")));
}

#[test]
fn unicode_escapes_and_text_survive() {
    let text = "[ { \"question\": \"caf\u{e9} \\u0007?\", \"answers\": [\"\\n\", \"\\u0019\"], \"correct_question\": 0, \"image\": null } ]";
    let loaded = load_cards(text).unwrap();
    assert_eq!(loaded[0].question(), "caf\u{e9} \u{7}?");
    assert_eq!(loaded[0].answers(), &vec![String::from("\n"), String::from("\u{19}")]);
}

#[test]
fn failed_append_reports_corrupt_store() {
    let out = append_card("nonsense", card("q", &["a", "b"], 0, None));
    assert_eq!(out, Err(StoreError::CorruptStore));
}

#[test]
fn stored_document_is_valid_json_for_serde() {
    let s = empty_store();
    let s = append_card(&s, card("2+2?", &["3\n", "4 \"quoted\""], 1, Some("p.png"))).unwrap();
    let v: serde_json::Value = serde_json::from_str(&s).unwrap();
    let arr = v.as_array().unwrap();
    assert_eq!(arr.len(), 1);
    assert_eq!(arr[0]["question"].as_str().unwrap(), "2+2?");
    assert_eq!(arr[0]["answers"][0].as_str().unwrap(), "3\n");
    assert_eq!(arr[0]["answers"][1].as_str().unwrap(), "4 \"quoted\"");
    assert_eq!(arr[0]["correct_question"].as_u64().unwrap(), 1);
    assert!(arr[0]["image"].as_str().unwrap() == "p.png");
}

#[test]
fn serde_reads_back_what_our_encoder_escaped() {
    let s = empty_store();
    let q = "ctrl \u{1} and \u{8} and caf\u{e9}";
    let s = append_card(&s, card(q, &["a", "b"], 0, None)).unwrap();
    let v: serde_json::Value = serde_json::from_str(&s).unwrap();
    assert_eq!(v[0]["question"].as_str().unwrap(), q);
}
