use hocg_fan_sim_assets::model::{Language, Localized, Qna};
use hocg_fan_sim_assets::qna::{
    apply_qna_entry, generate_qna, missing_english, referenced_cards_of, retrieve_qna_from_ogbajoj_sheet,
    sheet_qnas, update_qna, QnaEntry,
};

fn entry(title: &str, q: Option<&str>, a: Option<&str>, rel: Option<&str>) -> QnaEntry {
    QnaEntry {
        title: title.to_string(),
        question: q.map(|s| s.to_string()),
        answer: a.map(|s| s.to_string()),
        relation: rel.map(|s| s.to_string()),
    }
}

fn blank() -> Qna {
    Qna {
        qna_number: String::new(),
        date: None,
        question: Localized::empty(),
        answer: Localized::empty(),
        referenced_cards: vec![],
    }
}

#[test]
fn qna_title_number_and_date() {
    let mut q = blank();
    update_qna(&mut q, &entry("Q398 (2025.06.11)", Some("QWhat?"), Some("AThis."), None), Language::Japanese);
    assert_eq!(q.qna_number, "Q398");
    assert_eq!(q.date.as_deref(), Some("2025-06-11"));
    assert_eq!(q.question.japanese.as_deref(), Some("What?"));
    assert_eq!(q.answer.japanese.as_deref(), Some("This."));
    assert!(q.question.english.is_none());
    update_qna(&mut q, &entry("Q12", None, None, None), Language::English);
    assert_eq!(q.qna_number, "Q12");
    assert!(q.date.is_none());
    assert!(q.question.english.is_none());
    assert_eq!(q.question.japanese.as_deref(), Some("What?"));
}

#[test]
fn qna_related_cards_sorted() {
    let rel = "関連カード\n[hSD01-002：そら]\n [hBP01-010：AZKi]\nnot a card\n[：empty]\n".to_string();
    assert_eq!(
        referenced_cards_of(&Some(rel)),
        vec!["hBP01-010".to_string(), "hSD01-002".to_string()]
    );
    assert!(referenced_cards_of(&None).is_empty());
}

#[test]
fn qna_list_ordered_by_number() {
    let mut db: Vec<Qna> = Vec::new();
    let entries = vec![
        entry("Q10 (2024.01.01)", Some("Qten"), None, None),
        entry("Q2", Some("Qtwo"), None, None),
        entry("Q30", Some("Qthirty"), None, None),
        entry("Q2 (2024.02.02)", Some("Qtwo again"), None, None),
    ];
    generate_qna(&mut db, &entries, Language::Japanese);
    let numbers: Vec<&str> = db.iter().map(|q| q.qna_number.as_str()).collect();
    assert_eq!(numbers, vec!["Q2", "Q10", "Q30"]);
    assert_eq!(db[0].question.japanese.as_deref(), Some("two again"));
    assert_eq!(db[0].date.as_deref(), Some("2024-02-02"));
    apply_qna_entry(&mut db, &entry("Q5", None, None, None), Language::Japanese);
    let numbers: Vec<&str> = db.iter().map(|q| q.qna_number.as_str()).collect();
    assert_eq!(numbers, vec!["Q2", "Q5", "Q10", "Q30"]);
}

#[test]
fn sheet_questions_from_csv() {
    let csv = "Q&A,\nQ1 - Can I?,x\nA1 - Yes.,y\n\nQ2 - Again?,\nnot an answer,\nQ3-Last?,\nA3-No.,\n";
    let t = sheet_qnas(csv);
    assert_eq!(
        t,
        vec![
            ("Q1".to_string(), "Can I?".to_string(), "Yes.".to_string()),
            ("Q3".to_string(), "Last?".to_string(), "No.".to_string()),
        ]
    );
    let mut db: Vec<Qna> = Vec::new();
    generate_qna(&mut db, &vec![entry("Q1", Some("Q?"), Some("A!"), None), entry("Q2", Some("Q?"), None, None)], Language::Japanese);
    let n = retrieve_qna_from_ogbajoj_sheet(&mut db, &t);
    assert_eq!(n, 1);
    assert_eq!(db[0].question.english.as_deref(), Some("Can I?"));
    assert_eq!(db[0].answer.english.as_deref(), Some("Yes."));
    assert_eq!(missing_english(&db), (1, 1));
}
