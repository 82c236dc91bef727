//! Questions and answers: read from the official site's entries and from
//! the fan sheet, into a list ordered by question number, one per number.
use vstd::prelude::*;
use crate::text::{chars_of_string, lines, lines_of, replace, replace_str, split_once, split_once_str, starts_with, starts_with_str, string_of, trim, trim_chars, trim_end_matches, trim_end_matches_chars, trim_start_matches, trim_start_matches_chars};
use crate::model::{Language, Localized, Order, Qna, QnaNumber, TextPair, char_views, compare_text, opt_view, qna_number_value, text_order, views};
use crate::sheet::{text_set};
use vstd::pervasive::VecAdditionalExecFns;

verus! {

/// What a question and answer of the official site shows.
#[derive(Debug, Clone)]
pub struct QnaEntry {
    /// The title, as `Q398 (2025.06.11)`.
    pub title: String,
    pub question: Option<String>,
    pub answer: Option<String>,
    /// The text of the related cards, a line each after a heading line.
    pub relation: Option<String>,
}

pub struct QnaView {
    pub qna_number: Seq<char>,
    pub date: Option<Seq<char>>,
    pub question: TextPair,
    pub answer: TextPair,
    pub referenced_cards: Seq<Seq<char>>,
}

impl View for Qna {
    type V = QnaView;

    open spec fn view(&self) -> QnaView {
        QnaView {
            qna_number: self.qna_number@,
            date: opt_view(self.date),
            question: self.question.texts(),
            answer: self.answer.texts(),
            referenced_cards: views(self.referenced_cards@),
        }
    }
}

pub open spec fn qna_views(db: Seq<Qna>) -> Seq<QnaView> {
    Seq::new(db.len(), |k: int| db[k]@)
}

// ---------------------------------------------------------------------------
// an entry of the official site
// ---------------------------------------------------------------------------
/// The number of a title: what stands before its first space.
pub open spec fn title_number(t: Seq<char>) -> Seq<char> {
    match split_once(t, " "@) {
        Some((n, _d)) => n,
        None => t,
    }
}

/// The date of a title, `(2025.06.11)` after the number, as `2025-06-11`.
pub open spec fn title_date(t: Seq<char>) -> Option<Seq<char>> {
    match split_once(t, " "@) {
        Some((_n, d)) => Some(replace(trim_end_matches(trim_start_matches(trim(d), "("@), ")"@), "."@, "-"@)),
        None => None,
    }
}

/// A related card line, `[hBP01-001：name]`: the card number before the `：`.
pub open spec fn relation_card(l: Seq<char>) -> Option<Seq<char>> {
    match split_once(trim_start_matches(trim(l), "["@), "："@) {
        Some((n, _rest)) => if trim(n).len() > 0 {
            Some(trim(n))
        } else {
            None
        },
        None => None,
    }
}

pub open spec fn relation_cards(ls: Seq<Seq<char>>) -> Seq<Seq<char>>
    decreases ls.len(),
{
    if ls.len() == 0 {
        Seq::empty()
    } else {
        let rest = relation_cards(ls.drop_last());
        match relation_card(ls.last()) {
            Some(n) => rest.push(n),
            None => rest,
        }
    }
}

/// Where `x` goes among sorted texts: after every text not greater.
pub open spec fn text_pos(r: Seq<Seq<char>>, x: Seq<char>, i: int) -> int
    decreases r.len() - i,
{
    if i < 0 || i >= r.len() {
        r.len() as int
    } else if text_order(r[i], x) == Order::Greater {
        i
    } else {
        text_pos(r, x, i + 1)
    }
}

/// The texts in increasing order.
pub open spec fn sorted_texts(s: Seq<Seq<char>>) -> Seq<Seq<char>>
    decreases s.len(),
{
    if s.len() == 0 {
        s
    } else {
        let r = sorted_texts(s.drop_last());
        r.insert(text_pos(r, s.last(), 0), s.last())
    }
}

/// The numbers of the related cards, in increasing order.
pub open spec fn referenced_of(relation: Option<Seq<char>>) -> Seq<Seq<char>> {
    match relation {
        Some(r) => if lines(r).len() > 0 {
            sorted_texts(relation_cards(lines(r).skip(1)))
        } else {
            Seq::empty()
        },
        None => Seq::empty(),
    }
}

pub open spec fn without_mark(t: Option<Seq<char>>, mark: Seq<char>) -> Option<Seq<char>> {
    match t {
        Some(x) => Some(trim_start_matches(x, mark)),
        None => None,
    }
}

/// A question and answer after the site's entry in `language`.
pub open spec fn qna_updated(q: QnaView, e: QnaEntry, language: Language) -> QnaView {
    QnaView {
        qna_number: title_number(e.title@),
        date: title_date(e.title@),
        question: text_set(q.question, language, without_mark(opt_view(e.question), "Q"@)),
        answer: text_set(q.answer, language, without_mark(opt_view(e.answer), "A"@)),
        referenced_cards: referenced_of(opt_view(e.relation)),
    }
}

fn without_mark_exec(t: &Option<String>, mark: &str) -> (r: Option<String>)
    ensures
        opt_view(r) == without_mark(opt_view(*t), mark@),
{
    match t {
        Some(x) => Some(string_of(&trim_start_matches_chars(&chars_of_string(x), mark))),
        None => None,
    }
}

/// Sorts texts in increasing order.
fn sort_texts(v: Vec<Vec<char>>) -> (r: Vec<Vec<char>>)
    ensures
        char_views(r@) == sorted_texts(char_views(v@)),
{
    let ghost vv = char_views(v@);
    let mut r: Vec<Vec<char>> = Vec::new();
    let mut i: usize = 0;
    while i < v.len()
        invariant
            i <= v.len(),
            vv == char_views(v@),
            char_views(r@) == sorted_texts(vv.take(i as int)),
        decreases v.len() - i,
    {
        let x = v[i].clone();
        let ghost r0 = char_views(r@);
        let mut p: usize = 0;
        while p < r.len() && !(compare_text(&r[p], &x) == Order::Greater)
            invariant
                p <= r.len(),
                r0 == char_views(r@),
                x@ == vv[i as int],
                text_pos(r0, x@, 0) == text_pos(r0, x@, p as int),
            decreases r.len() - p,
        {
            assert(r0[p as int] == r@[p as int]@);
            p = p + 1;
        }
        proof {
            if p < r.len() {
                assert(r0[p as int] == r@[p as int]@);
            }
        }
        r.insert(p, x);
        proof {
            assert(char_views(r@) =~= r0.insert(p as int, vv[i as int]));
            assert(vv.take(i + 1).drop_last() =~= vv.take(i as int));
            assert(vv.take(i + 1).last() == vv[i as int]);
        }
        i = i + 1;
    }
    assert(vv.take(i as int) =~= vv);
    r
}

fn relation_card_exec(l: &Vec<char>) -> (r: Option<Vec<char>>)
    ensures
        match r {
            Some(n) => relation_card(l@) == Some(n@),
            None => relation_card(l@) is None,
        },
{
    let t = trim_start_matches_chars(&trim_chars(l), "[");
    match split_once_str(&t, "：") {
        Some((n, _rest)) => {
            let n = trim_chars(&n);
            if n.len() > 0 {
                Some(n)
            } else {
                None
            }
        },
        None => None,
    }
}

/// The numbers of the related cards of a relation text, in increasing order.
pub fn referenced_cards_of(relation: &Option<String>) -> (r: Vec<String>)
    ensures
        views(r@) == referenced_of(opt_view(*relation)),
{
    match relation {
        Some(text) => {
            let ls = lines_of(&chars_of_string(text));
            let ghost lv = lines(text@);
            assert(char_views(ls@) =~= lv);
            if ls.len() == 0 {
                return Vec::new();
            }
            let ghost rest = lv.skip(1);
            let mut cards: Vec<Vec<char>> = Vec::new();
            let mut k: usize = 1;
            while k < ls.len()
                invariant
                    1 <= k <= ls.len(),
                    lv == char_views(ls@),
                    rest == lv.skip(1),
                    char_views(cards@) == relation_cards(rest.take(k - 1)),
                decreases ls.len() - k,
            {
                assert(rest.take(k as int).drop_last() =~= rest.take(k - 1));
                assert(rest.take(k as int).last() == ls@[k as int]@);
                match relation_card_exec(&ls[k]) {
                    Some(n) => {
                        let ghost c0 = char_views(cards@);
                        cards.push(n);
                        assert(char_views(cards@) =~= c0.push(n@));
                    },
                    None => {},
                }
                k = k + 1;
            }
            assert(rest.take(k - 1) =~= rest);
            let sorted = sort_texts(cards);
            let mut out: Vec<String> = Vec::new();
            let mut m: usize = 0;
            while m < sorted.len()
                invariant
                    m <= sorted.len(),
                    views(out@) == char_views(sorted@).take(m as int),
                decreases sorted.len() - m,
            {
                let ghost o = views(out@);
                let t = string_of(&sorted[m]);
                assert(t@ == char_views(sorted@)[m as int]);
                out.push(t);
                assert(views(out@) =~= o.push(t@));
                assert(char_views(sorted@).take(m + 1) =~= char_views(sorted@).take(m as int).push(char_views(sorted@)[m as int]));
                m = m + 1;
            }
            assert(char_views(sorted@).take(m as int) =~= char_views(sorted@));
            out
        },
        None => Vec::new(),
    }
}

/// Reads an entry of the official site into a question and answer, in `language`.
pub fn update_qna(qna: &mut Qna, entry: &QnaEntry, language: Language)
    ensures
        final(qna)@ == qna_updated(old(qna)@, *entry, language),
{
    proof {
        reveal_strlit(" ");
    }
    let t = chars_of_string(&entry.title);
    match split_once_str(&t, " ") {
        Some((n, d)) => {
            qna.qna_number = string_of(&n);
            let d1 = trim_start_matches_chars(&trim_chars(&d), "(");
            let d2 = trim_end_matches_chars(&d1, ")");
            proof {
                reveal_strlit(".");
            }
            qna.date = Some(string_of(&replace_str(&d2, ".", "-")));
        },
        None => {
            qna.qna_number = entry.title.clone();
            qna.date = None;
        },
    }
    qna.question.set(language, without_mark_exec(&entry.question, "Q"));
    qna.answer.set(language, without_mark_exec(&entry.answer, "A"));
    qna.referenced_cards = referenced_cards_of(&entry.relation);
}

// ---------------------------------------------------------------------------
// the list of questions
// ---------------------------------------------------------------------------
/// The number that orders a question.
pub open spec fn qna_key(q: QnaView) -> u32 {
    qna_number_value(q.qna_number)
}

/// Questions in strictly increasing order of number: one per number.
pub open spec fn qnas_ordered(db: Seq<QnaView>) -> bool {
    forall|a: int, b: int| 0 <= a < b < db.len() ==> qna_key(db[a]) < qna_key(db[b])
}

/// The question with number `v`, from `i` on.
pub open spec fn find_qna(db: Seq<QnaView>, v: u32, i: int) -> Option<int>
    decreases db.len() - i,
{
    if i < 0 || i >= db.len() {
        None
    } else if qna_key(db[i]) == v {
        Some(i)
    } else {
        find_qna(db, v, i + 1)
    }
}

/// Where a question numbered `v` goes: before the first with a greater number.
pub open spec fn qna_pos(db: Seq<QnaView>, v: u32, i: int) -> int
    decreases db.len() - i,
{
    if i < 0 || i >= db.len() {
        db.len() as int
    } else if qna_key(db[i]) > v {
        i
    } else {
        qna_pos(db, v, i + 1)
    }
}

/// A question with nothing known of it.
pub open spec fn blank_qna() -> QnaView {
    QnaView {
        qna_number: Seq::empty(),
        date: None,
        question: (None, None),
        answer: (None, None),
        referenced_cards: Seq::empty(),
    }
}

/// The list after an entry of the official site: the question with its
/// number is updated, or added in its place.
pub open spec fn qna_step(db: Seq<QnaView>, e: QnaEntry, language: Language) -> Seq<QnaView> {
    let v = qna_number_value(title_number(e.title@));
    match find_qna(db, v, 0) {
        Some(i) => db.update(i, qna_updated(db[i], e, language)),
        None => db.insert(qna_pos(db, v, 0), qna_updated(blank_qna(), e, language)),
    }
}

pub open spec fn qna_steps(db: Seq<QnaView>, es: Seq<QnaEntry>, language: Language) -> Seq<QnaView>
    decreases es.len(),
{
    if es.len() == 0 {
        db
    } else {
        qna_step(qna_steps(db, es.drop_last(), language), es.last(), language)
    }
}

proof fn lemma_find_qna_bounds(db: Seq<QnaView>, v: u32, i: int)
    ensures
        find_qna(db, v, i) matches Some(k) ==> 0 <= k < db.len() && i <= k && qna_key(db[k]) == v,
        find_qna(db, v, i) is None && 0 <= i ==> forall|k: int| i <= k < db.len() ==> qna_key(db[k]) != v,
    decreases db.len() - i,
{
    if 0 <= i < db.len() {
        lemma_find_qna_bounds(db, v, i + 1);
    }
}

proof fn lemma_qna_pos_bounds(db: Seq<QnaView>, v: u32, i: int)
    requires
        0 <= i <= db.len(),
    ensures
        i <= qna_pos(db, v, i) <= db.len(),
        forall|k: int| i <= k < qna_pos(db, v, i) ==> qna_key(db[k]) <= v,
        qna_pos(db, v, i) < db.len() ==> qna_key(db[qna_pos(db, v, i)]) > v,
    decreases db.len() - i,
{
    if i < db.len() && qna_key(db[i]) <= v {
        lemma_qna_pos_bounds(db, v, i + 1);
    }
}

fn find_qna_index(db: &Vec<Qna>, v: u32) -> (r: Option<usize>)
    ensures
        match r {
            Some(i) => find_qna(qna_views(db@), v, 0) == Some(i as int),
            None => find_qna(qna_views(db@), v, 0) is None,
        },
{
    let ghost dv = qna_views(db@);
    let mut i: usize = 0;
    while i < db.len()
        invariant
            i <= db.len(),
            dv == qna_views(db@),
            find_qna(dv, v, 0) == find_qna(dv, v, i as int),
        decreases db.len() - i,
    {
        let n = QnaNumber::from_string(db[i].qna_number.clone()).number();
        if n == v {
            return Some(i);
        }
        i = i + 1;
    }
    None
}

fn qna_pos_index(db: &Vec<Qna>, v: u32) -> (r: usize)
    ensures
        r as int == qna_pos(qna_views(db@), v, 0),
{
    let ghost dv = qna_views(db@);
    let mut i: usize = 0;
    while i < db.len()
        invariant
            i <= db.len(),
            dv == qna_views(db@),
            qna_pos(dv, v, 0) == qna_pos(dv, v, i as int),
        decreases db.len() - i,
    {
        let n = QnaNumber::from_string(db[i].qna_number.clone()).number();
        if n > v {
            return i;
        }
        i = i + 1;
    }
    i
}

/// Reads one entry of the official site into the list.
pub fn apply_qna_entry(db: &mut Vec<Qna>, entry: &QnaEntry, language: Language)
    ensures
        qna_views(final(db)@) == qna_step(qna_views(old(db)@), *entry, language),
        qnas_ordered(qna_views(old(db)@)) ==> qnas_ordered(qna_views(final(db)@)),
{
    let ghost d0 = qna_views(db@);
    proof {
        if qnas_ordered(d0) {
            lemma_qna_step_ordered(d0, *entry, language);
        }
    }
    proof {
        reveal_strlit(" ");
    }
    let number = match split_once_str(&chars_of_string(&entry.title), " ") {
        Some((n, _d)) => string_of(&n),
        None => entry.title.clone(),
    };
    let v = QnaNumber::from_string(number).number();
    proof {
        lemma_find_qna_bounds(d0, v, 0);
    }
    match find_qna_index(db, v) {
        Some(i) => {
            let mut q = Qna {
                qna_number: String::new(),
                date: None,
                question: Localized::empty(),
                answer: Localized::empty(),
                referenced_cards: Vec::new(),
            };
            db.set_and_swap(i, &mut q);
            assert(q@ == d0[i as int]);
            update_qna(&mut q, entry, language);
            db.set(i, q);
            assert(qna_views(db@) =~= d0.update(i as int, q@));
        },
        None => {
            let mut q = Qna {
                qna_number: String::new(),
                date: None,
                question: Localized::empty(),
                answer: Localized::empty(),
                referenced_cards: Vec::new(),
            };
            assert(q@.referenced_cards =~= Seq::<Seq<char>>::empty());
            assert(q@ == blank_qna());
            update_qna(&mut q, entry, language);
            let p = qna_pos_index(db, v);
            proof {
                lemma_qna_pos_bounds(d0, v, 0);
            }
            db.insert(p, q);
            assert(qna_views(db@) =~= d0.insert(p as int, q@));
        },
    }
}

/// Reads the entries of the official site, in order, into the list.
pub fn generate_qna(db: &mut Vec<Qna>, entries: &Vec<QnaEntry>, language: Language)
    ensures
        qna_views(final(db)@) == qna_steps(qna_views(old(db)@), entries@, language),
        qnas_ordered(qna_views(old(db)@)) ==> qnas_ordered(qna_views(final(db)@)),
{
    let ghost d0 = qna_views(db@);
    let mut k: usize = 0;
    while k < entries.len()
        invariant
            k <= entries.len(),
            qna_views(db@) == qna_steps(d0, entries@.take(k as int), language),
            qnas_ordered(d0) ==> qnas_ordered(qna_views(db@)),
        decreases entries.len() - k,
    {
        assert(entries@.take(k + 1).drop_last() =~= entries@.take(k as int));
        apply_qna_entry(db, &entries[k], language);
        k = k + 1;
    }
    assert(entries@.take(k as int) =~= entries@);
}

/// Reading an entry keeps the list ordered by number, one question per
/// number, and the entry's question is then in it.
pub proof fn lemma_qna_step_ordered(db: Seq<QnaView>, e: QnaEntry, language: Language)
    requires
        qnas_ordered(db),
    ensures
        qnas_ordered(qna_step(db, e, language)),
        find_qna(qna_step(db, e, language), qna_number_value(title_number(e.title@)), 0) is Some,
{
    let v = qna_number_value(title_number(e.title@));
    let r = qna_step(db, e, language);
    lemma_find_qna_bounds(db, v, 0);
    let u = qna_updated(blank_qna(), e, language);
    assert(qna_key(u) == v);
    match find_qna(db, v, 0) {
        Some(i) => {
            assert(qna_key(qna_updated(db[i], e, language)) == v);
            assert forall|a: int, b: int| 0 <= a < b < r.len() implies qna_key(r[a]) < qna_key(r[b]) by {
                assert(qna_key(r[a]) == qna_key(db[a]));
                assert(qna_key(r[b]) == qna_key(db[b]));
            }
            lemma_find_qna_bounds(r, v, 0);
            assert(qna_key(r[i]) == v);
        },
        None => {
            let p = qna_pos(db, v, 0);
            lemma_qna_pos_bounds(db, v, 0);
            assert forall|k: int| 0 <= k < p implies qna_key(db[k]) < v by {
                assert(qna_key(db[k]) != v);
            }
            assert forall|a: int, b: int| 0 <= a < b < r.len() implies qna_key(r[a]) < qna_key(r[b]) by {
                if b < p {
                } else if b == p {
                } else if a < p {
                    assert(qna_key(db[a]) < v);
                    assert(qna_key(db[p]) <= qna_key(db[b - 1]));
                } else if a == p {
                    assert(qna_key(db[p]) > v);
                    assert(qna_key(db[p]) <= qna_key(db[b - 1]));
                } else {
                }
            }
            lemma_find_qna_bounds(r, v, 0);
            assert(qna_key(r[p]) == v);
        },
    }
}

// ---------------------------------------------------------------------------
// the fan sheet's translations
// ---------------------------------------------------------------------------
/// The records of a CSV text without a header row, each a list of fields;
/// records that do not read are left out.
pub uninterp spec fn csv_rows(content: Seq<char>) -> Seq<Seq<Seq<char>>>;

pub open spec fn rows_view(r: Seq<Vec<String>>) -> Seq<Seq<Seq<char>>> {
    Seq::new(r.len(), |k: int| views(r[k]@))
}

/// `csv::ReaderBuilder` without headers over the text, then each record of
/// `Reader::records` that reads, as its fields. The contract names the result.
#[verifier::external_body]
fn csv_records(content: &str) -> (r: Vec<Vec<String>>)
    ensures
        rows_view(r@) == csv_rows(content@),
{
    let mut rdr = csv::ReaderBuilder::new().has_headers(false).from_reader(content.as_bytes());
    rdr.records().flatten().map(|rec| rec.iter().map(|f| f.to_string()).collect()).collect()
}

/// A question row and the answer row after it: `Q<n> - question` and
/// `A<n> - answer`, as number, question and answer, trimmed.
pub open spec fn sheet_qna(q: Seq<char>, a: Seq<char>) -> Option<(Seq<char>, Seq<char>, Seq<char>)> {
    if !starts_with(q, "Q"@) || !starts_with(a, "A"@) {
        None
    } else {
        match (split_once(q, "-"@), split_once(a, "-"@)) {
            (Some((n, qt)), Some((_m, at))) => Some((trim(n), trim(qt), trim(at))),
            _ => None,
        }
    }
}

/// The questions of the sheet's rows: every two consecutive non-empty rows
/// whose first fields read as a question and its answer.
pub open spec fn sheet_qnas_of(firsts: Seq<Seq<char>>) -> Seq<(Seq<char>, Seq<char>, Seq<char>)>
    decreases firsts.len(),
{
    if firsts.len() < 2 {
        Seq::empty()
    } else {
        let rest = sheet_qnas_of(firsts.drop_last());
        match sheet_qna(firsts[firsts.len() - 2], firsts.last()) {
            Some(t) => rest.push(t),
            None => rest,
        }
    }
}

/// The first fields of the non-empty rows.
pub open spec fn first_fields(rows: Seq<Seq<Seq<char>>>) -> Seq<Seq<char>>
    decreases rows.len(),
{
    if rows.len() == 0 {
        Seq::empty()
    } else {
        let rest = first_fields(rows.drop_last());
        if rows.last().len() > 0 {
            rest.push(rows.last()[0])
        } else {
            rest
        }
    }
}

pub open spec fn triple_views(v: Seq<(String, String, String)>) -> Seq<(Seq<char>, Seq<char>, Seq<char>)> {
    Seq::new(v.len(), |k: int| (v[k].0@, v[k].1@, v[k].2@))
}

fn sheet_qna_exec(q: &Vec<char>, a: &Vec<char>) -> (r: Option<(String, String, String)>)
    ensures
        match r {
            Some(t) => sheet_qna(q@, a@) == Some((t.0@, t.1@, t.2@)),
            None => sheet_qna(q@, a@) is None,
        },
{
    if !starts_with_str(q, "Q") || !starts_with_str(a, "A") {
        return None;
    }
    match (split_once_str(q, "-"), split_once_str(a, "-")) {
        (Some((n, qt)), Some((_m, at))) => Some(
            (string_of(&trim_chars(&n)), string_of(&trim_chars(&qt)), string_of(&trim_chars(&at))),
        ),
        _ => None,
    }
}

/// The questions and answers of a sheet exported as CSV.
pub fn sheet_qnas(content: &str) -> (r: Vec<(String, String, String)>)
    ensures
        triple_views(r@) == sheet_qnas_of(first_fields(csv_rows(content@))),
{
    let rows = csv_records(content);
    let ghost rv = rows_view(rows@);
    let mut firsts: Vec<Vec<char>> = Vec::new();
    let mut k: usize = 0;
    while k < rows.len()
        invariant
            k <= rows.len(),
            rv == rows_view(rows@),
            char_views(firsts@) == first_fields(rv.take(k as int)),
        decreases rows.len() - k,
    {
        assert(rv.take(k + 1).drop_last() =~= rv.take(k as int));
        assert(rv.take(k + 1).last() == views(rows@[k as int]@));
        if rows[k].len() > 0 {
            let ghost f0 = char_views(firsts@);
            firsts.push(chars_of_string(&rows[k][0]));
            assert(char_views(firsts@) =~= f0.push(rows@[k as int]@[0]@));
        }
        k = k + 1;
    }
    assert(rv.take(k as int) =~= rv);
    let ghost fv = char_views(firsts@);
    let mut out: Vec<(String, String, String)> = Vec::new();
    let mut m: usize = 0;
    while m < firsts.len()
        invariant
            m <= firsts.len(),
            fv == char_views(firsts@),
            triple_views(out@) == sheet_qnas_of(fv.take(m as int)),
        decreases firsts.len() - m,
    {
        assert(fv.take(m + 1).drop_last() =~= fv.take(m as int));
        if m >= 1 {
            assert(fv.take(m + 1)[m - 1] == firsts@[m - 1]@);
            assert(fv.take(m + 1).last() == firsts@[m as int]@);
            match sheet_qna_exec(&firsts[m - 1], &firsts[m]) {
                Some(t) => {
                    let ghost o = triple_views(out@);
                    out.push(t);
                    assert(triple_views(out@) =~= o.push((t.0@, t.1@, t.2@)));
                },
                None => {},
            }
        }
        m = m + 1;
    }
    assert(fv.take(m as int) =~= fv);
    out
}

/// The list after the sheet's translations: the question with each number
/// gets the English question and answer; the number of questions updated.
pub open spec fn sheet_applied(db: Seq<QnaView>, ts: Seq<(Seq<char>, Seq<char>, Seq<char>)>) -> (Seq<QnaView>, nat)
    decreases ts.len(),
{
    if ts.len() == 0 {
        (db, 0)
    } else {
        let (d, n) = sheet_applied(db, ts.drop_last());
        let t = ts.last();
        match find_qna(d, qna_number_value(t.0), 0) {
            Some(i) => (
                d.update(
                    i,
                    QnaView {
                        question: (d[i].question.0, Some(t.1)),
                        answer: (d[i].answer.0, Some(t.2)),
                        ..d[i]
                    },
                ),
                n + 1,
            ),
            None => (d, n),
        }
    }
}

/// Writes the sheet's English questions and answers into the list; returns
/// the number of questions updated.
pub fn retrieve_qna_from_ogbajoj_sheet(db: &mut Vec<Qna>, translations: &Vec<(String, String, String)>) -> (r: usize)
    ensures
        (qna_views(final(db)@), r as nat) == sheet_applied(qna_views(old(db)@), triple_views(translations@)),
        qnas_ordered(qna_views(old(db)@)) ==> qnas_ordered(qna_views(final(db)@)),
{
    let ghost d0 = qna_views(db@);
    let ghost tv = triple_views(translations@);
    let mut n: usize = 0;
    let mut k: usize = 0;
    while k < translations.len()
        invariant
            k <= translations.len(),
            n <= k,
            tv == triple_views(translations@),
            (qna_views(db@), n as nat) == sheet_applied(d0, tv.take(k as int)),
            d0.len() == qna_views(db@).len(),
            forall|q: int| 0 <= q < d0.len() ==> qna_key(#[trigger] qna_views(db@)[q]) == qna_key(d0[q]),
        decreases translations.len() - k,
    {
        assert(tv.take(k + 1).drop_last() =~= tv.take(k as int));
        assert(tv.take(k + 1).last() == tv[k as int]);
        let t = &translations[k];
        let v = QnaNumber::from_string(t.0.clone()).number();
        let ghost d = qna_views(db@);
        proof {
            lemma_find_qna_bounds(d, v, 0);
        }
        match find_qna_index(db, v) {
            Some(i) => {
                db[i].question.english = Some(t.1.clone());
                db[i].answer.english = Some(t.2.clone());
                assert(qna_views(db@) =~= d.update(
                    i as int,
                    QnaView { question: (d[i as int].question.0, Some(t.1@)), answer: (d[i as int].answer.0, Some(t.2@)), ..d[i as int] },
                ));
                n = n + 1;
            },
            None => {},
        }
        k = k + 1;
    }
    assert(tv.take(k as int) =~= tv);
    proof {
        let d = qna_views(db@);
        if qnas_ordered(d0) {
            assert forall|a: int, b: int| 0 <= a < b < d.len() implies qna_key(d[a]) < qna_key(d[b]) by {
                assert(qna_key(d[a]) == qna_key(d0[a]));
                assert(qna_key(d[b]) == qna_key(d0[b]));
            }
        }
    }
    n
}

/// The number of questions without an English question, and without an English answer.
pub fn missing_english(db: &Vec<Qna>) -> (r: (usize, usize))
    ensures
        r.0 == qna_views(db@).filter(|q: QnaView| q.question.1 is None).len(),
        r.1 == qna_views(db@).filter(|q: QnaView| q.answer.1 is None).len(),
{
    let ghost dv = qna_views(db@);
    let ghost fq = |q: QnaView| q.question.1 is None;
    let ghost fa = |q: QnaView| q.answer.1 is None;
    let mut a: usize = 0;
    let mut b: usize = 0;
    let mut k: usize = 0;
    while k < db.len()
        invariant
            k <= db.len(),
            dv == qna_views(db@),
            fq == (|q: QnaView| q.question.1 is None),
            fa == (|q: QnaView| q.answer.1 is None),
            a == dv.take(k as int).filter(fq).len(),
            b == dv.take(k as int).filter(fa).len(),
            a <= k,
            b <= k,
        decreases db.len() - k,
    {
        proof {
            assert(dv.take(k + 1) =~= dv.take(k as int).push(dv[k as int]));
            dv.take(k as int).lemma_filter_push(dv[k as int], fq);
            dv.take(k as int).lemma_filter_push(dv[k as int], fa);
        }
        assert(dv[k as int] == db@[k as int]@);
        if db[k].question.english.is_none() {
            a = a + 1;
        }
        if db[k].answer.english.is_none() {
            b = b + 1;
        }
        k = k + 1;
    }
    assert(dv.take(k as int) =~= dv);
    (a, b)
}

} // verus!
