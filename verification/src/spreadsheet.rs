//! The fan spreadsheet as a whole: its sheets, the header row of a sheet's
//! table, and the rows of cards under it.
use vstd::prelude::*;
use crate::text::{ascii_lowercase, ascii_lowercase_chars, chars_of, chars_of_string, contains, contains_str, eq, find, find_chars, lowercase, push_all, slice_chars, split_once, split_once_str, string_of, trim, trim_chars};
use crate::model::{Card, CardType, CardView, Language, Localized, TextPair, copy_localized, copy_opt_string, opt_view};
use crate::sheet::{SheetCard, sheet_applied, sheet_arts_ok};
use vstd::pervasive::VecAdditionalExecFns;








verus! {

/// The properties of the spreadsheet.
#[derive(Debug, Clone)]
pub struct SpreadsheetProperties {
    pub title: String,
}

/// The properties of one sheet.
#[derive(Debug, Clone)]
pub struct SheetProperties {
    pub sheet_id: u64,
    pub title: String,
}

/// One sheet of the spreadsheet.
#[derive(Debug, Clone)]
pub struct Sheet {
    pub properties: SheetProperties,
}

/// The spreadsheet and its sheets.
#[derive(Debug, Clone)]
pub struct Spreadsheet {
    pub properties: SpreadsheetProperties,
    pub sheets: Vec<Sheet>,
}

/// One cell of a sheet's table: its text as the page shows it, its text
/// with line breaks and trimmed, and the source of its first image.
#[derive(Debug, Clone)]
pub struct TableCell {
    pub text: String,
    pub content: String,
    pub img_src: Option<String>,
}

/// The columns that a header row names.
#[derive(Debug, Clone, Copy, PartialEq, Eq, Structural)]
pub struct HeaderIndices {
    pub set_code: Option<usize>,
    pub card_name: Option<usize>,
    pub image: Option<usize>,
    pub card_type: Option<usize>,
    pub rarity_1: Option<usize>,
    pub color: Option<usize>,
    pub life_hp: Option<usize>,
    pub tags: Option<usize>,
    pub text: Option<usize>,
    pub alternate_art: Option<usize>,
    pub rarity_2: Option<usize>,
    pub alternate_art_2: Option<usize>,
    pub rarity_3: Option<usize>,
    pub source: Option<usize>,
}

pub open spec fn no_headers() -> HeaderIndices {
    HeaderIndices {
        set_code: None,
        card_name: None,
        image: None,
        card_type: None,
        rarity_1: None,
        color: None,
        life_hp: None,
        tags: None,
        text: None,
        alternate_art: None,
        rarity_2: None,
        alternate_art_2: None,
        rarity_3: None,
        source: None,
    }
}

/// What the header `h` (trimmed, in ASCII lowercase) in column `i` names; a
/// later column naming the same thing wins, except rarities, which fill the
/// first, second and third rarity columns in turn.
pub open spec fn header_step(x: HeaderIndices, i: usize, h: Seq<char>) -> HeaderIndices {
    let some = Some(i);
    HeaderIndices {
        set_code: if contains(h, "setcode"@) || contains(h, "set code"@) {
            some
        } else {
            x.set_code
        },
        card_name: if contains(h, "card name"@) {
            some
        } else {
            x.card_name
        },
        image: if contains(h, "image"@) {
            some
        } else {
            x.image
        },
        card_type: if contains(h, "type"@) {
            some
        } else {
            x.card_type
        },
        color: if contains(h, "color"@) {
            some
        } else {
            x.color
        },
        life_hp: if contains(h, "life"@) || contains(h, "hp"@) {
            some
        } else {
            x.life_hp
        },
        tags: if contains(h, "tags"@) {
            some
        } else {
            x.tags
        },
        alternate_art_2: if contains(h, "alternate art"@) && contains(h, "2"@) {
            some
        } else {
            x.alternate_art_2
        },
        alternate_art: if contains(h, "alternate art"@) && !contains(h, "2"@) {
            some
        } else {
            x.alternate_art
        },
        rarity_1: if contains(h, "rarity"@) && x.rarity_1 is None {
            some
        } else {
            x.rarity_1
        },
        rarity_2: if contains(h, "rarity"@) && x.rarity_1 is Some && x.rarity_2 is None {
            some
        } else {
            x.rarity_2
        },
        rarity_3: if contains(h, "rarity"@) && x.rarity_1 is Some && x.rarity_2 is Some
            && x.rarity_3 is None {
            some
        } else {
            x.rarity_3
        },
        text: if contains(h, "text"@) {
            some
        } else {
            x.text
        },
        source: if contains(h, "source"@) {
            some
        } else {
            x.source
        },
    }
}

/// The trimmed ASCII-lowercase text of a header cell.
pub open spec fn header_text(c: TableCell) -> Seq<char> {
    ascii_lowercase(trim(c.text@))
}

/// The columns that the first `n` cells of a header row name.
pub open spec fn header_indices(cells: Seq<TableCell>, n: int) -> HeaderIndices
    decreases n,
{
    if n <= 0 {
        no_headers()
    } else {
        header_step(header_indices(cells, n - 1), (n - 1) as usize, header_text(cells[n - 1]))
    }
}

/// A header row names the set code, image and rarity columns.
pub open spec fn is_header(x: HeaderIndices) -> bool {
    x.set_code is Some && x.image is Some && x.rarity_1 is Some
}

/// The first header row of a table, and its columns.
pub open spec fn find_header(rows: Seq<Vec<TableCell>>, i: int) -> Option<(int, HeaderIndices)>
    decreases rows.len() - i,
{
    if i < 0 || i >= rows.len() {
        None
    } else if is_header(header_indices(rows[i]@, rows[i]@.len() as int)) {
        Some((i, header_indices(rows[i]@, rows[i]@.len() as int)))
    } else {
        find_header(rows, i + 1)
    }
}

fn header_step_exec(x: HeaderIndices, i: usize, h: &Vec<char>) -> (r: HeaderIndices)
    ensures
        r == header_step(x, i, h@),
{
    let some = Some(i);
    let has_rarity = contains_str(h, "rarity");
    let alt = contains_str(h, "alternate art");
    let two = contains_str(h, "2");
    HeaderIndices {
        set_code: if contains_str(h, "setcode") || contains_str(h, "set code") {
            some
        } else {
            x.set_code
        },
        card_name: if contains_str(h, "card name") {
            some
        } else {
            x.card_name
        },
        image: if contains_str(h, "image") {
            some
        } else {
            x.image
        },
        card_type: if contains_str(h, "type") {
            some
        } else {
            x.card_type
        },
        color: if contains_str(h, "color") {
            some
        } else {
            x.color
        },
        life_hp: if contains_str(h, "life") || contains_str(h, "hp") {
            some
        } else {
            x.life_hp
        },
        tags: if contains_str(h, "tags") {
            some
        } else {
            x.tags
        },
        alternate_art_2: if alt && two {
            some
        } else {
            x.alternate_art_2
        },
        alternate_art: if alt && !two {
            some
        } else {
            x.alternate_art
        },
        rarity_1: if has_rarity && x.rarity_1.is_none() {
            some
        } else {
            x.rarity_1
        },
        rarity_2: if has_rarity && x.rarity_1.is_some() && x.rarity_2.is_none() {
            some
        } else {
            x.rarity_2
        },
        rarity_3: if has_rarity && x.rarity_1.is_some() && x.rarity_2.is_some()
            && x.rarity_3.is_none() {
            some
        } else {
            x.rarity_3
        },
        text: if contains_str(h, "text") {
            some
        } else {
            x.text
        },
        source: if contains_str(h, "source") {
            some
        } else {
            x.source
        },
    }
}

/// The columns that a header row names.
pub fn header_indices_of(cells: &Vec<TableCell>) -> (r: HeaderIndices)
    ensures
        r == header_indices(cells@, cells@.len() as int),
{
    let mut x = HeaderIndices {
        set_code: None,
        card_name: None,
        image: None,
        card_type: None,
        rarity_1: None,
        color: None,
        life_hp: None,
        tags: None,
        text: None,
        alternate_art: None,
        rarity_2: None,
        alternate_art_2: None,
        rarity_3: None,
        source: None,
    };
    let mut i: usize = 0;
    while i < cells.len()
        invariant
            i <= cells.len(),
            x == header_indices(cells@, i as int),
        decreases cells.len() - i,
    {
        let h = ascii_lowercase_chars(&trim_chars(&chars_of_string(&cells[i].text)));
        x = header_step_exec(x, i, &h);
        i = i + 1;
    }
    x
}

/// The first header row of a table and its columns.
pub fn find_header_row(rows: &Vec<Vec<TableCell>>) -> (r: Option<(usize, HeaderIndices)>)
    ensures
        match r {
            Some((i, x)) => find_header(rows@, 0) == Some((i as int, x)),
            None => find_header(rows@, 0).is_none(),
        },
{
    let mut i: usize = 0;
    while i < rows.len()
        invariant
            i <= rows.len(),
            find_header(rows@, 0) == find_header(rows@, i as int),
        decreases rows.len() - i,
    {
        let x = header_indices_of(&rows[i]);
        if x.set_code.is_some() && x.image.is_some() && x.rarity_1.is_some() {
            return Some((i, x));
        }
        i = i + 1;
    }
    None
}


// ---------------------------------------------------------------------------
// the rows under the header
// ---------------------------------------------------------------------------
/// The text of the cell in column `idx`, empty when there is none.
pub open spec fn cell_content(cells: Seq<TableCell>, idx: Option<usize>) -> Seq<char> {
    match idx {
        Some(i) => if i < cells.len() {
            cells[i as int].content@
        } else {
            Seq::empty()
        },
        None => Seq::empty(),
    }
}

/// The image source of the cell in column `idx`.
pub open spec fn cell_img(cells: Seq<TableCell>, idx: Option<usize>) -> Option<Seq<char>> {
    match idx {
        Some(i) => if i < cells.len() {
            opt_view(cells[i as int].img_src)
        } else {
            None
        },
        None => None,
    }
}

/// The trimmed text of the rarity cell in column `idx`.
pub open spec fn cell_rarity(cells: Seq<TableCell>, idx: Option<usize>) -> Option<Seq<char>> {
    match idx {
        Some(i) => if i < cells.len() {
            Some(trim(cells[i as int].text@))
        } else {
            None
        },
        None => None,
    }
}

/// An alternate rarity; cheers have another number there, `SY`, which is none.
pub open spec fn alt_rarity(cells: Seq<TableCell>, idx: Option<usize>) -> Option<Seq<char>> {
    match cell_rarity(cells, idx) {
        Some(r) => if r == "SY"@ {
            None
        } else {
            Some(r)
        },
        None => None,
    }
}

/// A row without cells or with only blank cells.
pub open spec fn row_is_blank(cells: Seq<TableCell>) -> bool {
    cells.len() == 0 || forall|i: int| 0 <= i < cells.len() ==> trim((#[trigger] cells[i]).text@).len() == 0
}

/// The language of a row's card: Japanese unless the source or text says English only.
pub open spec fn row_language(text: Seq<char>, source: Seq<char>) -> Language {
    if contains(source, "(JP)"@) {
        Language::Japanese
    } else if contains(text, "EN exclusive"@) || contains(source, "EN only"@) || contains(
        source,
        "(EN)"@,
    ) {
        Language::English
    } else {
        Language::Japanese
    }
}

pub open spec fn image_entry(img: Option<Seq<char>>, rarity: Option<Seq<char>>) -> Seq<
    (Seq<char>, Seq<char>),
> {
    match (img, rarity) {
        (Some(s), Some(r)) => seq![(s, r)],
        _ => Seq::empty(),
    }
}

/// The images of a row with their rarities: the main image, then the
/// alternate arts.
pub open spec fn row_images(cells: Seq<TableCell>, x: HeaderIndices) -> Seq<(Seq<char>, Seq<char>)> {
    image_entry(cell_img(cells, x.image), cell_rarity(cells, x.rarity_1)) + image_entry(
        cell_img(cells, x.alternate_art),
        alt_rarity(cells, x.rarity_2),
    ) + image_entry(cell_img(cells, x.alternate_art_2), alt_rarity(cells, x.rarity_3))
}

/// The image address without its size, before the first `=`.
pub open spec fn image_base(src: Seq<char>) -> Seq<char> {
    match find(src, "="@) {
        Some(i) => src.take(i),
        None => src,
    }
}

/// The query of an image address, from the first `?` on.
pub open spec fn image_query(src: Seq<char>) -> Seq<char> {
    match find(src, "?"@) {
        Some(i) => src.skip(i),
        None => Seq::empty(),
    }
}

/// The address of the full-size image.
pub open spec fn full_size_url(src: Seq<char>) -> Seq<char> {
    image_base(src) + image_query(src)
}

/// The address of the small image that is hashed.
pub open spec fn hash_url(src: Seq<char>) -> Seq<char> {
    image_base(src) + "=w120-h168"@ + image_query(src)
}

/// The rows that hold a card: not blank, with a set code.
pub open spec fn is_card_row(cells: Seq<TableCell>, x: HeaderIndices) -> bool {
    !row_is_blank(cells) && cell_content(cells, x.set_code).len() > 0
}

/// The images of the card rows `from..to`, with the row of each.
pub open spec fn row_entries(rows: Seq<Vec<TableCell>>, x: HeaderIndices, from: int, to: int) -> Seq<
    (int, Seq<char>, Seq<char>),
>
    decreases to - from,
{
    if to <= from || to > rows.len() || from < 0 {
        Seq::empty()
    } else {
        let r = to - 1;
        let cells = rows[r]@;
        let here = if is_card_row(cells, x) {
            row_images(cells, x).map_values(|e: (Seq<char>, Seq<char>)| (r, e.0, e.1))
        } else {
            Seq::empty()
        };
        row_entries(rows, x, from, r) + here
    }
}

/// `c` is the card of an image `src` with `rarity` in the row `row` of `cells`.
pub open spec fn is_row_card(
    c: SheetCard,
    row: int,
    cells: Seq<TableCell>,
    x: HeaderIndices,
    src: Seq<char>,
    rarity: Seq<char>,
) -> bool {
    &&& c.row_idx == row
    &&& c.set_code@ == cell_content(cells, x.set_code)
    &&& c.card_name_jp_en@ == cell_content(cells, x.card_name)
    &&& c.language == row_language(cell_content(cells, x.text), cell_content(cells, x.source))
    &&& c.images_src@ == src
    &&& c.full_size_img_url@ == full_size_url(src)
    &&& c.hash_img_url@ == hash_url(src)
    &&& c.card_type@ == cell_content(cells, x.card_type)
    &&& c.rarity@ == rarity
    &&& c.color@ == cell_content(cells, x.color)
    &&& c.life_hp@ == cell_content(cells, x.life_hp)
    &&& c.tags@ == cell_content(cells, x.tags)
    &&& c.text@ == cell_content(cells, x.text)
}

/// `cards` are the cards of the images of the card rows `from..to`.
pub open spec fn are_row_cards(
    cards: Seq<SheetCard>,
    rows: Seq<Vec<TableCell>>,
    x: HeaderIndices,
    from: int,
    to: int,
) -> bool {
    let es = row_entries(rows, x, from, to);
    &&& cards.len() == es.len()
    &&& forall|k: int|
        0 <= k < cards.len() ==> is_row_card(
            #[trigger] cards[k],
            es[k].0,
            rows[es[k].0]@,
            x,
            es[k].1,
            es[k].2,
        )
}

fn cell_content_exec(cells: &Vec<TableCell>, idx: Option<usize>) -> (r: String)
    ensures
        r@ == cell_content(cells@, idx),
{
    match idx {
        Some(i) => if i < cells.len() {
            cells[i].content.clone()
        } else {
            String::new()
        },
        None => String::new(),
    }
}

fn cell_img_exec(cells: &Vec<TableCell>, idx: Option<usize>) -> (r: Option<String>)
    ensures
        opt_view(r) == cell_img(cells@, idx),
{
    match idx {
        Some(i) => if i < cells.len() {
            copy_opt_string(&cells[i].img_src)
        } else {
            None
        },
        None => None,
    }
}

fn cell_rarity_exec(cells: &Vec<TableCell>, idx: Option<usize>) -> (r: Option<Vec<char>>)
    ensures
        match r {
            Some(v) => cell_rarity(cells@, idx) == Some(v@),
            None => cell_rarity(cells@, idx).is_none(),
        },
{
    match idx {
        Some(i) => if i < cells.len() {
            Some(trim_chars(&chars_of_string(&cells[i].text)))
        } else {
            None
        },
        None => None,
    }
}

fn alt_rarity_exec(cells: &Vec<TableCell>, idx: Option<usize>) -> (r: Option<Vec<char>>)
    ensures
        match r {
            Some(v) => alt_rarity(cells@, idx) == Some(v@),
            None => alt_rarity(cells@, idx).is_none(),
        },
{
    match cell_rarity_exec(cells, idx) {
        Some(v) => if eq(&v, &chars_of("SY")) {
            None
        } else {
            Some(v)
        },
        None => None,
    }
}

fn row_is_blank_exec(cells: &Vec<TableCell>) -> (r: bool)
    ensures
        r == row_is_blank(cells@),
{
    if cells.len() == 0 {
        return true;
    }
    let mut i: usize = 0;
    while i < cells.len()
        invariant
            i <= cells.len(),
            forall|k: int| 0 <= k < i ==> trim((#[trigger] cells@[k]).text@).len() == 0,
        decreases cells.len() - i,
    {
        if trim_chars(&chars_of_string(&cells[i].text)).len() > 0 {
            return false;
        }
        i = i + 1;
    }
    true
}

fn row_language_exec(text: &String, source: &String) -> (r: Language)
    ensures
        r == row_language(text@, source@),
{
    let t = chars_of_string(text);
    let s = chars_of_string(source);
    if contains_str(&s, "(JP)") {
        Language::Japanese
    } else if contains_str(&t, "EN exclusive") || contains_str(&s, "EN only") || contains_str(
        &s,
        "(EN)",
    ) {
        Language::English
    } else {
        Language::Japanese
    }
}

fn image_base_exec(src: &Vec<char>) -> (r: Vec<char>)
    ensures
        r@ == image_base(src@),
{
    match find_chars(src, &chars_of("=")) {
        Some(i) => slice_chars(src, 0, i),
        None => src.clone(),
    }
}

fn image_query_exec(src: &Vec<char>) -> (r: Vec<char>)
    ensures
        r@ == image_query(src@),
{
    match find_chars(src, &chars_of("?")) {
        Some(i) => slice_chars(src, i, src.len()),
        None => Vec::new(),
    }
}

fn image_entries(cells: &Vec<TableCell>, x: HeaderIndices) -> (r: Vec<(String, Vec<char>)>)
    ensures
        r@.map_values(|e: (String, Vec<char>)| (e.0@, e.1@)) == row_images(cells@, x),
{
    let mut out: Vec<(String, Vec<char>)> = Vec::new();
    let ghost v = |e: (String, Vec<char>)| (e.0@, e.1@);
    match (cell_img_exec(cells, x.image), cell_rarity_exec(cells, x.rarity_1)) {
        (Some(s), Some(r)) => out.push((s, r)),
        _ => {},
    }
    assert(out@.map_values(v) == image_entry(cell_img(cells@, x.image), cell_rarity(cells@, x.rarity_1)));
    let ghost o1 = out@;
    match (cell_img_exec(cells, x.alternate_art), alt_rarity_exec(cells, x.rarity_2)) {
        (Some(s), Some(r)) => out.push((s, r)),
        _ => {},
    }
    assert(out@.map_values(v) == o1.map_values(v) + image_entry(
        cell_img(cells@, x.alternate_art),
        alt_rarity(cells@, x.rarity_2),
    ));
    let ghost o2 = out@;
    match (cell_img_exec(cells, x.alternate_art_2), alt_rarity_exec(cells, x.rarity_3)) {
        (Some(s), Some(r)) => out.push((s, r)),
        _ => {},
    }
    assert(out@.map_values(v) == o2.map_values(v) + image_entry(
        cell_img(cells@, x.alternate_art_2),
        alt_rarity(cells@, x.rarity_3),
    ));
    out
}

/// The cards of the images of the card rows under the header row.
pub fn sheet_cards_from_rows(rows: &Vec<Vec<TableCell>>, header_row: usize, x: HeaderIndices) -> (r: Vec<
    SheetCard,
>)
    requires
        header_row < rows.len(),
    ensures
        are_row_cards(r@, rows@, x, header_row + 1, rows@.len() as int),
{
    let mut cards: Vec<SheetCard> = Vec::new();
    let start: usize = header_row + 1;
    let mut i: usize = start;
    while i < rows.len()
        invariant
            start == header_row + 1,
            start <= i <= rows.len(),
            are_row_cards(cards@, rows@, x, start as int, i as int),
        decreases rows.len() - i,
    {
        let cells = &rows[i];
        let ghost before = cards@;
        let set_code = cell_content_exec(cells, x.set_code);
        let is_card = !row_is_blank_exec(cells) && chars_of_string(&set_code).len() > 0;
        assert(is_card == is_card_row(cells@, x));
        if is_card {
            let card_name = cell_content_exec(cells, x.card_name);
            let card_type = cell_content_exec(cells, x.card_type);
            let color = cell_content_exec(cells, x.color);
            let life_hp = cell_content_exec(cells, x.life_hp);
            let tags = cell_content_exec(cells, x.tags);
            let text = cell_content_exec(cells, x.text);
            let source = cell_content_exec(cells, x.source);
            let language = row_language_exec(&text, &source);
            let images = image_entries(cells, x);
            let ghost es = row_images(cells@, x);
            let mut k: usize = 0;
            while k < images.len()
                invariant
                    k <= images.len(),
                    es == row_images(cells@, x),
                    images@.map_values(|e: (String, Vec<char>)| (e.0@, e.1@)) == es,
                    cards@.len() == before.len() + k,
                    forall|m: int| 0 <= m < before.len() ==> cards@[m] == before[m],
                    set_code@ == cell_content(cells@, x.set_code),
                    card_name@ == cell_content(cells@, x.card_name),
                    card_type@ == cell_content(cells@, x.card_type),
                    color@ == cell_content(cells@, x.color),
                    life_hp@ == cell_content(cells@, x.life_hp),
                    tags@ == cell_content(cells@, x.tags),
                    text@ == cell_content(cells@, x.text),
                    language == row_language(cell_content(cells@, x.text), cell_content(cells@, x.source)),
                    forall|m: int|
                        0 <= m < k ==> is_row_card(
                            #[trigger] cards@[before.len() + m],
                            i as int,
                            cells@,
                            x,
                            es[m].0,
                            es[m].1,
                        ),
                decreases images.len() - k,
            {
                let (src, rarity) = &images[k];
                assert(es[k as int] == (src@, rarity@));
                let sv = chars_of_string(src);
                let base = image_base_exec(&sv);
                let query = image_query_exec(&sv);
                let mut full = base.clone();
                push_all(&mut full, &query);
                let mut small = base.clone();
                push_all(&mut small, &chars_of("=w120-h168"));
                push_all(&mut small, &query);
                cards.push(
                    SheetCard {
                        row_idx: i,
                        set_code: set_code.clone(),
                        card_name_jp_en: card_name.clone(),
                        language,
                        images_src: src.clone(),
                        full_size_img_url: string_of(&full),
                        hash_img_url: string_of(&small),
                        card_type: card_type.clone(),
                        rarity: string_of(rarity),
                        color: color.clone(),
                        life_hp: life_hp.clone(),
                        tags: tags.clone(),
                        text: text.clone(),
                    },
                );
                k = k + 1;
            }
            assert(es.len() == images@.len());
            assert(cards@.len() == before.len() + es.len());
        }
        proof {
            let cs = rows@[i as int]@;
            let here_es = if is_card_row(cs, x) {
                row_images(cs, x).map_values(|e: (Seq<char>, Seq<char>)| (i as int, e.0, e.1))
            } else {
                Seq::empty()
            };
            let es_all = row_entries(rows@, x, start as int, i + 1);
            let es_prev = row_entries(rows@, x, start as int, i as int);
            assert(es_all == es_prev + here_es);
            assert(cards@.len() == es_all.len());
            assert forall|m: int| 0 <= m < cards@.len() implies is_row_card(
                #[trigger] cards@[m],
                es_all[m].0,
                rows@[es_all[m].0]@,
                x,
                es_all[m].1,
                es_all[m].2,
            ) by {
                if m < before.len() {
                    assert(es_all[m] == es_prev[m]);
                    assert(cards@[m] == before[m]);
                } else {
                    let mm = m - before.len();
                    assert(es_all[m] == here_es[mm]);
                    assert(is_card);
                    assert(here_es[mm] == (i as int, row_images(cs, x)[mm].0, row_images(cs, x)[mm].1));
                    assert(cards@[before.len() + mm] == cards@[m]);
                }
            }
        }
        i = i + 1;
    }
    cards
}


/// The cards of a sheet's table: none when it has no header row.
pub open spec fn table_cards(rows: Seq<Vec<TableCell>>, r: Option<Vec<SheetCard>>) -> bool {
    match find_header(rows, 0) {
        Some((h, x)) => r matches Some(v) && are_row_cards(v@, rows, x, h + 1, rows.len() as int),
        None => r is None,
    }
}

proof fn lemma_find_header_bounds(rows: Seq<Vec<TableCell>>, i: int)
    ensures
        find_header(rows, i) matches Some((h, _)) ==> 0 <= h < rows.len(),
    decreases rows.len() - i,
{
    if 0 <= i < rows.len() {
        lemma_find_header_bounds(rows, i + 1);
    }
}

/// Reads the cards of a sheet's table: the rows under the first header row,
/// one card for each image of a row with a set code.
pub fn retrieve_spreadsheet_data(rows: &Vec<Vec<TableCell>>) -> (r: Option<Vec<SheetCard>>)
    ensures
        table_cards(rows@, r),
{
    proof {
        lemma_find_header_bounds(rows@, 0);
    }
    match find_header_row(rows) {
        Some((h, x)) => Some(sheet_cards_from_rows(rows, h, x)),
        None => None,
    }
}

// ---------------------------------------------------------------------------
// the sheet's rows into the card database
// ---------------------------------------------------------------------------
/// The position of the first card with number `key`, from `i` on.
pub open spec fn find_card(db: Seq<CardView>, key: Seq<char>, i: int) -> Option<int>
    decreases db.len() - i,
{
    if i < 0 || i >= db.len() {
        None
    } else if db[i].card_number == key {
        Some(i)
    } else {
        find_card(db, key, i + 1)
    }
}

/// No two cards share a number: the database is a map from card numbers to
/// cards.
pub open spec fn cards_distinct(db: Seq<CardView>) -> bool {
    forall|a: int, b: int| 0 <= a < b < db.len() ==> db[a].card_number != db[b].card_number
}

/// Where numbers are distinct, the card that `find_card` finds is the one
/// card with that number.
pub proof fn lemma_find_card_unique(db: Seq<CardView>, key: Seq<char>, j: int)
    requires
        cards_distinct(db),
        0 <= j < db.len(),
        db[j].card_number == key,
    ensures
        find_card(db, key, 0) == Some(j),
{
    lemma_find_card_first(db, key, 0, j);
}

proof fn lemma_find_card_first(db: Seq<CardView>, key: Seq<char>, i: int, j: int)
    requires
        cards_distinct(db),
        0 <= i <= j < db.len(),
        db[j].card_number == key,
    ensures
        find_card(db, key, i) == Some(j),
    decreases j - i,
{
    if i < j {
        assert(db[i].card_number != db[j].card_number);
        lemma_find_card_first(db, key, i + 1, j);
    }
}

/// Changing a card but not its number keeps numbers distinct.
pub proof fn lemma_cards_distinct_update(db: Seq<CardView>, i: int, c: CardView)
    requires
        cards_distinct(db),
        0 <= i < db.len(),
        c.card_number == db[i].card_number,
    ensures
        cards_distinct(db.update(i, c)),
{
    let d = db.update(i, c);
    assert forall|a: int, b: int| 0 <= a < b < d.len() implies d[a].card_number != d[b].card_number by {
        assert(d[a].card_number == db[a].card_number);
        assert(d[b].card_number == db[b].card_number);
    }
}

/// Adding a card whose number is not there keeps numbers distinct.
pub proof fn lemma_cards_distinct_push(db: Seq<CardView>, c: CardView)
    requires
        cards_distinct(db),
        find_card(db, c.card_number, 0) is None,
    ensures
        cards_distinct(db.push(c)),
{
    let d = db.push(c);
    assert forall|a: int, b: int| 0 <= a < b < d.len() implies d[a].card_number != d[b].card_number by {
        if b == db.len() {
            if d[a].card_number == c.card_number {
                lemma_find_card_unique(db, c.card_number, a);
            }
        }
    }
}

pub proof fn lemma_find_card_bounds(db: Seq<CardView>, key: Seq<char>, i: int)
    ensures
        find_card(db, key, i) matches Some(j) ==> 0 <= j < db.len() && db[j].card_number == key,
    decreases db.len() - i,
{
    if 0 <= i < db.len() {
        lemma_find_card_bounds(db, key, i + 1);
    }
}

/// A row with a set code and a name.
pub open spec fn record_applies(r: SheetCard) -> bool {
    trim(r.set_code@).len() > 0 && trim(r.card_name_jp_en@).len() > 0
}

/// The set of a basic cheer's number `<set>-001`.
pub open spec fn cheer_prefix(n: Seq<char>) -> Option<Seq<char>> {
    match split_once(n, "-"@) {
        Some((p, rest)) => if rest == "001"@ {
            Some(p)
        } else {
            None
        },
        None => None,
    }
}

/// The value of the first entry with key `k`.
pub open spec fn lookup(m: Seq<(Seq<char>, TextPair)>, k: Seq<char>) -> Option<TextPair>
    decreases m.len(),
{
    if m.len() == 0 {
        None
    } else if m[0].0 == k {
        Some(m[0].1)
    } else {
        lookup(m.drop_first(), k)
    }
}

/// The cards, the number of rows read into a card, and the names of basic
/// cheers by set, each set's first.
pub type ApplyState = (Seq<CardView>, nat, Seq<(Seq<char>, TextPair)>);

/// One row read into the database: into the card with its set code.
pub open spec fn record_step(st: ApplyState, r: SheetCard) -> ApplyState {
    let (db, n, cheers) = st;
    if !record_applies(r) {
        st
    } else {
        match find_card(db, r.set_code@, 0) {
            None => st,
            Some(i) => {
                let c = sheet_applied(r, db[i]);
                let cheers2 = if c.card_type == CardType::Cheer && cheer_prefix(c.card_number) is Some
                    && lookup(cheers, cheer_prefix(c.card_number)->0) is None {
                    cheers.push((cheer_prefix(c.card_number)->0, c.name))
                } else {
                    cheers
                };
                (db.update(i, c), n + 1, cheers2)
            },
        }
    }
}

pub open spec fn records_applied(db: Seq<CardView>, rs: Seq<SheetCard>) -> ApplyState
    decreases rs.len(),
{
    if rs.len() == 0 {
        (db, 0, Seq::empty())
    } else {
        record_step(records_applied(db, rs.drop_last()), rs.last())
    }
}

pub open spec fn card_views(v: Seq<Card>) -> Seq<CardView> {
    v.map_values(|c: Card| c@)
}

pub open spec fn cheer_views(v: Seq<(String, Localized<String>)>) -> Seq<(Seq<char>, TextPair)> {
    v.map_values(|e: (String, Localized<String>)| (e.0@, e.1.texts()))
}

pub fn find_card_index(db: &Vec<Card>, key: &String) -> (r: Option<usize>)
    ensures
        match r {
            Some(i) => i < db@.len() && find_card(card_views(db@), key@, 0) == Some(i as int),
            None => find_card(card_views(db@), key@, 0).is_none(),
        },
{
    let ghost v = card_views(db@);
    proof {
        lemma_find_card_bounds(v, key@, 0);
    }
    let mut i: usize = 0;
    while i < db.len()
        invariant
            i <= db.len(),
            v == card_views(db@),
            find_card(v, key@, 0) == find_card(v, key@, i as int),
        decreases db.len() - i,
    {
        assert(v[i as int] == db@[i as int]@);
        if db[i].card_number == *key {
            return Some(i);
        }
        i = i + 1;
    }
    None
}

fn lookup_exec(m: &Vec<(String, Localized<String>)>, k: &Vec<char>) -> (r: Option<usize>)
    ensures
        match r {
            Some(i) => i < m@.len() && lookup(cheer_views(m@), k@) == Some(cheer_views(m@)[i as int].1),
            None => lookup(cheer_views(m@), k@).is_none(),
        },
{
    let ghost v = cheer_views(m@);
    let mut i: usize = 0;
    assert(v.skip(0) == v);
    while i < m.len()
        invariant
            i <= m.len(),
            v == cheer_views(m@),
            lookup(v, k@) == lookup(v.skip(i as int), k@),
        decreases m.len() - i,
    {
        assert(v.skip(i as int)[0] == v[i as int]);
        assert(v.skip(i as int).drop_first() == v.skip(i + 1));
        if eq(&chars_of_string(&m[i].0), k) {
            return Some(i);
        }
        i = i + 1;
    }
    None
}

fn cheer_prefix_exec(n: &String) -> (r: Option<Vec<char>>)
    ensures
        match r {
            Some(p) => cheer_prefix(n@) == Some(p@),
            None => cheer_prefix(n@).is_none(),
        },
{
    match split_once_str(&chars_of_string(n), "-") {
        Some((p, rest)) => if eq(&rest, &chars_of("001")) {
            Some(p)
        } else {
            None
        },
        None => None,
    }
}

/// Reads the sheet's rows into the cards that have their set codes; returns
/// the number of rows read and the names of the basic cheers by set.
pub fn retrieve_card_info_from_ogbajoj_sheet(all_cards: &mut Vec<Card>, records: &Vec<SheetCard>) -> (r: (
    usize,
    Vec<(String, Localized<String>)>,
))
    requires
        forall|k: int| 0 <= k < records@.len() ==> sheet_arts_ok((#[trigger] records@[k]).text@),
    ensures
        records_applied(card_views(old(all_cards)@), records@) == (
            card_views(final(all_cards)@),
            r.0 as nat,
            cheer_views(r.1@),
        ),
{
    let ghost db0 = card_views(all_cards@);
    let mut updated: usize = 0;
    let mut cheers: Vec<(String, Localized<String>)> = Vec::new();
    let mut k: usize = 0;
    while k < records.len()
        invariant
            k <= records.len(),
            updated <= k,
            forall|m: int| 0 <= m < records@.len() ==> sheet_arts_ok((#[trigger] records@[m]).text@),
            records_applied(db0, records@.take(k as int)) == (
                card_views(all_cards@),
                updated as nat,
                cheer_views(cheers@),
            ),
        decreases records.len() - k,
    {
        let record = &records[k];
        proof {
            assert(records@.take(k + 1).drop_last() == records@.take(k as int));
            assert(records@.take(k + 1).last() == *record);
        }
        let applies = trim_chars(&chars_of_string(&record.set_code)).len() > 0 && trim_chars(
            &chars_of_string(&record.card_name_jp_en),
        ).len() > 0;
        if applies {
            match find_card_index(all_cards, &record.set_code) {
                Some(i) => {
                    let ghost before = card_views(all_cards@);
                    let mut card = Card::default();
                    all_cards.set_and_swap(i, &mut card);
                    assert(card@ == before[i as int]);
                    record.update_card(&mut card);
                    if card.card_type == CardType::Cheer {
                        match cheer_prefix_exec(&card.card_number) {
                            Some(p) => {
                                if lookup_exec(&cheers, &p).is_none() {
                                    let ghost cb = cheers@;
                                    cheers.push((string_of(&p), copy_localized(&card.name)));
                                    assert(cheer_views(cheers@) == cheer_views(cb).push(
                                        (p@, card.name.texts()),
                                    ));
                                }
                            },
                            None => {},
                        }
                    }
                    let ghost mid = all_cards@;
                    all_cards.set(i, card);
                    proof {
                        assert(all_cards@ == mid.update(i as int, card));
                        assert(card_views(all_cards@) == before.update(i as int, card@)) by {
                            assert(card_views(all_cards@) =~= before.update(i as int, card@));
                        }
                    }
                    updated = updated + 1;
                },
                None => {},
            }
        }
        k = k + 1;
    }
    assert(records@.take(k as int) == records@);
    (updated, cheers)
}


/// Every cheer card's number has a set before a `-`.
pub open spec fn cheer_numbers_ok(db: Seq<CardView>) -> bool {
    forall|i: int|
        0 <= i < db.len() && (#[trigger] db[i]).card_type == CardType::Cheer ==> split_once(
            db[i].card_number,
            "-"@,
        ) is Some
}

/// A cheer takes the name of its set's basic cheer, when the sheet gave one.
pub open spec fn named_cheer(c: CardView, cheers: Seq<(Seq<char>, TextPair)>) -> CardView {
    if c.card_type == CardType::Cheer {
        match split_once(c.card_number, "-"@) {
            Some((p, _)) => match lookup(cheers, p) {
                Some(n) => CardView { name: n, ..c },
                None => c,
            },
            None => c,
        }
    } else {
        c
    }
}

/// The number of cards, cheers aside, without an English name.
pub open spec fn missing_english_names(db: Seq<CardView>) -> nat
    decreases db.len(),
{
    if db.len() == 0 {
        0
    } else {
        missing_english_names(db.drop_last()) + if db.last().card_type != CardType::Cheer
            && db.last().name.1 is None {
            1nat
        } else {
            0nat
        }
    }
}

/// Whether every cheer's number has a set part before a `-`.
pub fn cheer_numbers_valid(all_cards: &Vec<Card>) -> (r: bool)
    ensures
        r == cheer_numbers_ok(card_views(all_cards@)),
{
    let ghost db = card_views(all_cards@);
    let mut i: usize = 0;
    while i < all_cards.len()
        invariant
            i <= all_cards.len(),
            db == card_views(all_cards@),
            forall|k: int| 0 <= k < i && (#[trigger] db[k]).card_type == CardType::Cheer ==> split_once(
                db[k].card_number,
                "-"@,
            ) is Some,
        decreases all_cards.len() - i,
    {
        assert(db[i as int] == all_cards@[i as int]@);
        if all_cards[i].card_type == CardType::Cheer {
            if split_once_str(&chars_of_string(&all_cards[i].card_number), "-").is_none() {
                return false;
            }
        }
        i = i + 1;
    }
    true
}

/// Gives each cheer the name of its set's basic cheer; returns the number of
/// other cards without an English name.
pub fn apply_cheer_names(all_cards: &mut Vec<Card>, cheers: &Vec<(String, Localized<String>)>) -> (r: usize)
    requires
        cheer_numbers_ok(card_views(old(all_cards)@)),
    ensures
        card_views(final(all_cards)@) == card_views(old(all_cards)@).map_values(
            |c: CardView| named_cheer(c, cheer_views(cheers@)),
        ),
        r == missing_english_names(card_views(old(all_cards)@)),
{
    let ghost db0 = card_views(all_cards@);
    let ghost f = |c: CardView| named_cheer(c, cheer_views(cheers@));
    let mut missing: usize = 0;
    let mut i: usize = 0;
    while i < all_cards.len()
        invariant
            i <= all_cards.len(),
            all_cards@.len() == db0.len(),
            cheer_numbers_ok(db0),
            f == (|c: CardView| named_cheer(c, cheer_views(cheers@))),
            missing <= i,
            missing == missing_english_names(db0.take(i as int)),
            forall|k: int| 0 <= k < i ==> #[trigger] card_views(all_cards@)[k] == f(db0[k]),
            forall|k: int| i <= k < db0.len() ==> #[trigger] card_views(all_cards@)[k] == db0[k],
        decreases all_cards.len() - i,
    {
        assert(db0.take(i + 1).drop_last() == db0.take(i as int));
        assert(card_views(all_cards@)[i as int] == all_cards@[i as int]@);
        if all_cards[i].card_type == CardType::Cheer {
            assert(split_once(db0[i as int].card_number, "-"@) is Some);
            match split_once_str(&chars_of_string(&all_cards[i].card_number), "-") {
                Some((p, _)) => {
                    match lookup_exec(cheers, &p) {
                        Some(j) => {
                            let ghost prev = all_cards@;
                            let mut card = Card::default();
                            all_cards.set_and_swap(i, &mut card);
                            card.name = copy_localized(&cheers[j].1);
                            all_cards.set(i, card);
                            proof {
                                assert(cheer_views(cheers@)[j as int] == (cheers@[j as int].0@, cheers@[j as int].1.texts()));
                                assert(all_cards@ == prev.update(i as int, card));
                                assert(card_views(all_cards@) =~= card_views(prev).update(i as int, card@));
                            }
                        },
                        None => {},
                    }
                },
                None => {},
            }
        } else if all_cards[i].name.english.is_none() {
            missing = missing + 1;
        }
        i = i + 1;
    }
    assert(db0.take(i as int) == db0);
    assert(card_views(all_cards@) =~= db0.map_values(f));
    missing
}

} // verus!
