//! Images of unreleased printings from the fan sheet: for each row, which
//! printing the image belongs to, under which file name it is kept, and what
//! is to be done with the file.
use vstd::prelude::*;
use vstd::relations::injective_on;
use vstd::set_lib::{lemma_int_range, lemma_len_subset, lemma_map_size, set_int_range};
use crate::text::{chars_of, chars_of_string, decimal, decimal_chars, is_digit, lemma_decimal_digits, eq, eq_ignore_ascii_case, eq_ignore_ascii_case_chars, push_all, string_of};
use crate::model::{Card, CardIllustration, CardIllustrationView, CardView, Language, Localized, blank_card_view, blank_illustration_view};
use crate::sheet::{sheet_name, text_get, text_set};
use crate::images::{DIST_TOLERANCE_DIFF_RARITY, DIST_TOLERANCE_SAME_RARITY, UNRELEASED_FOLDER};
use crate::utils::{filename_char, sanitize_filename};
use crate::spreadsheet::{
    Sheet, card_views, cards_distinct, find_card, find_card_index, lemma_cards_distinct_push, lemma_cards_distinct_update,
    lemma_find_card_bounds,
};





use vstd::pervasive::VecAdditionalExecFns;

verus! {

/// A row of the fan sheet with an image, and the hash of that image.
#[derive(Debug, Clone)]
pub struct SheetImage {
    pub sheet_name: String,
    pub set_code: String,
    pub rarity: String,
    pub language: Language,
    pub img_hash: String,
}

/// What is to be done with a row's image file.
#[derive(Debug, Clone)]
pub enum SheetImageAction {
    /// The row is of the master sheet, whose images are not taken.
    SkippedSheet,
    /// The image is one known to be of poor quality.
    SkippedHash,
    /// The printing already has this image.
    Exists,
    /// The printing already has this image, now under a new name.
    Rename { from: String, to: String },
    /// The image is to be downloaded to this path, under the images folder.
    Download { path: String },
}

/// The hash of an image known to be of poor quality (hBP05-079 P).
pub open spec fn skipped_hash() -> Seq<char> {
    "v2|H32=Uq2rEtSqKHWrYtRzqkxrnfVaVK0rZ5XivFIrrWES1IhqFZLtVKosmqpULZqqV62KcnirZJJFmyxGk2pVcLhSlY6HUlU|CYM=0C0F1C"@
}

/// Whether an image hash is one to skip.
pub fn is_skip_image_hash(img_hash: &str) -> (r: bool)
    ensures
        r == (img_hash@ == skipped_hash()),
{
    eq(
        &chars_of(img_hash),
        &chars_of(
            "v2|H32=Uq2rEtSqKHWrYtRzqkxrnfVaVK0rZ5XivFIrrWES1IhqFZLtVKosmqpULZqqV62KcnirZJJFmyxGk2pVcLhSlY6HUlU|CYM=0C0F1C",
        ),
    )
}

// ---------------------------------------------------------------------------
// file names
// ---------------------------------------------------------------------------
/// A text with each reserved character replaced, as `sanitize_filename` does.
pub open spec fn sanitized(s: Seq<char>) -> Seq<char> {
    Seq::new(s.len(), |i: int| filename_char(s[i]))
}

/// The file name of the `c`-th choice for a printing's image: `set_rarity.webp`
/// first, then `set_rarity_2.webp`, `set_rarity_3.webp` and so on.
pub open spec fn unreleased_stem(set_code: Seq<char>, rarity: Seq<char>, c: nat) -> Seq<char> {
    if c < 2 {
        set_code + "_"@ + rarity + ".webp"@
    } else {
        set_code + "_"@ + rarity + "_"@ + decimal(c) + ".webp"@
    }
}

/// The path of the `c`-th choice, under the folder of unreleased images.
pub open spec fn unreleased_path(set_code: Seq<char>, rarity: Seq<char>, c: nat) -> Seq<char> {
    UNRELEASED_FOLDER@ + "/"@ + sanitized(unreleased_stem(set_code, rarity, c))
}

/// Some printing has `p` as its image path in `language`.
pub open spec fn path_taken(ils: Seq<CardIllustrationView>, language: Language, p: Seq<char>) -> bool {
    exists|k: int| 0 <= k < ils.len() && text_get((#[trigger] ils[k]).img_path, language) == Some(p)
}

/// The first choice from `c` on that no printing uses; among the first
/// `ils.len() + 1` choices, all distinct, one is always free, and the search
/// stops at the last of them.
pub open spec fn free_path_from(
    ils: Seq<CardIllustrationView>,
    language: Language,
    set_code: Seq<char>,
    rarity: Seq<char>,
    c: nat,
) -> Seq<char>
    decreases ils.len() + 1 - c,
{
    if c > ils.len() || !path_taken(ils, language, unreleased_path(set_code, rarity, c)) {
        unreleased_path(set_code, rarity, c)
    } else {
        free_path_from(ils, language, set_code, rarity, c + 1)
    }
}

pub open spec fn free_path(ils: Seq<CardIllustrationView>, language: Language, set_code: Seq<char>, rarity: Seq<char>) -> Seq<char> {
    free_path_from(ils, language, set_code, rarity, 1)
}

/// Different choices give different paths.
proof fn lemma_unreleased_paths_distinct(set_code: Seq<char>, rarity: Seq<char>, c1: nat, c2: nat)
    requires
        1 <= c1,
        1 <= c2,
        c1 != c2,
    ensures
        unreleased_path(set_code, rarity, c1) != unreleased_path(set_code, rarity, c2),
{
    let pre = UNRELEASED_FOLDER@ + "/"@;
    let base = set_code + "_"@ + rarity;
    let p1 = unreleased_path(set_code, rarity, c1);
    let p2 = unreleased_path(set_code, rarity, c2);
    lemma_decimal_digits(c1);
    lemma_decimal_digits(c2);
    if p1 == p2 {
        reveal_strlit(".webp");
        reveal_strlit("_");
        let s1 = unreleased_stem(set_code, rarity, c1);
        let s2 = unreleased_stem(set_code, rarity, c2);
        assert(p1.len() == pre.len() + s1.len());
        assert(p2.len() == pre.len() + s2.len());
        assert(s1.len() == s2.len());
        if c1 >= 2 && c2 >= 2 {
            let d1 = decimal(c1);
            let d2 = decimal(c2);
            assert(s1 == base + "_"@ + d1 + ".webp"@);
            assert(s2 == base + "_"@ + d2 + ".webp"@);
            assert(d1.len() == d2.len());
            assert forall|i: int| 0 <= i < d1.len() implies d1[i] == d2[i] by {
                let q = base.len() + 1 + i;
                assert(s1[q] == d1[i]);
                assert(s2[q] == d2[i]);
                assert(p1[pre.len() + q] == filename_char(s1[q]));
                assert(p2[pre.len() + q] == filename_char(s2[q]));
                assert(is_digit(d1[i]));
                assert(is_digit(d2[i]));
            }
            assert(d1 =~= d2);
        }
    }
}

/// When the search ends on a path that a printing uses, every choice from
/// `c` on was in use.
proof fn lemma_free_path_from_taken(
    ils: Seq<CardIllustrationView>,
    language: Language,
    set_code: Seq<char>,
    rarity: Seq<char>,
    c: nat,
)
    requires
        1 <= c <= ils.len() + 1,
        path_taken(ils, language, free_path_from(ils, language, set_code, rarity, c)),
    ensures
        forall|j: nat| c <= j <= ils.len() + 1 ==> path_taken(ils, language, #[trigger] unreleased_path(set_code, rarity, j)),
    decreases ils.len() + 1 - c,
{
    if c <= ils.len() && path_taken(ils, language, unreleased_path(set_code, rarity, c)) {
        lemma_free_path_from_taken(ils, language, set_code, rarity, c + 1);
    }
}

/// The path that a printing with each choice would have: the first printing
/// whose image path it is.
spec fn taker(ils: Seq<CardIllustrationView>, language: Language, set_code: Seq<char>, rarity: Seq<char>) -> spec_fn(int) -> int {
    |j: int|
        choose|k: int|
            0 <= k < ils.len() && text_get(ils[k].img_path, language) == Some(unreleased_path(set_code, rarity, j as nat))
}

/// The file name chosen for a printing's image is one that no printing of
/// the card uses: among the first `n + 1` choices, all different, the `n`
/// printings use at most `n`.
pub proof fn lemma_free_path_unused(
    ils: Seq<CardIllustrationView>,
    language: Language,
    set_code: Seq<char>,
    rarity: Seq<char>,
)
    ensures
        !path_taken(ils, language, free_path(ils, language, set_code, rarity)),
{
    let n = ils.len();
    if path_taken(ils, language, free_path(ils, language, set_code, rarity)) {
        lemma_free_path_from_taken(ils, language, set_code, rarity, 1);
        let x = set_int_range(1, n as int + 2);
        let f = taker(ils, language, set_code, rarity);
        let y = x.map(f);
        lemma_int_range(1, n as int + 2);
        lemma_int_range(0, n as int);
        assert forall|j: int| #[trigger] x.contains(j) implies 0 <= f(j) < n && text_get(
            ils[f(j)].img_path,
            language,
        ) == Some(unreleased_path(set_code, rarity, j as nat)) by {
            assert(path_taken(ils, language, unreleased_path(set_code, rarity, j as nat)));
        }
        assert(injective_on(f, x)) by {
            assert forall|a: int, b: int| x.contains(a) && x.contains(b) && #[trigger] f(a) == #[trigger] f(b) implies a == b by {
                if a != b {
                    lemma_unreleased_paths_distinct(set_code, rarity, a as nat, b as nat);
                }
            }
        }
        lemma_map_size(x, y, f);
        assert(y.subset_of(set_int_range(0, n as int)));
        lemma_len_subset(y, set_int_range(0, n as int));
        assert(false);
    }
}

fn unreleased_path_of(set_code: &String, rarity: &String, c: u64) -> (r: Vec<char>)
    ensures
        r@ == unreleased_path(set_code@, rarity@, c as nat),
{
    let mut stem = chars_of_string(set_code);
    push_all(&mut stem, &chars_of("_"));
    push_all(&mut stem, &chars_of_string(rarity));
    if c >= 2 {
        push_all(&mut stem, &chars_of("_"));
        push_all(&mut stem, &decimal_chars(c));
    }
    push_all(&mut stem, &chars_of(".webp"));
    let name = sanitize_filename(string_of(&stem).as_str());
    assert(name@ =~= sanitized(unreleased_stem(set_code@, rarity@, c as nat)));
    let mut p = chars_of(UNRELEASED_FOLDER);
    push_all(&mut p, &chars_of("/"));
    push_all(&mut p, &chars_of_string(&name));
    p
}

fn path_taken_exec(ils: &Vec<CardIllustration>, language: Language, p: &Vec<char>) -> (r: bool)
    ensures
        r == path_taken(ils@.map_values(|i: CardIllustration| i@), language, p@),
{
    let ghost v = ils@.map_values(|i: CardIllustration| i@);
    let mut k: usize = 0;
    while k < ils.len()
        invariant
            k <= ils.len(),
            v == ils@.map_values(|i: CardIllustration| i@),
            forall|j: int| 0 <= j < k ==> text_get((#[trigger] v[j]).img_path, language) != Some(p@),
        decreases ils.len() - k,
    {
        assert(v[k as int] == ils@[k as int]@);
        match ils[k].img_path.value(language) {
            Some(q) => {
                if eq(&chars_of_string(q), p) {
                    assert(text_get(v[k as int].img_path, language) == Some(p@));
                    return true;
                }
            },
            None => {},
        }
        k = k + 1;
    }
    false
}

/// The first file name for a printing's image that no printing of the card uses.
pub fn free_image_path(ils: &Vec<CardIllustration>, language: Language, set_code: &String, rarity: &String) -> (r: String)
    requires
        ils@.len() < u64::MAX,
    ensures
        r@ == free_path(ils@.map_values(|i: CardIllustration| i@), language, set_code@, rarity@),
        !path_taken(ils@.map_values(|i: CardIllustration| i@), language, r@),
{
    let ghost v = ils@.map_values(|i: CardIllustration| i@);
    let n = ils.len() as u64;
    let mut c: u64 = 1;
    let mut p = unreleased_path_of(set_code, rarity, c);
    while c <= n && path_taken_exec(ils, language, &p)
        invariant
            1 <= c <= n + 1,
            n == ils@.len(),
            n < u64::MAX,
            v == ils@.map_values(|i: CardIllustration| i@),
            p@ == unreleased_path(set_code@, rarity@, c as nat),
            free_path(v, language, set_code@, rarity@) == free_path_from(v, language, set_code@, rarity@, c as nat),
        decreases n + 1 - c,
    {
        c = c + 1;
        p = unreleased_path_of(set_code, rarity, c);
    }
    proof {
        lemma_free_path_unused(v, language, set_code@, rarity@);
    }
    string_of(&p)
}

// ---------------------------------------------------------------------------
// the printing a row's image belongs to
// ---------------------------------------------------------------------------
/// A printing that Deck Log knows in some language.
pub open spec fn is_released(il: CardIllustrationView) -> bool {
    il.manage_id.0 is Some || il.manage_id.1 is Some
}

/// A printing the row's image may belong to: of the same card, and of the
/// same rarity (ignoring ASCII case) unless it is not released yet.
pub open spec fn may_match(il: CardIllustrationView, img: SheetImage) -> bool {
    il.card_number == img.set_code@ && (eq_ignore_ascii_case(il.rarity, img.rarity@) || !is_released(il))
}

/// The image is close enough to the printing's, at distance `dist`: more
/// tolerance for the same rarity (manual crops), and any distance for a
/// printing not released yet of the same rarity, unless it is a promo (`P`).
pub open spec fn close_enough(il: CardIllustrationView, img: SheetImage, dist: u64) -> bool {
    let same = eq_ignore_ascii_case(il.rarity, img.rarity@);
    if is_released(il) {
        same && dist <= DIST_TOLERANCE_SAME_RARITY
    } else if same {
        img.rarity@ != "P"@ || dist <= DIST_TOLERANCE_SAME_RARITY
    } else {
        dist <= DIST_TOLERANCE_DIFF_RARITY
    }
}

pub open spec fn is_match(il: CardIllustrationView, img: SheetImage, dist: u64) -> bool {
    may_match(il, img) && close_enough(il, img, dist)
}

/// The closest match among the first `k` printings, the first of equally close ones.
pub open spec fn best_match(ils: Seq<CardIllustrationView>, img: SheetImage, dists: Seq<u64>, k: int) -> Option<int>
    decreases k,
{
    if k <= 0 {
        None
    } else {
        let b = best_match(ils, img, dists, k - 1);
        if is_match(ils[k - 1], img, dists[k - 1]) && (b is None || dists[k - 1] < dists[b->0]) {
            Some(k - 1)
        } else {
            b
        }
    }
}

proof fn lemma_best_match_bounds(ils: Seq<CardIllustrationView>, img: SheetImage, dists: Seq<u64>, k: int)
    ensures
        best_match(ils, img, dists, k) matches Some(b) ==> 0 <= b < k && is_match(ils[b], img, dists[b]),
    decreases k,
{
    if k > 0 {
        lemma_best_match_bounds(ils, img, dists, k - 1);
    }
}

/// The database and the action after a row's image, the card's printings
/// being `dists` apart from it in hash distance.
pub open spec fn sheet_image_step(
    db: Seq<CardView>,
    img: SheetImage,
    dists: Seq<u64>,
) -> (Seq<CardView>, SheetImageView) {
    if img.sheet_name@ == "Master Sheet"@ {
        (db, SheetImageView::SkippedSheet)
    } else if img.img_hash@ == skipped_hash() {
        (db, SheetImageView::SkippedHash)
    } else {
        let (db1, c) = match find_card(db, img.set_code@, 0) {
            Some(i) => (db, i),
            None => (db.push(CardView { card_number: img.set_code@, ..blank_card_view() }), db.len() as int),
        };
        let card = db1[c];
        let ils = card.illustrations;
        let l = img.language;
        let free = free_path(ils, l, img.set_code@, img.rarity@);
        match best_match(ils, img, dists, ils.len() as int) {
            Some(k) => {
                let il = ils[k];
                if !is_released(il) && il.img_hash != img.img_hash@ && img.sheet_name@ != "Master Sheet"@ {
                    let (il2, path) = if text_get(il.img_path, l) is Some && il.rarity == img.rarity@ {
                        (il, text_get(il.img_path, l)->0)
                    } else {
                        (
                            CardIllustrationView { rarity: img.rarity@, img_path: text_set(il.img_path, l, Some(free)), ..il },
                            free,
                        )
                    };
                    let il3 = CardIllustrationView { img_hash: img.img_hash@, ..il2 };
                    (
                        db1.update(c, CardView { illustrations: ils.update(k, il3), ..card }),
                        SheetImageView::Download { path },
                    )
                } else if !is_released(il) && il.rarity != img.rarity@ {
                    match text_get(il.img_path, l) {
                        Some(old) => (
                            db1.update(
                                c,
                                CardView {
                                    illustrations: ils.update(
                                        k,
                                        CardIllustrationView { rarity: img.rarity@, img_path: text_set(il.img_path, l, Some(free)), ..il },
                                    ),
                                    ..card
                                },
                            ),
                            SheetImageView::Rename { from: old, to: free },
                        ),
                        None => (
                            db1.update(
                                c,
                                CardView { illustrations: ils.update(k, CardIllustrationView { rarity: img.rarity@, ..il }), ..card },
                            ),
                            SheetImageView::Exists,
                        ),
                    }
                } else {
                    (db1, SheetImageView::Exists)
                }
            },
            None => {
                let il = CardIllustrationView {
                    card_number: img.set_code@,
                    rarity: img.rarity@,
                    img_path: text_set((None, None), l, Some(free)),
                    img_hash: img.img_hash@,
                    ..blank_illustration_view()
                };
                (
                    db1.update(c, CardView { illustrations: ils.push(il), ..card }),
                    SheetImageView::Download { path: free },
                )
            },
        }
    }
}

/// The view of an action.
pub enum SheetImageView {
    SkippedSheet,
    SkippedHash,
    Exists,
    Rename { from: Seq<char>, to: Seq<char> },
    Download { path: Seq<char> },
}

pub open spec fn action_view(a: SheetImageAction) -> SheetImageView {
    match a {
        SheetImageAction::SkippedSheet => SheetImageView::SkippedSheet,
        SheetImageAction::SkippedHash => SheetImageView::SkippedHash,
        SheetImageAction::Exists => SheetImageView::Exists,
        SheetImageAction::Rename { from, to } => SheetImageView::Rename { from: from@, to: to@ },
        SheetImageAction::Download { path } => SheetImageView::Download { path: path@ },
    }
}

/// The distances fit the printings of the row's card (none for a new card).
pub open spec fn dists_fit(db: Seq<CardView>, img: SheetImage, dists: Seq<u64>) -> bool {
    match find_card(db, img.set_code@, 0) {
        Some(i) => dists.len() == db[i].illustrations.len() && db[i].illustrations.len() < u64::MAX,
        None => dists.len() == 0,
    }
}

fn is_released_exec(il: &CardIllustration) -> (r: bool)
    ensures
        r == is_released(il@),
{
    il.manage_id.japanese.is_some() || il.manage_id.english.is_some()
}

fn is_match_exec(il: &CardIllustration, img: &SheetImage, dist: u64) -> (r: bool)
    ensures
        r == is_match(il@, *img, dist),
{
    if !(il.card_number == img.set_code) {
        return false;
    }
    let same = eq_ignore_ascii_case_chars(&chars_of_string(&il.rarity), &chars_of_string(&img.rarity));
    let released = is_released_exec(il);
    if !(same || !released) {
        return false;
    }
    if released {
        same && dist <= DIST_TOLERANCE_SAME_RARITY
    } else if same {
        !eq(&chars_of_string(&img.rarity), &chars_of("P")) || dist <= DIST_TOLERANCE_SAME_RARITY
    } else {
        dist <= DIST_TOLERANCE_DIFF_RARITY
    }
}

fn best_match_exec(ils: &Vec<CardIllustration>, img: &SheetImage, dists: &Vec<u64>) -> (r: Option<usize>)
    requires
        dists@.len() == ils@.len(),
    ensures
        match r {
            Some(b) => best_match(ils@.map_values(|i: CardIllustration| i@), *img, dists@, ils@.len() as int) == Some(b as int),
            None => best_match(ils@.map_values(|i: CardIllustration| i@), *img, dists@, ils@.len() as int) is None,
        },
{
    let ghost v = ils@.map_values(|i: CardIllustration| i@);
    let mut best: Option<usize> = None;
    let mut k: usize = 0;
    while k < ils.len()
        invariant
            k <= ils.len(),
            dists@.len() == ils@.len(),
            v == ils@.map_values(|i: CardIllustration| i@),
            match best {
                Some(b) => best_match(v, *img, dists@, k as int) == Some(b as int) && b < k,
                None => best_match(v, *img, dists@, k as int) is None,
            },
        decreases ils.len() - k,
    {
        assert(v[k as int] == ils@[k as int]@);
        if is_match_exec(&ils[k], img, dists[k]) {
            let better = match best {
                Some(b) => dists[k] < dists[b],
                None => true,
            };
            if better {
                best = Some(k);
            }
        }
        k = k + 1;
    }
    best
}

/// Whether the images of a sheet are taken: those of the master sheet are
/// not (low quality, wrong data and duplicates).
pub fn sheet_images_taken(sheet_name: &String) -> (r: bool)
    ensures
        r == (sheet_name@ != "Master Sheet"@),
{
    proof {
        reveal_strlit("Master Sheet");
    }
    !eq(&chars_of_string(sheet_name), &chars_of("Master Sheet"))
}

/// A row's image keeps card numbers distinct: its card is added only where
/// no card has its number, and no card's number changes.
pub proof fn lemma_sheet_image_step_distinct(db: Seq<CardView>, img: SheetImage, dists: Seq<u64>)
    requires
        cards_distinct(db),
    ensures
        cards_distinct(sheet_image_step(db, img, dists).0),
{
    if img.sheet_name@ == "Master Sheet"@ || img.img_hash@ == skipped_hash() {
    } else {
        lemma_find_card_bounds(db, img.set_code@, 0);
        let (db1, c) = match find_card(db, img.set_code@, 0) {
            Some(i) => (db, i),
            None => (db.push(CardView { card_number: img.set_code@, ..blank_card_view() }), db.len() as int),
        };
        if find_card(db, img.set_code@, 0) is None {
            lemma_cards_distinct_push(db, CardView { card_number: img.set_code@, ..blank_card_view() });
        }
        assert(cards_distinct(db1) && 0 <= c < db1.len());
        let card = db1[c];
        let ils = card.illustrations;
        lemma_best_match_bounds(ils, img, dists, ils.len() as int);
        let out = sheet_image_step(db, img, dists).0;
        assert(out == db1 || exists|cv: CardView| cv.card_number == card.card_number && out == db1.update(c, cv)) by {
            match best_match(ils, img, dists, ils.len() as int) {
                Some(k) => {
                    let il = ils[k];
                    if !is_released(il) && il.img_hash != img.img_hash@ && img.sheet_name@ != "Master Sheet"@ {
                        let cv = out[c];
                        assert(out == db1.update(c, cv));
                    } else if !is_released(il) && il.rarity != img.rarity@ {
                        let cv = out[c];
                        assert(out == db1.update(c, cv));
                    }
                },
                None => {
                    let cv = out[c];
                    assert(out == db1.update(c, cv));
                },
            }
        }
        if out != db1 {
            let cv = choose|cv: CardView| cv.card_number == card.card_number && out == db1.update(c, cv);
            lemma_cards_distinct_update(db1, c, cv);
        }
    }
}

/// Takes a row's image into the database: skips the master sheet's rows and
/// a poor image; else finds
/// the card (adding it under the row's set code when missing), the printing
/// the image belongs to (the closest match), and says what is to be done
/// with the file. `dists` gives the hash distance from the image to each
/// printing of the row's card.
pub fn import_sheet_image(all_cards: &mut Vec<Card>, img: &SheetImage, dists: &Vec<u64>) -> (r: SheetImageAction)
    requires
        dists_fit(card_views(old(all_cards)@), *img, dists@),
    ensures
        (card_views(final(all_cards)@), action_view(r)) == sheet_image_step(card_views(old(all_cards)@), *img, dists@),
        cards_distinct(card_views(old(all_cards)@)) ==> cards_distinct(card_views(final(all_cards)@)),
{
    let ghost db = card_views(all_cards@);
    proof {
        if cards_distinct(db) {
            lemma_sheet_image_step_distinct(db, *img, dists@);
        }
    }
    proof {
        reveal_strlit("Master Sheet");
    }
    if eq(&chars_of_string(&img.sheet_name), &chars_of("Master Sheet")) {
        return SheetImageAction::SkippedSheet;
    }
    if is_skip_image_hash(img.img_hash.as_str()) {
        return SheetImageAction::SkippedHash;
    }
    proof {
        lemma_find_card_bounds(db, img.set_code@, 0);
    }
    let c = match find_card_index(all_cards, &img.set_code) {
        Some(i) => i,
        None => {
            let mut card = Card::default();
            card.card_number = img.set_code.clone();
            all_cards.push(card);
            assert(card_views(all_cards@) =~= db.push(CardView { card_number: img.set_code@, ..blank_card_view() }));
            all_cards.len() - 1
        },
    };
    let ghost db1 = card_views(all_cards@);
    let mut card = Card::default();
    all_cards.set_and_swap(c, &mut card);
    assert(card@ == db1[c as int]);
    let ghost ils = card@.illustrations;
    let l = img.language;
    let free = free_image_path(&card.illustrations, l, &img.set_code, &img.rarity);
    proof {
        lemma_best_match_bounds(ils, *img, dists@, ils.len() as int);
    }
    let action = match best_match_exec(&card.illustrations, img, dists) {
        Some(k) => {
            let mut il = CardIllustration::default();
            card.illustrations.set_and_swap(k, &mut il);
            assert(il@ == ils[k as int]);
            let released = is_released_exec(&il);
            let action = if !released && !(il.img_hash == img.img_hash) && !eq(
                &chars_of_string(&img.sheet_name),
                &chars_of("Master Sheet"),
            ) {
                let keep = match il.img_path.value(l) {
                    Some(_p) => il.rarity == img.rarity,
                    None => false,
                };
                let path = if keep {
                    match il.img_path.value(l) {
                        Some(p) => p.clone(),
                        None => free.clone(),
                    }
                } else {
                    il.rarity = img.rarity.clone();
                    il.img_path.set(l, Some(free.clone()));
                    free.clone()
                };
                il.img_hash = img.img_hash.clone();
                SheetImageAction::Download { path }
            } else if !released && !(il.rarity == img.rarity) {
                il.rarity = img.rarity.clone();
                let old = match il.img_path.value(l) {
                    Some(p) => Some(p.clone()),
                    None => None,
                };
                match old {
                    Some(from) => {
                        il.img_path.set(l, Some(free.clone()));
                        SheetImageAction::Rename { from, to: free.clone() }
                    },
                    None => SheetImageAction::Exists,
                }
            } else {
                SheetImageAction::Exists
            };
            let ghost before = card@.illustrations;
            card.illustrations.set(k, il);
            assert(card@.illustrations =~= before.update(k as int, il@));
            assert(card@.illustrations =~= ils.update(k as int, il@));
            assert(ils.update(k as int, ils[k as int]) =~= ils);
            action
        },
        None => {
            let mut il = CardIllustration::default();
            il.card_number = img.set_code.clone();
            il.rarity = img.rarity.clone();
            il.img_path = Localized::new(l, free.clone());
            il.img_hash = img.img_hash.clone();
            let ghost before = card@.illustrations;
            card.illustrations.push(il);
            assert(card@.illustrations =~= ils.push(il@));
            SheetImageAction::Download { path: free }
        },
    };
    assert(card@ == (CardView { illustrations: card@.illustrations, ..db1[c as int] }));
    assert(db1.update(c as int, db1[c as int]) =~= db1);
    all_cards.set(c, card);
    assert(card_views(all_cards@) =~= db1.update(c as int, card@));
    assert(action_view(action) == sheet_image_step(db, *img, dists@).1);
    assert(card_views(all_cards@) == sheet_image_step(db, *img, dists@).0);
    action
}

// ---------------------------------------------------------------------------
// an image that could not be downloaded
// ---------------------------------------------------------------------------
/// The first printing from `k` on with this rarity and image hash.
pub open spec fn find_recorded(ils: Seq<CardIllustrationView>, rarity: Seq<char>, img_hash: Seq<char>, k: int) -> Option<int>
    decreases ils.len() - k,
{
    if k < 0 || k >= ils.len() {
        None
    } else if ils[k].rarity == rarity && ils[k].img_hash == img_hash {
        Some(k)
    } else {
        find_recorded(ils, rarity, img_hash, k + 1)
    }
}

/// The printing a row's image was recorded on: of the card with the row's
/// set code, the first with the row's rarity and the image's hash.
pub open spec fn recorded_image(db: Seq<CardView>, img: SheetImage) -> Option<(int, int)> {
    match find_card(db, img.set_code@, 0) {
        Some(c) => match find_recorded(db[c].illustrations, img.rarity@, img.img_hash@, 0) {
            Some(k) => Some((c, k)),
            None => None,
        },
        None => None,
    }
}

/// Finds the printing a row's image was recorded on.
pub fn find_recorded_image(all_cards: &Vec<Card>, img: &SheetImage) -> (r: Option<(usize, usize)>)
    ensures
        match r {
            Some((c, k)) => recorded_image(card_views(all_cards@), *img) == Some((c as int, k as int)) && c
                < all_cards@.len() && k < all_cards@[c as int].illustrations@.len(),
            None => recorded_image(card_views(all_cards@), *img) is None,
        },
{
    let ghost db = card_views(all_cards@);
    proof {
        lemma_find_card_bounds(db, img.set_code@, 0);
    }
    match find_card_index(all_cards, &img.set_code) {
        Some(c) => {
            let ils = &all_cards[c].illustrations;
            assert(db[c as int].illustrations == ils@.map_values(|i: CardIllustration| i@));
            let ghost v = db[c as int].illustrations;
            let mut k: usize = 0;
            while k < ils.len()
                invariant
                    k <= ils.len(),
                    v == ils@.map_values(|i: CardIllustration| i@),
                    db == card_views(all_cards@),
                    c < all_cards@.len(),
                    find_card(db, img.set_code@, 0) == Some(c as int),
                    v == db[c as int].illustrations,
                    ils@ == all_cards@[c as int].illustrations@,
                    find_recorded(v, img.rarity@, img.img_hash@, 0) == find_recorded(v, img.rarity@, img.img_hash@, k as int),
                decreases ils.len() - k,
            {
                assert(v[k as int] == ils@[k as int]@);
                if ils[k].rarity == img.rarity && ils[k].img_hash == img.img_hash {
                    return Some((c, k));
                }
                k = k + 1;
            }
            None
        },
        None => None,
    }
}

/// Forgets an image that could not be downloaded: the printing loses its
/// hash and its image path in `language`.
pub fn forget_sheet_image(all_cards: &mut Vec<Card>, c: usize, k: usize, language: Language)
    requires
        c < old(all_cards)@.len(),
        k < old(all_cards)@[c as int].illustrations@.len(),
    ensures
        card_views(final(all_cards)@) == card_views(old(all_cards)@).update(
            c as int,
            CardView {
                illustrations: card_views(old(all_cards)@)[c as int].illustrations.update(
                    k as int,
                    CardIllustrationView {
                        img_hash: Seq::empty(),
                        img_path: text_set(card_views(old(all_cards)@)[c as int].illustrations[k as int].img_path, language, None),
                        ..card_views(old(all_cards)@)[c as int].illustrations[k as int]
                    },
                ),
                ..card_views(old(all_cards)@)[c as int]
            },
        ),
{
    let ghost db = card_views(all_cards@);
    let mut card = Card::default();
    all_cards.set_and_swap(c, &mut card);
    assert(card@ == db[c as int]);
    let ghost ils = card@.illustrations;
    let mut il = CardIllustration::default();
    card.illustrations.set_and_swap(k, &mut il);
    assert(il@ == ils[k as int]);
    il.img_hash = String::new();
    il.img_path.set(language, None);
    card.illustrations.set(k, il);
    assert(card@.illustrations =~= ils.update(k as int, il@));
    all_cards.set(c, card);
    assert(card_views(all_cards@) =~= db.update(c as int, card@));
}

} // verus!
