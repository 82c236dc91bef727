//! Card images: which official images to download, and which fan-made proxy
//! image stands for an English printing that has none.
use vstd::prelude::*;
use crate::text::{ascii_lowercase, ascii_lowercase_chars, chars_of, chars_of_string, contains, eq, push_all, replace, replace_str, split_once, split_once_str, starts_with, starts_with_str, string_of};
use crate::model::{Card, CardIllustration, CardIllustrationView, CardView, Language, copy_opt_string, lemma_btree_iter_sorted, opt_set, opt_view, sorted_elements, views};
use crate::sheet::{text_get, text_set};
use crate::spreadsheet::{card_views, find_card, find_card_index};
use crate::legacy::{file_stem_of, path_file_stem};












use std::collections::BTreeSet;
use vstd::std_specs::btree::spec_btree_keys_iter;
use vstd::std_specs::iter::IteratorSpec;




use vstd::pervasive::VecAdditionalExecFns;









verus! {

/// The folder of proxy images, under the English images.
pub const PROXIES_FOLDER: &'static str = "proxies";

/// The folder of images of unreleased cards.
pub const UNRELEASED_FOLDER: &'static str = "unreleased";

/// The largest image distance at which two images of different rarities
/// still show the same illustration.
pub const DIST_TOLERANCE_DIFF_RARITY: u64 = 100;

/// The same for images of the same rarity, which allows for manual cropping.
pub const DIST_TOLERANCE_SAME_RARITY: u64 = 138;

// ---------------------------------------------------------------------------
// official images
// ---------------------------------------------------------------------------
/// The date of an HTTP `Last-Modified` value, in seconds since 1970, as
/// `httpdate::parse_http_date` reads it.
pub uninterp spec fn http_date_seconds(s: Seq<char>) -> Option<u64>;

/// Calls `httpdate::parse_http_date`; the time it returns is given in
/// seconds since 1970 (the crate only reads dates from 1970 on, to the second).
#[verifier::external_body]
pub(crate) fn parse_http_date(s: &str) -> (r: Option<u64>)
    ensures
        r == http_date_seconds(s@),
{
    httpdate::parse_http_date(s).ok().and_then(|t| t.duration_since(std::time::UNIX_EPOCH).ok()).map(
        |d| d.as_secs(),
    )
}

/// Where the official images of a language are, and the page to name as referrer.
pub open spec fn official_image_site(language: Language) -> (Seq<char>, Seq<char>) {
    match language {
        Language::Japanese => (
            "https://hololive-official-cardgame.com/wp-content/images/cardlist/"@,
            "https://hololive-official-cardgame.com/"@,
        ),
        Language::English => (
            "https://en.hololive-official-cardgame.com/wp-content/images/cardlist/"@,
            "https://en.hololive-official-cardgame.com/"@,
        ),
    }
}

/// The address of the official image of a path: the `.png` image of the path.
pub open spec fn official_image_url(language: Language, img_path: Seq<char>) -> Seq<char> {
    official_image_site(language).0 + replace(img_path, ".webp"@, ".png"@)
}

/// What to do with one printing's official image.
#[derive(Debug, Clone)]
pub enum DownloadDecision {
    /// The printing is not released in the language.
    Unreleased,
    /// The printing has no image path in the language.
    NoPath,
    /// The image on the site is not newer than ours.
    UpToDate,
    /// Download the image from `url`, naming `referrer`; the printing's image
    /// date becomes `last_modified`.
    Download { url: String, referrer: String, last_modified: Option<String> },
}

/// The site's image is not newer than the one we have, both dates being readable.
pub open spec fn up_to_date(site: Option<Seq<char>>, ours: Option<Seq<char>>) -> bool {
    site matches Some(s) && ours matches Some(o) && http_date_seconds(s) matches Some(a)
        && http_date_seconds(o) matches Some(b) && a <= b
}

/// Whether and how to download a printing's official image, given the
/// `Last-Modified` date the site gives for it.
pub open spec fn download_decision_is(
    illust: CardIllustrationView,
    language: Language,
    site_last_modified: Option<Seq<char>>,
    force_download: bool,
    d: DownloadDecision,
) -> bool {
    let released = match language {
        Language::Japanese => illust.manage_id.0 is Some,
        Language::English => illust.manage_id.1 is Some,
    };
    let path = text_get(illust.img_path, language);
    let ours = text_get(illust.img_last_modified, language);
    if !released {
        d is Unreleased
    } else if path is None {
        d is NoPath
    } else if up_to_date(site_last_modified, ours) && !force_download {
        d is UpToDate
    } else {
        d matches DownloadDecision::Download { url, referrer, last_modified } && url@
            == official_image_url(language, path->0) && referrer@ == official_image_site(
            language,
        ).1 && opt_view(last_modified) == (if site_last_modified is Some {
            site_last_modified
        } else {
            ours
        })
    }
}

/// The address of a printing's official image, to ask for its date.
pub fn official_image_url_of(illust: &CardIllustration, language: Language) -> (r: Option<String>)
    ensures
        match text_get(illust@.img_path, language) {
            Some(p) => r matches Some(u) && u@ == official_image_url(language, p),
            None => r is None,
        },
{
    match illust.img_path.value(language) {
        Some(p) => {
            proof {
                reveal_strlit(".webp");
            }
            let base = match language {
                Language::Japanese => chars_of(
                    "https://hololive-official-cardgame.com/wp-content/images/cardlist/",
                ),
                Language::English => chars_of(
                    "https://en.hololive-official-cardgame.com/wp-content/images/cardlist/",
                ),
            };
            let mut v = base;
            push_all(&mut v, &replace_str(&chars_of_string(p), ".webp", ".png"));
            Some(string_of(&v))
        },
        None => None,
    }
}

/// Decides whether to download a printing's official image.
pub fn download_decision(
    illust: &CardIllustration,
    language: Language,
    site_last_modified: Option<String>,
    force_download: bool,
) -> (r: DownloadDecision)
    ensures
        download_decision_is(illust@, language, opt_view(site_last_modified), force_download, r),
{
    if illust.manage_id.value(language).is_none() {
        return DownloadDecision::Unreleased;
    }
    let url = match official_image_url_of(illust, language) {
        Some(u) => u,
        None => {
            return DownloadDecision::NoPath;
        },
    };
    let ours = illust.img_last_modified.value(language);
    let newer_known = match (&site_last_modified, ours) {
        (Some(s), Some(o)) => match (parse_http_date(s.as_str()), parse_http_date(o.as_str())) {
            (Some(a), Some(b)) => a <= b,
            _ => false,
        },
        _ => false,
    };
    if newer_known && !force_download {
        return DownloadDecision::UpToDate;
    }
    let last_modified = match site_last_modified {
        Some(s) => Some(s),
        None => copy_opt_string(ours),
    };
    let referrer = match language {
        Language::Japanese => String::from_str("https://hololive-official-cardgame.com/"),
        Language::English => String::from_str("https://en.hololive-official-cardgame.com/"),
    };
    DownloadDecision::Download { url, referrer, last_modified }
}

/// The number of listed printings that have an image path and are released
/// in `language`; a listed printing that does not exist counts for nothing.
pub open spec fn downloadable_count(
    db: Seq<CardView>,
    filtered: Seq<(Seq<char>, usize)>,
    language: Language,
) -> nat
    decreases filtered.len(),
{
    if filtered.len() == 0 {
        0
    } else {
        let (n, k) = filtered.last();
        let here: nat = match find_card(db, n, 0) {
            Some(i) => if k < db[i].illustrations.len() && text_get(
                db[i].illustrations[k as int].img_path,
                language,
            ) is Some && (match language {
                Language::Japanese => db[i].illustrations[k as int].manage_id.0 is Some,
                Language::English => db[i].illustrations[k as int].manage_id.1 is Some,
            }) {
                1
            } else {
                0
            },
            None => 0,
        };
        downloadable_count(db, filtered.drop_last(), language) + here
    }
}

/// Counts the listed printings whose images can be downloaded.
pub fn count_downloadable(db: &Vec<Card>, filtered: &Vec<(String, usize)>, language: Language) -> (r:
    usize)
    ensures
        r == downloadable_count(
            card_views(db@),
            filtered@.map_values(|e: (String, usize)| (e.0@, e.1)),
            language,
        ),
{
    let ghost fv = filtered@.map_values(|e: (String, usize)| (e.0@, e.1));
    let mut n: usize = 0;
    let mut i: usize = 0;
    while i < filtered.len()
        invariant
            i <= filtered.len(),
            fv == filtered@.map_values(|e: (String, usize)| (e.0@, e.1)),
            n <= i,
            n == downloadable_count(card_views(db@), fv.take(i as int), language),
        decreases filtered.len() - i,
    {
        assert(fv.take(i + 1).drop_last() == fv.take(i as int));
        assert(fv.take(i + 1).last() == (filtered@[i as int].0@, filtered@[i as int].1));
        let (number, k) = &filtered[i];
        match find_card_index(db, number) {
            Some(c) => {
                let card = &db[c];
                assert(card_views(db@)[c as int] == card@);
                if *k < card.illustrations.len() {
                    let il = &card.illustrations[*k];
                    assert(card@.illustrations[*k as int] == il@);
                    if il.img_path.value(language).is_some() && il.manage_id.value(language).is_some() {
                        n = n + 1;
                    }
                }
            },
            None => {},
        }
        i = i + 1;
    }
    assert(fv.take(i as int) == fv);
    n
}

/// Records a downloaded image: its date and its hash.
pub fn record_download(
    illust: &mut CardIllustration,
    language: Language,
    last_modified: Option<String>,
    img_hash: String,
)
    ensures
        final(illust)@ == (CardIllustrationView {
            img_last_modified: text_set(old(illust)@.img_last_modified, language, opt_view(last_modified)),
            img_hash: img_hash@,
            ..old(illust)@
        }),
{
    illust.img_last_modified.set(language, last_modified);
    illust.img_hash = img_hash;
}


// ---------------------------------------------------------------------------
// ordering candidates by rank
// ---------------------------------------------------------------------------
/// Where an entry with key `k` goes among `r`: after every entry whose key
/// is not greater.
pub open spec fn insert_pos<T>(r: Seq<(T, u64)>, k: u64, i: int) -> int
    decreases r.len() - i,
{
    if i < 0 || i >= r.len() {
        r.len() as int
    } else if r[i].1 > k {
        i
    } else {
        insert_pos(r, k, i + 1)
    }
}

/// The entries ordered by key, entries with equal keys in their first order
/// (a stable sort).
pub open spec fn stable_sort<T>(s: Seq<(T, u64)>) -> Seq<(T, u64)>
    decreases s.len(),
{
    if s.len() == 0 {
        s
    } else {
        let r = stable_sort(s.drop_last());
        r.insert(insert_pos(r, s.last().1, 0), s.last())
    }
}

pub open spec fn keys_sorted<T>(r: Seq<(T, u64)>) -> bool {
    forall|i: int, j: int| 0 <= i < j < r.len() ==> r[i].1 <= r[j].1
}

proof fn lemma_insert_pos<T>(r: Seq<(T, u64)>, k: u64, i: int)
    requires
        0 <= i <= r.len(),
        keys_sorted(r),
    ensures
        i <= insert_pos(r, k, i) <= r.len(),
        forall|j: int| i <= j < insert_pos(r, k, i) ==> r[j].1 <= k,
        insert_pos(r, k, i) < r.len() ==> r[insert_pos(r, k, i)].1 > k,
    decreases r.len() - i,
{
    if i < r.len() && r[i].1 <= k {
        lemma_insert_pos(r, k, i + 1);
    }
}

/// The stable sort orders the entries by key and keeps them all.
pub proof fn lemma_stable_sort_sorted<T>(s: Seq<(T, u64)>)
    ensures
        keys_sorted(stable_sort(s)),
        stable_sort(s).len() == s.len(),
    decreases s.len(),
{
    if s.len() > 0 {
        let r = stable_sort(s.drop_last());
        lemma_stable_sort_sorted(s.drop_last());
        lemma_insert_pos(r, s.last().1, 0);
        let p = insert_pos(r, s.last().1, 0);
        let t = r.insert(p, s.last());
        assert forall|i: int, j: int| 0 <= i < j < t.len() implies t[i].1 <= t[j].1 by {
            if j < p {
            } else if j == p {
                assert(r[i].1 <= s.last().1);
            } else if i < p {
                assert(r[i].1 <= r[j - 1].1);
            } else if i == p {
                assert(r[j - 1].1 >= r[p].1);
            } else {
                assert(r[i - 1].1 <= r[j - 1].1);
            }
        }
    }
}

/// Sorts entries by key, keeping the first order of entries with equal keys.
pub fn sort_by_rank<T: Copy>(s: &Vec<(T, u64)>) -> (r: Vec<(T, u64)>)
    ensures
        r@ == stable_sort(s@),
{
    let mut r: Vec<(T, u64)> = Vec::new();
    let mut i: usize = 0;
    while i < s.len()
        invariant
            i <= s.len(),
            r@ == stable_sort(s@.take(i as int)),
        decreases s.len() - i,
    {
        let e = s[i];
        let ghost r0 = r@;
        let mut p: usize = 0;
        while p < r.len() && r[p].1 <= e.1
            invariant
                p <= r.len(),
                r@ == r0,
                insert_pos(r0, e.1, 0) == insert_pos(r0, e.1, p as int),
            decreases r.len() - p,
        {
            p = p + 1;
        }
        r.insert(p, e);
        proof {
            assert(s@.take(i + 1).drop_last() == s@.take(i as int));
            assert(s@.take(i + 1).last() == e);
        }
        i = i + 1;
    }
    assert(s@.take(i as int) == s@);
    r
}

// ---------------------------------------------------------------------------
// proxy images
// ---------------------------------------------------------------------------
/// A file found under the proxy folder.
#[derive(Debug, Clone)]
pub struct ProxyEntry {
    pub path: String,
    /// The names of the file and of each folder above it.
    pub components: Vec<String>,
    pub is_file: bool,
    pub extension: Option<String>,
    pub stem: Option<String>,
}

/// The extension of the last component of a path.
pub uninterp spec fn path_extension(p: Seq<char>) -> Option<Seq<char>>;

/// `std::path::Path::extension` of the path, read as text.
#[verifier::external_body]
fn extension_of(p: &str) -> (r: Option<String>)
    ensures
        opt_view(r) == path_extension(p@),
{
    std::path::Path::new(p).extension().and_then(|s| s.to_str()).map(|s| s.to_string())
}

/// A file under the proxy folder, from its path, the names of the file and
/// of each folder above it, and whether it is a file.
pub fn proxy_entry(path: String, components: Vec<String>, is_file: bool) -> (r: ProxyEntry)
    ensures
        r.path@ == path@,
        r.components@ == components@,
        r.is_file == is_file,
        opt_view(r.extension) == path_extension(path@),
        opt_view(r.stem) == path_file_stem(path@),
{
    let extension = extension_of(path.as_str());
    let stem = file_stem_of(path.as_str());
    ProxyEntry { path, components, is_file, extension, stem }
}

/// A proxy image of a card: its file name, rarity and path.
#[derive(Debug, Clone)]
pub struct ProxyFile {
    pub stem: String,
    pub rarity: String,
    pub path: String,
}

pub open spec fn proxy_view(p: ProxyFile) -> (Seq<char>, Seq<char>, Seq<char>) {
    (p.stem@, p.rarity@, p.path@)
}

/// The file lies in a folder of blanks.
pub open spec fn in_blanks(components: Seq<String>) -> bool {
    exists|i: int|
        0 <= i < components.len() && (ascii_lowercase((#[trigger] components[i])@) == "blanks"@
            || ascii_lowercase(components[i]@) == "blank"@)
}

/// The card number and rarity of a proxy file `<number>_<rarity>[_...].png`.
pub open spec fn proxy_name(e: ProxyEntry) -> Option<(Seq<char>, Seq<char>)> {
    if !in_blanks(e.components@) && e.is_file && (e.extension matches Some(x) && x@ == "png"@)
        && e.stem is Some {
        match split_once(e.stem->0@, "_"@) {
            Some((number, part)) => Some(
                (
                    number,
                    match split_once(part, "_"@) {
                        Some((rarity, _)) => rarity,
                        None => part,
                    },
                ),
            ),
            None => None,
        }
    } else {
        None
    }
}

pub type ProxyGroups = Seq<(Seq<char>, Seq<(Seq<char>, Seq<char>, Seq<char>)>)>;

/// The position of the group of card `number`.
pub open spec fn group_of(g: ProxyGroups, number: Seq<char>, i: int) -> Option<int>
    decreases g.len() - i,
{
    if i < 0 || i >= g.len() {
        None
    } else if g[i].0 == number {
        Some(i)
    } else {
        group_of(g, number, i + 1)
    }
}

proof fn lemma_group_of(g: ProxyGroups, number: Seq<char>, i: int)
    ensures
        group_of(g, number, i) matches Some(j) ==> 0 <= j < g.len() && g[j].0 == number,
    decreases g.len() - i,
{
    if 0 <= i < g.len() {
        lemma_group_of(g, number, i + 1);
    }
}

/// One file added to the groups: to its card's group, unless a file of
/// the same name is there.
pub open spec fn proxy_step(g: ProxyGroups, e: ProxyEntry) -> ProxyGroups {
    match proxy_name(e) {
        Some((number, rarity)) => {
            let f = (e.stem->0@, rarity, e.path@);
            match group_of(g, number, 0) {
                Some(i) => if exists|k: int| 0 <= k < g[i].1.len() && (#[trigger] g[i].1[k]).0 == f.0 {
                    g
                } else {
                    g.update(i, (number, g[i].1.push(f)))
                },
                None => g.push((number, seq![f])),
            }
        },
        None => g,
    }
}

pub open spec fn proxy_groups(es: Seq<ProxyEntry>) -> ProxyGroups
    decreases es.len(),
{
    if es.len() == 0 {
        Seq::empty()
    } else {
        proxy_step(proxy_groups(es.drop_last()), es.last())
    }
}

pub open spec fn groups_view(g: Seq<(String, Vec<ProxyFile>)>) -> ProxyGroups {
    g.map_values(|e: (String, Vec<ProxyFile>)| (e.0@, e.1@.map_values(|p: ProxyFile| proxy_view(p))))
}

fn in_blanks_exec(components: &Vec<String>) -> (r: bool)
    ensures
        r == in_blanks(components@),
{
    let mut i: usize = 0;
    while i < components.len()
        invariant
            i <= components.len(),
            forall|k: int|
                0 <= k < i ==> !(ascii_lowercase((#[trigger] components@[k])@) == "blanks"@
                    || ascii_lowercase(components@[k]@) == "blank"@),
        decreases components.len() - i,
    {
        let l = ascii_lowercase_chars(&chars_of_string(&components[i]));
        if eq(&l, &chars_of("blanks")) || eq(&l, &chars_of("blank")) {
            return true;
        }
        i = i + 1;
    }
    false
}

fn proxy_name_exec(e: &ProxyEntry) -> (r: Option<(Vec<char>, Vec<char>)>)
    ensures
        match r {
            Some((n, ra)) => proxy_name(*e) == Some((n@, ra@)),
            None => proxy_name(*e).is_none(),
        },
{
    if in_blanks_exec(&e.components) || !e.is_file {
        return None;
    }
    let png = match &e.extension {
        Some(x) => eq(&chars_of_string(x), &chars_of("png")),
        None => false,
    };
    if !png {
        return None;
    }
    match &e.stem {
        Some(stem) => match split_once_str(&chars_of_string(stem), "_") {
            Some((number, part)) => {
                let rarity = match split_once_str(&part, "_") {
                    Some((r, _)) => r,
                    None => part,
                };
                Some((number, rarity))
            },
            None => None,
        },
        None => None,
    }
}

fn copy_proxy(p: &ProxyFile) -> (r: ProxyFile)
    ensures
        proxy_view(r) == proxy_view(*p),
{
    ProxyFile { stem: p.stem.clone(), rarity: p.rarity.clone(), path: p.path.clone() }
}

/// Groups the proxy files by card number; files in a folder of blanks,
/// other than `.png` files, or without a card number are left out, and so
/// is a second file of the same name for a card.
pub fn collect_proxy_files(entries: &Vec<ProxyEntry>) -> (r: Vec<(String, Vec<ProxyFile>)>)
    ensures
        groups_view(r@) == proxy_groups(entries@),
{
    let mut groups: Vec<(String, Vec<ProxyFile>)> = Vec::new();
    let mut i: usize = 0;
    while i < entries.len()
        invariant
            i <= entries.len(),
            groups_view(groups@) == proxy_groups(entries@.take(i as int)),
        decreases entries.len() - i,
    {
        let e = &entries[i];
        proof {
            assert(entries@.take(i + 1).drop_last() == entries@.take(i as int));
            assert(entries@.take(i + 1).last() == *e);
        }
        let ghost g0 = groups_view(groups@);
        match proxy_name_exec(e) {
            Some((number, rarity)) => {
                let stem = match &e.stem {
                    Some(s) => s.clone(),
                    None => String::new(),
                };
                let f = ProxyFile { stem, rarity: string_of(&rarity), path: e.path.clone() };
                // the group of the card
                let mut j: usize = 0;
                let mut found: Option<usize> = None;
                while j < groups.len()
                    invariant_except_break
                        found is None,
                        group_of(g0, number@, 0) == group_of(g0, number@, j as int),
                    invariant
                        j <= groups.len(),
                        g0 == groups_view(groups@),
                    ensures
                        match found {
                            Some(k) => k < groups@.len() && group_of(g0, number@, 0) == Some(k as int),
                            None => group_of(g0, number@, 0).is_none(),
                        },
                    decreases groups.len() - j,
                {
                    assert(g0[j as int].0 == groups@[j as int].0@);
                    if eq(&chars_of_string(&groups[j].0), &number) {
                        found = Some(j);
                        break;
                    }
                    j = j + 1;
                }
                match found {
                    Some(k) => {
                        let ghost gk = g0[k as int];
                        proof {
                            lemma_group_of(g0, number@, 0);
                        }
                        assert(gk.1 == groups@[k as int].1@.map_values(|p: ProxyFile| proxy_view(p)));
                        let mut dup = false;
                        let mut m: usize = 0;
                        while m < groups[k].1.len()
                            invariant
                                m <= groups@[k as int].1.len(),
                                k < groups@.len(),
                                gk.1 == groups@[k as int].1@.map_values(|p: ProxyFile| proxy_view(p)),
                                dup == exists|q: int| 0 <= q < m && (#[trigger] gk.1[q]).0 == f.stem@,
                            decreases groups@[k as int].1.len() - m,
                        {
                            if groups[k].1[m].stem == f.stem {
                                dup = true;
                            }
                            assert(gk.1[m as int].0 == groups@[k as int].1@[m as int].stem@);
                            m = m + 1;
                        }
                        if !dup {
                            let mut tmp: (String, Vec<ProxyFile>) = (String::new(), Vec::new());
                            groups.set_and_swap(k, &mut tmp);
                            assert(tmp.0@ == number@);
                            let ghost before = tmp.1@;
                            tmp.1.push(f);
                            assert(tmp.1@.map_values(|p: ProxyFile| proxy_view(p)) == before.map_values(
                                |p: ProxyFile| proxy_view(p),
                            ).push(proxy_view(f)));
                            let ghost mid = groups@;
                            groups.set(k, tmp);
                            proof {
                                assert(groups@ == mid.update(k as int, tmp));
                                assert(groups_view(groups@) =~= g0.update(
                                    k as int,
                                    (number@, gk.1.push((f.stem@, rarity@, e.path@))),
                                ));
                            }
                        }
                    },
                    None => {
                        let mut v: Vec<ProxyFile> = Vec::new();
                        v.push(f);
                        assert(v@.map_values(|p: ProxyFile| proxy_view(p)) == seq![proxy_view(f)]);
                        let ghost before = groups@;
                        groups.push((string_of(&number), v));
                        assert(groups_view(groups@) == groups_view(before).push(
                            (number@, seq![(f.stem@, rarity@, e.path@)]),
                        ));
                    },
                }
            },
            None => {},
        }
        i = i + 1;
    }
    assert(entries@.take(i as int) == entries@);
    groups
}


/// The path of the proxy image of a printing: its Japanese image path under
/// the proxy folder, as `.webp`.
pub open spec fn proxy_image_path(il: CardIllustrationView) -> Seq<char> {
    "proxies/"@ + replace(
        match il.img_path.0 {
            Some(p) => p,
            None => Seq::empty(),
        },
        ".png"@,
        ".webp"@,
    )
}

/// The path of the proxy image of a printing.
pub fn proxy_image_path_of(il: &CardIllustration) -> (r: String)
    ensures
        r@ == proxy_image_path(il@),
{
    proof {
        reveal_strlit(".png");
    }
    let jp = match &il.img_path.japanese {
        Some(p) => chars_of_string(p),
        None => Vec::new(),
    };
    let mut v = chars_of("proxies/");
    push_all(&mut v, &replace_str(&jp, ".png", ".webp"));
    string_of(&v)
}

/// The database with the English image path of one printing replaced.
pub open spec fn with_english_path(db: Seq<CardView>, c: int, i: int, p: Option<Seq<char>>) -> Seq<
    CardView,
> {
    db.update(
        c,
        CardView {
            illustrations: db[c].illustrations.update(
                i,
                CardIllustrationView {
                    img_path: (db[c].illustrations[i].img_path.0, p),
                    ..db[c].illustrations[i]
                },
            ),
            ..db[c]
        },
    )
}


/// Sets the English image path of one printing.
fn set_english_path(db: &mut Vec<Card>, c: usize, i: usize, p: Option<String>)
    requires
        c < old(db)@.len(),
        i < old(db)@[c as int].illustrations@.len(),
    ensures
        card_views(final(db)@) == with_english_path(card_views(old(db)@), c as int, i as int, opt_view(p)),
        final(db)@.len() == old(db)@.len(),
        forall|k: int| 0 <= k < old(db)@.len() ==> (#[trigger] final(db)@[k]).illustrations@.len() == old(db)@[k].illustrations@.len(),
{
    let ghost d0 = db@;
    let mut card = Card::default();
    db.set_and_swap(c, &mut card);
    let ghost il0 = card.illustrations@;
    let ghost cv0 = card@;
    let mut il = CardIllustration::default();
    card.illustrations.set_and_swap(i, &mut il);
    il.img_path.english = p;
    let ghost ilv = il@;
    card.illustrations.set(i, il);
    proof {
        assert(card.illustrations@ == il0.update(i as int, il));
        assert(card@.illustrations =~= cv0.illustrations.update(i as int, ilv));
    }
    let ghost cv = card@;
    db.set(c, card);
    proof {
        assert(db@ == d0.update(c as int, card));
        assert(card_views(db@) =~= card_views(d0).update(c as int, cv));
        assert forall|k: int| 0 <= k < d0.len() implies (#[trigger] db@[k]).illustrations@.len() == d0[k].illustrations@.len() by {
            if k == c {
                assert(cv.illustrations.len() == card.illustrations@.len());
            }
        }
    }
}

/// A proxy path is replaced by the next matching, and official English images stay.
pub open spec fn cleared_proxy(il: CardIllustrationView) -> CardIllustrationView {
    if il.img_path.1 matches Some(p) && starts_with(p, "proxies"@) {
        CardIllustrationView { img_path: (il.img_path.0, None), ..il }
    } else {
        il
    }
}

/// Clears the proxy paths of all printings.
pub fn clear_proxy_paths(db: &mut Vec<Card>)
    ensures
        card_views(final(db)@) == card_views(old(db)@).map_values(
            |c: CardView|
                CardView {
                    illustrations: c.illustrations.map_values(
                        |il: CardIllustrationView| cleared_proxy(il),
                    ),
                    ..c
                },
        ),
{
    let ghost d0 = card_views(db@);
    let ghost f = |c: CardView|
        CardView {
            illustrations: c.illustrations.map_values(|il: CardIllustrationView| cleared_proxy(il)),
            ..c
        };
    let mut c: usize = 0;
    while c < db.len()
        invariant
            c <= db.len(),
            db@.len() == d0.len(),
            f == (|c: CardView|
                CardView {
                    illustrations: c.illustrations.map_values(
                        |il: CardIllustrationView| cleared_proxy(il),
                    ),
                    ..c
                }),
            forall|k: int| 0 <= k < c ==> #[trigger] card_views(db@)[k] == f(d0[k]),
            forall|k: int| c <= k < d0.len() ==> #[trigger] card_views(db@)[k] == d0[k],
        decreases db.len() - c,
    {
        assert(card_views(db@)[c as int] == db@[c as int]@);
        let mut i: usize = 0;
        while i < db[c].illustrations.len()
            invariant
                c < db.len(),
                db@.len() == d0.len(),
                i <= db@[c as int].illustrations@.len(),
                db@[c as int].illustrations@.len() == d0[c as int].illustrations.len(),
                card_views(db@)[c as int] == (CardView {
                    illustrations: card_views(db@)[c as int].illustrations,
                    ..d0[c as int]
                }),
                forall|k: int| 0 <= k < c ==> #[trigger] card_views(db@)[k] == f(d0[k]),
                forall|k: int| c < k < d0.len() ==> #[trigger] card_views(db@)[k] == d0[k],
                forall|k: int|
                    0 <= k < i ==> #[trigger] card_views(db@)[c as int].illustrations[k] == cleared_proxy(
                        d0[c as int].illustrations[k],
                    ),
                forall|k: int|
                    i <= k < d0[c as int].illustrations.len() ==> #[trigger] card_views(
                        db@,
                    )[c as int].illustrations[k] == d0[c as int].illustrations[k],
            decreases db@[c as int].illustrations@.len() - i,
        {
            let il = &db[c].illustrations[i];
            assert(card_views(db@)[c as int].illustrations[i as int] == il@);
            let is_proxy = match &il.img_path.english {
                Some(p) => starts_with_str(&chars_of_string(p), "proxies"),
                None => false,
            };
            if is_proxy {
                let ghost before = card_views(db@);
                set_english_path(db, c, i, None);
                proof {
                    assert forall|k: int| 0 <= k < d0.len() && k != c implies #[trigger] card_views(db@)[k]
                        == before[k] by {}
                }
            }
            i = i + 1;
        }
        proof {
            assert(card_views(db@)[c as int].illustrations =~= d0[c as int].illustrations.map_values(
                |il: CardIllustrationView| cleared_proxy(il),
            ));
        }
        c = c + 1;
    }
    assert(card_views(db@) =~= d0.map_values(f));
}

/// The printings of card number `number`, by card and position.
pub open spec fn is_location_list(db: Seq<CardView>, number: Seq<char>, locs: Seq<(usize, usize)>) -> bool {
    &&& forall|k: int|
        0 <= k < locs.len() ==> (#[trigger] locs[k]).0 < db.len() && locs[k].1 < db[locs[k].0 as int].illustrations.len()
            && db[locs[k].0 as int].illustrations[locs[k].1 as int].card_number == number
    &&& forall|c: int, i: int|
        0 <= c < db.len() && 0 <= i < db[c].illustrations.len()
            && (#[trigger] db[c].illustrations[i]).card_number == number ==> exists|k: int|
            0 <= k < locs.len() && locs[k] == (c as usize, i as usize)
    &&& forall|a: int, b: int|
        0 <= a < b < locs.len() ==> (locs[a].0 < locs[b].0 || (locs[a].0 == locs[b].0 && locs[a].1
            < locs[b].1))
}

/// The printings of a card number, in database order.
pub fn illustration_locations(db: &Vec<Card>, number: &String) -> (r: Vec<(usize, usize)>)
    ensures
        is_location_list(card_views(db@), number@, r@),
{
    let ghost d = card_views(db@);
    let mut out: Vec<(usize, usize)> = Vec::new();
    let mut c: usize = 0;
    while c < db.len()
        invariant
            c <= db.len(),
            d == card_views(db@),
            forall|k: int|
                0 <= k < out@.len() ==> (#[trigger] out@[k]).0 < c && out@[k].1 < d[out@[k].0 as int].illustrations.len()
                    && d[out@[k].0 as int].illustrations[out@[k].1 as int].card_number == number@,
            forall|cc: int, i: int|
                0 <= cc < c && 0 <= i < d[cc].illustrations.len()
                    && (#[trigger] d[cc].illustrations[i]).card_number == number@ ==> exists|k: int|
                    0 <= k < out@.len() && out@[k] == (cc as usize, i as usize),
            forall|a: int, b: int|
                0 <= a < b < out@.len() ==> (out@[a].0 < out@[b].0 || (out@[a].0 == out@[b].0
                    && out@[a].1 < out@[b].1)),
        decreases db.len() - c,
    {
        assert(d[c as int] == db@[c as int]@);
        let mut i: usize = 0;
        while i < db[c].illustrations.len()
            invariant
                c < db.len(),
                d == card_views(db@),
                i <= db@[c as int].illustrations@.len(),
                forall|k: int|
                    0 <= k < out@.len() ==> (#[trigger] out@[k]).0 <= c && out@[k].1 < d[out@[k].0 as int].illustrations.len()
                        && d[out@[k].0 as int].illustrations[out@[k].1 as int].card_number == number@
                        && (out@[k].0 == c ==> out@[k].1 < i),
                forall|cc: int, ii: int|
                    ((0 <= cc < c && 0 <= ii < d[cc].illustrations.len()) || (cc == c && 0 <= ii < i))
                        && (#[trigger] d[cc].illustrations[ii]).card_number == number@ ==> exists|k: int|
                        0 <= k < out@.len() && out@[k] == (cc as usize, ii as usize),
                forall|a: int, b: int|
                    0 <= a < b < out@.len() ==> (out@[a].0 < out@[b].0 || (out@[a].0 == out@[b].0
                        && out@[a].1 < out@[b].1)),
            decreases db@[c as int].illustrations@.len() - i,
        {
            assert(d[c as int].illustrations[i as int] == db@[c as int].illustrations@[i as int]@);
            if db[c].illustrations[i].card_number == *number {
                let ghost before = out@;
                out.push((c, i));
                proof {
                    assert(out@[before.len() as int] == (c, i));
                    assert forall|cc: int, ii: int|
                        ((0 <= cc < c && 0 <= ii < d[cc].illustrations.len()) || (cc == c && 0 <= ii < i + 1))
                            && (#[trigger] d[cc].illustrations[ii]).card_number == number@ implies exists|k: int|
                            0 <= k < out@.len() && out@[k] == (cc as usize, ii as usize) by {
                        if cc == c && ii == i {
                            assert(out@[before.len() as int] == (cc as usize, ii as usize));
                        } else {
                            let k = choose|k: int| 0 <= k < before.len() && before[k] == (cc as usize, ii as usize);
                            assert(out@[k] == before[k]);
                        }
                    }
                }
            }
            i = i + 1;
        }
        c = c + 1;
    }
    out
}


/// The smallest id of a set.
pub open spec fn least_id(s: Set<u32>) -> Option<u32> {
    if exists|m: u32| s.contains(m) && forall|x: u32| s.contains(x) ==> m <= x {
        Some(choose|m: u32| s.contains(m) && forall|x: u32| s.contains(x) ==> m <= x)
    } else {
        None
    }
}

/// The first Japanese Deck Log id of a printing.
pub open spec fn first_jp_id(il: CardIllustrationView) -> Option<u32> {
    match il.manage_id.0 {
        Some(s) => least_id(s),
        None => None,
    }
}

proof fn lemma_least_of_sorted(q: Seq<u32>, s: Set<u32>)
    requires
        sorted_elements(q, s),
    ensures
        least_id(s) == (if q.len() == 0 {
            None
        } else {
            Some(q[0])
        }),
{
    if q.len() == 0 {
        assert forall|m: u32| !s.contains(m) by {
            if s.contains(m) {
                assert(q.to_set().contains(m));
            }
        }
    } else {
        let m = q[0];
        assert(q.to_set().contains(m));
        assert forall|x: u32| s.contains(x) implies m <= x by {
            assert(q.to_set().contains(x));
            let k = choose|k: int| 0 <= k < q.len() && q[k] == x;
            if k > 0 {
                assert(q[0] < q[k]);
            }
        }
        let c = choose|c: u32| s.contains(c) && forall|x: u32| s.contains(x) ==> c <= x;
        assert(c <= m && m <= c);
    }
}

pub(crate) fn first_id(ids: &Option<BTreeSet<u32>>) -> (r: Option<u32>)
    ensures
        r == match opt_set(*ids) {
            Some(s) => least_id(s),
            None => None,
        },
{
    match ids {
        Some(set) => {
            let mut v: Vec<u32> = Vec::new();
            for id in it: set.iter()
                invariant
                    v@.len() == it.index(),
                    forall|k: int| 0 <= k < it.index() ==> v@[k] == *#[trigger] it.seq()[k],
            {
                v.push(*id);
            }
            proof {
                let q = spec_btree_keys_iter(set).remaining().unref();
                lemma_btree_iter_sorted(set);
                assert(v@ == q);
                lemma_least_of_sorted(q, set@);
            }
            if v.len() == 0 {
                None
            } else {
                Some(v[0])
            }
        },
        None => None,
    }
}

/// The rank of a proxy for a printing: the image distance, then the rarity
/// and the release order weigh in.
pub open spec fn proxy_rank(rarity_differs: bool, first_id: Option<u32>, dist: u64) -> u64 {
    let rarity_rank: int = if rarity_differs {
        100000
    } else {
        0
    };
    let id_rank: int = match first_id {
        Some(i) => i as int,
        None => u32::MAX as int,
    };
    let dist_rank: int = if dist * 1000 > u64::MAX {
        u64::MAX as int
    } else {
        dist * 1000
    };
    let a: int = if rarity_rank + id_rank > u64::MAX {
        u64::MAX as int
    } else {
        rarity_rank + id_rank
    };
    if a + dist_rank > u64::MAX {
        u64::MAX
    } else {
        (a + dist_rank) as u64
    }
}

fn proxy_rank_of(rarity_differs: bool, first_id: Option<u32>, dist: u64) -> (r: u64)
    ensures
        r == proxy_rank(rarity_differs, first_id, dist),
{
    let rarity_rank: u64 = if rarity_differs {
        100000
    } else {
        0
    };
    let id_rank: u64 = match first_id {
        Some(i) => i as u64,
        None => u32::MAX as u64,
    };
    let dist_rank: u64 = match dist.checked_mul(1000) {
        Some(d) => d,
        None => u64::MAX,
    };
    rarity_rank.saturating_add(id_rank).saturating_add(dist_rank)
}

/// The pairs (proxy, printing) in order: each proxy with each printing.
pub open spec fn pairs(p: int, l: int) -> Seq<(int, int)>
    decreases p,
{
    if p <= 0 {
        Seq::empty()
    } else {
        pairs(p - 1, l) + Seq::new(l as nat, |j: int| (p - 1, j))
    }
}

/// The rank of a pair.
pub open spec fn pair_rank(
    db: Seq<CardView>,
    locs: Seq<(usize, usize)>,
    proxies: Seq<(Seq<char>, Seq<char>, Seq<char>)>,
    dists: Seq<Vec<u64>>,
    k: int,
    j: int,
) -> u64 {
    let il = db[locs[j].0 as int].illustrations[locs[j].1 as int];
    proxy_rank(proxies[k].1 != il.rarity, first_jp_id(il), dists[k]@[j])
}

/// The candidate pairs with their ranks, before sorting.
pub open spec fn ranked_pairs(
    db: Seq<CardView>,
    locs: Seq<(usize, usize)>,
    proxies: Seq<(Seq<char>, Seq<char>, Seq<char>)>,
    dists: Seq<Vec<u64>>,
) -> Seq<((int, int), u64)> {
    pairs(proxies.len() as int, locs.len() as int).map_values(
        |e: (int, int)| (e, pair_rank(db, locs, proxies, dists, e.0, e.1)),
    )
}

/// The cards, the proxy paths taken, the number of matches, and the
/// matches that set a printing's path (by card, printing and proxy).
pub type MatchState = (Seq<CardView>, Seq<Seq<char>>, nat, Seq<(int, int, int)>);

/// One pair, in rank order: a proxy not yet taken goes to a printing that
/// has no English image yet, or that is released in English (whose official
/// image stays).
pub open spec fn match_step(
    st: MatchState,
    locs: Seq<(usize, usize)>,
    proxies: Seq<(Seq<char>, Seq<char>, Seq<char>)>,
    e: ((int, int), u64),
) -> MatchState {
    let (db, taken, n, set) = st;
    let (k, j) = e.0;
    let path = proxies[k].2;
    let (c, i) = (locs[j].0 as int, locs[j].1 as int);
    let il = db[c].illustrations[i];
    if taken.contains(path) {
        st
    } else if il.img_path.1 is None || il.manage_id.1 is Some {
        if il.manage_id.1 is None {
            (with_english_path(db, c, i, Some(proxy_image_path(il))), taken.push(path), n + 1, set.push(
                (c, i, k),
            ))
        } else {
            (db, taken.push(path), n + 1, set)
        }
    } else {
        st
    }
}

pub open spec fn match_all(
    st: MatchState,
    locs: Seq<(usize, usize)>,
    proxies: Seq<(Seq<char>, Seq<char>, Seq<char>)>,
    es: Seq<((int, int), u64)>,
) -> MatchState
    decreases es.len(),
{
    if es.len() == 0 {
        st
    } else {
        match_step(match_all(st, locs, proxies, es.drop_last()), locs, proxies, es.last())
    }
}


/// What matching the proxies of a card number did.
#[derive(Debug)]
pub struct ProxyOutcome {
    /// The printings given a proxy image, by card and position, with the
    /// proxy file that stands for each.
    pub assigned: Vec<(usize, usize, String)>,
    /// The proxies no printing took.
    pub remaining: Vec<ProxyFile>,
    /// The number of proxies taken.
    pub matched: usize,
    /// There were printings but no proxies left.
    pub skipped: bool,
}

pub open spec fn proxies_view(v: Seq<ProxyFile>) -> Seq<(Seq<char>, Seq<char>, Seq<char>)> {
    v.map_values(|p: ProxyFile| proxy_view(p))
}

/// The locations are printings of the database.
pub open spec fn valid_locations(db: Seq<CardView>, locs: Seq<(usize, usize)>) -> bool {
    forall|k: int|
        0 <= k < locs.len() ==> (#[trigger] locs[k]).0 < db.len() && locs[k].1 < db[locs[k].0 as int].illustrations.len()
}

/// There is a choice to make between `p` images and `l` printings: some of
/// each, and not exactly one of each. Only then are distances read.
pub open spec fn choice_to_make(p: int, l: int) -> bool {
    p > 0 && l > 0 && !(p == 1 && l == 1)
}

/// Whether distances between `p` images and `l` printings are needed.
pub fn distances_needed(p: usize, l: usize) -> (r: bool)
    ensures
        r == choice_to_make(p as int, l as int),
{
    p > 0 && l > 0 && !(p == 1 && l == 1)
}

/// The distances of each proxy (row) to each printing (column).
pub open spec fn distance_table(dists: Seq<Vec<u64>>, p: int, l: int) -> bool {
    dists.len() == p && forall|k: int| 0 <= k < p ==> (#[trigger] dists[k])@.len() == l
}

/// The outcome of matching: with one proxy and one printing they go
/// together (the path is set when the printing is not released in English);
/// otherwise the pairs are taken in rank order by `match_step`.
pub open spec fn proxy_outcome(
    db: Seq<CardView>,
    locs: Seq<(usize, usize)>,
    proxies: Seq<(Seq<char>, Seq<char>, Seq<char>)>,
    dists: Seq<Vec<u64>>,
) -> MatchState {
    if locs.len() == 0 || proxies.len() == 0 {
        (db, Seq::empty(), 0, Seq::empty())
    } else if proxies.len() == 1 && locs.len() == 1 {
        let (c, i) = (locs[0].0 as int, locs[0].1 as int);
        let il = db[c].illustrations[i];
        if il.manage_id.1 is None {
            (with_english_path(db, c, i, Some(proxy_image_path(il))), seq![proxies[0].2], 1, seq![(c, i, 0)])
        } else {
            (db, seq![proxies[0].2], 1, Seq::empty())
        }
    } else {
        match_all(
            (db, Seq::empty(), 0, Seq::empty()),
            locs,
            proxies,
            stable_sort(ranked_pairs(db, locs, proxies, dists)),
        )
    }
}

fn contains_string(v: &Vec<String>, s: &String) -> (r: bool)
    ensures
        r == views(v@).contains(s@),
{
    let mut i: usize = 0;
    while i < v.len()
        invariant
            i <= v.len(),
            forall|k: int| 0 <= k < i ==> v@[k]@ != s@,
        decreases v.len() - i,
    {
        if v[i] == *s {
            assert(views(v@)[i as int] == s@);
            return true;
        }
        i = i + 1;
    }
    proof {
        if views(v@).contains(s@) {
            let k = choose|k: int| 0 <= k < views(v@).len() && views(v@)[k] == s@;
            assert(v@[k]@ == s@);
        }
    }
    false
}

/// Matches the proxies of one card number with its printings `locs`;
/// `dists` gives each proxy's image distance to each printing and is read
/// only when there is more than one proxy or printing.
pub fn match_proxies(
    db: &mut Vec<Card>,
    locs: &Vec<(usize, usize)>,
    proxies: &Vec<ProxyFile>,
    dists: &Vec<Vec<u64>>,
) -> (r: ProxyOutcome)
    requires
        valid_locations(card_views(old(db)@), locs@),
        choice_to_make(proxies@.len() as int, locs@.len() as int) ==> distance_table(
            dists@,
            proxies@.len() as int,
            locs@.len() as int,
        ),
    ensures
        ({
            let (db2, taken, n, set) = proxy_outcome(
                card_views(old(db)@),
                locs@,
                proxies_view(proxies@),
                dists@,
            );
            &&& card_views(final(db)@) == db2
            &&& r.matched == n
            &&& r.skipped == (locs@.len() > 0 && proxies@.len() == 0)
            &&& r.assigned@.map_values(|a: (usize, usize, String)| (a.0 as int, a.1 as int, a.2@)) == set.map_values(
                |t: (int, int, int)| (t.0, t.1, proxies_view(proxies@)[t.2].2),
            )
            &&& proxies_view(r.remaining@) == proxies_view(proxies@).filter(
                |p: (Seq<char>, Seq<char>, Seq<char>)| !taken.contains(p.2),
            )
        }),
{
    let ghost d0 = card_views(db@);
    let ghost pv = proxies_view(proxies@);
    if locs.len() == 0 || proxies.len() == 0 {
        let ghost keep0 = |p: (Seq<char>, Seq<char>, Seq<char>)| !Seq::<Seq<char>>::empty().contains(p.2);
        let mut rem: Vec<ProxyFile> = Vec::new();
        let mut k: usize = 0;
        while k < proxies.len()
            invariant
                k <= proxies.len(),
                pv == proxies_view(proxies@),
                keep0 == (|p: (Seq<char>, Seq<char>, Seq<char>)| !Seq::<Seq<char>>::empty().contains(p.2)),
                proxies_view(rem@) == pv.take(k as int).filter(keep0),
            decreases proxies.len() - k,
        {
            proof {
                assert(pv.take(k + 1) == pv.take(k as int).push(pv[k as int]));
                pv.take(k as int).lemma_filter_push(pv[k as int], keep0);
                assert(keep0(pv[k as int]));
            }
            let ghost rb = rem@;
            rem.push(copy_proxy(&proxies[k]));
            assert(proxies_view(rem@) == proxies_view(rb).push(pv[k as int]));
            k = k + 1;
        }
        assert(pv.take(k as int) == pv);
        return ProxyOutcome {
            assigned: Vec::new(),
            remaining: rem,
            matched: 0,
            skipped: locs.len() > 0 && proxies.len() == 0,
        };
    }
    if proxies.len() == 1 && locs.len() == 1 {
        let (c, i) = locs[0];
        assert(card_views(db@)[c as int] == db@[c as int]@);
        assert(db@[c as int]@.illustrations[i as int] == db@[c as int].illustrations@[i as int]@);
        let mut assigned: Vec<(usize, usize, String)> = Vec::new();
        if db[c].illustrations[i].manage_id.english.is_none() {
            let path = proxy_image_path_of(&db[c].illustrations[i]);
            set_english_path(db, c, i, Some(path));
            assigned.push((c, i, proxies[0].path.clone()));
        }
        proof {
            let taken = seq![pv[0].2];
            assert(pv.filter(|p: (Seq<char>, Seq<char>, Seq<char>)| !taken.contains(p.2)) =~= Seq::<(Seq<char>, Seq<char>, Seq<char>)>::empty()) by {
                let f = |p: (Seq<char>, Seq<char>, Seq<char>)| !taken.contains(p.2);
                assert(pv == Seq::<(Seq<char>, Seq<char>, Seq<char>)>::empty().push(pv[0]));
                Seq::<(Seq<char>, Seq<char>, Seq<char>)>::empty().lemma_filter_push(pv[0], f);
                assert(taken[0] == pv[0].2);
            }
        }
        return ProxyOutcome { assigned, remaining: Vec::new(), matched: 1, skipped: false };
    }
    // every pair with its rank
    let mut ranked: Vec<((usize, usize), u64)> = Vec::new();
    let ghost rp = ranked_pairs(d0, locs@, pv, dists@);
    let ghost f = |e: (int, int)| (e, pair_rank(d0, locs@, pv, dists@, e.0, e.1));
    let mut k: usize = 0;
    while k < proxies.len()
        invariant
            k <= proxies.len(),
            d0 == card_views(db@),
            pv == proxies_view(proxies@),
            valid_locations(d0, locs@),
            distance_table(dists@, proxies@.len() as int, locs@.len() as int),
            f == (|e: (int, int)| (e, pair_rank(d0, locs@, pv, dists@, e.0, e.1))),
            ranked@.map_values(|e: ((usize, usize), u64)| ((e.0.0 as int, e.0.1 as int), e.1)) == pairs(
                k as int,
                locs@.len() as int,
            ).map_values(f),
            forall|q: int| 0 <= q < ranked@.len() ==> (#[trigger] ranked@[q]).0.0 < proxies@.len() && ranked@[q].0.1 < locs@.len(),
        decreases proxies.len() - k,
    {
        let mut j: usize = 0;
        let ghost base = ranked@;
        while j < locs.len()
            invariant
                k < proxies.len(),
                j <= locs.len(),
                d0 == card_views(db@),
                pv == proxies_view(proxies@),
                valid_locations(d0, locs@),
                distance_table(dists@, proxies@.len() as int, locs@.len() as int),
                f == (|e: (int, int)| (e, pair_rank(d0, locs@, pv, dists@, e.0, e.1))),
                base.map_values(|e: ((usize, usize), u64)| ((e.0.0 as int, e.0.1 as int), e.1)) == pairs(
                    k as int,
                    locs@.len() as int,
                ).map_values(f),
                ranked@.map_values(|e: ((usize, usize), u64)| ((e.0.0 as int, e.0.1 as int), e.1)) == pairs(
                    k as int,
                    locs@.len() as int,
                ).map_values(f) + Seq::new(j as nat, |jj: int| (k as int, jj)).map_values(f),
                forall|q: int| 0 <= q < ranked@.len() ==> (#[trigger] ranked@[q]).0.0 < proxies@.len() && ranked@[q].0.1 < locs@.len(),
            decreases locs.len() - j,
        {
            let (c, i) = locs[j];
            assert(d0[c as int] == db@[c as int]@);
            let il = &db[c].illustrations[i];
            assert(d0[c as int].illustrations[i as int] == il@);
            let differs = !(proxies[k].rarity == il.rarity);
            let rank = proxy_rank_of(differs, first_id(&il.manage_id.japanese), dists[k][j]);
            assert(dists@[k as int]@[j as int] == dists[k as int][j as int]);
            let ghost before = ranked@;
            ranked.push(((k, j), rank));
            proof {
                let g = |e: ((usize, usize), u64)| ((e.0.0 as int, e.0.1 as int), e.1);
                assert(ranked@.map_values(g) == before.map_values(g).push(((k as int, j as int), rank)));
                assert(Seq::new((j + 1) as nat, |jj: int| (k as int, jj)).map_values(f) =~= Seq::new(
                    j as nat,
                    |jj: int| (k as int, jj),
                ).map_values(f).push(f((k as int, j as int))));
            }
            j = j + 1;
        }
        proof {
            assert(pairs(k + 1, locs@.len() as int) == pairs(k as int, locs@.len() as int) + Seq::new(
                locs@.len(),
                |jj: int| (k as int, jj),
            ));
            assert(pairs(k + 1, locs@.len() as int).map_values(f) =~= pairs(k as int, locs@.len() as int).map_values(
                f,
            ) + Seq::new(locs@.len(), |jj: int| (k as int, jj)).map_values(f));
        }
        k = k + 1;
    }
    assert(rp == pairs(proxies@.len() as int, locs@.len() as int).map_values(f));
    let sorted = sort_by_rank(&ranked);
    let ghost g = |e: ((usize, usize), u64)| ((e.0.0 as int, e.0.1 as int), e.1);
    let ghost sv = stable_sort(rp);
    proof {
        lemma_sort_map(ranked@);
        assert(sorted@.map_values(g) == sv);
        let np = proxies@.len();
        let nl = locs@.len();
        lemma_stable_sort_keeps(ranked@, |e: ((usize, usize), u64)| e.0.0 < np && e.0.1 < nl);
        assert forall|q: int| 0 <= q < sv.len() implies (#[trigger] sv[q]).0.0 < pv.len() && 0 <= sv[q].0.0
                && 0 <= sv[q].0.1 < locs@.len() by {
            assert(sv[q] == g(sorted@[q]));
        }
    }
    // taking the pairs in rank order
    let mut taken: Vec<String> = Vec::new();
    let mut assigned: Vec<(usize, usize, String)> = Vec::new();
    let mut matched: usize = 0;
    let ghost init: MatchState = (d0, Seq::empty(), 0, Seq::empty());
    let ghost av = |a: (usize, usize, String)| (a.0 as int, a.1 as int, a.2@);
    let ghost tv = |t: (int, int, int)| (t.0, t.1, pv[t.2].2);
    let mut m: usize = 0;
    while m < sorted.len()
        invariant
            m <= sorted.len(),
            matched <= m,
            pv == proxies_view(proxies@),
            sorted@.map_values(g) == sv,
            g == (|e: ((usize, usize), u64)| ((e.0.0 as int, e.0.1 as int), e.1)),
            av == (|a: (usize, usize, String)| (a.0 as int, a.1 as int, a.2@)),
            tv == (|t: (int, int, int)| (t.0, t.1, pv[t.2].2)),
            init == (d0, Seq::<Seq<char>>::empty(), 0nat, Seq::<(int, int, int)>::empty()),
            valid_locations(card_views(db@), locs@),
            forall|q: int| 0 <= q < sv.len() ==> (#[trigger] sv[q]).0.0 < pv.len() && 0 <= sv[q].0.0
                && 0 <= sv[q].0.1 < locs@.len(),
            ({
                let st = match_all(init, locs@, pv, sv.take(m as int));
                &&& st.0 == card_views(db@)
                &&& st.1 == views(taken@)
                &&& st.2 == matched as nat
                &&& st.3.map_values(tv) == assigned@.map_values(av)
            }),
        decreases sorted.len() - m,
    {
        let ((k, j), _rank) = sorted[m];
        assert(sv[m as int] == ((k as int, j as int), _rank));
        proof {
            assert(sv.take(m + 1).drop_last() == sv.take(m as int));
            assert(sv.take(m + 1).last() == sv[m as int]);
        }
        let path = &proxies[k].path;
        assert(pv[k as int].2 == path@);
        if !contains_string(&taken, path) {
            let (c, i) = locs[j];
            assert(card_views(db@)[c as int] == db@[c as int]@);
            let il = &db[c].illustrations[i];
            assert(card_views(db@)[c as int].illustrations[i as int] == il@);
            if il.img_path.english.is_none() || il.manage_id.english.is_some() {
                if il.manage_id.english.is_none() {
                    let p = proxy_image_path_of(il);
                    set_english_path(db, c, i, Some(p));
                    let ghost before = assigned@;
                    assigned.push((c, i, path.clone()));
                    assert(assigned@.map_values(av) == before.map_values(av).push((c as int, i as int, path@)));
                }
                let ghost tb = taken@;
                taken.push(path.clone());
                assert(views(taken@) == views(tb).push(path@));
                matched = matched + 1;
            }
        }
        m = m + 1;
    }
    assert(sv.take(m as int) == sv);
    let ghost fin = match_all(init, locs@, pv, sv);
    let ghost keep = |p: (Seq<char>, Seq<char>, Seq<char>)| !fin.1.contains(p.2);
    let mut remaining: Vec<ProxyFile> = Vec::new();
    let mut k: usize = 0;
    while k < proxies.len()
        invariant
            k <= proxies.len(),
            pv == proxies_view(proxies@),
            fin.1 == views(taken@),
            keep == (|p: (Seq<char>, Seq<char>, Seq<char>)| !fin.1.contains(p.2)),
            proxies_view(remaining@) == pv.take(k as int).filter(keep),
        decreases proxies.len() - k,
    {
        proof {
            assert(pv.take(k + 1) == pv.take(k as int).push(pv[k as int]));
            pv.take(k as int).lemma_filter_push(pv[k as int], keep);
        }
        if !contains_string(&taken, &proxies[k].path) {
            let ghost rb = remaining@;
            remaining.push(copy_proxy(&proxies[k]));
            assert(proxies_view(remaining@) == proxies_view(rb).push(pv[k as int]));
        }
        k = k + 1;
    }
    assert(pv.take(k as int) == pv);
    ProxyOutcome { assigned, remaining, matched, skipped: false }
}

/// Each match that set a path is of one of the locations and one of the proxies.
pub open spec fn sets_within(set: Seq<(int, int, int)>, locs: Seq<(usize, usize)>, np: int) -> bool {
    forall|m: int|
        0 <= m < set.len() ==> 0 <= (#[trigger] set[m]).2 < np && exists|j: int|
            0 <= j < locs.len() && locs[j].0 as int == set[m].0 && locs[j].1 as int == set[m].1
}

proof fn lemma_pairs_in_range(p: int, l: int)
    requires
        0 <= l,
    ensures
        forall|i: int| 0 <= i < pairs(p, l).len() ==> 0 <= (#[trigger] pairs(p, l)[i]).0 < p && 0 <= pairs(p, l)[i].1 < l,
    decreases p,
{
    if p > 0 {
        lemma_pairs_in_range(p - 1, l);
        let a = pairs(p - 1, l);
        let b = Seq::new(l as nat, |j: int| (p - 1, j));
        assert forall|i: int| 0 <= i < pairs(p, l).len() implies 0 <= (#[trigger] pairs(p, l)[i]).0 < p && 0 <= pairs(p, l)[i].1 < l by {
            if i < a.len() {
                assert(pairs(p, l)[i] == a[i]);
            } else {
                assert(pairs(p, l)[i] == b[i - a.len()]);
            }
        }
    }
}

proof fn lemma_match_all_within(
    st: MatchState,
    locs: Seq<(usize, usize)>,
    proxies: Seq<(Seq<char>, Seq<char>, Seq<char>)>,
    es: Seq<((int, int), u64)>,
)
    requires
        sets_within(st.3, locs, proxies.len() as int),
        forall|i: int| 0 <= i < es.len() ==> 0 <= (#[trigger] es[i]).0.0 < proxies.len() && 0 <= es[i].0.1 < locs.len(),
    ensures
        sets_within(match_all(st, locs, proxies, es).3, locs, proxies.len() as int),
    decreases es.len(),
{
    if es.len() > 0 {
        lemma_match_all_within(st, locs, proxies, es.drop_last());
        let st1 = match_all(st, locs, proxies, es.drop_last());
        let e = es.last();
        assert(es[es.len() - 1] == e);
        let (k, j) = e.0;
        let st2 = match_step(st1, locs, proxies, e);
        assert forall|m: int| 0 <= m < st2.3.len() implies 0 <= (#[trigger] st2.3[m]).2 < proxies.len() && exists|jj: int|
            0 <= jj < locs.len() && locs[jj].0 as int == st2.3[m].0 && locs[jj].1 as int == st2.3[m].1 by {
            if m < st1.3.len() {
                assert(st2.3[m] == st1.3[m]);
            } else {
                assert(locs[j].0 as int == st2.3[m].0 && locs[j].1 as int == st2.3[m].1);
            }
        }
    }
}

/// The matches that set a path are of the given printings and proxies.
proof fn lemma_proxy_outcome_within(
    db: Seq<CardView>,
    locs: Seq<(usize, usize)>,
    proxies: Seq<(Seq<char>, Seq<char>, Seq<char>)>,
    dists: Seq<Vec<u64>>,
)
    ensures
        sets_within(proxy_outcome(db, locs, proxies, dists).3, locs, proxies.len() as int),
{
    if locs.len() == 0 || proxies.len() == 0 {
    } else if proxies.len() == 1 && locs.len() == 1 {
        let set = proxy_outcome(db, locs, proxies, dists).3;
        assert forall|m: int| 0 <= m < set.len() implies 0 <= (#[trigger] set[m]).2 < proxies.len() && exists|j: int|
            0 <= j < locs.len() && locs[j].0 as int == set[m].0 && locs[j].1 as int == set[m].1 by {
            assert(locs[0].0 as int == set[m].0 && locs[0].1 as int == set[m].1);
        }
    } else {
        let rp = ranked_pairs(db, locs, proxies, dists);
        lemma_pairs_in_range(proxies.len() as int, locs.len() as int);
        let pred = |e: ((int, int), u64)| 0 <= e.0.0 < proxies.len() && 0 <= e.0.1 < locs.len();
        assert forall|i: int| 0 <= i < rp.len() implies pred(#[trigger] rp[i]) by {
            assert(rp[i].0 == pairs(proxies.len() as int, locs.len() as int)[i]);
        }
        lemma_stable_sort_keeps(rp, pred);
        let ss = stable_sort(rp);
        assert forall|i: int| 0 <= i < ss.len() implies 0 <= (#[trigger] ss[i]).0.0 < proxies.len() && 0 <= ss[i].0.1 < locs.len() by {
            assert(pred(ss[i]));
        }
        lemma_match_all_within((db, Seq::empty(), 0, Seq::empty()), locs, proxies, ss);
    }
}

/// Matches the proxies of card `number` with the printings of that number in
/// the database (as `illustration_locations` gives them). Every printing given
/// a proxy image is of that number, and its file is one of `proxies`.
pub fn match_proxy_group(db: &mut Vec<Card>, number: &String, proxies: &Vec<ProxyFile>, dists: &Vec<Vec<u64>>) -> (r: ProxyOutcome)
    requires
        forall|locs: Seq<(usize, usize)>|
            #![trigger is_location_list(card_views(old(db)@), number@, locs)]
            is_location_list(card_views(old(db)@), number@, locs) && choice_to_make(proxies@.len() as int, locs.len() as int)
                ==> distance_table(dists@, proxies@.len() as int, locs.len() as int),
    ensures
        exists|locs: Seq<(usize, usize)>|
            #![trigger is_location_list(card_views(old(db)@), number@, locs)]
            {
                &&& is_location_list(card_views(old(db)@), number@, locs)
                &&& ({
                    let (db2, taken, n, set) = proxy_outcome(card_views(old(db)@), locs, proxies_view(proxies@), dists@);
                    &&& card_views(final(db)@) == db2
                    &&& r.matched == n
                    &&& r.skipped == (locs.len() > 0 && proxies@.len() == 0)
                    &&& r.assigned@.map_values(|a: (usize, usize, String)| (a.0 as int, a.1 as int, a.2@)) == set.map_values(
                        |t: (int, int, int)| (t.0, t.1, proxies_view(proxies@)[t.2].2),
                    )
                    &&& proxies_view(r.remaining@) == proxies_view(proxies@).filter(
                        |p: (Seq<char>, Seq<char>, Seq<char>)| !taken.contains(p.2),
                    )
                })
            },
        forall|m: int|
            0 <= m < r.assigned@.len() ==> {
                let a = #[trigger] r.assigned@[m];
                &&& a.0 < old(db)@.len()
                &&& a.1 < old(db)@[a.0 as int].illustrations@.len()
                &&& old(db)@[a.0 as int].illustrations@[a.1 as int].card_number@ == number@
                &&& exists|k: int| 0 <= k < proxies@.len() && proxies@[k].path@ == a.2@
            },
{
    let ghost d0 = card_views(db@);
    let locs = illustration_locations(db, number);
    let r = match_proxies(db, &locs, proxies, dists);
    proof {
        let pv = proxies_view(proxies@);
        let out = proxy_outcome(d0, locs@, pv, dists@);
        lemma_proxy_outcome_within(d0, locs@, pv, dists@);
        let f = |a: (usize, usize, String)| (a.0 as int, a.1 as int, a.2@);
        let g = |t: (int, int, int)| (t.0, t.1, pv[t.2].2);
        assert forall|m: int| 0 <= m < r.assigned@.len() implies {
            let a = #[trigger] r.assigned@[m];
            &&& a.0 < old(db)@.len()
            &&& a.1 < old(db)@[a.0 as int].illustrations@.len()
            &&& old(db)@[a.0 as int].illustrations@[a.1 as int].card_number@ == number@
            &&& exists|k: int| 0 <= k < proxies@.len() && proxies@[k].path@ == a.2@
        } by {
            let a = r.assigned@[m];
            assert(r.assigned@.map_values(f).len() == r.assigned@.len());
            assert(out.3.map_values(g).len() == out.3.len());
            assert(m < out.3.len());
            assert(r.assigned@.map_values(f)[m] == out.3.map_values(g)[m]);
            assert(f(a) == g(out.3[m]));
            let t = out.3[m];
            assert(0 <= t.2 < pv.len());
            let j = choose|j: int| 0 <= j < locs@.len() && locs@[j].0 as int == t.0 && locs@[j].1 as int == t.1;
            assert(d0[a.0 as int] == old(db)@[a.0 as int]@);
            assert(pv[t.2] == proxy_view(proxies@[t.2]));
        }
    }
    r
}

/// Sorting keeps the entries: what holds of each entry holds of each sorted entry.
pub proof fn lemma_stable_sort_keeps<T>(s: Seq<(T, u64)>, pred: spec_fn((T, u64)) -> bool)
    requires
        forall|i: int| 0 <= i < s.len() ==> pred(#[trigger] s[i]),
    ensures
        forall|i: int| 0 <= i < stable_sort(s).len() ==> pred(#[trigger] stable_sort(s)[i]),
    decreases s.len(),
{
    if s.len() > 0 {
        lemma_stable_sort_keeps(s.drop_last(), pred);
        let r = stable_sort(s.drop_last());
        lemma_stable_sort_sorted(s.drop_last());
        lemma_insert_pos(r, s.last().1, 0);
        let p = insert_pos(r, s.last().1, 0);
        let t = r.insert(p, s.last());
        assert forall|i: int| 0 <= i < t.len() implies pred(#[trigger] t[i]) by {
            if i < p {
                assert(t[i] == r[i]);
            } else if i == p {
                assert(t[i] == s[s.len() - 1]);
            } else {
                assert(t[i] == r[i - 1]);
            }
        }
    }
}

/// Sorting keeps to the keys, so it commutes with renaming the entries.
proof fn lemma_sort_map(s: Seq<((usize, usize), u64)>)
    ensures
        stable_sort(s).map_values(|e: ((usize, usize), u64)| ((e.0.0 as int, e.0.1 as int), e.1))
            == stable_sort(s.map_values(|e: ((usize, usize), u64)| ((e.0.0 as int, e.0.1 as int), e.1))),
    decreases s.len(),
{
    let g = |e: ((usize, usize), u64)| ((e.0.0 as int, e.0.1 as int), e.1);
    if s.len() > 0 {
        lemma_sort_map(s.drop_last());
        let r = stable_sort(s.drop_last());
        let rg = r.map_values(g);
        assert(s.map_values(g).drop_last() == s.drop_last().map_values(g));
        lemma_insert_pos_map(r, s.last().1, 0);
        let p = insert_pos(r, s.last().1, 0);
        lemma_stable_sort_sorted(s.drop_last());
        lemma_insert_pos(r, s.last().1, 0);
        assert(r.insert(p, s.last()).map_values(g) =~= rg.insert(p, g(s.last())));
    }
}

proof fn lemma_insert_pos_map(r: Seq<((usize, usize), u64)>, k: u64, i: int)
    ensures
        insert_pos(r, k, i) == insert_pos(
            r.map_values(|e: ((usize, usize), u64)| ((e.0.0 as int, e.0.1 as int), e.1)),
            k,
            i,
        ),
    decreases r.len() - i,
{
    if 0 <= i < r.len() {
        lemma_insert_pos_map(r, k, i + 1);
    }
}

} // verus!
