//! The order in which cards are listed: by type, color, member, bloom level,
//! buzz, attached text and card number, with biases for a deck's oshi.
use vstd::prelude::*;
use crate::model::{flip, lemma_text_order_antisymmetric, lemma_text_order_chain, lemma_text_order_reflexive, order_chain, BloomLevel, Card, CardType, Color, Localized, Order, SupportType, bloom_rank, card_names, card_type_rank, card_type_rank_of, color_rank, color_rank_of, compare_int, compare_u64, compare_text, text_order, views};
use crate::text::{chars_of, chars_of_string, contains, contains_chars, join, join_chars, lowercase, push_all, to_lowercase};

verus! {

/// A criterion by which cards are ordered.
#[derive(Debug, Clone, Copy, PartialEq, Eq, Structural)]
pub enum CardOrderingField {
    CardType,
    Colors,
    Member,
    BloomLevel,
    Buzz,
    AttachText,
    CardNumber,
}

/// How cards are ordered: the criteria in turn, and the oshi, colors and
/// tags that a deck puts first.
#[derive(Debug)]
pub struct CardOrderingOptions {
    pub ordering_fields: Vec<CardOrderingField>,
    pub oshi_bias: Option<Card>,
    pub color_bias: Vec<Color>,
    pub tag_bias: Vec<String>,
}

/// A card seen through ordering options, to be compared with another card
/// seen through the same options.
pub struct CardOrderingHelper<'c, 'o> {
    pub card: &'c Card,
    pub options: &'o CardOrderingOptions,
}

/// The talents in the order of the official website, each in Japanese and in English.
pub open spec fn official_holomem_names() -> Seq<Seq<char>> {
    seq![
        "ときのそら"@,
        "Tokino Sora"@,
        "ロボ子さん"@,
        "Robocosan"@,
        "AZKi"@,
        "AZKi"@,
        "さくらみこ"@,
        "Sakura Miko"@,
        "星街すいせい"@,
        "Hoshimachi Suisei"@,
        "アキ・ローゼンタール"@,
        "Aki Rosenthal"@,
        "赤井はあと"@,
        "Akai Haato"@,
        "白上フブキ"@,
        "Shirakami Fubuki"@,
        "夏色まつり"@,
        "Natsuiro Matsuri"@,
        "紫咲シオン"@,
        "Murasaki Shion"@,
        "百鬼あやめ"@,
        "Nakiri Ayame"@,
        "癒月ちょこ"@,
        "Yuzuki Choco"@,
        "大空スバル"@,
        "Oozora Subaru"@,
        "湊あくあ"@,
        "Minato Aqua"@,
        "大神ミオ"@,
        "Ookami Mio"@,
        "猫又おかゆ"@,
        "Nekomata Okayu"@,
        "戌神ころね"@,
        "Inugami Korone"@,
        "兎田ぺこら"@,
        "Usada Pekora"@,
        "不知火フレア"@,
        "Shiranui Flare"@,
        "白銀ノエル"@,
        "Shirogane Noel"@,
        "宝鐘マリン"@,
        "Houshou Marine"@,
        "天音かなた"@,
        "Amane Kanata"@,
        "角巻わため"@,
        "Tsunomaki Watame"@,
        "常闇トワ"@,
        "Tokoyami Towa"@,
        "姫森ルーナ"@,
        "Himemori Luna"@,
        "桐生ココ"@,
        "Kiryu Coco"@,
        "雪花ラミィ"@,
        "Yukihana Lamy"@,
        "桃鈴ねね"@,
        "Momosuzu Nene"@,
        "獅白ぼたん"@,
        "Shishiro Botan"@,
        "尾丸ポルカ"@,
        "Omaru Polka"@,
        "ラプラス・ダークネス"@,
        "La+ Darknesss"@,
        "鷹嶺ルイ"@,
        "Takane Lui"@,
        "博衣こより"@,
        "Hakui Koyori"@,
        "沙花叉クロヱ"@,
        "Sakamata Chloe"@,
        "風真いろは"@,
        "Kazama Iroha"@,
        "アユンダ・リス"@,
        "Ayunda Risu"@,
        "ムーナ・ホシノヴァ"@,
        "Moona Hoshinova"@,
        "アイラニ・イオフィフティーン"@,
        "Airani Iofifteen"@,
        "クレイジー・オリー"@,
        "Kureiji Ollie"@,
        "アーニャ・メルフィッサ"@,
        "Anya Melfissa"@,
        "パヴォリア・レイネ"@,
        "Pavolia Reine"@,
        "ベスティア・ゼータ"@,
        "Vestia Zeta"@,
        "カエラ・コヴァルスキア"@,
        "Kaela Kovalskia"@,
        "こぼ・かなえる"@,
        "Kobo Kanaeru"@,
        "森カリオペ"@,
        "Mori Calliope"@,
        "小鳥遊キアラ"@,
        "Takanashi Kiara"@,
        "一伊那尓栖"@,
        "Ninomae Ina'nis"@,
        "がうる・ぐら"@,
        "Gawr Gura"@,
        "ワトソン・アメリア"@,
        "Watson Amelia"@,
        "IRyS"@,
        "IRyS"@,
        "オーロ・クロニー"@,
        "Ouro Kronii"@,
        "七詩ムメイ"@,
        "Nanashi Mumei"@,
        "ハコス・ベールズ"@,
        "Hakos Baelz"@,
        "九十九佐命"@,
        "Tsukumo Sana"@,
        "セレス・ファウナ"@,
        "Ceres Fauna"@,
        "シオリ・ノヴェラ"@,
        "Shiori Novella"@,
        "古石ビジュー"@,
        "Koseki Bijou"@,
        "ネリッサ・レイヴンクロフト"@,
        "Nerissa Ravencroft"@,
        "フワワ・アビスガード"@,
        "Fuwawa Abyssgard"@,
        "モココ・アビスガード"@,
        "Mococo Abyssgard"@,
        "エリザベス・ローズ・ブラッドフレイム"@,
        "Elizabeth Rose Bloodflame"@,
        "ジジ・ムリン"@,
        "Gigi Murin"@,
        "セシリア・イマーグリーン"@,
        "Cecilia Immergreen"@,
        "ラオーラ・パンテーラ"@,
        "Raora Panthera"@,
        "火威青"@,
        "Hiodoshi Ao"@,
        "音乃瀬奏"@,
        "Otonose Kanade"@,
        "一条莉々華"@,
        "Ichijou Ririka"@,
        "儒烏風亭らでん"@,
        "Juufuutei Raden"@,
        "轟はじめ"@,
        "Todoroki Hajime"@,
        "響咲リオナ"@,
        "Isaki Riona"@,
        "虎金妃笑虎"@,
        "Koganei Niko"@,
        "水宮枢"@,
        "Mizumiya Su"@,
        "輪堂千速"@,
        "Rindo Chihaya"@,
        "綺々羅々ヴィヴィ"@,
        "Kikirara Vivi"@,
        "春先のどか"@,
        "Harusaki Nodoka"@,
        "友人A（えーちゃん）"@,
        "Friend A (A-chan)"@
    ]
}

fn official_holomem_names_exec() -> (r: Vec<&'static str>)
    ensures
        r@.map_values(|s: &str| s@) == official_holomem_names(),
{
    let r: Vec<&'static str> = vec![
        "ときのそら",
        "Tokino Sora",
        "ロボ子さん",
        "Robocosan",
        "AZKi",
        "AZKi",
        "さくらみこ",
        "Sakura Miko",
        "星街すいせい",
        "Hoshimachi Suisei",
        "アキ・ローゼンタール",
        "Aki Rosenthal",
        "赤井はあと",
        "Akai Haato",
        "白上フブキ",
        "Shirakami Fubuki",
        "夏色まつり",
        "Natsuiro Matsuri",
        "紫咲シオン",
        "Murasaki Shion",
        "百鬼あやめ",
        "Nakiri Ayame",
        "癒月ちょこ",
        "Yuzuki Choco",
        "大空スバル",
        "Oozora Subaru",
        "湊あくあ",
        "Minato Aqua",
        "大神ミオ",
        "Ookami Mio",
        "猫又おかゆ",
        "Nekomata Okayu",
        "戌神ころね",
        "Inugami Korone",
        "兎田ぺこら",
        "Usada Pekora",
        "不知火フレア",
        "Shiranui Flare",
        "白銀ノエル",
        "Shirogane Noel",
        "宝鐘マリン",
        "Houshou Marine",
        "天音かなた",
        "Amane Kanata",
        "角巻わため",
        "Tsunomaki Watame",
        "常闇トワ",
        "Tokoyami Towa",
        "姫森ルーナ",
        "Himemori Luna",
        "桐生ココ",
        "Kiryu Coco",
        "雪花ラミィ",
        "Yukihana Lamy",
        "桃鈴ねね",
        "Momosuzu Nene",
        "獅白ぼたん",
        "Shishiro Botan",
        "尾丸ポルカ",
        "Omaru Polka",
        "ラプラス・ダークネス",
        "La+ Darknesss",
        "鷹嶺ルイ",
        "Takane Lui",
        "博衣こより",
        "Hakui Koyori",
        "沙花叉クロヱ",
        "Sakamata Chloe",
        "風真いろは",
        "Kazama Iroha",
        "アユンダ・リス",
        "Ayunda Risu",
        "ムーナ・ホシノヴァ",
        "Moona Hoshinova",
        "アイラニ・イオフィフティーン",
        "Airani Iofifteen",
        "クレイジー・オリー",
        "Kureiji Ollie",
        "アーニャ・メルフィッサ",
        "Anya Melfissa",
        "パヴォリア・レイネ",
        "Pavolia Reine",
        "ベスティア・ゼータ",
        "Vestia Zeta",
        "カエラ・コヴァルスキア",
        "Kaela Kovalskia",
        "こぼ・かなえる",
        "Kobo Kanaeru",
        "森カリオペ",
        "Mori Calliope",
        "小鳥遊キアラ",
        "Takanashi Kiara",
        "一伊那尓栖",
        "Ninomae Ina'nis",
        "がうる・ぐら",
        "Gawr Gura",
        "ワトソン・アメリア",
        "Watson Amelia",
        "IRyS",
        "IRyS",
        "オーロ・クロニー",
        "Ouro Kronii",
        "七詩ムメイ",
        "Nanashi Mumei",
        "ハコス・ベールズ",
        "Hakos Baelz",
        "九十九佐命",
        "Tsukumo Sana",
        "セレス・ファウナ",
        "Ceres Fauna",
        "シオリ・ノヴェラ",
        "Shiori Novella",
        "古石ビジュー",
        "Koseki Bijou",
        "ネリッサ・レイヴンクロフト",
        "Nerissa Ravencroft",
        "フワワ・アビスガード",
        "Fuwawa Abyssgard",
        "モココ・アビスガード",
        "Mococo Abyssgard",
        "エリザベス・ローズ・ブラッドフレイム",
        "Elizabeth Rose Bloodflame",
        "ジジ・ムリン",
        "Gigi Murin",
        "セシリア・イマーグリーン",
        "Cecilia Immergreen",
        "ラオーラ・パンテーラ",
        "Raora Panthera",
        "火威青",
        "Hiodoshi Ao",
        "音乃瀬奏",
        "Otonose Kanade",
        "一条莉々華",
        "Ichijou Ririka",
        "儒烏風亭らでん",
        "Juufuutei Raden",
        "轟はじめ",
        "Todoroki Hajime",
        "響咲リオナ",
        "Isaki Riona",
        "虎金妃笑虎",
        "Koganei Niko",
        "水宮枢",
        "Mizumiya Su",
        "輪堂千速",
        "Rindo Chihaya",
        "綺々羅々ヴィヴィ",
        "Kikirara Vivi",
        "春先のどか",
        "Harusaki Nodoka",
        "友人A（えーちゃん）",
        "Friend A (A-chan)"
    ];
    assert(r@.map_values(|s: &str| s@) =~= official_holomem_names());
    r
}


/// The position in `names` from `i` on of the first name whose lowercase
/// form occurs in `t`, or `usize::MAX` when there is none.
pub open spec fn holomem_position(t: Seq<char>, names: Seq<Seq<char>>, i: int) -> int
    decreases names.len() - i,
{
    if i < 0 || i >= names.len() {
        usize::MAX as int
    } else if contains(t, lowercase(names[i])) {
        i
    } else {
        holomem_position(t, names, i + 1)
    }
}

/// The names searched for, the oshi's own names first.
pub open spec fn candidate_names(o: CardOrderingOptions) -> Seq<Seq<char>> {
    match o.oshi_bias {
        Some(c) => card_names(c) + official_holomem_names(),
        None => official_holomem_names(),
    }
}

/// The rank of a text by the first holomem it names.
pub open spec fn holomem_rank(o: CardOrderingOptions, text: Seq<char>) -> int {
    holomem_position(lowercase(text), candidate_names(o), 0)
}

pub open spec fn bool_rank(b: bool) -> int {
    if b {
        1
    } else {
        0
    }
}

/// The card has no color, or its first color is colorless.
pub open spec fn colorless_first(card: Card) -> bool {
    card.colors@.len() == 0 || card.colors@[0] == Color::Colorless
}

/// Cards by type, colorless cards last within a type.
pub open spec fn card_type_order(a: Card, b: Card) -> Order {
    if card_type_rank(a.card_type) != card_type_rank(b.card_type) {
        compare_int(card_type_rank(a.card_type), card_type_rank(b.card_type))
    } else {
        compare_int(bool_rank(colorless_first(a)), bool_rank(colorless_first(b)))
    }
}

/// Some color of `xs` is among `ys`.
pub open spec fn shares_color(xs: Seq<Color>, ys: Seq<Color>) -> bool {
    exists|i: int| 0 <= i < xs.len() && ys.contains(#[trigger] xs[i])
}

/// Lexicographic order of color lists.
pub open spec fn color_seq_order(a: Seq<Color>, b: Seq<Color>) -> Order
    decreases a.len(),
{
    if a.len() == 0 {
        if b.len() == 0 {
            Order::Equal
        } else {
            Order::Less
        }
    } else if b.len() == 0 {
        Order::Greater
    } else if color_rank(a[0]) != color_rank(b[0]) {
        compare_int(color_rank(a[0]), color_rank(b[0]))
    } else {
        color_seq_order(a.drop_first(), b.drop_first())
    }
}

/// Cards sharing a color with the oshi first, then cards sharing a color with
/// the deck's colors, then by their colors.
pub open spec fn color_order(o: CardOrderingOptions, a: Card, b: Card) -> Order {
    let oshi = match o.oshi_bias {
        Some(oc) => compare_int(
            bool_rank(shares_color(oc.colors@, b.colors@)),
            bool_rank(shares_color(oc.colors@, a.colors@)),
        ),
        None => Order::Equal,
    };
    if oshi != Order::Equal {
        oshi
    } else {
        let bias = compare_int(
            bool_rank(shares_color(o.color_bias@, b.colors@)),
            bool_rank(shares_color(o.color_bias@, a.colors@)),
        );
        if bias != Order::Equal {
            bias
        } else {
            color_seq_order(a.colors@, b.colors@)
        }
    }
}

/// One of the tag's texts is one of the biased tags.
pub open spec fn is_biased_tag(bias: Seq<Seq<char>>, t: Localized<String>) -> bool {
    exists|j: int|
        0 <= j < bias.len() && ((t.japanese matches Some(s) && s@ == #[trigger] bias[j]) || (
        t.english matches Some(s) && s@ == bias[j]))
}

/// The number of tags that are biased.
pub open spec fn biased_tag_count(bias: Seq<Seq<char>>, tags: Seq<Localized<String>>) -> int
    decreases tags.len(),
{
    if tags.len() == 0 {
        0
    } else {
        biased_tag_count(bias, tags.drop_last()) + bool_rank(is_biased_tag(bias, tags.last()))
    }
}

/// The rank of a member by the first holomem its names name.
pub open spec fn member_rank(o: CardOrderingOptions, c: Card) -> int {
    holomem_rank(o, join(card_names(c), ","@))
}

/// Members with more biased tags first, then by the official order.
pub open spec fn member_order(o: CardOrderingOptions, a: Card, b: Card) -> Order {
    let ta = biased_tag_count(views(o.tag_bias@), a.tags@);
    let tb = biased_tag_count(views(o.tag_bias@), b.tags@);
    if ta != tb {
        compare_int(tb, ta)
    } else {
        compare_int(member_rank(o, a), member_rank(o, b))
    }
}

pub open spec fn opt_chars(s: Option<String>) -> Seq<char> {
    match s {
        Some(t) => t@,
        None => Seq::empty(),
    }
}

/// The Japanese then the English text.
pub open spec fn localized_chars(l: Localized<String>) -> Seq<char> {
    opt_chars(l.japanese) + opt_chars(l.english)
}

pub open spec fn skills_chars(s: Seq<crate::model::OshiSkill>) -> Seq<char>
    decreases s.len(),
{
    if s.len() == 0 {
        Seq::empty()
    } else {
        skills_chars(s.drop_last()) + localized_chars(s.last().ability_text)
    }
}

pub open spec fn keywords_chars(s: Seq<crate::model::Keyword>) -> Seq<char>
    decreases s.len(),
{
    if s.len() == 0 {
        Seq::empty()
    } else {
        keywords_chars(s.drop_last()) + localized_chars(s.last().ability_text)
    }
}

pub open spec fn arts_chars(s: Seq<crate::model::Art>) -> Seq<char>
    decreases s.len(),
{
    if s.len() == 0 {
        Seq::empty()
    } else {
        arts_chars(s.drop_last()) + match s.last().ability_text {
            Some(t) => localized_chars(t),
            None => Seq::empty(),
        }
    }
}

/// All the ability texts of a card, run together.
pub open spec fn attach_chars(c: Card) -> Seq<char> {
    skills_chars(c.oshi_skills@) + keywords_chars(c.keywords@) + arts_chars(c.arts@) + localized_chars(
        c.ability_text,
    )
}

pub open spec fn is_member_type(t: CardType) -> bool {
    t == CardType::OshiHoloMember || t == CardType::HoloMember
}

pub open spec fn is_attach_type(t: CardType) -> bool {
    t == CardType::Support(SupportType::Tool) || t == CardType::Support(SupportType::Mascot) || t
        == CardType::Support(SupportType::Fan)
}

/// Optional bloom levels: none first, then by level.
pub open spec fn bloom_order(a: Option<BloomLevel>, b: Option<BloomLevel>) -> Order {
    match (a, b) {
        (Some(x), Some(y)) => compare_int(bloom_rank(x), bloom_rank(y)),
        (None, Some(_)) => Order::Less,
        (Some(_), None) => Order::Greater,
        (None, None) => Order::Equal,
    }
}

/// The order of two cards by one criterion; the criteria for members, bloom
/// level, buzz and attached text apply when the first card is of the kind
/// they are for.
#[verifier::opaque]
pub open spec fn field_order(o: CardOrderingOptions, f: CardOrderingField, a: Card, b: Card) -> Order {
    match f {
        CardOrderingField::CardType => card_type_order(a, b),
        CardOrderingField::Colors => color_order(o, a, b),
        CardOrderingField::Member => if is_member_type(a.card_type) {
            member_order(o, a, b)
        } else {
            Order::Equal
        },
        CardOrderingField::BloomLevel => if a.card_type == CardType::HoloMember {
            bloom_order(a.bloom_level, b.bloom_level)
        } else {
            Order::Equal
        },
        CardOrderingField::Buzz => if a.card_type == CardType::HoloMember {
            compare_int(bool_rank(a.buzz), bool_rank(b.buzz))
        } else {
            Order::Equal
        },
        CardOrderingField::AttachText => if is_attach_type(a.card_type) {
            compare_int(holomem_rank(o, attach_chars(a)), holomem_rank(o, attach_chars(b)))
        } else {
            Order::Equal
        },
        CardOrderingField::CardNumber => text_order(a.card_number@, b.card_number@),
    }
}

/// The order of two cards by the criteria in turn: the first that tells
/// them apart decides.
pub open spec fn fields_order(o: CardOrderingOptions, fs: Seq<CardOrderingField>, a: Card, b: Card) -> Order
    decreases fs.len(),
{
    if fs.len() == 0 {
        Order::Equal
    } else {
        let c = field_order(o, fs[0], a, b);
        if c != Order::Equal {
            c
        } else {
            fields_order(o, fs.drop_first(), a, b)
        }
    }
}

/// The order of two cards under the options.
pub open spec fn card_order(o: CardOrderingOptions, a: Card, b: Card) -> Order {
    fields_order(o, o.ordering_fields@, a, b)
}

/// The default criteria.
pub open spec fn default_fields() -> Seq<CardOrderingField> {
    seq![
        CardOrderingField::CardType,
        CardOrderingField::Colors,
        CardOrderingField::Member,
        CardOrderingField::BloomLevel,
        CardOrderingField::Buzz,
        CardOrderingField::AttachText,
        CardOrderingField::CardNumber,
    ]
}

/// The criteria that put members before colors.
pub open spec fn member_first_fields() -> Seq<CardOrderingField> {
    seq![
        CardOrderingField::CardType,
        CardOrderingField::Member,
        CardOrderingField::BloomLevel,
        CardOrderingField::Buzz,
        CardOrderingField::Colors,
        CardOrderingField::AttachText,
        CardOrderingField::CardNumber,
    ]
}

fn member_first_fields_exec() -> (r: Vec<CardOrderingField>)
    ensures
        r@ == member_first_fields(),
{
    let r = vec![
        CardOrderingField::CardType,
        CardOrderingField::Member,
        CardOrderingField::BloomLevel,
        CardOrderingField::Buzz,
        CardOrderingField::Colors,
        CardOrderingField::AttachText,
        CardOrderingField::CardNumber,
    ];
    assert(r@ == member_first_fields());
    r
}

impl Default for CardOrderingOptions {
    fn default() -> (r: Self)
        ensures
            r.ordering_fields@ == default_fields(),
            r.oshi_bias.is_none(),
            r.color_bias@.len() == 0,
            r.tag_bias@.len() == 0,
    {
        let fields = vec![
            CardOrderingField::CardType,
            CardOrderingField::Colors,
            CardOrderingField::Member,
            CardOrderingField::BloomLevel,
            CardOrderingField::Buzz,
            CardOrderingField::AttachText,
            CardOrderingField::CardNumber,
        ];
        assert(fields@ == default_fields());
        CardOrderingOptions {
            ordering_fields: fields,
            oshi_bias: None,
            color_bias: Vec::new(),
            tag_bias: Vec::new(),
        }
    }
}

fn any_shared_color(xs: &Vec<Color>, ys: &Vec<Color>) -> (r: bool)
    ensures
        r == shares_color(xs@, ys@),
{
    let mut i: usize = 0;
    while i < xs.len()
        invariant
            i <= xs.len(),
            forall|k: int| 0 <= k < i ==> !ys@.contains(#[trigger] xs@[k]),
        decreases xs.len() - i,
    {
        let mut j: usize = 0;
        while j < ys.len()
            invariant
                i < xs.len(),
                j <= ys.len(),
                forall|k: int| 0 <= k < j ==> ys@[k] != xs@[i as int],
            decreases ys.len() - j,
        {
            if ys[j] == xs[i] {
                assert(ys@.contains(xs@[i as int]));
                return true;
            }
            j = j + 1;
        }
        i = i + 1;
    }
    false
}

fn compare_colors(a: &Vec<Color>, b: &Vec<Color>) -> (r: Order)
    ensures
        r == color_seq_order(a@, b@),
{
    let mut i: usize = 0;
    assert(a@.skip(0) == a@);
    assert(b@.skip(0) == b@);
    while i < a.len() && i < b.len() && color_rank_of(a[i]) == color_rank_of(b[i])
        invariant
            i <= a.len(),
            i <= b.len(),
            color_seq_order(a@, b@) == color_seq_order(a@.skip(i as int), b@.skip(i as int)),
        decreases a.len() - i,
    {
        assert(a@.skip(i as int).drop_first() == a@.skip(i + 1));
        assert(b@.skip(i as int).drop_first() == b@.skip(i + 1));
        i = i + 1;
    }
    let ghost sa = a@.skip(i as int);
    let ghost sb = b@.skip(i as int);
    if i == a.len() {
        assert(sa.len() == 0);
        if i == b.len() {
            assert(sb.len() == 0);
            Order::Equal
        } else {
            Order::Less
        }
    } else if i == b.len() {
        assert(sb.len() == 0);
        Order::Greater
    } else {
        assert(sa[0] == a@[i as int] && sb[0] == b@[i as int]);
        compare_u64(color_rank_of(a[i]), color_rank_of(b[i]))
    }
}

fn bool_rank_of(b: bool) -> (r: u64)
    ensures
        r == bool_rank(b),
{
    if b {
        1
    } else {
        0
    }
}

fn is_biased_tag_exec(bias: &Vec<String>, t: &Localized<String>) -> (r: bool)
    ensures
        r == is_biased_tag(views(bias@), *t),
{
    let mut j: usize = 0;
    while j < bias.len()
        invariant
            j <= bias.len(),
            forall|k: int|
                0 <= k < j ==> !((t.japanese matches Some(s) && s@ == #[trigger] views(bias@)[k]) || (
                t.english matches Some(s) && s@ == views(bias@)[k])),
        decreases bias.len() - j,
    {
        let b = &bias[j];
        let hit_jp = match &t.japanese {
            Some(s) => *s == *b,
            None => false,
        };
        let hit_en = match &t.english {
            Some(s) => *s == *b,
            None => false,
        };
        assert(views(bias@)[j as int] == b@);
        if hit_jp || hit_en {
            return true;
        }
        j = j + 1;
    }
    false
}

fn biased_tag_count_exec(bias: &Vec<String>, tags: &Vec<Localized<String>>) -> (r: u64)
    ensures
        r == biased_tag_count(views(bias@), tags@),
{
    let mut n: u64 = 0;
    let mut i: usize = 0;
    while i < tags.len()
        invariant
            i <= tags.len(),
            tags@.len() <= usize::MAX,
            n == biased_tag_count(views(bias@), tags@.take(i as int)),
            n <= i,
        decreases tags.len() - i,
    {
        assert(tags@.take(i + 1).drop_last() == tags@.take(i as int));
        if is_biased_tag_exec(bias, &tags[i]) {
            n = n + 1;
        }
        i = i + 1;
    }
    assert(tags@.take(i as int) == tags@);
    n
}

fn opt_chars_exec(s: &Option<String>) -> (r: Vec<char>)
    ensures
        r@ == opt_chars(*s),
{
    match s {
        Some(t) => chars_of_string(t),
        None => Vec::new(),
    }
}

fn push_localized(out: &mut Vec<char>, l: &Localized<String>)
    ensures
        final(out)@ == old(out)@ + localized_chars(*l),
{
    push_all(out, &opt_chars_exec(&l.japanese));
    push_all(out, &opt_chars_exec(&l.english));
}

/// All the ability texts of a card, run together.
fn attach_text(c: &Card) -> (r: Vec<char>)
    ensures
        r@ == attach_chars(*c),
{
    let mut out: Vec<char> = Vec::new();
    let mut i: usize = 0;
    while i < c.oshi_skills.len()
        invariant
            i <= c.oshi_skills.len(),
            out@ == skills_chars(c.oshi_skills@.take(i as int)),
        decreases c.oshi_skills.len() - i,
    {
        assert(c.oshi_skills@.take(i + 1).drop_last() == c.oshi_skills@.take(i as int));
        push_localized(&mut out, &c.oshi_skills[i].ability_text);
        i = i + 1;
    }
    assert(c.oshi_skills@.take(i as int) == c.oshi_skills@);
    let ghost a = out@;
    let mut k: Vec<char> = Vec::new();
    let mut i: usize = 0;
    while i < c.keywords.len()
        invariant
            i <= c.keywords.len(),
            k@ == keywords_chars(c.keywords@.take(i as int)),
        decreases c.keywords.len() - i,
    {
        assert(c.keywords@.take(i + 1).drop_last() == c.keywords@.take(i as int));
        push_localized(&mut k, &c.keywords[i].ability_text);
        i = i + 1;
    }
    assert(c.keywords@.take(i as int) == c.keywords@);
    let mut t: Vec<char> = Vec::new();
    let mut i: usize = 0;
    while i < c.arts.len()
        invariant
            i <= c.arts.len(),
            t@ == arts_chars(c.arts@.take(i as int)),
        decreases c.arts.len() - i,
    {
        assert(c.arts@.take(i + 1).drop_last() == c.arts@.take(i as int));
        match &c.arts[i].ability_text {
            Some(l) => push_localized(&mut t, l),
            None => {
                assert(t@ == t@ + Seq::<char>::empty());
            },
        }
        i = i + 1;
    }
    assert(c.arts@.take(i as int) == c.arts@);
    push_all(&mut out, &k);
    push_all(&mut out, &t);
    push_localized(&mut out, &c.ability_text);
    out
}

fn names_chars(ns: &Vec<String>) -> (r: Vec<Vec<char>>)
    ensures
        r@.map_values(|p: Vec<char>| p@) == views(ns@),
{
    let mut out: Vec<Vec<char>> = Vec::new();
    let mut i: usize = 0;
    while i < ns.len()
        invariant
            i <= ns.len(),
            out@.map_values(|p: Vec<char>| p@) == views(ns@).take(i as int),
        decreases ns.len() - i,
    {
        let ghost before = out@;
        out.push(chars_of_string(&ns[i]));
        proof {
            assert(out@.map_values(|p: Vec<char>| p@) == before.map_values(|p: Vec<char>| p@).push(
                ns@[i as int]@,
            ));
            assert(views(ns@).take(i + 1) == views(ns@).take(i as int).push(ns@[i as int]@));
        }
        i = i + 1;
    }
    assert(views(ns@).take(i as int) == views(ns@));
    out
}

impl CardOrderingOptions {
    /// Members before colors.
    pub fn member_first() -> (r: CardOrderingOptions)
        ensures
            r.ordering_fields@ == member_first_fields(),
            r.oshi_bias.is_none(),
            r.color_bias@.len() == 0,
            r.tag_bias@.len() == 0,
    {
        CardOrderingOptions {
            ordering_fields: member_first_fields_exec(),
            oshi_bias: None,
            color_bias: Vec::new(),
            tag_bias: Vec::new(),
        }
    }

    /// The order of a deck: members first, with the deck's oshi, colors and
    /// tags put ahead.
    pub fn deck_sort(oshi_bias: Option<Card>, color_bias: Vec<Color>, tag_bias: Vec<String>) -> (r:
        CardOrderingOptions)
        ensures
            r.ordering_fields@ == member_first_fields(),
            r.oshi_bias == oshi_bias,
            r.color_bias == color_bias,
            r.tag_bias == tag_bias,
    {
        CardOrderingOptions {
            ordering_fields: member_first_fields_exec(),
            oshi_bias,
            color_bias,
            tag_bias,
        }
    }

    /// `card` seen through these options.
    pub fn for_card<'o, 'c>(&'o self, card: &'c Card) -> (r: CardOrderingHelper<'c, 'o>)
        ensures
            *r.card == *card,
            *r.options == *self,
    {
        CardOrderingHelper { card, options: self }
    }

    /// The names searched for, the oshi's own names first.
    fn candidates(&self) -> (r: Vec<Vec<char>>)
        ensures
            r@.map_values(|p: Vec<char>| p@) == candidate_names(*self),
    {
        let mut out: Vec<Vec<char>> = match &self.oshi_bias {
            Some(c) => names_chars(&c.names()),
            None => Vec::new(),
        };
        let ghost first = out@.map_values(|p: Vec<char>| p@);
        let official = official_holomem_names_exec();
        let mut i: usize = 0;
        while i < official.len()
            invariant
                i <= official.len(),
                official@.map_values(|s: &str| s@) == official_holomem_names(),
                out@.map_values(|p: Vec<char>| p@) == first + official_holomem_names().take(i as int),
            decreases official.len() - i,
        {
            let ghost before = out@;
            out.push(chars_of(official[i]));
            proof {
                assert(out@.map_values(|p: Vec<char>| p@) == before.map_values(|p: Vec<char>| p@).push(
                    official@[i as int]@,
                ));
                assert(official_holomem_names().take(i + 1) == official_holomem_names().take(
                    i as int,
                ).push(official@[i as int]@));
            }
            i = i + 1;
        }
        assert(official_holomem_names().take(i as int) == official_holomem_names());
        proof {
            if self.oshi_bias.is_none() {
                assert(first == Seq::<Seq<char>>::empty());
                assert(first + official_holomem_names() == official_holomem_names());
            }
        }
        out
    }

    /// The position of the first holomem named in `text`, the oshi's names
    /// searched first, or `usize::MAX`.
    fn holomem_order(&self, text: &Vec<char>) -> (r: usize)
        ensures
            r == holomem_rank(*self, text@),
    {
        let lower = to_lowercase(text);
        let cands = self.candidates();
        let ghost names = cands@.map_values(|p: Vec<char>| p@);
        let mut i: usize = 0;
        while i < cands.len()
            invariant
                i <= cands.len(),
                names == cands@.map_values(|p: Vec<char>| p@),
                names == candidate_names(*self),
                lower@ == lowercase(text@),
                holomem_position(lower@, names, 0) == holomem_position(lower@, names, i as int),
            decreases cands.len() - i,
        {
            assert(names[i as int] == cands@[i as int]@);
            if contains_chars(&lower, &to_lowercase(&cands[i])) {
                assert(holomem_position(lower@, names, i as int) == i);
                return i;
            }
            i = i + 1;
        }
        usize::MAX
    }

    fn member_rank_of(&self, c: &Card) -> (r: usize)
        ensures
            r == member_rank(*self, *c),
    {
        let ns = names_chars(&c.names());
        let sep = chars_of(",");
        let joined = join_chars(&ns, &sep);
        self.holomem_order(&joined)
    }

    fn colorless_first_exec(&self, c: &Card) -> (r: bool)
        ensures
            r == colorless_first(*c),
    {
        c.colors.len() == 0 || c.colors[0] == Color::Colorless
    }

    fn field_compare(&self, f: CardOrderingField, a: &Card, b: &Card) -> (r: Order)
        ensures
            r == field_order(*self, f, *a, *b),
    {
        reveal(field_order);
        match f {
            CardOrderingField::CardType => {
                let ra = card_type_rank_of(a.card_type);
                let rb = card_type_rank_of(b.card_type);
                if ra != rb {
                    compare_u64(ra, rb)
                } else {
                    compare_u64(
                        bool_rank_of(self.colorless_first_exec(a)),
                        bool_rank_of(self.colorless_first_exec(b)),
                    )
                }
            },
            CardOrderingField::Colors => {
                let oshi = match &self.oshi_bias {
                    Some(oc) => compare_u64(
                        bool_rank_of(any_shared_color(&oc.colors, &b.colors)),
                        bool_rank_of(any_shared_color(&oc.colors, &a.colors)),
                    ),
                    None => Order::Equal,
                };
                if oshi != Order::Equal {
                    oshi
                } else {
                    let bias = compare_u64(
                        bool_rank_of(any_shared_color(&self.color_bias, &b.colors)),
                        bool_rank_of(any_shared_color(&self.color_bias, &a.colors)),
                    );
                    if bias != Order::Equal {
                        bias
                    } else {
                        compare_colors(&a.colors, &b.colors)
                    }
                }
            },
            CardOrderingField::Member => {
                if a.card_type == CardType::OshiHoloMember || a.card_type == CardType::HoloMember {
                    let ta = biased_tag_count_exec(&self.tag_bias, &a.tags);
                    let tb = biased_tag_count_exec(&self.tag_bias, &b.tags);
                    if ta != tb {
                        compare_u64(tb, ta)
                    } else {
                        compare_u64(self.member_rank_of(a) as u64, self.member_rank_of(b) as u64)
                    }
                } else {
                    Order::Equal
                }
            },
            CardOrderingField::BloomLevel => {
                if a.card_type == CardType::HoloMember {
                    match (a.bloom_level, b.bloom_level) {
                        (Some(x), Some(y)) => compare_u64(bloom_rank_of(x), bloom_rank_of(y)),
                        (None, Some(_)) => Order::Less,
                        (Some(_), None) => Order::Greater,
                        (None, None) => Order::Equal,
                    }
                } else {
                    Order::Equal
                }
            },
            CardOrderingField::Buzz => {
                if a.card_type == CardType::HoloMember {
                    compare_u64(bool_rank_of(a.buzz), bool_rank_of(b.buzz))
                } else {
                    Order::Equal
                }
            },
            CardOrderingField::AttachText => {
                if a.card_type == CardType::Support(SupportType::Tool) || a.card_type
                    == CardType::Support(SupportType::Mascot) || a.card_type == CardType::Support(
                    SupportType::Fan,
                ) {
                    let ra = self.holomem_order(&attach_text(a));
                    let rb = self.holomem_order(&attach_text(b));
                    compare_u64(ra as u64, rb as u64)
                } else {
                    Order::Equal
                }
            },
            CardOrderingField::CardNumber => {
                let x = chars_of_string(&a.card_number);
                let y = chars_of_string(&b.card_number);
                compare_text(&x, &y)
            },
        }
    }
}

fn bloom_rank_of(b: BloomLevel) -> (r: u64)
    ensures
        r == bloom_rank(b),
{
    match b {
        BloomLevel::Debut => 0,
        BloomLevel::First => 1,
        BloomLevel::Second => 2,
        BloomLevel::Spot => 3,
    }
}

impl<'c, 'o> CardOrderingHelper<'c, 'o> {
    /// Compares two cards seen through the same options: the first criterion
    /// that tells them apart decides, and cards that no criterion tells apart
    /// are equal.
    pub fn compare(&self, other: &Self) -> (r: Order)
        requires
            *self.options == *other.options,
        ensures
            r == card_order(*self.options, *self.card, *other.card),
    {
        let options = self.options;
        let a = self.card;
        let b = other.card;
        let fields = &options.ordering_fields;
        let mut i: usize = 0;
        assert(fields@.skip(0) == fields@);
        while i < fields.len()
            invariant
                i <= fields.len(),
                card_order(*options, *a, *b) == fields_order(
                    *options,
                    fields@.skip(i as int),
                    *a,
                    *b,
                ),
                fields@ == options.ordering_fields@,
                *a == *self.card,
                *b == *other.card,
                *options == *self.options,
            decreases fields.len() - i,
        {
            let c = options.field_compare(fields[i], a, b);
            assert(fields@.skip(i as int).len() > 0);
            assert(fields@.skip(i as int)[0] == fields@[i as int]);
            assert(fields@.skip(i as int).drop_first() == fields@.skip(i + 1));
            if c != Order::Equal {
                return c;
            }
            i = i + 1;
        }
        Order::Equal
    }
}


/// Every color list is equal to itself.
pub proof fn lemma_color_seq_order_reflexive(a: Seq<Color>)
    ensures
        color_seq_order(a, a) == Order::Equal,
    decreases a.len(),
{
    if a.len() > 0 {
        lemma_color_seq_order_reflexive(a.drop_first());
    }
}

/// Swapping two color lists reverses their order.
pub proof fn lemma_color_seq_order_antisymmetric(a: Seq<Color>, b: Seq<Color>)
    ensures
        color_seq_order(a, b) == flip(color_seq_order(b, a)),
    decreases a.len(),
{
    if a.len() > 0 && b.len() > 0 && color_rank(a[0]) == color_rank(b[0]) {
        lemma_color_seq_order_antisymmetric(a.drop_first(), b.drop_first());
    }
}

proof fn lemma_card_type_rank_injective(s: CardType, t: CardType)
    ensures
        card_type_rank(s) == card_type_rank(t) ==> s == t,
{
}

proof fn lemma_field_order_reflexive(o: CardOrderingOptions, f: CardOrderingField, a: Card)
    ensures
        field_order(o, f, a, a) == Order::Equal,
{
    reveal(field_order);
    lemma_color_seq_order_reflexive(a.colors@);
    lemma_text_order_reflexive(a.card_number@);
}

proof fn lemma_field_order_antisymmetric(o: CardOrderingOptions, f: CardOrderingField, a: Card, b: Card)
    requires
        a.card_type == b.card_type,
    ensures
        field_order(o, f, a, b) == flip(field_order(o, f, b, a)),
{
    reveal(field_order);
    lemma_color_seq_order_antisymmetric(a.colors@, b.colors@);
    lemma_text_order_antisymmetric(a.card_number@, b.card_number@);
}

proof fn lemma_fields_order_reflexive(o: CardOrderingOptions, fs: Seq<CardOrderingField>, a: Card)
    ensures
        fields_order(o, fs, a, a) == Order::Equal,
    decreases fs.len(),
{
    if fs.len() > 0 {
        lemma_field_order_reflexive(o, fs[0], a);
        lemma_fields_order_reflexive(o, fs.drop_first(), a);
    }
}

proof fn lemma_fields_order_antisymmetric(
    o: CardOrderingOptions,
    fs: Seq<CardOrderingField>,
    a: Card,
    b: Card,
)
    requires
        a.card_type == b.card_type,
    ensures
        fields_order(o, fs, a, b) == flip(fields_order(o, fs, b, a)),
    decreases fs.len(),
{
    if fs.len() > 0 {
        lemma_field_order_antisymmetric(o, fs[0], a, b);
        lemma_fields_order_antisymmetric(o, fs.drop_first(), a, b);
    }
}

/// A card is equal to itself under any options.
pub proof fn lemma_card_order_reflexive(o: CardOrderingOptions, a: Card)
    ensures
        card_order(o, a, a) == Order::Equal,
{
    lemma_fields_order_reflexive(o, o.ordering_fields@, a);
}

/// Swapping two cards reverses their order, when the cards are of the same
/// type or the options compare card types first (as the default and the deck
/// orders do).
pub proof fn lemma_card_order_antisymmetric(o: CardOrderingOptions, a: Card, b: Card)
    requires
        a.card_type == b.card_type || (o.ordering_fields@.len() > 0 && o.ordering_fields@[0]
            == CardOrderingField::CardType),
    ensures
        card_order(o, a, b) == flip(card_order(o, b, a)),
{
    if a.card_type == b.card_type {
        lemma_fields_order_antisymmetric(o, o.ordering_fields@, a, b);
    } else {
        reveal(field_order);
        lemma_card_type_rank_injective(a.card_type, b.card_type);
        assert(field_order(o, CardOrderingField::CardType, a, b) != Order::Equal);
        assert(field_order(o, CardOrderingField::CardType, a, b) == flip(
            field_order(o, CardOrderingField::CardType, b, a),
        ));
    }
}


/// The order of color lists is transitive.
pub proof fn lemma_color_seq_order_chain(a: Seq<Color>, b: Seq<Color>, c: Seq<Color>)
    ensures
        order_chain(color_seq_order(a, b), color_seq_order(b, c), color_seq_order(a, c)),
    decreases a.len(),
{
    if a.len() > 0 && b.len() > 0 && c.len() > 0 && color_rank(a[0]) == color_rank(b[0]) && color_rank(b[0])
        == color_rank(c[0]) {
        lemma_color_seq_order_chain(a.drop_first(), b.drop_first(), c.drop_first());
    }
}

proof fn lemma_color_order_chain(o: CardOrderingOptions, a: Card, b: Card, c: Card)
    ensures
        order_chain(color_order(o, a, b), color_order(o, b, c), color_order(o, a, c)),
{
    lemma_color_seq_order_chain(a.colors@, b.colors@, c.colors@);
}

proof fn lemma_member_order_chain(o: CardOrderingOptions, a: Card, b: Card, c: Card)
    ensures
        order_chain(member_order(o, a, b), member_order(o, b, c), member_order(o, a, c)),
{
}

proof fn lemma_field_order_chain(o: CardOrderingOptions, f: CardOrderingField, a: Card, b: Card, c: Card)
    requires
        f == CardOrderingField::CardType || (a.card_type == b.card_type && b.card_type == c.card_type),
    ensures
        order_chain(field_order(o, f, a, b), field_order(o, f, b, c), field_order(o, f, a, c)),
{
    reveal(field_order);
    match f {
        CardOrderingField::CardType => {},
        CardOrderingField::Colors => {
            lemma_color_order_chain(o, a, b, c);
        },
        CardOrderingField::Member => {
            lemma_member_order_chain(o, a, b, c);
        },
        CardOrderingField::BloomLevel => {},
        CardOrderingField::Buzz => {},
        CardOrderingField::AttachText => {},
        CardOrderingField::CardNumber => {
            lemma_text_order_chain(a.card_number@, b.card_number@, c.card_number@);
        },
    }
}

proof fn lemma_fields_order_chain(o: CardOrderingOptions, fs: Seq<CardOrderingField>, a: Card, b: Card, c: Card)
    requires
        a.card_type == b.card_type && b.card_type == c.card_type,
    ensures
        order_chain(fields_order(o, fs, a, b), fields_order(o, fs, b, c), fields_order(o, fs, a, c)),
    decreases fs.len(),
{
    if fs.len() > 0 {
        lemma_field_order_chain(o, fs[0], a, b, c);
        lemma_fields_order_chain(o, fs.drop_first(), a, b, c);
    }
}

/// The card order is transitive: a card not after a second one, which is
/// not after a third, is not after the third either, and before it when
/// either step is strict. This holds for cards of the same type, and for
/// any cards when the options compare card types first (as the default and
/// the deck orders do).
pub proof fn lemma_card_order_transitive(o: CardOrderingOptions, a: Card, b: Card, c: Card)
    requires
        (a.card_type == b.card_type && b.card_type == c.card_type) || (o.ordering_fields@.len() > 0
            && o.ordering_fields@[0] == CardOrderingField::CardType),
    ensures
        order_chain(card_order(o, a, b), card_order(o, b, c), card_order(o, a, c)),
{
    let fs = o.ordering_fields@;
    if a.card_type == b.card_type && b.card_type == c.card_type {
        lemma_fields_order_chain(o, fs, a, b, c);
    } else {
        lemma_field_order_chain(o, CardOrderingField::CardType, a, b, c);
        let ab = field_order(o, CardOrderingField::CardType, a, b);
        let bc = field_order(o, CardOrderingField::CardType, b, c);
        if ab == Order::Equal && bc == Order::Equal {
            reveal(field_order);
            lemma_card_type_rank_injective(a.card_type, b.card_type);
            lemma_card_type_rank_injective(b.card_type, c.card_type);
            assert(false);
        }
    }
}


/// Bloom level `x` comes before bloom level `y`: no level before any level,
/// then in the order they are declared, Debut, 1st, 2nd, Spot.
pub open spec fn bloom_before(x: Option<BloomLevel>, y: Option<BloomLevel>) -> bool {
    match (x, y) {
        (None, Some(_)) => true,
        (Some(BloomLevel::Debut), Some(v)) => v != BloomLevel::Debut,
        (Some(BloomLevel::First), Some(v)) => v == BloomLevel::Second || v == BloomLevel::Spot,
        (Some(BloomLevel::Second), Some(v)) => v == BloomLevel::Spot,
        _ => false,
    }
}

/// A criterion other than `g` does not tell apart cards that differ only in
/// what `g` reads.
proof fn lemma_fields_decided_by(o: CardOrderingOptions, fs: Seq<CardOrderingField>, g: CardOrderingField, a: Card, b: Card)
    requires
        fs.contains(g),
        field_order(o, g, a, b) != Order::Equal,
        forall|i: int| 0 <= i < fs.len() && fs[i] != g ==> field_order(o, #[trigger] fs[i], a, b) == Order::Equal,
    ensures
        fields_order(o, fs, a, b) == field_order(o, g, a, b),
    decreases fs.len(),
{
    if fs[0] != g {
        let k = choose|k: int| 0 <= k < fs.len() && fs[k] == g;
        assert(fs.drop_first()[k - 1] == g);
        assert forall|i: int| 0 <= i < fs.drop_first().len() && fs.drop_first()[i] != g implies field_order(
            o,
            #[trigger] fs.drop_first()[i],
            a,
            b,
        ) == Order::Equal by {
            assert(fs.drop_first()[i] == fs[i + 1]);
        }
        lemma_fields_decided_by(o, fs.drop_first(), g, a, b);
    }
}

/// Two members that differ only in bloom level are ordered by it: a card
/// without a level first, then Debut, 1st, 2nd and Spot, in that order,
/// whatever the options (as long as they compare bloom levels).
pub proof fn lemma_bloom_level_order(o: CardOrderingOptions, a: Card, b: Card)
    requires
        a.card_type == CardType::HoloMember,
        b == (Card { bloom_level: b.bloom_level, ..a }),
        o.ordering_fields@.contains(CardOrderingField::BloomLevel),
        bloom_before(a.bloom_level, b.bloom_level),
    ensures
        card_order(o, a, b) == Order::Less,
        card_order(o, b, a) == Order::Greater,
{
    let fs = o.ordering_fields@;
    let g = CardOrderingField::BloomLevel;
    assert forall|i: int| 0 <= i < fs.len() && fs[i] != g implies field_order(o, #[trigger] fs[i], a, b) == Order::Equal
        && field_order(o, fs[i], b, a) == Order::Equal by {
        lemma_field_order_reflexive(o, fs[i], a);
        reveal(field_order);
    }
    reveal(field_order);
    lemma_fields_decided_by(o, fs, g, a, b);
    lemma_fields_decided_by(o, fs, g, b, a);
}

/// Two members that differ only in Buzz are ordered by it: the card that is
/// not Buzz first, whatever the options (as long as they compare Buzz).
pub proof fn lemma_buzz_order(o: CardOrderingOptions, a: Card, b: Card)
    requires
        a.card_type == CardType::HoloMember,
        b == (Card { buzz: b.buzz, ..a }),
        o.ordering_fields@.contains(CardOrderingField::Buzz),
        !a.buzz && b.buzz,
    ensures
        card_order(o, a, b) == Order::Less,
        card_order(o, b, a) == Order::Greater,
{
    let fs = o.ordering_fields@;
    let g = CardOrderingField::Buzz;
    assert forall|i: int| 0 <= i < fs.len() && fs[i] != g implies field_order(o, #[trigger] fs[i], a, b) == Order::Equal
        && field_order(o, fs[i], b, a) == Order::Equal by {
        lemma_field_order_reflexive(o, fs[i], a);
        reveal(field_order);
    }
    reveal(field_order);
    lemma_fields_decided_by(o, fs, g, a, b);
    lemma_fields_decided_by(o, fs, g, b, a);
}

/// Every option set made by `default` or the deck orders compares bloom
/// levels, Buzz and card numbers.
pub proof fn lemma_default_fields_compare_bloom_and_buzz()
    ensures
        default_fields().contains(CardOrderingField::CardNumber),
        member_first_fields().contains(CardOrderingField::CardNumber),
        default_fields().contains(CardOrderingField::BloomLevel),
        default_fields().contains(CardOrderingField::Buzz),
        member_first_fields().contains(CardOrderingField::BloomLevel),
        member_first_fields().contains(CardOrderingField::Buzz),
{
    assert(default_fields()[3] == CardOrderingField::BloomLevel);
    assert(default_fields()[4] == CardOrderingField::Buzz);
    assert(member_first_fields()[2] == CardOrderingField::BloomLevel);
    assert(member_first_fields()[3] == CardOrderingField::Buzz);
    assert(default_fields()[6] == CardOrderingField::CardNumber);
    assert(member_first_fields()[6] == CardOrderingField::CardNumber);
}

/// Two cards that differ only in card number are ordered by it, as texts,
/// whatever the options (as long as they compare card numbers).
pub proof fn lemma_card_number_order(o: CardOrderingOptions, a: Card, b: Card)
    requires
        b == (Card { card_number: b.card_number, ..a }),
        o.ordering_fields@.contains(CardOrderingField::CardNumber),
        text_order(a.card_number@, b.card_number@) == Order::Less,
    ensures
        card_order(o, a, b) == Order::Less,
        card_order(o, b, a) == Order::Greater,
{
    let fs = o.ordering_fields@;
    let g = CardOrderingField::CardNumber;
    lemma_text_order_antisymmetric(a.card_number@, b.card_number@);
    assert forall|i: int| 0 <= i < fs.len() && fs[i] != g implies field_order(o, #[trigger] fs[i], a, b) == Order::Equal
        && field_order(o, fs[i], b, a) == Order::Equal by {
        lemma_field_order_reflexive(o, fs[i], a);
        reveal(field_order);
    }
    reveal(field_order);
    lemma_fields_decided_by(o, fs, g, a, b);
    lemma_fields_decided_by(o, fs, g, b, a);
}

} // verus!
