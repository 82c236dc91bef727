use hocg_fan_sim_assets::hololive::first_id_value;
use hocg_fan_sim_assets::legacy::legacy_rows;
use hocg_fan_sim_assets::pages::{
    illustrator_page, qna_page, retrieve_spreadsheet_html, sheet_table_rows, site_list_page, yuyutei_page,
};
use hocg_fan_sim_assets::price_check::YuyuteiRow;
use hocg_fan_sim_assets::sheet_images::sheet_images_taken;

#[test]
fn sheet_table_cells_read() {
    let html = "<html><body><table><tbody>\
        <tr><td>  a </td><td>one<br>two </td></tr>\
        <tr><td><div><img src=\"x.png\"></div></td></tr>\
        </tbody></table><table><tr><td>other</td></tr></table></body></html>";
    let rows = sheet_table_rows(html).unwrap();
    assert_eq!(rows.len(), 2);
    assert_eq!(rows[0].len(), 2);
    assert_eq!(rows[0][0].text, "  a ");
    assert_eq!(rows[0][0].content, "a");
    assert_eq!(rows[0][0].img_src, None);
    assert_eq!(rows[0][1].text, "onetwo ");
    assert_eq!(rows[0][1].content, "one\ntwo");
    assert_eq!(rows[1].len(), 1);
    assert_eq!(rows[1][0].img_src, Some("x.png".to_string()));
    assert_eq!(rows[1][0].content, "");
}

#[test]
fn sheet_without_table() {
    assert!(sheet_table_rows("<html><body><p>nothing</p></body></html>").is_none());
    assert!(retrieve_spreadsheet_html("<html><body><p>nothing</p></body></html>").is_none());
}

fn shop_html() -> String {
    "<html><body>\
     <div id=\"card-list3\"><h3><span>SEC</span></h3>\
       <div class=\"col card-product\"><span>hBP01-001</span><h4>Sora</h4>\
         <a href=\"https://shop/1\"><img src=\"https://img/1.jpg\"></a></div>\
       <div class=\"card-product\"><span>hBP01-002</span><h4>AZKi</h4>\
         <a href=\"https://shop/2\"><img src=\"https://img/2.jpg\"></a></div>\
     </div>\
     <div id=\"card-list3\"><h3><span>RR</span></h3>\
       <div class=\"card-product\"><span>hBP01-003</span><h4>Miko</h4>\
         <a href=\"https://shop/3\"><img src=\"https://img/3.jpg\"></a></div>\
     </div>\
     <ul class=\"pagination\"><li><a>1</a></li><li><a>2</a></li><li><a>7</a></li><li><a>next</a></li></ul>\
     </body></html>"
        .to_string()
}

#[test]
fn shop_page_rows_and_last_page() {
    let (rows, last) = yuyutei_page(&shop_html(), true).unwrap();
    assert_eq!(last, Some(7));
    assert_eq!(rows.len(), 3);
    assert_eq!(rows[0].number, "hBP01-001");
    assert_eq!(rows[0].name, "Sora");
    assert_eq!(rows[0].rarity, "SEC");
    assert_eq!(rows[0].url, Some("https://shop/1".to_string()));
    assert_eq!(rows[0].img_src, Some("https://img/1.jpg".to_string()));
    assert_eq!(rows[2].number, "hBP01-003");
    assert_eq!(rows[2].rarity, "RR");
}

#[test]
fn shop_page_short_form() {
    let (rows, last) = yuyutei_page(&shop_html(), false).unwrap();
    assert_eq!(last, None);
    assert_eq!(rows.len(), 3);
    assert_eq!(rows[1].name, "");
    assert_eq!(rows[1].img_src, None);
    assert_eq!(rows[1].url, Some("https://shop/2".to_string()));
}

#[test]
fn shop_page_missing_elements_stop() {
    // a list without its heading
    let html = "<div id=\"card-list3\"><div class=\"card-product\"><span>x</span><a href=\"u\"></a></div></div>";
    assert!(yuyutei_page(html, false).is_none());
    // a product without a name, when the full form is read
    let html = "<div id=\"card-list3\"><h3><span>C</span></h3><div class=\"card-product\"><span>x</span><a href=\"u\"><img src=\"i\"></a></div></div>";
    assert!(yuyutei_page(html, true).is_none());
    assert_eq!(yuyutei_page(html, false).unwrap().0.len(), 1);
    // a page number that is not a number
    let html = "<ul class=\"pagination\"><li><a>x</a></li><li><a>y</a></li></ul>";
    assert!(yuyutei_page(html, true).is_none());
    let (rows, last) = yuyutei_page(html, false).unwrap();
    assert!(rows.is_empty());
    assert_eq!(last, None);
}

#[test]
fn legacy_rows_of_shop_page() {
    let (rows, _) = yuyutei_page(&shop_html(), false).unwrap();
    let linked = legacy_rows(&rows);
    assert_eq!(linked.len(), 3);
    assert_eq!(linked[0], ("https://shop/1".to_string(), "hBP01-001".to_string(), "SEC".to_string()));
    let unlinked = vec![YuyuteiRow {
        number: "n".to_string(),
        name: String::new(),
        rarity: "C".to_string(),
        url: None,
        img_src: None,
    }];
    assert!(legacy_rows(&unlinked).is_empty());
}

#[test]
fn site_list_cards_read() {
    let html = "<html><head><title>list</title></head><body><ul>\
        <li><a href=\"/cardlist/?id=12\"><p class=\"number\">hSD01-001</p><p class=\"name\">Sora</p>\
          <div class=\"info\"><dl><dt>カードタイプ</dt><dd>推しホロメン</dd>\
            <dt>色</dt><dd><img alt=\"白\"><img alt=\"緑\"></dd></dl></div></a></li>\
        <li><a href=\"/other\"><p>no number</p></a></li>\
        </ul></body></html>";
    let cards = site_list_page(html).unwrap();
    assert_eq!(cards.len(), 1);
    let (c, href) = &cards[0];
    assert_eq!(href, &Some("/cardlist/?id=12".to_string()));
    assert_eq!(c.card_number, "hSD01-001");
    assert_eq!(c.name, Some("Sora".to_string()));
    assert_eq!(c.rows.len(), 2);
    assert_eq!(c.rows[0].key, "カードタイプ");
    assert_eq!(c.rows[0].text, "推しホロメン");
    assert_eq!(c.rows[1].img_alts, "白 緑");
    assert!(c.oshi_skills.is_empty());
}

#[test]
fn site_list_front_page_ends() {
    let html = "<html><head><title>hololive OFFICIAL CARD GAME｜hololive production</title></head><body></body></html>";
    assert!(site_list_page(html).is_none());
}

#[test]
fn illustrator_read() {
    let html = "<div class=\"ill-name\"><p>Illust</p><span>someone</span></div>";
    assert_eq!(illustrator_page(html), "someone");
    assert_eq!(illustrator_page("<div></div>"), "");
}

#[test]
fn qna_page_read() {
    let html = "<html><body>\
        <div class=\"qa-List_Item\"><p class=\"qa-List_Ttl\">Q1 (2024.09.20)</p>\
          <p class=\"qa-List_Txt-Q\">question</p><p class=\"qa-List_Txt-A\">answer</p></div>\
        <div class=\"qa-List_Item\"><p class=\"qa-List_Ttl\">Q2</p></div>\
        </body></html>";
    let (entries, go_on) = qna_page(html);
    assert!(go_on);
    assert_eq!(entries.len(), 2);
    assert_eq!(entries[0].title, "Q1 (2024.09.20)");
    assert_eq!(entries[0].question, Some("question".to_string()));
    assert_eq!(entries[0].answer, Some("answer".to_string()));
    assert_eq!(entries[0].relation, None);
    assert_eq!(entries[1].question, None);
}

#[test]
fn qna_page_stops() {
    let html = "<div class=\"qa-List_Item\"><p class=\"qa-List_Ttl\">Q1</p></div>\
        <div class=\"qa-List_Item\"><p>untitled</p></div>\
        <div class=\"qa-List_Item\"><p class=\"qa-List_Ttl\">Q3</p></div>";
    let (entries, go_on) = qna_page(html);
    assert!(!go_on);
    assert_eq!(entries.len(), 1);
    let (entries, go_on) = qna_page("<html><body>Page not found</body></html>");
    assert!(!go_on);
    assert!(entries.is_empty());
}

#[test]
fn first_id_taken() {
    let pairs = vec![
        ("view".to_string(), "list".to_string()),
        ("id".to_string(), "42".to_string()),
        ("id".to_string(), "7".to_string()),
    ];
    assert_eq!(first_id_value(&pairs), Some("42".to_string()));
    assert_eq!(first_id_value(&vec![("ids".to_string(), "1".to_string())]), None);
}

#[test]
fn master_sheet_not_taken() {
    assert!(!sheet_images_taken(&"Master Sheet".to_string()));
    assert!(sheet_images_taken(&"hBP01".to_string()));
}
