//! Tests of the title resolver and the detail extractor on rendered pages.

use hltb::{detail_url, extract_details, id_from_href, resolve_id, search_url, LookupError};

fn search_page(href: &str) -> String {
    format!(
        "<html><body><div id=\"search-results-header\"><ul>\
         <li><div><div class=\"GameCard_search_list_image_x\">\
         <a href=\"{}\">result</a>\
         </div></div></li>\
         </ul></div></body></html>",
        href
    )
}

fn detail_page(title: &str, rows: &str) -> String {
    format!(
        "<html><body><div id=\"__next\"><div><main>\
         <div><div><div><div>\
         <div class=\"GameHeader_profile_header__q_PID shadow_text\">{}</div>\
         </div></div></div></div>\
         <div><div><div class=\"content_75_static\">\
         <div class=\"in scrollable scroll_blue shadow_box back_primary\">\
         <table class=\"GameTimeTable_game_main_table\"><tbody>{}</tbody></table>\
         </div></div></div></div>\
         </main></div></div></body></html>",
        title, rows
    )
}

#[test]
fn search_url_encodes_the_name() {
    assert_eq!(
        search_url("Metal Gear"),
        "https://howlongtobeat.com/?q=Metal%20Gear"
    );
    assert_eq!(search_url("Doom"), "https://howlongtobeat.com/?q=Doom");
}

#[test]
fn detail_url_appends_the_identifier() {
    assert_eq!(detail_url(5900), "https://howlongtobeat.com/game/5900");
    assert_eq!(detail_url(129232), "https://howlongtobeat.com/game/129232");
}

#[test]
fn id_from_href_reads_the_final_segment() {
    assert_eq!(id_from_href("game/5900"), Some(5900));
    assert_eq!(id_from_href("https://howlongtobeat.com/game/129232"), Some(129232));
    assert_eq!(id_from_href("game/0"), None);
    assert_eq!(id_from_href("game/5900/"), None);
    assert_eq!(id_from_href("game/later"), None);
    assert_eq!(id_from_href("game/99999999999"), None);
}

#[test]
fn resolve_takes_the_first_result() {
    let html = search_page("game/5900");
    assert_eq!(resolve_id(&html), Ok(5900));
}

#[test]
fn resolve_without_result_is_not_found() {
    let html = "<html><body><div id=\"search-results-header\"><ul></ul></div></body></html>";
    assert_eq!(resolve_id(html), Err(LookupError::NotFound));
}

#[test]
fn resolve_with_bad_segment_is_malformed() {
    let html = search_page("game/coming-soon");
    assert_eq!(resolve_id(&html), Err(LookupError::MalformedResponse));
}

#[test]
fn extract_reads_title_and_all_rows() {
    let rows = "<tr><td>Main Story</td><td>1.2K</td><td>4h 8m</td><td>4h</td><td>2h 45m</td><td>7h 12m</td></tr>\
         <tr><td>Main + Extras</td><td>300</td><td>5h</td><td>4h 55m</td><td>3h 34m</td><td>7h 31m</td></tr>\
         <tr><td>Completionist</td><td>150</td><td>5h 25m</td><td>5h</td><td>4h 5m</td><td>10h 36m</td></tr>\
         <tr><td>All PlayStyles</td><td>1.7K</td><td>4h 31m</td><td>4h</td><td>2h 51m</td><td>10h 7m</td></tr>";
    let html = detail_page("Metal Gear<!-- -->", rows);
    let rec = extract_details(5900, &html).unwrap();
    assert_eq!(rec.id, 5900);
    assert_eq!(rec.title, "Metal Gear");
    let main_story = rec.main_story.unwrap();
    assert_eq!(main_story.average, Some(4 * 3600 + 8 * 60));
    assert_eq!(main_story.median, Some(4 * 3600));
    assert_eq!(main_story.rushed, Some(2 * 3600 + 45 * 60));
    assert_eq!(main_story.leisure, Some(7 * 3600 + 12 * 60));
    let main_extra = rec.main_extra.unwrap();
    assert_eq!(main_extra.average, Some(5 * 3600));
    assert_eq!(main_extra.median, Some(4 * 3600 + 55 * 60));
    assert_eq!(main_extra.rushed, Some(3 * 3600 + 34 * 60));
    assert_eq!(main_extra.leisure, Some(7 * 3600 + 31 * 60));
    let completionist = rec.completionist.unwrap();
    assert_eq!(completionist.average, Some(5 * 3600 + 25 * 60));
    assert_eq!(completionist.median, Some(5 * 3600));
    assert_eq!(completionist.rushed, Some(4 * 3600 + 5 * 60));
    assert_eq!(completionist.leisure, Some(10 * 3600 + 36 * 60));
    let all_styles = rec.all_styles.unwrap();
    assert_eq!(all_styles.average, Some(4 * 3600 + 31 * 60));
    assert_eq!(all_styles.median, Some(4 * 3600));
    assert_eq!(all_styles.rushed, Some(2 * 3600 + 51 * 60));
    assert_eq!(all_styles.leisure, Some(10 * 3600 + 7 * 60));
    assert_eq!(rec.co_op, None);
    assert_eq!(rec.versus, None);
}

#[test]
fn multiplayer_only_page_fills_only_those_slots() {
    let rows = "<tr><td>Co-Op</td><td>9</td><td>83 Hours</td><td>-</td><td>-</td><td>-</td></tr>\
         <tr><td>Competitive</td><td>4</td><td>2h</td><td>1h 30m</td><td>--</td><td>3h</td></tr>";
    let html = detail_page("Helldivers 2", rows);
    let rec = extract_details(129232, &html).unwrap();
    assert_eq!(rec.main_story, None);
    assert_eq!(rec.main_extra, None);
    assert_eq!(rec.completionist, None);
    assert_eq!(rec.all_styles, None);
    assert!(rec.co_op.is_some());
    assert!(rec.versus.is_some());
    assert_eq!(rec.co_op.unwrap().average, Some(83 * 3600));
    assert_eq!(rec.versus.unwrap().median, Some(3600 + 30 * 60));
}

#[test]
fn lookup_scenario_metal_gear() {
    // Search resolves the name to its identifier...
    let search_html = search_page("game/5900");
    let id = resolve_id(&search_html).unwrap();
    assert_eq!(id, 5900);
    // ...and the detail page for that identifier yields the record.
    let rows =
        "<tr><td>Main Story</td><td>1.2K</td><td>4h 10m</td><td>4h</td><td>2h 45m</td><td>7h 12m</td></tr>";
    let detail_html = detail_page("Metal Gear<!-- -->", rows);
    let rec = extract_details(id, &detail_html).unwrap();
    assert_eq!(rec.id, 5900);
    assert_eq!(rec.title, "Metal Gear");
    assert_eq!(rec.main_story.unwrap().average, Some(15000));
}

#[test]
fn lookup_scenario_helldivers() {
    let search_html = search_page("game/129232");
    let id = resolve_id(&search_html).unwrap();
    assert_eq!(id, 129232);
    let rows = "<tr><td>Co-Op</td><td>9</td><td>83 Hours</td><td>-</td><td>-</td><td>-</td></tr>";
    let detail_html = detail_page("Helldivers 2", rows);
    let rec = extract_details(id, &detail_html).unwrap();
    assert_eq!(rec.main_story, None);
    assert_eq!(rec.co_op.unwrap().average, Some(83 * 3600));
}

#[test]
fn extract_without_title_is_malformed() {
    let html = "<html><body><div id=\"__next\"><div><main>\
         <div></div>\
         <div><div><div class=\"content_75_static\">\
         <div class=\"in scrollable scroll_blue shadow_box back_primary\">\
         <table class=\"GameTimeTable_game_main_table\"><tbody></tbody></table>\
         </div></div></div></div>\
         </main></div></div></body></html>";
    assert_eq!(extract_details(1, html), Err(LookupError::MalformedResponse));
}

#[test]
fn extract_without_table_is_malformed() {
    let html = "<html><body><div id=\"__next\"><div><main>\
         <div><div><div><div>\
         <div class=\"GameHeader_profile_header__q_PID shadow_text\">A Game</div>\
         </div></div></div></div>\
         <div></div>\
         </main></div></div></body></html>";
    assert_eq!(extract_details(1, html), Err(LookupError::MalformedResponse));
}

#[test]
fn extract_with_blank_title_is_malformed() {
    let html = detail_page("<!-- -->  ", "");
    assert_eq!(extract_details(1, &html), Err(LookupError::MalformedResponse));
}

#[test]
fn extract_with_zero_identifier_is_malformed() {
    let html = detail_page("A Game", "");
    assert_eq!(extract_details(0, &html), Err(LookupError::MalformedResponse));
}

#[test]
fn extract_with_no_recognized_rows_yields_bare_record() {
    let rows = "<tr><td>Header</td></tr>";
    let html = detail_page("A Game", rows);
    let rec = extract_details(7, &html).unwrap();
    assert_eq!(rec.id, 7);
    assert_eq!(rec.title, "A Game");
    assert_eq!(rec.main_story, None);
    assert_eq!(rec.main_extra, None);
    assert_eq!(rec.completionist, None);
    assert_eq!(rec.all_styles, None);
    assert_eq!(rec.co_op, None);
    assert_eq!(rec.versus, None);
}

#[test]
fn extract_with_short_classified_row_is_malformed() {
    let rows = "<tr><td>Main Story</td><td>1</td><td>4h</td></tr>";
    let html = detail_page("A Game", rows);
    assert_eq!(extract_details(7, &html), Err(LookupError::MalformedResponse));
}
