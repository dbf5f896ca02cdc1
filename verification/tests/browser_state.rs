use tuist::browser::{count_lines, Browser};

#[test]
fn instantiates_self_correctly() {
    let browser = Browser::new();
    assert_eq!(browser.active_tab, 0);
    assert_eq!(browser.tabs.len(), 1);
    assert_eq!(browser.active_tab().url_field, "".to_string());
    assert_eq!(browser.active_tab().url, "".to_string());
    assert_eq!(browser.active_tab().content, "".to_string());
}

#[test]
fn can_not_scroll_below_zero() {
    let mut browser = Browser::new();
    assert_eq!(browser.scroll, 0);
    browser.scroll_down();
    assert_eq!(browser.scroll, 0);
}

#[test]
fn sets_active_tab_content() {
    let mut browser = Browser::new();
    browser.set_content("Hello".to_string());
    assert_eq!(browser.active_tab().content, "Hello".to_string());
}

#[test]
fn creates_new_tab() {
    let mut browser = Browser::new();
    browser.new_tab();
    assert_eq!(browser.active_tab, 1);
    assert_eq!(browser.tabs.len(), 2);
}

#[test]
fn switches_to_next_tab() {
    let mut browser = Browser::new();
    browser.new_tab();
    browser.new_tab();
    assert_eq!(browser.tabs.len(), 3);
    browser.active_tab = 0;

    browser.next_tab();
    assert_eq!(browser.active_tab, 1);
    browser.next_tab();
    assert_eq!(browser.active_tab, 2);
    browser.next_tab();
    assert_eq!(browser.active_tab, 2);
}

#[test]
fn switches_to_previous_tab() {
    let mut browser = Browser::new();
    browser.new_tab();
    browser.new_tab();
    assert_eq!(browser.tabs.len(), 3);

    assert_eq!(browser.active_tab, 2);
    browser.prev_tab();
    assert_eq!(browser.active_tab, 1);
    browser.prev_tab();
    assert_eq!(browser.active_tab, 0);
    browser.prev_tab();
    assert_eq!(browser.active_tab, 0);
}

#[test]
fn closes_non_last_tab_correctly() {
    let mut browser = Browser::new();
    browser.new_tab();
    browser.new_tab();
    browser.new_tab();
    assert_eq!(browser.active_tab, 3);

    browser.active_tab = 1;
    browser.close_active_tab();
    assert_eq!(browser.tabs.len(), 3);
    assert_eq!(browser.active_tab, 1);
}

#[test]
fn closes_last_tab_correctly() {
    let mut browser = Browser::new();
    browser.new_tab();
    browser.new_tab();
    browser.new_tab();
    assert_eq!(browser.active_tab, 3);

    browser.close_active_tab();
    assert_eq!(browser.tabs.len(), 3);
    assert_eq!(browser.active_tab, 2);
}

#[test]
fn counts_lines_exactly() {
    assert_eq!(count_lines(""), 0);
    assert_eq!(count_lines("a"), 1);
    assert_eq!(count_lines("a\n"), 1);
    assert_eq!(count_lines("a\nb"), 2);
    assert_eq!(count_lines("\n\n"), 2);
}

#[test]
fn scroll_down_clamps_to_line_count() {
    let mut browser = Browser::new();
    browser.set_content("a\nb\nc\nd\ne".to_string());
    browser.scroll_down();
    assert_eq!(browser.scroll, 2);
    browser.scroll_down();
    assert_eq!(browser.scroll, 4);
    browser.scroll_down();
    assert_eq!(browser.scroll, 5);
    browser.scroll_up();
    assert_eq!(browser.scroll, 3);
}

#[test]
fn scroll_up_from_one_stays_put() {
    let mut browser = Browser::new();
    browser.scroll = 1;
    browser.scroll_up();
    assert_eq!(browser.scroll, 1);
}

#[test]
fn edits_url_field_and_sets_url() {
    let mut browser = Browser::new();
    browser.push_url_char('a');
    browser.push_url_char('b');
    assert_eq!(browser.active_tab().url_field, "ab".to_string());
    browser.pop_url_char();
    assert_eq!(browser.active_tab().url_field, "a".to_string());
    browser.set_url();
    assert_eq!(browser.active_tab().url, "a".to_string());
    browser.toggle_typing();
    assert!(browser.currently_typing);
    browser.quit();
    assert!(browser.should_exit);
    assert!(!browser.has_content());
    browser.tick();
}
