use ratatui::buffer::Buffer;
use std::time::{Duration, Instant};
use tuiwindow::geometry::Rect;
use tuiwindow::surface::{is_printable, is_sound, readable, titled, TITLE_LIMIT};
use tuiwindow::windows::alerts::{
    first_shown, is_shown, popup_area, remaining_seconds, Alert, AlertManager, Reading,
    NANOS_PER_SECOND,
};

fn sleep(span: Duration) {
    let start = Instant::now();
    while start.elapsed() < span {
        std::hint::spin_loop();
    }
}

fn surface() -> Buffer {
    Buffer::empty(ratatui::layout::Rect::new(0, 0, 40, 30))
}

fn text_of(buffer: &Buffer) -> String {
    let mut all = String::new();
    for y in 0..buffer.area.height {
        for x in 0..buffer.area.width {
            all.push_str(buffer.get(x, y).symbol());
        }
        all.push('\n');
    }
    all
}

#[test]
fn an_alert_is_visible_until_its_time_is_over() {
    let mut manager = AlertManager::default();
    manager.schedule(Alert::new("Title", "Message", Duration::from_secs(1)));
    assert!(manager.first_visible().unwrap().is_visible());
    let mut buffer = surface();
    manager.first_visible().unwrap().render(Rect::new(0, 0, 40, 30), &mut buffer);
    assert!(manager.first_visible().is_some());
    sleep(Duration::from_millis(1100));
    assert!(manager.first_visible().is_none());
}

#[test]
fn an_alert_that_was_never_drawn_stays_visible() {
    let alert = Alert::new("Title", "Message", Duration::from_millis(1));
    sleep(Duration::from_millis(20));
    assert!(alert.is_visible());
}

#[test]
fn an_alert_without_time_is_gone_once_drawn() {
    let mut alert = Alert::new("Title", "Message", Duration::from_secs(0));
    assert!(alert.is_visible());
    alert.render(Rect::new(0, 0, 40, 30), &mut surface());
    assert!(!alert.is_visible());
}

#[test]
fn first_visible_skips_what_is_over() {
    let mut manager = AlertManager::default();
    assert!(manager.first_visible().is_none());
    manager.schedule(Alert::new("short", "one", Duration::from_millis(1)));
    manager.alert("two");
    assert_eq!(manager.len(), 2);
    let mut buffer = surface();
    manager.first_visible().unwrap().render(Rect::new(0, 0, 40, 30), &mut buffer);
    assert!(text_of(&buffer).contains("short"));
    sleep(Duration::from_millis(20));
    let mut buffer = surface();
    manager.first_visible().unwrap().render(Rect::new(0, 0, 40, 30), &mut buffer);
    let text = text_of(&buffer);
    assert!(text.contains("Alert"));
    assert!(text.contains("two"));
    assert_eq!(manager.len(), 2);
}

#[test]
fn an_alert_is_drawn_in_the_middle_with_its_countdown() {
    let mut alert = Alert::new("Heads up", "Something happened", Duration::from_secs(90));
    let mut buffer = surface();
    alert.render(Rect::new(0, 0, 40, 30), &mut buffer);
    let text = text_of(&buffer);
    let lines: Vec<&str> = text.lines().collect();
    assert!(lines[10].contains("Heads up"));
    assert!(lines[11].contains("Something"));
    assert!(lines[18].starts_with("          89/90"));
    assert!(lines[0].trim().is_empty());
    assert!(lines[9].trim().is_empty());
    assert!(lines[20].trim().is_empty());
}

#[test]
fn an_alert_outside_the_surface_draws_what_fits() {
    let mut alert = Alert::new("Far", "away", Duration::from_secs(5));
    let mut buffer = Buffer::empty(ratatui::layout::Rect::new(0, 0, 4, 2));
    alert.render(Rect::new(0, 0, 400, 120), &mut buffer);
    assert!(!alert.is_visible() || text_of(&buffer).trim().is_empty());
}

#[test]
fn popup_area_is_a_quarter_in_and_a_third_down() {
    assert_eq!(popup_area(Rect::new(0, 0, 40, 12)), Rect::new(10, 4, 20, 4));
    assert_eq!(popup_area(Rect::new(7, 9, 41, 13)), Rect::new(17, 13, 20, 4));
    assert_eq!(popup_area(Rect::new(65535, 65530, 8, 30)), Rect::new(65535, 65535, 4, 10));
    assert_eq!(popup_area(Rect::new(0, 0, 0, 0)), Rect::new(0, 0, 0, 0));
    assert_eq!(popup_area(Rect::new(0, 0, 65535, 65535)), Rect::new(16383, 21845, 32767, 21845));
}

#[test]
fn shown_is_a_matter_of_time() {
    assert!(is_shown(None, 0));
    assert!(is_shown(Some(999), 1000));
    assert!(!is_shown(Some(1000), 1000));
    assert!(!is_shown(Some(0), 0));
}

#[test]
fn remaining_seconds_are_whole_and_never_negative() {
    assert_eq!(remaining_seconds(0, 90 * NANOS_PER_SECOND), 90);
    assert_eq!(remaining_seconds(1, 90 * NANOS_PER_SECOND), 89);
    assert_eq!(remaining_seconds(89 * NANOS_PER_SECOND, 90 * NANOS_PER_SECOND), 1);
    assert_eq!(remaining_seconds(90 * NANOS_PER_SECOND, 90 * NANOS_PER_SECOND), 0);
    assert_eq!(remaining_seconds(91 * NANOS_PER_SECOND, 90 * NANOS_PER_SECOND), 0);
}

#[test]
fn a_plain_alert_lasts_one_second() {
    let mut manager = AlertManager::default();
    manager.alert("for a moment");
    let mut buffer = surface();
    manager.first_visible().unwrap().render(Rect::new(0, 0, 40, 30), &mut buffer);
    assert!(text_of(&buffer).contains("0/1"));
    sleep(Duration::from_millis(500));
    assert!(manager.first_visible().is_some());
    sleep(Duration::from_millis(600));
    assert!(manager.first_visible().is_none());
}

#[test]
fn an_alert_is_drawn_in_the_middle_of_an_area_that_starts_elsewhere() {
    let mut alert = Alert::with_text(String::from("Heads up"), String::from("Moved"), Duration::from_secs(9));
    let mut buffer = Buffer::empty(ratatui::layout::Rect::new(0, 0, 60, 40));
    alert.render(Rect::new(20, 10, 40, 30), &mut buffer);
    let text = text_of(&buffer);
    let lines: Vec<&str> = text.lines().collect();
    assert!(lines[20].starts_with(&format!("{}┌Heads up", " ".repeat(30))));
    assert!(lines[21].contains("Moved"));
    assert!(lines[28].starts_with(&format!("{}8/9", " ".repeat(30))));
    assert!(lines[19].trim().is_empty());
    assert!(lines[30].trim().is_empty());
}

#[test]
fn first_shown_is_the_least_shown_reading() {
    let over = Reading { elapsed: Some(10), total: 10 };
    let running = Reading { elapsed: Some(9), total: 10 };
    let fresh = Reading { elapsed: None, total: 0 };
    assert_eq!(first_shown(&vec![]), None);
    assert_eq!(first_shown(&vec![over, over]), None);
    assert_eq!(first_shown(&vec![over, running, fresh]), Some(1));
    assert_eq!(first_shown(&vec![fresh, running]), Some(0));
    assert_eq!(first_shown(&vec![over, over, fresh]), Some(2));
}

#[test]
fn an_alert_is_read_as_it_stands() {
    let mut alert = Alert::with_text(String::from("t"), String::from("m"), Duration::from_secs(2));
    assert_eq!(alert.read(), Reading { elapsed: None, total: 2 * NANOS_PER_SECOND });
    alert.render(Rect::new(0, 0, 40, 30), &mut surface());
    let reading = alert.read();
    assert_eq!(reading.total, 2 * NANOS_PER_SECOND);
    assert!(reading.elapsed.is_some());
    assert!(reading.elapsed.unwrap() < NANOS_PER_SECOND);
}

#[test]
fn alert_text_schedules_a_plain_alert() {
    let mut manager = AlertManager::default();
    manager.alert_text(String::from("as given"));
    assert_eq!(manager.len(), 1);
    let mut buffer = surface();
    manager.first_visible().unwrap().render(Rect::new(0, 0, 40, 30), &mut buffer);
    let text = text_of(&buffer);
    assert!(text.contains("Alert"));
    assert!(text.contains("as given"));
    assert!(text.contains("0/1"));
}

#[test]
fn a_surface_is_sound_when_its_cells_match_its_area() {
    let mut buffer = Buffer::empty(ratatui::layout::Rect::new(3, 4, 40, 30));
    assert!(is_sound(&buffer));
    assert!(is_sound(&Buffer::empty(ratatui::layout::Rect::new(0, 0, 0, 0))));
    assert!(is_sound(&Buffer::empty(ratatui::layout::Rect::new(0, 0, 255, 257))));
    buffer.content.pop();
    assert!(!is_sound(&buffer));
    let mut wide = Buffer::empty(ratatui::layout::Rect::new(0, 0, 4, 4));
    wide.area = ratatui::layout::Rect { x: 65534, y: 0, width: 4, height: 4 };
    assert!(!is_sound(&wide));
    let mut large = Buffer::empty(ratatui::layout::Rect::new(0, 0, 1, 1));
    large.area = ratatui::layout::Rect { x: 0, y: 0, width: 256, height: 256 };
    large.content.resize(65536, Default::default());
    assert!(!is_sound(&large));
}

#[test]
fn printable_is_blank_to_tilde() {
    assert!(is_printable(""));
    assert!(is_printable(" q) Exit ~"));
    assert!(!is_printable("tab\there"));
    assert!(!is_printable("line\n"));
    assert!(!is_printable("caf\u{e9}"));
    assert!(!is_printable("zero\u{200b}width"));
    assert!(!is_printable("\u{7f}"));
}

#[test]
fn readable_puts_a_question_mark_for_what_is_not_printable() {
    assert_eq!(readable("1) One"), "1) One");
    assert_eq!(readable(""), "");
    assert_eq!(readable("a\u{200b}b"), "a?b");
    assert_eq!(readable("caf\u{e9}\t\u{1f600}!"), "caf???!");
}

#[test]
fn a_title_is_cut_and_cleaned() {
    assert_eq!(titled("Alert"), "Alert");
    assert_eq!(titled("na\u{ef}ve"), "na?ve");
    let long = "x".repeat(TITLE_LIMIT + 10);
    assert_eq!(titled(&long).len(), TITLE_LIMIT);
    let wide = "\u{e9}".repeat(TITLE_LIMIT + 1);
    assert_eq!(titled(&wide), "?".repeat(TITLE_LIMIT));
}

#[test]
fn an_alert_with_a_title_that_takes_no_cell_is_drawn() {
    let mut alert = Alert::with_text(
        String::from("0123456789012345\u{200b}\u{200b}"),
        String::from("body\u{200b}"),
        Duration::from_secs(9),
    );
    let mut buffer = Buffer::empty(ratatui::layout::Rect::new(0, 0, 36, 30));
    alert.render(Rect::new(0, 0, 36, 30), &mut buffer);
    let text = text_of(&buffer);
    let lines: Vec<&str> = text.lines().collect();
    assert!(lines[10].contains("0123456789012345"));
    assert!(lines[11].contains("body"));
}

#[test]
fn an_alert_with_an_endless_title_is_drawn() {
    let mut alert =
        Alert::with_text("t".repeat(65535), String::from("body"), Duration::from_secs(9));
    let mut buffer = surface();
    alert.render(Rect::new(0, 0, 40, 30), &mut buffer);
    let text = text_of(&buffer);
    let lines: Vec<&str> = text.lines().collect();
    assert!(lines[10].contains("tttttttttttttttttt"));
    assert!(lines[18].starts_with("          8/9"));
}
