use sluuz::tui::difffeed::DiffFeed;
use sluuz::tui::input::{char_to_byte, is_back, is_down, norm_esc, stepped, Accel, Key};
use sluuz::tui::widgets::{
    box_height, box_inner_width, box_width, fit, key_footer, popup_area, scope_tabs,
    status_glyph, wrapped_height, Command, CommandLine, Footer, Hue, Modal, Rect, Tone, Typed,
};
use sluuz::tui::{clamp_hscroll, clamp_scroll, half_page, pane_height, pane_width, upper_pane_height};

#[test]
fn an_answer_to_a_row_you_have_left_is_dropped() {
    // A held `j` starts a load per row it passes, and the slow one must not
    // land on the row you stopped on.
    let mut feed = DiffFeed::default();
    let first = feed.request(0);
    let second = feed.request(5);
    assert!(!feed.take(first), "the answer to seq 1 is not wanted");
    assert!(feed.take(second), "the answer to seq 2 is");
    assert!(!feed.loading(), "and the pane has stopped waiting");
}

#[test]
fn a_row_with_no_diff_stops_the_waiting() {
    let mut feed = DiffFeed::default();
    feed.request(0);
    assert!(feed.loading());
    feed.idle();
    assert!(!feed.loading(), "nothing is coming, so nothing is waited for");
    assert!(!feed.slow(1000));
}

#[test]
fn a_slow_diff_admits_it_after_a_while() {
    let mut feed = DiffFeed::default();
    feed.request(1000);
    assert!(!feed.slow(1119));
    assert!(feed.slow(1120));
}

#[test]
fn scrolling_stops_at_the_last_line() {
    assert_eq!(clamp_scroll(50, 30, 10), 20);
    assert_eq!(clamp_scroll(5, 30, 10), 5);
    assert_eq!(clamp_scroll(5, 3, 10), 0);
    assert_eq!(clamp_scroll(u16::MAX, 1_000_000, 10), u16::MAX - 10);
    assert_eq!(clamp_hscroll(100, 80, 40), 40);
    assert_eq!(clamp_hscroll(10, 80, 40), 10);
}

#[test]
fn pane_sizes_come_from_the_screen() {
    assert_eq!(pane_width(Some(100)), 98);
    assert_eq!(pane_width(Some(1)), 0);
    assert_eq!(pane_width(None), 120);
    assert_eq!(pane_height(Some(50)), 28);
    assert_eq!(pane_height(Some(2)), 1);
    assert_eq!(pane_height(None), 20);
    assert_eq!(upper_pane_height(Some(50)), 18);
    assert_eq!(upper_pane_height(None), 14);
    assert_eq!(half_page(Some(50)), 14);
    assert_eq!(half_page(Some(2)), 1);
}

#[test]
fn a_step_stops_at_either_end() {
    assert_eq!(stepped(3, 10, true, 4), 7);
    assert_eq!(stepped(8, 10, true, 4), 9);
    assert_eq!(stepped(3, 10, false, 4), 0);
    assert_eq!(stepped(0, 0, true, 1), 0);
}

#[test]
fn a_held_key_doubles_its_step() {
    let mut accel = Accel::default();
    let j = Key::Char('j');
    assert_eq!(accel.steps(j, false, 1000), 1, "a tap is one step");
    assert_eq!(accel.steps(j, false, 1050), 1, "the first repeat starts the hold");
    let mut t = 1050;
    while t < 3500 {
        t += 50;
        let held = (t - 1050) / 500;
        let want = 1usize << held.min(3);
        assert_eq!(accel.steps(j, false, t), want, "held {}ms", t - 1050);
    }
    assert_eq!(accel.steps(j, true, t + 10), 1, "Ctrl makes it another key");
    assert_eq!(accel.steps(j, true, t + 300), 1, "a pause lets go");
}

#[test]
fn keys_mean_the_same_everywhere() {
    assert!(is_down(Key::Char('j')) && is_down(Key::Down));
    assert!(!is_down(Key::Char('k')));
    assert!(is_back(norm_esc(Key::Char('['), true)));
    assert_eq!(norm_esc(Key::Char('['), false), Key::Char('['));
}

#[test]
fn a_caret_is_counted_in_characters() {
    assert_eq!(char_to_byte("héllo", 0), 0);
    assert_eq!(char_to_byte("héllo", 2), 3);
    assert_eq!(char_to_byte("héllo", 9), 6);
    assert_eq!(char_to_byte("a😀b", 2), 5);
}

#[test]
fn a_box_fits_the_screen() {
    assert_eq!(box_width(200), 88);
    assert_eq!(box_width(10), 24);
    assert_eq!(box_width(60), 56);
    assert_eq!(box_inner_width(56), 50);
    assert_eq!(box_inner_width(3), 1);
    assert_eq!(box_height(10, 40), 13);
    assert_eq!(box_height(100, 40), 40);
    assert_eq!(box_height(0, 2), 4);
    assert_eq!(wrapped_height("abcdef\n\nxy", 4), 4);
    assert_eq!(wrapped_height("", 4), 0);
    let r = popup_area(Rect { x: 0, y: 0, width: 100, height: 40 }, 50, 10);
    assert_eq!(r, Rect { x: 25, y: 15, width: 50, height: 10 });
    let small = popup_area(Rect { x: 2, y: 1, width: 20, height: 5 }, 50, 10);
    assert_eq!(small, Rect { x: 2, y: 1, width: 20, height: 5 });
}

#[test]
fn the_command_line_runs_what_was_typed() {
    let mut cmd = CommandLine::default();
    assert!(matches!(cmd.on_key(Key::Enter), Typed::Run(Command::Help)));
    assert!(matches!(cmd.on_key(Key::Char('q')), Typed::Open));
    assert_eq!(cmd.text(), "q");
    assert!(matches!(cmd.on_key(Key::Enter), Typed::Run(Command::Quit)));
    assert!(matches!(cmd.on_key(Key::Backspace), Typed::Open));
    assert!(matches!(cmd.on_key(Key::Backspace), Typed::Cancel));
    for c in " zap ".chars() {
        cmd.on_key(Key::Char(c));
    }
    assert!(matches!(cmd.on_key(Key::Enter), Typed::Run(Command::Unknown(w)) if w == "zap"));
    assert!(matches!(cmd.on_key(Key::Esc), Typed::Cancel));
}

#[test]
fn the_footer_keeps_whole_keys() {
    let keys = vec!["j/k move".to_string(), "enter open".to_string(), "q quit".to_string()];
    assert_eq!(fit(&keys, 25), " j/k move · enter open");
    assert_eq!(fit(&keys, 5), "");
    match key_footer(&keys, None, None, true, 40) {
        Footer::KeysWithHelp { keys, pad } => {
            assert_eq!(keys, " j/k move · enter open · q quit");
            assert_eq!(pad, 3);
        }
        _ => panic!("keys and help"),
    }
    let note = (false, "nope".to_string());
    assert!(matches!(key_footer(&keys, Some(&note), None, true, 40), Footer::Note { ok: false, .. }));
    let cmd = CommandLine::default();
    assert!(matches!(
        key_footer(&keys, Some(&note), Some(&cmd), true, 40),
        Footer::Command { placeholder: true, .. }
    ));
}

#[test]
fn tabs_slide_with_the_picked_one() {
    assert_eq!(scope_tabs(3, 1), (0, 3));
    assert_eq!(scope_tabs(12, 0), (0, 5));
    assert_eq!(scope_tabs(12, 6), (4, 9));
    assert_eq!(scope_tabs(12, 11), (7, 12));
}

#[test]
fn a_modal_scrolls_and_is_dismissed() {
    let mut m = Modal::new("oops".to_string(), "line one\nline two".to_string());
    assert_eq!(m.tone(), Tone::Alert);
    assert!(!m.on_key(Key::Char('j')));
    assert_eq!(m.scroll(), 1);
    assert!(!m.on_key(Key::Char('x')), "a stray key is swallowed");
    assert!(!m.on_key(Key::Up));
    assert_eq!(m.scroll(), 0);
    assert!(m.on_key(Key::Char('q')));
    let area = m.layout(Rect { x: 0, y: 0, width: 100, height: 40 });
    assert_eq!(area.width, 88);
    assert_eq!(area.height, 7);
    assert_eq!(m.scroll(), 0);
}

#[test]
fn a_reader_lines_its_keys_up() {
    let rows = vec![
        ("j/k".to_string(), "move".to_string()),
        ("enter".to_string(), "open".to_string()),
    ];
    let m = Modal::reader("keys".to_string(), &rows).with_text("bye");
    assert_eq!(m.body(), "j/k     move\nenter   open\n\nbye");
    assert_eq!(m.tone(), Tone::Reader);
    assert_eq!(m.keys(), "j/k ↑↓ scroll · esc close");
}

#[test]
fn file_statuses_have_their_colours() {
    assert_eq!(status_glyph('A'), (Hue::Green, 'A'));
    assert_eq!(status_glyph('T'), (Hue::Gray, 'T'));
}
