use opencast::icon::unblend;
use opencast::index::Entry;
use opencast::palette::{
    file_kind, root_lines, Activation, Effect, EmptyState, Escape, FileKind, Mode, Palette,
};

fn labels(palette: &Palette, answer: bool) -> Vec<(u8, String)> {
    palette
        .action_items(answer)
        .into_iter()
        .map(|a| (a.id, a.label))
        .collect()
}

fn entry(name: &str) -> Entry {
    Entry::new(format!("/x/{name}"), name.to_string(), false, 0)
}

#[test]
fn escape_closes_panels_then_query_then_window() {
    let mut palette = Palette::new(false);
    palette.query = "budget".into();
    palette.toggle_actions();
    assert!(palette.actions);
    assert_eq!(palette.escape(), Escape::ClosedPanels);
    assert!(!palette.actions && palette.focus_search);
    assert_eq!(palette.escape(), Escape::ClearedQuery);
    assert!(palette.query.is_empty() && palette.pending);
    assert_eq!(palette.escape(), Escape::CloseWindow);
}

#[test]
fn outdated_results_are_ignored() {
    let mut palette = Palette::new(false);
    palette.query = "new".into();
    palette.selected = 5;
    assert!(!palette.accept_results("old".into(), vec![entry("a")]));
    assert!(palette.results.is_empty());
    assert!(palette.accept_results("new".into(), vec![entry("a"), entry("b")]));
    assert_eq!(palette.results.len(), 2);
    assert_eq!(palette.selected, 1);
    assert!(!palette.pending);
}

#[test]
fn selection_moves_within_results() {
    let mut palette = Palette::new(false);
    palette.accept_results(String::new(), vec![entry("a"), entry("b")]);
    palette.select_next();
    palette.select_next();
    assert_eq!(palette.selected, 1);
    palette.select_previous();
    palette.select_previous();
    assert_eq!(palette.selected, 0);
    assert!(palette.scroll_selected);
}

#[test]
fn actions_depend_on_state_and_filter() {
    let mut palette = Palette::new(false);
    let ids: Vec<u8> = labels(&palette, false).into_iter().map(|(id, _)| id).collect();
    assert_eq!(ids, vec![3, 4, 5, 6, 7, 8]);
    assert_eq!(labels(&palette, true)[0], (0, "Copy result".to_string()));
    palette.accept_results(String::new(), vec![entry("a")]);
    assert_eq!(labels(&palette, false)[1], (1, "Copy path".to_string()));
    palette.action_query = "SEARCH".into();
    let found: Vec<u8> = labels(&palette, false).into_iter().map(|(id, _)| id).collect();
    assert_eq!(found, vec![3, 5, 6]);
    palette.mode = Mode::Calculator;
    palette.action_query = "open".into();
    assert_eq!(labels(&palette, false), vec![(8, "Quit OpenCast".to_string())]);
}

#[test]
fn running_actions() {
    let mut palette = Palette::new(false);
    palette.toggle_actions();
    palette.selected = 3;
    assert_eq!(palette.run_action(6), Effect::Nothing);
    assert_eq!(palette.mode, Mode::Files);
    assert_eq!(palette.selected, 0);
    assert!(!palette.actions && palette.focus_search);
    assert_eq!(palette.run_action(3), Effect::Nothing);
    assert!(palette.settings && !palette.focus_search);
    assert_eq!(palette.run_action(4), Effect::Reindex);
    assert_eq!(palette.run_action(8), Effect::Close);
    assert_eq!(palette.activation(true), Activation::OpenSelected);
    palette.mode = Mode::Calculator;
    assert_eq!(palette.activation(false), Activation::Nothing);
    assert_eq!(palette.activation(true), Activation::CopyAnswer);
    assert!(palette.shows_examples());
}

#[test]
fn examples_become_the_query() {
    let mut palette = Palette::new(true);
    assert!(palette.settings && !palette.focus_search);
    palette.close_settings();
    palette.use_example("10 km to mi");
    assert_eq!(palette.query, "10 km to mi");
    assert!(palette.pending && palette.focus_search);
}

#[test]
fn file_kinds() {
    assert_eq!(file_kind(true, "pdf"), FileKind::Folder);
    assert_eq!(file_kind(false, "PDF"), FileKind::Pdf);
    assert_eq!(file_kind(false, "Csv"), FileKind::Spreadsheet);
    assert_eq!(file_kind(false, "toml"), FileKind::Code);
    assert_eq!(file_kind(false, ""), FileKind::File);
    assert_eq!(FileKind::Pdf.label(), "PDF document");
    assert_eq!(FileKind::Image.colour(), (158, 119, 219));
    assert_eq!(FileKind::Code.glyph(), 4);
}

#[test]
fn folder_lines() {
    assert_eq!(
        root_lines("  /home/a \r\n\n\t/home/b\n   \n"),
        vec!["/home/a".to_string(), "/home/b".to_string()]
    );
    assert!(root_lines("").is_empty());
}

#[test]
fn icon_transparency() {
    // Opaque red pixel, then a fully transparent one, then half-transparent grey.
    let black = [0, 0, 255, 255, 0, 0, 0, 255, 64, 64, 64, 255];
    let white = [0, 0, 255, 255, 255, 255, 255, 255, 191, 191, 191, 255];
    assert_eq!(
        unblend(&black, &white),
        vec![255, 0, 0, 255, 0, 0, 0, 0, 127, 127, 127, 128]
    );
    assert!(unblend(&black[..3], &white).is_empty());
}

#[test]
fn rows_clicks_and_empty_state() {
    let mut palette = Palette::new(false);
    assert_eq!(palette.empty_state(false), EmptyState::NoFiles);
    assert_eq!(palette.empty_state(true), EmptyState::Indexing);
    palette.refresh();
    assert_eq!(palette.empty_state(false), EmptyState::Indexing);
    assert!(palette.accept_results(String::new(), vec![entry("a"), entry("b"), entry("c")]));
    assert_eq!(palette.empty_state(false), EmptyState::NoFiles);
    palette.click_row(2);
    assert_eq!(palette.selected, 2);
    palette.select_previous();
    assert!(palette.scroll_selected);
    palette.rows_shown();
    assert!(!palette.scroll_selected);
    assert_eq!(palette.selected, 1);
    palette.open_settings();
    assert!(palette.settings);
    assert!(!palette.navigation_enabled());
    palette.search_focused();
    assert!(!palette.focus_search);
    palette.toggle_settings();
    palette.toggle_actions();
    assert!(palette.focus_actions);
    palette.actions_focused();
    assert!(!palette.focus_actions);
    palette.next_action(5);
    palette.action_query_changed();
    assert_eq!(palette.action_selected, 0);
}
