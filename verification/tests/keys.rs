use sluuz::app::keys::{
    help_title, key_owner, level_key, pane_list, plain_answer, query_answer, settles,
    typed_answer, view_key, Act, Context, List, Owner, PlainAnswer, QueryAnswer, TypedAnswer,
    ViewKey,
};
use sluuz::app::{Level, Pane};
use sluuz::tui::input::Key;

fn ctx() -> Context {
    Context { bottom_empty: false, stashes: false, undo: None }
}

#[test]
fn ctrl_c_quits_from_under_anything() {
    assert_eq!(key_owner(Key::Char('c'), true, true, Some(true), true, Some(Pane::Top)), Owner::Quit);
    assert_eq!(key_owner(Key::Char('c'), false, true, None, false, None), Owner::Modal);
}

#[test]
fn what_is_open_gets_the_key_first() {
    assert_eq!(key_owner(Key::Char('q'), false, false, Some(true), true, None), Owner::TypedGate);
    assert_eq!(key_owner(Key::Char('q'), false, false, Some(false), true, None), Owner::PlainGate);
    assert_eq!(key_owner(Key::Char('q'), false, false, None, true, None), Owner::CommandLine);
    assert_eq!(
        key_owner(Key::Char('q'), false, false, None, false, Some(Pane::Bottom)),
        Owner::QueryBar(Pane::Bottom)
    );
    assert_eq!(key_owner(Key::Char('q'), false, false, None, false, None), Owner::View);
}

#[test]
fn a_typed_gate_deletes_only_on_the_exact_name() {
    assert_eq!(typed_answer(Key::Enter, "feat/x", "feat/x"), TypedAnswer::Delete);
    assert_eq!(typed_answer(Key::Enter, "feat/", "feat/x"), TypedAnswer::Nothing);
    assert_eq!(typed_answer(Key::Esc, "", "feat/x"), TypedAnswer::Cancel);
    assert_eq!(typed_answer(Key::Backspace, "f", "feat/x"), TypedAnswer::Erase);
    assert_eq!(typed_answer(Key::Char('y'), "", "feat/x"), TypedAnswer::Type('y'));
}

#[test]
fn a_plain_gate_opens_on_no() {
    assert_eq!(plain_answer(Key::Enter, false), PlainAnswer::Cancel);
    assert_eq!(plain_answer(Key::Enter, true), PlainAnswer::Delete);
    assert_eq!(plain_answer(Key::Char('y'), false), PlainAnswer::Delete);
    assert_eq!(plain_answer(Key::Left, false), PlainAnswer::PickYes);
    assert_eq!(plain_answer(Key::Char('l'), true), PlainAnswer::PickNo);
    assert_eq!(plain_answer(Key::Char('n'), true), PlainAnswer::Cancel);
    assert_eq!(plain_answer(Key::Char('x'), true), PlainAnswer::Nothing);
}

#[test]
fn a_query_bar_keeps_clears_or_types() {
    assert_eq!(query_answer(Key::Enter), QueryAnswer::Keep);
    assert_eq!(query_answer(Key::Esc), QueryAnswer::Clear);
    assert_eq!(query_answer(Key::Char('q')), QueryAnswer::Edit);
}

#[test]
fn the_keys_every_level_shares() {
    assert_eq!(view_key(Level::Repos, Key::Char('q'), false, ctx()), ViewKey::Quit);
    assert_eq!(view_key(Level::Repos, Key::Char(':'), false, ctx()), ViewKey::OpenCommand);
    assert_eq!(view_key(Level::Tags, Key::Char('/'), false, ctx()), ViewKey::Filter(Pane::Top));
    assert_eq!(view_key(Level::Tags, Key::Char('?'), false, ctx()), ViewKey::Filter(Pane::Bottom));
    assert_eq!(view_key(Level::Commits, Key::Char('r'), false, ctx()), ViewKey::Refresh);
    assert_eq!(view_key(Level::Commits, Key::Char('K'), false, ctx()), ViewKey::Inspect);
}

#[test]
fn plain_keys_drive_the_top_pane_and_ctrl_the_one_below() {
    for level in [Level::Repos, Level::Branches, Level::Tags, Level::Commits] {
        assert_eq!(level_key(level, Key::Char('j'), false, ctx()), Act::StepTop(true));
        assert_eq!(level_key(level, Key::Up, false, ctx()), Act::StepTop(false));
        assert_eq!(level_key(level, Key::Char('j'), true, ctx()), Act::StepBottom(true));
        assert_eq!(level_key(level, Key::Char('l'), false, ctx()), Act::Slide(true));
        assert_eq!(level_key(level, Key::Enter, false, ctx()), Act::Open);
        assert_eq!(level_key(level, Key::Esc, false, ctx()), Act::Back);
    }
    let empty = Context { bottom_empty: true, ..ctx() };
    assert_eq!(level_key(Level::Branches, Key::Enter, false, empty), Act::Nothing);
}

#[test]
fn each_level_has_its_own_verbs() {
    assert_eq!(level_key(Level::Repos, Key::Char('s'), false, ctx()), Act::Sync(false));
    assert_eq!(level_key(Level::Repos, Key::Char('S'), false, ctx()), Act::Sync(true));
    assert_eq!(level_key(Level::Branches, Key::Char('d'), false, ctx()), Act::Delete);
    assert_eq!(level_key(Level::Tags, Key::Char('t'), false, ctx()), Act::Track);
    let branch_undo = Context { undo: Some(true), ..ctx() };
    assert_eq!(level_key(Level::Branches, Key::Char('u'), false, branch_undo), Act::Undo);
    assert_eq!(level_key(Level::Tags, Key::Char('u'), false, branch_undo), Act::Nothing);
    let stash = Context { stashes: true, ..ctx() };
    assert_eq!(level_key(Level::Commits, Key::Char('a'), false, stash), Act::ApplyStash(false));
    assert_eq!(level_key(Level::Commits, Key::Char('p'), false, stash), Act::ApplyStash(true));
    assert_eq!(level_key(Level::Commits, Key::Char('d'), false, stash), Act::DropStash);
    assert_eq!(level_key(Level::Commits, Key::Char('l'), false, stash), Act::Nothing);
}

#[test]
fn the_diff_scrolls_pans_and_hands_off() {
    assert_eq!(level_key(Level::Diff, Key::Char('j'), true, ctx()), Act::ScrollDiff(true));
    assert_eq!(level_key(Level::Diff, Key::Char('h'), true, ctx()), Act::PanDiff(false));
    assert_eq!(level_key(Level::Diff, Key::Enter, false, ctx()), Act::Difftool);
    assert_eq!(level_key(Level::Diff, Key::Esc, false, ctx()), Act::Back);
    assert_eq!(level_key(Level::Diff, Key::Char('j'), false, ctx()), Act::Nothing);
}

#[test]
fn only_a_top_pane_move_leaves_a_load_pending() {
    assert!(!settles(Key::Char('j'), false, true));
    assert!(!settles(Key::Char('l'), false, true));
    assert!(settles(Key::Char('j'), true, true));
    assert!(settles(Key::Enter, false, true));
    assert!(!settles(Key::Enter, false, false));
}

#[test]
fn a_filter_narrows_the_list_its_pane_shows() {
    assert_eq!(pane_list(Level::Repos, Pane::Top), Some(List::Repos));
    assert_eq!(pane_list(Level::Repos, Pane::Bottom), Some(List::Branches));
    assert_eq!(pane_list(Level::Tags, Pane::Bottom), Some(List::Commits));
    assert_eq!(pane_list(Level::Commits, Pane::Bottom), Some(List::Files));
    assert_eq!(pane_list(Level::Diff, Pane::Top), None);
    assert_eq!(help_title(Level::Tags), "keys · tags");
}
