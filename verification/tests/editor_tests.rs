use hostblock::codec::parse;
use hostblock::domain::{Domain, DomainStatus};
use hostblock::editor::{
    add_char, add_url, attempt_quit, backspace, block_all, delete_selected, handle_key,
    initial_state, move_sel, toggle_block, unblock_all, Key, Mode, Movement, State, Status,
};

fn blocked(name: &str) -> Domain {
    Domain { url: name.to_string(), status: DomainStatus::Blocked }
}

fn two_entry_state() -> State {
    let doc = "### HostBlock\n127.0.0.1\texample.com\n#127.0.0.1\tblocked-off.com\n### End HostBlock\n";
    initial_state(parse(doc).unwrap(), 4)
}

#[test]
fn toggle_unblocks_and_marks_dirty() {
    let s = two_entry_state();
    let t = toggle_block(&s);
    assert_eq!(t.domains[0].url, "example.com");
    assert_eq!(t.domains[0].status, DomainStatus::Unblocked);
    assert_eq!(t.domains[1].url, "blocked-off.com");
    assert_eq!(t.domains[1].status, DomainStatus::Unblocked);
    assert_eq!(t.status, Status::Dirty);
}

#[test]
fn toggle_reblocking_keeps_a_clean_state_clean() {
    let mut s = two_entry_state();
    s.selected = 1;
    let t = toggle_block(&s);
    assert_eq!(t.domains[1].status, DomainStatus::Blocked);
    assert_eq!(t.status, Status::Clean);
}

#[test]
fn add_appends_blocked_entry_and_leaves_dirty_alone() {
    let s = two_entry_state();
    let t = add_url(&s, "new.com");
    assert_eq!(t.domains.len(), 3);
    assert_eq!(t.domains[2].url, "new.com");
    assert_eq!(t.domains[2].status, DomainStatus::Blocked);
    assert_eq!(t.status, Status::Clean);
    assert_eq!(t.domains[0].url, "example.com");
    assert_eq!(t.domains[1].url, "blocked-off.com");
}

#[test]
fn remove_clamps_selection_and_marks_dirty() {
    let mut s = two_entry_state();
    s.selected = 1;
    let t = delete_selected(&s);
    assert_eq!(t.domains.len(), 1);
    assert_eq!(t.domains[0].url, "example.com");
    assert_eq!(t.selected, 0);
    assert_eq!(t.status, Status::Dirty);
}

#[test]
fn delete_on_empty_list_is_a_no_op() {
    let s = initial_state(Vec::new(), 4);
    let t = delete_selected(&s);
    assert_eq!(t.domains.len(), 0);
    assert_eq!(t.status, Status::Clean);
}

#[test]
fn movement_wraps_around() {
    let s = two_entry_state();
    assert_eq!(move_sel(&s, Movement::Down).selected, 1);
    assert_eq!(move_sel(&move_sel(&s, Movement::Down), Movement::Down).selected, 0);
    assert_eq!(move_sel(&s, Movement::Up).selected, 1);
    assert_eq!(move_sel(&s, Movement::Bottom).selected, 1);
    assert_eq!(move_sel(&move_sel(&s, Movement::Bottom), Movement::Top).selected, 0);
}

#[test]
fn movement_on_empty_list_is_a_no_op() {
    let s = initial_state(Vec::new(), 4);
    assert_eq!(move_sel(&s, Movement::Down).selected, 0);
    assert_eq!(move_sel(&s, Movement::Bottom).selected, 0);
}

#[test]
fn quit_from_clean_normal_terminates_at_once() {
    let s = two_entry_state();
    let (quit, t) = handle_key(Key::Char('q'), &s);
    assert!(quit);
    assert_eq!(t.mode, Mode::Normal);
}

#[test]
fn quit_from_dirty_normal_enters_password_mode() {
    let s = toggle_block(&two_entry_state());
    assert_eq!(s.status, Status::Dirty);
    let (quit, t) = handle_key(Key::Char('q'), &s);
    assert!(!quit);
    assert_eq!(t.mode, Mode::Password);
    assert!(!t.correct_pass.is_empty());
}

#[test]
fn session_ends_only_on_the_exact_challenge() {
    let dirty = toggle_block(&two_entry_state());
    let (_, mut s) = attempt_quit(&dirty);
    assert_eq!(s.mode, Mode::Password);
    // a wrong attempt clears the typed text and stays in Password mode
    let (quit, t) = handle_key(Key::Char('x'), &s);
    assert!(!quit);
    let (quit, t) = handle_key(Key::Enter, &t);
    assert!(!quit);
    assert_eq!(t.mode, Mode::Password);
    assert_eq!(t.pass_input, "");
    // retyping the challenge exactly ends the session
    let challenge = s.correct_pass.clone();
    for c in challenge.chars() {
        let (quit, next) = handle_key(Key::Char(c), &s);
        assert!(!quit);
        s = next;
    }
    let (quit, _) = handle_key(Key::Enter, &s);
    assert!(quit);
}

#[test]
fn password_cancel_aborts_the_quit() {
    let dirty = toggle_block(&two_entry_state());
    let (_, s) = attempt_quit(&dirty);
    let (quit, t) = handle_key(Key::Char('a'), &s);
    assert!(!quit);
    let (quit, t) = handle_key(Key::Esc, &t);
    assert!(!quit);
    assert_eq!(t.mode, Mode::Normal);
    assert_eq!(t.pass_input, "");
}

#[test]
fn insert_flow_adds_the_typed_name() {
    let s = two_entry_state();
    let (_, s) = handle_key(Key::Char('i'), &s);
    assert_eq!(s.mode, Mode::Insert);
    let (_, s) = handle_key(Key::Char('n'), &s);
    let (_, s) = handle_key(Key::Char('e'), &s);
    let (_, s) = handle_key(Key::Char('w'), &s);
    let (_, s) = handle_key(Key::Backspace, &s);
    let (_, s) = handle_key(Key::Char('w'), &s);
    assert_eq!(s.adding, "new");
    let (quit, s) = handle_key(Key::Enter, &s);
    assert!(!quit);
    assert_eq!(s.mode, Mode::Normal);
    assert_eq!(s.adding, "");
    assert_eq!(s.domains.len(), 3);
    assert_eq!(s.domains[2].url, "new");
}

#[test]
fn insert_enter_on_empty_draft_adds_nothing() {
    let s = two_entry_state();
    let (_, s) = handle_key(Key::Char('i'), &s);
    let (_, s) = handle_key(Key::Enter, &s);
    assert_eq!(s.mode, Mode::Normal);
    assert_eq!(s.domains.len(), 2);
}

#[test]
fn insert_cancel_discards_the_draft() {
    let s = two_entry_state();
    let (_, s) = handle_key(Key::Char('i'), &s);
    let (_, s) = handle_key(Key::Char('x'), &s);
    let (_, s) = handle_key(Key::Esc, &s);
    assert_eq!(s.mode, Mode::Normal);
    assert_eq!(s.adding, "");
    assert_eq!(s.domains.len(), 2);
}

#[test]
fn backspace_on_empty_draft_is_a_no_op() {
    let s = two_entry_state();
    let t = backspace(&s);
    assert_eq!(t.adding, "");
}

#[test]
fn add_char_appends_to_the_draft() {
    let s = two_entry_state();
    let t = add_char(&add_char(&s, 'a'), 'b');
    assert_eq!(t.adding, "ab");
}

#[test]
fn help_overlay_toggles_the_list_live() {
    let s = two_entry_state();
    let (_, s) = handle_key(Key::Char('h'), &s);
    assert_eq!(s.mode, Mode::Help);
    let (quit, s) = handle_key(Key::Char(' '), &s);
    assert!(!quit);
    assert_eq!(s.mode, Mode::Help);
    assert_eq!(s.domains[0].status, DomainStatus::Unblocked);
    assert_eq!(s.status, Status::Dirty);
    let (quit, s) = handle_key(Key::Char('q'), &s);
    assert!(!quit);
    assert_eq!(s.mode, Mode::Normal);
}

#[test]
fn help_navigation_moves_the_selection() {
    let s = two_entry_state();
    let (_, s) = handle_key(Key::Char('h'), &s);
    let (_, s) = handle_key(Key::Char('j'), &s);
    assert_eq!(s.selected, 1);
}

#[test]
fn block_all_blocks_every_entry_without_marking_dirty() {
    let s = two_entry_state();
    let t = block_all(s);
    assert_eq!(t.domains[0].status, DomainStatus::Blocked);
    assert_eq!(t.domains[1].status, DomainStatus::Blocked);
    assert_eq!(t.status, Status::Clean);
}

#[test]
fn unblock_all_unblocks_and_routes_through_password_mode() {
    let s = two_entry_state();
    let t = unblock_all(s);
    assert_eq!(t.domains[0].status, DomainStatus::Unblocked);
    assert_eq!(t.domains[1].status, DomainStatus::Unblocked);
    assert_eq!(t.status, Status::Dirty);
    assert_eq!(t.mode, Mode::Password);
    assert!(!t.correct_pass.is_empty());
}

#[test]
fn list_remove_on_empty_list_is_an_error() {
    let empty: Vec<Domain> = Vec::new();
    assert!(matches!(
        hostblock::list::remove(&empty, 0),
        Err(hostblock::list::ListError::IndexOutOfRange)
    ));
}

#[test]
fn list_toggle_out_of_range_is_an_error() {
    let one = vec![blocked("a.com")];
    assert!(matches!(
        hostblock::list::toggle(&one, 1),
        Err(hostblock::list::ListError::IndexOutOfRange)
    ));
}

#[test]
fn list_remove_keeps_the_order_of_the_rest() {
    let three = vec![blocked("a.com"), blocked("b.com"), blocked("c.com")];
    let out = hostblock::list::remove(&three, 1).unwrap();
    assert_eq!(out.len(), 2);
    assert_eq!(out[0].url, "a.com");
    assert_eq!(out[1].url, "c.com");
}

#[test]
fn gen_pass_draws_distinct_words_from_the_list() {
    let phrase = hostblock::pass::gen_pass(4);
    let words: Vec<&str> = phrase.split(' ').collect();
    assert_eq!(words.len(), 4);
    for (i, w) in words.iter().enumerate() {
        assert!(!w.is_empty());
        for v in words.iter().skip(i + 1) {
            assert_ne!(w, v);
        }
    }
}

#[test]
fn gen_pass_word_count_is_capped_by_the_list() {
    let phrase = hostblock::pass::gen_pass(100);
    let words: Vec<&str> = phrase.split(' ').collect();
    assert_eq!(words.len(), 15);
}
