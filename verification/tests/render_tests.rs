use hostblock::codec::parse;
use hostblock::domain::{Domain, DomainStatus};
use hostblock::editor::{initial_state, Mode};
use hostblock::render::{
    last_n_chars, make_bottom, make_label, render_domain, render_plan, str_repeat, truncate,
};
use hostblock::session::{plan_startup, StartupNotice};

#[test]
fn render_domain_shows_the_block_state() {
    let b = Domain { url: "example.com".to_string(), status: DomainStatus::Blocked };
    let u = Domain { url: "other.com".to_string(), status: DomainStatus::Unblocked };
    assert_eq!(render_domain(&b), "[x] example.com");
    assert_eq!(render_domain(&u), "[ ] other.com");
}

#[test]
fn str_repeat_repeats() {
    assert_eq!(str_repeat("ab".to_string(), 3), "ababab");
    assert_eq!(str_repeat("ab".to_string(), 0), "");
}

#[test]
fn make_label_draws_a_titled_top_border() {
    let label = make_label("Domains");
    let expected = format!("\u{250c}\u{2500}Domains{}\u{2510}", "\u{2500}".repeat(45));
    assert_eq!(label, expected);
    assert_eq!(label.chars().count(), 55);
}

#[test]
fn make_bottom_draws_the_bottom_border() {
    let bottom = make_bottom();
    let expected = format!("\u{2514}{}\u{2518}", "\u{2500}".repeat(53));
    assert_eq!(bottom, expected);
    assert_eq!(bottom.chars().count(), 55);
}

#[test]
fn truncate_keeps_short_strings() {
    assert_eq!(truncate("short", 33), "short");
}

#[test]
fn truncate_cuts_long_strings_with_an_ellipsis() {
    assert_eq!(truncate("abcdefghij", 5), "ab...");
}

#[test]
fn last_n_chars_keeps_short_strings() {
    assert_eq!(last_n_chars("short", 50), "short");
}

#[test]
fn last_n_chars_keeps_the_tail() {
    assert_eq!(last_n_chars("abcdefghij", 4), "ghij");
}

#[test]
fn normal_plan_lists_domains_and_highlights_the_selection() {
    let doc = "### HostBlock\n127.0.0.1\texample.com\n#127.0.0.1\tblocked-off.com\n### End HostBlock\n";
    let mut state = initial_state(parse(doc).unwrap(), 4);
    state.selected = 1;
    let plan = render_plan(&state);
    // a label, three spans per domain, and a bottom border
    assert_eq!(plan.len(), 1 + 3 * 2 + 1);
    assert_eq!(plan[0].text, make_label("Domains"));
    assert_eq!(plan[2].text, "[x] example.com");
    assert_eq!(plan[2].y, 1);
    assert!(!plan[2].inverted);
    assert_eq!(plan[5].text, "[ ] blocked-off.com");
    assert_eq!(plan[5].y, 2);
    assert!(plan[5].inverted);
    assert_eq!(plan[7].text, make_bottom());
    assert_eq!(plan[7].y, 3);
}

#[test]
fn normal_plan_on_an_empty_list_shows_a_hint() {
    let state = initial_state(Vec::new(), 4);
    let plan = render_plan(&state);
    assert_eq!(plan.len(), 1);
    assert_eq!(plan[0].text, "No domains, hit i to enter insert mode");
}

#[test]
fn normal_plan_truncates_long_names() {
    let long = "a-very-long-domain-name-that-does-not-fit-the-box.example.com";
    let ds = vec![Domain { url: long.to_string(), status: DomainStatus::Blocked }];
    let state = initial_state(ds, 4);
    let plan = render_plan(&state);
    assert_eq!(plan[2].text.chars().count(), 33);
    assert!(plan[2].text.ends_with("..."));
}

#[test]
fn insert_plan_shows_the_draft_and_the_cursor() {
    let doc = "### HostBlock\n127.0.0.1\texample.com\n### End HostBlock\n";
    let mut state = initial_state(parse(doc).unwrap(), 4);
    state.mode = Mode::Insert;
    state.adding = "new".to_string();
    let plan = render_plan(&state);
    assert_eq!(plan[0].text, make_label("Add domain"));
    assert_eq!(plan[2].text, "new");
    assert_eq!(plan[3].text, "_");
    assert_eq!(plan[3].x, 5);
    assert_eq!(plan[6].text, "Press enter to finish.");
}

#[test]
fn password_plan_shows_the_challenge_to_retype() {
    let doc = "### HostBlock\n127.0.0.1\texample.com\n### End HostBlock\n";
    let mut state = initial_state(parse(doc).unwrap(), 4);
    state.mode = Mode::Password;
    state.correct_pass = "dilate indict".to_string();
    let plan = render_plan(&state);
    assert_eq!(plan[0].text, make_label("Type the passphrase below to save"));
    assert_eq!(plan[2].text, "dilate indict");
}

#[test]
fn help_plan_lists_the_key_bindings() {
    let state = initial_state(Vec::new(), 4);
    let mut state = state;
    state.mode = Mode::Help;
    let plan = render_plan(&state);
    assert_eq!(plan[0].text, make_label("Help"));
    assert_eq!(plan[2].text, "j - down");
    assert_eq!(plan.len(), 1 + 9 * 3 + 1);
    assert_eq!(plan[plan.len() - 1].y, 10);
}

#[test]
fn startup_help_flag_wins_and_skips_the_menu() {
    let state = initial_state(Vec::new(), 4);
    let (menu, _, notice) = plan_startup(state, true, true, true, true);
    assert!(!menu);
    assert!(matches!(notice, StartupNotice::Usage));
}

#[test]
fn startup_block_flag_blocks_without_a_menu() {
    let ds = vec![Domain { url: "a.com".to_string(), status: DomainStatus::Unblocked }];
    let state = initial_state(ds, 4);
    let (menu, state, notice) = plan_startup(state, false, true, false, true);
    assert!(!menu);
    assert!(matches!(notice, StartupNotice::HostsBlocked));
    assert_eq!(state.domains[0].status, DomainStatus::Blocked);
}

#[test]
fn startup_unblock_routes_through_password_mode() {
    let ds = vec![Domain { url: "a.com".to_string(), status: DomainStatus::Blocked }];
    let state = initial_state(ds, 4);
    let (menu, state, notice) = plan_startup(state, false, false, true, true);
    assert!(menu);
    assert!(matches!(notice, StartupNotice::NoNotice));
    assert_eq!(state.domains[0].status, DomainStatus::Unblocked);
    assert_eq!(state.mode, Mode::Password);
}

#[test]
fn startup_unblock_refused_when_not_permitted() {
    let ds = vec![Domain { url: "a.com".to_string(), status: DomainStatus::Blocked }];
    let state = initial_state(ds, 4);
    let (menu, state, notice) = plan_startup(state, false, false, true, false);
    assert!(!menu);
    assert!(matches!(notice, StartupNotice::UnblockDisabled));
    assert_eq!(state.domains[0].status, DomainStatus::Blocked);
}

#[test]
fn startup_without_flags_runs_the_menu() {
    let state = initial_state(Vec::new(), 4);
    let (menu, _, notice) = plan_startup(state, false, false, false, false);
    assert!(menu);
    assert!(matches!(notice, StartupNotice::NoNotice));
}
