use timeguardian::app::{App, TuiMode};
use timeguardian::driver::{Key, KeyOutcome, Prompt};
use timeguardian::store::WebsiteList;
use timeguardian::ui::{TabsState, TimeUnit};

fn valid(app: &App) -> bool {
    match (app.selected_list_index, app.selected_website_index) {
        (None, Some(_)) => false,
        (Some(i), Some(j)) => i < app.website_lists.len() && j < app.website_lists[i].websites.len(),
        (Some(i), None) => i < app.website_lists.len(),
        (None, None) => true,
    }
}

#[test]
fn add_list_trims_selects_and_refuses_duplicates() {
    let mut app = App::new();
    app.add_list("  Work ".to_string());
    assert_eq!(app.website_lists.len(), 1);
    assert_eq!(app.website_lists[0].name, "Work");
    assert_eq!(app.selected_list_index, Some(0));
    assert_eq!(app.selected_website_index, None);
    app.add_list("Work".to_string());
    app.add_list("   ".to_string());
    assert_eq!(app.website_lists.len(), 1);
    app.add_list("work".to_string());
    assert_eq!(app.website_lists.len(), 2);
    assert_eq!(app.selected_list_index, Some(1));
}

#[test]
fn add_website_trims_and_refuses_duplicates() {
    let mut app = App::new();
    app.add_website("a.com".to_string());
    assert!(app.website_lists.is_empty());
    app.add_list("L".to_string());
    app.add_website(" a.com\t".to_string());
    app.add_website("a.com".to_string());
    app.add_website("".to_string());
    app.add_website("b.com".to_string());
    assert_eq!(app.website_lists[0].websites, vec!["a.com".to_string(), "b.com".to_string()]);
    assert_eq!(app.selected_website_index, Some(1));
    assert_eq!(app.current_websites(), vec!["a.com".to_string(), "b.com".to_string()]);
}

#[test]
fn delete_website_reselects() {
    let mut app = App::new();
    app.add_list("L".to_string());
    for d in ["a", "b", "c"] {
        app.add_website(d.to_string());
    }
    app.delete_website();
    assert_eq!(app.website_lists[0].websites, vec!["a".to_string(), "b".to_string()]);
    assert_eq!(app.selected_website_index, Some(1));
    app.selected_website_index = Some(0);
    app.delete_website();
    assert_eq!(app.website_lists[0].websites, vec!["b".to_string()]);
    assert_eq!(app.selected_website_index, Some(0));
    app.delete_website();
    assert!(app.website_lists[0].websites.is_empty());
    assert_eq!(app.selected_website_index, None);
    assert_eq!(app.selected_list_index, Some(0));
}

#[test]
fn delete_list_reselects_and_clears_domain_selection() {
    let mut app = App::new();
    for n in ["A", "B", "C"] {
        app.add_list(n.to_string());
    }
    app.add_website("x.com".to_string());
    assert_eq!(app.selected_website_index, Some(0));
    app.delete_list();
    assert_eq!(app.selected_list_index, Some(1));
    assert_eq!(app.selected_website_index, None);
    app.selected_list_index = Some(0);
    app.delete_list();
    assert_eq!(app.website_lists[0].name, "B");
    assert_eq!(app.selected_list_index, Some(0));
    app.delete_list();
    assert!(app.website_lists.is_empty());
    assert_eq!(app.selected_list_index, None);
    assert!(app.current_website_list().is_none());
}

#[test]
fn selections_stay_valid_through_adds_and_deletes() {
    let mut app = App::new();
    let names = ["A", "B", "A", "C"];
    for (k, n) in names.iter().enumerate() {
        app.add_list(n.to_string());
        assert!(valid(&app));
        app.add_website(format!("{}.com", k));
        assert!(valid(&app));
        if k % 2 == 1 {
            app.delete_website();
            assert!(valid(&app));
            app.delete_list();
            assert!(valid(&app));
        }
    }
    while !app.website_lists.is_empty() {
        app.delete_list();
        assert!(valid(&app));
        assert_eq!(app.selected_website_index, None);
    }
}

#[test]
fn tabs_wrap_both_ways() {
    let mut t = TabsState::new(vec!["One", "Two", "Three"]);
    assert_eq!(t.index, 0);
    t.previous();
    assert_eq!(t.index, 2);
    t.next();
    assert_eq!(t.index, 0);
    t.next();
    assert_eq!(t.index, 1);
}

#[test]
fn timer_steps_and_units() {
    let mut app = App::new();
    assert_eq!(app.get_blocking_milliseconds(), 1_500_000);
    app.increase_time();
    assert_eq!((app.time_value, app.get_blocking_milliseconds()), (30, 1_800_000));
    for _ in 0..40 {
        app.increase_time();
    }
    assert_eq!(app.time_value, 120);
    app.time_value = 5;
    app.decrease_time();
    assert_eq!((app.time_value, app.block_duration_ms), (1, 60_000));
    app.cycle_time_unit();
    assert_eq!((app.time_unit, app.time_value, app.block_duration_ms), (TimeUnit::Hours, 1, 3_600_000));
    app.decrease_time();
    assert_eq!(app.time_value, 1);
    for _ in 0..20 {
        app.increase_time();
    }
    assert_eq!(app.time_value, 8);
    app.cycle_time_unit();
    assert_eq!((app.time_unit, app.time_value, app.block_duration_ms), (TimeUnit::Seconds, 30, 30_000));
    for _ in 0..10 {
        app.increase_time();
    }
    assert_eq!(app.time_value, 60);
    app.time_value = 10;
    app.decrease_time();
    assert_eq!(app.time_value, 5);
    app.cycle_time_unit();
    assert_eq!((app.time_unit, app.time_value), (TimeUnit::Minutes, 25));
}

#[test]
fn keys_drive_lists_and_timer() {
    let mut app = App::new();
    app.init();
    assert_eq!(app.status_message, "Welcome to TimeGuardian! Press '?' for help.");
    assert_eq!(app.handle_key(Key::Char('a'), ""), KeyOutcome::Handled);
    assert_eq!(app.status_message, "Please select a list first");
    assert_eq!(app.handle_key(Key::Char('n'), ""), KeyOutcome::Prompt(Prompt::ListName));
    assert_eq!(app.mode, TuiMode::Editing);
    assert_eq!(app.handle_key(Key::Char('x'), "Wor"), KeyOutcome::EditInput);
    assert_eq!(app.handle_key(Key::Enter, "Work"), KeyOutcome::ClearInput);
    assert_eq!(app.status_message, "List added successfully");
    assert_eq!(app.mode, TuiMode::Normal);
    assert_eq!(app.handle_key(Key::Char('a'), ""), KeyOutcome::Prompt(Prompt::WebsiteUrl));
    assert_eq!(app.handle_key(Key::Enter, ""), KeyOutcome::Handled);
    assert_eq!(app.mode, TuiMode::Editing);
    assert_eq!(app.handle_key(Key::Enter, "a.com"), KeyOutcome::ClearInput);
    assert_eq!(app.status_message, "Website added successfully");
    app.handle_key(Key::Char('a'), "");
    app.handle_key(Key::Enter, "b.com");
    assert_eq!(app.selected_website_index, Some(1));
    app.handle_key(Key::Down, "");
    assert_eq!(app.selected_website_index, Some(0));
    app.handle_key(Key::Up, "");
    assert_eq!(app.selected_website_index, Some(1));
    app.handle_key(Key::Left, "");
    assert_eq!(app.selected_website_index, None);
    app.handle_key(Key::Right, "");
    assert_eq!(app.selected_website_index, Some(0));
    app.handle_key(Key::Char('d'), "");
    assert_eq!(app.status_message, "Website removed");
    assert_eq!(app.current_websites(), vec!["b.com".to_string()]);
    app.handle_key(Key::Tab, "");
    assert_eq!(app.tabs.index, 1);
    app.handle_key(Key::Up, "");
    assert_eq!(app.time_value, 30);
    app.handle_key(Key::Char('t'), "");
    assert_eq!(app.time_unit, TimeUnit::Hours);
    assert_eq!(app.handle_key(Key::Esc, ""), KeyOutcome::Handled);
    assert_eq!(app.handle_key(Key::Enter, ""), KeyOutcome::StartBlocking);
    app.handle_key(Key::Char('?'), "");
    assert_eq!(app.mode, TuiMode::Help);
    app.handle_key(Key::Char('z'), "");
    assert_eq!(app.mode, TuiMode::Help);
    app.handle_key(Key::Esc, "");
    assert_eq!(app.mode, TuiMode::Normal);
    app.handle_key(Key::BackTab, "");
    assert_eq!(app.tabs.index, 0);
    app.handle_key(Key::Char('D'), "");
    assert_eq!(app.status_message, "List removed");
    assert!(app.website_lists.is_empty());
    app.handle_key(Key::Char('q'), "");
    assert!(!app.running);
}

#[test]
fn timer_enter_with_empty_list_reports() {
    let mut app = App::new();
    app.add_list("Empty".to_string());
    app.tabs.next();
    assert_eq!(app.handle_key(Key::Enter, ""), KeyOutcome::Handled);
    assert_eq!(app.status_message, "Selected list has no websites to block");
}

#[test]
fn new_list_prompt_creates_a_list_even_with_one_selected() {
    let mut app = App::new();
    app.add_list("Work".to_string());
    app.add_website("a.com".to_string());
    assert_eq!(app.handle_key(Key::Char('n'), ""), KeyOutcome::Prompt(Prompt::ListName));
    assert_eq!(app.handle_key(Key::Enter, " Home "), KeyOutcome::ClearInput);
    assert_eq!(app.website_lists.len(), 2);
    assert_eq!(app.website_lists[1].name, "Home");
    assert_eq!(app.website_lists[0].websites, vec!["a.com".to_string()]);
    assert_eq!(app.selected_list_index, Some(1));
    assert_eq!(app.status_message, "List added successfully");
    assert_eq!(app.prompt, None);
}

#[test]
fn rejected_adds_report_it() {
    let mut app = App::new();
    app.add_list("Work".to_string());
    app.handle_key(Key::Char('n'), "");
    app.handle_key(Key::Enter, "Work");
    assert_eq!(app.website_lists.len(), 1);
    assert_eq!(app.status_message, "List name is empty or already taken");
    app.handle_key(Key::Char('a'), "");
    app.handle_key(Key::Enter, "a.com");
    app.handle_key(Key::Char('a'), "");
    app.handle_key(Key::Enter, " a.com ");
    assert_eq!(app.website_lists[0].websites.len(), 1);
    assert_eq!(app.status_message, "Website is empty, already listed, or no list is selected");
    app.handle_key(Key::Char('a'), "");
    app.handle_key(Key::Esc, "");
    assert_eq!((app.mode, app.prompt), (TuiMode::Normal, None));
}

#[test]
fn loaded_lists_must_be_clean() {
    let mut app = App::new();
    let good = vec![WebsiteList { name: "A".to_string(), websites: vec!["a.com".to_string()] }];
    assert!(app.set_website_lists(good));
    assert_eq!((app.selected_list_index, app.selected_website_index), (Some(0), Some(0)));
    let mut other = App::new();
    let padded = vec![WebsiteList { name: " A".to_string(), websites: vec![] }];
    assert!(!other.set_website_lists(padded));
    let twice = vec![
        WebsiteList { name: "A".to_string(), websites: vec![] },
        WebsiteList { name: "A".to_string(), websites: vec![] },
    ];
    assert!(!other.set_website_lists(twice));
    let blank = vec![WebsiteList { name: "A".to_string(), websites: vec!["".to_string()] }];
    assert!(!other.set_website_lists(blank));
    assert!(other.website_lists.is_empty());
}

#[test]
fn list_navigation_wraps() {
    let mut app = App::new();
    for n in ["A", "B", "C"] {
        app.add_list(n.to_string());
    }
    app.handle_key(Key::Down, "");
    assert_eq!(app.selected_list_index, Some(0));
    app.handle_key(Key::Up, "");
    assert_eq!(app.selected_list_index, Some(2));
    app.handle_key(Key::Right, "");
    assert_eq!(app.selected_website_index, None);
}
