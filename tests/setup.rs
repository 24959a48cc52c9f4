use timeguardian::setup::{all_websites, is_affirmative, is_yes, parse_website_file, setup_lists};
use timeguardian::text::trim_str;

#[test]
fn website_file_skips_blank_and_comment_lines() {
    let text = "# social\n  facebook.com  \n\n\treddit.com\r\n   # not this\nx.org";
    assert_eq!(
        parse_website_file(text),
        vec!["facebook.com".to_string(), "reddit.com".to_string(), "x.org".to_string()]
    );
    assert!(parse_website_file("").is_empty());
    assert!(parse_website_file("\n\n#c\n").is_empty());
}

#[test]
fn setup_lists_put_custom_last() {
    let lists = setup_lists(vec!["a.com".to_string()]);
    assert_eq!(lists.len(), 3);
    assert_eq!(lists[0].name, "Social Media");
    assert_eq!(lists[0].websites.len(), 6);
    assert_eq!(lists[1].name, "Entertainment");
    assert_eq!(lists[1].websites[5], "reddit.com");
    assert_eq!(lists[2].name, "Custom Sites");
    assert_eq!(lists[2].websites, vec!["a.com".to_string()]);
}

#[test]
fn all_websites_concatenates_lists() {
    let lists = setup_lists(vec!["a.com".to_string(), "b.com".to_string()]);
    let all = all_websites(&lists);
    assert_eq!(all.len(), 14);
    assert_eq!(all[0], "www.facebook.com");
    assert_eq!(all[13], "b.com");
}

#[test]
fn affirmative_answers() {
    assert!(is_affirmative(" YES\n"));
    assert!(is_affirmative("y"));
    assert!(is_affirmative("Y"));
    assert!(!is_affirmative("no"));
    assert!(!is_affirmative("yess"));
    assert!(is_yes("yes"));
    assert!(!is_yes("YES"));
}

#[test]
fn trim_handles_unicode_white_space() {
    assert_eq!(trim_str("\u{a0} a b \u{2003}\n"), "a b");
    assert_eq!(trim_str("   "), "");
}
