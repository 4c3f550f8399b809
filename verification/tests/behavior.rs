use mdbook_emojicodes::{
    get_custom_emoji, preprocessor_name, process_line, replace_emoji_shortcode,
    supports_renderer, symbol_name_of_filename,
};

#[test]
fn custom_symbol_resolves_against_registry() {
    let registry = vec!["paw".to_string()];
    let input = "a :paw: print";
    let expected = "a <object style=\"height:2.5rem; width:2.5rem;position:relative;top:0.5em;\" data=\"custom_emojis/paw.svg\" type=\"image/svg+xml\"></object> print";
    assert_eq!(expected, replace_emoji_shortcode(input, &registry));
}

#[test]
fn custom_symbol_passes_through_with_empty_registry() {
    let input = "a :paw: print";
    assert_eq!(input, replace_emoji_shortcode(input, &vec![]));
}

#[test]
fn builtin_resolution_takes_precedence_over_custom() {
    let registry = vec!["cat".to_string()];
    let input = "a :cat: here";
    assert_eq!("a 🐱 here", replace_emoji_shortcode(input, &registry));
}

#[test]
fn duplicate_registry_entries_behave_as_one_name() {
    let once = vec!["paw".to_string()];
    let twice = vec!["paw".to_string(), "paw".to_string()];
    let input = "a :paw: print";
    assert_eq!(
        replace_emoji_shortcode(input, &once),
        replace_emoji_shortcode(input, &twice)
    );
}

#[test]
fn empty_name_shortcode_passes_through() {
    let input = "an empty :: token";
    assert_eq!(input, replace_emoji_shortcode(input, &vec![]));
}

#[test]
fn nongreedy_token_scan_resumes_after_each_token() {
    // ":aa:b:" holds the token ":aa:" and then scanning resumes after it,
    // so ":b:" is not a token of this line.
    let registry = vec!["aa".to_string()];
    let input = ":aa:b:";
    let expected = "<object style=\"height:2.5rem; width:2.5rem;position:relative;top:0.5em;\" data=\"custom_emojis/aa.svg\" type=\"image/svg+xml\"></object>b:";
    assert_eq!(expected, process_line(input, &registry));
}

#[test]
fn closing_fence_line_is_rewritten() {
    // The fence state returns to zero on the closing line itself, so text
    // after the closing backticks is rewritten.
    let input = "a :cat:\n```\n:cat: inside\n``` tail :cat:";
    let expected = "a 🐱\n```\n:cat: inside\n``` tail 🐱";
    assert_eq!(expected, replace_emoji_shortcode(input, &vec![]));
}

#[test]
fn two_backticks_do_not_open_a_fence() {
    let input = "``\na :cat: here\n``";
    let expected = "``\na 🐱 here\n``";
    assert_eq!(expected, replace_emoji_shortcode(input, &vec![]));
}

#[test]
fn crlf_line_endings_are_normalized() {
    let input = "a :cat:\r\nplain";
    let expected = "a 🐱\nplain";
    assert_eq!(expected, replace_emoji_shortcode(input, &vec![]));
}

#[test]
fn trailing_whitespace_is_trimmed() {
    let input = "a line  \n\n";
    assert_eq!("a line", replace_emoji_shortcode(input, &vec![]));
}

#[test]
fn empty_document_stays_empty() {
    assert_eq!("", replace_emoji_shortcode("", &vec![]));
}

#[test]
fn process_line_replaces_every_occurrence_from_one_resolution() {
    let out = process_line("cats :cat: and :cat: again", &vec![]);
    assert_eq!("cats 🐱 and 🐱 again", out);
}

#[test]
fn get_custom_emoji_builds_the_embed_fragment() {
    let registry = vec!["ferris".to_string(), "paw".to_string()];
    let got = get_custom_emoji("paw", &registry);
    assert_eq!(
        Some(
            "<object style=\"height:2.5rem; width:2.5rem;position:relative;top:0.5em;\" data=\"custom_emojis/paw.svg\" type=\"image/svg+xml\"></object>"
                .to_string()
        ),
        got
    );
    assert_eq!(None, get_custom_emoji("lion", &registry));
    assert_eq!(None, get_custom_emoji("paw", &vec![]));
}

#[test]
fn symbol_names_come_from_svg_file_names() {
    assert_eq!(
        Some("paw".to_string()),
        symbol_name_of_filename("paw.svg")
    );
    assert_eq!(None, symbol_name_of_filename("paw.png"));
    assert_eq!(None, symbol_name_of_filename("svg"));
    assert_eq!(Some("".to_string()), symbol_name_of_filename(".svg"));
    assert_eq!(
        Some("name.with.dots".to_string()),
        symbol_name_of_filename("name.with.dots.svg")
    );
}

#[test]
fn renderer_support_denies_exactly_one_name() {
    assert!(supports_renderer("html"));
    assert!(supports_renderer("linkcheck"));
    assert!(!supports_renderer("not-supported"));
}

#[test]
fn preprocessor_registers_under_its_name() {
    assert_eq!("mdbook-emojicodes", preprocessor_name());
}
