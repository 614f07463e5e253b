//! End-to-end behaviour of the transform pipeline on whole documents.

use lowc::chars_of;
use lowc::with_builtin_tags;
use lowc::ConfigError;
use lowc::LowC;
use lowc::MentionEntry;

const HEADER_BLOCK: &str = r#"
            <meta charset="UTF-8" />
            <meta name="viewport" content="width=device-width, initial-scale=1.0" />
            <meta http-equiv="X-UA-Compatible" content="IE=edge" />

            <!-- Google, please don't mess with my lovingly handcrafted HTML -->
            <meta name="googlebot" content="notranslate">
        "#;

fn run(input: &str) -> String {
    let lowc = with_builtin_tags().expect("built-in tag vocabulary must register");
    let none: Vec<MentionEntry> = Vec::new();
    lowc.transform(chars_of(input), &none).iter().collect()
}

fn run_with(input: &str, entries: &Vec<MentionEntry>) -> String {
    let lowc = with_builtin_tags().expect("built-in tag vocabulary must register");
    lowc.transform(chars_of(input), entries).iter().collect()
}

#[test]
fn d_tag_wraps_inner_text() {
    assert_eq!(run("<d>hello</d>"), "<strong><dfn>hello</dfn></strong>");
}

#[test]
fn t_tag_wraps_inner_text() {
    assert_eq!(run("see <t>Moby-Dick</t>."), "see <strong><cite>Moby-Dick</cite></strong>.");
}

#[test]
fn link_tag_becomes_anchor() {
    assert_eq!(
        run("<link href=\"https://x.test\">click</link>"),
        "<a href=\"https://x.test\">click</a>"
    );
}

#[test]
fn tube_tag_without_slash() {
    assert_eq!(
        run("<tube watch=\"abc123\">"),
        "<iframe src=\"https://yewtu.be/embed/abc123\"></iframe>"
    );
}

#[test]
fn tube_tag_with_slash() {
    assert_eq!(
        run("<tube watch=\"abc123\" />"),
        "<iframe src=\"https://yewtu.be/embed/abc123\"></iframe>"
    );
}

#[test]
fn button_tag_becomes_badge() {
    assert_eq!(
        run("<button src=\"badge.gif\">"),
        "<img src=\"badge.gif\" class=\"button\" width=\"88\" height=\"31\" alt=\"Button\">"
    );
}

#[test]
fn picture_without_caption() {
    assert_eq!(run("<picture src=\"a.png\">"), "<figure><img src=\"a.png\"></figure>");
}

#[test]
fn picture_with_caption() {
    assert_eq!(
        run("<picture src=\"a.png\" caption=\"A cap\">"),
        "<figure><img src=\"a.png\" alt=\"A cap\"><figcaption>A cap</figcaption></figure>"
    );
}

#[test]
fn header_injected_after_first_head_only() {
    let out = run("<html><head></head><p><head></p>");
    let expected = format!("<html><head>{}</head><p><head></p>", HEADER_BLOCK);
    assert_eq!(out, expected);
}

#[test]
fn no_head_token_means_no_injection() {
    assert_eq!(run("<p>fragment without a head element</p>"), "<p>fragment without a head element</p>");
}

#[test]
fn head_must_match_exactly() {
    assert_eq!(run("<header>x</header>"), "<header>x</header>");
}

#[test]
fn multi_line_inner_content_is_captured() {
    assert_eq!(
        run("<d>first line\nsecond line</d>"),
        "<strong><dfn>first line\nsecond line</dfn></strong>"
    );
}

#[test]
fn unclosed_paired_tag_is_left_alone() {
    assert_eq!(run("<d>hello"), "<d>hello");
}

#[test]
fn unclosed_attribute_value_is_left_alone() {
    assert_eq!(run("<link href=\"oops>click</link>"), "<link href=\"oops>click</link>");
}

#[test]
fn empty_attribute_value_is_captured() {
    assert_eq!(run("<link href=\"\">x</link>"), "<a href=\"\">x</a>");
}

#[test]
fn whitespace_tolerated_before_closing_bracket() {
    assert_eq!(
        run("<tube watch=\"v1\"   />"),
        "<iframe src=\"https://yewtu.be/embed/v1\"></iframe>"
    );
    assert_eq!(run("<d >x</d >"), "<strong><dfn>x</dfn></strong>");
}

#[test]
fn two_tags_in_one_document() {
    assert_eq!(
        run("<d>a</d> and <d>b</d>"),
        "<strong><dfn>a</dfn></strong> and <strong><dfn>b</dfn></strong>"
    );
}

#[test]
fn pipeline_twice_on_plain_text_is_noop() {
    let input = "just text, no tags at all.";
    let once = run(input);
    assert_eq!(once, input);
    let twice = run(&once);
    assert_eq!(twice, input);
}

#[test]
fn later_rule_may_match_earlier_replacement() {
    // Rule order is observable: the first rule's replacement text is a
    // tag that the second rule then rewrites in its own pass.
    let mut lowc = LowC::new();
    lowc.add_simple_tag(&["d"], "<t>$1</t>").unwrap();
    lowc.add_simple_tag(&["t"], "<cite>$1</cite>").unwrap();
    let none: Vec<MentionEntry> = Vec::new();
    let out: String = lowc.transform(chars_of("<d>x</d>"), &none).iter().collect();
    assert_eq!(out, "<cite>x</cite>");
}

#[test]
fn empty_shape_is_rejected() {
    let mut lowc = LowC::new();
    assert_eq!(lowc.add_simple_tag(&[], "anything"), Err(ConfigError::EmptyShape));
    assert_eq!(lowc.add_empty_tag(&[], "anything"), Err(ConfigError::EmptyShape));
    assert!(matches!(lowc::compile_pattern(&[], true), Err(ConfigError::EmptyShape)));
}

#[test]
fn template_capture_out_of_range_is_rejected() {
    let mut lowc = LowC::new();
    // A paired tag without attributes declares one capture; $2 is out of range.
    assert_eq!(lowc.add_simple_tag(&["d"], "<x>$2</x>"), Err(ConfigError::CaptureOutOfRange(2)));
    // A self-closing tag with one attribute declares one capture.
    assert_eq!(
        lowc.add_empty_tag(&["tube", "watch"], "$1 then $3"),
        Err(ConfigError::CaptureOutOfRange(3))
    );
    // $0 never names a capture.
    assert_eq!(lowc.add_simple_tag(&["d"], "$0"), Err(ConfigError::CaptureOutOfRange(0)));
}

#[test]
fn dollar_without_digit_stays_literal() {
    let mut lowc = LowC::new();
    lowc.add_simple_tag(&["d"], "$ or $x or $1").unwrap();
    let none: Vec<MentionEntry> = Vec::new();
    let out: String = lowc.transform(chars_of("<d>y</d>"), &none).iter().collect();
    assert_eq!(out, "$ or $x or y");
}

#[test]
fn back_reference_is_one_digit() {
    // `$12` reads as capture 1 followed by a literal `2`.
    let mut lowc = LowC::new();
    lowc.add_simple_tag(&["d"], "$12").unwrap();
    let none: Vec<MentionEntry> = Vec::new();
    let out: String = lowc.transform(chars_of("<d>y</d>"), &none).iter().collect();
    assert_eq!(out, "y2");
}

#[test]
fn head_token_alone_gets_block_appended() {
    let out = run("<head>");
    let expected = format!("<head>{}", HEADER_BLOCK);
    assert_eq!(out, expected);
}

#[test]
fn mention_replaced_using_config_entry() {
    let entries = vec![MentionEntry {
        handle: String::from("alice"),
        site: String::from("https://alice.example"),
        mention: true,
    }];
    assert_eq!(
        run_with("hello @alice", &entries),
        "hello <a href=\"https://alice.example\" data-handle=\"alice\" data-mention=\"true\" class=\"u-in-reply-to\">@alice</a>"
    );
}

#[test]
fn mention_flag_false_is_written_out() {
    let entries = vec![MentionEntry {
        handle: String::from("bob"),
        site: String::from("https://bob.example"),
        mention: false,
    }];
    assert_eq!(
        run_with("@bob", &entries),
        "<a href=\"https://bob.example\" data-handle=\"bob\" data-mention=\"false\" class=\"u-in-reply-to\">@bob</a>"
    );
}

#[test]
fn mention_passes_through_without_config() {
    assert_eq!(run("hello @alice"), "hello @alice");
}

#[test]
fn mention_handle_is_matched_as_whole_token() {
    // `alice` is a prefix of `alice2`: the boundary rule keeps the
    // shorter handle from matching inside the longer token.
    let entries = vec![MentionEntry {
        handle: String::from("alice"),
        site: String::from("https://alice.example"),
        mention: false,
    }];
    assert_eq!(run_with("ping @alice2", &entries), "ping @alice2");
    assert_eq!(
        run_with("ping @alice!", &entries),
        "ping <a href=\"https://alice.example\" data-handle=\"alice\" data-mention=\"false\" class=\"u-in-reply-to\">@alice</a>!"
    );
}

#[test]
fn mentions_run_before_tag_rules() {
    // An `@handle` introduced by a tag's replacement text is not
    // re-read as a mention: mentions run first, over the original text.
    let mut lowc = LowC::new();
    lowc.add_simple_tag(&["d"], "<a href=\"mail@alice.example\">$1</a>").unwrap();
    let entries = vec![MentionEntry {
        handle: String::from("alice"),
        site: String::from("https://a.example"),
        mention: false,
    }];
    let out: String = lowc.transform(chars_of("<d>x</d>"), &entries).iter().collect();
    assert_eq!(out, "<a href=\"mail@alice.example\">x</a>");
}
