use doki_bot::rules::{rewrite_chars, rule_end_at, Rule};

fn apply(r: Rule, s: &str) -> String {
    rewrite_chars(r, &s.chars().collect()).into_iter().collect()
}

#[test]
fn spaces_rule_takes_three_then_two() {
    assert_eq!(apply(Rule::Spaces, "a    b"), "a  b");
    assert_eq!(apply(Rule::Spaces, "a     b"), "a  b");
    assert_eq!(apply(Rule::Spaces, "a  b   c"), "a b c");
}

#[test]
fn capital_rule_needs_a_lower_case_follower() {
    assert_eq!(apply(Rule::Capital, "ABc Ab A- A"), "Abc ab a- A");
}

#[test]
fn emote_rules_need_complete_markup() {
    assert_eq!(apply(Rule::Emote, "<:a_b:12>x<:c:>"), " x<:c:>");
    assert_eq!(apply(Rule::AnimatedEmote, "<a:wave:7><a:wave:>"), " <a:wave:>");
    assert_eq!(apply(Rule::Emote, "<a:wave:7>"), "<a:wave:7>");
}

#[test]
fn role_rule_needs_digits() {
    assert_eq!(apply(Rule::RoleMention, "<@&1><@&>"), " <@&>");
}

#[test]
fn snowflake_rule_needs_whole_tokens() {
    assert_eq!(apply(Rule::Snowflake, "x123456789012345678 123456789012345678\t"), "x123456789012345678 \t");
}

#[test]
fn symbol_and_line_feed_rules() {
    assert_eq!(apply(Rule::Symbol, "a<b>c:d"), "a b c d");
    assert_eq!(apply(Rule::LineFeed, "a\n\nb"), "ab");
}

#[test]
fn rule_end_reports_match_end() {
    let s: Vec<char> = "<:x:1> y".chars().collect();
    assert_eq!(rule_end_at(Rule::Emote, &s, 0), Some(6));
    assert_eq!(rule_end_at(Rule::Emote, &s, 1), None);
}
