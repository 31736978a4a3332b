//! The allowlist of reward tokens.
use mergemint_backend::allowlist::reward_token_allowlist_is_empty;

#[test]
fn empty_allowlist_detection_handles_unset_empty_and_commas() {
    assert!(reward_token_allowlist_is_empty(""));
    assert!(reward_token_allowlist_is_empty(" , , "));
    assert!(!reward_token_allowlist_is_empty("native"));
    assert!(!reward_token_allowlist_is_empty(" , native , "));
}

#[test]
fn other_separators_are_tokens() {
    assert!(!reward_token_allowlist_is_empty(";"));
    assert!(!reward_token_allowlist_is_empty(" , . , "));
    assert!(reward_token_allowlist_is_empty("\t,\n,\r\n,"));
    assert!(reward_token_allowlist_is_empty(","));
}

#[test]
fn every_character_is_white_space_a_comma_or_a_token() {
    let white: [char; 25] = [
        '\u{9}', '\u{a}', '\u{b}', '\u{c}', '\u{d}', '\u{20}', '\u{85}', '\u{a0}', '\u{1680}',
        '\u{2000}', '\u{2001}', '\u{2002}', '\u{2003}', '\u{2004}', '\u{2005}', '\u{2006}',
        '\u{2007}', '\u{2008}', '\u{2009}', '\u{200a}', '\u{2028}', '\u{2029}', '\u{202f}',
        '\u{205f}', '\u{3000}',
    ];
    for c in '\u{0}'..=char::MAX {
        let separator = c == ',' || white.contains(&c);
        assert_eq!(reward_token_allowlist_is_empty(&c.to_string()), separator);
        let trimmed_away = c.to_string().split(',').all(|token| token.trim().is_empty());
        assert_eq!(separator, trimmed_away);
    }
}
