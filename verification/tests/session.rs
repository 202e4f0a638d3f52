use tafl::session::session_id_from_cookie;

#[test]
fn plain_session_cookie() {
    assert_eq!(
        session_id_from_cookie("session_id=abc-123"),
        Some(String::from("abc-123"))
    );
}

#[test]
fn session_cookie_among_others() {
    assert_eq!(
        session_id_from_cookie("theme=dark; session_id=4a1b; lang=en"),
        Some(String::from("4a1b"))
    );
}

#[test]
fn leading_spaces_are_trimmed() {
    assert_eq!(
        session_id_from_cookie("a=b;   session_id=xyz"),
        Some(String::from("xyz"))
    );
}

#[test]
fn first_match_wins() {
    assert_eq!(
        session_id_from_cookie("session_id=first; session_id=second"),
        Some(String::from("first"))
    );
}

#[test]
fn absent_session_cookie() {
    assert_eq!(session_id_from_cookie("theme=dark; lang=en"), None);
    assert_eq!(session_id_from_cookie(""), None);
    // The name must start the segment, not merely occur in it.
    assert_eq!(session_id_from_cookie("x_session_id=1"), None);
}

#[test]
fn empty_value_is_still_a_match() {
    assert_eq!(session_id_from_cookie("session_id="), Some(String::new()));
}

#[test]
fn trailing_spaces_leave_the_value() {
    // Trailing spaces of a segment are trimmed before the value is read.
    assert_eq!(
        session_id_from_cookie("session_id=abc   ; lang=en"),
        Some(String::from("abc"))
    );
}
