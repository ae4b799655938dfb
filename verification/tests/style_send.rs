use magenta_dj::style_send::{StyleSender, SEND_WINDOW_MS};

fn payload(text: &str) -> Option<String> {
    Some(text.to_string())
}

#[test]
fn a_discrete_edit_sends_at_once_and_an_unchanged_blend_never_resends() {
    let mut s = StyleSender::new();
    assert!(s.observe(0, payload("blend-1"), false, false));
    assert_eq!(s.next_due(1000), Some(1000));
    assert_eq!(s.flush(1000), vec![(0, "blend-1".to_string())]);
    // Unrelated store churn with the same payload: nothing owed.
    assert!(!s.observe(0, payload("blend-1"), false, false));
    assert_eq!(s.next_due(1001), None);
}

#[test]
fn a_drag_coalesces_onto_the_trailing_edge() {
    let mut s = StyleSender::new();
    s.observe(0, payload("a"), false, false);
    s.flush(0);
    s.observe(0, payload("b"), false, false);
    s.observe(0, payload("c"), false, false);
    // Inside the window nothing goes; the latest blend goes when it closes.
    assert_eq!(s.next_due(10), Some(SEND_WINDOW_MS));
    assert!(s.flush(10).is_empty());
    assert_eq!(s.flush(SEND_WINDOW_MS), vec![(0, "c".to_string())]);
}

#[test]
fn an_empty_pad_sends_nothing_and_a_dead_worker_waits_for_ready() {
    let mut s = StyleSender::new();
    assert!(!s.observe(1, None, false, false));
    assert!(!s.observe(1, payload("x"), true, false));
    assert!(s.flush(0).is_empty());
    // The restarted worker's `ready` gets the current blend at once.
    assert!(s.resend(1));
    assert_eq!(s.flush(0), vec![(1, "x".to_string())]);
}

#[test]
fn resend_needs_a_blend_and_a_deck() {
    let mut s = StyleSender::new();
    assert!(!s.resend(0));
    assert!(!s.resend(5));
    s.prime(0, payload("primed"));
    // A primed lane is not owed: the worker asks for it.
    assert_eq!(s.next_due(0), None);
    s.prime(0, payload("later"));
    assert!(s.resend(0));
    assert_eq!(s.flush(3), vec![(0, "primed".to_string())]);
}
