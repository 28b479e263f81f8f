use realm_agent::theme::{
    age_label, component_entry, component_logs_title, event_tone, events_title, get_theme, log_line_tone,
    shown_events, tone_rgb, ThemeKind, Tone,
};

#[test]
fn event_tones() {
    assert_eq!(event_tone("ERROR: disk", 0), Tone::Error);
    assert_eq!(event_tone("a Warn here", 0), Tone::Warning);
    assert_eq!(event_tone("info: ok", 9), Tone::Primary);
    assert_eq!(event_tone("plain", 4), Tone::Text);
    assert_eq!(event_tone("plain", 5), Tone::Muted);
    assert_eq!(log_line_tone("[DEBUG] x", 0), Tone::Muted);
    assert_eq!(log_line_tone("WARN y", 20), Tone::Warning);
    assert_eq!(log_line_tone("error lower", 3), Tone::Text);
    assert_eq!(log_line_tone("error lower", 10), Tone::Muted);
    let dark = get_theme(ThemeKind::Dark);
    assert_eq!(tone_rgb(&dark, Tone::Error), (239, 68, 68));
    assert_eq!(tone_rgb(&dark, Tone::Muted), (156, 163, 175));
}

#[test]
fn event_ages() {
    assert_eq!(age_label(0), " 0s");
    assert_eq!(age_label(59), "59s");
    assert_eq!(age_label(60), " 1m");
    assert_eq!(age_label(3599), "59m");
    assert_eq!(age_label(7200), " 2h");
    assert_eq!(age_label(360000), "100h");
}

#[test]
fn event_filter_and_titles() {
    let events = vec!["peer up".to_string(), "job done".to_string(), "peer down".to_string()];
    assert_eq!(shown_events(&events, None), vec![0, 1, 2]);
    assert_eq!(shown_events(&events, Some("peer")), vec![0, 2]);
    assert_eq!(events_title(false, 2, 3, Some("peer")), "\u{1f4dd} Events \u{25b6}\u{fe0f} LIVE ( 2/3 ) \u{1f50d} 'peer'");
    assert_eq!(events_title(true, 3, 3, None), "\u{1f4dd} Events \u{23f8}\u{fe0f} PAUSED ( 3/3 )");
    assert_eq!(component_entry(0, "agent"), ("\u{1f3e0}", " agent".to_string()));
    assert_eq!(component_entry(2, "web"), ("\u{1f9e9}", " web".to_string()));
    let comps = vec!["agent".to_string(), "web".to_string()];
    assert_eq!(component_logs_title(&comps, Some(1)), "\u{1f4cb} Logs - web");
    assert_eq!(component_logs_title(&comps, None), "\u{1f4cb} Logs - agent");
    assert_eq!(component_logs_title(&comps, Some(5)), "\u{1f4cb} Logs - None");
}
