use json::reader::StringReader;

#[test]
fn now_is_the_last_advanced_character() {
    // before any advance there is no current character; after one, the
    // current character is the one that advance returned
    let mut r = StringReader::new("ab".to_string());
    assert_eq!(r.now(), None);
    assert_eq!(r.peek(), Some('a'));
    assert_eq!(r.now(), Some('a'));
    assert_eq!(r.peek(), Some('b'));
    assert_eq!(r.now(), Some('b'));
    assert_eq!(r.peek(), None);
    assert_eq!(r.now(), Some('b'));
}

#[test]
fn back_unconsumes_one_character() {
    let mut r = StringReader::new("xy".to_string());
    assert_eq!(r.peek(), Some('x'));
    r.back();
    assert_eq!(r.now(), None);
    assert_eq!(r.peek(), Some('x'));
}

#[test]
fn collect_untill_stops_at_a_delimiter() {
    let mut r = StringReader::new("12,x".to_string());
    assert_eq!(r.peek(), Some('1'));
    let (text, found) = r.collect_untill(&vec![','], true);
    assert!(found);
    assert_eq!(text, vec!['1', '2']);
    // the delimiter was consumed by the scan
    assert_eq!(r.now(), Some(','));
}

#[test]
fn collect_untill_reports_a_missing_delimiter() {
    let mut r = StringReader::new("12".to_string());
    assert_eq!(r.peek(), Some('1'));
    let (text, found) = r.collect_untill(&vec![','], true);
    assert!(!found);
    assert_eq!(text, vec!['1', '2']);
}

#[test]
fn collect_untill_keeps_or_drops_whitespace() {
    let mut r = StringReader::new("a b,".to_string());
    assert_eq!(r.peek(), Some('a'));
    let (kept, _) = r.collect_untill(&vec![','], false);
    assert_eq!(kept, vec!['a', ' ', 'b']);

    let mut r = StringReader::new("a b,".to_string());
    assert_eq!(r.peek(), Some('a'));
    let (dropped, _) = r.collect_untill(&vec![','], true);
    assert_eq!(dropped, vec!['a', 'b']);
}

#[test]
fn next_match_consumes_on_success_only() {
    let mut r = StringReader::new("ullx".to_string());
    assert!(r.next_match(&vec!['u', 'l', 'l']).is_ok());
    assert_eq!(r.peek(), Some('x'));

    let mut r = StringReader::new("ulx".to_string());
    assert!(r.next_match(&vec!['u', 'l', 'l']).is_err());

    // end of input before the expected characters run out is a mismatch
    let mut r = StringReader::new("ul".to_string());
    assert!(r.next_match(&vec!['u', 'l', 'l']).is_err());
}
