use slurmboard::utilities::split_first;

#[test]
fn test_split_first() {
    assert_eq!(split_first(b"", b'/'), None);
    assert_eq!(split_first(b"non-empty", b'/'), None);
    assert_eq!(split_first(b"/", b'/'), Some((&b""[..], &b""[..])));
    assert_eq!(split_first(b"abc/", b'/'), Some((&b"abc"[..], &b""[..])));
    assert_eq!(split_first(b"/defg", b'/'), Some((&b""[..], &b"defg"[..])));
    assert_eq!(
        split_first(b"abc/defg", b'/'),
        Some((&b"abc"[..], &b"defg"[..]))
    );
    assert_eq!(
        split_first(b"ab/cde/fg", b'/'),
        Some((&b"ab"[..], &b"cde/fg"[..]))
    );
}
