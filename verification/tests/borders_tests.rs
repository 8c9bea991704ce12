use rust_labs::borders::{calc_p, terminator_step};

fn read_until_in(input: &[u8], end: &[u8]) -> Option<Vec<u8>> {
    let p = calc_p(end);
    let mut read: Vec<u8> = Vec::new();
    let mut i = 0;
    for b in input {
        read.push(*b);
        i = terminator_step(end, &p, &read, i);
        if i == end.len() {
            read.truncate(read.len() - end.len());
            return Some(read);
        }
    }
    None
}

#[test]
fn border_tables() {
    assert_eq!(calc_p(b"\r\n"), vec![0, 0, 0]);
    assert_eq!(calc_p(b"aab"), vec![0, 0, 1, 0]);
    assert_eq!(calc_p(b"abab"), vec![0, 0, 0, 1, 2]);
    assert_eq!(calc_p(b"aaa"), vec![0, 0, 1, 2]);
    assert_eq!(calc_p(b"abacabab"), vec![0, 0, 0, 1, 0, 1, 2, 3, 2]);
    assert_eq!(calc_p(b""), vec![0]);
}

#[test]
fn reading_stops_at_the_terminator() {
    assert_eq!(read_until_in(b"hello\r\nworld", b"\r\n"), Some(b"hello".to_vec()));
    assert_eq!(read_until_in(b"xaaab..", b"aab"), Some(b"xa".to_vec()));
    assert_eq!(read_until_in(b"ababac", b"abac"), Some(b"ab".to_vec()));
    assert_eq!(read_until_in(b"no end here", b"\r\n"), None);
    assert_eq!(read_until_in(b"\r\n", b"\r\n"), Some(Vec::new()));
}
