use faststrings::token::{strsep_iter, strtok, strtok_iter, strtok_r, Splitter, Tokenizer};

#[test]
fn test_strtok_sequence() {
    let s = b"one:two:three\0";
    let mut state = 0usize;
    assert_eq!(strtok(s, b":\0", &mut state), Some(&b"one"[..]));
    assert_eq!(strtok(s, b":\0", &mut state), Some(&b"two"[..]));
    assert_eq!(strtok(s, b":\0", &mut state), Some(&b"three"[..]));
    assert_eq!(strtok(s, b":\0", &mut state), None);
}

#[test]
fn test_strtok_r_sequence() {
    let s = b"aa,bb,,cc\0";
    let mut save = 0usize;

    assert_eq!(strtok_r(s, b",\0", &mut save), Some(&b"aa"[..]));
    assert_eq!(strtok_r(s, b",\0", &mut save), Some(&b"bb"[..]));
    assert_eq!(strtok_r(s, b",\0", &mut save), Some(&b"cc"[..]));
    assert_eq!(strtok_r(s, b",\0", &mut save), None);
}

#[test]
fn test_strtok_r_all_delims() {
    let s = b",,,\0";
    let mut save = 0usize;
    assert_eq!(strtok_r(s, b",\0", &mut save), None);
}

#[test]
fn test_tokenizer_basic() {
    let s = b"hello,world,foo\0";
    let delim = b",\0";
    let mut tok = Tokenizer::new(s, delim);
    assert_eq!(tok.next(), Some(&b"hello"[..]));
    assert_eq!(tok.next(), Some(&b"world"[..]));
    assert_eq!(tok.next(), Some(&b"foo"[..]));
    assert_eq!(tok.next(), None);
}

#[test]
fn test_splitter_preserves_empty() {
    let s = b"a,,b,\0";
    let delim = b",\0";
    let mut split = Splitter::new(s, delim);
    assert_eq!(split.next(), Some(&b"a"[..]));
    assert_eq!(split.next(), Some(&b""[..]));
    assert_eq!(split.next(), Some(&b"b"[..]));
    assert_eq!(split.next(), Some(&b""[..]));
    assert_eq!(split.next(), None);
}

#[test]
fn test_iter_helpers() {
    let mut tokens = strtok_iter(b"a,b,c\0", b",\0");
    assert_eq!(tokens.next(), Some(&b"a"[..]));
    assert_eq!(tokens.next(), Some(&b"b"[..]));
    assert_eq!(tokens.next(), Some(&b"c"[..]));
    assert_eq!(tokens.next(), None);

    let mut tokens = strsep_iter(b"a,,\0", b",\0");
    assert_eq!(tokens.next(), Some(&b"a"[..]));
    assert_eq!(tokens.next(), Some(&b""[..]));
    assert_eq!(tokens.next(), Some(&b""[..]));
    assert_eq!(tokens.next(), None);
}

#[test]
fn test_tokenizer_from_slice_ignores_terminator_rules() {
    let mut tok = Tokenizer::from_slice(b"a b", b" ");
    assert_eq!(tok.next(), Some(&b"a"[..]));
    assert_eq!(tok.next(), Some(&b"b"[..]));
    assert_eq!(tok.next(), None);

    let mut split = Splitter::from_slice(b"x;;y", b";");
    assert_eq!(split.next(), Some(&b"x"[..]));
    assert_eq!(split.next(), Some(&b""[..]));
    assert_eq!(split.next(), Some(&b"y"[..]));
    assert_eq!(split.next(), None);
}
