use simpledb_rs::page::Page;

#[test]
fn test_set_i32() {
    let mut page = Page::new(1024);
    page.set_i32(100, 1019);
    assert_eq!(page.get_i32(100), 1019);
}

#[test]
fn test_set_string() {
    let mut page = Page::new(1024);
    let length = page.set_string(100, "Hello, world!");
    assert_eq!(page.get_string(100), ("Hello, world!", length));
}

#[test]
fn page_writes_leave_other_bytes_alone() {
    let mut page = Page::new(64);
    page.set_i32(0, -7);
    page.set_i32(4, i32::MAX);
    page.set_i32(60, i32::MIN);
    assert_eq!(page.get_i32(0), -7);
    assert_eq!(page.get_i32(4), i32::MAX);
    assert_eq!(page.get_i32(60), i32::MIN);
    let written = page.set_bytes(10, &[1, 2, 3]);
    assert_eq!(written, 5);
    assert_eq!(page.get_bytes(10), (&[1u8, 2, 3][..], 5));
    assert_eq!(page.get_i32(4), i32::MAX);
    assert_eq!(&page.contents()[10..15], &[3, 0, 1, 2, 3]);
}

#[test]
fn page_strings_round_trip() {
    let mut page = Page::new(128);
    let n = page.set_string(20, "héllo");
    assert_eq!(n, 8);
    let m = page.set_string(40, "");
    assert_eq!(m, 2);
    assert_eq!(page.get_string(20), ("héllo", 8));
    assert_eq!(page.get_string(40), ("", 2));
    assert_eq!(page.get_required_size(b"abc"), 5);
    assert_eq!(page.len(), 128);
}
