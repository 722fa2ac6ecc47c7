use simpledb_rs::file::BlockId;
use simpledb_rs::log::manager::{is_log_page, read_log_page, try_read_log_page, LogBuffer};
use simpledb_rs::log::record::LogRecord;
use simpledb_rs::page::Page;

fn copy_page(page: &Page) -> Page {
    Page::from_contents(page.contents().to_vec())
}

/// Appends each record as the log manager does, keeping each full page that
/// is saved when a new block is started; returns the saved blocks, oldest
/// first, the current page last, and the last sequence number.
fn append_all(block_size: usize, records: &[LogRecord]) -> (Vec<Page>, usize) {
    let mut blocks = Vec::new();
    let mut buffer = LogBuffer::new(block_size);
    let mut lsn = 0;
    for record in records {
        let (n, new_block_pages) = buffer.append_record(record);
        if let Some((full_page, _fresh_page)) = new_block_pages {
            blocks.push(full_page);
        }
        lsn = n;
    }
    if buffer.needs_flush(lsn) {
        buffer.mark_saved();
    }
    assert_eq!(buffer.last_saved_lsn(), lsn);
    blocks.push(copy_page(buffer.page()));
    (blocks, lsn)
}

#[test]
fn log_test_log_manager() {
    let (blocks, lsn) = append_all(1024, &[LogRecord::Start(0)]);
    assert_eq!(lsn, 1);
    assert_eq!(blocks.len(), 1);
    assert_eq!(read_log_page(&blocks[0]), vec![LogRecord::Start(0)]);
}

#[test]
fn manager_test_log_manager() {
    let mut buffer = LogBuffer::new(1024);
    let lsn = buffer.append(&LogRecord::Start(0)).unwrap();
    assert_eq!(lsn, 1);
    assert!(buffer.needs_flush(1));
    buffer.mark_saved();
    assert_eq!(buffer.last_saved_lsn(), 1);
    assert_eq!(buffer.latest_lsn(), 1);
}

#[test]
fn test_backward_log_iterator() {
    let block = BlockId::new("dummy", 0);
    let records = vec![
        LogRecord::Start(0),
        LogRecord::Commit(0),
        LogRecord::Start(1),
        LogRecord::Commit(1),
        LogRecord::Start(2),
        LogRecord::SetI32(2, block.clone(), 0, 0, 0),
        LogRecord::Commit(2),
    ];
    let (blocks, lsn) = append_all(50, &records);
    assert_eq!(lsn, 7);
    let mut iter = blocks.iter().rev().flat_map(|page| read_log_page(page));
    assert_eq!(iter.next(), Some(LogRecord::Commit(2)));
    assert_eq!(
        iter.next(),
        Some(LogRecord::SetI32(2, block.clone(), 0, 0, 0))
    );
    assert_eq!(iter.next(), Some(LogRecord::Start(2)));
    assert_eq!(iter.next(), Some(LogRecord::Commit(1)));
    assert_eq!(iter.next(), Some(LogRecord::Start(1)));
    assert_eq!(iter.next(), Some(LogRecord::Commit(0)));
    assert_eq!(iter.next(), Some(LogRecord::Start(0)));
    assert_eq!(iter.next(), None);
}

#[test]
fn log_blocks_split_where_records_do_not_fit() {
    let block = BlockId::new("dummy", 0);
    let records = vec![
        LogRecord::Start(0),
        LogRecord::Commit(0),
        LogRecord::Start(1),
        LogRecord::Commit(1),
        LogRecord::Start(2),
        LogRecord::SetI32(2, block, 0, 0, 0),
        LogRecord::Commit(2),
    ];
    let (blocks, _) = append_all(50, &records);
    assert_eq!(blocks.len(), 3);
    assert_eq!(read_log_page(&blocks[0]).len(), 5);
    assert_eq!(read_log_page(&blocks[1]).len(), 1);
    assert_eq!(read_log_page(&blocks[2]), vec![LogRecord::Commit(2)]);
    // A start record takes nine bytes: the first block's boundary is 50 - 5 * 9.
    assert_eq!(blocks[0].get_i32(0), 5);
}

#[test]
fn log_append_reports_a_full_block_without_change() {
    let mut buffer = LogBuffer::new(20);
    assert_eq!(buffer.append(&LogRecord::Start(7)), Some(1));
    let before = buffer.page().contents().to_vec();
    assert_eq!(buffer.append(&LogRecord::Start(8)), None);
    assert_eq!(buffer.page().contents().to_vec(), before);
    assert_eq!(buffer.latest_lsn(), 1);
    buffer.start_block();
    assert_eq!(buffer.last_saved_lsn(), 1);
    assert_eq!(buffer.page().get_i32(0), 20);
    assert_eq!(read_log_page(buffer.page()), vec![]);
    assert_eq!(buffer.append(&LogRecord::Start(8)), Some(2));
    assert_eq!(read_log_page(buffer.page()), vec![LogRecord::Start(8)]);
}

#[test]
fn log_page_layout_is_checked() {
    let buffer = LogBuffer::new(64);
    assert!(is_log_page(buffer.page()));
    assert!(!is_log_page(&Page::new(64)));
    assert!(!is_log_page(&Page::new(3)));
    let string_record = LogRecord::SetString(
        4,
        BlockId::new("tbl", 2),
        8,
        "old".to_string(),
        "new".to_string(),
    );
    let mut buffer = LogBuffer::new(200);
    buffer.append(&LogRecord::Rollback(3)).unwrap();
    buffer.append(&string_record).unwrap();
    buffer.append(&LogRecord::Checkpoint(9)).unwrap();
    assert_eq!(
        read_log_page(buffer.page()),
        vec![LogRecord::Checkpoint(9), string_record, LogRecord::Rollback(3)]
    );
}

#[test]
fn checked_reader_refuses_pages_without_records() {
    let mut buffer = LogBuffer::new(64);
    buffer.append(&LogRecord::Start(3));
    buffer.append(&LogRecord::Commit(3));
    let records = try_read_log_page(buffer.page()).expect("a log page");
    assert_eq!(records, vec![LogRecord::Commit(3), LogRecord::Start(3)]);
    // A boundary pointing into the middle of a record.
    let mut bytes = buffer.page().contents().to_vec();
    let boundary = i32::from_le_bytes([bytes[0], bytes[1], bytes[2], bytes[3]]) + 1;
    bytes[0..4].copy_from_slice(&boundary.to_le_bytes());
    assert_eq!(try_read_log_page(&Page::from_contents(bytes)), None);
    // An unknown tag.
    let mut bytes = buffer.page().contents().to_vec();
    let at = (boundary - 1) as usize;
    bytes[at] = b'Z';
    assert_eq!(try_read_log_page(&Page::from_contents(bytes)), None);
    // Not a log page at all.
    assert_eq!(try_read_log_page(&Page::from_contents(vec![0, 0, 0, 0, 1])), None);
}

#[test]
fn records_read_back_through_the_checked_decoder() {
    let block = BlockId::new("t", 4);
    let record = LogRecord::SetString(2, block, 8, "old".to_string(), "new".to_string());
    let mut bytes = record.to_bytes();
    let n = bytes.len();
    bytes.extend_from_slice(&[9, 9]);
    assert_eq!(LogRecord::try_from_bytes(&bytes), Some((n, record)));
    assert_eq!(LogRecord::try_from_bytes(&bytes[..n - 1]), None);
    assert_eq!(BlockId::try_from_bytes(&BlockId::new("ab", 1).to_bytes()), Some((18, BlockId::new("ab", 1))));
    assert_eq!(BlockId::try_from_bytes(&[1, 2, 3]), None);
}

#[test]
fn append_record_starts_a_new_block_where_a_record_does_not_fit() {
    let mut buffer = LogBuffer::new(30);
    assert_eq!(buffer.append_record(&LogRecord::Start(1)).0, 1);
    assert_eq!(buffer.append_record(&LogRecord::Commit(1)).0, 2);
    let before = buffer.page().contents().to_vec();
    let (lsn, pages) = buffer.append_record(&LogRecord::Start(2));
    assert_eq!(lsn, 3);
    let (full, fresh) = pages.expect("a new block");
    assert_eq!(full.contents(), &before[..]);
    // The new block's page: the old bytes, with the boundary back at the end.
    assert_eq!(&fresh.contents()[0..4], &30i32.to_le_bytes());
    assert_eq!(&fresh.contents()[4..], &before[4..]);
    assert_eq!(buffer.last_saved_lsn(), 2);
    assert_eq!(read_log_page(buffer.page()), vec![LogRecord::Start(2)]);
}
