use rowdb::row::Row;
use rowdb::table::{
    deserialize_row, serialize_row, Table, TableError, EMAIL_OFFSET, EMAIL_SIZE, ID_OFFSET,
    ID_SIZE, PAGE_SIZE, ROWS_PER_PAGE, ROW_SIZE, TABLE_MAX_PAGES, TABLE_MAX_ROWS, USERNAME_OFFSET,
    USERNAME_SIZE,
};

fn row(id: u32) -> Row {
    Row::from_values(id, &format!("user{}", id), &format!("user{}@example.com", id)).unwrap()
}

#[test]
fn capacity_constants() {
    assert_eq!(ID_SIZE, 4);
    assert_eq!(USERNAME_SIZE, 32);
    assert_eq!(EMAIL_SIZE, 255);
    assert_eq!(ID_OFFSET, 0);
    assert_eq!(USERNAME_OFFSET, 4);
    assert_eq!(EMAIL_OFFSET, 36);
    assert_eq!(ROW_SIZE, 291);
    assert_eq!(ROWS_PER_PAGE, 14);
    assert_eq!(TABLE_MAX_ROWS, 1400);
    assert_eq!(PAGE_SIZE - ROWS_PER_PAGE * ROW_SIZE, 22);
    assert_eq!(TABLE_MAX_PAGES, 100);
}

#[test]
fn serialize_layout_is_little_endian_and_padded() {
    let r = Row::from_values(0x0102_0304, "ab", "c@d").unwrap();
    let mut buf = vec![0xaau8; ROW_SIZE];
    serialize_row(&r, &mut buf);
    assert_eq!(&buf[0..4], &[4, 3, 2, 1]);
    assert_eq!(&buf[4..6], b"ab");
    assert!(buf[6..36].iter().all(|&b| b == 0));
    assert_eq!(&buf[36..39], b"c@d");
    assert!(buf[39..291].iter().all(|&b| b == 0));
}

#[test]
fn serialize_then_deserialize_round_trip() {
    let r = Row::from_values(u32::MAX, "carol", "carol@example.com").unwrap();
    let mut buf = vec![0u8; ROW_SIZE];
    serialize_row(&r, &mut buf);
    let mut back = Row::empty();
    deserialize_row(&buf, &mut back);
    assert_eq!(back.id, u32::MAX);
    assert_eq!(back.username, r.username);
    assert_eq!(back.email, r.email);
    assert_eq!(back.username_as_str(), "carol");
    assert_eq!(back.email_as_str(), "carol@example.com");
}

#[test]
fn empty_select_on_new_table() {
    let table = Table::new();
    assert_eq!(table.row_count(), 0);
    assert!(table.select_rows().is_empty());
}

#[test]
fn insertion_order_preserved() {
    let mut table = Table::new();
    for id in 0..30u32 {
        table.insert_row(&row(id)).unwrap();
    }
    let rows = table.select_rows();
    assert_eq!(rows.len(), 30);
    for (i, r) in rows.iter().enumerate() {
        assert_eq!(r.id, i as u32);
        assert_eq!(r.username_as_str(), format!("user{}", i));
        assert_eq!(r.email_as_str(), format!("user{}@example.com", i));
    }
}

#[test]
fn lazy_page_allocation() {
    let mut table = Table::new();
    assert_eq!(table.allocated_pages(), 0);
    for id in 0..14u32 {
        table.insert_row(&row(id)).unwrap();
    }
    assert_eq!(table.allocated_pages(), 1);
    table.insert_row(&row(14)).unwrap();
    assert_eq!(table.allocated_pages(), 2);
    assert_eq!(table.row_count(), 15);
}

#[test]
fn full_table_rejects_insert() {
    let mut table = Table::new();
    for id in 0..TABLE_MAX_ROWS as u32 {
        assert_eq!(table.insert_row(&row(id)), Ok(()));
    }
    assert_eq!(table.row_count(), 1400);
    assert_eq!(table.allocated_pages(), 100);
    assert_eq!(table.insert_row(&row(9999)), Err(TableError::TableFull));
    assert_eq!(table.row_count(), 1400);
    let rows = table.select_rows();
    assert_eq!(rows.len(), 1400);
    assert_eq!(rows[1399].id, 1399);
}

#[test]
fn row_slot_out_of_range() {
    let mut table = Table::new();
    assert_eq!(table.row_slot(TABLE_MAX_ROWS), Err(TableError::IndexOutOfRange));
    assert_eq!(table.allocated_pages(), 0);
}

#[test]
fn row_slot_allocates_zeroed_page() {
    let mut table = Table::new();
    let window = table.row_slot(20).unwrap();
    assert_eq!(window, vec![0u8; ROW_SIZE]);
    assert_eq!(table.allocated_pages(), 1);
    assert!(table.pages[1].is_some());
    assert_eq!(table.row_count(), 0);
}

#[test]
fn row_slot_reads_stored_row() {
    let mut table = Table::new();
    table.insert_row(&row(5)).unwrap();
    table.insert_row(&row(6)).unwrap();
    let window = table.row_slot(1).unwrap();
    let mut expected = vec![0u8; ROW_SIZE];
    serialize_row(&row(6), &mut expected);
    assert_eq!(window, expected);
}

#[test]
fn serialize_into_longer_buffer_keeps_tail() {
    let r = Row::from_values(9, "dave", "dave@example.com").unwrap();
    let mut buf = vec![0x5au8; ROW_SIZE + 10];
    serialize_row(&r, &mut buf);
    assert_eq!(buf.len(), ROW_SIZE + 10);
    assert_eq!(&buf[0..4], &[9, 0, 0, 0]);
    assert_eq!(&buf[4..8], b"dave");
    assert!(buf[ROW_SIZE..].iter().all(|&b| b == 0x5a));
    let mut exact = vec![0u8; ROW_SIZE];
    serialize_row(&r, &mut exact);
    assert_eq!(&buf[..ROW_SIZE], &exact[..]);
}

#[test]
fn deserialize_from_longer_buffer_reads_first_row() {
    let r = Row::from_values(77, "erin", "erin@example.com").unwrap();
    let mut buf = vec![0xffu8; 2 * ROW_SIZE];
    serialize_row(&r, &mut buf);
    let mut back = Row::empty();
    deserialize_row(&buf, &mut back);
    assert_eq!(back.id, 77);
    assert_eq!(back.username_as_str(), "erin");
    assert_eq!(back.email_as_str(), "erin@example.com");
}
