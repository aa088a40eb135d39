use gap_buffer::{GapBuffer, GapBufferError, GAP_SIZE};

fn render(buf: &GapBuffer) -> String {
    buf.raw_chars().iter().collect::<String>()
}

fn logical_string(buf: &GapBuffer) -> String {
    buf.logical_chars().iter().collect::<String>()
}

fn chars_of(s: &str) -> Vec<char> {
    s.chars().collect()
}

#[test]
fn smaller_than_gap_size() {
    println!("Test move_gap on 'Hello World'; a test set smaller than the gap size");
    let data: Vec<char> = "Hello World".chars().collect();
    let data_len = data.len();
    let mut gap_buffer = GapBuffer::from(data);
    println!("{}", render(&gap_buffer));
    gap_buffer.move_gap(5).unwrap();
    println!("{}", render(&gap_buffer));
    gap_buffer.move_gap(10).unwrap();
    println!("{}", render(&gap_buffer));
    gap_buffer.move_gap(2).unwrap();
    println!("{}", render(&gap_buffer));
    gap_buffer.move_gap(data_len).unwrap();
    println!("{}", render(&gap_buffer));
}

#[test]
fn larger_than_gap_size() {
    println!("Test move_gap on 'Hello darkness, my old friend...'; a test set larger than the gap size");
    let data: Vec<char> = "Hello darkness, my old friend...".chars().collect();
    let data_len = data.len();
    let mut gap_buffer = GapBuffer::from(data);
    println!("{}", render(&gap_buffer));
    gap_buffer.move_gap(0).unwrap();
    println!("{}", render(&gap_buffer));
    gap_buffer.move_gap(5).unwrap();
    println!("{}", render(&gap_buffer));
    gap_buffer.move_gap(10).unwrap();
    println!("{}", render(&gap_buffer));
    gap_buffer.move_gap(2).unwrap();
    println!("{}", render(&gap_buffer));
    gap_buffer.move_gap(data_len).unwrap();
    println!("{}", render(&gap_buffer));
}

#[test]
fn moves_inserts_deletes_grows() {
    println!("Test moves, inserts, deletes and grows");
    let data: Vec<char> = "Hello World".chars().collect();
    let mut gap_buffer = GapBuffer::from(data);
    println!("'{}'", render(&gap_buffer));
    gap_buffer
        .move_gap(gap_buffer.buffer_len() - gap_buffer.gap_len())
        .unwrap();
    println!("'{}'", render(&gap_buffer));
    gap_buffer.insert(vec!['!']).unwrap();
    println!("'{}'", render(&gap_buffer));
    gap_buffer.move_gap(5).unwrap();
    println!("'{}'", render(&gap_buffer));
    gap_buffer.insert(vec![',']).unwrap();
    println!("'{}'", render(&gap_buffer));
    gap_buffer.move_gap(5).unwrap();
    println!("'{}'", render(&gap_buffer));
    gap_buffer
        .insert(" my dearest".chars().collect::<Vec<char>>())
        .unwrap();
    println!("'{}'", render(&gap_buffer));
    gap_buffer.move_gap(18).unwrap();
    gap_buffer.delete(5).unwrap();
    println!("'{}'", render(&gap_buffer));
    gap_buffer.insert("Dan".chars().collect::<Vec<char>>()).unwrap();
    println!("'{}'", render(&gap_buffer));
    gap_buffer.move_gap(gap_buffer.gap_start() + 1).unwrap();
    println!("'{}'", render(&gap_buffer));
    gap_buffer
        .insert("\nToday's my Birthday!".chars().collect::<Vec<char>>())
        .unwrap();
    println!("'{}'", render(&gap_buffer));
}

#[test]
fn edit_session_combines_operations() {
    let mut buf = GapBuffer::from(chars_of("Hello World"));
    buf.move_gap(buf.logical_len()).unwrap();
    buf.insert(chars_of("!")).unwrap();
    buf.move_gap(5).unwrap();
    buf.insert(chars_of(",")).unwrap();
    assert_eq!(logical_string(&buf), "Hello, World!");
    buf.move_gap(5).unwrap();
    buf.insert(chars_of(" my dearest")).unwrap();
    assert_eq!(logical_string(&buf), "Hello my dearest, World!");
    buf.move_gap(18).unwrap();
    buf.delete(5).unwrap();
    assert_eq!(logical_string(&buf), "Hello my dearest, !");
    buf.insert(chars_of("Dan")).unwrap();
    assert_eq!(logical_string(&buf), "Hello my dearest, Dan!");
    buf.move_gap(buf.gap_start() + 1).unwrap();
    buf.insert(chars_of("\nToday's my Birthday!")).unwrap();
    assert_eq!(
        logical_string(&buf),
        "Hello my dearest, Dan!\nToday's my Birthday!"
    );
}

#[test]
fn from_sets_up_gap_before_content() {
    let buf = GapBuffer::from(chars_of("ab"));
    assert_eq!(logical_string(&buf), "ab");
    assert_eq!(buf.gap_start(), 0);
    assert_eq!(buf.gap_len(), GAP_SIZE);
    assert_eq!(buf.buffer_len(), GAP_SIZE + 2);
    assert_eq!(buf.logical_len(), 2);
}

#[test]
fn from_empty_content() {
    let buf = GapBuffer::from(Vec::new());
    assert_eq!(logical_string(&buf), "");
    assert_eq!(buf.logical_len(), 0);
    assert_eq!(buf.gap_len(), GAP_SIZE);
}

#[test]
fn insert_in_the_middle() {
    let mut buf = GapBuffer::from(chars_of("ab"));
    buf.move_gap(1).unwrap();
    buf.insert(chars_of("X")).unwrap();
    assert_eq!(logical_string(&buf), "aXb");
    assert_eq!(buf.gap_start(), 2);
}

#[test]
fn insert_at_the_end() {
    let mut buf = GapBuffer::from(chars_of("hello"));
    buf.move_gap(5).unwrap();
    buf.insert(chars_of("!")).unwrap();
    assert_eq!(logical_string(&buf), "hello!");
}

#[test]
fn delete_after_cursor() {
    let mut buf = GapBuffer::from(chars_of("hello!"));
    buf.move_gap(5).unwrap();
    buf.delete(1).unwrap();
    assert_eq!(logical_string(&buf), "hello");
    assert_eq!(buf.gap_start(), 5);
}

#[test]
fn move_gap_preserves_logical_content() {
    let mut buf = GapBuffer::from(chars_of("abcdef"));
    for cursor in [0usize, 6, 3, 3, 1, 5, 0] {
        buf.move_gap(cursor).unwrap();
        assert_eq!(logical_string(&buf), "abcdef");
        assert_eq!(buf.gap_start(), cursor);
        assert_eq!(buf.gap_len(), GAP_SIZE);
    }
}

#[test]
fn move_gap_twice_gives_identical_state() {
    let mut buf = GapBuffer::from(chars_of("hello"));
    buf.move_gap(2).unwrap();
    let raw_once = buf.raw_chars();
    let start_once = buf.gap_start();
    let len_once = buf.gap_len();
    buf.move_gap(2).unwrap();
    assert_eq!(buf.raw_chars(), raw_once);
    assert_eq!(buf.gap_start(), start_once);
    assert_eq!(buf.gap_len(), len_once);
}

#[test]
fn move_gap_out_of_range_is_refused() {
    let mut buf = GapBuffer::from(chars_of("ab"));
    let before = buf.raw_chars();
    assert_eq!(buf.move_gap(3), Err(GapBufferError::OutOfRange));
    assert_eq!(buf.raw_chars(), before);
    assert_eq!(buf.gap_start(), 0);
    assert_eq!(logical_string(&buf), "ab");
}

#[test]
fn delete_past_right_content_is_refused() {
    let mut buf = GapBuffer::from(chars_of("ab"));
    buf.move_gap(1).unwrap();
    let before = buf.raw_chars();
    assert_eq!(buf.delete(2), Err(GapBufferError::InsufficientRightContent));
    assert_eq!(buf.raw_chars(), before);
    buf.delete(1).unwrap();
    assert_eq!(logical_string(&buf), "a");
}

#[test]
fn delete_nothing_is_allowed() {
    let mut buf = GapBuffer::from(chars_of("ab"));
    buf.move_gap(2).unwrap();
    buf.delete(0).unwrap();
    assert_eq!(logical_string(&buf), "ab");
}

#[test]
fn grow_uses_the_page_formula() {
    let mut buf = GapBuffer::from(chars_of("ab"));
    buf.grow(5).unwrap();
    // 5 / 1024 + 5 % 1024 + 1 = 6 pages of 1024 units each.
    assert_eq!(buf.gap_len(), 6 * GAP_SIZE);
    assert_eq!(buf.gap_start(), 0);
    assert_eq!(logical_string(&buf), "ab");

    let mut other = GapBuffer::from(chars_of("ab"));
    other.grow(0).unwrap();
    // 0 / 1024 + 0 % 1024 + 1 = 1 page.
    assert_eq!(other.gap_len(), GAP_SIZE);

    let mut third = GapBuffer::from(Vec::new());
    third.grow(1500).unwrap();
    // 1500 / 1024 + 1500 % 1024 + 1 = 478 pages.
    assert_eq!(third.gap_len(), 478 * GAP_SIZE);
}

#[test]
fn grow_overflow_is_refused() {
    let mut buf = GapBuffer::from(chars_of("ab"));
    let before = buf.raw_chars();
    assert_eq!(buf.grow(usize::MAX), Err(GapBufferError::CapacityOverflow));
    assert_eq!(buf.raw_chars(), before);
    assert_eq!(buf.gap_len(), GAP_SIZE);
    assert_eq!(logical_string(&buf), "ab");
}

#[test]
fn insert_forces_growth() {
    let mut buf = GapBuffer::from(Vec::new());
    let big: Vec<char> = std::iter::repeat('z').take(1500).collect();
    buf.insert(big.clone()).unwrap();
    assert_eq!(buf.logical_chars(), big);
    // Growth installed 478 pages; the insertion then consumed 1500 slots.
    assert_eq!(buf.gap_len(), 478 * GAP_SIZE - 1500);
    assert_eq!(buf.gap_start(), 1500);
}

#[test]
fn insert_can_consume_the_whole_gap() {
    let mut buf = GapBuffer::from(chars_of("ab"));
    let fill: Vec<char> = std::iter::repeat('z').take(GAP_SIZE).collect();
    buf.insert(fill).unwrap();
    assert_eq!(buf.gap_len(), 0);
    assert_eq!(buf.gap_start(), GAP_SIZE);
    assert_eq!(buf.logical_len(), GAP_SIZE + 2);

    // With a zero-length gap, relocation is a direct index reassignment.
    buf.move_gap(0).unwrap();
    assert_eq!(buf.gap_start(), 0);
    let mut expected: String = std::iter::repeat('z').take(GAP_SIZE).collect();
    expected.push_str("ab");
    assert_eq!(logical_string(&buf), expected);

    // The next insertion grows the gap again.
    buf.move_gap(buf.logical_len()).unwrap();
    buf.insert(chars_of("!")).unwrap();
    expected.push('!');
    assert_eq!(logical_string(&buf), expected);
}

#[test]
fn insert_empty_input_changes_nothing() {
    let mut buf = GapBuffer::from(chars_of("ab"));
    buf.move_gap(1).unwrap();
    buf.insert(Vec::new()).unwrap();
    assert_eq!(logical_string(&buf), "ab");
    assert_eq!(buf.gap_start(), 1);
    assert_eq!(buf.gap_len(), GAP_SIZE);
}
