use parallel::disk_buffer::DiskBufferWriter;

#[test]
fn bytes_wait_in_the_buffer_while_they_fit() {
    let mut writer = DiskBufferWriter::new("/tmp/queue", 8);
    assert!(writer.is_empty());
    writer.write(b"abc");
    writer.write_byte(b'\n');
    assert!(!writer.is_empty());
    assert_eq!(writer.contents(), b"");
    assert_eq!(writer.path(), "/tmp/queue");
    assert_eq!(writer.capacity(), 8);
}

#[test]
fn a_full_buffer_goes_to_the_file_first() {
    let mut writer = DiskBufferWriter::new("q", 4);
    writer.write(b"abc");
    writer.write(b"de");
    assert_eq!(writer.contents(), b"abc");
    writer.write(b"fg");
    assert_eq!(writer.contents(), b"abc");
    writer.write_byte(b'h');
    assert_eq!(writer.contents(), b"abcdefg");
    writer.flush();
    assert_eq!(writer.contents(), b"abcdefgh");
    assert!(writer.is_empty());
}

#[test]
fn bytes_beyond_the_buffer_go_straight_to_the_file() {
    let mut writer = DiskBufferWriter::new("q", 2);
    writer.write(b"a");
    writer.write(b"bcdef");
    assert_eq!(writer.contents(), b"abcdef");
    assert!(writer.is_empty());
    let mut none = DiskBufferWriter::new("q", 0);
    none.write_byte(b'x');
    assert_eq!(none.contents(), b"x");
}

#[test]
fn a_second_flush_changes_nothing() {
    let mut writer = DiskBufferWriter::new("q", 16);
    writer.write(b"one\ntwo\n");
    writer.flush();
    let once = writer.contents().to_vec();
    writer.flush();
    assert_eq!(writer.contents(), &once[..]);
    assert_eq!(once, b"one\ntwo\n");
}

#[test]
fn stored_bytes_can_be_taken_as_they_come() {
    let mut writer = DiskBufferWriter::new("q", 4);
    writer.write(b"abc");
    writer.write(b"de");
    assert_eq!(writer.take_stored(), b"abc");
    assert_eq!(writer.contents(), b"");
    assert!(!writer.is_empty());
    assert_eq!(writer.take_stored(), b"");
    writer.flush();
    assert_eq!(writer.take_stored(), b"de");
    assert_eq!(writer.path(), "q");
    assert_eq!(writer.capacity(), 4);
}
