use ironrdp_agent::wire::propertyset;
use ironrdp_agent::wire::{
    opt_string_size, read_bool, read_char, read_opt_string, read_string, string_size, write_bool,
    write_char, write_opt_string, write_string, WireError,
};
use ironrdp_core::{ReadCursor, WriteCursor};
use ironrdp_propertyset::PropertySet;

#[test]
fn round_trips_arbitrary_property_set() {
    let mut ps = PropertySet::new();
    ps.insert("full address", "192.0.2.10:3389");
    ps.insert("username", "alice");
    ps.insert("ClearTextPassword", "hunter2");
    ps.insert("desktopwidth", 1920_i64);
    ps.insert("desktopheight", 1080_i64);
    ps.insert("ironrdp_colordepth", 32_i64);
    ps.insert("empty", "");
    ps.insert("unicode key 🔑", "value with spaces and 🚀");

    let mut buf = vec![0u8; propertyset::size(&ps)];
    let mut write_cursor = WriteCursor::new(&mut buf);
    propertyset::write(&ps, &mut write_cursor).expect("write");
    let written = write_cursor.pos();
    assert_eq!(written, buf.len(), "size() must match bytes written");

    let mut decoded = PropertySet::new();
    let mut read_cursor = ReadCursor::new(&buf);
    propertyset::read(&mut decoded, &mut read_cursor).expect("read");

    assert_eq!(ps, decoded);
    assert!(read_cursor.is_empty(), "all bytes consumed");
}

#[test]
fn property_sets_are_laid_out_by_key() {
    let mut ps = PropertySet::new();
    ps.insert("b", -2_i64);
    ps.insert("a", "x");
    let mut buf = vec![0u8; propertyset::size(&ps)];
    propertyset::write(&ps, &mut WriteCursor::new(&mut buf)).expect("write");
    assert_eq!(
        buf,
        vec![
            2, 0, 0, 0, 1, 0, 0, 0, b'a', 1, 1, 0, 0, 0, b'x', 1, 0, 0, 0, b'b', 0, 0xfe, 0xff,
            0xff, 0xff, 0xff, 0xff, 0xff, 0xff,
        ]
    );
}

#[test]
fn reading_properties_overlays_them() {
    let mut ps = PropertySet::new();
    ps.insert("username", "alice");
    let mut buf = vec![0u8; propertyset::size(&ps)];
    propertyset::write(&ps, &mut WriteCursor::new(&mut buf)).expect("write");

    let mut base = PropertySet::new();
    base.insert("username", "bob");
    base.insert("domain", "corp");
    propertyset::read(&mut base, &mut ReadCursor::new(&buf)).expect("read");
    assert_eq!(base.get::<&str>("username"), Some("alice"));
    assert_eq!(base.get::<&str>("domain"), Some("corp"));
}

#[test]
fn property_sets_need_their_size() {
    let mut ps = PropertySet::new();
    ps.insert("a", 1_i64);
    let mut buf = vec![0u8; propertyset::size(&ps) - 1];
    let mut cursor = WriteCursor::new(&mut buf);
    assert_eq!(
        propertyset::write(&ps, &mut cursor),
        Err(WireError::NotEnoughBytes { received: 17, expected: 18 })
    );
    assert_eq!(cursor.pos(), 0);
}

#[test]
fn size_decides_what_is_written() {
    assert_eq!(propertyset::size(&PropertySet::new()), 4);
    let mut ps = PropertySet::new();
    ps.insert("a", "bc");
    let size = propertyset::size(&ps);
    for space in 0..size + 3 {
        let mut buf = vec![0u8; space];
        let mut cursor = WriteCursor::new(&mut buf);
        let outcome = propertyset::write(&ps, &mut cursor);
        assert_eq!(outcome.is_ok(), size <= space);
        assert_eq!(cursor.pos(), if size <= space { size } else { 0 });
    }
}

#[test]
fn property_tags_are_known() {
    let bytes = [1, 0, 0, 0, 1, 0, 0, 0, b'a', 7];
    let mut ps = PropertySet::new();
    let mut cursor = ReadCursor::new(&bytes);
    assert_eq!(
        propertyset::read(&mut ps, &mut cursor),
        Err(WireError::InvalidField { field: "property value tag", reason: "unknown tag" })
    );
    assert_eq!(cursor.pos(), 10);
    assert_eq!(ps, PropertySet::new());
}

#[test]
fn what_was_read_before_an_error_stays() {
    let bytes = [2, 0, 0, 0, 1, 0, 0, 0, b'a', 1, 0, 0, 0, 0, 1, 0];
    let mut ps = PropertySet::new();
    assert_eq!(
        propertyset::read(&mut ps, &mut ReadCursor::new(&bytes)),
        Err(WireError::NotEnoughBytes { received: 2, expected: 4 })
    );
    assert_eq!(ps.get::<&str>("a"), Some(""));
}

#[test]
fn a_truncated_count_is_an_error() {
    let mut ps = PropertySet::new();
    assert_eq!(
        propertyset::read(&mut ps, &mut ReadCursor::new(&[1, 0])),
        Err(WireError::NotEnoughBytes { received: 2, expected: 4 })
    );
}

#[test]
fn strings_read_back() {
    let text = "héllo 🚀";
    let mut buf = vec![0u8; string_size(text)];
    write_string(&mut WriteCursor::new(&mut buf), text).expect("write");
    assert_eq!(buf[..4], [11, 0, 0, 0]);
    let mut cursor = ReadCursor::new(&buf);
    assert_eq!(read_string(&mut cursor), Ok(text.to_owned()));
    assert_eq!(cursor.pos(), buf.len());
}

#[test]
fn string_sizes_count_bytes() {
    assert_eq!(string_size(""), 4);
    assert_eq!(string_size("é"), 6);
    assert_eq!(opt_string_size(None), 1);
    assert_eq!(opt_string_size(Some("abc")), 8);
}

#[test]
fn strings_need_room() {
    let mut buf = vec![0u8; 6];
    assert_eq!(
        write_string(&mut WriteCursor::new(&mut buf), "abc"),
        Err(WireError::NotEnoughBytes { received: 6, expected: 7 })
    );
    assert_eq!(buf, vec![0u8; 6]);
}

#[test]
fn truncated_strings_are_errors() {
    assert_eq!(
        read_string(&mut ReadCursor::new(&[1, 2, 3])),
        Err(WireError::NotEnoughBytes { received: 3, expected: 4 })
    );
    let bytes = [5, 0, 0, 0, b'a', b'b'];
    let mut cursor = ReadCursor::new(&bytes);
    assert_eq!(
        read_string(&mut cursor),
        Err(WireError::NotEnoughBytes { received: 2, expected: 5 })
    );
    assert_eq!(cursor.pos(), 4);
}

#[test]
fn strings_are_utf8() {
    let bytes = [2, 0, 0, 0, 0xc3, 0x28];
    assert_eq!(
        read_string(&mut ReadCursor::new(&bytes)),
        Err(WireError::InvalidField { field: "string", reason: "not valid UTF-8" })
    );
}

#[test]
fn optional_strings_read_back() {
    for value in [None, Some(""), Some("abc")] {
        let mut buf = vec![0u8; opt_string_size(value)];
        let mut cursor = WriteCursor::new(&mut buf);
        write_opt_string(&mut cursor, value).expect("write");
        let written = cursor.pos();
        assert_eq!(written, buf.len());
        assert_eq!(
            read_opt_string(&mut ReadCursor::new(&buf)),
            Ok(value.map(str::to_owned))
        );
    }
}

#[test]
fn presence_flags_are_zero_or_one() {
    assert_eq!(
        read_opt_string(&mut ReadCursor::new(&[2])),
        Err(WireError::InvalidField {
            field: "optional string",
            reason: "invalid presence flag"
        })
    );
    assert_eq!(
        read_opt_string(&mut ReadCursor::new(&[])),
        Err(WireError::NotEnoughBytes { received: 0, expected: 1 })
    );
}

#[test]
fn optional_strings_need_room() {
    let mut nothing: Vec<u8> = Vec::new();
    assert_eq!(
        write_opt_string(&mut WriteCursor::new(&mut nothing), None),
        Err(WireError::NotEnoughBytes { received: 0, expected: 1 })
    );
    let mut little = vec![0u8; 3];
    let mut cursor = WriteCursor::new(&mut little);
    assert_eq!(
        write_opt_string(&mut cursor, Some("")),
        Err(WireError::NotEnoughBytes { received: 2, expected: 4 })
    );
    assert_eq!(cursor.pos(), 1);
    assert_eq!(little[0], 1);
}

#[test]
fn bools_read_back() {
    let mut buf = vec![9u8; 2];
    let mut cursor = WriteCursor::new(&mut buf);
    write_bool(&mut cursor, true).expect("write");
    write_bool(&mut cursor, false).expect("write");
    assert_eq!(
        write_bool(&mut cursor, true),
        Err(WireError::NotEnoughBytes { received: 0, expected: 1 })
    );
    assert_eq!(buf, vec![1, 0]);
    let bytes = [1, 0, 7];
    let mut cursor = ReadCursor::new(&bytes);
    assert_eq!(read_bool(&mut cursor), Ok(true));
    assert_eq!(read_bool(&mut cursor), Ok(false));
    assert_eq!(read_bool(&mut cursor), Ok(true));
    assert_eq!(
        read_bool(&mut cursor),
        Err(WireError::NotEnoughBytes { received: 0, expected: 1 })
    );
}

#[test]
fn chars_read_back() {
    for value in ['\0', 'a', '🚀', char::MAX] {
        let mut buf = vec![0u8; 4];
        write_char(&mut WriteCursor::new(&mut buf), value).expect("write");
        assert_eq!(read_char(&mut ReadCursor::new(&buf)), Ok(value));
    }
    let mut buf = vec![0u8; 4];
    write_char(&mut WriteCursor::new(&mut buf), 'é').expect("write");
    assert_eq!(buf, vec![0xe9, 0, 0, 0]);
    let mut little = vec![0u8; 3];
    assert_eq!(
        write_char(&mut WriteCursor::new(&mut little), 'a'),
        Err(WireError::NotEnoughBytes { received: 3, expected: 4 })
    );
}

#[test]
fn surrogates_are_no_chars() {
    let expected = Err(WireError::InvalidField {
        field: "char",
        reason: "not a valid Unicode scalar value",
    });
    assert_eq!(read_char(&mut ReadCursor::new(&[0, 0xd8, 0, 0])), expected);
    assert_eq!(read_char(&mut ReadCursor::new(&[0, 0, 0x11, 0])), expected);
    assert_eq!(
        read_char(&mut ReadCursor::new(&[0, 0])),
        Err(WireError::NotEnoughBytes { received: 2, expected: 4 })
    );
}
