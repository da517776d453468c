use shared_mailbox::frame::{
    decode, delim_bytes, encode, encode_frame, interpret_texts, uniform_components, Command,
    DecodeError, EncodeError, DELIM_LEN,
};
use shared_mailbox::text::{find_nul, is_utf8, occurs_at_pos, split_text};

fn round_trip(c: &Command, len: usize) {
    let payload = encode(c, len).unwrap();
    assert_eq!(payload.len(), len);
    assert_eq!(decode(&payload), Ok(c.clone()));
}

#[test]
fn every_command_kind_round_trips() {
    let cmds = vec![
        Command::LoadTexture { path: "assets/brick.png".to_string() },
        Command::Compile {
            uniform_types: "color = { type = \"vec4f\" }".to_string(),
            texture_descs: "tex = \"linear\"".to_string(),
            world_offset_expr: "return vec2(0.0);".to_string(),
            frag_color_expr: "return color;\n".to_string(),
        },
        Command::UpdateUniform { name: "color".to_string(), value: "1,0,0,1".to_string() },
        Command::Unknown("reload".to_string()),
    ];
    for c in &cmds {
        round_trip(c, 4096);
    }
}

#[test]
fn multibyte_text_round_trips() {
    let c = Command::LoadTexture { path: "textures/écran/ß-日本.png".to_string() };
    round_trip(&c, 131071);
    let payload = encode(&c, 100).unwrap();
    match decode(&payload).unwrap() {
        Command::LoadTexture { path } => assert_eq!(path, "textures/écran/ß-日本.png"),
        other => panic!("unexpected {:?}", other),
    }
}

#[test]
fn empty_fields_round_trip() {
    round_trip(&Command::Compile {
        uniform_types: String::new(),
        texture_descs: String::new(),
        world_offset_expr: String::new(),
        frag_color_expr: String::new(),
    }, 64);
}

#[test]
fn frame_layout_is_name_then_fields() {
    let c = Command::UpdateUniform { name: "tint".to_string(), value: "1,1,1,1".to_string() };
    assert_eq!(encode_frame(&c), b"update_uniform##DELIM##tint##DELIM##1,1,1,1".to_vec());
    let payload = encode(&c, 50).unwrap();
    assert_eq!(&payload[..43], b"update_uniform##DELIM##tint##DELIM##1,1,1,1");
    assert!(payload[43..].iter().all(|b| *b == 0));
}

#[test]
fn frame_that_fits_exactly_is_written() {
    let c = Command::Unknown("abc".to_string());
    assert_eq!(encode(&c, 3), Ok(b"abc".to_vec()));
    assert_eq!(decode(b"abc"), Ok(c));
}

#[test]
fn frame_longer_than_payload_is_too_large() {
    let c = Command::LoadTexture { path: "x".to_string() };
    assert_eq!(encode(&c, 20), Err(EncodeError::TooLarge));
    assert_eq!(encode(&c, 22).map(|p| p.len()), Ok(22));
}

#[test]
fn trailing_separator_and_extra_fields_are_ignored() {
    assert_eq!(
        decode(b"load_texture##DELIM##C:/t.png##DELIM##\0\0\0"),
        Ok(Command::LoadTexture { path: "C:/t.png".to_string() })
    );
    assert_eq!(
        decode(b"compile##DELIM##a\n##DELIM##b\n##DELIM##c\n##DELIM##d\n##DELIM##"),
        Ok(Command::Compile {
            uniform_types: "a\n".to_string(),
            texture_descs: "b\n".to_string(),
            world_offset_expr: "c\n".to_string(),
            frag_color_expr: "d\n".to_string(),
        })
    );
}

#[test]
fn missing_fields_are_reported() {
    assert_eq!(decode(b"load_texture\0\0"), Err(DecodeError::MissingField));
    assert_eq!(decode(b"compile##DELIM##a##DELIM##b##DELIM##c"), Err(DecodeError::MissingField));
    assert_eq!(decode(b"update_uniform##DELIM##tint"), Err(DecodeError::MissingField));
}

#[test]
fn unknown_names_decode_to_unknown() {
    assert_eq!(
        decode(b"spawn##DELIM##thing\0"),
        Ok(Command::Unknown("spawn".to_string()))
    );
    assert_eq!(decode(b"\0\0\0"), Ok(Command::Unknown(String::new())));
}

#[test]
fn invalid_utf8_is_an_encoding_error() {
    assert_eq!(decode(&[0xc3, 0x28]), Err(DecodeError::InvalidEncoding));
    assert_eq!(decode(&[b'a', 0, 0xff]), Err(DecodeError::InvalidEncoding));
}

#[test]
fn overlapping_separator_is_split_leftmost() {
    assert_eq!(
        decode(b"load_texture##DELIM###DELIM##x"),
        Ok(Command::LoadTexture { path: "#DELIM##x".to_string() })
    );
}

#[test]
fn uniform_value_has_four_parts() {
    let parts = uniform_components("1, 0.5,0.25 ,x").unwrap();
    assert_eq!(parts, vec!["1".to_string(), " 0.5".to_string(), "0.25 ".to_string(), "x".to_string()]);
    assert_eq!(uniform_components("1,2,3"), None);
    assert_eq!(uniform_components("1,2,3,4,5"), None);
    assert_eq!(uniform_components(""), None);
}

#[test]
fn interpret_reads_texts() {
    let ts = vec!["update_uniform".to_string(), "a".to_string(), "b".to_string(), "c".to_string()];
    assert_eq!(
        interpret_texts(&ts),
        Ok(Command::UpdateUniform { name: "a".to_string(), value: "b".to_string() })
    );
    let ts = vec!["compile".to_string()];
    assert_eq!(interpret_texts(&ts), Err(DecodeError::MissingField));
}

#[test]
fn text_helpers() {
    assert_eq!(delim_bytes(), b"##DELIM##".to_vec());
    assert_eq!(DELIM_LEN, 9);
    assert!(is_utf8("ünï".as_bytes()));
    assert!(!is_utf8(&[0xe2, 0x82]));
    assert_eq!(find_nul(b"ab\0c"), 2);
    assert_eq!(find_nul(b"abc"), 3);
    assert!(occurs_at_pos(b"a##b", b"##", 1));
    assert!(!occurs_at_pos(b"a##b", b"##", 2));
    assert!(!occurs_at_pos(b"a#", b"##", 1));
    assert_eq!(
        split_text("é,,ü".as_bytes(), b","),
        vec!["é".to_string(), String::new(), "ü".to_string()]
    );
}

#[test]
fn command_texts_in_order() {
    let c = Command::UpdateUniform { name: "n".to_string(), value: "v".to_string() };
    assert_eq!(c.texts(), vec!["update_uniform", "n", "v"]);
}
