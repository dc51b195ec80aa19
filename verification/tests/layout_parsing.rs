use zm_aidect::layout::{
    align_to, parse_field_definition, parse_memory_pm, parse_struct_definition,
    parse_typename, read_memory_pm, Field, LayoutError, ParsedField, ParsedStruct, Struct,
    Type,
};

#[test]
fn test_parse_typename() {
    assert_eq!(parse_typename("int32").unwrap(), Type::new::<i32>());
    assert_eq!(
        parse_typename("int32[44]").unwrap(),
        Type::new::<i32>().array_of(44)
    );
}

#[test]
#[should_panic]
fn test_parse_typename_panic() {
    parse_typename("int32[44x]").unwrap();
}

#[test]
#[should_panic]
fn test_parse_typename_panic2() {
    parse_typename("int32[44").unwrap();
}

#[test]
fn test_parse_field_definition() {
    assert_eq!(
        parse_field_definition("  size             => { type=>'uint32', seq=>$mem_seq++ },")
            .unwrap(),
        ParsedField {
            name: b"size".to_vec(),
            typ: Type::new::<u32>(),
        }
    );
    assert_eq!(
        parse_field_definition("  size             => { type=>'uint32[5]', seq=>$mem_seq++ },")
            .unwrap(),
        ParsedField {
            name: b"size".to_vec(),
            typ: Type::new::<u32>().array_of(5),
        }
    );
}

#[test]
fn test_parse_struct_definition() {
    assert_eq!(
        parse_struct_definition(
            r#"trigger_data => { type=>'TriggerData', seq=>$mem_seq++, 'contents'=> {
    size             => { type=>'uint32', seq=>$mem_seq++ },
    trigger_cause    => { type=>'int8[32]', seq=>$mem_seq++ },
  }
  },"#
        )
        .unwrap()
        .unwrap(),
        ParsedStruct {
            name: b"TriggerData".to_vec(),
            fields: vec![
                ParsedField {
                    name: b"size".to_vec(),
                    typ: Type::new::<u32>(),
                },
                ParsedField {
                    name: b"trigger_cause".to_vec(),
                    typ: Type::new::<i8>().array_of(32),
                },
            ],
        }
    );
}

const INPUT: &str = "our $mem_seq = 0;

our $mem_data = {
  shared_data => { type=>'SharedData', seq=>$mem_seq++, contents=> {
    size             => { type=>'uint32', seq=>$mem_seq++ },
    startup_time     => { type=>'time_t64', seq=>$mem_seq++ },
    audio_fifo       => { type=>'int8[64]', seq=>$mem_seq++ },
  }
  },
  trigger_data => { type=>'TriggerData', seq=>$mem_seq++, 'contents'=> {
    size             => { type=>'uint32', seq=>$mem_seq++ },
    trigger_cause    => { type=>'int8[32]', seq=>$mem_seq++ },
  }
  },
  end => { seq=>$mem_seq++, size=>0 }
};

our $mem_size = 0;

sub zmMemInit {
";

#[test]
fn test_parse_memory_pm() {
    assert_eq!(
        parse_memory_pm(INPUT).unwrap(),
        ParsedStruct {
            name: b"memory".to_vec(),
            fields: vec![
                ParsedField {
                    name: b"SharedData::size".to_vec(),
                    typ: Type::new::<u32>(),
                },
                ParsedField {
                    name: b"SharedData::startup_time".to_vec(),
                    typ: Type::new::<i64>(),
                },
                ParsedField {
                    name: b"SharedData::audio_fifo".to_vec(),
                    typ: Type::new::<i8>().array_of(64),
                },
                ParsedField {
                    name: b"TriggerData::size".to_vec(),
                    typ: Type::new::<u32>(),
                },
                ParsedField {
                    name: b"TriggerData::trigger_cause".to_vec(),
                    typ: Type::new::<i8>().array_of(32),
                },
                ParsedField {
                    name: b"VideoStoreData::size".to_vec(),
                    typ: Type::new::<u32>(),
                },
            ],
        }
    );
}

#[test]
fn test_align_to() {
    assert_eq!(align_to(6, 8), 8);
    assert_eq!(align_to(8, 8), 8);
    assert_eq!(align_to(0, 8), 0);
    assert_eq!(align_to(7, 1), 7);
}

#[test]
fn test_read_memory_pm() {
    assert_eq!(
        read_memory_pm(INPUT).unwrap(),
        Struct {
            name: b"memory".to_vec(),
            size: 4 + 4 + 8 + 64 + 4 + 32 + 4,
            fields: vec![
                Field {
                    name: b"SharedData::size".to_vec(),
                    typ: Type::new::<u32>(),
                    offset: 0,
                },
                Field {
                    name: b"SharedData::startup_time".to_vec(),
                    typ: Type::new::<i64>(),
                    offset: 8,
                },
                Field {
                    name: b"SharedData::audio_fifo".to_vec(),
                    typ: Type::new::<i8>().array_of(64),
                    offset: 16,
                },
                Field {
                    name: b"TriggerData::size".to_vec(),
                    typ: Type::new::<u32>(),
                    offset: 80,
                },
                Field {
                    name: b"TriggerData::trigger_cause".to_vec(),
                    typ: Type::new::<i8>().array_of(32),
                    offset: 84,
                },
                Field {
                    name: b"VideoStoreData::size".to_vec(),
                    typ: Type::new::<u32>(),
                    offset: 116,
                },
            ],
        }
    );
}

// The canonical descriptor of a struct holding a 32-bit size, a 64-bit time
// and a 64-byte name array resolves to offsets {0, 8, 16}: four bytes of
// padding precede the 8-aligned time, and the struct's size counts no
// trailing padding: 4 + 4 + 8 + 64 = 80.
#[test]
fn canonical_descriptor_offsets() {
    let parsed = parse_struct_definition(
        "shared_data => { type=>'SharedData', seq=>$mem_seq++, contents=> {
    size             => { type=>'uint32', seq=>$mem_seq++ },
    startup_time     => { type=>'time_t64', seq=>$mem_seq++ },
    audio_fifo       => { type=>'int8[64]', seq=>$mem_seq++ },
  }
  },",
    )
    .unwrap()
    .unwrap();
    let resolved = parsed.calculate_offsets().unwrap();
    assert_eq!(resolved.size, 80);
    assert_eq!(resolved.fields[0].offset, 0);
    assert_eq!(resolved.fields[1].offset, 8);
    assert_eq!(resolved.fields[2].offset, 16);
}

#[test]
fn unknown_scalar_token_is_fatal() {
    assert_eq!(parse_typename("foo"), Err(LayoutError::UnknownScalar));
    assert_eq!(parse_typename("widechar[4]"), Err(LayoutError::UnknownScalar));
}

#[test]
fn descriptor_without_layout_block_is_fatal() {
    assert_eq!(
        parse_memory_pm("nothing of note here").unwrap_err(),
        LayoutError::MissingBlock
    );
    assert_eq!(
        parse_struct_definition("not a struct line").unwrap_err(),
        LayoutError::BadStructLine
    );
    assert_eq!(
        parse_field_definition("not a field line").unwrap_err(),
        LayoutError::BadFieldLine
    );
}

#[test]
fn truncated_struct_definition_is_fatal() {
    assert_eq!(
        parse_struct_definition(
            "trigger_data => { type=>'TriggerData', seq=>$mem_seq++, 'contents'=> {"
        )
        .unwrap_err(),
        LayoutError::UnexpectedEnd
    );
}
